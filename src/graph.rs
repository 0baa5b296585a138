use vstd::prelude::*;

use crate::bytes::{bytes_eq, copy_bytes};

verus! {

/// A key and its parents.
pub type ParentEntry = (Vec<u8>, Vec<Vec<u8>>);

pub open spec fn keys_view(v: Seq<Vec<u8>>) -> Seq<Seq<u8>> {
    v.map_values(|k: Vec<u8>| k@)
}

pub open spec fn entry_view(e: ParentEntry) -> (Seq<u8>, Seq<Seq<u8>>) {
    (e.0@, keys_view(e.1@))
}

pub open spec fn entries_view(v: Seq<ParentEntry>) -> Seq<(Seq<u8>, Seq<Seq<u8>>)> {
    v.map_values(|e: ParentEntry| entry_view(e))
}

/// The parents that `m` records for `key`: those of its first entry for it.
pub open spec fn parents_in(m: Seq<(Seq<u8>, Seq<Seq<u8>>)>, key: Seq<u8>) -> Option<Seq<Seq<u8>>>
    decreases m.len(),
{
    if m.len() == 0 {
        None
    } else if m[0].0 == key {
        Some(m[0].1)
    } else {
        parents_in(m.drop_first(), key)
    }
}

/// The parents that the first provider knowing `key` records for it.
pub open spec fn stacked_parents(ps: Seq<Seq<(Seq<u8>, Seq<Seq<u8>>)>>, key: Seq<u8>) -> Option<Seq<Seq<u8>>>
    decreases ps.len(),
{
    if ps.len() == 0 {
        None
    } else if parents_in(ps[0], key) is Some {
        parents_in(ps[0], key)
    } else {
        stacked_parents(ps.drop_first(), key)
    }
}

/// The known keys among `keys`, in order, each with its parents.
pub open spec fn answer(keys: Seq<Seq<u8>>, f: spec_fn(Seq<u8>) -> Option<Seq<Seq<u8>>>) -> Seq<
    (Seq<u8>, Seq<Seq<u8>>),
>
    decreases keys.len(),
{
    if keys.len() == 0 {
        Seq::empty()
    } else {
        let rest = answer(keys.drop_last(), f);
        match f(keys.last()) {
            Some(p) => rest.push((keys.last(), p)),
            None => rest,
        }
    }
}

fn copy_keys(v: &Vec<Vec<u8>>) -> (r: Vec<Vec<u8>>)
    ensures
        keys_view(r@) == keys_view(v@),
{
    let mut r: Vec<Vec<u8>> = Vec::new();
    let mut i: usize = 0;
    while i < v.len()
        invariant
            0 <= i <= v@.len(),
            keys_view(r@) == keys_view(v@).take(i as int),
        decreases v@.len() - i,
    {
        let ghost before = r@;
        let k = copy_bytes(v[i].as_slice());
        r.push(k);
        assert(keys_view(r@) =~= keys_view(before).push(k@));
        assert(keys_view(v@).take(i + 1) =~= keys_view(v@).take(i as int).push(v@[i as int]@));
        i = i + 1;
    }
    assert(keys_view(v@).take(i as int) =~= keys_view(v@));
    r
}

/// A source of the parents of revisions.
pub trait ParentsProvider {
    /// The known keys among `keys`, each with its parents.
    fn get_parent_map(&self, keys: &Vec<Vec<u8>>) -> Vec<ParentEntry>;
}

/// Parents held in memory.
pub struct DictParentsProvider {
    pub parent_map: Vec<ParentEntry>,
}

impl DictParentsProvider {
    pub open spec fn view(&self) -> Seq<(Seq<u8>, Seq<Seq<u8>>)> {
        entries_view(self.parent_map@)
    }

    pub fn new(parent_map: Vec<ParentEntry>) -> (r: DictParentsProvider)
        ensures
            r.view() == entries_view(parent_map@),
    {
        DictParentsProvider { parent_map }
    }

    /// The parents recorded for `key`, if any.
    pub fn lookup(&self, key: &[u8]) -> (r: Option<Vec<Vec<u8>>>)
        ensures
            match parents_in(self.view(), key@) {
                Some(p) => r matches Some(v) && keys_view(v@) == p,
                None => r is None,
            },
    {
        let ghost m = self.view();
        let mut i: usize = 0;
        assert(m.skip(0) =~= m);
        while i < self.parent_map.len()
            invariant
                m == self.view(),
                0 <= i <= m.len(),
                parents_in(m, key@) == parents_in(m.skip(i as int), key@),
            decreases m.len() - i,
        {
            assert(m.skip(i as int)[0] == entry_view(self.parent_map@[i as int]));
            if bytes_eq(self.parent_map[i].0.as_slice(), key) {
                return Some(copy_keys(&self.parent_map[i].1));
            }
            assert(m.skip(i as int).drop_first() =~= m.skip(i + 1));
            i = i + 1;
        }
        None
    }

    /// The known keys among `keys`, in order, each with its parents.
    pub fn parents_of(&self, keys: &Vec<Vec<u8>>) -> (r: Vec<ParentEntry>)
        ensures
            entries_view(r@) == answer(keys_view(keys@), |k: Seq<u8>| parents_in(self.view(), k)),
    {
        let ghost f = |k: Seq<u8>| parents_in(self.view(), k);
        let ghost ks = keys_view(keys@);
        let mut out: Vec<ParentEntry> = Vec::new();
        let mut i: usize = 0;
        while i < keys.len()
            invariant
                ks == keys_view(keys@),
                f == (|k: Seq<u8>| parents_in(self.view(), k)),
                0 <= i <= ks.len(),
                entries_view(out@) == answer(ks.take(i as int), f),
            decreases ks.len() - i,
        {
            assert(ks.take(i + 1).drop_last() =~= ks.take(i as int));
            assert(ks.take(i + 1).last() == keys@[i as int]@);
            let ghost before = out@;
            match self.lookup(keys[i].as_slice()) {
                Some(p) => {
                    let k = copy_bytes(keys[i].as_slice());
                    out.push((k, p));
                    assert(entries_view(out@) =~= entries_view(before).push((k@, keys_view(p@))));
                },
                None => {},
            }
            i = i + 1;
        }
        assert(ks.take(i as int) =~= ks);
        out
    }
}

impl ParentsProvider for DictParentsProvider {
    fn get_parent_map(&self, keys: &Vec<Vec<u8>>) -> Vec<ParentEntry> {
        self.parents_of(keys)
    }
}

/// Several providers asked in turn: a key takes its parents from the first
/// provider that knows it.
pub struct StackedParentsProvider {
    pub parent_providers: Vec<DictParentsProvider>,
}

impl StackedParentsProvider {
    pub open spec fn view(&self) -> Seq<Seq<(Seq<u8>, Seq<Seq<u8>>)>> {
        self.parent_providers@.map_values(|p: DictParentsProvider| p.view())
    }

    pub fn new(parent_providers: Vec<DictParentsProvider>) -> (r: StackedParentsProvider)
        ensures
            r.parent_providers@ == parent_providers@,
    {
        StackedParentsProvider { parent_providers }
    }

    /// The parents of `key` from the first provider that knows it.
    pub fn lookup(&self, key: &[u8]) -> (r: Option<Vec<Vec<u8>>>)
        ensures
            match stacked_parents(self.view(), key@) {
                Some(p) => r matches Some(v) && keys_view(v@) == p,
                None => r is None,
            },
    {
        let ghost ps = self.view();
        let mut i: usize = 0;
        assert(ps.skip(0) =~= ps);
        while i < self.parent_providers.len()
            invariant
                ps == self.view(),
                0 <= i <= ps.len(),
                stacked_parents(ps, key@) == stacked_parents(ps.skip(i as int), key@),
            decreases ps.len() - i,
        {
            assert(ps.skip(i as int)[0] == self.parent_providers@[i as int].view());
            match self.parent_providers[i].lookup(key) {
                Some(p) => {
                    return Some(p);
                },
                None => {},
            }
            assert(ps.skip(i as int).drop_first() =~= ps.skip(i + 1));
            i = i + 1;
        }
        None
    }

    /// The known keys among `keys`, in order, each with its parents.
    pub fn parents_of(&self, keys: &Vec<Vec<u8>>) -> (r: Vec<ParentEntry>)
        ensures
            entries_view(r@) == answer(keys_view(keys@), |k: Seq<u8>| stacked_parents(self.view(), k)),
    {
        let ghost f = |k: Seq<u8>| stacked_parents(self.view(), k);
        let ghost ks = keys_view(keys@);
        let mut out: Vec<ParentEntry> = Vec::new();
        let mut i: usize = 0;
        while i < keys.len()
            invariant
                ks == keys_view(keys@),
                f == (|k: Seq<u8>| stacked_parents(self.view(), k)),
                0 <= i <= ks.len(),
                entries_view(out@) == answer(ks.take(i as int), f),
            decreases ks.len() - i,
        {
            assert(ks.take(i + 1).drop_last() =~= ks.take(i as int));
            assert(ks.take(i + 1).last() == keys@[i as int]@);
            let ghost before = out@;
            match self.lookup(keys[i].as_slice()) {
                Some(p) => {
                    let k = copy_bytes(keys[i].as_slice());
                    out.push((k, p));
                    assert(entries_view(out@) =~= entries_view(before).push((k@, keys_view(p@))));
                },
                None => {},
            }
            i = i + 1;
        }
        assert(ks.take(i as int) =~= ks);
        out
    }
}

impl ParentsProvider for StackedParentsProvider {
    fn get_parent_map(&self, keys: &Vec<Vec<u8>>) -> Vec<ParentEntry> {
        self.parents_of(keys)
    }
}

} // verus!
