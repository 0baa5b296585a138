use vstd::prelude::*;

use crate::bytes::{bytes_eq, copy_bytes};
use crate::entry::{EntryView, InventoryEntry, Kind};

verus! {

/// A whole-tree snapshot held in memory: its entries, looked up by file id.
#[derive(Debug, Clone)]
pub struct Inventory {
    pub entries: Vec<InventoryEntry>,
}

/// No entry with this file id.
#[derive(Debug, Clone)]
pub struct NoSuchId {
    pub file_id: Vec<u8>,
}

pub open spec fn entries_of(v: Seq<InventoryEntry>) -> Seq<EntryView> {
    v.map_values(|e: InventoryEntry| e@)
}

/// The index of the first entry of `s` with file id `fid`, or -1.
pub open spec fn find_id(s: Seq<EntryView>, fid: Seq<u8>) -> int
    decreases s.len(),
{
    if s.len() == 0 {
        -1
    } else if find_id(s.drop_last(), fid) >= 0 {
        find_id(s.drop_last(), fid)
    } else if s.last().file_id() == fid {
        s.len() - 1
    } else {
        -1
    }
}

proof fn lemma_find_id_bounds(s: Seq<EntryView>, fid: Seq<u8>)
    ensures
        -1 <= find_id(s, fid) < s.len(),
        find_id(s, fid) >= 0 ==> s[find_id(s, fid)].file_id() == fid,
    decreases s.len(),
{
    if s.len() > 0 {
        lemma_find_id_bounds(s.drop_last(), fid);
    }
}

/// The entry of `s` with file id `fid`, if any.
pub open spec fn lookup(s: Seq<EntryView>, fid: Seq<u8>) -> Option<EntryView> {
    if find_id(s, fid) >= 0 {
        Some(s[find_id(s, fid)])
    } else {
        None
    }
}

impl View for Inventory {
    type V = Seq<EntryView>;

    open spec fn view(&self) -> Seq<EntryView> {
        entries_of(self.entries@)
    }
}

impl Inventory {
    pub fn new() -> (r: Inventory)
        ensures
            r@ == Seq::<EntryView>::empty(),
    {
        let r = Inventory { entries: Vec::new() };
        assert(r@ =~= Seq::<EntryView>::empty());
        r
    }

    /// Adds an entry.
    pub fn add(&mut self, e: InventoryEntry)
        ensures
            final(self)@ == old(self)@.push(e@),
    {
        self.entries.push(e);
        assert(entries_of(self.entries@) =~= entries_of(old(self).entries@).push(e@));
    }

    /// The index of the entry with file id `fid`, if any.
    pub fn index_of(&self, fid: &[u8]) -> (r: Option<usize>)
        ensures
            r is None ==> find_id(self@, fid@) == -1,
            r matches Some(i) ==> find_id(self@, fid@) == i && i < self@.len(),
    {
        let ghost s = self@;
        let mut i: usize = 0;
        while i < self.entries.len()
            invariant
                s == self@,
                0 <= i <= s.len(),
                find_id(s.take(i as int), fid@) == -1,
            decreases s.len() - i,
        {
            assert(s.take(i + 1).drop_last() =~= s.take(i as int));
            if bytes_eq(self.entries[i].file_id().as_slice(), fid) {
                assert(s[i as int] == self.entries@[i as int]@);
                proof {
                    lemma_find_id_prefix(s, i as int + 1, fid@);
                }
                return Some(i);
            }
            i = i + 1;
        }
        assert(s.take(i as int) =~= s);
        None
    }

    /// Whether an entry has file id `fid`.
    pub fn has_id(&self, fid: &[u8]) -> (r: bool)
        ensures
            r == (lookup(self@, fid@) is Some),
    {
        self.index_of(fid).is_some()
    }

    /// The entry with file id `fid`.
    pub fn get_entry(&self, fid: &[u8]) -> (r: Result<&InventoryEntry, NoSuchId>)
        ensures
            match lookup(self@, fid@) {
                Some(e) => r is Ok && r->Ok_0@ == e,
                None => r is Err && r->Err_0.file_id@ == fid@,
            },
    {
        match self.index_of(fid) {
            Some(i) => Ok(&self.entries[i]),
            None => Err(NoSuchId { file_id: copy_bytes(fid) }),
        }
    }
}

proof fn lemma_find_id_prefix(s: Seq<EntryView>, m: int, fid: Seq<u8>)
    requires
        0 <= m <= s.len(),
        find_id(s.take(m), fid) >= 0,
    ensures
        find_id(s, fid) == find_id(s.take(m), fid),
    decreases s.len() - m,
{
    if m < s.len() {
        assert(s.take(m + 1).drop_last() =~= s.take(m));
        lemma_find_id_prefix(s, m + 1, fid);
    } else {
        assert(s.take(m) =~= s);
    }
}

/// The snapshot index of the candidate with revision `rev`, if any.
pub open spec fn candidate_for(g: Seq<Option<EntryView>>, c: Seq<int>, rev: Seq<u8>) -> Option<int>
    decreases c.len(),
{
    if c.len() == 0 {
        None
    } else {
        match candidate_for(g, c.drop_last(), rev) {
            Some(j) => Some(j),
            None => {
                let j = c.last();
                if 0 <= j < g.len() && g[j] is Some && g[j]->0.revision() == Some(rev) {
                    Some(j)
                } else {
                    None
                }
            },
        }
    }
}

/// Goes through what each snapshot holds for one file id, in order. The
/// first entry seen with a revision becomes that revision's candidate; a
/// later file entry of the same revision whose executable bit differs from
/// its candidate's has both bits cleared. Returns what each snapshot holds
/// afterwards, and the snapshot indexes of the candidates.
pub open spec fn resolve(found: Seq<Option<EntryView>>) -> (Seq<Option<EntryView>>, Seq<int>)
    decreases found.len(),
{
    if found.len() == 0 {
        (Seq::empty(), Seq::empty())
    } else {
        let (g, c) = resolve(found.drop_last());
        let x = found.last();
        match x {
            Some(e) => match e.revision() {
                Some(rev) => match candidate_for(g, c, rev) {
                    None => (g.push(x), c.push(g.len() as int)),
                    Some(j) => {
                        let cand = g[j]->0;
                        if cand.kind() == Kind::File && e.kind() == Kind::File && exec_of(cand) != exec_of(e) {
                            (
                                g.update(j, Some(cand.with_executable(false))).push(
                                    Some(e.with_executable(false)),
                                ),
                                c,
                            )
                        } else {
                            (g.push(x), c)
                        }
                    },
                },
                None => (g.push(x), c),
            },
            None => (g.push(x), c),
        }
    }
}

pub open spec fn exec_of(e: EntryView) -> bool {
    match e {
        EntryView::File { executable, .. } => executable,
        _ => false,
    }
}

/// What each snapshot holds for file id `fid`.
pub open spec fn lookups(snaps: Seq<Seq<EntryView>>, fid: Seq<u8>) -> Seq<Option<EntryView>> {
    Seq::new(snaps.len(), |k: int| lookup(snaps[k], fid))
}

pub open spec fn snapshots_of(v: Seq<Inventory>) -> Seq<Seq<EntryView>> {
    v.map_values(|i: Inventory| i@)
}

/// The candidates as revision and entry pairs.
pub open spec fn candidate_pairs(g: Seq<Option<EntryView>>, c: Seq<int>) -> Seq<(Seq<u8>, EntryView)> {
    Seq::new(c.len(), |p: int| (g[c[p]]->0.revision()->0, g[c[p]]->0))
}

pub open spec fn pairs_of(v: Seq<(Vec<u8>, InventoryEntry)>) -> Seq<(Seq<u8>, EntryView)> {
    v.map_values(|p: (Vec<u8>, InventoryEntry)| (p.0@, p.1@))
}

pub open spec fn views_of(g: Seq<Option<InventoryEntry>>) -> Seq<Option<EntryView>> {
    Seq::new(g.len(), |m: int| match g[m] { Some(e) => Some(e@), None => None })
}

pub open spec fn ints_of(c: Seq<usize>) -> Seq<int> {
    Seq::new(c.len(), |p: int| c[p] as int)
}

/// Whether slot `j` of `g` holds an entry of revision `rev`.
fn revision_at(g: &Vec<Option<InventoryEntry>>, j: usize, rev: &Vec<u8>) -> (r: bool)
    ensures
        r == (0 <= j < views_of(g@).len() && views_of(g@)[j as int] is Some && views_of(g@)[j as int]->0.revision()
            == Some(rev@)),
{
    if j >= g.len() {
        return false;
    }
    match &g[j] {
        Some(ce) => match ce.revision() {
            Some(cr) => bytes_eq(cr.as_slice(), rev.as_slice()),
            None => false,
        },
        None => false,
    }
}

/// Finds the possible per-file graph parents of the file `file_id` among the
/// previous snapshots: one entry per distinct revision, the first one seen.
/// A snapshot without the file is skipped. Where two file entries of one
/// revision disagree on the executable bit, both bits are cleared, in the
/// snapshots too.
pub fn parent_candidates(file_id: &[u8], previous: &mut Vec<Inventory>) -> (r: Vec<(Vec<u8>, InventoryEntry)>)
    ensures
        ({
            let found = lookups(snapshots_of(old(previous)@), file_id@);
            let (g, c) = resolve(found);
            &&& pairs_of(r@) == candidate_pairs(g, c)
            &&& final(previous)@.len() == old(previous)@.len()
            &&& forall|k: int|
                0 <= k < old(previous)@.len() ==> (#[trigger] final(previous)@[k])@ == match g[k] {
                    Some(e) => old(previous)@[k]@.update(find_id(old(previous)@[k]@, file_id@), e),
                    None => old(previous)@[k]@,
                }
        }),
{
    let ghost snaps = snapshots_of(previous@);
    let ghost found = lookups(snaps, file_id@);
    let n = previous.len();
    let mut g: Vec<Option<InventoryEntry>> = Vec::new();
    let mut idx: Vec<usize> = Vec::new();
    let mut c: Vec<usize> = Vec::new();
    let mut k: usize = 0;
    assert(found.take(0) =~= Seq::<Option<EntryView>>::empty());
    assert(views_of(g@) =~= Seq::<Option<EntryView>>::empty());
    assert(ints_of(c@) =~= Seq::<int>::empty());
    while k < n
        invariant
            n == previous@.len(),
            previous@ == old(previous)@,
            snaps == snapshots_of(previous@),
            found == lookups(snaps, file_id@),
            0 <= k <= n,
            g@.len() == k,
            idx@.len() == k,
            forall|m: int|
                0 <= m < k && (#[trigger] g@[m]) is Some ==> idx@[m] == find_id(snaps[m], file_id@) && find_id(
                    snaps[m],
                    file_id@,
                ) >= 0,
            forall|p: int|
                0 <= p < c@.len() ==> (#[trigger] c@[p]) < k && g@[c@[p] as int] is Some && g@[c@[p] as int]->0@.revision() is Some,
            resolve(found.take(k as int)) == (views_of(g@), ints_of(c@)),
        decreases n - k,
    {
        assert(found.take(k + 1).drop_last() =~= found.take(k as int));
        assert(found.take(k + 1).last() == found[k as int]);
        assert(snaps[k as int] == previous@[k as int]@);
        let ghost gv = views_of(g@);
        let ghost cv = ints_of(c@);
        proof {
            lemma_find_id_bounds(snaps[k as int], file_id@);
        }
        match previous[k].index_of(file_id) {
            None => {
                g.push(None);
                idx.push(0);
                assert(views_of(g@) =~= gv.push(None));
            },
            Some(i) => {
                let e = previous[k].entries[i].copy();
                assert(e@ == found[k as int]->0);
                match e.revision() {
                    None => {
                        g.push(Some(e));
                        idx.push(i);
                        assert(views_of(g@) =~= gv.push(Some(e@)));
                    },
                    Some(rev) => {
                        let ghost rv = rev@;
                        let mut p: usize = 0;
                        let mut hit: Option<usize> = None;
                        while p < c.len() && hit.is_none()
                            invariant
                                0 <= p <= c@.len(),
                                g@.len() == k,
                                cv == ints_of(c@),
                                gv == views_of(g@),
                                rv == rev@,
                                forall|q: int| 0 <= q < c@.len() ==> (#[trigger] c@[q]) < k,
                                hit is None ==> candidate_for(gv, cv.take(p as int), rv) is None,
                                hit matches Some(j) ==> candidate_for(gv, cv, rv) == Some(j as int) && j < k,
                            decreases c@.len() - p, (if hit is None { 1int } else { 0int }),
                        {
                            assert(cv.take(p + 1).drop_last() =~= cv.take(p as int));
                            assert(cv.take(p + 1).last() == cv[p as int]);
                            let j = c[p];
                            let found_here = revision_at(&g, j, rev);
                            assert(candidate_for(gv, cv.take(p as int + 1), rv) == (if found_here {
                                Some(j as int)
                            } else {
                                None
                            }));
                            if found_here {
                                proof {
                                    lemma_candidate_prefix(gv, cv, p as int + 1, rv);
                                }
                                hit = Some(j);
                            } else {
                                p = p + 1;
                            }
                        }
                        proof {
                            if hit is None {
                                assert(cv.take(p as int) =~= cv);
                            }
                        }
                        let e_file = e.kind() == Kind::File;
                        match hit {
                            None => {
                                g.push(Some(e));
                                idx.push(i);
                                c.push(k);
                                assert(views_of(g@) =~= gv.push(Some(e@)));
                                assert(ints_of(c@) =~= cv.push(k as int));
                            },
                            Some(j) => {
                                proof {
                                    lemma_candidate_for(gv, cv, rv);
                                }
                                assert(gv[j as int] == Some(g@[j as int]->0@));
                                let cand_differs = match &g[j] {
                                    Some(ce) => ce.kind() == Kind::File && e_file && ce.executable() != e.executable(),
                                    None => false,
                                };
                                if cand_differs {
                                    let mut ce = g[j].as_ref().unwrap().copy();
                                    ce.set_executable(false);
                                    let ghost cev = ce@;
                                    g.set(j, Some(ce));
                                    let mut e2 = e;
                                    e2.set_executable(false);
                                    g.push(Some(e2));
                                    idx.push(i);
                                    assert(views_of(g@) =~= gv.update(j as int, Some(cev)).push(Some(e2@)));
                                } else {
                                    g.push(Some(e));
                                    idx.push(i);
                                    assert(views_of(g@) =~= gv.push(Some(e@)));
                                }
                            },
                        }
                    },
                }
            },
        }
        k = k + 1;
    }
    assert(found.take(n as int) =~= found);
    let ghost gfin = views_of(g@);
    let ghost cfin = ints_of(c@);
    let mut out: Vec<(Vec<u8>, InventoryEntry)> = Vec::new();
    let mut p: usize = 0;
    while p < c.len()
        invariant
            0 <= p <= c@.len(),
            g@.len() == n,
            gfin == views_of(g@),
            cfin == ints_of(c@),
            forall|q: int|
                0 <= q < c@.len() ==> (#[trigger] c@[q]) < n && g@[c@[q] as int] is Some && g@[c@[q] as int]->0@.revision() is Some,
            pairs_of(out@) == candidate_pairs(gfin, cfin).take(p as int),
        decreases c@.len() - p,
    {
        let j = c[p];
        assert(c@[p as int] < n);
        let e = g[j].as_ref().unwrap();
        let rev = copy_bytes(e.revision().as_ref().unwrap().as_slice());
        let ghost before = out@;
        out.push((rev, e.copy()));
        assert(pairs_of(out@) =~= pairs_of(before).push((rev@, e@)));
        assert(candidate_pairs(gfin, cfin).take(p + 1) =~= candidate_pairs(gfin, cfin).take(p as int).push(
            (rev@, e@),
        ));
        p = p + 1;
    }
    assert(candidate_pairs(gfin, cfin).take(p as int) =~= candidate_pairs(gfin, cfin));
    let mut k: usize = 0;
    while k < n
        invariant
            n == g@.len(),
            n == idx@.len(),
            n == old(previous)@.len(),
            previous@.len() == n,
            snaps == snapshots_of(old(previous)@),
            gfin == views_of(g@),
            forall|m: int|
                0 <= m < n && (#[trigger] g@[m]) is Some ==> idx@[m] == find_id(snaps[m], file_id@) && find_id(
                    snaps[m],
                    file_id@,
                ) >= 0,
            0 <= k <= n,
            forall|m: int| k <= m < n ==> #[trigger] previous@[m] == old(previous)@[m],
            forall|m: int|
                0 <= m < k ==> (#[trigger] previous@[m])@ == match gfin[m] {
                    Some(e) => old(previous)@[m]@.update(find_id(old(previous)@[m]@, file_id@), e),
                    None => old(previous)@[m]@,
                },
        decreases n - k,
    {
        assert(snaps[k as int] == old(previous)@[k as int]@);
        proof {
            lemma_find_id_bounds(snaps[k as int], file_id@);
        }
        match &g[k] {
            Some(e) => {
                let ghost pv = previous@;
                let mut inv = previous.remove(k);
                let i = idx[k];
                let ghost ie = inv.entries@;
                inv.entries.set(i, e.copy());
                assert(entries_of(inv.entries@) =~= entries_of(ie).update(i as int, e@));
                previous.insert(k, inv);
                assert(previous@ =~= pv.update(k as int, inv));
            },
            None => {},
        }
        k = k + 1;
    }
    out
}

proof fn lemma_candidate_for(g: Seq<Option<EntryView>>, c: Seq<int>, rev: Seq<u8>)
    ensures
        candidate_for(g, c, rev) matches Some(j) ==> 0 <= j < g.len() && g[j] is Some && g[j]->0.revision()
            == Some(rev),
    decreases c.len(),
{
    if c.len() > 0 {
        lemma_candidate_for(g, c.drop_last(), rev);
    }
}

proof fn lemma_candidate_prefix(g: Seq<Option<EntryView>>, c: Seq<int>, m: int, rev: Seq<u8>)
    requires
        0 <= m <= c.len(),
        candidate_for(g, c.take(m), rev) is Some,
    ensures
        candidate_for(g, c, rev) == candidate_for(g, c.take(m), rev),
    decreases c.len() - m,
{
    if m < c.len() {
        assert(c.take(m + 1).drop_last() =~= c.take(m));
        lemma_candidate_prefix(g, c, m + 1, rev);
    } else {
        assert(c.take(m) =~= c);
    }
}

/// When two snapshots hold file entries of one file id at one revision with
/// different executable bits, there is one candidate, for that revision,
/// and both entries end up not executable.
pub proof fn lemma_conflicting_executable_bits(a: EntryView, b: EntryView)
    requires
        a.kind() == Kind::File,
        b.kind() == Kind::File,
        a.revision() is Some,
        a.revision() == b.revision(),
        exec_of(a) != exec_of(b),
    ensures
        ({
            let (g, c) = resolve(seq![Some(a), Some(b)]);
            &&& c == seq![0int]
            &&& g == seq![Some(a.with_executable(false)), Some(b.with_executable(false))]
            &&& candidate_pairs(g, c) == seq![(a.revision()->0, a.with_executable(false))]
        }),
{
    let s = seq![Some(a), Some(b)];
    assert(s.drop_last() =~= seq![Some(a)]);
    assert(seq![Some(a)].drop_last() =~= Seq::<Option<EntryView>>::empty());
    assert(resolve(Seq::<Option<EntryView>>::empty()) == (Seq::<Option<EntryView>>::empty(), Seq::<int>::empty()));
    let (g1, c1) = resolve(seq![Some(a)]);
    assert(g1 =~= seq![Some(a)]);
    assert(c1 =~= seq![0int]);
    assert(c1.drop_last() =~= Seq::<int>::empty());
    assert(candidate_for(g1, Seq::<int>::empty(), a.revision()->0) is None);
    assert(candidate_for(g1, c1, a.revision()->0) == Some(0int));
    let (g, c) = resolve(s);
    assert(g =~= seq![Some(a.with_executable(false)), Some(b.with_executable(false))]);
    assert(candidate_pairs(g, c) =~= seq![(a.revision()->0, a.with_executable(false))]);
}

} // verus!
