use vstd::prelude::*;

use crate::bytes::{append_bytes, bytes_eq, copy_bytes, copy_opt_str, opt_chars, opt_str_eq};
use crate::entry::{EntryView, InventoryEntry};

verus! {

/// One change record: the path before and after, the file id, and the
/// entry after the change (absent for a removal).
#[derive(Debug, Clone, PartialEq, Eq)]
pub struct InventoryDeltaEntry {
    pub old_path: Option<String>,
    pub new_path: Option<String>,
    pub file_id: Vec<u8>,
    pub new_entry: Option<InventoryEntry>,
}

/// The mathematical value of a change record.
pub struct DeltaEntryView {
    pub old_path: Option<Seq<char>>,
    pub new_path: Option<Seq<char>>,
    pub file_id: Seq<u8>,
    pub new_entry: Option<EntryView>,
}

pub open spec fn opt_entry(e: Option<InventoryEntry>) -> Option<EntryView> {
    match e {
        Some(x) => Some(x@),
        None => None,
    }
}

impl View for InventoryDeltaEntry {
    type V = DeltaEntryView;

    open spec fn view(&self) -> DeltaEntryView {
        DeltaEntryView {
            old_path: opt_chars(self.old_path),
            new_path: opt_chars(self.new_path),
            file_id: self.file_id@,
            new_entry: opt_entry(self.new_entry),
        }
    }
}

impl InventoryDeltaEntry {
    /// A copy of the record.
    pub fn copy(&self) -> (r: InventoryDeltaEntry)
        ensures
            r@ == self@,
    {
        InventoryDeltaEntry {
            old_path: copy_opt_str(&self.old_path),
            new_path: copy_opt_str(&self.new_path),
            file_id: copy_bytes(self.file_id.as_slice()),
            new_entry: match &self.new_entry {
                Some(e) => Some(e.copy()),
                None => None,
            },
        }
    }
}

/// The ways in which a delta can be inconsistent.
#[derive(Clone, Copy, Debug, PartialEq, Eq, Structural)]
pub enum InconsistencyKind {
    EntryWithoutPath,
    PathWithoutEntry,
    MismatchedId,
    DuplicateOldPath,
    DuplicateNewPath,
    DuplicateFileId,
}

impl InconsistencyKind {
    pub open spec fn message_spec(self) -> Seq<char> {
        match self {
            InconsistencyKind::EntryWithoutPath => "entry without path"@,
            InconsistencyKind::PathWithoutEntry => "path without entry"@,
            InconsistencyKind::MismatchedId => "mismatched id"@,
            InconsistencyKind::DuplicateOldPath => "duplicate old path"@,
            InconsistencyKind::DuplicateNewPath => "duplicate new path"@,
            InconsistencyKind::DuplicateFileId => "duplicate file id"@,
        }
    }

    /// A short description of the inconsistency.
    pub fn message(&self) -> (r: &'static str)
        ensures
            r@ == self.message_spec(),
    {
        match self {
            InconsistencyKind::EntryWithoutPath => "entry without path",
            InconsistencyKind::PathWithoutEntry => "path without entry",
            InconsistencyKind::MismatchedId => "mismatched id",
            InconsistencyKind::DuplicateOldPath => "duplicate old path",
            InconsistencyKind::DuplicateNewPath => "duplicate new path",
            InconsistencyKind::DuplicateFileId => "duplicate file id",
        }
    }
}

/// The first inconsistency of a delta: its kind, the index of the record
/// where it shows, that record's file id, and the path it concerns.
#[derive(Debug, Clone)]
pub struct InventoryDeltaInconsistency {
    pub kind: InconsistencyKind,
    pub index: usize,
    pub path: Option<String>,
    pub file_id: Vec<u8>,
}

/// What is wrong with record `r`, given the records `prev` before it.
pub open spec fn violation(prev: Seq<DeltaEntryView>, r: DeltaEntryView) -> Option<InconsistencyKind> {
    if r.new_path is None && r.new_entry is Some {
        Some(InconsistencyKind::EntryWithoutPath)
    } else if r.new_path is Some && r.new_entry is None {
        Some(InconsistencyKind::PathWithoutEntry)
    } else if r.new_entry is Some && r.new_entry->0.file_id() != r.file_id {
        Some(InconsistencyKind::MismatchedId)
    } else if r.old_path is Some && exists|j: int|
        0 <= j < prev.len() && #[trigger] prev[j].old_path == r.old_path {
        Some(InconsistencyKind::DuplicateOldPath)
    } else if r.new_path is Some && exists|j: int|
        0 <= j < prev.len() && #[trigger] prev[j].new_path == r.new_path {
        Some(InconsistencyKind::DuplicateNewPath)
    } else if r.new_entry is Some && exists|j: int|
        0 <= j < prev.len() && (#[trigger] prev[j].new_entry) is Some && prev[j].file_id == r.file_id {
        Some(InconsistencyKind::DuplicateFileId)
    } else {
        None
    }
}

/// The first record of `s` that shows an inconsistency, and its kind.
pub open spec fn first_violation(s: Seq<DeltaEntryView>) -> Option<(int, InconsistencyKind)>
    decreases s.len(),
{
    if s.len() == 0 {
        None
    } else {
        match first_violation(s.drop_last()) {
            Some(v) => Some(v),
            None => match violation(s.drop_last(), s.last()) {
                Some(k) => Some((s.len() - 1, k)),
                None => None,
            },
        }
    }
}

/// The path that an inconsistency of kind `k` in record `r` concerns.
pub open spec fn reported_path(k: InconsistencyKind, r: DeltaEntryView) -> Option<Seq<char>> {
    match k {
        InconsistencyKind::EntryWithoutPath | InconsistencyKind::DuplicateOldPath => r.old_path,
        _ => r.new_path,
    }
}

/// The sort key of an optional path: `None`, or the path's UTF-8 bytes
/// after a `/`.
pub open spec fn path_key(p: Option<Seq<char>>) -> Seq<u8> {
    match p {
        None => seq![78u8, 111u8, 110u8, 101u8],
        Some(s) => seq![47u8] + vstd::utf8::encode_utf8(s),
    }
}

/// Lexicographic order on byte strings, strict.
pub open spec fn bytes_lt(a: Seq<u8>, b: Seq<u8>) -> bool
    decreases a.len(),
{
    if a.len() == 0 {
        b.len() > 0
    } else if b.len() == 0 {
        false
    } else if a[0] != b[0] {
        a[0] < b[0]
    } else {
        bytes_lt(a.drop_first(), b.drop_first())
    }
}

/// The order of records: by new path, then old path, then file id. An
/// absent path (`None`) sorts after every present one, so removals come
/// after the records that have a new path.
pub open spec fn record_lt(a: DeltaEntryView, b: DeltaEntryView) -> bool {
    let (a1, b1) = (path_key(a.new_path), path_key(b.new_path));
    let (a2, b2) = (path_key(a.old_path), path_key(b.old_path));
    bytes_lt(a1, b1) || (a1 == b1 && (bytes_lt(a2, b2) || (a2 == b2 && bytes_lt(a.file_id, b.file_id))))
}

/// Inserts `x` before the first record of `s` that does not sort before it.
pub open spec fn insert_sorted(s: Seq<DeltaEntryView>, x: DeltaEntryView) -> Seq<DeltaEntryView>
    decreases s.len(),
{
    if s.len() == 0 {
        seq![x]
    } else if !record_lt(s[0], x) {
        seq![x] + s
    } else {
        seq![s[0]] + insert_sorted(s.drop_first(), x)
    }
}

/// The records of `s` in sorted order, inserted from the last to the first.
pub open spec fn sorted_records(s: Seq<DeltaEntryView>) -> Seq<DeltaEntryView>
    decreases s.len(),
{
    if s.len() == 0 {
        s
    } else {
        insert_sorted(sorted_records(s.drop_first()), s[0])
    }
}

/// Whether each record of `t` sorts no later than the next.
pub open spec fn records_sorted(t: Seq<DeltaEntryView>) -> bool {
    forall|i: int| 0 <= i < t.len() - 1 ==> !record_lt(#[trigger] t[i + 1], t[i])
}

proof fn lemma_bytes_lt_asymmetric(a: Seq<u8>, b: Seq<u8>)
    ensures
        bytes_lt(a, b) ==> !bytes_lt(b, a),
        !bytes_lt(a, a),
    decreases a.len(),
{
    if a.len() > 0 && b.len() > 0 {
        lemma_bytes_lt_asymmetric(a.drop_first(), b.drop_first());
    }
    if a.len() > 0 {
        lemma_bytes_lt_asymmetric(a.drop_first(), a.drop_first());
    }
}

proof fn lemma_record_lt_asymmetric(a: DeltaEntryView, b: DeltaEntryView)
    ensures
        record_lt(a, b) ==> !record_lt(b, a),
{
    lemma_bytes_lt_asymmetric(path_key(a.new_path), path_key(b.new_path));
    lemma_bytes_lt_asymmetric(path_key(a.old_path), path_key(b.old_path));
    lemma_bytes_lt_asymmetric(a.file_id, b.file_id);
    lemma_bytes_lt_asymmetric(path_key(b.new_path), path_key(b.new_path));
    lemma_bytes_lt_asymmetric(path_key(b.old_path), path_key(b.old_path));
}

/// Inserting into a sorted sequence gives a sorted sequence, one longer,
/// that starts with `x` or with the old first record.
pub proof fn lemma_insert_sorted_sorted(t: Seq<DeltaEntryView>, x: DeltaEntryView)
    requires
        records_sorted(t),
    ensures
        records_sorted(insert_sorted(t, x)),
        insert_sorted(t, x).len() == t.len() + 1,
        insert_sorted(t, x)[0] == x || (t.len() > 0 && insert_sorted(t, x)[0] == t[0]),
    decreases t.len(),
{
    if t.len() == 0 {
    } else if !record_lt(t[0], x) {
        let u = seq![x] + t;
        assert forall|i: int| 0 <= i < u.len() - 1 implies !record_lt(#[trigger] u[i + 1], u[i]) by {
            if i > 0 {
                assert(u[i + 1] == t[i] && u[i] == t[i - 1]);
                let k = i - 1;
                assert(!record_lt(t[k + 1], t[k]));
            }
        }
    } else {
        let rest = t.drop_first();
        assert(records_sorted(rest)) by {
            assert forall|i: int| 0 <= i < rest.len() - 1 implies !record_lt(#[trigger] rest[i + 1], rest[i]) by {
                assert(rest[i + 1] == t[i + 2] && rest[i] == t[i + 1]);
            }
        }
        lemma_insert_sorted_sorted(rest, x);
        lemma_record_lt_asymmetric(t[0], x);
        let v = insert_sorted(rest, x);
        let u = seq![t[0]] + v;
        assert(insert_sorted(t, x) == u);
        assert forall|i: int| 0 <= i < u.len() - 1 implies !record_lt(#[trigger] u[i + 1], u[i]) by {
            if i > 0 {
                assert(u[i + 1] == v[i] && u[i] == v[i - 1]);
                let k = i - 1;
                assert(!record_lt(v[k + 1], v[k]));
            } else {
                assert(u[1] == v[0]);
                if v[0] != x {
                    assert(v[0] == rest[0] && rest[0] == t[1]);
                    let z: int = 0;
                    assert(!record_lt(t[z + 1], t[z]));
                }
            }
        }
    }
}

/// Sorting gives a sorted sequence of the same records.
pub proof fn lemma_sorted_records(s: Seq<DeltaEntryView>)
    ensures
        records_sorted(sorted_records(s)),
        sorted_records(s).to_multiset() == s.to_multiset(),
        sorted_records(s).len() == s.len(),
    decreases s.len(),
{
    if s.len() > 0 {
        let t0 = s.drop_first();
        lemma_sorted_records(t0);
        let t = sorted_records(t0);
        lemma_insert_sorted_sorted(t, s[0]);
        lemma_insert_sorted_shape(t, s[0]);
        let j = choose|j: int| 0 <= j <= t.len() && insert_sorted(t, s[0]) == t.take(j).push(s[0]) + t.skip(j);
        assert(insert_sorted(t, s[0]) =~= t.insert(j, s[0]));
        vstd::seq_lib::to_multiset_insert(t, j, s[0]);
        assert(s =~= t0.insert(0, s[0]));
        vstd::seq_lib::to_multiset_insert(t0, 0, s[0]);
    }
}

/// A sorted sequence is left as it is by sorting.
pub proof fn lemma_sorted_fixed(t: Seq<DeltaEntryView>)
    requires
        records_sorted(t),
    ensures
        sorted_records(t) == t,
    decreases t.len(),
{
    if t.len() > 0 {
        let rest = t.drop_first();
        assert(records_sorted(rest)) by {
            assert forall|i: int| 0 <= i < rest.len() - 1 implies !record_lt(#[trigger] rest[i + 1], rest[i]) by {
                assert(rest[i + 1] == t[i + 2] && rest[i] == t[i + 1]);
            }
        }
        lemma_sorted_fixed(rest);
        if rest.len() > 0 {
            assert(!record_lt(rest[0], t[0])) by {
                assert(t[1] == rest[0]);
            }
        }
        assert(seq![t[0]] + rest =~= t);
    }
}

/// Sorting twice is sorting once.
pub proof fn lemma_sort_idempotent(s: Seq<DeltaEntryView>)
    ensures
        sorted_records(sorted_records(s)) == sorted_records(s),
{
    lemma_sorted_records(s);
    lemma_sorted_fixed(sorted_records(s));
}

pub proof fn lemma_insert_sorted_shape(t: Seq<DeltaEntryView>, x: DeltaEntryView)
    ensures
        exists|j: int| 0 <= j <= t.len() && insert_sorted(t, x) == t.take(j).push(x) + t.skip(j),
    decreases t.len(),
{
    if t.len() == 0 {
        assert(insert_sorted(t, x) == t.take(0).push(x) + t.skip(0));
    } else if !record_lt(t[0], x) {
        assert(insert_sorted(t, x) =~= t.take(0).push(x) + t.skip(0));
    } else {
        lemma_insert_sorted_shape(t.drop_first(), x);
        let j = choose|j: int|
            0 <= j <= t.drop_first().len() && insert_sorted(t.drop_first(), x) == t.drop_first().take(j).push(x)
                + t.drop_first().skip(j);
        assert(insert_sorted(t, x) =~= t.take(j + 1).push(x) + t.skip(j + 1));
    }
}

proof fn lemma_insert_sorted_at(s: Seq<DeltaEntryView>, x: DeltaEntryView, j: int)
    requires
        0 <= j <= s.len(),
        forall|k: int| 0 <= k < j ==> record_lt(#[trigger] s[k], x),
        j < s.len() ==> !record_lt(s[j], x),
    ensures
        insert_sorted(s, x) == s.take(j).push(x) + s.skip(j),
    decreases s.len(),
{
    if s.len() == 0 {
        assert(s.take(j).push(x) + s.skip(j) =~= seq![x]);
    } else if j == 0 {
        assert(s.take(0).push(x) + s.skip(0) =~= seq![x] + s);
    } else {
        let t = s.drop_first();
        assert forall|k: int| 0 <= k < j - 1 implies record_lt(#[trigger] t[k], x) by {
            assert(t[k] == s[k + 1]);
        }
        lemma_insert_sorted_at(t, x, j - 1);
        assert(seq![s[0]] + (t.take(j - 1).push(x) + t.skip(j - 1)) =~= s.take(j).push(x) + s.skip(j));
    }
}

/// Lexicographic comparison of two byte strings.
pub fn bytes_less(a: &[u8], b: &[u8]) -> (r: bool)
    ensures
        r == bytes_lt(a@, b@),
{
    let mut i: usize = 0;
    assert(a@.skip(0) =~= a@);
    assert(b@.skip(0) =~= b@);
    while i < a.len() && i < b.len()
        invariant
            0 <= i <= a@.len(),
            i <= b@.len(),
            bytes_lt(a@, b@) == bytes_lt(a@.skip(i as int), b@.skip(i as int)),
        decreases a@.len() - i,
    {
        if a[i] != b[i] {
            assert(a@.skip(i as int)[0] == a@[i as int]);
            assert(b@.skip(i as int)[0] == b@[i as int]);
            return a[i] < b[i];
        }
        assert(a@.skip(i as int).drop_first() =~= a@.skip(i + 1));
        assert(b@.skip(i as int).drop_first() =~= b@.skip(i + 1));
        i = i + 1;
    }
    a.len() - i == 0 && b.len() - i > 0
}

/// The sort key of an optional path.
pub fn path_key_of(p: &Option<String>) -> (r: Vec<u8>)
    ensures
        r@ == path_key(opt_chars(*p)),
{
    match p {
        None => {
            let mut v: Vec<u8> = Vec::new();
            v.push(78u8);
            v.push(111u8);
            v.push(110u8);
            v.push(101u8);
            assert(v@ =~= seq![78u8, 111u8, 110u8, 101u8]);
            v
        },
        Some(s) => {
            let mut v: Vec<u8> = Vec::new();
            v.push(47u8);
            append_bytes(&mut v, s.as_str().as_bytes());
            v
        },
    }
}

/// Whether record `a` sorts before record `b`.
pub fn record_less(a: &InventoryDeltaEntry, b: &InventoryDeltaEntry) -> (r: bool)
    ensures
        r == record_lt(a@, b@),
{
    let a1 = path_key_of(&a.new_path);
    let b1 = path_key_of(&b.new_path);
    if bytes_less(a1.as_slice(), b1.as_slice()) {
        return true;
    }
    if !bytes_eq(a1.as_slice(), b1.as_slice()) {
        return false;
    }
    let a2 = path_key_of(&a.old_path);
    let b2 = path_key_of(&b.old_path);
    if bytes_less(a2.as_slice(), b2.as_slice()) {
        return true;
    }
    if !bytes_eq(a2.as_slice(), b2.as_slice()) {
        return false;
    }
    bytes_less(a.file_id.as_slice(), b.file_id.as_slice())
}

/// An ordered sequence of change records between two trees.
#[derive(Debug, Clone, PartialEq, Eq)]
pub struct InventoryDelta {
    pub entries: Vec<InventoryDeltaEntry>,
}

pub open spec fn records_of(v: Seq<InventoryDeltaEntry>) -> Seq<DeltaEntryView> {
    v.map_values(|e: InventoryDeltaEntry| e@)
}

impl View for InventoryDelta {
    type V = Seq<DeltaEntryView>;

    open spec fn view(&self) -> Seq<DeltaEntryView> {
        records_of(self.entries@)
    }
}

impl InventoryDelta {
    /// A delta of the given records, in the given order.
    pub fn new(entries: Vec<InventoryDeltaEntry>) -> (r: InventoryDelta)
        ensures
            r@ == records_of(entries@),
    {
        InventoryDelta { entries }
    }

    pub fn len(&self) -> (r: usize)
        ensures
            r == self@.len(),
    {
        self.entries.len()
    }

    pub fn is_empty(&self) -> (r: bool)
        ensures
            r == (self@.len() == 0),
    {
        self.entries.len() == 0
    }

    /// The record at `index`, if there is one.
    pub fn get(&self, index: usize) -> (r: Option<&InventoryDeltaEntry>)
        ensures
            index < self@.len() ==> r is Some && r->0@ == self@[index as int],
            index >= self@.len() ==> r is None,
    {
        if index < self.entries.len() {
            Some(&self.entries[index])
        } else {
            None
        }
    }

    /// Appends a record.
    pub fn push(&mut self, e: InventoryDeltaEntry)
        ensures
            final(self)@ == old(self)@.push(e@),
    {
        self.entries.push(e);
        assert(records_of(self.entries@) =~= records_of(old(self).entries@).push(e@));
    }

    /// Puts the records in their canonical order: by new path, then old path,
    /// then file id, where an absent path sorts after every present one.
    pub fn sort(&mut self)
        ensures
            final(self)@ == sorted_records(old(self)@),
            records_sorted(final(self)@),
            final(self)@.to_multiset() == old(self)@.to_multiset(),
    {
        let ghost orig = self@;
        let mut input = self.entries.split_off(0);
        assert(input@ =~= old(self).entries@);
        let mut out: Vec<InventoryDeltaEntry> = Vec::new();
        proof {
            assert(orig.subrange(orig.len() as int, orig.len() as int) =~= Seq::<DeltaEntryView>::empty());
        }
        while input.len() > 0
            invariant
                input@.len() <= orig.len(),
                records_of(input@) == orig.take(input@.len() as int),
                records_of(out@) == sorted_records(orig.skip(input@.len() as int)),
            decreases input@.len(),
        {
            let ghost old_in = input@;
            let x = input.pop().unwrap();
            let k = input.len();
            proof {
                assert(records_of(old_in)[k as int] == x@);
                assert(records_of(input@) =~= orig.take(k as int));
                assert(x@ == orig[k as int]);
                assert(orig.skip(k as int).drop_first() =~= orig.skip(k + 1));
                assert(orig.skip(k as int)[0] == orig[k as int]);
            }
            let mut j: usize = 0;
            while j < out.len() && record_less(&out[j], &x)
                invariant
                    0 <= j <= out@.len(),
                    forall|m: int| 0 <= m < j ==> record_lt(#[trigger] records_of(out@)[m], x@),
                decreases out@.len() - j,
            {
                j = j + 1;
            }
            proof {
                lemma_insert_sorted_at(records_of(out@), x@, j as int);
            }
            let ghost before = out@;
            out.insert(j, x);
            proof {
                assert(records_of(out@) =~= records_of(before).take(j as int).push(x@) + records_of(
                    before,
                ).skip(j as int));
            }
        }
        proof {
            assert(orig.skip(0) =~= orig);
            lemma_sorted_records(orig);
        }
        self.entries = out;
    }

    /// Looks for the first record that breaks the rules of a consistent delta:
    /// an entry without a new path or a new path without an entry; an entry
    /// whose file id is not the record's; an old path or a new path given
    /// twice; a file id added twice.
    pub fn check(&self) -> (r: Result<(), InventoryDeltaInconsistency>)
        ensures
            first_violation(self@) is None ==> r is Ok,
            first_violation(self@) matches Some((i, k)) ==> r is Err && r->Err_0.kind == k
                && r->Err_0.index == i && r->Err_0.file_id@ == self@[i].file_id && opt_chars(
                r->Err_0.path,
            ) == reported_path(k, self@[i]),
    {
        let ghost s = self@;
        let n = self.entries.len();
        let mut i: usize = 0;
        while i < n
            invariant
                n == s.len(),
                s == self@,
                0 <= i <= n,
                first_violation(s.take(i as int)) is None,
            decreases n - i,
        {
            let r = &self.entries[i];
            let ghost prev = s.take(i as int);
            assert(s.take(i + 1).drop_last() =~= prev);
            assert(s.take(i + 1).last() == s[i as int]);
            let k = record_violation(&self.entries, i);
            match k {
                Some(kind) => {
                    let path = match kind {
                        InconsistencyKind::EntryWithoutPath | InconsistencyKind::DuplicateOldPath =>
                            copy_opt_str(&r.old_path),
                        _ => copy_opt_str(&r.new_path),
                    };
                    proof {
                        lemma_first_violation_prefix(s, i as int + 1);
                    }
                    return Err(
                        InventoryDeltaInconsistency {
                            kind,
                            index: i,
                            path,
                            file_id: copy_bytes(r.file_id.as_slice()),
                        },
                    );
                },
                None => {},
            }
            i = i + 1;
        }
        assert(s.take(n as int) =~= s);
        Ok(())
    }
}

proof fn lemma_first_violation_prefix(s: Seq<DeltaEntryView>, m: int)
    requires
        0 <= m <= s.len(),
        first_violation(s.take(m)) is Some,
    ensures
        first_violation(s) == first_violation(s.take(m)),
    decreases s.len() - m,
{
    if m < s.len() {
        assert(s.take(m + 1).drop_last() =~= s.take(m));
        lemma_first_violation_prefix(s, m + 1);
    } else {
        assert(s.take(m) =~= s);
    }
}

/// The inconsistency, if any, of record `i` given the records before it.
fn record_violation(v: &Vec<InventoryDeltaEntry>, i: usize) -> (r: Option<InconsistencyKind>)
    requires
        i < v@.len(),
    ensures
        r == violation(records_of(v@).take(i as int), v@[i as int]@),
{
    let ghost prev = records_of(v@).take(i as int);
    let r = &v[i];
    assert(prev.len() == i);
    assert(r@ == records_of(v@)[i as int]);
    if r.new_path.is_none() && r.new_entry.is_some() {
        return Some(InconsistencyKind::EntryWithoutPath);
    }
    if r.new_path.is_some() && r.new_entry.is_none() {
        return Some(InconsistencyKind::PathWithoutEntry);
    }
    match &r.new_entry {
        Some(e) => {
            if !bytes_eq(e.file_id().as_slice(), r.file_id.as_slice()) {
                return Some(InconsistencyKind::MismatchedId);
            }
        },
        None => {},
    }
    assert(!(r@.new_path is None && r@.new_entry is Some));
    assert(!(r@.new_path is Some && r@.new_entry is None));
    assert(!(r@.new_entry is Some && r@.new_entry->0.file_id() != r@.file_id));
    if r.old_path.is_some() {
        let mut j: usize = 0;
        while j < i
            invariant
                i < v@.len(),
                0 <= j <= i,
                prev == records_of(v@).take(i as int),
                r@ == v@[i as int]@,
                !(r@.new_path is None && r@.new_entry is Some),
                !(r@.new_path is Some && r@.new_entry is None),
                !(r@.new_entry is Some && r@.new_entry->0.file_id() != r@.file_id),
                r@.old_path is Some,
                forall|m: int| 0 <= m < j ==> #[trigger] prev[m].old_path != r@.old_path,
            decreases i - j,
        {
            if opt_str_eq(&v[j].old_path, &r.old_path) {
                assert(prev[j as int].old_path == r@.old_path);
                assert(exists|m: int| 0 <= m < prev.len() && #[trigger] prev[m].old_path == r@.old_path);
                return Some(InconsistencyKind::DuplicateOldPath);
            }
            j = j + 1;
        }
    }
    if r.new_path.is_some() {
        let mut j: usize = 0;
        while j < i
            invariant
                i < v@.len(),
                0 <= j <= i,
                prev == records_of(v@).take(i as int),
                r@ == v@[i as int]@,
                !(r@.new_path is None && r@.new_entry is Some),
                !(r@.new_path is Some && r@.new_entry is None),
                !(r@.new_entry is Some && r@.new_entry->0.file_id() != r@.file_id),
                !(r@.old_path is Some && exists|m: int| 0 <= m < prev.len() && #[trigger] prev[m].old_path == r@.old_path),
                r@.new_path is Some,
                forall|m: int| 0 <= m < j ==> #[trigger] prev[m].new_path != r@.new_path,
            decreases i - j,
        {
            if opt_str_eq(&v[j].new_path, &r.new_path) {
                assert(prev[j as int].new_path == r@.new_path);
                assert(exists|m: int| 0 <= m < prev.len() && #[trigger] prev[m].new_path == r@.new_path);
                return Some(InconsistencyKind::DuplicateNewPath);
            }
            j = j + 1;
        }
    }
    if r.new_entry.is_some() {
        let mut j: usize = 0;
        while j < i
            invariant
                i < v@.len(),
                0 <= j <= i,
                prev == records_of(v@).take(i as int),
                r@ == v@[i as int]@,
                !(r@.new_path is None && r@.new_entry is Some),
                !(r@.new_path is Some && r@.new_entry is None),
                !(r@.new_entry is Some && r@.new_entry->0.file_id() != r@.file_id),
                !(r@.old_path is Some && exists|m: int| 0 <= m < prev.len() && #[trigger] prev[m].old_path == r@.old_path),
                !(r@.new_path is Some && exists|m: int| 0 <= m < prev.len() && #[trigger] prev[m].new_path == r@.new_path),
                r@.new_entry is Some,
                forall|m: int|
                    0 <= m < j ==> !((#[trigger] prev[m].new_entry) is Some && prev[m].file_id
                        == r@.file_id),
            decreases i - j,
        {
            if v[j].new_entry.is_some() && bytes_eq(v[j].file_id.as_slice(), r.file_id.as_slice()) {
                assert(prev[j as int].new_entry is Some && prev[j as int].file_id == r@.file_id);
                return Some(InconsistencyKind::DuplicateFileId);
            }
            j = j + 1;
        }
    }
    None
}

} // verus!
