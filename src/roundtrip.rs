use vstd::prelude::*;

use crate::codec::{
    distinct_ids, no_zero, wire_entry, wire_record, bool_tag, cat0, deleted_tag, dir_tag, entry_content, file_tag, format_text, header_lines, link_tag, none_tag,
    null_revision, parent_prefix, parse_bool, parse_entry_spec, parse_path, parse_record, parse_records, parse_spec,
    record_line, record_lines, serialize_spec, split6, starts_with, strip_newline, tree_references_prefix, tree_tag,
    version_prefix, versioned_root_prefix, ParseFailure, SerializeFailure,
};
use crate::delta::{insert_sorted, lemma_insert_sorted_shape, path_key, sorted_records, DeltaEntryView};
use crate::entry::EntryView;
use crate::wire::{
    after_field, basename, decimal, field, lemma_decimal_digits, lemma_split_joined, lemma_split_last,
    parse_decimal_spec,
};

verus! {

/// Sorting keeps the records: each sorted record is one of the delta's, and
/// distinct file ids stay distinct.
proof fn lemma_sorted_keeps_records(s: Seq<DeltaEntryView>)
    ensures
        sorted_records(s).len() == s.len(),
        forall|k: int| 0 <= k < s.len() ==> s.contains(#[trigger] sorted_records(s)[k]),
        distinct_ids(s) ==> distinct_ids(sorted_records(s)),
    decreases s.len(),
{
    if s.len() > 0 {
        let t0 = s.drop_first();
        lemma_sorted_keeps_records(t0);
        let t = sorted_records(t0);
        let x = s[0];
        lemma_insert_sorted_shape(t, x);
        let j = choose|j: int| 0 <= j <= t.len() && insert_sorted(t, x) == t.take(j).push(x) + t.skip(j);
        let u = sorted_records(s);
        assert(u == t.take(j).push(x) + t.skip(j));
        assert forall|k: int| 0 <= k < s.len() implies s.contains(#[trigger] u[k]) by {
            if k < j {
                assert(u[k] == t[k]);
                assert(t0.contains(t[k]));
                let i = choose|i: int| 0 <= i < t0.len() && t0[i] == t[k];
                assert(s[i + 1] == t0[i]);
            } else if k == j {
                assert(s[0] == u[k]);
            } else {
                assert(u[k] == t[k - 1]);
                assert(t0.contains(t[k - 1]));
                let i = choose|i: int| 0 <= i < t0.len() && t0[i] == t[k - 1];
                assert(s[i + 1] == t0[i]);
            }
        }
        if distinct_ids(s) {
            assert(distinct_ids(t0)) by {
                assert forall|a: int, b: int| 0 <= a < b < t0.len() implies t0[a].file_id != t0[b].file_id by {
                    assert(t0[a] == s[a + 1] && t0[b] == s[b + 1]);
                }
            }
            // x's id is not among t's ids
            assert forall|k: int| 0 <= k < t.len() implies #[trigger] t[k].file_id != x.file_id by {
                assert(t0.contains(t[k]));
                let i = choose|i: int| 0 <= i < t0.len() && t0[i] == t[k];
                assert(s[i + 1] == t[k]);
            }
            assert forall|a: int, b: int| 0 <= a < b < u.len() implies u[a].file_id != u[b].file_id by {
                let ia = if a < j { a } else if a == j { -1 } else { a - 1 };
                let ib = if b < j { b } else if b == j { -1 } else { b - 1 };
                if a == j {
                    assert(u[a] == x);
                    assert(u[b] == t[ib]);
                } else if b == j {
                    assert(u[b] == x);
                    assert(u[a] == t[ia]);
                } else {
                    assert(u[a] == t[ia]);
                    assert(u[b] == t[ib]);
                    assert(ia < ib);
                }
            }
        }
    }
}

proof fn lemma_tags()
    ensures
        no_zero(none_tag()),
        no_zero(dir_tag()),
        no_zero(file_tag()),
        no_zero(link_tag()),
        no_zero(tree_tag()),
        no_zero(deleted_tag()),
        no_zero(null_revision()),
        no_zero(seq![89u8]),
        no_zero(Seq::<u8>::empty()),
        dir_tag() != deleted_tag(),
        file_tag() != deleted_tag(),
        link_tag() != deleted_tag(),
        tree_tag() != deleted_tag(),
        file_tag() != dir_tag(),
        link_tag() != dir_tag(),
        link_tag() != file_tag(),
        tree_tag() != dir_tag(),
        tree_tag() != file_tag(),
        tree_tag() != link_tag(),
        none_tag() != seq![47u8],
{
    assert(file_tag()[0] != link_tag()[0]);
    assert(file_tag()[0] != tree_tag()[0]);
    assert(link_tag()[0] != tree_tag()[0]);
    assert(none_tag().len() != seq![47u8].len());
    assert(dir_tag().len() != deleted_tag().len());
    assert(file_tag().len() != dir_tag().len());
}

proof fn lemma_path_key(p: Option<Seq<char>>)
    requires
        no_zero(path_key(p)),
    ensures
        parse_path(path_key(p)) == Some(p),
        p matches Some(s) ==> path_key(p) != none_tag() && path_key(p)[0] == 47u8 && (path_key(p) == seq![47u8] <==> s.len()
            == 0),
        p is None ==> path_key(p) == none_tag(),
{
    match p {
        None => {},
        Some(s) => {
            let k = path_key(p);
            let enc = vstd::utf8::encode_utf8(s);
            assert(k[0] == 47u8);
            assert(k != none_tag()) by {
                assert(none_tag()[0] == 78u8);
            }
            assert(k.skip(1) =~= enc);
            vstd::utf8::encode_utf8_valid_utf8(s);
            vstd::utf8::encode_utf8_decode_utf8(s);
            if k == seq![47u8] {
                assert(enc.len() == 0);
                assert(enc =~= Seq::<u8>::empty());
                assert(vstd::utf8::decode_utf8(Seq::<u8>::empty()) =~= Seq::<char>::empty());
            }
            if s.len() == 0 {
                assert(enc =~= Seq::<u8>::empty()) by {
                    assert(s =~= Seq::<char>::empty());
                }
                assert(k =~= seq![47u8]);
            }
        },
    }
}

proof fn lemma_no_zero_cat(a: Seq<u8>, b: Seq<u8>)
    requires
        no_zero(a),
        no_zero(b),
    ensures
        no_zero(a + b),
{
    if (a + b).contains(0u8) {
        let i = choose|i: int| 0 <= i < (a + b).len() && (a + b)[i] == 0u8;
        if i < a.len() {
            assert(a[i] == 0u8);
        } else {
            assert(b[i - a.len()] == 0u8);
        }
    }
}

/// An entry written by the per-entry codec reads back as itself, given its
/// common fields; a file's text id is not written, so it must be absent.
pub proof fn lemma_entry_round_trip(e: EntryView, tr: bool)
    requires
        entry_content(e, tr) is Ok,
        e matches EntryView::File { text_id, .. } ==> text_id is None,
    ensures
        entry_content(e, tr) matches Ok(c) && field(c) != deleted_tag() && !starts_with(c, tree_tag().push(0u8))
            == (e.kind() != crate::entry::Kind::TreeReference) && parse_entry_spec(
            e.file_id(),
            e.name(),
            e.parent_id(),
            e.revision(),
            c,
        ) == Some(e),
{
    lemma_tags();
    let tt = tree_tag().push(0u8);
    match e {
        EntryView::Directory { .. } => {
            let c = dir_tag();
            lemma_split_last(c);
            assert(!starts_with(c, tt));
        },
        EntryView::File { text_sha1, text_size, executable, .. } => {
            let z = text_size->0;
            assert(text_sha1 is Some);
            let h = text_sha1->0;
            let x: Seq<u8> = if executable { seq![89u8] } else { Seq::empty() };
            lemma_decimal_digits(z as nat);
            let r2 = cat0(x, h);
            let r1 = cat0(decimal(z as nat), r2);
            let c = cat0(file_tag(), r1);
            lemma_split_joined(file_tag(), r1);
            lemma_split_joined(decimal(z as nat), r2);
            lemma_split_joined(x, h);
            lemma_split_last(h);
            assert(c[0] == 102u8);
            assert(tt[0] == 116u8);
            assert(!starts_with(c, tt)) by {
                if starts_with(c, tt) {
                    assert(c.take(5)[0] == tt[0]);
                }
            }
            assert(parse_decimal_spec(decimal(z as nat)) == Some(z));
            assert(x.len() > 0 <==> executable);
        },
        EntryView::Link { symlink_target, .. } => {
            let t = symlink_target->0;
            let enc = vstd::utf8::encode_utf8(t);
            let c = cat0(link_tag(), enc);
            lemma_split_joined(link_tag(), enc);
            lemma_split_last(enc);
            vstd::utf8::encode_utf8_valid_utf8(t);
            vstd::utf8::encode_utf8_decode_utf8(t);
            assert(c[0] == 108u8);
            assert(!starts_with(c, tt)) by {
                if starts_with(c, tt) {
                    assert(c.take(5)[0] == tt[0]);
                }
            }
        },
        EntryView::TreeReference { reference_revision, .. } => {
            let x = reference_revision->0;
            let c = cat0(tree_tag(), x);
            lemma_split_joined(tree_tag(), x);
            lemma_split_last(x);
            assert(c.take(5) =~= tt);
        },
    }
}

proof fn lemma_parse_entry(e: EntryView, np: Seq<char>, fid: Seq<u8>, version: Seq<u8>, vr: bool, tr: bool)
    requires
        wire_entry(e, np, fid, version, vr, tr),
    ensures
        entry_content(e, tr) matches Ok(c) && field(c) != deleted_tag() && !starts_with(c, tree_tag().push(0u8))
            == (e.kind() != crate::entry::Kind::TreeReference) && parse_entry_spec(
            fid,
            basename(np),
            e.parent_id(),
            e.revision(),
            c,
        ) == Some(e),
{
    lemma_entry_round_trip(e, tr);
}

/// One record line reads back as the record it was written from.
#[verifier::rlimit(100)]
proof fn lemma_record_round_trip(
    prev: Seq<DeltaEntryView>,
    r: DeltaEntryView,
    version: Seq<u8>,
    vr: bool,
    tr: bool,
)
    requires
        wire_record(r, version, vr, tr),
        forall|j: int| 0 <= j < prev.len() ==> prev[j].file_id != r.file_id,
    ensures
        record_line(r, version, vr, tr) matches Ok(l) && parse_record(prev, strip_newline(l), version, vr, tr, true)
            == Ok::<DeltaEntryView, ParseFailure>(r),
{
    lemma_tags();
    lemma_path_key(r.old_path);
    let a = path_key(r.old_path);
    let fid = r.file_id;
    match r.new_path {
        None => {
            let f = cat0(deleted_tag(), cat0(Seq::empty(), Seq::empty()));
            let e5 = cat0(null_revision(), f);
            let e4 = cat0(Seq::empty(), e5);
            let e3 = cat0(fid, e4);
            let e2 = cat0(none_tag(), e3);
            let line = cat0(a, e2);
            assert(record_line(r, version, vr, tr) == Ok::<Seq<u8>, SerializeFailure>(line.push(10u8)));
            assert(strip_newline(line.push(10u8)) =~= line);
            lemma_split_joined(a, e2);
            lemma_split_joined(none_tag(), e3);
            lemma_split_joined(fid, e4);
            lemma_split_joined(Seq::empty(), e5);
            lemma_split_joined(null_revision(), f);
            lemma_split_joined(deleted_tag(), cat0(Seq::empty(), Seq::empty()));
            assert(split6(line) == Some((a, none_tag(), fid, Seq::<u8>::empty(), null_revision(), f)));
            assert(f[0] == 100u8);
            assert(!starts_with(f, tree_tag().push(0u8))) by {
                if starts_with(f, tree_tag().push(0u8)) {
                    assert(f.take(5)[0] == tree_tag().push(0u8)[0]);
                }
            }
            assert(parse_path(none_tag()) == Some(None::<Seq<char>>));
            assert(r == DeltaEntryView { old_path: r.old_path, new_path: None, file_id: fid, new_entry: None });
        },
        Some(np) => {
            let e = r.new_entry->0;
            lemma_path_key(r.new_path);
            lemma_parse_entry(e, np, fid, version, vr, tr);
            let b = path_key(r.new_path);
            let rev = e.revision()->0;
            let par = match e.parent_id() {
                Some(p) => p,
                None => Seq::empty(),
            };
            let c = entry_content(e, tr)->Ok_0;
            let e5 = cat0(rev, c);
            let e4 = cat0(par, e5);
            let e3 = cat0(fid, e4);
            let e2 = cat0(b, e3);
            let line = cat0(a, e2);
            assert(record_line(r, version, vr, tr) == Ok::<Seq<u8>, SerializeFailure>(line.push(10u8)));
            assert(strip_newline(line.push(10u8)) =~= line);
            lemma_split_joined(a, e2);
            lemma_split_joined(b, e3);
            lemma_split_joined(fid, e4);
            lemma_split_joined(par, e5);
            lemma_split_joined(rev, c);
            assert(split6(line) == Some((a, b, fid, par, rev, c)));
            assert((if par.len() == 0 { None } else { Some(par) }) == e.parent_id());
            assert(r == DeltaEntryView { old_path: r.old_path, new_path: Some(np), file_id: fid, new_entry: Some(e) });
        },
    }
}

pub open spec fn stripped(ls: Seq<Seq<u8>>) -> Seq<Seq<u8>> {
    ls.map_values(|l: Seq<u8>| strip_newline(l))
}

proof fn lemma_records_round_trip(t: Seq<DeltaEntryView>, version: Seq<u8>, vr: bool, tr: bool)
    requires
        forall|k: int| 0 <= k < t.len() ==> wire_record(#[trigger] t[k], version, vr, tr),
        distinct_ids(t),
    ensures
        record_lines(t, version, vr, tr) matches Ok(ls) && ls.len() == t.len() && parse_records(
            stripped(ls),
            version,
            vr,
            tr,
            true,
        ) == Ok::<Seq<DeltaEntryView>, ParseFailure>(t),
    decreases t.len(),
{
    if t.len() > 0 {
        let t0 = t.drop_last();
        assert forall|k: int| 0 <= k < t0.len() implies wire_record(#[trigger] t0[k], version, vr, tr) by {
            assert(t0[k] == t[k]);
        }
        assert(distinct_ids(t0)) by {
            assert forall|a: int, b: int| 0 <= a < b < t0.len() implies t0[a].file_id != t0[b].file_id by {
                assert(t0[a] == t[a] && t0[b] == t[b]);
            }
        }
        lemma_records_round_trip(t0, version, vr, tr);
        let ls0 = record_lines(t0, version, vr, tr)->Ok_0;
        assert forall|j: int| 0 <= j < t0.len() implies t0[j].file_id != t.last().file_id by {
            assert(t0[j] == t[j]);
        }
        lemma_record_round_trip(t0, t.last(), version, vr, tr);
        let l = record_line(t.last(), version, vr, tr)->Ok_0;
        let ls = ls0.push(l);
        assert(record_lines(t, version, vr, tr) == Ok::<Seq<Seq<u8>>, SerializeFailure>(ls));
        assert(stripped(ls).drop_last() =~= stripped(ls0));
        assert(stripped(ls).last() == strip_newline(l));
        assert(t0.push(t.last()) =~= t);
        assert(parse_record(t0, strip_newline(l), version, vr, tr, true) == Ok::<DeltaEntryView, ParseFailure>(t.last()));
        assert(parse_records(stripped(ls).drop_last(), version, vr, tr, true) == Ok::<Seq<DeltaEntryView>, ParseFailure>(t0));
        assert(parse_records(stripped(ls), version, vr, tr, true) == Ok::<Seq<DeltaEntryView>, ParseFailure>(t0.push(t.last())));
    } else {
        assert(stripped(Seq::<Seq<u8>>::empty()) =~= Seq::<Seq<u8>>::empty());
        assert(t =~= Seq::<DeltaEntryView>::empty());
    }
}

#[verifier::rlimit(100)]
proof fn lemma_header_lines(parent: Seq<u8>, version: Seq<u8>, vr: bool, tr: bool, body: Seq<Seq<u8>>)
    requires
        body.len() > 0 ==> body.last().len() > 0 && body.last().last() == 10u8,
    ensures
        ({
            let ls = header_lines(parent, version, vr, tr) + body;
            let sl = ls.map_values(|l: Seq<u8>| strip_newline(l));
            &&& ls.len() >= 5
            &&& ls.last().len() > 0 && ls.last().last() == 10u8
            &&& sl[0] == format_text()
            &&& starts_with(sl[1], parent_prefix())
            &&& starts_with(sl[2], version_prefix())
            &&& starts_with(sl[3], versioned_root_prefix())
            &&& starts_with(sl[4], tree_references_prefix())
            &&& sl[1].skip(parent_prefix().len() as int) == parent
            &&& sl[2].skip(version_prefix().len() as int) == version
            &&& parse_bool(sl[3].skip(versioned_root_prefix().len() as int)) == Some(vr)
            &&& parse_bool(sl[4].skip(tree_references_prefix().len() as int)) == Some(tr)
            &&& sl.skip(5) == stripped(body)
        }),
{
    let header = header_lines(parent, version, vr, tr);
    let ls = header + body;
    let sl = ls.map_values(|l: Seq<u8>| strip_newline(l));
    assert(ls.last().len() > 0 && ls.last().last() == 10u8) by {
        if body.len() > 0 {
            assert(ls.last() == body.last());
        } else {
            assert(ls.last() == header[4]);
        }
    }
    assert(sl[0] =~= format_text());
    assert(sl[1] =~= parent_prefix() + parent);
    assert(sl[2] =~= version_prefix() + version);
    assert(sl[3] =~= versioned_root_prefix() + bool_tag(vr));
    assert(sl[4] =~= tree_references_prefix() + bool_tag(tr));
    assert(sl[1].take(parent_prefix().len() as int) =~= parent_prefix());
    assert(sl[2].take(version_prefix().len() as int) =~= version_prefix());
    assert(sl[3].take(versioned_root_prefix().len() as int) =~= versioned_root_prefix());
    assert(sl[4].take(tree_references_prefix().len() as int) =~= tree_references_prefix());
    assert(sl[1].skip(parent_prefix().len() as int) =~= parent);
    assert(sl[2].skip(version_prefix().len() as int) =~= version);
    assert(sl[3].skip(versioned_root_prefix().len() as int) =~= bool_tag(vr));
    assert(sl[4].skip(tree_references_prefix().len() as int) =~= bool_tag(tr));
    assert(bool_tag(true) != bool_tag(false)) by {
        assert(bool_tag(true).len() != bool_tag(false).len());
    }
    assert(parse_bool(bool_tag(vr)) == Some(vr));
    assert(parse_bool(bool_tag(tr)) == Some(tr));
    assert(sl.skip(5) =~= stripped(body));
}

proof fn lemma_record_lines_ok(t: Seq<DeltaEntryView>, version: Seq<u8>, vr: bool, tr: bool)
    requires
        record_lines(t, version, vr, tr) is Ok,
    ensures
        forall|k: int| 0 <= k < t.len() ==> wire_record(#[trigger] t[k], version, vr, tr),
    decreases t.len(),
{
    if t.len() > 0 {
        lemma_record_lines_ok(t.drop_last(), version, vr, tr);
        assert forall|k: int| 0 <= k < t.len() implies wire_record(#[trigger] t[k], version, vr, tr) by {
            if k < t.len() - 1 {
                assert(t.drop_last()[k] == t[k]);
            }
        }
    }
}

/// Writing a delta and reading it back gives the parent and target
/// revisions, the two flags, and the records in sorted order, for every
/// delta that the writer accepts.
#[verifier::rlimit(100)]
pub proof fn lemma_round_trip(parent: Seq<u8>, version: Seq<u8>, d: Seq<DeltaEntryView>, vr: bool, tr: bool)
    requires
        serialize_spec(parent, version, d, vr, tr) is Ok,
    ensures
        serialize_spec(parent, version, d, vr, tr) matches Ok(ls) && parse_spec(ls, true, true) == Ok::<
            (Seq<u8>, Seq<u8>, bool, bool, Seq<DeltaEntryView>),
            ParseFailure,
        >((parent, version, vr, tr, sorted_records(d))),
{
    assert(distinct_ids(d));
    lemma_record_lines_ok(sorted_records(d), version, vr, tr);
    lemma_sorted_keeps_records(d);
    let t = sorted_records(d);
    lemma_records_round_trip(t, version, vr, tr);
    let body = record_lines(t, version, vr, tr)->Ok_0;
    let header = header_lines(parent, version, vr, tr);
    let ls = header + body;
    assert(serialize_spec(parent, version, d, vr, tr) == Ok::<Seq<Seq<u8>>, SerializeFailure>(ls));
    assert(body.len() > 0 ==> body.last().len() > 0 && body.last().last() == 10u8) by {
        if body.len() > 0 {
            assert(body.last() == record_line(t.last(), version, vr, tr)->Ok_0);
            assert(record_lines(t.drop_last(), version, vr, tr) is Ok);
        }
    }
    lemma_header_lines(parent, version, vr, tr, body);
}

/// Whether a record's entry is a tree reference.
pub open spec fn holds_tree(r: DeltaEntryView) -> bool {
    r.new_entry matches Some(e) && e.kind() == crate::entry::Kind::TreeReference
}

/// The first zero byte of `s` is where `field` stops.
proof fn lemma_first_zero_facts(s: Seq<u8>)
    ensures
        0 <= crate::wire::first_zero(s) <= s.len(),
        crate::wire::first_zero(s) < s.len() ==> s[crate::wire::first_zero(s)] == 0u8,
    decreases s.len(),
{
    if s.len() > 0 && s[0] != 0 {
        lemma_first_zero_facts(s.drop_first());
    }
}

/// Content that starts with `tree` and a zero byte is exactly content whose
/// first field is `tree` and that goes on after it.
proof fn lemma_tree_content(c: Seq<u8>)
    ensures
        starts_with(c, tree_tag().push(0u8)) <==> (field(c) == tree_tag() && after_field(c) is Some),
{
    let tt = tree_tag().push(0u8);
    lemma_first_zero_facts(c);
    if starts_with(c, tt) {
        assert(c.take(5) == tt);
        assert forall|k: int| 0 <= k < 4 implies c[k] != 0 by {
            assert(c.take(5)[k] == tt[k]);
        }
        assert(c[4] == c.take(5)[4]);
        crate::wire::lemma_first_zero_at(c, 4);
        assert(field(c) =~= tree_tag()) by {
            assert forall|k: int| 0 <= k < 4 implies field(c)[k] == tree_tag()[k] by {
                assert(c.take(5)[k] == tt[k]);
            }
        }
    }
    if field(c) == tree_tag() && after_field(c) is Some {
        assert(crate::wire::first_zero(c) == 4);
        assert(c.take(5) =~= tt) by {
            assert forall|k: int| 0 <= k < 4 implies c.take(5)[k] == tt[k] by {
                assert(c[k] == field(c)[k]);
            }
        }
    }
}

/// With tree references allowed, a record reads as a tree reference exactly
/// when its content starts with `tree`; without, that record is
/// incompatible and every other reads the same.
proof fn lemma_record_tree(prev: Seq<DeltaEntryView>, line: Seq<u8>, version: Seq<u8>, dvr: bool, dtr: bool)
    requires
        parse_record(prev, line, version, dvr, dtr, true) is Ok,
    ensures
        ({
            let r = parse_record(prev, line, version, dvr, dtr, true)->Ok_0;
            let is_tree = holds_tree(r);
            &&& is_tree ==> parse_record(prev, line, version, dvr, dtr, false) == Err::<DeltaEntryView, ParseFailure>(
                ParseFailure::Incompatible,
            )
            &&& !is_tree ==> parse_record(prev, line, version, dvr, dtr, false) == parse_record(
                prev,
                line,
                version,
                dvr,
                dtr,
                true,
            )
        }),
{
    lemma_tags();
    let (f1, f2, fid, par, rev, content) = split6(line)->0;
    lemma_tree_content(content);
}

proof fn lemma_records_tree(ls: Seq<Seq<u8>>, version: Seq<u8>, dvr: bool, dtr: bool)
    requires
        parse_records(ls, version, dvr, dtr, true) is Ok,
    ensures
        ({
            let rs = parse_records(ls, version, dvr, dtr, true)->Ok_0;
            let has_tree = exists|k: int| 0 <= k < rs.len() && holds_tree(#[trigger] rs[k]);
            &&& has_tree ==> parse_records(ls, version, dvr, dtr, false) == Err::<Seq<DeltaEntryView>, ParseFailure>(
                ParseFailure::Incompatible,
            )
            &&& !has_tree ==> parse_records(ls, version, dvr, dtr, false) == parse_records(ls, version, dvr, dtr, true)
        }),
    decreases ls.len(),
{
    if ls.len() > 0 {
        lemma_records_tree(ls.drop_last(), version, dvr, dtr);
        let rs0 = parse_records(ls.drop_last(), version, dvr, dtr, true)->Ok_0;
        lemma_record_tree(rs0, ls.last(), version, dvr, dtr);
        let r = parse_record(rs0, ls.last(), version, dvr, dtr, true)->Ok_0;
        let rs = parse_records(ls, version, dvr, dtr, true)->Ok_0;
        assert(rs == rs0.push(r));
        if exists|k: int| 0 <= k < rs0.len() && holds_tree(#[trigger] rs0[k]) {
            let k = choose|k: int| 0 <= k < rs0.len() && holds_tree(#[trigger] rs0[k]);
            assert(rs[k] == rs0[k]);
        } else if holds_tree(r) {
            assert(rs[rs0.len() as int] == r);
        } else {
            assert forall|k: int| 0 <= k < rs.len() implies !holds_tree(#[trigger] rs[k]) by {
                if k < rs0.len() {
                    assert(rs[k] == rs0[k]);
                }
            }
        }
    }
}

/// A delta that reads well with tree references allowed, and holds one, is
/// incompatible when the reader does not allow them; it is never invalid.
pub proof fn lemma_tree_references_incompatible(lines: Seq<Seq<u8>>, allow_versioned_root: bool)
    requires
        parse_spec(lines, allow_versioned_root, true) matches Ok((p, v, dvr, dtr, rs)) && exists|k: int|
            0 <= k < rs.len() && holds_tree(#[trigger] rs[k]),
    ensures
        parse_spec(lines, allow_versioned_root, false) == Err::<
            (Seq<u8>, Seq<u8>, bool, bool, Seq<DeltaEntryView>),
            ParseFailure,
        >(ParseFailure::Incompatible),
{
    let ls = lines.map_values(|l: Seq<u8>| strip_newline(l));
    let (p, v, dvr, dtr, rs) = parse_spec(lines, allow_versioned_root, true)->Ok_0;
    lemma_records_tree(ls.skip(5), v, dvr, dtr);
}

} // verus!
