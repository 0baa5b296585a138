use vstd::prelude::*;

use crate::bytes::{append_bytes, bytes_eq, copy_bytes, opt_bytes};
use crate::delta::{
    path_key, path_key_of, records_of, sorted_records, DeltaEntryView, InventoryDelta,
    InventoryDeltaEntry,
};
use crate::entry::{EntryView, InventoryEntry, Kind};
use crate::wire::{
    after_field, basename, basename_of, copy_range, decimal, field, format_decimal, parse_decimal,
    has_zero, parse_decimal_spec, push_field, split_field, string_from_utf8,
};

verus! {

pub open spec fn none_tag() -> Seq<u8> {
    seq![78u8, 111u8, 110u8, 101u8]
}

pub open spec fn dir_tag() -> Seq<u8> {
    seq![100u8, 105u8, 114u8]
}

pub open spec fn file_tag() -> Seq<u8> {
    seq![102u8, 105u8, 108u8, 101u8]
}

pub open spec fn link_tag() -> Seq<u8> {
    seq![108u8, 105u8, 110u8, 107u8]
}

pub open spec fn tree_tag() -> Seq<u8> {
    seq![116u8, 114u8, 101u8, 101u8]
}

pub open spec fn deleted_tag() -> Seq<u8> {
    seq![100u8, 101u8, 108u8, 101u8, 116u8, 101u8, 100u8]
}

/// The revision id that stands for no revision: `null:`.
pub open spec fn null_revision() -> Seq<u8> {
    seq![110u8, 117u8, 108u8, 108u8, 58u8]
}

pub open spec fn bool_tag(b: bool) -> Seq<u8> {
    if b {
        seq![116u8, 114u8, 117u8, 101u8]
    } else {
        seq![102u8, 97u8, 108u8, 115u8, 101u8]
    }
}

/// `a`, a zero byte, then `b`.
pub open spec fn cat0(a: Seq<u8>, b: Seq<u8>) -> Seq<u8> {
    a + seq![0u8] + b
}

/// The first line of every delta, without its newline.
pub open spec fn format_text() -> Seq<u8> {
    vstd::utf8::encode_utf8("format: bzr inventory delta v1 (bzr 1.14)"@)
}

pub open spec fn parent_prefix() -> Seq<u8> {
    vstd::utf8::encode_utf8("parent: "@)
}

pub open spec fn version_prefix() -> Seq<u8> {
    vstd::utf8::encode_utf8("version: "@)
}

pub open spec fn versioned_root_prefix() -> Seq<u8> {
    vstd::utf8::encode_utf8("versioned_root: "@)
}

pub open spec fn tree_references_prefix() -> Seq<u8> {
    vstd::utf8::encode_utf8("tree_references: "@)
}

/// Why an entry or a delta could not be written.
#[derive(Clone, Copy, Debug, PartialEq, Eq, Structural)]
pub enum SerializeFailure {
    Invalid,
    UnsupportedKind,
}

/// Why a delta could not be read: malformed input, or input that needs a
/// feature the caller has not allowed.
#[derive(Clone, Copy, Debug, PartialEq, Eq, Structural)]
pub enum ParseFailure {
    Invalid,
    Incompatible,
}

#[derive(Debug, Clone, PartialEq, Eq)]
pub enum InventoryDeltaSerializeError {
    Invalid(String),
    UnsupportedKind(String),
}

impl InventoryDeltaSerializeError {
    pub open spec fn failure(&self) -> SerializeFailure {
        match self {
            InventoryDeltaSerializeError::Invalid(_) => SerializeFailure::Invalid,
            InventoryDeltaSerializeError::UnsupportedKind(_) => SerializeFailure::UnsupportedKind,
        }
    }
}

#[derive(Debug, Clone, PartialEq, Eq)]
pub enum InventoryDeltaParseError {
    Invalid(String),
    Incompatible(String),
}

impl InventoryDeltaParseError {
    pub open spec fn failure(&self) -> ParseFailure {
        match self {
            InventoryDeltaParseError::Invalid(_) => ParseFailure::Invalid,
            InventoryDeltaParseError::Incompatible(_) => ParseFailure::Incompatible,
        }
    }
}

fn invalid(msg: &str) -> (r: InventoryDeltaParseError)
    ensures
        r.failure() == ParseFailure::Invalid,
{
    InventoryDeltaParseError::Invalid(msg.to_string())
}

fn incompatible(msg: &str) -> (r: InventoryDeltaParseError)
    ensures
        r.failure() == ParseFailure::Incompatible,
{
    InventoryDeltaParseError::Incompatible(msg.to_string())
}

fn serialize_invalid(msg: &str) -> (r: InventoryDeltaSerializeError)
    ensures
        r.failure() == SerializeFailure::Invalid,
{
    InventoryDeltaSerializeError::Invalid(msg.to_string())
}

/// The kind-specific part of an entry's line.
pub open spec fn entry_content(e: EntryView, tree_references: bool) -> Result<Seq<u8>, SerializeFailure> {
    match e {
        EntryView::Directory { .. } => Ok(dir_tag()),
        EntryView::File { text_sha1, text_size, executable, .. } => match (text_size, text_sha1) {
            (Some(z), Some(h)) => {
                if h.contains(0u8) {
                    Err(SerializeFailure::Invalid)
                } else {
                    Ok(
                        cat0(file_tag(), cat0(decimal(z as nat), cat0(if executable { seq![89u8] } else { Seq::empty() }, h))),
                    )
                }
            },
            _ => Err(SerializeFailure::Invalid),
        },
        EntryView::Link { symlink_target, .. } => match symlink_target {
            Some(t) => {
                if vstd::utf8::encode_utf8(t).contains(0u8) {
                    Err(SerializeFailure::Invalid)
                } else {
                    Ok(cat0(link_tag(), vstd::utf8::encode_utf8(t)))
                }
            },
            None => Err(SerializeFailure::Invalid),
        },
        EntryView::TreeReference { reference_revision, .. } => {
            if !tree_references {
                Err(SerializeFailure::UnsupportedKind)
            } else {
                match reference_revision {
                    Some(r) => {
                        if r.contains(0u8) {
                            Err(SerializeFailure::Invalid)
                        } else {
                            Ok(cat0(tree_tag(), r))
                        }
                    },
                    None => Err(SerializeFailure::Invalid),
                }
            }
        },
    }
}

/// Writes the kind-specific part of an entry's line.
fn content_of(e: &InventoryEntry, tree_references: bool) -> (r: Result<Vec<u8>, InventoryDeltaSerializeError>)
    ensures
        match entry_content(e@, tree_references) {
            Ok(c) => r is Ok && r->Ok_0@ == c,
            Err(f) => r is Err && r->Err_0.failure() == f,
        },
{
    match e {
        InventoryEntry::Directory { .. } => Ok(vec![100u8, 105u8, 114u8]),
        InventoryEntry::File { text_sha1, text_size, executable, .. } => match (text_size, text_sha1) {
            (Some(z), Some(h)) => {
                if has_zero(h.as_slice()) {
                    return Err(serialize_invalid("zero byte in sha1"));
                }
                let mut tail: Vec<u8> = if *executable { vec![89u8] } else { Vec::new() };
                push_field(&mut tail, h.as_slice());
                let mut mid = format_decimal(*z);
                push_field(&mut mid, tail.as_slice());
                let mut v: Vec<u8> = vec![102u8, 105u8, 108u8, 101u8];
                push_field(&mut v, mid.as_slice());
                Ok(v)
            },
            _ => Err(serialize_invalid("missing size or sha1")),
        },
        InventoryEntry::Link { symlink_target, .. } => match symlink_target {
            Some(t) => {
                if has_zero(t.as_str().as_bytes()) {
                    return Err(serialize_invalid("zero byte in symlink target"));
                }
                let mut v: Vec<u8> = vec![108u8, 105u8, 110u8, 107u8];
                push_field(&mut v, t.as_str().as_bytes());
                Ok(v)
            },
            None => Err(serialize_invalid("missing symlink target")),
        },
        InventoryEntry::TreeReference { reference_revision, .. } => {
            if !tree_references {
                return Err(InventoryDeltaSerializeError::UnsupportedKind("tree-reference".to_string()));
            }
            match reference_revision {
                Some(r) => {
                    if has_zero(r.as_slice()) {
                        return Err(serialize_invalid("zero byte in reference revision"));
                    }
                    let mut v: Vec<u8> = vec![116u8, 114u8, 101u8, 101u8];
                    push_field(&mut v, r.as_slice());
                    Ok(v)
                },
                None => Err(serialize_invalid("missing reference revision")),
            }
        },
    }
}

/// Writes the kind-specific part of an entry: `dir`; `file`, size,
/// executable mark and sha1; `link` and target; `tree` and revision. Fields
/// are separated by zero bytes, so a field that holds one is refused.
pub fn serialize_inventory_entry(e: &InventoryEntry) -> (r: Result<Vec<u8>, InventoryDeltaSerializeError>)
    ensures
        match entry_content(e@, true) {
            Ok(c) => r is Ok && r->Ok_0@ == c,
            Err(f) => r is Err && r->Err_0.failure() == f,
        },
{
    content_of(e, true)
}

/// The entry that `content` describes, with the given common fields.
pub open spec fn parse_entry_spec(
    file_id: Seq<u8>,
    name: Seq<char>,
    parent_id: Option<Seq<u8>>,
    revision: Option<Seq<u8>>,
    content: Seq<u8>,
) -> Option<EntryView> {
    let kind = field(content);
    if kind == dir_tag() {
        Some(EntryView::Directory { file_id, name, parent_id, revision })
    } else if kind == file_tag() {
        match after_field(content) {
            Some(r1) => match after_field(r1) {
                Some(r2) => match after_field(r2) {
                    Some(r3) => match parse_decimal_spec(field(r1)) {
                        Some(z) => Some(
                            EntryView::File {
                                file_id,
                                name,
                                parent_id,
                                revision,
                                text_sha1: Some(field(r3)),
                                text_size: Some(z),
                                text_id: None,
                                executable: field(r2).len() > 0,
                            },
                        ),
                        None => None,
                    },
                    None => None,
                },
                None => None,
            },
            None => None,
        }
    } else if kind == link_tag() {
        match after_field(content) {
            Some(r1) => {
                if vstd::utf8::valid_utf8(field(r1)) {
                    Some(
                        EntryView::Link {
                            file_id,
                            name,
                            parent_id,
                            revision,
                            symlink_target: Some(vstd::utf8::decode_utf8(field(r1))),
                        },
                    )
                } else {
                    None
                }
            },
            None => None,
        }
    } else if kind == tree_tag() {
        match after_field(content) {
            Some(r1) => Some(
                EntryView::TreeReference {
                    file_id,
                    name,
                    parent_id,
                    revision,
                    reference_revision: Some(field(r1)),
                },
            ),
            None => None,
        }
    } else {
        None
    }
}

/// Reads an entry from the kind-specific part of its line, given the
/// fields that every kind has.
pub fn parse_inventory_entry(
    file_id: Vec<u8>,
    name: String,
    parent_id: Option<Vec<u8>>,
    revision: Option<Vec<u8>>,
    content: &[u8],
) -> (r: Result<InventoryEntry, InventoryDeltaParseError>)
    ensures
        match parse_entry_spec(file_id@, name@, opt_bytes(parent_id), opt_bytes(revision), content@) {
            Some(e) => r is Ok && r->Ok_0@ == e,
            None => r is Err && r->Err_0.failure() == ParseFailure::Invalid,
        },
{
    let (kind, rest) = split_field(content);
    if bytes_eq(kind.as_slice(), &[100u8, 105u8, 114u8]) {
        assert(kind@ == dir_tag());
        return Ok(InventoryEntry::Directory { file_id, name, parent_id, revision });
    }
    assert(seq![100u8, 105u8, 114u8] == dir_tag());
    if bytes_eq(kind.as_slice(), &[102u8, 105u8, 108u8, 101u8]) {
        assert(kind@ == file_tag());
        let r1 = match rest {
            Some(x) => x,
            None => return Err(invalid("file entry without size")),
        };
        let (size, rest2) = split_field(r1.as_slice());
        let r2 = match rest2 {
            Some(x) => x,
            None => return Err(invalid("file entry without executable mark")),
        };
        let (exec, rest3) = split_field(r2.as_slice());
        let r3 = match rest3 {
            Some(x) => x,
            None => return Err(invalid("file entry without sha1")),
        };
        let (sha1, _) = split_field(r3.as_slice());
        let z = match parse_decimal(size.as_slice()) {
            Some(z) => z,
            None => return Err(invalid("file size is not a number")),
        };
        return Ok(
            InventoryEntry::File {
                file_id,
                name,
                parent_id,
                revision,
                text_sha1: Some(sha1),
                text_size: Some(z),
                text_id: None,
                executable: exec.len() > 0,
            },
        );
    }
    assert(seq![102u8, 105u8, 108u8, 101u8] == file_tag());
    if bytes_eq(kind.as_slice(), &[108u8, 105u8, 110u8, 107u8]) {
        assert(kind@ == link_tag());
        let r1 = match rest {
            Some(x) => x,
            None => return Err(invalid("symlink entry without target")),
        };
        let (target, _) = split_field(r1.as_slice());
        return match string_from_utf8(target) {
            Some(t) => Ok(InventoryEntry::Link { file_id, name, parent_id, revision, symlink_target: Some(t) }),
            None => Err(invalid("symlink target is not UTF-8")),
        };
    }
    assert(seq![108u8, 105u8, 110u8, 107u8] == link_tag());
    if bytes_eq(kind.as_slice(), &[116u8, 114u8, 101u8, 101u8]) {
        assert(kind@ == tree_tag());
        let r1 = match rest {
            Some(x) => x,
            None => return Err(invalid("tree reference without revision")),
        };
        let (rev, _) = split_field(r1.as_slice());
        return Ok(
            InventoryEntry::TreeReference { file_id, name, parent_id, revision, reference_revision: Some(rev) },
        );
    }
    assert(seq![116u8, 114u8, 101u8, 101u8] == tree_tag());
    Err(invalid("unknown entry kind"))
}

/// The six fields of a record line, each followed by a zero byte but the
/// last, which is followed by a newline.
pub open spec fn record_text(
    a: Seq<u8>,
    b: Seq<u8>,
    c: Seq<u8>,
    d: Seq<u8>,
    e: Seq<u8>,
    f: Seq<u8>,
) -> Seq<u8> {
    cat0(a, cat0(b, cat0(c, cat0(d, cat0(e, f))))).push(10u8)
}

/// The bytes that stand for an optional parent id: nothing for none.
pub open spec fn parent_text(p: Option<Seq<u8>>) -> Seq<u8> {
    match p {
        Some(x) => x,
        None => Seq::empty(),
    }
}

/// The line that writes one record in a delta whose target revision is
/// `version`, leaving aside whether it reads back.
pub open spec fn line_of(
    r: DeltaEntryView,
    version: Seq<u8>,
    versioned_root: bool,
    tree_references: bool,
) -> Result<Seq<u8>, SerializeFailure> {
    match r.new_path {
        None => match r.old_path {
            None => Err(SerializeFailure::Invalid),
            Some(_) => Ok(
                record_text(
                    path_key(r.old_path),
                    none_tag(),
                    r.file_id,
                    Seq::empty(),
                    null_revision(),
                    cat0(deleted_tag(), cat0(Seq::empty(), Seq::empty())),
                ),
            ),
        },
        Some(np) => match r.new_entry {
            None => Err(SerializeFailure::Invalid),
            Some(e) => {
                if np.len() == 0 && !versioned_root && e.revision() != Some(version) {
                    Err(SerializeFailure::Invalid)
                } else {
                    match e.revision() {
                        None => Err(SerializeFailure::Invalid),
                        Some(rev) => match entry_content(e, tree_references) {
                            Err(f) => Err(f),
                            Ok(c) => Ok(
                                record_text(
                                    path_key(r.old_path),
                                    path_key(r.new_path),
                                    r.file_id,
                                    parent_text(e.parent_id()),
                                    rev,
                                    c,
                                ),
                            ),
                        },
                    }
                }
            },
        },
    }
}

pub open spec fn no_zero(s: Seq<u8>) -> bool {
    !s.contains(0u8)
}

/// An entry that the format carries unchanged, as the entry of the record
/// with new path `np` and file id `fid` in a delta to `version`: its own
/// file id, the base name of its path, a non-empty parent id, a revision
/// that is not a special one (ending in `:`), the target revision for an
/// unversioned root, no zero byte in any field, and the content of its kind
/// (no text id for a file, whose text id the format does not carry).
pub open spec fn wire_entry(e: EntryView, np: Seq<char>, fid: Seq<u8>, version: Seq<u8>, vr: bool, tr: bool) -> bool {
    &&& e.file_id() == fid
    &&& e.name() == crate::wire::basename(np)
    &&& (e.parent_id() matches Some(p) ==> p.len() > 0 && no_zero(p))
    &&& e.revision() matches Some(rev) && no_zero(rev) && !(rev.len() > 0 && rev.last() == 58u8) && (np.len() == 0
        && !vr ==> rev == version)
    &&& match e {
        EntryView::File { text_sha1, text_size, text_id, .. } => text_sha1 matches Some(h) && no_zero(h)
            && text_size is Some && text_id is None,
        EntryView::Directory { .. } => true,
        EntryView::Link { symlink_target, .. } => symlink_target matches Some(t) && no_zero(
            vstd::utf8::encode_utf8(t),
        ),
        EntryView::TreeReference { reference_revision, .. } => tr && (reference_revision matches Some(x) && no_zero(x)),
    }
}

/// A record that the format carries unchanged: its paths and file id hold
/// no zero byte, a removal has an old path and no entry, and any other
/// record has an entry that the format carries unchanged.
pub open spec fn wire_record(r: DeltaEntryView, version: Seq<u8>, vr: bool, tr: bool) -> bool {
    &&& no_zero(path_key(r.old_path))
    &&& no_zero(r.file_id)
    &&& match r.new_path {
        None => r.new_entry is None && r.old_path is Some,
        Some(np) => no_zero(path_key(r.new_path)) && (r.new_entry matches Some(e) && wire_entry(
            e,
            np,
            r.file_id,
            version,
            vr,
            tr,
        )),
    }
}

/// No two records share a file id.
pub open spec fn distinct_ids(d: Seq<DeltaEntryView>) -> bool {
    forall|i: int, j: int| 0 <= i < j < d.len() ==> d[i].file_id != d[j].file_id
}

/// The line of one record, or why it cannot be written: an entry without a
/// new path, or anything but a record the format carries unchanged, is
/// invalid; a tree reference when they are not enabled is an unsupported
/// kind.
pub open spec fn record_line(
    r: DeltaEntryView,
    version: Seq<u8>,
    versioned_root: bool,
    tree_references: bool,
) -> Result<Seq<u8>, SerializeFailure> {
    if r.new_path is None && r.new_entry is Some {
        Err(SerializeFailure::Invalid)
    } else if r.new_entry matches Some(e) && e.kind() == crate::entry::Kind::TreeReference && !tree_references {
        Err(SerializeFailure::UnsupportedKind)
    } else if !wire_record(r, version, versioned_root, tree_references) {
        Err(SerializeFailure::Invalid)
    } else {
        line_of(r, version, versioned_root, tree_references)
    }
}

/// The lines of the records of `s`, in order; the first failure if any.
pub open spec fn record_lines(
    s: Seq<DeltaEntryView>,
    version: Seq<u8>,
    versioned_root: bool,
    tree_references: bool,
) -> Result<Seq<Seq<u8>>, SerializeFailure>
    decreases s.len(),
{
    if s.len() == 0 {
        Ok(Seq::empty())
    } else {
        match record_lines(s.drop_last(), version, versioned_root, tree_references) {
            Err(f) => Err(f),
            Ok(ls) => match record_line(s.last(), version, versioned_root, tree_references) {
                Err(f) => Err(f),
                Ok(l) => Ok(ls.push(l)),
            },
        }
    }
}

/// The five header lines of a delta.
pub open spec fn header_lines(
    parent: Seq<u8>,
    version: Seq<u8>,
    versioned_root: bool,
    tree_references: bool,
) -> Seq<Seq<u8>> {
    seq![
        format_text().push(10u8),
        (parent_prefix() + parent).push(10u8),
        (version_prefix() + version).push(10u8),
        (versioned_root_prefix() + bool_tag(versioned_root)).push(10u8),
        (tree_references_prefix() + bool_tag(tree_references)).push(10u8),
    ]
}

/// The lines of a delta: the header, then one line per record in sorted
/// order.
pub open spec fn serialize_spec(
    parent: Seq<u8>,
    version: Seq<u8>,
    d: Seq<DeltaEntryView>,
    versioned_root: bool,
    tree_references: bool,
) -> Result<Seq<Seq<u8>>, SerializeFailure> {
    if !distinct_ids(d) {
        Err(SerializeFailure::Invalid)
    } else {
        match record_lines(sorted_records(d), version, versioned_root, tree_references) {
            Err(f) => Err(f),
            Ok(ls) => Ok(header_lines(parent, version, versioned_root, tree_references) + ls),
        }
    }
}

pub open spec fn lines_of(v: Seq<Vec<u8>>) -> Seq<Seq<u8>> {
    v.map_values(|l: Vec<u8>| l@)
}

fn push_line(v: &mut Vec<u8>, b: &[u8])
    ensures
        final(v)@ == (old(v)@ + b@).push(10u8),
{
    append_bytes(v, b);
    v.push(10u8);
}

fn bool_bytes(b: bool) -> (r: Vec<u8>)
    ensures
        r@ == bool_tag(b),
{
    if b {
        vec![116u8, 114u8, 117u8, 101u8]
    } else {
        vec![102u8, 97u8, 108u8, 115u8, 101u8]
    }
}

fn encode_record(
    r: &InventoryDeltaEntry,
    version: &[u8],
    versioned_root: bool,
    tree_references: bool,
) -> (res: Result<Vec<u8>, InventoryDeltaSerializeError>)
    ensures
        match line_of(r@, version@, versioned_root, tree_references) {
            Ok(l) => res is Ok && res->Ok_0@ == l,
            Err(f) => res is Err && res->Err_0.failure() == f,
        },
{
    let old_key = path_key_of(&r.old_path);
    match &r.new_path {
        None => {
            if r.old_path.is_none() {
                return Err(serialize_invalid("record with neither old nor new path"));
            }
            let mut c: Vec<u8> = vec![100u8, 101u8, 108u8, 101u8, 116u8, 101u8, 100u8];
            c.push(0u8);
            c.push(0u8);
            assert(c@ =~= cat0(deleted_tag(), cat0(Seq::empty(), Seq::empty())));
            let fields = [
                vec![78u8, 111u8, 110u8, 101u8],
                copy_bytes(r.file_id.as_slice()),
                Vec::new(),
                vec![110u8, 117u8, 108u8, 108u8, 58u8],
                c,
            ];
            Ok(join_record(old_key, &fields))
        },
        Some(np) => match &r.new_entry {
            None => Err(serialize_invalid("new path without entry")),
            Some(e) => {
                let root = np.as_str().unicode_len() == 0;
                if root && !versioned_root {
                    let same = match e.revision() {
                        Some(rev) => bytes_eq(rev.as_slice(), version),
                        None => false,
                    };
                    if !same {
                        return Err(serialize_invalid("version present for the root"));
                    }
                }
                let rev = match e.revision() {
                    Some(rev) => rev,
                    None => return Err(serialize_invalid("entry without revision")),
                };
                let c = content_of(e, tree_references)?;
                let parent = match e.parent_id() {
                    Some(p) => copy_bytes(p.as_slice()),
                    None => Vec::new(),
                };
                let fields = [
                    path_key_of(&r.new_path),
                    copy_bytes(r.file_id.as_slice()),
                    parent,
                    copy_bytes(rev.as_slice()),
                    c,
                ];
                Ok(join_record(old_key, &fields))
            },
        },
    }
}

fn entry_wire_ok(e: &InventoryEntry, np: &str, fid: &[u8], version: &[u8], vr: bool, tr: bool) -> (r: bool)
    ensures
        r == wire_entry(e@, np@, fid@, version@, vr, tr),
{
    if !bytes_eq(e.file_id().as_slice(), fid) {
        return false;
    }
    let base = basename_of(np);
    if !crate::bytes::str_eq(e.name().as_str(), base.as_str()) {
        return false;
    }
    match e.parent_id() {
        Some(p) => {
            if p.len() == 0 || has_zero(p.as_slice()) {
                return false;
            }
        },
        None => {},
    }
    match e.revision() {
        None => {
            return false;
        },
        Some(rev) => {
            if has_zero(rev.as_slice()) {
                return false;
            }
            if rev.len() > 0 && rev[rev.len() - 1] == 58u8 {
                return false;
            }
            if np.unicode_len() == 0 && !vr && !bytes_eq(rev.as_slice(), version) {
                return false;
            }
        },
    }
    match e {
        InventoryEntry::File { text_sha1, text_size, text_id, .. } => match text_sha1 {
            Some(h) => !has_zero(h.as_slice()) && text_size.is_some() && text_id.is_none(),
            None => false,
        },
        InventoryEntry::Directory { .. } => true,
        InventoryEntry::Link { symlink_target, .. } => match symlink_target {
            Some(t) => !has_zero(t.as_str().as_bytes()),
            None => false,
        },
        InventoryEntry::TreeReference { reference_revision, .. } => tr && match reference_revision {
            Some(x) => !has_zero(x.as_slice()),
            None => false,
        },
    }
}

fn record_wire_ok(r: &InventoryDeltaEntry, version: &[u8], vr: bool, tr: bool) -> (ok: bool)
    ensures
        ok == wire_record(r@, version@, vr, tr),
{
    if has_zero(path_key_of(&r.old_path).as_slice()) {
        return false;
    }
    if has_zero(r.file_id.as_slice()) {
        return false;
    }
    match &r.new_path {
        None => r.new_entry.is_none() && r.old_path.is_some(),
        Some(np) => {
            if has_zero(path_key_of(&r.new_path).as_slice()) {
                return false;
            }
            match &r.new_entry {
                None => false,
                Some(e) => entry_wire_ok(e, np.as_str(), r.file_id.as_slice(), version, vr, tr),
            }
        },
    }
}

fn serialize_record(
    r: &InventoryDeltaEntry,
    version: &[u8],
    versioned_root: bool,
    tree_references: bool,
) -> (res: Result<Vec<u8>, InventoryDeltaSerializeError>)
    ensures
        match record_line(r@, version@, versioned_root, tree_references) {
            Ok(l) => res is Ok && res->Ok_0@ == l,
            Err(f) => res is Err && res->Err_0.failure() == f,
        },
{
    if r.new_path.is_none() && r.new_entry.is_some() {
        return Err(serialize_invalid("entry without new path"));
    }
    match &r.new_entry {
        Some(e) => {
            if e.kind() == Kind::TreeReference && !tree_references {
                return Err(InventoryDeltaSerializeError::UnsupportedKind("tree-reference".to_string()));
            }
        },
        None => {},
    }
    if !record_wire_ok(r, version, versioned_root, tree_references) {
        return Err(serialize_invalid("record that would not read back unchanged"));
    }
    encode_record(r, version, versioned_root, tree_references)
}

/// Whether the records have distinct file ids.
fn ids_distinct(v: &Vec<InventoryDeltaEntry>) -> (r: bool)
    ensures
        r == distinct_ids(records_of(v@)),
{
    let ghost s = records_of(v@);
    let n = v.len();
    let mut j: usize = 0;
    while j < n
        invariant
            n == v@.len(),
            s == records_of(v@),
            0 <= j <= n,
            forall|a: int, b: int| 0 <= a < b < j ==> s[a].file_id != s[b].file_id,
        decreases n - j,
    {
        let mut i: usize = 0;
        while i < j
            invariant
                n == v@.len(),
                s == records_of(v@),
                0 <= i <= j < n,
                forall|a: int| 0 <= a < i ==> s[a].file_id != s[j as int].file_id,
            decreases j - i,
        {
            if bytes_eq(v[i].file_id.as_slice(), v[j].file_id.as_slice()) {
                assert(s[i as int].file_id == s[j as int].file_id);
                return false;
            }
            i = i + 1;
        }
        j = j + 1;
    }
    true
}

fn join_record(first: Vec<u8>, rest: &[Vec<u8>; 5]) -> (r: Vec<u8>)
    ensures
        r@ == record_text(first@, rest[0]@, rest[1]@, rest[2]@, rest[3]@, rest[4]@),
{
    let mut tail = copy_bytes(rest[3].as_slice());
    push_field(&mut tail, rest[4].as_slice());
    let mut t2 = copy_bytes(rest[2].as_slice());
    push_field(&mut t2, tail.as_slice());
    let mut t1 = copy_bytes(rest[1].as_slice());
    push_field(&mut t1, t2.as_slice());
    let mut t0 = copy_bytes(rest[0].as_slice());
    push_field(&mut t0, t1.as_slice());
    let mut v = first;
    push_field(&mut v, t0.as_slice());
    v.push(10u8);
    v
}

/// Writes a delta from revision `parent` to revision `version`: a header
/// that names both and the two feature flags, then one line per record,
/// in the records' sorted order.
pub fn serialize_inventory_delta(
    parent: &[u8],
    version: &[u8],
    delta: &InventoryDelta,
    versioned_root: bool,
    tree_references: bool,
) -> (r: Result<Vec<Vec<u8>>, InventoryDeltaSerializeError>)
    ensures
        match serialize_spec(parent@, version@, delta@, versioned_root, tree_references) {
            Ok(ls) => r is Ok && lines_of(r->Ok_0@) == ls,
            Err(f) => r is Err && r->Err_0.failure() == f,
        },
{
    if !ids_distinct(&delta.entries) {
        return Err(serialize_invalid("repeated file id"));
    }
    let mut records: Vec<InventoryDeltaEntry> = Vec::new();
    let mut i: usize = 0;
    while i < delta.entries.len()
        invariant
            0 <= i <= delta.entries@.len(),
            records_of(records@) == records_of(delta.entries@).take(i as int),
        decreases delta.entries@.len() - i,
    {
        let c = delta.entries[i].copy();
        let ghost before = records@;
        records.push(c);
        assert(records_of(records@) =~= records_of(before).push(c@));
        assert(records_of(delta.entries@).take(i + 1) =~= records_of(delta.entries@).take(i as int).push(
            delta.entries@[i as int]@,
        ));
        i = i + 1;
    }
    assert(records_of(delta.entries@).take(i as int) =~= delta@);
    let mut sorted = InventoryDelta::new(records);
    sorted.sort();
    let ghost s = sorted@;
    assert(s == sorted_records(delta@));
    let mut out: Vec<Vec<u8>> = Vec::new();
    let mut l0: Vec<u8> = Vec::new();
    push_line(&mut l0, "format: bzr inventory delta v1 (bzr 1.14)".as_bytes());
    out.push(l0);
    let mut l1 = copy_bytes("parent: ".as_bytes());
    push_line(&mut l1, parent);
    out.push(l1);
    let mut l2 = copy_bytes("version: ".as_bytes());
    push_line(&mut l2, version);
    out.push(l2);
    let mut l3 = copy_bytes("versioned_root: ".as_bytes());
    push_line(&mut l3, bool_bytes(versioned_root).as_slice());
    out.push(l3);
    let mut l4 = copy_bytes("tree_references: ".as_bytes());
    push_line(&mut l4, bool_bytes(tree_references).as_slice());
    out.push(l4);
    let ghost header = header_lines(parent@, version@, versioned_root, tree_references);
    assert(lines_of(out@) =~= header);
    let mut j: usize = 0;
    while j < sorted.entries.len()
        invariant
            s == sorted@,
            s == sorted_records(delta@),
            distinct_ids(delta@),
            header == header_lines(parent@, version@, versioned_root, tree_references),
            0 <= j <= s.len(),
            record_lines(s.take(j as int), version@, versioned_root, tree_references) matches Ok(ls)
                && lines_of(out@) == header + ls,
        decreases s.len() - j,
    {
        let ghost prev = out@;
        assert(s.take(j + 1).drop_last() =~= s.take(j as int));
        assert(s.take(j + 1).last() == s[j as int]);
        let line = match serialize_record(&sorted.entries[j], version, versioned_root, tree_references) {
            Ok(l) => l,
            Err(e) => {
                proof {
                    assert(s[j as int] == sorted.entries@[j as int]@);
                    assert(record_lines(s.take(j as int + 1), version@, versioned_root, tree_references) == Err::<
                        Seq<Seq<u8>>,
                        SerializeFailure,
                    >(e.failure()));
                    lemma_record_lines_prefix_err(s, j as int + 1, version@, versioned_root, tree_references);
                }
                return Err(e);
            },
        };
        assert(s[j as int] == sorted.entries@[j as int]@);
        out.push(line);
        assert(lines_of(out@) =~= lines_of(prev).push(line@));
        j = j + 1;
    }
    assert(s.take(j as int) =~= s);
    Ok(out)
}

proof fn lemma_record_lines_prefix_err(
    s: Seq<DeltaEntryView>,
    m: int,
    version: Seq<u8>,
    vr: bool,
    tr: bool,
)
    requires
        0 <= m <= s.len(),
        record_lines(s.take(m), version, vr, tr) is Err,
    ensures
        record_lines(s, version, vr, tr) == record_lines(s.take(m), version, vr, tr),
    decreases s.len() - m,
{
    if m < s.len() {
        assert(s.take(m + 1).drop_last() =~= s.take(m));
        lemma_record_lines_prefix_err(s, m + 1, version, vr, tr);
    } else {
        assert(s.take(m) =~= s);
    }
}

/// A line without its final newline, if it has one.
pub open spec fn strip_newline(l: Seq<u8>) -> Seq<u8> {
    if l.len() > 0 && l.last() == 10u8 {
        l.drop_last()
    } else {
        l
    }
}

pub open spec fn starts_with(l: Seq<u8>, p: Seq<u8>) -> bool {
    p.len() <= l.len() && l.take(p.len() as int) == p
}

pub open spec fn parse_bool(s: Seq<u8>) -> Option<bool> {
    if s == bool_tag(true) {
        Some(true)
    } else if s == bool_tag(false) {
        Some(false)
    } else {
        None
    }
}

/// The six fields of a record line: five zero-terminated fields, then the
/// rest.
pub open spec fn split6(line: Seq<u8>) -> Option<(Seq<u8>, Seq<u8>, Seq<u8>, Seq<u8>, Seq<u8>, Seq<u8>)> {
    match after_field(line) {
        None => None,
        Some(r1) => match after_field(r1) {
            None => None,
            Some(r2) => match after_field(r2) {
                None => None,
                Some(r3) => match after_field(r3) {
                    None => None,
                    Some(r4) => match after_field(r4) {
                        None => None,
                        Some(r5) => Some((field(line), field(r1), field(r2), field(r3), field(r4), r5)),
                    },
                },
            },
        },
    }
}

/// An optional path read from its field: `None`, or `/` and UTF-8 text.
pub open spec fn parse_path(f: Seq<u8>) -> Option<Option<Seq<char>>> {
    if f == none_tag() {
        Some(None)
    } else if f.len() > 0 && f[0] == 47u8 && vstd::utf8::valid_utf8(f.skip(1)) {
        Some(Some(vstd::utf8::decode_utf8(f.skip(1))))
    } else {
        None
    }
}

/// The record that `line` writes, given the records `prev` read before it.
pub open spec fn parse_record(
    prev: Seq<DeltaEntryView>,
    line: Seq<u8>,
    version: Seq<u8>,
    delta_versioned_root: bool,
    delta_tree_references: bool,
    allow_tree_references: bool,
) -> Result<DeltaEntryView, ParseFailure> {
    match split6(line) {
        None => Err(ParseFailure::Invalid),
        Some((f1, f2, fid, par, rev, content)) => {
            let parent = if par.len() == 0 {
                None
            } else {
                Some(par)
            };
            let is_tree = starts_with(content, tree_tag().push(0u8));
            if exists|j: int| 0 <= j < prev.len() && #[trigger] prev[j].file_id == fid {
                Err(ParseFailure::Invalid)
            } else if f2 == seq![47u8] && !delta_versioned_root && rev != version {
                Err(ParseFailure::Incompatible)
            } else if f2 != none_tag() && rev.len() > 0 && rev.last() == 58u8 {
                Err(ParseFailure::Invalid)
            } else if is_tree && !delta_tree_references {
                Err(ParseFailure::Incompatible)
            } else if is_tree && !allow_tree_references {
                Err(ParseFailure::Incompatible)
            } else {
                match (parse_path(f1), parse_path(f2)) {
                    (Some(old), Some(new)) => {
                        if field(content) == deleted_tag() {
                            Ok(DeltaEntryView { old_path: old, new_path: new, file_id: fid, new_entry: None })
                        } else {
                            match new {
                                None => Err(ParseFailure::Invalid),
                                Some(np) => match parse_entry_spec(fid, basename(np), parent, Some(rev), content) {
                                    Some(e) => Ok(
                                        DeltaEntryView { old_path: old, new_path: new, file_id: fid, new_entry: Some(e) },
                                    ),
                                    None => Err(ParseFailure::Invalid),
                                },
                            }
                        }
                    },
                    _ => Err(ParseFailure::Invalid),
                }
            }
        },
    }
}

/// The records that the lines `ls` write; the first failure if any.
pub open spec fn parse_records(
    ls: Seq<Seq<u8>>,
    version: Seq<u8>,
    dvr: bool,
    dtr: bool,
    atr: bool,
) -> Result<Seq<DeltaEntryView>, ParseFailure>
    decreases ls.len(),
{
    if ls.len() == 0 {
        Ok(Seq::empty())
    } else {
        match parse_records(ls.drop_last(), version, dvr, dtr, atr) {
            Err(f) => Err(f),
            Ok(prev) => match parse_record(prev, ls.last(), version, dvr, dtr, atr) {
                Err(f) => Err(f),
                Ok(r) => Ok(prev.push(r)),
            },
        }
    }
}

/// What a delta's lines hold: parent and target revisions, the two feature
/// flags, and the records.
pub open spec fn parse_spec(lines: Seq<Seq<u8>>, allow_versioned_root: bool, allow_tree_references: bool) -> Result<
    (Seq<u8>, Seq<u8>, bool, bool, Seq<DeltaEntryView>),
    ParseFailure,
> {
    if lines.len() == 0 {
        Err(ParseFailure::Invalid)
    } else if !(lines.last().len() > 0 && lines.last().last() == 10u8) {
        Err(ParseFailure::Invalid)
    } else {
        let ls = lines.map_values(|l: Seq<u8>| strip_newline(l));
        if ls[0] != format_text() {
            Err(ParseFailure::Invalid)
        } else if ls.len() < 2 || !starts_with(ls[1], parent_prefix()) {
            Err(ParseFailure::Invalid)
        } else if ls.len() < 3 || !starts_with(ls[2], version_prefix()) {
            Err(ParseFailure::Invalid)
        } else if ls.len() < 4 || !starts_with(ls[3], versioned_root_prefix()) {
            Err(ParseFailure::Invalid)
        } else {
            match parse_bool(ls[3].skip(versioned_root_prefix().len() as int)) {
                None => Err(ParseFailure::Invalid),
                Some(dvr) => {
                    if ls.len() < 5 || !starts_with(ls[4], tree_references_prefix()) {
                        Err(ParseFailure::Invalid)
                    } else {
                        match parse_bool(ls[4].skip(tree_references_prefix().len() as int)) {
                            None => Err(ParseFailure::Invalid),
                            Some(dtr) => {
                                if !allow_versioned_root && dvr {
                                    Err(ParseFailure::Incompatible)
                                } else {
                                    let parent = ls[1].skip(parent_prefix().len() as int);
                                    let version = ls[2].skip(version_prefix().len() as int);
                                    match parse_records(ls.skip(5), version, dvr, dtr, allow_tree_references) {
                                        Err(f) => Err(f),
                                        Ok(rs) => Ok((parent, version, dvr, dtr, rs)),
                                    }
                                }
                            },
                        }
                    }
                },
            }
        }
    }
}

fn starts_with_bytes(l: &[u8], p: &[u8]) -> (r: bool)
    ensures
        r == starts_with(l@, p@),
{
    if p.len() > l.len() {
        return false;
    }
    let head = copy_range(l, 0, p.len());
    bytes_eq(head.as_slice(), p)
}

fn parse_bool_bytes(s: &[u8]) -> (r: Option<bool>)
    ensures
        r == parse_bool(s@),
{
    if bytes_eq(s, &[116u8, 114u8, 117u8, 101u8]) {
        Some(true)
    } else if bytes_eq(s, &[102u8, 97u8, 108u8, 115u8, 101u8]) {
        Some(false)
    } else {
        None
    }
}

fn parse_path_field(f: &[u8]) -> (r: Option<Option<String>>)
    ensures
        match parse_path(f@) {
            None => r is None,
            Some(None) => r matches Some(None),
            Some(Some(p)) => r matches Some(Some(s)) && s@ == p,
        },
{
    if bytes_eq(f, &[78u8, 111u8, 110u8, 101u8]) {
        return Some(None);
    }
    if f.len() > 0 && f[0] == 47u8 {
        match string_from_utf8(copy_range(f, 1, f.len())) {
            Some(s) => {
                assert(f@.subrange(1, f@.len() as int) == f@.skip(1));
                Some(Some(s))
            },
            None => {
                assert(f@.subrange(1, f@.len() as int) == f@.skip(1));
                None
            },
        }
    } else {
        None
    }
}

fn parse_record_line(
    prev: &Vec<InventoryDeltaEntry>,
    line: &[u8],
    version: &[u8],
    dvr: bool,
    dtr: bool,
    atr: bool,
) -> (r: Result<InventoryDeltaEntry, InventoryDeltaParseError>)
    ensures
        match parse_record(records_of(prev@), line@, version@, dvr, dtr, atr) {
            Ok(rec) => r is Ok && r->Ok_0@ == rec,
            Err(f) => r is Err && r->Err_0.failure() == f,
        },
{
    let (f1, r1) = split_field(line);
    let r1 = match r1 {
        Some(x) => x,
        None => return Err(invalid("too few fields")),
    };
    let (f2, r2) = split_field(r1.as_slice());
    let r2 = match r2 {
        Some(x) => x,
        None => return Err(invalid("too few fields")),
    };
    let (fid, r3) = split_field(r2.as_slice());
    let r3 = match r3 {
        Some(x) => x,
        None => return Err(invalid("too few fields")),
    };
    let (par, r4) = split_field(r3.as_slice());
    let r4 = match r4 {
        Some(x) => x,
        None => return Err(invalid("too few fields")),
    };
    let (rev, r5) = split_field(r4.as_slice());
    let content = match r5 {
        Some(x) => x,
        None => return Err(invalid("too few fields")),
    };
    assert(split6(line@) == Some((f1@, f2@, fid@, par@, rev@, content@)));
    let ghost ps = records_of(prev@);
    let mut j: usize = 0;
    while j < prev.len()
        invariant
            0 <= j <= prev@.len(),
            ps == records_of(prev@),
            split6(line@) == Some((f1@, f2@, fid@, par@, rev@, content@)),
            forall|m: int| 0 <= m < j ==> #[trigger] ps[m].file_id != fid@,
        decreases prev@.len() - j,
    {
        if bytes_eq(prev[j].file_id.as_slice(), fid.as_slice()) {
            assert(ps[j as int].file_id == fid@);
            return Err(invalid("duplicate file id"));
        }
        j = j + 1;
    }
    let slash_only = f2.len() == 1 && f2[0] == 47u8;
    assert(slash_only == (f2@ == seq![47u8])) by {
        if f2@.len() == 1 && f2@[0] == 47u8 {
            assert(f2@ =~= seq![47u8]);
        }
    }
    let is_none = bytes_eq(f2.as_slice(), &[78u8, 111u8, 110u8, 101u8]);
    if slash_only && !dvr && !bytes_eq(rev.as_slice(), version) {
        return Err(incompatible("versioned root found but the header says there is none"));
    }
    if !is_none && rev.len() > 0 && rev[rev.len() - 1] == 58u8 {
        return Err(invalid("special revision id found"));
    }
    let is_tree = starts_with_bytes(content.as_slice(), &[116u8, 114u8, 101u8, 101u8, 0u8]);
    assert(seq![116u8, 114u8, 101u8, 101u8, 0u8] == tree_tag().push(0u8));
    if is_tree && !dtr {
        return Err(incompatible("tree reference found but the header says there are none"));
    }
    if is_tree && !atr {
        return Err(incompatible("tree references not allowed"));
    }
    let old = match parse_path_field(f1.as_slice()) {
        Some(p) => p,
        None => return Err(invalid("invalid old path")),
    };
    let new = match parse_path_field(f2.as_slice()) {
        Some(p) => p,
        None => return Err(invalid("invalid new path")),
    };
    let (kind, _) = split_field(content.as_slice());
    if bytes_eq(kind.as_slice(), &[100u8, 101u8, 108u8, 101u8, 116u8, 101u8, 100u8]) {
        return Ok(InventoryDeltaEntry { old_path: old, new_path: new, file_id: fid, new_entry: None });
    }
    assert(seq![100u8, 101u8, 108u8, 101u8, 116u8, 101u8, 100u8] == deleted_tag());
    let name = match &new {
        None => return Err(invalid("entry without new path")),
        Some(np) => basename_of(np.as_str()),
    };
    let parent = if par.len() == 0 {
        None
    } else {
        Some(par)
    };
    let e = parse_inventory_entry(copy_bytes(fid.as_slice()), name, parent, Some(rev), content.as_slice())?;
    Ok(InventoryDeltaEntry { old_path: old, new_path: new, file_id: fid, new_entry: Some(e) })
}

/// Reads a delta: the header with the parent and target revisions and the
/// two feature flags, then the records. A flag that the caller does not
/// allow (absent means allowed) makes the delta incompatible; malformed
/// input makes it invalid.
pub fn parse_inventory_delta(
    lines: &Vec<Vec<u8>>,
    allow_versioned_root: Option<bool>,
    allow_tree_references: Option<bool>,
) -> (r: Result<(Vec<u8>, Vec<u8>, bool, bool, InventoryDelta), InventoryDeltaParseError>)
    ensures
        match parse_spec(
            lines_of(lines@),
            allow_versioned_root.unwrap_or(true),
            allow_tree_references.unwrap_or(true),
        ) {
            Ok((p, v, dvr, dtr, rs)) => r matches Ok((p2, v2, dvr2, dtr2, d)) && p2@ == p && v2@ == v && dvr2
                == dvr && dtr2 == dtr && d@ == rs,
            Err(f) => r is Err && r->Err_0.failure() == f,
        },
{
    let avr = match allow_versioned_root {
        Some(b) => b,
        None => true,
    };
    let atr = match allow_tree_references {
        Some(b) => b,
        None => true,
    };
    let ghost ln = lines_of(lines@);
    let n = lines.len();
    if n == 0 {
        return Err(invalid("inventory delta is empty"));
    }
    assert(ln.last() == lines@[n - 1]@);
    let last = &lines[n - 1];
    if !(last.len() > 0 && last[last.len() - 1] == 10u8) {
        return Err(invalid("last line not empty"));
    }
    let ghost ls = ln.map_values(|l: Seq<u8>| strip_newline(l));
    let mut stripped: Vec<Vec<u8>> = Vec::new();
    let mut i: usize = 0;
    while i < n
        invariant
            n == lines@.len(),
            ln == lines_of(lines@),
            ls == ln.map_values(|l: Seq<u8>| strip_newline(l)),
            0 <= i <= n,
            lines_of(stripped@) == ls.take(i as int),
        decreases n - i,
    {
        let l = &lines[i];
        let k = if l.len() > 0 && l[l.len() - 1] == 10u8 {
            l.len() - 1
        } else {
            l.len()
        };
        let c = copy_range(l.as_slice(), 0, k);
        assert(ls[i as int] == strip_newline(l@));
        assert(c@ == strip_newline(l@));
        let ghost before = stripped@;
        stripped.push(c);
        assert(lines_of(stripped@) =~= lines_of(before).push(c@));
        assert(ls.take(i + 1) =~= ls.take(i as int).push(ls[i as int]));
        i = i + 1;
    }
    assert(ls.take(n as int) =~= ls);
    assert(forall|m: int| 0 <= m < n ==> #[trigger] stripped@[m]@ == ls[m]);
    if !bytes_eq(stripped[0].as_slice(), "format: bzr inventory delta v1 (bzr 1.14)".as_bytes()) {
        return Err(invalid("unknown format"));
    }
    if n < 2 || !starts_with_bytes(stripped[1].as_slice(), "parent: ".as_bytes()) {
        return Err(invalid("missing parent: marker"));
    }
    if n < 3 || !starts_with_bytes(stripped[2].as_slice(), "version: ".as_bytes()) {
        return Err(invalid("missing version: marker"));
    }
    if n < 4 || !starts_with_bytes(stripped[3].as_slice(), "versioned_root: ".as_bytes()) {
        return Err(invalid("missing versioned_root: marker"));
    }
    let vr_len = "versioned_root: ".as_bytes().len();
    let vr_field = copy_range(stripped[3].as_slice(), vr_len, stripped[3].len());
    assert(vr_field@ == ls[3].skip(versioned_root_prefix().len() as int));
    let dvr = match parse_bool_bytes(vr_field.as_slice()) {
        Some(b) => b,
        None => return Err(invalid("versioned_root is not a bool")),
    };
    if n < 5 || !starts_with_bytes(stripped[4].as_slice(), "tree_references: ".as_bytes()) {
        return Err(invalid("missing tree_references: marker"));
    }
    let tr_len = "tree_references: ".as_bytes().len();
    let tr_field = copy_range(stripped[4].as_slice(), tr_len, stripped[4].len());
    assert(tr_field@ == ls[4].skip(tree_references_prefix().len() as int));
    let dtr = match parse_bool_bytes(tr_field.as_slice()) {
        Some(b) => b,
        None => return Err(invalid("tree_references is not a bool")),
    };
    if !avr && dvr {
        return Err(incompatible("versioned_root not allowed"));
    }
    let p_len = "parent: ".as_bytes().len();
    let parent = copy_range(stripped[1].as_slice(), p_len, stripped[1].len());
    let v_len = "version: ".as_bytes().len();
    let version = copy_range(stripped[2].as_slice(), v_len, stripped[2].len());
    assert(parent@ == ls[1].skip(parent_prefix().len() as int));
    assert(version@ == ls[2].skip(version_prefix().len() as int));
    assert(lines_of(stripped@) =~= ls);
    let records = parse_body(&stripped, version.as_slice(), dvr, dtr, atr)?;
    Ok((parent, version, dvr, dtr, records))
}

/// Reads the records that follow the five header lines.
fn parse_body(stripped: &Vec<Vec<u8>>, version: &[u8], dvr: bool, dtr: bool, atr: bool) -> (r: Result<
    InventoryDelta,
    InventoryDeltaParseError,
>)
    requires
        stripped@.len() >= 5,
    ensures
        match parse_records(lines_of(stripped@).skip(5), version@, dvr, dtr, atr) {
            Ok(rs) => r is Ok && r->Ok_0@ == rs,
            Err(f) => r is Err && r->Err_0.failure() == f,
        },
{
    let n = stripped.len();
    let ghost ls = lines_of(stripped@);
    let ghost body = ls.skip(5);
    let mut records: Vec<InventoryDeltaEntry> = Vec::new();
    assert(body.take(0) =~= Seq::<Seq<u8>>::empty());
    assert(records_of(records@) =~= Seq::<DeltaEntryView>::empty());
    let mut k: usize = 5;
    while k < n
        invariant
            n == stripped@.len(),
            ls == lines_of(stripped@),
            body == ls.skip(5),
            5 <= k <= n,
            parse_records(body.take(k - 5), version@, dvr, dtr, atr) == Ok::<
                Seq<DeltaEntryView>,
                ParseFailure,
            >(records_of(records@)),
        decreases n - k,
    {
        assert(body.take(k - 4).drop_last() =~= body.take(k - 5));
        assert(body.take(k - 4).last() == stripped@[k as int]@);
        let rec = match parse_record_line(&records, stripped[k].as_slice(), version, dvr, dtr, atr) {
            Ok(rec) => rec,
            Err(e) => {
                proof {
                    lemma_parse_records_prefix_err(body, k - 4, version@, dvr, dtr, atr);
                }
                return Err(e);
            },
        };
        let ghost before = records@;
        records.push(rec);
        assert(records_of(records@) =~= records_of(before).push(rec@));
        k = k + 1;
    }
    assert(body.take(n - 5) =~= body);
    Ok(InventoryDelta::new(records))
}

proof fn lemma_parse_records_prefix_err(
    ls: Seq<Seq<u8>>,
    m: int,
    version: Seq<u8>,
    dvr: bool,
    dtr: bool,
    atr: bool,
)
    requires
        0 <= m <= ls.len(),
        parse_records(ls.take(m), version, dvr, dtr, atr) is Err,
    ensures
        parse_records(ls, version, dvr, dtr, atr) == parse_records(ls.take(m), version, dvr, dtr, atr),
    decreases ls.len() - m,
{
    if m < ls.len() {
        assert(ls.take(m + 1).drop_last() =~= ls.take(m));
        lemma_parse_records_prefix_err(ls, m + 1, version, dvr, dtr, atr);
    } else {
        assert(ls.take(m) =~= ls);
    }
}

} // verus!
