use vstd::prelude::*;

use crate::ancestry::{lookup, Inventory};
use crate::bytes::{copy_bytes, copy_opt_bytes, opt_bytes};
use crate::entry::{EntryView, InventoryEntry};

verus! {

/// The sha1 of the empty text, which every directory and symlink has.
pub open spec fn empty_sha1() -> Seq<u8> {
    vstd::utf8::encode_utf8("da39a3ee5e6b4b0d3255bfef95601890afd80709"@)
}

/// A text that the checker is to verify: where it is found (revision being
/// checked, file id, revision of the text) and the sha1 it must have.
#[derive(Debug, Clone)]
pub struct PendingText {
    pub rev_id: Vec<u8>,
    pub file_id: Vec<u8>,
    pub revision: Option<Vec<u8>>,
    pub expected_sha1: Option<Vec<u8>>,
}

/// A problem worth reporting that does not stop the check.
#[derive(Clone, Copy, Debug, PartialEq, Eq, Structural)]
pub enum CheckReport {
    MissingTextSize,
    MissingSymlinkTarget,
}

/// What checking one entry found.
#[derive(Debug, Clone)]
pub struct CheckOutcome {
    pub pending: Option<PendingText>,
    pub reports: Vec<CheckReport>,
}

/// The entry's parent is not in the snapshot.
#[derive(Debug, Clone)]
pub struct MissingParent {
    pub parent_id: Vec<u8>,
    pub rev_id: Vec<u8>,
}

/// The sha1 that the checker expects for the entry's text, if it checks one:
/// the file's recorded sha1, the empty text's for a directory (but for an
/// unversioned root) or a symlink, none for a tree reference.
pub open spec fn expected_text(e: EntryView, rich_roots: bool) -> Option<Option<Seq<u8>>> {
    match e {
        EntryView::File { text_sha1, .. } => Some(text_sha1),
        EntryView::Directory { name, .. } => {
            if name.len() == 0 && !rich_roots {
                None
            } else {
                Some(Some(empty_sha1()))
            }
        },
        EntryView::Link { .. } => Some(Some(empty_sha1())),
        EntryView::TreeReference { .. } => None,
    }
}

pub open spec fn reports_for(e: EntryView) -> Seq<CheckReport> {
    match e {
        EntryView::File { text_size: None, .. } => seq![CheckReport::MissingTextSize],
        EntryView::Link { symlink_target: None, .. } => seq![CheckReport::MissingSymlinkTarget],
        _ => Seq::empty(),
    }
}

fn empty_sha1_bytes() -> (r: Vec<u8>)
    ensures
        r@ == empty_sha1(),
{
    copy_bytes("da39a3ee5e6b4b0d3255bfef95601890afd80709".as_bytes())
}

/// Checks one entry of the snapshot `inv` of revision `rev_id`: its parent
/// must be in the snapshot; the outcome names the text to verify and the
/// problems to report.
pub fn check_entry(e: &InventoryEntry, rev_id: &[u8], inv: &Inventory, rich_roots: bool) -> (r: Result<
    CheckOutcome,
    MissingParent,
>)
    ensures
        (e@.parent_id() matches Some(p) && lookup(inv@, p) is None) <==> r is Err,
        r matches Err(m) ==> Some(m.parent_id@) == e@.parent_id() && m.rev_id@ == rev_id@,
        r matches Ok(o) ==> o.reports@ == reports_for(e@) && match expected_text(e@, rich_roots) {
            None => o.pending is None,
            Some(sha) => o.pending matches Some(t) && t.rev_id@ == rev_id@ && t.file_id@ == e@.file_id()
                && opt_bytes(t.revision) == e@.revision() && opt_bytes(t.expected_sha1) == sha,
        },
{
    match e.parent_id() {
        Some(p) => {
            if !inv.has_id(p.as_slice()) {
                return Err(MissingParent { parent_id: copy_bytes(p.as_slice()), rev_id: copy_bytes(rev_id) });
            }
        },
        None => {},
    }
    let sha: Option<Option<Vec<u8>>> = match e {
        InventoryEntry::File { text_sha1, .. } => Some(copy_opt_bytes(text_sha1)),
        InventoryEntry::Directory { name, .. } => {
            if name.as_str().unicode_len() == 0 && !rich_roots {
                None
            } else {
                Some(Some(empty_sha1_bytes()))
            }
        },
        InventoryEntry::Link { .. } => Some(Some(empty_sha1_bytes())),
        InventoryEntry::TreeReference { .. } => None,
    };
    let pending = match sha {
        Some(s) => Some(
            PendingText {
                rev_id: copy_bytes(rev_id),
                file_id: copy_bytes(e.file_id().as_slice()),
                revision: copy_opt_bytes(e.revision()),
                expected_sha1: s,
            },
        ),
        None => None,
    };
    let mut reports: Vec<CheckReport> = Vec::new();
    match e {
        InventoryEntry::File { text_size: None, .. } => reports.push(CheckReport::MissingTextSize),
        InventoryEntry::Link { symlink_target: None, .. } => reports.push(CheckReport::MissingSymlinkTarget),
        _ => {},
    }
    assert(reports@ =~= reports_for(e@));
    Ok(CheckOutcome { pending, reports })
}

/// A directory or a symlink that the checker checks is always expected to
/// have the empty text's sha1.
pub proof fn lemma_fixed_checksums(e: EntryView, rich_roots: bool)
    requires
        e matches EntryView::Link { .. } || (e matches EntryView::Directory { .. } && (e.name().len() > 0
            || rich_roots)),
    ensures
        expected_text(e, rich_roots) == Some(Some(empty_sha1())),
{
}

} // verus!
