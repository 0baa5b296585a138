use vstd::prelude::*;

use crate::bytes::{opt_bytes_eq, opt_str_eq, str_eq};
use crate::entry::{EntryView, InventoryEntry};

verus! {

/// Whether the text and the metadata changed from `old` to `new`.
pub open spec fn changes(old: EntryView, new: EntryView) -> (bool, bool) {
    match (old, new) {
        (
            EntryView::File { text_sha1: s1, executable: x1, .. },
            EntryView::File { text_sha1: s2, executable: x2, .. },
        ) => (s1 != s2, x1 != x2),
        (EntryView::Link { symlink_target: t1, .. }, EntryView::Link { symlink_target: t2, .. }) => (
            t1 != t2,
            false,
        ),
        _ => (false, false),
    }
}

/// The label that describes the change from `old` to `new`.
pub open spec fn change_label(old: Option<EntryView>, new: Option<EntryView>) -> Seq<char> {
    match (old, new) {
        (None, None) => "unchanged"@,
        (None, Some(_)) => "added"@,
        (Some(_), None) => "removed"@,
        (Some(o), Some(n)) => {
            if o.kind() != n.kind() {
                "modified"@
            } else {
                let modified = changes(o, n).0 || changes(o, n).1;
                let renamed = o.parent_id() != n.parent_id() || o.name() != n.name();
                if modified && renamed {
                    "renamed and modified"@
                } else if modified {
                    "modified"@
                } else if renamed {
                    "renamed"@
                } else {
                    "unchanged"@
                }
            }
        },
    }
}

/// Compares two entries of one file id: whether the text changed, and
/// whether the metadata (the executable bit) changed.
pub fn detect_changes(old: &InventoryEntry, new: &InventoryEntry) -> (r: (bool, bool))
    ensures
        r == changes(old@, new@),
{
    match (old, new) {
        (
            InventoryEntry::File { text_sha1: s1, executable: x1, .. },
            InventoryEntry::File { text_sha1: s2, executable: x2, .. },
        ) => (!opt_bytes_eq(s1, s2), *x1 != *x2),
        (InventoryEntry::Link { symlink_target: t1, .. }, InventoryEntry::Link { symlink_target: t2, .. }) => (
            !opt_str_eq(t1, t2),
            false,
        ),
        _ => (false, false),
    }
}

/// Describes the change from `old` to `new`: `added`, `removed`,
/// `modified`, `renamed`, `renamed and modified` or `unchanged`.
pub fn describe_change(old: Option<&InventoryEntry>, new: Option<&InventoryEntry>) -> (r: &'static str)
    ensures
        r@ == change_label(
            match old {
                Some(e) => Some(e@),
                None => None,
            },
            match new {
                Some(e) => Some(e@),
                None => None,
            },
        ),
{
    match (old, new) {
        (None, None) => "unchanged",
        (None, Some(_)) => "added",
        (Some(_), None) => "removed",
        (Some(o), Some(n)) => {
            if o.kind() != n.kind() {
                return "modified";
            }
            let (text, meta) = detect_changes(o, n);
            let modified = text || meta;
            let renamed = !opt_bytes_eq(o.parent_id(), n.parent_id()) || !str_eq(
                o.name().as_str(),
                n.name().as_str(),
            );
            if modified && renamed {
                "renamed and modified"
            } else if modified {
                "modified"
            } else if renamed {
                "renamed"
            } else {
                "unchanged"
            }
        },
    }
}

/// Flipping only the executable bit of a file is a metadata change, which
/// is described as a modification.
pub proof fn lemma_executable_flip(old: EntryView, x: bool)
    requires
        old matches EntryView::File { executable, .. } && executable != x,
    ensures
        changes(old, old.with_executable(x)) == (false, true),
        change_label(Some(old), Some(old.with_executable(x))) == "modified"@,
{
}

/// A new entry where there was none is an addition; a missing new entry is
/// a removal.
pub proof fn lemma_added_removed(e: EntryView)
    ensures
        change_label(None, Some(e)) == "added"@,
        change_label(Some(e), None) == "removed"@,
{
}

} // verus!
