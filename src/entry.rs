use vstd::prelude::*;

use crate::bytes::{copy_bytes, copy_opt_bytes, copy_opt_str, opt_bytes, opt_bytes_eq, opt_chars, opt_str_eq, str_eq};
use crate::names::{is_valid_name, valid_name};

verus! {

/// The kind of a versioned file system node.
#[derive(Clone, Copy, Debug, PartialEq, Eq, Structural)]
pub enum Kind {
    File,
    Directory,
    Symlink,
    TreeReference,
}

impl Kind {
    pub open spec fn name_spec(self) -> Seq<char> {
        match self {
            Kind::File => "file"@,
            Kind::Directory => "directory"@,
            Kind::Symlink => "symlink"@,
            Kind::TreeReference => "tree-reference"@,
        }
    }

    pub open spec fn marker_spec(self) -> Seq<char> {
        match self {
            Kind::File => "f"@,
            Kind::Directory => "d"@,
            Kind::Symlink => "l"@,
            Kind::TreeReference => "t"@,
        }
    }

    /// The kind's name: `file`, `directory`, `symlink` or `tree-reference`.
    pub fn name(&self) -> (r: &'static str)
        ensures
            r@ == self.name_spec(),
    {
        match self {
            Kind::File => "file",
            Kind::Directory => "directory",
            Kind::Symlink => "symlink",
            Kind::TreeReference => "tree-reference",
        }
    }

    /// The kind's one-letter marker: `f`, `d`, `l` or `t`.
    pub fn marker(&self) -> (r: &'static str)
        ensures
            r@ == self.marker_spec(),
    {
        match self {
            Kind::File => "f",
            Kind::Directory => "d",
            Kind::Symlink => "l",
            Kind::TreeReference => "t",
        }
    }
}

/// The kind named by `s`, if any.
pub open spec fn kind_of_name(s: Seq<char>) -> Option<Kind> {
    if s == "file"@ {
        Some(Kind::File)
    } else if s == "directory"@ {
        Some(Kind::Directory)
    } else if s == "tree-reference"@ {
        Some(Kind::TreeReference)
    } else if s == "symlink"@ {
        Some(Kind::Symlink)
    } else {
        None
    }
}

/// Reads a kind from its name.
pub fn kind_from_str(kind: &str) -> (r: Option<Kind>)
    ensures
        r == kind_of_name(kind@),
{
    if str_eq(kind, "file") {
        Some(Kind::File)
    } else if str_eq(kind, "directory") {
        Some(Kind::Directory)
    } else if str_eq(kind, "tree-reference") {
        Some(Kind::TreeReference)
    } else if str_eq(kind, "symlink") {
        Some(Kind::Symlink)
    } else {
        None
    }
}

/// Whether entries of the named kind can be versioned: every known kind can.
pub fn versionable_kind(kind: &str) -> (r: bool)
    ensures
        r == kind_of_name(kind@) is Some,
{
    kind_from_str(kind).is_some()
}

/// One versioned node of a tree: a file, a directory, a symbolic link or a
/// reference to a nested tree. Identifiers and revisions are byte strings.
#[derive(Debug, Clone, PartialEq, Eq)]
pub enum InventoryEntry {
    File {
        file_id: Vec<u8>,
        name: String,
        parent_id: Option<Vec<u8>>,
        revision: Option<Vec<u8>>,
        text_sha1: Option<Vec<u8>>,
        text_size: Option<u64>,
        text_id: Option<Vec<u8>>,
        executable: bool,
    },
    Directory {
        file_id: Vec<u8>,
        name: String,
        parent_id: Option<Vec<u8>>,
        revision: Option<Vec<u8>>,
    },
    TreeReference {
        file_id: Vec<u8>,
        name: String,
        parent_id: Option<Vec<u8>>,
        revision: Option<Vec<u8>>,
        reference_revision: Option<Vec<u8>>,
    },
    Link {
        file_id: Vec<u8>,
        name: String,
        parent_id: Option<Vec<u8>>,
        revision: Option<Vec<u8>>,
        symlink_target: Option<String>,
    },
}

/// The mathematical value of an entry.
pub enum EntryView {
    File {
        file_id: Seq<u8>,
        name: Seq<char>,
        parent_id: Option<Seq<u8>>,
        revision: Option<Seq<u8>>,
        text_sha1: Option<Seq<u8>>,
        text_size: Option<u64>,
        text_id: Option<Seq<u8>>,
        executable: bool,
    },
    Directory {
        file_id: Seq<u8>,
        name: Seq<char>,
        parent_id: Option<Seq<u8>>,
        revision: Option<Seq<u8>>,
    },
    TreeReference {
        file_id: Seq<u8>,
        name: Seq<char>,
        parent_id: Option<Seq<u8>>,
        revision: Option<Seq<u8>>,
        reference_revision: Option<Seq<u8>>,
    },
    Link {
        file_id: Seq<u8>,
        name: Seq<char>,
        parent_id: Option<Seq<u8>>,
        revision: Option<Seq<u8>>,
        symlink_target: Option<Seq<char>>,
    },
}

impl EntryView {
    pub open spec fn kind(self) -> Kind {
        match self {
            EntryView::File { .. } => Kind::File,
            EntryView::Directory { .. } => Kind::Directory,
            EntryView::TreeReference { .. } => Kind::TreeReference,
            EntryView::Link { .. } => Kind::Symlink,
        }
    }

    pub open spec fn file_id(self) -> Seq<u8> {
        match self {
            EntryView::File { file_id, .. } => file_id,
            EntryView::Directory { file_id, .. } => file_id,
            EntryView::TreeReference { file_id, .. } => file_id,
            EntryView::Link { file_id, .. } => file_id,
        }
    }

    pub open spec fn name(self) -> Seq<char> {
        match self {
            EntryView::File { name, .. } => name,
            EntryView::Directory { name, .. } => name,
            EntryView::TreeReference { name, .. } => name,
            EntryView::Link { name, .. } => name,
        }
    }

    pub open spec fn parent_id(self) -> Option<Seq<u8>> {
        match self {
            EntryView::File { parent_id, .. } => parent_id,
            EntryView::Directory { parent_id, .. } => parent_id,
            EntryView::TreeReference { parent_id, .. } => parent_id,
            EntryView::Link { parent_id, .. } => parent_id,
        }
    }

    pub open spec fn revision(self) -> Option<Seq<u8>> {
        match self {
            EntryView::File { revision, .. } => revision,
            EntryView::Directory { revision, .. } => revision,
            EntryView::TreeReference { revision, .. } => revision,
            EntryView::Link { revision, .. } => revision,
        }
    }

    /// The entry with the given common fields and its own kind-specific ones.
    pub open spec fn with_common(
        self,
        file_id: Seq<u8>,
        name: Seq<char>,
        parent_id: Option<Seq<u8>>,
        revision: Option<Seq<u8>>,
    ) -> EntryView {
        match self {
            EntryView::File { text_sha1, text_size, text_id, executable, .. } => EntryView::File {
                file_id,
                name,
                parent_id,
                revision,
                text_sha1,
                text_size,
                text_id,
                executable,
            },
            EntryView::Directory { .. } => EntryView::Directory { file_id, name, parent_id, revision },
            EntryView::TreeReference { reference_revision, .. } => EntryView::TreeReference {
                file_id,
                name,
                parent_id,
                revision,
                reference_revision,
            },
            EntryView::Link { symlink_target, .. } => EntryView::Link {
                file_id,
                name,
                parent_id,
                revision,
                symlink_target,
            },
        }
    }

    /// The entry with its executable bit set to `x`, if it is a file.
    pub open spec fn with_executable(self, x: bool) -> EntryView {
        match self {
            EntryView::File { file_id, name, parent_id, revision, text_sha1, text_size, text_id, .. } =>
                EntryView::File { file_id, name, parent_id, revision, text_sha1, text_size, text_id, executable: x },
            _ => self,
        }
    }
}

impl View for InventoryEntry {
    type V = EntryView;

    open spec fn view(&self) -> EntryView {
        match self {
            InventoryEntry::File {
                file_id,
                name,
                parent_id,
                revision,
                text_sha1,
                text_size,
                text_id,
                executable,
            } => EntryView::File {
                file_id: file_id@,
                name: name@,
                parent_id: opt_bytes(*parent_id),
                revision: opt_bytes(*revision),
                text_sha1: opt_bytes(*text_sha1),
                text_size: *text_size,
                text_id: opt_bytes(*text_id),
                executable: *executable,
            },
            InventoryEntry::Directory { file_id, name, parent_id, revision } => EntryView::Directory {
                file_id: file_id@,
                name: name@,
                parent_id: opt_bytes(*parent_id),
                revision: opt_bytes(*revision),
            },
            InventoryEntry::TreeReference { file_id, name, parent_id, revision, reference_revision } =>
                EntryView::TreeReference {
                file_id: file_id@,
                name: name@,
                parent_id: opt_bytes(*parent_id),
                revision: opt_bytes(*revision),
                reference_revision: opt_bytes(*reference_revision),
            },
            InventoryEntry::Link { file_id, name, parent_id, revision, symlink_target } => EntryView::Link {
                file_id: file_id@,
                name: name@,
                parent_id: opt_bytes(*parent_id),
                revision: opt_bytes(*revision),
                symlink_target: opt_chars(*symlink_target),
            },
        }
    }
}

/// A name that an entry may not carry.
#[derive(Debug, Clone)]
pub struct InvalidEntryName {
    pub name: String,
}

/// Refuses `name` unless it is a valid entry name.
pub fn check_name(name: &str) -> (r: Result<(), InvalidEntryName>)
    ensures
        r is Ok <==> valid_name(name@),
        r is Err ==> r->Err_0.name@ == name@,
{
    if !is_valid_name(name) {
        Err(InvalidEntryName { name: name.to_string() })
    } else {
        Ok(())
    }
}

impl InventoryEntry {
    /// A new, uncommitted file entry.
    pub fn new_file(file_id: Vec<u8>, name: String, parent_id: Option<Vec<u8>>) -> (r: Result<
        InventoryEntry,
        InvalidEntryName,
    >)
        ensures
            r is Ok <==> valid_name(name@),
            r is Ok ==> r->Ok_0@ == (EntryView::File {
                file_id: file_id@,
                name: name@,
                parent_id: opt_bytes(parent_id),
                revision: None,
                text_sha1: None,
                text_size: None,
                text_id: None,
                executable: false,
            }),
            r is Err ==> r->Err_0.name@ == name@,
    {
        check_name(name.as_str())?;
        Ok(InventoryEntry::File {
            file_id,
            name,
            parent_id,
            revision: None,
            text_sha1: None,
            text_size: None,
            text_id: None,
            executable: false,
        })
    }

    /// A new, uncommitted directory entry.
    pub fn new_directory(file_id: Vec<u8>, name: String, parent_id: Option<Vec<u8>>) -> (r: Result<
        InventoryEntry,
        InvalidEntryName,
    >)
        ensures
            r is Ok <==> valid_name(name@),
            r is Ok ==> r->Ok_0@ == (EntryView::Directory {
                file_id: file_id@,
                name: name@,
                parent_id: opt_bytes(parent_id),
                revision: None,
            }),
            r is Err ==> r->Err_0.name@ == name@,
    {
        check_name(name.as_str())?;
        Ok(InventoryEntry::Directory { file_id, name, parent_id, revision: None })
    }

    /// A new reference to a nested tree.
    pub fn new_tree_reference(
        file_id: Vec<u8>,
        name: String,
        parent_id: Option<Vec<u8>>,
        revision: Option<Vec<u8>>,
        reference_revision: Option<Vec<u8>>,
    ) -> (r: Result<InventoryEntry, InvalidEntryName>)
        ensures
            r is Ok <==> valid_name(name@),
            r is Ok ==> r->Ok_0@ == (EntryView::TreeReference {
                file_id: file_id@,
                name: name@,
                parent_id: opt_bytes(parent_id),
                revision: opt_bytes(revision),
                reference_revision: opt_bytes(reference_revision),
            }),
            r is Err ==> r->Err_0.name@ == name@,
    {
        check_name(name.as_str())?;
        Ok(InventoryEntry::TreeReference { file_id, name, parent_id, revision, reference_revision })
    }

    /// A new, uncommitted symbolic link entry without a target.
    pub fn new_link(file_id: Vec<u8>, name: String, parent_id: Option<Vec<u8>>) -> (r: Result<
        InventoryEntry,
        InvalidEntryName,
    >)
        ensures
            r is Ok <==> valid_name(name@),
            r is Ok ==> r->Ok_0@ == (EntryView::Link {
                file_id: file_id@,
                name: name@,
                parent_id: opt_bytes(parent_id),
                revision: None,
                symlink_target: None,
            }),
            r is Err ==> r->Err_0.name@ == name@,
    {
        check_name(name.as_str())?;
        Ok(InventoryEntry::Link { file_id, name, parent_id, revision: None, symlink_target: None })
    }

    /// A new entry of the given kind, as its kind's constructor makes it.
    pub fn new(kind: Kind, name: String, file_id: Vec<u8>, parent_id: Option<Vec<u8>>) -> (r: Result<
        InventoryEntry,
        InvalidEntryName,
    >)
        ensures
            r is Ok <==> valid_name(name@),
            r is Ok ==> r->Ok_0@.kind() == kind && r->Ok_0@.name() == name@ && r->Ok_0@.file_id()
                == file_id@ && r->Ok_0@.parent_id() == opt_bytes(parent_id) && r->Ok_0@.revision()
                is None,
            r is Ok && kind == Kind::File ==> r->Ok_0@ == (EntryView::File {
                file_id: file_id@,
                name: name@,
                parent_id: opt_bytes(parent_id),
                revision: None,
                text_sha1: None,
                text_size: None,
                text_id: None,
                executable: false,
            }),
            r is Ok && kind == Kind::Symlink ==> r->Ok_0@ == (EntryView::Link {
                file_id: file_id@,
                name: name@,
                parent_id: opt_bytes(parent_id),
                revision: None,
                symlink_target: None,
            }),
            r is Ok && kind == Kind::TreeReference ==> r->Ok_0@ == (EntryView::TreeReference {
                file_id: file_id@,
                name: name@,
                parent_id: opt_bytes(parent_id),
                revision: None,
                reference_revision: None,
            }),
            r is Err ==> r->Err_0.name@ == name@,
    {
        match kind {
            Kind::File => InventoryEntry::new_file(file_id, name, parent_id),
            Kind::Directory => InventoryEntry::new_directory(file_id, name, parent_id),
            Kind::Symlink => InventoryEntry::new_link(file_id, name, parent_id),
            Kind::TreeReference => InventoryEntry::new_tree_reference(file_id, name, parent_id, None, None),
        }
    }

    pub fn kind(&self) -> (r: Kind)
        ensures
            r == self@.kind(),
    {
        match self {
            InventoryEntry::File { .. } => Kind::File,
            InventoryEntry::Directory { .. } => Kind::Directory,
            InventoryEntry::TreeReference { .. } => Kind::TreeReference,
            InventoryEntry::Link { .. } => Kind::Symlink,
        }
    }

    /// Whether the entry has text content, that is, whether it is a file.
    pub fn has_text(&self) -> (r: bool)
        ensures
            r == (self@.kind() == Kind::File),
    {
        matches!(self, InventoryEntry::File { .. })
    }

    /// The one-letter marker of the entry's kind.
    pub fn kind_character(&self) -> (r: &'static str)
        ensures
            r@ == self@.kind().marker_spec(),
    {
        self.kind().marker()
    }

    pub fn file_id(&self) -> (r: &Vec<u8>)
        ensures
            r@ == self@.file_id(),
    {
        match self {
            InventoryEntry::File { file_id, .. } => file_id,
            InventoryEntry::Directory { file_id, .. } => file_id,
            InventoryEntry::TreeReference { file_id, .. } => file_id,
            InventoryEntry::Link { file_id, .. } => file_id,
        }
    }

    pub fn name(&self) -> (r: &String)
        ensures
            r@ == self@.name(),
    {
        match self {
            InventoryEntry::File { name, .. } => name,
            InventoryEntry::Directory { name, .. } => name,
            InventoryEntry::TreeReference { name, .. } => name,
            InventoryEntry::Link { name, .. } => name,
        }
    }

    pub fn parent_id(&self) -> (r: &Option<Vec<u8>>)
        ensures
            opt_bytes(*r) == self@.parent_id(),
    {
        match self {
            InventoryEntry::File { parent_id, .. } => parent_id,
            InventoryEntry::Directory { parent_id, .. } => parent_id,
            InventoryEntry::TreeReference { parent_id, .. } => parent_id,
            InventoryEntry::Link { parent_id, .. } => parent_id,
        }
    }

    pub fn revision(&self) -> (r: &Option<Vec<u8>>)
        ensures
            opt_bytes(*r) == self@.revision(),
    {
        match self {
            InventoryEntry::File { revision, .. } => revision,
            InventoryEntry::Directory { revision, .. } => revision,
            InventoryEntry::TreeReference { revision, .. } => revision,
            InventoryEntry::Link { revision, .. } => revision,
        }
    }

    /// The executable bit: that of a file, false for every other kind.
    pub fn executable(&self) -> (r: bool)
        ensures
            r == match self@ {
                EntryView::File { executable, .. } => executable,
                _ => false,
            },
    {
        match self {
            InventoryEntry::File { executable, .. } => *executable,
            _ => false,
        }
    }

    /// Sets the executable bit of a file entry.
    pub fn set_executable(&mut self, x: bool)
        requires
            old(self)@.kind() == Kind::File,
        ensures
            final(self)@ == old(self)@.with_executable(x),
    {
        match self {
            InventoryEntry::File { executable, .. } => {
                *executable = x;
            },
            _ => {},
        }
    }

    /// Sets the revision that last changed the entry.
    pub fn set_revision(&mut self, rev: Option<Vec<u8>>)
        ensures
            final(self)@ == old(self)@.with_common(
                old(self)@.file_id(),
                old(self)@.name(),
                old(self)@.parent_id(),
                opt_bytes(rev),
            ),
    {
        match self {
            InventoryEntry::File { revision, .. } => {
                *revision = rev;
            },
            InventoryEntry::Directory { revision, .. } => {
                *revision = rev;
            },
            InventoryEntry::TreeReference { revision, .. } => {
                *revision = rev;
            },
            InventoryEntry::Link { revision, .. } => {
                *revision = rev;
            },
        }
    }

    /// Sets the name, without validating it.
    pub fn set_name(&mut self, new_name: String)
        ensures
            final(self)@ == old(self)@.with_common(
                old(self)@.file_id(),
                new_name@,
                old(self)@.parent_id(),
                old(self)@.revision(),
            ),
    {
        match self {
            InventoryEntry::File { name, .. } => {
                *name = new_name;
            },
            InventoryEntry::Directory { name, .. } => {
                *name = new_name;
            },
            InventoryEntry::TreeReference { name, .. } => {
                *name = new_name;
            },
            InventoryEntry::Link { name, .. } => {
                *name = new_name;
            },
        }
    }

    /// Sets the file id.
    pub fn set_file_id(&mut self, id: Vec<u8>)
        ensures
            final(self)@ == old(self)@.with_common(id@, old(self)@.name(), old(self)@.parent_id(), old(self)@.revision()),
    {
        match self {
            InventoryEntry::File { file_id, .. } => {
                *file_id = id;
            },
            InventoryEntry::Directory { file_id, .. } => {
                *file_id = id;
            },
            InventoryEntry::TreeReference { file_id, .. } => {
                *file_id = id;
            },
            InventoryEntry::Link { file_id, .. } => {
                *file_id = id;
            },
        }
    }

    /// Sets the parent id.
    pub fn set_parent_id(&mut self, parent: Option<Vec<u8>>)
        ensures
            final(self)@ == old(self)@.with_common(
                old(self)@.file_id(),
                old(self)@.name(),
                opt_bytes(parent),
                old(self)@.revision(),
            ),
    {
        match self {
            InventoryEntry::File { parent_id, .. } => {
                *parent_id = parent;
            },
            InventoryEntry::Directory { parent_id, .. } => {
                *parent_id = parent;
            },
            InventoryEntry::TreeReference { parent_id, .. } => {
                *parent_id = parent;
            },
            InventoryEntry::Link { parent_id, .. } => {
                *parent_id = parent;
            },
        }
    }

    /// Sets the text sha1, size and text id of a file entry.
    pub fn set_text(&mut self, sha1: Option<Vec<u8>>, size: Option<u64>, id: Option<Vec<u8>>)
        requires
            old(self)@.kind() == Kind::File,
        ensures
            final(self)@ == (EntryView::File {
                file_id: old(self)@.file_id(),
                name: old(self)@.name(),
                parent_id: old(self)@.parent_id(),
                revision: old(self)@.revision(),
                text_sha1: opt_bytes(sha1),
                text_size: size,
                text_id: opt_bytes(id),
                executable: match old(self)@ {
                    EntryView::File { executable, .. } => executable,
                    _ => false,
                },
            }),
    {
        match self {
            InventoryEntry::File { text_sha1, text_size, text_id, .. } => {
                *text_sha1 = sha1;
                *text_size = size;
                *text_id = id;
            },
            _ => {},
        }
    }

    /// The text sha1 of a file entry.
    pub fn text_sha1(&self) -> (r: Option<Vec<u8>>)
        requires
            self@.kind() == Kind::File,
        ensures
            self@ matches EntryView::File { text_sha1, .. } && opt_bytes(r) == text_sha1,
    {
        match self {
            InventoryEntry::File { text_sha1, .. } => copy_opt_bytes(text_sha1),
            _ => None,
        }
    }

    /// The text size of a file entry.
    pub fn text_size(&self) -> (r: Option<u64>)
        requires
            self@.kind() == Kind::File,
        ensures
            self@ matches EntryView::File { text_size, .. } && r == text_size,
    {
        match self {
            InventoryEntry::File { text_size, .. } => *text_size,
            _ => None,
        }
    }

    /// The text id of a file entry.
    pub fn text_id(&self) -> (r: Option<Vec<u8>>)
        requires
            self@.kind() == Kind::File,
        ensures
            self@ matches EntryView::File { text_id, .. } && opt_bytes(r) == text_id,
    {
        match self {
            InventoryEntry::File { text_id, .. } => copy_opt_bytes(text_id),
            _ => None,
        }
    }

    /// The revision that a tree reference pins.
    pub fn reference_revision(&self) -> (r: Option<Vec<u8>>)
        requires
            self@.kind() == Kind::TreeReference,
        ensures
            self@ matches EntryView::TreeReference { reference_revision, .. } && opt_bytes(r) == reference_revision,
    {
        match self {
            InventoryEntry::TreeReference { reference_revision, .. } => copy_opt_bytes(reference_revision),
            _ => None,
        }
    }

    /// The target of a symlink entry.
    pub fn symlink_target(&self) -> (r: Option<String>)
        requires
            self@.kind() == Kind::Symlink,
        ensures
            self@ matches EntryView::Link { symlink_target, .. } && opt_chars(r) == symlink_target,
    {
        match self {
            InventoryEntry::Link { symlink_target, .. } => copy_opt_str(symlink_target),
            _ => None,
        }
    }

    /// Sets the target of a symlink entry.
    pub fn set_symlink_target(&mut self, target: Option<String>)
        requires
            old(self)@.kind() == Kind::Symlink,
        ensures
            final(self)@ == (EntryView::Link {
                file_id: old(self)@.file_id(),
                name: old(self)@.name(),
                parent_id: old(self)@.parent_id(),
                revision: old(self)@.revision(),
                symlink_target: opt_chars(target),
            }),
    {
        match self {
            InventoryEntry::Link { symlink_target, .. } => {
                *symlink_target = target;
            },
            _ => {},
        }
    }

    /// Sets the revision that a tree reference pins.
    pub fn set_reference_revision(&mut self, rev: Option<Vec<u8>>)
        requires
            old(self)@.kind() == Kind::TreeReference,
        ensures
            final(self)@ == (EntryView::TreeReference {
                file_id: old(self)@.file_id(),
                name: old(self)@.name(),
                parent_id: old(self)@.parent_id(),
                revision: old(self)@.revision(),
                reference_revision: opt_bytes(rev),
            }),
    {
        match self {
            InventoryEntry::TreeReference { reference_revision, .. } => {
                *reference_revision = rev;
            },
            _ => {},
        }
    }

    /// A copy of the entry.
    pub fn copy(&self) -> (r: InventoryEntry)
        ensures
            r@ == self@,
    {
        match self {
            InventoryEntry::File {
                file_id,
                name,
                parent_id,
                revision,
                text_sha1,
                text_size,
                text_id,
                executable,
            } => InventoryEntry::File {
                file_id: copy_bytes(file_id.as_slice()),
                name: name.clone(),
                parent_id: copy_opt_bytes(parent_id),
                revision: copy_opt_bytes(revision),
                text_sha1: copy_opt_bytes(text_sha1),
                text_size: *text_size,
                text_id: copy_opt_bytes(text_id),
                executable: *executable,
            },
            InventoryEntry::Directory { file_id, name, parent_id, revision } => InventoryEntry::Directory {
                file_id: copy_bytes(file_id.as_slice()),
                name: name.clone(),
                parent_id: copy_opt_bytes(parent_id),
                revision: copy_opt_bytes(revision),
            },
            InventoryEntry::TreeReference { file_id, name, parent_id, revision, reference_revision } =>
                InventoryEntry::TreeReference {
                file_id: copy_bytes(file_id.as_slice()),
                name: name.clone(),
                parent_id: copy_opt_bytes(parent_id),
                revision: copy_opt_bytes(revision),
                reference_revision: copy_opt_bytes(reference_revision),
            },
            InventoryEntry::Link { file_id, name, parent_id, revision, symlink_target } => InventoryEntry::Link {
                file_id: copy_bytes(file_id.as_slice()),
                name: name.clone(),
                parent_id: copy_opt_bytes(parent_id),
                revision: copy_opt_bytes(revision),
                symlink_target: copy_opt_str(symlink_target),
            },
        }
    }

    /// Whether both entries carry the same committed revision.
    pub fn is_unmodified(&self, other: &InventoryEntry) -> (r: bool)
        ensures
            r == (self@.revision() is Some && self@.revision() == other@.revision()),
    {
        match (self.revision(), other.revision()) {
            (Some(a), Some(b)) => crate::bytes::bytes_eq(a.as_slice(), b.as_slice()),
            _ => false,
        }
    }

    /// Whether `self` is unchanged from `previous`, revisions aside: same
    /// kind, name and parent, and the same content fields of that kind.
    pub fn unchanged(&self, previous: &InventoryEntry) -> (r: bool)
        ensures
            r == entries_unchanged(self@, previous@),
    {
        if !opt_bytes_eq(self.parent_id(), previous.parent_id()) {
            return false;
        }
        if !str_eq(self.name().as_str(), previous.name().as_str()) {
            return false;
        }
        match (self, previous) {
            (
                InventoryEntry::File { text_sha1: s1, text_size: z1, executable: x1, .. },
                InventoryEntry::File { text_sha1: s2, text_size: z2, executable: x2, .. },
            ) => opt_bytes_eq(s1, s2) && *z1 == *z2 && *x1 == *x2,
            (InventoryEntry::Directory { .. }, InventoryEntry::Directory { .. }) => true,
            (InventoryEntry::Link { symlink_target: t1, .. }, InventoryEntry::Link { symlink_target: t2, .. }) =>
                opt_str_eq(t1, t2),
            (
                InventoryEntry::TreeReference { reference_revision: r1, .. },
                InventoryEntry::TreeReference { reference_revision: r2, .. },
            ) => opt_bytes_eq(r1, r2),
            _ => false,
        }
    }
}

/// Whether `new` is unchanged from `old`, revisions aside.
pub open spec fn entries_unchanged(new: EntryView, old: EntryView) -> bool {
    &&& new.parent_id() == old.parent_id()
    &&& new.name() == old.name()
    &&& match (new, old) {
        (
            EntryView::File { text_sha1: s1, text_size: z1, executable: x1, .. },
            EntryView::File { text_sha1: s2, text_size: z2, executable: x2, .. },
        ) => s1 == s2 && z1 == z2 && x1 == x2,
        (EntryView::Directory { .. }, EntryView::Directory { .. }) => true,
        (EntryView::Link { symlink_target: t1, .. }, EntryView::Link { symlink_target: t2, .. }) => t1 == t2,
        (
            EntryView::TreeReference { reference_revision: r1, .. },
            EntryView::TreeReference { reference_revision: r2, .. },
        ) => r1 == r2,
        _ => false,
    }
}

} // verus!
