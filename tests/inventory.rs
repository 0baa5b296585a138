use bzr_inventory::ancestry::{parent_candidates, Inventory};
use bzr_inventory::bedding::{
    authentication_config_path, bazaar_config_dir, cache_dir, config_dir, config_dir_and_kind, config_path,
    crash_dir, locations_config_path, user_ignore_config_path, ConfigDirKind,
};
use bzr_inventory::check::{check_entry, CheckReport};
use bzr_inventory::classify::{describe_change, detect_changes};
use bzr_inventory::codec::{
    parse_inventory_delta, parse_inventory_entry, serialize_inventory_delta, serialize_inventory_entry,
    InventoryDeltaParseError, InventoryDeltaSerializeError,
};
use bzr_inventory::delta::{InconsistencyKind, InventoryDelta, InventoryDeltaEntry};
use bzr_inventory::entry::{kind_from_str, versionable_kind, InventoryEntry, Kind};
use bzr_inventory::ids::{gen_file_id, make_entry};
use bzr_inventory::graph::{DictParentsProvider, ParentsProvider, StackedParentsProvider};
use bzr_inventory::names::{ensure_normalized_name, is_valid_name, normalized_filename};
use bzr_inventory::path::{
    abspath, backup_name, is_inside, normpath, parent_directories, relpath, is_inside_any, is_inside_or_parent_of_any, legal_path, minimum_path_selection, quotefn,
};
use bzr_inventory::wire::{basename_of, format_decimal, parse_decimal};
use bzr_inventory::{gettext, nggettext};

fn b(s: &str) -> Vec<u8> {
    s.as_bytes().to_vec()
}

fn file(fid: &str, name: &str, parent: Option<&str>, rev: &str, sha: &str, size: u64, x: bool) -> InventoryEntry {
    InventoryEntry::File {
        file_id: b(fid),
        name: name.to_string(),
        parent_id: parent.map(b),
        revision: Some(b(rev)),
        text_sha1: Some(b(sha)),
        text_size: Some(size),
        text_id: None,
        executable: x,
    }
}

fn dir(fid: &str, name: &str, parent: Option<&str>, rev: &str) -> InventoryEntry {
    InventoryEntry::Directory { file_id: b(fid), name: name.to_string(), parent_id: parent.map(b), revision: Some(b(rev)) }
}

fn add(path: &str, e: InventoryEntry) -> InventoryDeltaEntry {
    InventoryDeltaEntry { old_path: None, new_path: Some(path.to_string()), file_id: e.file_id().clone(), new_entry: Some(e) }
}

fn lines(ls: &[&[u8]]) -> Vec<Vec<u8>> {
    ls.iter().map(|l| l.to_vec()).collect()
}

#[test]
fn test_abspath() {
    assert_eq!(bzr_inventory::win32::abspath("C:\\foo\\bar", "/home/user"), "C:/foo/bar");
}

#[test]
fn win32_abspath_relative_and_lower_drive() {
    assert_eq!(bzr_inventory::win32::abspath("c:/x\\y", "/cwd"), "C:/x/y");
    assert_eq!(bzr_inventory::win32::abspath("a/../b", "/cwd"), "/cwd/b");
    assert_eq!(bzr_inventory::win32::fixdrive("d:/x"), "D:/x");
    assert_eq!(bzr_inventory::win32::fix_separators("a\\b\\c"), "a/b/c");
}

#[test]
fn name_validation() {
    assert!(!is_valid_name("."));
    assert!(!is_valid_name(".."));
    assert!(!is_valid_name(""));
    assert!(!is_valid_name("a/b"));
    assert!(is_valid_name("caf\u{e9}"));
    assert!(!is_valid_name("cafe\u{301}"));
    assert!(is_valid_name("..."));
    assert!(is_valid_name(".bzrignore"));
}

#[test]
fn normalization() {
    assert_eq!(ensure_normalized_name("caf\u{e9}/x").unwrap(), "caf\u{e9}/x");
    let e = ensure_normalized_name("cafe\u{301}").unwrap_err();
    assert_eq!(e.path, "cafe\u{301}");
    assert_eq!(normalized_filename("cafe\u{301}"), ("caf\u{e9}".to_string(), false));
    assert_eq!(normalized_filename("abc"), ("abc".to_string(), true));
    assert_eq!(bzr_inventory::names::accessible_normalized_filename("cafe\u{301}"), ("caf\u{e9}".to_string(), true));
}

#[test]
fn constructors_validate_names() {
    assert!(InventoryEntry::new_file(b("f"), "a/b".to_string(), None).is_err());
    let e = InventoryEntry::new(Kind::Symlink, "l".to_string(), b("id"), Some(b("root"))).unwrap();
    assert_eq!(e.kind(), Kind::Symlink);
    assert_eq!(e.kind_character(), "l");
    assert_eq!(e.kind().name(), "symlink");
    assert_eq!(e.revision(), &None);
    let err = InventoryEntry::new_directory(b("d"), "..".to_string(), None).unwrap_err();
    assert_eq!(err.name, "..");
    assert_eq!(kind_from_str("tree-reference"), Some(Kind::TreeReference));
    assert_eq!(kind_from_str("socket"), None);
    assert!(versionable_kind("directory"));
    assert!(!versionable_kind("fifo"));
}

#[test]
fn is_unmodified_needs_a_revision() {
    let mut a = InventoryEntry::new_file(b("f"), "a".to_string(), None).unwrap();
    let bb = a.copy();
    assert!(!a.is_unmodified(&bb));
    a.set_revision(Some(b("r1")));
    let mut c = bb.copy();
    c.set_revision(Some(b("r1")));
    assert!(a.is_unmodified(&c));
}

#[test]
fn classifier() {
    let old = file("f", "a", Some("root"), "r1", "sha", 3, false);
    let mut new = old.copy();
    assert_eq!(describe_change(None, Some(&old)), "added");
    assert_eq!(describe_change(Some(&old), None), "removed");
    assert_eq!(describe_change(None, None), "unchanged");
    new.set_executable(true);
    assert_eq!(detect_changes(&old, &new), (false, true));
    assert_eq!(describe_change(Some(&old), Some(&new)), "modified");
    let renamed = file("f", "b", Some("root"), "r2", "sha", 3, false);
    assert_eq!(describe_change(Some(&old), Some(&renamed)), "renamed");
    let both = file("f", "b", Some("root"), "r2", "other", 3, false);
    assert_eq!(detect_changes(&old, &both), (true, false));
    assert_eq!(describe_change(Some(&old), Some(&both)), "renamed and modified");
    let d = dir("f", "a", Some("root"), "r1");
    assert_eq!(describe_change(Some(&old), Some(&d)), "modified");
    assert_eq!(detect_changes(&d, &d), (false, false));
    assert!(old.unchanged(&old.copy()));
    assert!(!new.unchanged(&old));
}

#[test]
fn delta_check_duplicate_new_path() {
    let d = InventoryDelta::new(vec![
        add("foo", file("a", "foo", Some("root"), "r", "s", 1, false)),
        add("foo", file("b", "foo", Some("root"), "r", "s", 1, false)),
    ]);
    let e = d.check().unwrap_err();
    assert_eq!(e.kind, InconsistencyKind::DuplicateNewPath);
    assert_eq!(e.kind.message(), "duplicate new path");
    assert_eq!(e.index, 1);
    assert_eq!(e.path, Some("foo".to_string()));
    assert_eq!(e.file_id, b("b"));
}

#[test]
fn delta_check_entry_without_path() {
    let f = file("a", "foo", Some("root"), "r", "s", 1, false);
    let d = InventoryDelta::new(vec![InventoryDeltaEntry {
        old_path: Some("foo".to_string()),
        new_path: None,
        file_id: b("a"),
        new_entry: Some(f),
    }]);
    let e = d.check().unwrap_err();
    assert_eq!(e.kind, InconsistencyKind::EntryWithoutPath);
    assert_eq!(e.kind.message(), "entry without path");
}

#[test]
fn delta_check_other_kinds() {
    let d = InventoryDelta::new(vec![InventoryDeltaEntry {
        old_path: None,
        new_path: Some("x".to_string()),
        file_id: b("a"),
        new_entry: None,
    }]);
    assert_eq!(d.check().unwrap_err().kind, InconsistencyKind::PathWithoutEntry);
    let d = InventoryDelta::new(vec![add("x", file("a", "x", None, "r", "s", 1, false))]);
    assert!(d.check().is_ok());
    let mut wrong = add("x", file("a", "x", None, "r", "s", 1, false));
    wrong.file_id = b("z");
    assert_eq!(InventoryDelta::new(vec![wrong]).check().unwrap_err().kind, InconsistencyKind::MismatchedId);
    let d = InventoryDelta::new(vec![
        add("x", file("a", "x", None, "r", "s", 1, false)),
        add("y", file("a", "y", None, "r", "s", 1, false)),
    ]);
    assert_eq!(d.check().unwrap_err().kind, InconsistencyKind::DuplicateFileId);
    let del = |p: &str, id: &str| InventoryDeltaEntry { old_path: Some(p.to_string()), new_path: None, file_id: b(id), new_entry: None };
    let d = InventoryDelta::new(vec![del("x", "a"), del("x", "b")]);
    assert_eq!(d.check().unwrap_err().kind, InconsistencyKind::DuplicateOldPath);
    assert!(InventoryDelta::new(vec![]).check().is_ok());
}

#[test]
fn delta_sort_orders_new_then_old_path() {
    let mut d = InventoryDelta::new(vec![
        add("b", file("b-id", "b", None, "r", "s", 1, false)),
        InventoryDeltaEntry { old_path: Some("z".to_string()), new_path: None, file_id: b("z-id"), new_entry: None },
        add("a", file("a-id", "a", None, "r", "s", 1, false)),
    ]);
    d.sort();
    let order: Vec<Vec<u8>> = d.entries.iter().map(|e| e.file_id.clone()).collect();
    assert_eq!(order, vec![b("a-id"), b("b-id"), b("z-id")]);
    let mut e = InventoryDelta::new(vec![
        InventoryDeltaEntry { old_path: Some("a".to_string()), new_path: Some("z".to_string()), file_id: b("1"), new_entry: Some(file("1", "z", None, "r", "s", 1, false)) },
        InventoryDeltaEntry { old_path: Some("b".to_string()), new_path: Some("y".to_string()), file_id: b("2"), new_entry: Some(file("2", "y", None, "r", "s", 1, false)) },
    ]);
    e.sort();
    assert_eq!(e.entries[0].new_path, Some("y".to_string()));
    let again = e.clone();
    e.sort();
    assert_eq!(e, again);
    assert_eq!(d.len(), 3);
    assert!(!d.is_empty());
}

#[test]
fn checksum_fixed_points() {
    let mut inv = Inventory::new();
    inv.add(dir("root", "", None, "r0"));
    let d = dir("d", "sub", Some("root"), "r1");
    let o = check_entry(&d, b"rev", &inv, false).unwrap();
    let p = o.pending.unwrap();
    assert_eq!(p.expected_sha1, Some(b("da39a3ee5e6b4b0d3255bfef95601890afd80709")));
    assert_eq!(p.file_id, b("d"));
    let l = InventoryEntry::Link {
        file_id: b("l"),
        name: "l".to_string(),
        parent_id: Some(b("root")),
        revision: Some(b("r1")),
        symlink_target: None,
    };
    let o = check_entry(&l, b"rev", &inv, true).unwrap();
    assert_eq!(o.pending.unwrap().expected_sha1, Some(b("da39a3ee5e6b4b0d3255bfef95601890afd80709")));
    assert_eq!(o.reports, vec![CheckReport::MissingSymlinkTarget]);
    let root = dir("root", "", None, "r0");
    assert!(check_entry(&root, b"rev", &inv, false).unwrap().pending.is_none());
    let orphan = dir("o", "o", Some("gone"), "r1");
    let err = check_entry(&orphan, b"rev", &inv, true).unwrap_err();
    assert_eq!(err.parent_id, b("gone"));
    let f = file("f", "f", Some("root"), "r1", "abc", 3, false);
    assert_eq!(check_entry(&f, b"rev", &inv, true).unwrap().pending.unwrap().expected_sha1, Some(b("abc")));
}

#[test]
fn ancestry_normalizes_executable_bits() {
    let mut s1 = Inventory::new();
    s1.add(file("F", "f", Some("root"), "R", "sha", 1, true));
    let mut s2 = Inventory::new();
    s2.add(dir("root", "", None, "R0"));
    s2.add(file("F", "f", Some("root"), "R", "sha", 1, false));
    let mut snaps = vec![s1, s2, Inventory::new()];
    let cands = parent_candidates(b"F", &mut snaps);
    assert_eq!(cands.len(), 1);
    assert_eq!(cands[0].0, b("R"));
    assert!(!cands[0].1.executable());
    assert!(!snaps[0].get_entry(b"F").unwrap().executable());
    assert!(!snaps[1].get_entry(b"F").unwrap().executable());
    assert!(snaps[2].get_entry(b"F").is_err());
    assert!(snaps[1].has_id(b"root"));
}

#[test]
fn ancestry_keeps_one_candidate_per_revision() {
    let mut s1 = Inventory::new();
    s1.add(file("F", "f", None, "R1", "a", 1, true));
    let mut s2 = Inventory::new();
    s2.add(file("F", "f", None, "R2", "b", 1, false));
    let mut s3 = Inventory::new();
    s3.add(file("F", "f", None, "R1", "a", 1, true));
    let mut snaps = vec![s1, s2, s3];
    let cands = parent_candidates(b"F", &mut snaps);
    let revs: Vec<Vec<u8>> = cands.iter().map(|c| c.0.clone()).collect();
    assert_eq!(revs, vec![b("R1"), b("R2")]);
    assert!(cands[0].1.executable());
}

#[test]
fn entry_serialization() {
    let f = file("f", "f", None, "r", "abc", 120, true);
    assert_eq!(serialize_inventory_entry(&f).unwrap(), b"file\x00120\x00Y\x00abc".to_vec());
    let d = dir("d", "d", None, "r");
    assert_eq!(serialize_inventory_entry(&d).unwrap(), b"dir".to_vec());
    let mut missing = InventoryEntry::new_file(b("f"), "f".to_string(), None).unwrap();
    assert!(matches!(serialize_inventory_entry(&missing), Err(InventoryDeltaSerializeError::Invalid(_))));
    missing.set_revision(Some(b("r")));
    let t = InventoryEntry::TreeReference {
        file_id: b("t"),
        name: "t".to_string(),
        parent_id: None,
        revision: Some(b("r")),
        reference_revision: Some(b("sub-rev")),
    };
    assert_eq!(serialize_inventory_entry(&t).unwrap(), b"tree\x00sub-rev".to_vec());
    let parsed = parse_inventory_entry(b("f"), "f".to_string(), None, Some(b("r")), b"file\x00120\x00Y\x00abc").unwrap();
    assert_eq!(parsed, f);
    let parsed = parse_inventory_entry(b("f"), "f".to_string(), None, Some(b("r")), b"file\x00120\x00\x00abc").unwrap();
    assert!(!parsed.executable());
    assert!(parse_inventory_entry(b("f"), "f".to_string(), None, None, b"file\x00x\x00\x00abc").is_err());
    assert!(parse_inventory_entry(b("f"), "f".to_string(), None, None, b"sock").is_err());
    let l = parse_inventory_entry(b("l"), "l".to_string(), None, None, b"link\x00target").unwrap();
    assert_eq!(serialize_inventory_entry(&l).unwrap(), b"link\x00target".to_vec());
}

#[test]
fn delta_serialization_exact_lines() {
    let d = InventoryDelta::new(vec![
        add("", dir("TREE_ROOT", "", None, "entry-version")),
        add("a", file("a-id", "a", Some("TREE_ROOT"), "entry-version", "sha", 10, false)),
    ]);
    let out = serialize_inventory_delta(b"null:", b"entry-version", &d, true, true).unwrap();
    let expected = lines(&[
        b"format: bzr inventory delta v1 (bzr 1.14)\n",
        b"parent: null:\n",
        b"version: entry-version\n",
        b"versioned_root: true\n",
        b"tree_references: true\n",
        b"None\x00/\x00TREE_ROOT\x00\x00entry-version\x00dir\n",
        b"None\x00/a\x00a-id\x00TREE_ROOT\x00entry-version\x00file\x0010\x00\x00sha\n",
    ]);
    assert_eq!(out, expected);
}

#[test]
fn delta_round_trip() {
    let mut d = InventoryDelta::new(vec![
        add("dir/f", file("f-id", "f", Some("dir-id"), "rev", "sha", 5, true)),
        add("dir", dir("dir-id", "dir", Some("root"), "rev")),
        InventoryDeltaEntry { old_path: Some("gone".to_string()), new_path: None, file_id: b("gone-id"), new_entry: None },
        InventoryDeltaEntry {
            old_path: Some("old".to_string()),
            new_path: Some("lnk".to_string()),
            file_id: b("l-id"),
            new_entry: Some(InventoryEntry::Link {
                file_id: b("l-id"),
                name: "lnk".to_string(),
                parent_id: Some(b("root")),
                revision: Some(b("rev")),
                symlink_target: Some("caf\u{e9}".to_string()),
            }),
        },
    ]);
    let out = serialize_inventory_delta(b"parent-rev", b"rev", &d, false, false).unwrap();
    let (p, v, vr, tr, parsed) = parse_inventory_delta(&out, None, None).unwrap();
    assert_eq!(p, b("parent-rev"));
    assert_eq!(v, b("rev"));
    assert!(!vr);
    assert!(!tr);
    d.sort();
    assert_eq!(parsed, d);
}

#[test]
fn serialize_refuses_bad_deltas() {
    let t = InventoryEntry::TreeReference {
        file_id: b("t"),
        name: "t".to_string(),
        parent_id: None,
        revision: Some(b("r")),
        reference_revision: Some(b("x")),
    };
    let d = InventoryDelta::new(vec![add("t", t)]);
    assert!(matches!(
        serialize_inventory_delta(b"p", b"r", &d, true, false),
        Err(InventoryDeltaSerializeError::UnsupportedKind(_))
    ));
    let d = InventoryDelta::new(vec![add("", dir("root", "", None, "old"))]);
    assert!(matches!(serialize_inventory_delta(b"p", b"r", &d, false, false), Err(InventoryDeltaSerializeError::Invalid(_))));
}

#[test]
fn parse_incompatible_tree_reference() {
    let ls = lines(&[
        b"format: bzr inventory delta v1 (bzr 1.14)\n",
        b"parent: p\n",
        b"version: r\n",
        b"versioned_root: true\n",
        b"tree_references: true\n",
        b"None\x00/t\x00t-id\x00\x00r\x00tree\x00sub\n",
    ]);
    assert!(matches!(parse_inventory_delta(&ls, None, Some(false)), Err(InventoryDeltaParseError::Incompatible(_))));
    assert!(parse_inventory_delta(&ls, None, None).is_ok());
    assert!(matches!(parse_inventory_delta(&ls, Some(false), None), Err(InventoryDeltaParseError::Incompatible(_))));
}

#[test]
fn parse_invalid_inputs() {
    assert!(matches!(parse_inventory_delta(&vec![], None, None), Err(InventoryDeltaParseError::Invalid(_))));
    let no_newline = lines(&[b"format: bzr inventory delta v1 (bzr 1.14)"]);
    assert!(matches!(parse_inventory_delta(&no_newline, None, None), Err(InventoryDeltaParseError::Invalid(_))));
    let bad_format = lines(&[b"format: something else\n"]);
    assert!(matches!(parse_inventory_delta(&bad_format, None, None), Err(InventoryDeltaParseError::Invalid(_))));
    let header_says_no_trees = lines(&[
        b"format: bzr inventory delta v1 (bzr 1.14)\n",
        b"parent: p\n",
        b"version: r\n",
        b"versioned_root: true\n",
        b"tree_references: false\n",
        b"None\x00/t\x00t-id\x00\x00r\x00tree\x00sub\n",
    ]);
    assert!(matches!(parse_inventory_delta(&header_says_no_trees, None, None), Err(InventoryDeltaParseError::Incompatible(_))));
    let unversioned_root = lines(&[
        b"format: bzr inventory delta v1 (bzr 1.14)\n",
        b"parent: p\n",
        b"version: r\n",
        b"versioned_root: false\n",
        b"tree_references: false\n",
        b"None\x00/\x00root\x00\x00other\x00dir\n",
    ]);
    assert!(matches!(parse_inventory_delta(&unversioned_root, None, None), Err(InventoryDeltaParseError::Incompatible(_))));
    let bad_bool = lines(&[
        b"format: bzr inventory delta v1 (bzr 1.14)\n",
        b"parent: p\n",
        b"version: r\n",
        b"versioned_root: maybe\n",
        b"tree_references: false\n",
    ]);
    assert!(matches!(parse_inventory_delta(&bad_bool, None, None), Err(InventoryDeltaParseError::Invalid(_))));
    let dup = lines(&[
        b"format: bzr inventory delta v1 (bzr 1.14)\n",
        b"parent: p\n",
        b"version: r\n",
        b"versioned_root: true\n",
        b"tree_references: false\n",
        b"None\x00/a\x00id\x00\x00r\x00dir\n",
        b"None\x00/b\x00id\x00\x00r\x00dir\n",
    ]);
    assert!(matches!(parse_inventory_delta(&dup, None, None), Err(InventoryDeltaParseError::Invalid(_))));
    let few_fields = lines(&[
        b"format: bzr inventory delta v1 (bzr 1.14)\n",
        b"parent: p\n",
        b"version: r\n",
        b"versioned_root: true\n",
        b"tree_references: false\n",
        b"None\x00/a\x00id\n",
    ]);
    assert!(matches!(parse_inventory_delta(&few_fields, None, None), Err(InventoryDeltaParseError::Invalid(_))));
}

#[test]
fn decimal_and_basename() {
    assert_eq!(format_decimal(0), b("0"));
    assert_eq!(format_decimal(18446744073709551615), b("18446744073709551615"));
    assert_eq!(parse_decimal(b"18446744073709551615"), Some(u64::MAX));
    assert_eq!(parse_decimal(b"18446744073709551616"), None);
    assert_eq!(parse_decimal(b""), None);
    assert_eq!(parse_decimal(b"007"), Some(7));
    assert_eq!(basename_of("a/b/c"), "c");
    assert_eq!(basename_of("c"), "c");
    assert_eq!(basename_of("a/"), "");
}

#[test]
fn path_predicates() {
    assert!(is_inside("src", "src/foo.c"));
    assert!(is_inside("src", "src"));
    assert!(!is_inside("src", "srccontrol"));
    assert!(is_inside("", "anything"));
    let dirs = vec!["src".to_string(), "doc".to_string()];
    assert!(is_inside_any(&dirs, "doc/x"));
    assert!(!is_inside_any(&dirs, "lib/x"));
    assert!(is_inside_or_parent_of_any(&dirs, "src/a"));
    let deep = vec!["a/b/c".to_string()];
    assert!(is_inside_or_parent_of_any(&deep, "a"));
    assert!(!is_inside_or_parent_of_any(&deep, "b"));
    assert!(legal_path("x:y"));
}

#[test]
fn minimal_paths() {
    let paths = vec!["a/b".to_string(), "a".to_string(), "c".to_string(), "a/c".to_string(), "c".to_string()];
    assert_eq!(minimum_path_selection(&paths), vec!["a".to_string(), "c".to_string()]);
    let spellings = vec!["a/".to_string(), "a".to_string(), "a/b".to_string()];
    assert_eq!(minimum_path_selection(&spellings), vec!["a/".to_string()]);
    let one = vec!["x".to_string()];
    assert_eq!(minimum_path_selection(&one), one);
}

#[test]
fn quoting_and_abspath() {
    assert_eq!(quotefn("a b"), "\"a b\"");
    assert_eq!(quotefn("a/b-c_d.e"), "a/b-c_d.e");
    assert_eq!(abspath("x/../y", "/home/u"), "/home/u/y");
    assert_eq!(abspath("/a//b/.", "/home/u"), "/a/b");
}

#[test]
fn config_locations() {
    assert_eq!(config_dir("/h/.config/breezy", true, "/h/.bazaar", true), "/h/.config/breezy");
    assert_eq!(config_dir("/h/.config/breezy", false, "/h/.bazaar", true), "/h/.bazaar");
    assert_eq!(config_dir_and_kind("/b", false, "/z", false).1, ConfigDirKind::Breezy);
    assert_eq!(config_path("/h/.bazaar", ConfigDirKind::Bazaar), "/h/.bazaar/bazaar.conf");
    assert_eq!(config_path("/c/", ConfigDirKind::Breezy), "/c/breezy.conf");
    assert_eq!(locations_config_path("/c"), "/c/locations.conf");
    assert_eq!(authentication_config_path("/c"), "/c/authentication.conf");
    assert_eq!(user_ignore_config_path("/c"), "/c/ignore");
    assert_eq!(ConfigDirKind::Bazaar.to_string(), "bazaar");
    assert_eq!(bazaar_config_dir(Some("/bh"), None, "/h", true), "/bh/.bazaar");
    assert_eq!(bazaar_config_dir(None, None, "/h", true), "/h/.config/bazaar");
    assert_eq!(bazaar_config_dir(None, Some("/x"), "/h", false), "/h/.bazaar");
    assert_eq!(crash_dir(None), "/var/crash");
    assert_eq!(cache_dir(None, "/h"), "/h/.cache/breezy");
    assert_eq!(bzr_inventory::bedding::breezy_config_dir(None, Some("/x"), "/h"), "/x/breezy");
}

#[test]
fn parents_providers() {
    let d1 = DictParentsProvider::new(vec![(b("r2"), vec![b("r1")]), (b("r1"), vec![])]);
    let d2 = DictParentsProvider::new(vec![(b("r2"), vec![b("other")]), (b("r3"), vec![b("r2")])]);
    let keys = vec![b("r2"), b("r3"), b("r9")];
    assert_eq!(d1.get_parent_map(&keys), vec![(b("r2"), vec![b("r1")])]);
    let s = StackedParentsProvider::new(vec![d1, d2]);
    assert_eq!(s.get_parent_map(&keys), vec![(b("r2"), vec![b("r1")]), (b("r3"), vec![b("r2")])]);
}

#[test]
fn translations() {
    assert_eq!(gettext("hello"), "hello");
    assert_eq!(nggettext("file", "files", 1), "file");
    assert_eq!(nggettext("file", "files", 2), "files");
}

#[test]
fn generated_file_ids() {
    assert_eq!(gen_file_id("..Hello World.TXT", b"-x1"), b("helloworld.txt-x1"));
    assert_eq!(gen_file_id("abcdefghijklmnopqrstuvwxyz", b"-s"), b("ghijklmnopqrstuvwxyz-s"));
    assert_eq!(gen_file_id("\u{e9}", b"-s"), b("-s"));
    let e = make_entry(Kind::Directory, "Docs".to_string(), Some(b("root")), None, b"-1").unwrap();
    assert_eq!(e.file_id(), &b("docs-1"));
    assert_eq!(e.kind(), Kind::Directory);
    let e = make_entry(Kind::File, "x".to_string(), None, Some(b("given")), b"-1").unwrap();
    assert_eq!(e.file_id(), &b("given"));
    assert!(make_entry(Kind::File, "a/b".to_string(), None, None, b"-1").is_err());
}

#[test]
fn normalized_paths() {
    assert_eq!(normpath("/a/./b/../c"), "/a/c");
    assert_eq!(normpath("a//b/"), "a/b");
    assert_eq!(normpath("/.."), "/");
    assert_eq!(normpath("../x"), "x");
    assert_eq!(normpath(""), "");
}

#[test]
fn backup_names() {
    assert_eq!(backup_name("file.txt", 1), "file.txt.~1~");
    assert_eq!(backup_name("d/f", 12), "d/f.~12~");
}

#[test]
fn parents_of_a_path() {
    assert_eq!(parent_directories("a/b/c"), vec!["a/b".to_string(), "a".to_string()]);
    assert_eq!(parent_directories("/a/b"), vec!["/a".to_string()]);
    assert!(parent_directories("a").is_empty());
}

#[test]
fn entry_setters() {
    let mut e = InventoryEntry::new_file(b("f"), "a".to_string(), None).unwrap();
    e.set_name("b".to_string());
    e.set_parent_id(Some(b("p")));
    e.set_file_id(b("g"));
    e.set_text(Some(b("sha")), Some(4), None);
    assert_eq!(e, file("g", "b", Some("p"), "x", "sha", 4, false).tap_revision(None));
    let mut l = InventoryEntry::new_link(b("l"), "l".to_string(), None).unwrap();
    assert_eq!(l.symlink_target(), None);
    l.set_symlink_target(Some("t".to_string()));
    assert_eq!(l.symlink_target(), Some("t".to_string()));
    let mut t = InventoryEntry::new_tree_reference(b("t"), "t".to_string(), None, None, None).unwrap();
    t.set_reference_revision(Some(b("r")));
    assert_eq!(serialize_inventory_entry(&t).unwrap(), b"tree\x00r".to_vec());
}

trait TapRevision {
    fn tap_revision(self, rev: Option<Vec<u8>>) -> Self;
}

impl TapRevision for InventoryEntry {
    fn tap_revision(mut self, rev: Option<Vec<u8>>) -> Self {
        self.set_revision(rev);
        self
    }
}

#[test]
fn relative_paths() {
    assert_eq!(relpath("/home/u", "/home/u/a/b", "/"), Some("a/b".to_string()));
    assert_eq!(relpath("/home/u", "x/y", "/home/u"), Some("x/y".to_string()));
    assert_eq!(relpath("/home/u", "/home/u", "/"), Some("".to_string()));
    assert_eq!(relpath("/home/u", "/etc", "/"), None);
    assert_eq!(relpath("/home/u", "/home/uv/x", "/"), None);
    assert_eq!(relpath("", "/a", "/"), None);
}

#[test]
fn win32_normalized_paths() {
    assert_eq!(bzr_inventory::win32::normpath("a/b"), "a/b");
    assert_eq!(bzr_inventory::win32::normpath("/x/./y"), "x/y");
    assert_eq!(bzr_inventory::win32::normpath("../a"), "../a");
    assert_eq!(bzr_inventory::win32::normpath("/"), "");
    assert_eq!(bzr_inventory::win32::normpath("c:/x"), "C:/x");
}

#[test]
fn serialize_refuses_what_would_not_read_back() {
    let mut t = InventoryEntry::new_tree_reference(b("t"), "t".to_string(), None, Some(b("r")), Some(vec![0u8])).unwrap();
    assert!(matches!(serialize_inventory_entry(&t), Err(InventoryDeltaSerializeError::Invalid(_))));
    assert!(matches!(
        serialize_inventory_delta(b"p", b"r", &InventoryDelta::new(vec![add("t", t.copy())]), true, true),
        Err(InventoryDeltaSerializeError::Invalid(_))
    ));
    t.set_reference_revision(Some(b("sub")));
    let removal_with_entry = InventoryDeltaEntry { old_path: Some("t".to_string()), new_path: None, file_id: b("t"), new_entry: Some(t.copy()) };
    assert!(matches!(
        serialize_inventory_delta(b"p", b"r", &InventoryDelta::new(vec![removal_with_entry]), true, false),
        Err(InventoryDeltaSerializeError::Invalid(_))
    ));
    let twice = InventoryDelta::new(vec![
        add("a", file("same", "a", None, "r", "s", 1, false)),
        InventoryDeltaEntry { old_path: Some("b".to_string()), new_path: None, file_id: b("same"), new_entry: None },
    ]);
    assert!(matches!(serialize_inventory_delta(b"p", b"r", &twice, true, true), Err(InventoryDeltaSerializeError::Invalid(_))));
    let misnamed = InventoryDelta::new(vec![add("dir/a", file("f", "b", None, "r", "s", 1, false))]);
    assert!(matches!(serialize_inventory_delta(b"p", b"r", &misnamed, true, true), Err(InventoryDeltaSerializeError::Invalid(_))));
    let special = InventoryDelta::new(vec![add("a", file("f", "a", None, "null:", "s", 1, false))]);
    assert!(matches!(serialize_inventory_delta(b"p", b"r", &special, true, true), Err(InventoryDeltaSerializeError::Invalid(_))));
    let mut with_text_id = file("f", "a", None, "r", "s", 1, false);
    with_text_id.set_text(Some(b("s")), Some(1), Some(b("tid")));
    let d = InventoryDelta::new(vec![add("a", with_text_id)]);
    assert!(matches!(serialize_inventory_delta(b"p", b"r", &d, true, true), Err(InventoryDeltaSerializeError::Invalid(_))));
    let zero_path = InventoryDelta::new(vec![add("a\u{0}b", file("f", "a\u{0}b", None, "r", "s", 1, false))]);
    assert!(matches!(serialize_inventory_delta(b"p", b"r", &zero_path, true, true), Err(InventoryDeltaSerializeError::Invalid(_))));
}

#[test]
fn kind_specific_getters() {
    let f = file("f", "a", None, "r", "sha", 7, false);
    assert_eq!(f.text_sha1(), Some(b("sha")));
    assert_eq!(f.text_size(), Some(7));
    assert_eq!(f.text_id(), None);
    let t = InventoryEntry::new_tree_reference(b("t"), "t".to_string(), None, None, Some(b("x"))).unwrap();
    assert_eq!(t.reference_revision(), Some(b("x")));
}
