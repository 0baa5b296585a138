use vstd::prelude::*;

use crate::bytes::{append_bytes, opt_bytes};
use crate::entry::{InvalidEntryName, InventoryEntry, Kind};
use crate::names::valid_name;

verus! {

/// Whether `c` is kept in a generated file id: an ASCII letter, digit,
/// underscore or dot.
pub open spec fn id_char(c: char) -> bool {
    ('a' <= c <= 'z') || ('A' <= c <= 'Z') || ('0' <= c <= '9') || c == '_' || c == '.'
}

/// The byte that stands for a kept character: letters in lower case.
pub open spec fn id_byte(c: char) -> u8 {
    if 'A' <= c <= 'Z' {
        ((c as u32) + 32) as u8
    } else {
        c as u32 as u8
    }
}

/// The kept characters of `s`, as lower-case bytes.
pub open spec fn id_bytes(s: Seq<char>) -> Seq<u8>
    decreases s.len(),
{
    if s.len() == 0 {
        Seq::empty()
    } else if id_char(s.last()) {
        id_bytes(s.drop_last()).push(id_byte(s.last()))
    } else {
        id_bytes(s.drop_last())
    }
}

/// `b` without its leading dots.
pub open spec fn strip_dots(b: Seq<u8>) -> Seq<u8>
    decreases b.len(),
{
    if b.len() > 0 && b[0] == 46u8 {
        strip_dots(b.drop_first())
    } else {
        b
    }
}

/// The readable part of a file id generated for `name`: its ASCII word
/// characters and dots, in lower case, without leading dots, at most the
/// last twenty.
pub open spec fn id_prefix(name: Seq<char>) -> Seq<u8> {
    let b = strip_dots(id_bytes(name));
    if b.len() > 20 {
        b.skip(b.len() - 20)
    } else {
        b
    }
}

/// A file id for a new entry called `name`: the readable part of the name
/// followed by `suffix`, which the caller makes unique.
pub fn gen_file_id(name: &str, suffix: &[u8]) -> (r: Vec<u8>)
    ensures
        r@ == id_prefix(name@) + suffix@,
{
    let n = name.unicode_len();
    let mut kept: Vec<u8> = Vec::new();
    let mut i: usize = 0;
    while i < n
        invariant
            n == name@.len(),
            0 <= i <= n,
            kept@ == id_bytes(name@.take(i as int)),
        decreases n - i,
    {
        let c = name.get_char(i);
        assert(name@.take(i + 1).drop_last() =~= name@.take(i as int));
        assert(name@.take(i + 1).last() == c);
        if ('a' <= c && c <= 'z') || ('0' <= c && c <= '9') || c == '_' || c == '.' {
            kept.push(c as u32 as u8);
        } else if 'A' <= c && c <= 'Z' {
            kept.push(((c as u32) + 32) as u8);
        }
        i = i + 1;
    }
    assert(name@.take(n as int) =~= name@);
    let mut start: usize = 0;
    assert(kept@.skip(0) =~= kept@);
    while start < kept.len() && kept[start] == 46u8
        invariant
            0 <= start <= kept@.len(),
            strip_dots(kept@) == strip_dots(kept@.skip(start as int)),
        decreases kept@.len() - start,
    {
        assert(kept@.skip(start as int).drop_first() =~= kept@.skip(start + 1));
        start = start + 1;
    }
    let ghost stripped = kept@.skip(start as int);
    assert(strip_dots(stripped) == stripped);
    if kept.len() - start > 20 {
        start = kept.len() - 20;
    }
    let mut r: Vec<u8> = Vec::new();
    let mut j: usize = start;
    while j < kept.len()
        invariant
            start <= j <= kept@.len(),
            r@ == kept@.subrange(start as int, j as int),
        decreases kept@.len() - j,
    {
        r.push(kept[j]);
        assert(kept@.subrange(start as int, j + 1) =~= kept@.subrange(start as int, j as int).push(kept@[j as int]));
        j = j + 1;
    }
    assert(r@ =~= id_prefix(name@));
    append_bytes(&mut r, suffix);
    r
}

/// Makes an entry of the given kind. Without a file id, one is generated
/// from the name and `id_suffix`.
pub fn make_entry(kind: Kind, name: String, parent_id: Option<Vec<u8>>, file_id: Option<Vec<u8>>, id_suffix: &[u8]) -> (r: Result<
    InventoryEntry,
    InvalidEntryName,
>)
    ensures
        r is Ok <==> valid_name(name@),
        r matches Ok(e) ==> e@.kind() == kind && e@.name() == name@ && e@.parent_id() == opt_bytes(parent_id)
            && e@.revision() is None && e@.file_id() == match file_id {
                Some(f) => f@,
                None => id_prefix(name@) + id_suffix@,
            },
        r matches Err(e) ==> e.name@ == name@,
{
    let fid = match file_id {
        Some(f) => f,
        None => gen_file_id(name.as_str(), id_suffix),
    };
    InventoryEntry::new(kind, name, fid, parent_id)
}

} // verus!
