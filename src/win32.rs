use vstd::prelude::*;

use crate::bytes::str_eq;
use crate::path::{cleaned, clean_path, components_of, join, join_path, joined_components, path_components, views};

verus! {

/// Relies on `FromIterator<char>` for `String`: the string of these
/// characters, in order.
#[verifier::external_body]
pub(crate) fn string_of_chars(v: &Vec<char>) -> (r: String)
    ensures
        r@ == v@,
{
    v.iter().collect::<String>()
}

/// The characters of `s`.
fn chars_of(s: &str) -> (r: Vec<char>)
    ensures
        r@ == s@,
{
    let n = s.unicode_len();
    let mut v: Vec<char> = Vec::new();
    let mut i: usize = 0;
    while i < n
        invariant
            n == s@.len(),
            0 <= i <= n,
            v@ == s@.take(i as int),
        decreases n - i,
    {
        v.push(s.get_char(i));
        assert(s@.take(i + 1) =~= s@.take(i as int).push(s@[i as int]));
        i = i + 1;
    }
    assert(s@.take(n as int) =~= s@);
    v
}

/// `c` in upper case, if it is an ASCII letter.
pub open spec fn ascii_upper(c: char) -> char {
    if 'a' <= c <= 'z' {
        ((c as u32) - 32) as char
    } else {
        c
    }
}

/// `p` with the drive letter in upper case, if it starts with one.
pub open spec fn fixed_drive(p: Seq<char>) -> Seq<char> {
    if p.len() >= 2 && p[1] == ':' {
        p.update(0, ascii_upper(p[0]))
    } else {
        p
    }
}

/// `p` with every backslash turned into a forward slash.
pub open spec fn forward_slashes(p: Seq<char>) -> Seq<char> {
    Seq::new(p.len(), |i: int| if p[i] == '\\' { '/' } else { p[i] })
}

/// Whether `p` is an absolute Windows path: a drive letter, a colon, and a
/// separator.
pub open spec fn is_absolute_windows(p: Seq<char>) -> bool {
    p.len() >= 3 && (('a' <= p[0] <= 'z') || ('A' <= p[0] <= 'Z')) && p[1] == ':' && (p[2] == '/' || p[2] == '\\')
}

/// Forces the drive letter to upper case, as Windows spells it either way.
pub fn fixdrive(path: &str) -> (r: String)
    ensures
        r@ == fixed_drive(path@),
{
    let mut v = chars_of(path);
    if v.len() >= 2 && v[1] == ':' {
        let c = v[0];
        if 'a' <= c && c <= 'z' {
            let u = ((c as u32) - 32) as u8 as char;
            assert(u == ascii_upper(c));
            v.set(0, u);
        }
    }
    string_of_chars(&v)
}

/// Turns every backslash into a forward slash.
pub fn fix_separators(path: &str) -> (r: String)
    ensures
        r@ == forward_slashes(path@),
{
    let mut v = chars_of(path);
    let ghost orig = v@;
    let mut i: usize = 0;
    while i < v.len()
        invariant
            orig == path@,
            v@.len() == orig.len(),
            0 <= i <= v@.len(),
            forall|j: int| 0 <= j < i ==> v@[j] == (if orig[j] == '\\' { '/' } else { orig[j] }),
            forall|j: int| i <= j < v@.len() ==> v@[j] == orig[j],
        decreases v@.len() - i,
    {
        if v[i] == '\\' {
            v.set(i, '/');
        }
        i = i + 1;
    }
    assert(v@ =~= forward_slashes(path@));
    string_of_chars(&v)
}

/// The absolute form of `path`, taken relative to the working directory
/// `cwd` unless it is already absolute, with forward slashes and an upper
/// case drive letter.
pub fn abspath(path: &str, cwd: &str) -> (r: String)
    ensures
        is_absolute_windows(path@) ==> r@ == fixed_drive(forward_slashes(path@)),
        !is_absolute_windows(path@) ==> r@ == fixed_drive(forward_slashes(cleaned(join(cwd@, path@)))),
{
    let n = path.unicode_len();
    let absolute = n >= 3 && {
        let c0 = path.get_char(0);
        let c2 = path.get_char(2);
        (('a' <= c0 && c0 <= 'z') || ('A' <= c0 && c0 <= 'Z')) && path.get_char(1) == ':' && (c2 == '/' || c2 == '\\')
    };
    if absolute {
        let s = fix_separators(path);
        fixdrive(s.as_str())
    } else {
        let joined = join_path(cwd, path);
        let c = clean_path(joined.as_str());
        let s = fix_separators(c.as_str());
        fixdrive(s.as_str())
    }
}

/// The name components of `cs`: all but the root.
pub open spec fn names_of(cs: Seq<Seq<char>>) -> Seq<Seq<char>>
    decreases cs.len(),
{
    if cs.len() == 0 {
        Seq::empty()
    } else if cs.last() == "/"@ {
        names_of(cs.drop_last())
    } else {
        names_of(cs.drop_last()).push(cs.last())
    }
}

/// The Windows form of a normalized path: unchanged when it has a `.` or
/// `..` component; else its names joined with forward slashes and an upper
/// case drive letter, or a lone backslash or nothing when it has no names.
pub open spec fn win_normalized(p: Seq<char>) -> Seq<char> {
    let cs = components_of(p);
    if exists|i: int| 0 <= i < cs.len() && (cs[i] == "."@ || cs[i] == ".."@) {
        p
    } else if names_of(cs).len() == 0 {
        if p.len() > 0 && p[0] == '\\' {
            seq!['\\']
        } else {
            Seq::empty()
        }
    } else {
        fixed_drive(forward_slashes(joined_components(names_of(cs))))
    }
}

/// Normalizes a path the Windows way.
pub fn normpath(p: &str) -> (r: String)
    ensures
        r@ == win_normalized(p@),
{
    let cs = path_components(p);
    let ghost cv = views(cs@);
    let mut parts: Vec<String> = Vec::new();
    let mut i: usize = 0;
    assert(cv.take(0) =~= Seq::<Seq<char>>::empty());
    assert(views(parts@) =~= Seq::<Seq<char>>::empty());
    while i < cs.len()
        invariant
            cv == views(cs@),
            cv == components_of(p@),
            0 <= i <= cv.len(),
            views(parts@) == names_of(cv.take(i as int)),
            forall|j: int| 0 <= j < i ==> !(#[trigger] cv[j] == "."@ || cv[j] == ".."@),
        decreases cv.len() - i,
    {
        assert(cv.take(i + 1).drop_last() =~= cv.take(i as int));
        assert(cv.take(i + 1).last() == cs@[i as int]@);
        let c = cs[i].as_str();
        if str_eq(c, ".") || str_eq(c, "..") {
            return p.to_string();
        }
        if !str_eq(c, "/") {
            let ghost before = views(parts@);
            parts.push(c.to_string());
            assert(views(parts@) =~= before.push(c@));
        }
        i = i + 1;
    }
    assert(cv.take(i as int) =~= cv);
    if parts.len() == 0 {
        if p.unicode_len() > 0 && p.get_char(0) == '\\' {
            let r = "\\".to_string();
            proof {
                reveal_strlit("\\");
            }
            assert(r@ =~= seq!['\\']);
            return r;
        }
        return String::new();
    }
    let ghost st = views(parts@);
    let mut out = String::new();
    let mut k: usize = 0;
    assert(st.take(0) =~= Seq::<Seq<char>>::empty());
    while k < parts.len()
        invariant
            st == views(parts@),
            0 <= k <= st.len(),
            out@ == joined_components(st.take(k as int)),
        decreases st.len() - k,
    {
        assert(st.take(k + 1).drop_last() =~= st.take(k as int));
        assert(st.take(k + 1).last() == parts@[k as int]@);
        let c = parts[k].as_str();
        if str_eq(c, "/") {
            out = c.to_string();
        } else {
            out = join_path(out.as_str(), c);
        }
        k = k + 1;
    }
    assert(st.take(k as int) =~= st);
    let s = fix_separators(out.as_str());
    fixdrive(s.as_str())
}

} // verus!
