use vstd::prelude::*;

use crate::bytes::str_eq;

verus! {

/// Whether the components of `base` are a prefix of those of `p`.
pub uninterp spec fn component_prefix(p: Seq<char>, base: Seq<char>) -> bool;

/// Relies on `Path::starts_with`: whether `base`'s components are a prefix
/// of `p`'s; the answer depends on the two strings alone.
#[verifier::external_body]
fn path_starts_with(p: &str, base: &str) -> (r: bool)
    ensures
        r == component_prefix(p@, base@),
{
    std::path::Path::new(p).starts_with(base)
}

/// Whether `fname` is `dir` or lies under it.
pub fn is_inside(dir: &str, fname: &str) -> (r: bool)
    ensures
        r == component_prefix(fname@, dir@),
{
    path_starts_with(fname, dir)
}

/// Whether `fname` lies under one of `dir_list`.
pub fn is_inside_any(dir_list: &Vec<String>, fname: &str) -> (r: bool)
    ensures
        r == exists|i: int| 0 <= i < dir_list@.len() && component_prefix(fname@, #[trigger] dir_list@[i]@),
{
    let mut i: usize = 0;
    while i < dir_list.len()
        invariant
            0 <= i <= dir_list@.len(),
            forall|j: int| 0 <= j < i ==> !component_prefix(fname@, #[trigger] dir_list@[j]@),
        decreases dir_list@.len() - i,
    {
        if is_inside(dir_list[i].as_str(), fname) {
            return true;
        }
        i = i + 1;
    }
    false
}

/// Whether `fname` lies under one of `dir_list` or one of them lies under
/// `fname`.
pub fn is_inside_or_parent_of_any(dir_list: &Vec<String>, fname: &str) -> (r: bool)
    ensures
        r == exists|i: int|
            0 <= i < dir_list@.len() && (component_prefix(fname@, #[trigger] dir_list@[i]@)
                || component_prefix(dir_list@[i]@, fname@)),
{
    let mut i: usize = 0;
    while i < dir_list.len()
        invariant
            0 <= i <= dir_list@.len(),
            forall|j: int|
                0 <= j < i ==> !component_prefix(fname@, #[trigger] dir_list@[j]@) && !component_prefix(
                    dir_list@[j]@,
                    fname@,
                ),
        decreases dir_list@.len() - i,
    {
        if is_inside(dir_list[i].as_str(), fname) || is_inside(fname, dir_list[i].as_str()) {
            return true;
        }
        i = i + 1;
    }
    false
}

pub open spec fn views(s: Seq<String>) -> Seq<Seq<char>> {
    s.map_values(|x: String| x@)
}

/// Whether path `i` of `s` is kept: it lies strictly under no other path of
/// `s`, and no earlier path has the same components.
pub open spec fn kept(s: Seq<Seq<char>>, i: int) -> bool {
    &&& forall|j: int|
        0 <= j < s.len() ==> !(component_prefix(s[i], #[trigger] s[j]) && !component_prefix(s[j], s[i]))
    &&& forall|j: int| 0 <= j < i ==> !(component_prefix(s[i], #[trigger] s[j]) && component_prefix(s[j], s[i]))
}

/// The kept paths among the first `n` of `s`, in order.
pub open spec fn selection(s: Seq<Seq<char>>, n: int) -> Seq<Seq<char>>
    decreases n,
{
    if n <= 0 {
        Seq::empty()
    } else if kept(s, n - 1) {
        selection(s, n - 1).push(s[n - 1])
    } else {
        selection(s, n - 1)
    }
}

/// The paths that lie strictly under no other path of the set, one for
/// each set of spellings of one path (the first): searching them covers the
/// whole set.
pub fn minimum_path_selection(paths: &Vec<String>) -> (r: Vec<String>)
    ensures
        views(r@) == selection(views(paths@), paths@.len() as int),
{
    let ghost s = views(paths@);
    let n = paths.len();
    let mut out: Vec<String> = Vec::new();
    let mut i: usize = 0;
    while i < n
        invariant
            n == paths@.len(),
            s == views(paths@),
            0 <= i <= n,
            views(out@) == selection(s, i as int),
        decreases n - i,
    {
        let p = paths[i].as_str();
        assert(s[i as int] == p@);
        let mut keep = true;
        let mut j: usize = 0;
        while j < n
            invariant
                n == paths@.len(),
                s == views(paths@),
                0 <= j <= n,
                i < n,
                p@ == s[i as int],
                keep == ((forall|m: int|
                    0 <= m < j ==> !(component_prefix(s[i as int], #[trigger] s[m]) && !component_prefix(s[m], s[i as int])))
                    && (forall|m: int|
                    0 <= m < j && m < i ==> !(component_prefix(s[i as int], #[trigger] s[m]) && component_prefix(
                        s[m],
                        s[i as int],
                    )))),
            decreases n - j,
        {
            let q = paths[j].as_str();
            assert(s[j as int] == q@);
            let under = is_inside(q, p);
            let over = is_inside(p, q);
            if under && !over {
                keep = false;
            }
            if j < i && under && over {
                keep = false;
            }
            j = j + 1;
        }
        let ghost before = out@;
        if keep {
            out.push(paths[i].clone());
            assert(views(out@) =~= views(before).push(s[i as int]));
        }
        i = i + 1;
    }
    out
}

/// Whether a path is legal on this platform: on POSIX every path is.
pub fn legal_path(_path: &str) -> (r: bool)
    ensures
        r,
{
    true
}

/// Whether character `c` may stand in a file name without quoting.
pub open spec fn quote_safe(c: char) -> bool {
    ('a' <= c <= 'z') || ('A' <= c <= 'Z') || ('0' <= c <= '9') || c == '.' || c == ',' || c == ':' || c == '/'
        || c == '\\' || c == '_' || c == '~' || c == '-'
}

/// Puts a file name in double quotes when it holds a character outside
/// letters, digits and `.,:/\_~-`.
pub fn quotefn(f: &str) -> (r: String)
    ensures
        (exists|i: int| 0 <= i < f@.len() && !quote_safe(#[trigger] f@[i])) ==> r@ == seq!['"'] + f@ + seq!['"'],
        (forall|i: int| 0 <= i < f@.len() ==> quote_safe(#[trigger] f@[i])) ==> r@ == f@,
{
    let n = f.unicode_len();
    let mut i: usize = 0;
    let mut safe = true;
    while i < n
        invariant
            n == f@.len(),
            0 <= i <= n,
            safe == (forall|j: int| 0 <= j < i ==> quote_safe(#[trigger] f@[j])),
        decreases n - i,
    {
        let c = f.get_char(i);
        if !(('a' <= c && c <= 'z') || ('A' <= c && c <= 'Z') || ('0' <= c && c <= '9') || c == '.' || c == ','
            || c == ':' || c == '/' || c == '\\' || c == '_' || c == '~' || c == '-') {
            safe = false;
        }
        i = i + 1;
    }
    if safe {
        f.to_string()
    } else {
        let mut r = "\"".to_string();
        r.append(f);
        r.append("\"");
        proof {
            reveal_strlit("\"");
        }
        assert(r@ =~= seq!['"'] + f@ + seq!['"']);
        r
    }
}

/// Joins a relative name onto a directory path, with one `/` between them.
pub open spec fn join(dir: Seq<char>, name: Seq<char>) -> Seq<char> {
    if dir.len() == 0 || dir.last() == '/' {
        dir + name
    } else {
        dir + seq!['/'] + name
    }
}

/// Joins a relative name onto a directory path.
pub fn join_path(dir: &str, name: &str) -> (r: String)
    ensures
        r@ == join(dir@, name@),
{
    let n = dir.unicode_len();
    let mut r = dir.to_string();
    if n > 0 && dir.get_char(n - 1) == '/' {
        r.append(name);
    } else if n == 0 {
        r.append(name);
    } else {
        r.append("/");
        r.append(name);
        proof {
            reveal_strlit("/");
        }
        assert(r@ =~= dir@ + seq!['/'] + name@);
    }
    r
}

/// The lexically cleaned form of a path.
pub uninterp spec fn cleaned(p: Seq<char>) -> Seq<char>;

/// Relies on `path_clean::clean`: the path with repeated separators, `.`
/// and resolvable `..` components removed; it depends on the path alone.
#[verifier::external_body]
pub(crate) fn clean_path(p: &str) -> (r: String)
    ensures
        r@ == cleaned(p@),
{
    path_clean::clean(p).to_string_lossy().into_owned()
}

/// The absolute form of `path`, taken relative to the working directory
/// `cwd`, cleaned lexically.
pub fn abspath(path: &str, cwd: &str) -> (r: String)
    ensures
        path@.len() > 0 && path@[0] == '/' ==> r@ == cleaned(path@),
        !(path@.len() > 0 && path@[0] == '/') ==> r@ == cleaned(join(cwd@, path@)),
{
    if path.unicode_len() > 0 && path.get_char(0) == '/' {
        clean_path(path)
    } else {
        let joined = join_path(cwd, path);
        clean_path(joined.as_str())
    }
}

/// The components of a path: `/` for the root, `.` for a leading current
/// directory, `..` for a parent, and the names.
pub uninterp spec fn components_of(p: Seq<char>) -> Seq<Seq<char>>;

/// Relies on `Path::components`, each component turned into a string: the
/// components depend on the path alone.
#[verifier::external_body]
pub(crate) fn path_components(p: &str) -> (r: Vec<String>)
    ensures
        views(r@) == components_of(p@),
{
    std::path::Path::new(p).components().map(|c| c.as_os_str().to_string_lossy().into_owned()).collect()
}

/// The components left after resolving `.`, `..` and the root, in order.
pub open spec fn resolved(cs: Seq<Seq<char>>) -> Seq<Seq<char>>
    decreases cs.len(),
{
    if cs.len() == 0 {
        Seq::empty()
    } else {
        let st = resolved(cs.drop_last());
        let c = cs.last();
        if c == "/"@ {
            seq![c]
        } else if c == "."@ {
            st
        } else if c == ".."@ {
            if st.len() > 1 {
                st.drop_last()
            } else {
                st
            }
        } else {
            st.push(c)
        }
    }
}

/// The path that the components spell, pushed one after the other.
pub open spec fn joined_components(cs: Seq<Seq<char>>) -> Seq<char>
    decreases cs.len(),
{
    if cs.len() == 0 {
        Seq::empty()
    } else if cs.last() == "/"@ {
        cs.last()
    } else {
        join(joined_components(cs.drop_last()), cs.last())
    }
}

/// Normalizes a path lexically: drops `.` components, lets `..` remove the
/// component before it (but never the root), and keeps a leading root.
pub fn normpath(path: &str) -> (r: String)
    ensures
        r@ == joined_components(resolved(components_of(path@))),
{
    let cs = path_components(path);
    let ghost cv = views(cs@);
    let mut stack: Vec<String> = Vec::new();
    let mut i: usize = 0;
    assert(cv.take(0) =~= Seq::<Seq<char>>::empty());
    assert(views(stack@) =~= Seq::<Seq<char>>::empty());
    while i < cs.len()
        invariant
            cv == views(cs@),
            0 <= i <= cv.len(),
            views(stack@) == resolved(cv.take(i as int)),
        decreases cv.len() - i,
    {
        assert(cv.take(i + 1).drop_last() =~= cv.take(i as int));
        assert(cv.take(i + 1).last() == cs@[i as int]@);
        let c = cs[i].as_str();
        let ghost before = views(stack@);
        if str_eq(c, "/") {
            stack = Vec::new();
            stack.push(c.to_string());
            assert(views(stack@) =~= seq![c@]);
        } else if str_eq(c, ".") {
        } else if str_eq(c, "..") {
            if stack.len() > 1 {
                stack.pop();
                assert(views(stack@) =~= before.drop_last());
            }
        } else {
            stack.push(c.to_string());
            assert(views(stack@) =~= before.push(c@));
        }
        i = i + 1;
    }
    assert(cv.take(i as int) =~= cv);
    let ghost st = views(stack@);
    let mut out = String::new();
    let mut k: usize = 0;
    assert(st.take(0) =~= Seq::<Seq<char>>::empty());
    while k < stack.len()
        invariant
            st == views(stack@),
            0 <= k <= st.len(),
            out@ == joined_components(st.take(k as int)),
        decreases st.len() - k,
    {
        assert(st.take(k + 1).drop_last() =~= st.take(k as int));
        assert(st.take(k + 1).last() == stack@[k as int]@);
        let c = stack[k].as_str();
        if str_eq(c, "/") {
            out = c.to_string();
        } else {
            out = join_path(out.as_str(), c);
        }
        k = k + 1;
    }
    assert(st.take(k as int) =~= st);
    out
}

/// The name of the `n`th backup of `path`: `path.~n~`.
pub open spec fn backup_name_spec(path: Seq<char>, n: nat) -> Seq<char> {
    path + ".~"@ + crate::wire::decimal(n).map_values(|b: u8| b as char) + "~"@
}

/// The name of the `n`th backup of `path`, `path.~n~`; the caller tries
/// `n` = 1, 2, ... until a name is free.
pub fn backup_name(path: &str, n: u64) -> (r: String)
    ensures
        r@ == backup_name_spec(path@, n as nat),
{
    let digits = crate::wire::format_decimal(n);
    let mut cs: Vec<char> = Vec::new();
    let mut i: usize = 0;
    while i < digits.len()
        invariant
            0 <= i <= digits@.len(),
            cs@ == digits@.take(i as int).map_values(|b: u8| b as char),
        decreases digits@.len() - i,
    {
        cs.push(digits[i] as char);
        assert(digits@.take(i + 1).map_values(|b: u8| b as char) =~= digits@.take(i as int).map_values(
            |b: u8| b as char,
        ).push(digits@[i as int] as char));
        i = i + 1;
    }
    assert(digits@.take(i as int) =~= digits@);
    let mut r = path.to_string();
    r.append(".~");
    let d = crate::win32::string_of_chars(&cs);
    r.append(d.as_str());
    r.append("~");
    r
}

/// The path without its final component, if it has one.
pub uninterp spec fn parent_of(p: Seq<char>) -> Option<Seq<char>>;

/// Relies on `Path::parent`: the path without its final component, which
/// depends on the path alone and is shorter than it.
#[verifier::external_body]
fn path_parent(p: &str) -> (r: Option<String>)
    ensures
        crate::bytes::opt_chars(r) == parent_of(p@),
        r matches Some(q) ==> q@.len() < p@.len(),
{
    std::path::Path::new(p).parent().map(|q| q.to_string_lossy().into_owned())
}

/// Whether the walk up from `p` goes on: `p` has a parent that has a
/// parent in turn.
pub open spec fn has_grandparent(p: Seq<char>) -> bool {
    parent_of(p) matches Some(q) && parent_of(q) is Some
}

/// The parent directories of `path`, nearest first, down to (not including)
/// the last one that has no parent.
pub fn parent_directories(path: &str) -> (r: Vec<String>)
    ensures
        ({
            let v = views(r@);
            &&& v.len() == 0 <==> !has_grandparent(path@)
            &&& v.len() > 0 ==> Some(v[0]) == parent_of(path@)
            &&& forall|k: int| 0 <= k < v.len() - 1 ==> has_grandparent(#[trigger] v[k]) && Some(v[k + 1]) == parent_of(v[k])
            &&& v.len() > 0 ==> !has_grandparent(v.last())
        }),
{
    let mut out: Vec<String> = Vec::new();
    let mut cur = path.to_string();
    let ghost start = path@;
    loop
        invariant
            start == path@,
            out@.len() == 0 ==> cur@ == start,
            out@.len() > 0 ==> cur@ == views(out@).last(),
            out@.len() > 0 ==> Some(views(out@)[0]) == parent_of(start) && has_grandparent(start),
            forall|k: int|
                0 <= k < views(out@).len() - 1 ==> has_grandparent(#[trigger] views(out@)[k]) && Some(views(out@)[k + 1])
                    == parent_of(views(out@)[k]),
        decreases cur@.len(),
    {
        let ghost before = views(out@);
        let q = match path_parent(cur.as_str()) {
            Some(q) => q,
            None => {
                return out;
            },
        };
        match path_parent(q.as_str()) {
            Some(_) => {},
            None => {
                return out;
            },
        }
        out.push(q.clone());
        assert(views(out@) =~= before.push(q@));
        cur = q;
    }
}

/// The final component of a path, if it has one.
pub uninterp spec fn file_name_of(p: Seq<char>) -> Option<Seq<char>>;

/// Whether two paths have the same components.
pub uninterp spec fn same_path(a: Seq<char>, b: Seq<char>) -> bool;

/// Relies on `Path::file_name`: the final component, which depends on the
/// path alone.
#[verifier::external_body]
fn path_file_name(p: &str) -> (r: Option<String>)
    ensures
        crate::bytes::opt_chars(r) == file_name_of(p@),
{
    std::path::Path::new(p).file_name().map(|q| q.to_string_lossy().into_owned())
}

/// Relies on `==` on `Path`: whether the two paths have the same
/// components.
#[verifier::external_body]
fn path_eq(a: &str, b: &str) -> (r: bool)
    ensures
        r == same_path(a@, b@),
{
    std::path::Path::new(a) == std::path::Path::new(b)
}

/// The length of a path in bytes.
pub open spec fn byte_len(p: Seq<char>) -> nat {
    vstd::utf8::encode_utf8(p).len()
}

/// Walks up from `head` until it is `base`, collecting the names left
/// behind (innermost first); none if `base` is not reached within `fuel`
/// steps or the walk passes it.
pub open spec fn walk_up(head: Seq<char>, base: Seq<char>, acc: Seq<Seq<char>>, fuel: nat) -> Option<Seq<Seq<char>>>
    decreases fuel,
{
    if fuel == 0 {
        None
    } else if byte_len(head) <= byte_len(base) && !same_path(head, base) {
        None
    } else if same_path(head, base) {
        Some(acc)
    } else {
        match (parent_of(head), file_name_of(head)) {
            (Some(p), Some(t)) => walk_up(p, base, if t.len() > 0 { acc.push(t) } else { acc }, (fuel - 1) as nat),
            _ => None,
        }
    }
}

/// The path of `path` relative to `base`, if `path` lies under it; `path`
/// is first made absolute against the working directory `cwd`.
pub fn relpath(base: &str, path: &str, cwd: &str) -> (r: Option<String>)
    ensures
        ({
            let rp = if path@.len() > 0 && path@[0] == '/' { cleaned(path@) } else { cleaned(join(cwd@, path@)) };
            &&& byte_len(base@) < 1 ==> r is None
            &&& byte_len(base@) >= 1 ==> match walk_up(rp, base@, Seq::empty(), rp.len()) {
                Some(names) => r matches Some(x) && x@ == joined_components(names.reverse()),
                None => r is None,
            }
        }),
{
    if base.as_bytes().len() < 1 {
        return None;
    }
    let rp = abspath(path, cwd);
    let ghost rpv = rp@;
    let mut names: Vec<String> = Vec::new();
    let mut head = rp;
    let mut fuel: usize = head.unicode_len();
    let ghost target = walk_up(rpv, base@, Seq::empty(), rpv.len());
    assert(views(names@) =~= Seq::<Seq<char>>::empty());
    loop
        invariant
            walk_up(head@, base@, views(names@), fuel as nat) == target,
            target == walk_up(rpv, base@, Seq::empty(), rpv.len()),
            rpv == (if path@.len() > 0 && path@[0] == '/' { cleaned(path@) } else { cleaned(join(cwd@, path@)) }),
            byte_len(base@) >= 1,
            head@.len() <= fuel,
        ensures
            fuel > 0,
            same_path(head@, base@),
            walk_up(head@, base@, views(names@), fuel as nat) == target,
        decreases fuel,
    {
        if fuel == 0 {
            return None;
        }
        let same = path_eq(head.as_str(), base);
        if head.as_str().as_bytes().len() <= base.as_bytes().len() && !same {
            return None;
        }
        if same {
            break;
        }
        let p = match path_parent(head.as_str()) {
            Some(p) => p,
            None => return None,
        };
        let t = match path_file_name(head.as_str()) {
            Some(t) => t,
            None => return None,
        };
        let ghost before = views(names@);
        if t.unicode_len() > 0 {
            names.push(t);
            assert(views(names@) =~= before.push(names@.last()@));
        }
        head = p;
        fuel = fuel - 1;
    }
    let ghost ns = views(names@);
    assert(target == Some(ns));
    let mut out = String::new();
    let mut k: usize = names.len();
    assert(ns.reverse().take(0) =~= Seq::<Seq<char>>::empty());
    while k > 0
        invariant
            ns == views(names@),
            0 <= k <= ns.len(),
            out@ == joined_components(ns.reverse().take(ns.len() - k)),
        decreases k,
    {
        let ghost m = ns.len() - k;
        assert(ns.reverse().take(m + 1).drop_last() =~= ns.reverse().take(m));
        assert(ns.reverse().take(m + 1).last() == ns[k - 1]);
        let c = names[k - 1].as_str();
        if str_eq(c, "/") {
            out = c.to_string();
        } else {
            out = join_path(out.as_str(), c);
        }
        k = k - 1;
    }
    assert(ns.reverse().take(ns.len() as int) =~= ns.reverse());
    Some(out)
}

} // verus!
