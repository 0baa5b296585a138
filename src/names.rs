use unicode_normalization::UnicodeNormalization;
use vstd::prelude::*;

verus! {

/// The Unicode Normalization Form C of a character sequence.
pub uninterp spec fn nfc_of(s: Seq<char>) -> Seq<char>;

/// Whether a character sequence is in Unicode Normalization Form C: it is
/// its own NFC form.
pub open spec fn nfc_holds(s: Seq<char>) -> bool {
    nfc_of(s) == s
}

/// Relies on `unicode_normalization::is_nfc`: whether the string equals
/// its NFC form (a quick check, then a comparison with `nfc()`).
#[verifier::external_body]
fn is_nfc(s: &str) -> (r: bool)
    ensures
        r == (nfc_of(s@) == s@),
{
    unicode_normalization::is_nfc(s)
}

/// Relies on `UnicodeNormalization::nfc` (collected into a `String`): the NFC
/// form of the string, which depends on the characters alone.
#[verifier::external_body]
fn to_nfc(s: &str) -> (r: String)
    ensures
        r@ == nfc_of(s@),
{
    s.nfc().collect::<String>()
}

/// A name that an inventory entry may carry: not empty, not `.` or `..`,
/// without a `/`, and in NFC.
pub open spec fn valid_name(s: Seq<char>) -> bool {
    &&& s.len() != 0
    &&& s != seq!['.']
    &&& s != seq!['.', '.']
    &&& !s.contains('/')
    &&& nfc_holds(s)
}

/// Whether `s` contains the character `c`.
pub fn contains_char(s: &str, c: char) -> (r: bool)
    ensures
        r == s@.contains(c),
{
    let n = s.unicode_len();
    let mut i: usize = 0;
    while i < n
        invariant
            n == s@.len(),
            0 <= i <= n,
            forall|j: int| 0 <= j < i ==> s@[j] != c,
        decreases n - i,
    {
        if s.get_char(i) == c {
            return true;
        }
        i = i + 1;
    }
    false
}

/// Tells whether `name` is a valid entry name.
pub fn is_valid_name(name: &str) -> (r: bool)
    ensures
        r == valid_name(name@),
{
    let n = name.unicode_len();
    if n == 0 {
        return false;
    }
    if n <= 2 {
        let mut dots = true;
        let mut i: usize = 0;
        while i < n
            invariant
                n == name@.len(),
                0 <= i <= n,
                dots == (forall|j: int| 0 <= j < i ==> name@[j] == '.'),
            decreases n - i,
        {
            if name.get_char(i) != '.' {
                dots = false;
            }
            i = i + 1;
        }
        if dots {
            assert(name@ == seq!['.'] || name@ == seq!['.', '.']);
            return false;
        }
        assert(name@ != seq!['.'] && name@ != seq!['.', '.']) by {
            if name@ == seq!['.'] || name@ == seq!['.', '.'] {
                assert(forall|j: int| 0 <= j < n ==> name@[j] == '.');
            }
        }
    }
    if contains_char(name, '/') {
        return false;
    }
    is_nfc(name)
}

/// Normalizes a path to NFC, on a file system that normalizes names
/// itself: the file can be reached by the normalized path.
pub fn accessible_normalized_filename(path: &str) -> (r: (String, bool))
    ensures
        nfc_holds(path@) ==> r.0@ == path@,
        !nfc_holds(path@) ==> r.0@ == nfc_of(path@),
        r.1,
{
    if is_nfc(path) {
        (path.to_string(), true)
    } else {
        (to_nfc(path), true)
    }
}

/// Normalizes a path to NFC, on a file system that does not normalize
/// names: a path that is not already in NFC can be reached by its NFC form
/// only if the two are the same.
pub fn inaccessible_normalized_filename(path: &str) -> (r: (String, bool))
    ensures
        nfc_holds(path@) ==> r.0@ == path@ && r.1,
        !nfc_holds(path@) ==> r.0@ == nfc_of(path@) && r.1 == (nfc_of(path@) == path@),
{
    if is_nfc(path) {
        (path.to_string(), true)
    } else {
        let normalized = to_nfc(path);
        let accessible = crate::bytes::str_eq(normalized.as_str(), path);
        (normalized, accessible)
    }
}

/// Normalizes a path to NFC and tells whether the file can be reached by
/// the normalized path; this platform's file systems do not normalize names.
pub fn normalized_filename(path: &str) -> (r: (String, bool))
    ensures
        nfc_holds(path@) ==> r.0@ == path@ && r.1,
        !nfc_holds(path@) ==> r.0@ == nfc_of(path@) && r.1 == (nfc_of(path@) == path@),
{
    inaccessible_normalized_filename(path)
}

/// Whether the platform's file system normalizes file names by itself.
pub fn normalizes_filenames() -> (r: bool)
    ensures
        !r,
{
    false
}

/// Returns `path` when it is in normal form; a path that would need
/// normalizing is refused, since the file could not be reached by the
/// normalized name.
pub fn ensure_normalized_name(path: &str) -> (r: Result<String, NotNormalized>)
    ensures
        r is Ok <==> nfc_holds(path@),
        r is Ok ==> r->Ok_0@ == path@,
        r is Err ==> r->Err_0.path@ == path@,
{
    let (norm, accessible) = normalized_filename(path);
    if !crate::bytes::str_eq(norm.as_str(), path) {
        if accessible {
            Ok(norm)
        } else {
            Err(NotNormalized { path: path.to_string() })
        }
    } else {
        Ok(path.to_string())
    }
}

/// A path that is not in Unicode normal form C.
#[derive(Debug, Clone)]
pub struct NotNormalized {
    pub path: String,
}

} // verus!
