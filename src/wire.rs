use vstd::prelude::*;

use crate::bytes::append_bytes;

verus! {

/// The index of the first zero byte of `s`, or its length if there is none.
pub open spec fn first_zero(s: Seq<u8>) -> int
    decreases s.len(),
{
    if s.len() == 0 {
        0
    } else if s[0] == 0 {
        0
    } else {
        1 + first_zero(s.drop_first())
    }
}

/// The bytes of `s` before its first zero byte.
pub open spec fn field(s: Seq<u8>) -> Seq<u8> {
    s.take(first_zero(s))
}

/// The bytes of `s` after its first zero byte, if it has one.
pub open spec fn after_field(s: Seq<u8>) -> Option<Seq<u8>> {
    if first_zero(s) < s.len() {
        Some(s.skip(first_zero(s) + 1))
    } else {
        None
    }
}

pub proof fn lemma_first_zero_at(s: Seq<u8>, i: int)
    requires
        0 <= i <= s.len(),
        forall|k: int| 0 <= k < i ==> s[k] != 0,
        i < s.len() ==> s[i] == 0,
    ensures
        first_zero(s) == i,
    decreases i,
{
    if i > 0 {
        lemma_first_zero_at(s.drop_first(), i - 1);
    }
}

/// A field followed by a zero byte splits back into the field and the rest.
pub proof fn lemma_split_joined(a: Seq<u8>, b: Seq<u8>)
    requires
        !a.contains(0u8),
    ensures
        field(a + seq![0u8] + b) == a,
        after_field(a + seq![0u8] + b) == Some(b),
{
    let s = a + seq![0u8] + b;
    assert forall|k: int| 0 <= k < a.len() implies s[k] != 0 by {
        assert(s[k] == a[k]);
        if a[k] == 0 {
            assert(a.contains(0u8));
        }
    }
    lemma_first_zero_at(s, a.len() as int);
    assert(s.take(a.len() as int) =~= a);
    assert(s.skip(a.len() as int + 1) =~= b);
}

/// A field without a zero byte is its own field, with nothing after it.
pub proof fn lemma_split_last(a: Seq<u8>)
    requires
        !a.contains(0u8),
    ensures
        field(a) == a,
        after_field(a) is None,
{
    assert forall|k: int| 0 <= k < a.len() implies a[k] != 0 by {
        if a[k] == 0 {
            assert(a.contains(0u8));
        }
    }
    lemma_first_zero_at(a, a.len() as int);
    assert(a.take(a.len() as int) =~= a);
}

/// A copy of `s[from..to]`.
pub fn copy_range(s: &[u8], from: usize, to: usize) -> (r: Vec<u8>)
    requires
        from <= to <= s@.len(),
    ensures
        r@ == s@.subrange(from as int, to as int),
{
    let mut r: Vec<u8> = Vec::new();
    let mut i: usize = from;
    while i < to
        invariant
            from <= i <= to <= s@.len(),
            r@ == s@.subrange(from as int, i as int),
        decreases to - i,
    {
        r.push(s[i]);
        assert(s@.subrange(from as int, i + 1) == s@.subrange(from as int, i as int).push(s@[i as int]));
        i = i + 1;
    }
    r
}

/// Splits `s` at its first zero byte.
pub fn split_field(s: &[u8]) -> (r: (Vec<u8>, Option<Vec<u8>>))
    ensures
        r.0@ == field(s@),
        after_field(s@) is Some <==> r.1 is Some,
        r.1 matches Some(t) ==> after_field(s@) == Some(t@),
{
    let mut i: usize = 0;
    while i < s.len() && s[i] != 0
        invariant
            0 <= i <= s@.len(),
            forall|k: int| 0 <= k < i ==> s@[k] != 0,
        decreases s@.len() - i,
    {
        i = i + 1;
    }
    proof {
        lemma_first_zero_at(s@, i as int);
    }
    let head = copy_range(s, 0, i);
    if i < s.len() {
        (head, Some(copy_range(s, i + 1, s.len())))
    } else {
        (head, None)
    }
}

/// Joins `a` and `b` with a zero byte between them.
pub open spec fn joined(a: Seq<u8>, b: Seq<u8>) -> Seq<u8> {
    a + seq![0u8] + b
}

/// Appends a zero byte and then `b` to `a`.
pub fn push_field(a: &mut Vec<u8>, b: &[u8])
    ensures
        final(a)@ == joined(old(a)@, b@),
{
    a.push(0u8);
    append_bytes(a, b);
}

/// The decimal digits of `n`, most significant first.
pub open spec fn decimal(n: nat) -> Seq<u8>
    decreases n,
{
    if n < 10 {
        seq![(48 + n) as u8]
    } else {
        decimal(n / 10).push((48 + n % 10) as u8)
    }
}

/// Whether every byte of `s` is an ASCII digit.
pub open spec fn all_digits(s: Seq<u8>) -> bool {
    forall|i: int| 0 <= i < s.len() ==> 48 <= #[trigger] s[i] <= 57
}

/// The number that the digits `s` write in decimal.
pub open spec fn digits_value(s: Seq<u8>) -> nat
    decreases s.len(),
{
    if s.len() == 0 {
        0
    } else {
        digits_value(s.drop_last()) * 10 + (s.last() - 48) as nat
    }
}

/// The number written in `s`: one or more decimal digits whose value fits
/// in 64 bits.
pub open spec fn parse_decimal_spec(s: Seq<u8>) -> Option<u64> {
    if s.len() > 0 && all_digits(s) && digits_value(s) <= u64::MAX {
        Some(digits_value(s) as u64)
    } else {
        None
    }
}

pub proof fn lemma_decimal_digits(n: nat)
    ensures
        all_digits(decimal(n)),
        digits_value(decimal(n)) == n,
        decimal(n).len() > 0,
        !decimal(n).contains(0u8),
    decreases n,
{
    if n >= 10 {
        lemma_decimal_digits(n / 10);
        let d = decimal(n);
        assert(d.drop_last() =~= decimal(n / 10));
        assert(d.last() == (48 + n % 10) as u8);
        assert(n == (n / 10) * 10 + n % 10) by (nonlinear_arith);
        assert(digits_value(d) == digits_value(d.drop_last()) * 10 + (d.last() - 48) as nat);
        assert(digits_value(d) == (n / 10) * 10 + n % 10);
        assert forall|i: int| 0 <= i < d.len() implies 48 <= #[trigger] d[i] <= 57 by {
            if i < d.len() - 1 {
                assert(d[i] == decimal(n / 10)[i]);
            }
        }
    }
    else {
        assert(decimal(n).drop_last() =~= Seq::<u8>::empty());
        assert(digits_value(decimal(n)) == digits_value(decimal(n).drop_last()) * 10 + (decimal(n).last() - 48) as nat);
    }
    let d = decimal(n);
    if d.contains(0u8) {
        let i = choose|i: int| 0 <= i < d.len() && d[i] == 0u8;
        assert(48 <= d[i]);
    }
}

proof fn lemma_digits_prefix_grows(s: Seq<u8>, i: int)
    requires
        0 <= i <= s.len(),
        all_digits(s),
    ensures
        digits_value(s.take(i)) <= digits_value(s),
    decreases s.len() - i,
{
    if i < s.len() {
        lemma_digits_prefix_grows(s, i + 1);
        assert(s.take(i + 1).drop_last() =~= s.take(i));
        assert(48 <= s[i]);
    } else {
        assert(s.take(i) =~= s);
    }
}

/// Writes `n` in decimal.
pub fn format_decimal(n: u64) -> (r: Vec<u8>)
    ensures
        r@ == decimal(n as nat),
    decreases n,
{
    if n < 10 {
        vec![(48 + n) as u8]
    } else {
        let mut v = format_decimal(n / 10);
        v.push((48 + n % 10) as u8);
        v
    }
}

/// Reads a decimal number.
pub fn parse_decimal(s: &[u8]) -> (r: Option<u64>)
    ensures
        r == parse_decimal_spec(s@),
{
    if s.len() == 0 {
        return None;
    }
    let mut acc: u64 = 0;
    let mut i: usize = 0;
    while i < s.len()
        invariant
            0 <= i <= s@.len(),
            all_digits(s@.take(i as int)),
            acc as nat == digits_value(s@.take(i as int)),
        decreases s@.len() - i,
    {
        let c = s[i];
        if c < 48 || c > 57 {
            assert(!all_digits(s@));
            return None;
        }
        let d = (c - 48) as u64;
        assert(s@.take(i + 1).drop_last() =~= s@.take(i as int));
        if acc > (u64::MAX - d) / 10 {
            proof {
                assert(acc * 10 + d > u64::MAX) by (nonlinear_arith)
                    requires
                        acc > (u64::MAX - d) / 10,
                        d <= 9,
                ;
                assert(all_digits(s@.take(i + 1)));
                if all_digits(s@) {
                    lemma_digits_prefix_grows(s@, i + 1);
                }
            }
            return None;
        }
        assert(acc * 10 + d <= u64::MAX) by (nonlinear_arith)
            requires
                acc <= (u64::MAX - d) / 10,
                d <= 9,
        ;
        acc = acc * 10 + d;
        i = i + 1;
    }
    assert(s@.take(s@.len() as int) =~= s@);
    Some(acc)
}

/// The characters of `p` after its last `/`: the base name of a path.
pub open spec fn basename(p: Seq<char>) -> Seq<char>
    decreases p.len(),
{
    if p.len() == 0 {
        p
    } else if p.last() == '/' {
        Seq::empty()
    } else {
        basename(p.drop_last()).push(p.last())
    }
}

proof fn lemma_basename_at(p: Seq<char>, k: int)
    requires
        0 <= k <= p.len(),
        forall|j: int| k <= j < p.len() ==> p[j] != '/',
        k > 0 ==> p[k - 1] == '/',
    ensures
        basename(p) == p.skip(k),
    decreases p.len(),
{
    if p.len() > k {
        lemma_basename_at(p.drop_last(), k);
        assert(p.drop_last().skip(k).push(p.last()) =~= p.skip(k));
    } else if k > 0 {
        assert(p.skip(k) =~= Seq::<char>::empty());
    } else {
        assert(p.skip(k) =~= p);
    }
}

/// The base name of a path.
pub fn basename_of(p: &str) -> (r: String)
    ensures
        r@ == basename(p@),
{
    let n = p.unicode_len();
    let mut k: usize = n;
    while k > 0 && p.get_char(k - 1) != '/'
        invariant
            n == p@.len(),
            0 <= k <= n,
            forall|j: int| k <= j < n ==> p@[j] != '/',
        decreases k,
    {
        k = k - 1;
    }
    proof {
        lemma_basename_at(p@, k as int);
    }
    p.substring_char(k, n).to_string()
}

/// Relies on `String::from_utf8`: it succeeds exactly on valid UTF-8 and
/// then holds the characters that the bytes encode.
#[verifier::external_body]
pub(crate) fn string_from_utf8(b: Vec<u8>) -> (r: Option<String>)
    ensures
        r is Some <==> vstd::utf8::valid_utf8(b@),
        r matches Some(s) ==> s@ == vstd::utf8::decode_utf8(b@),
{
    String::from_utf8(b).ok()
}

/// Whether `s` holds a zero byte.
pub fn has_zero(s: &[u8]) -> (r: bool)
    ensures
        r == s@.contains(0u8),
{
    let mut i: usize = 0;
    while i < s.len()
        invariant
            0 <= i <= s@.len(),
            forall|j: int| 0 <= j < i ==> s@[j] != 0u8,
        decreases s@.len() - i,
    {
        if s[i] == 0u8 {
            assert(s@[i as int] == 0u8);
            return true;
        }
        i = i + 1;
    }
    false
}

} // verus!
