//! Shared helpers for working with strings at the character level.

use vstd::prelude::*;

verus! {

/// The decimal digit characters in order, so that `spec_digits()[d]` is the
/// character for digit value `d`.
pub open spec fn spec_digits() -> Seq<char> {
    "0123456789"@
}

/// Decimal representation of a natural number, most significant digit first.
pub open spec fn dec_of(n: nat) -> Seq<char>
    decreases n,
{
    if n < 10 {
        seq![spec_digits()[n as int]]
    } else {
        dec_of(n / 10) + seq![spec_digits()[(n % 10) as int]]
    }
}

/// Decimal representation of a signed number: a leading '-' for negatives.
pub open spec fn dec_of_i32(n: int) -> Seq<char> {
    if n < 0 {
        seq!['-'] + dec_of((-n) as nat)
    } else {
        dec_of(n as nat)
    }
}

/// What `str::to_lowercase` returns: a function of the characters alone.
pub uninterp spec fn lower_of(s: Seq<char>) -> Seq<char>;

/// What `str::to_uppercase` returns: a function of the characters alone.
pub uninterp spec fn upper_of(s: Seq<char>) -> Seq<char>;

/// Relies on `str::to_lowercase`: the result depends on the characters
/// alone, and an empty string stays empty.
#[verifier::external_body]
pub(crate) fn to_lowercase_str(s: &str) -> (r: String)
    ensures
        r@ == lower_of(s@),
        s@.len() == 0 ==> r@.len() == 0,
{
    s.to_lowercase()
}

/// Relies on `str::to_uppercase`: the result depends on the characters
/// alone, and an empty string stays empty.
#[verifier::external_body]
pub(crate) fn to_uppercase_str(s: &str) -> (r: String)
    ensures
        r@ == upper_of(s@),
        s@.len() == 0 ==> r@.len() == 0,
{
    s.to_uppercase()
}

/// Collects the characters of a string slice into a vector.
pub fn str_to_chars(s: &str) -> (r: Vec<char>)
    ensures
        r@ == s@,
{
    let n = s.unicode_len();
    let mut r: Vec<char> = Vec::with_capacity(n);
    let mut i: usize = 0;
    while i < n
        invariant
            i <= n,
            n == s@.len(),
            r@ == s@.take(i as int),
        decreases n - i,
    {
        let c = s.get_char(i);
        r.push(c);
        proof {
            assert(s@.take(i + 1) =~= s@.take(i as int).push(s@[i as int]));
        }
        i = i + 1;
    }
    proof {
        assert(r@ =~= s@);
    }
    r
}

/// Character-for-character equality of two string slices.
pub fn str_eq(a: &str, b: &str) -> (r: bool)
    ensures
        r == (a@ == b@),
{
    let n = a.unicode_len();
    let m = b.unicode_len();
    if n != m {
        return false;
    }
    let mut i: usize = 0;
    while i < n
        invariant
            i <= n,
            n == a@.len(),
            n == b@.len(),
            forall|j: int| 0 <= j < i ==> a@[j] == b@[j],
        decreases n - i,
    {
        if a.get_char(i) != b.get_char(i) {
            return false;
        }
        i = i + 1;
    }
    proof {
        assert(a@ =~= b@);
    }
    true
}

/// A one-character string for a single decimal digit.
pub fn digit_string(d: u8) -> (r: String)
    requires
        d < 10,
    ensures
        r@ == seq![spec_digits()[d as int]],
{
    let s = "0123456789";
    proof {
        reveal_strlit("0123456789");
    }
    let c = s.substring_char(d as usize, d as usize + 1);
    proof {
        assert(c@ =~= seq![spec_digits()[d as int]]);
    }
    String::from_str(c)
}

/// Renders a `u32` in decimal.
pub fn u32_to_string(n: u32) -> (r: String)
    ensures
        r@ == dec_of(n as nat),
    decreases n,
{
    if n < 10 {
        digit_string(n as u8)
    } else {
        let mut r = u32_to_string(n / 10);
        let d = digit_string((n % 10) as u8);
        r.append(d.as_str());
        r
    }
}

/// Renders a `usize` in decimal.
pub fn usize_to_string(n: usize) -> (r: String)
    ensures
        r@ == dec_of(n as nat),
    decreases n,
{
    if n < 10 {
        digit_string(n as u8)
    } else {
        let mut r = usize_to_string(n / 10);
        let d = digit_string((n % 10) as u8);
        r.append(d.as_str());
        r
    }
}

/// Renders an `i32` in decimal, with a leading '-' for negative values.
pub fn i32_to_string(n: i32) -> (r: String)
    ensures
        r@ == dec_of_i32(n as int),
{
    if n < 0 {
        let mag = (-(n as i64)) as u32;
        let mut r = String::from_str("-");
        proof {
            reveal_strlit("-");
            assert(r@ =~= seq!['-']);
        }
        let digits = u32_to_string(mag);
        r.append(digits.as_str());
        r
    } else {
        u32_to_string(n as u32)
    }
}

} // verus!
