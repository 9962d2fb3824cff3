//! Byte-string helpers shared by the codec, the store and the commands:
//! decimal rendering and parsing, ASCII case folding, comparison.
use vstd::prelude::*;

verus! {

pub open spec fn is_digit(b: u8) -> bool {
    48 <= b <= 57
}

/// The ASCII digit for `d < 10`.
pub open spec fn digit_byte(d: nat) -> u8 {
    (48 + d) as u8
}

/// Decimal text of a natural number, without sign or leading zeros.
pub open spec fn decimal(n: nat) -> Seq<u8>
    decreases n,
{
    if n < 10 {
        seq![digit_byte(n)]
    } else {
        decimal(n / 10).push(digit_byte(n % 10))
    }
}

/// Decimal text of an integer: a `-` before the magnitude when negative.
pub open spec fn signed_decimal(n: int) -> Seq<u8> {
    if n < 0 {
        seq![45u8] + decimal((-n) as nat)
    } else {
        decimal(n as nat)
    }
}

pub open spec fn all_digits(s: Seq<u8>) -> bool {
    forall|i: int| 0 <= i < s.len() ==> is_digit(#[trigger] s[i])
}

/// The value of a string of decimal digits.
pub open spec fn digits_value(s: Seq<u8>) -> nat
    decreases s.len(),
{
    if s.len() == 0 {
        0
    } else {
        digits_value(s.drop_last()) * 10 + (s.last() - 48) as nat
    }
}

/// Digits only, at least one; the value may be of any size.
pub open spec fn is_unsigned_text(s: Seq<u8>) -> bool {
    s.len() > 0 && all_digits(s)
}

/// What an unsigned 64-bit number in text parses to: digits only (leading
/// zeros allowed), and a value that fits.
pub open spec fn unsigned_value(s: Seq<u8>) -> Option<u64> {
    if is_unsigned_text(s) && digits_value(s) <= u64::MAX {
        Some(digits_value(s) as u64)
    } else {
        None
    }
}

/// What an unsigned 64-bit number written for a person parses to: an
/// optional `+`, then digits (leading zeros allowed), with a value that fits.
pub open spec fn u64_value(s: Seq<u8>) -> Option<u64> {
    if s.len() > 0 && s[0] == 43u8 {
        unsigned_value(s.drop_first())
    } else {
        unsigned_value(s)
    }
}

/// Canonical decimal: digits only, and no leading zero unless the text is `0`.
pub open spec fn is_canonical_decimal(s: Seq<u8>) -> bool {
    is_unsigned_text(s) && (s[0] != 48u8 || s.len() == 1)
}

/// What a length header parses to: canonical decimal that fits in 64 bits.
pub open spec fn length_value(s: Seq<u8>) -> Option<u64> {
    if is_canonical_decimal(s) {
        unsigned_value(s)
    } else {
        None
    }
}

/// What a signed integer in text denotes: an optional `+` or `-`, then at
/// least one digit. The value may be of any size.
pub open spec fn signed_text_value(s: Seq<u8>) -> Option<int> {
    if s.len() > 0 && s[0] == 45u8 && is_unsigned_text(s.drop_first()) {
        Some(-(digits_value(s.drop_first()) as int))
    } else if s.len() > 0 && s[0] == 43u8 && is_unsigned_text(s.drop_first()) {
        Some(digits_value(s.drop_first()) as int)
    } else if is_unsigned_text(s) {
        Some(digits_value(s) as int)
    } else {
        None
    }
}

/// What a signed 64-bit number in text parses to.
pub open spec fn i64_value(s: Seq<u8>) -> Option<i64> {
    match signed_text_value(s) {
        Some(v) => if i64::MIN <= v <= i64::MAX {
            Some(v as i64)
        } else {
            None
        },
        None => None,
    }
}

pub open spec fn lower_byte(b: u8) -> u8 {
    if 65 <= b <= 90 {
        (b + 32) as u8
    } else {
        b
    }
}

/// ASCII lower case; bytes other than `A`..`Z` are kept.
pub open spec fn ascii_lower(s: Seq<u8>) -> Seq<u8> {
    s.map_values(|b: u8| lower_byte(b))
}

/// The contents of each byte vector.
pub open spec fn seqs_view(v: Seq<Vec<u8>>) -> Seq<Seq<u8>> {
    v.map_values(|x: Vec<u8>| x@)
}

pub open spec fn crlf() -> Seq<u8> {
    seq![13u8, 10u8]
}

pub proof fn lemma_decimal_digits(n: nat)
    ensures
        is_canonical_decimal(decimal(n)),
        decimal(n)[0] == 48u8 ==> n == 0,
        digits_value(decimal(n)) == n,
        forall|i: int| 0 <= i < decimal(n).len() ==> #[trigger] decimal(n)[i] != 13u8,
    decreases n,
{
    let s = decimal(n);
    if n < 10 {
        assert(s.drop_last() =~= Seq::<u8>::empty());
        assert(digits_value(s.drop_last()) == 0);
    } else {
        lemma_decimal_digits(n / 10);
        let p = decimal(n / 10);
        assert(s.drop_last() =~= p);
        assert(s[0] == p[0]);
        assert(s.last() == digit_byte(n % 10));
        assert(digits_value(s) == digits_value(p) * 10 + (n % 10));
        assert(n == (n / 10) * 10 + n % 10);
        assert(all_digits(s)) by {
            assert forall|i: int| 0 <= i < s.len() implies is_digit(#[trigger] s[i]) by {
                if i < p.len() {
                    assert(s[i] == p[i]);
                }
            }
        }
    }
}

/// A longer run of digits is worth at least as much as its prefix.
pub proof fn lemma_digits_prefix_monotone(s: Seq<u8>, k: int)
    requires
        all_digits(s),
        0 <= k <= s.len(),
    ensures
        digits_value(s.subrange(0, k)) <= digits_value(s),
    decreases s.len() - k,
{
    if k < s.len() {
        lemma_digits_prefix_monotone(s, k + 1);
        let t = s.subrange(0, k + 1);
        assert(t.drop_last() =~= s.subrange(0, k));
        assert(is_digit(s[k]));
        assert(digits_value(t) == digits_value(s.subrange(0, k)) * 10 + (t.last() - 48) as nat);
    } else {
        assert(s.subrange(0, k) =~= s);
    }
}

/// Decimal text of `n`.
pub fn decimal_bytes(n: u64) -> (r: Vec<u8>)
    ensures
        r@ == decimal(n as nat),
    decreases n,
{
    if n < 10 {
        vec![(48 + n) as u8]
    } else {
        let mut r = decimal_bytes(n / 10);
        r.push((48 + n % 10) as u8);
        r
    }
}

/// Decimal text of `n`, with a leading `-` when negative.
pub fn signed_decimal_bytes(n: i64) -> (r: Vec<u8>)
    ensures
        r@ == signed_decimal(n as int),
{
    if n < 0 {
        let magnitude: u64 = if n == i64::MIN {
            9223372036854775808u64
        } else {
            (-n) as u64
        };
        let mut r = vec![45u8];
        let mut digits = decimal_bytes(magnitude);
        r.append(&mut digits);
        r
    } else {
        decimal_bytes(n as u64)
    }
}

/// Reads digits only; `None` when `s` is empty, holds another byte, or
/// exceeds `u64::MAX`.
pub fn parse_unsigned(s: &[u8]) -> (r: Option<u64>)
    ensures
        r == unsigned_value(s@),
{
    if s.len() == 0 {
        return None;
    }
    let mut value: u64 = 0;
    let mut i: usize = 0;
    while i < s.len()
        invariant
            0 <= i <= s@.len(),
            all_digits(s@.subrange(0, i as int)),
            value == digits_value(s@.subrange(0, i as int)),
        decreases s@.len() - i,
    {
        let b = s[i];
        assert(s@.subrange(0, i + 1).drop_last() =~= s@.subrange(0, i as int));
        if b < 48 || b > 57 {
            assert(!all_digits(s@));
            return None;
        }
        let d = (b - 48) as u64;
        if value > (u64::MAX - d) / 10 {
            proof {
                assert(all_digits(s@.subrange(0, i + 1)));
                assert(digits_value(s@.subrange(0, i + 1)) > u64::MAX) by (nonlinear_arith)
                    requires
                        value > (u64::MAX - d) / 10,
                        digits_value(s@.subrange(0, i + 1)) == value * 10 + d,
                        0 <= d <= 9,
                ;
                if all_digits(s@) {
                    lemma_digits_prefix_monotone(s@, i + 1);
                }
            }
            return None;
        }
        value = value * 10 + d;
        i = i + 1;
    }
    assert(s@.subrange(0, s@.len() as int) =~= s@);
    Some(value)
}

/// Reads an unsigned 64-bit number: an optional `+`, then digits.
pub fn parse_u64(s: &[u8]) -> (r: Option<u64>)
    ensures
        r == u64_value(s@),
{
    if s.len() > 0 && s[0] == 43u8 {
        let digits = vstd::slice::slice_subrange(s, 1, s.len());
        assert(digits@ =~= s@.drop_first());
        parse_unsigned(digits)
    } else {
        parse_unsigned(s)
    }
}

/// Reads a length header: canonical decimal that fits in 64 bits.
pub fn parse_length(s: &[u8]) -> (r: Option<u64>)
    ensures
        r == length_value(s@),
{
    if s.len() > 1 && s[0] == 48u8 {
        return None;
    }
    parse_unsigned(s)
}

/// Reads a signed 64-bit integer: an optional sign, then digits.
pub fn parse_i64(s: &[u8]) -> (r: Option<i64>)
    ensures
        r == i64_value(s@),
{
    let negative = s.len() > 0 && s[0] == 45u8;
    let signed = s.len() > 0 && (s[0] == 45u8 || s[0] == 43u8);
    let digits = if signed {
        vstd::slice::slice_subrange(s, 1, s.len())
    } else {
        s
    };
    proof {
        if signed {
            assert(digits@ =~= s@.drop_first());
        }
    }
    match parse_unsigned(digits) {
        None => {
            proof {
                if !signed && is_unsigned_text(s@) {
                    assert(digits_value(s@) > u64::MAX);
                } else if signed && is_unsigned_text(s@.drop_first()) {
                    assert(digits_value(s@.drop_first()) > u64::MAX);
                }
            }
            None
        },
        Some(m) => {
            if negative {
                if m > 9223372036854775808u64 {
                    None
                } else if m == 9223372036854775808u64 {
                    Some(i64::MIN)
                } else {
                    Some(-(m as i64))
                }
            } else if m > 9223372036854775807u64 {
                None
            } else {
                Some(m as i64)
            }
        },
    }
}

/// ASCII lower case of `s`.
pub fn to_ascii_lower(s: &[u8]) -> (r: Vec<u8>)
    ensures
        r@ == ascii_lower(s@),
{
    let mut r: Vec<u8> = Vec::new();
    let mut i: usize = 0;
    while i < s.len()
        invariant
            0 <= i <= s@.len(),
            r@ =~= ascii_lower(s@.subrange(0, i as int)),
        decreases s@.len() - i,
    {
        let b = s[i];
        let l = if 65 <= b && b <= 90 {
            b + 32
        } else {
            b
        };
        r.push(l);
        i = i + 1;
        assert(r@ =~= ascii_lower(s@.subrange(0, i as int)));
    }
    assert(s@.subrange(0, s@.len() as int) =~= s@);
    r
}

/// Byte-wise equality.
pub fn bytes_eq(a: &[u8], b: &[u8]) -> (r: bool)
    ensures
        r == (a@ == b@),
{
    if a.len() != b.len() {
        return false;
    }
    let mut i: usize = 0;
    while i < a.len()
        invariant
            0 <= i <= a@.len(),
            a@.len() == b@.len(),
            forall|j: int| 0 <= j < i ==> a@[j] == b@[j],
        decreases a@.len() - i,
    {
        if a[i] != b[i] {
            return false;
        }
        i = i + 1;
    }
    assert(a@ =~= b@);
    true
}

/// Appends `s` to the end of `out`.
pub fn push_all(out: &mut Vec<u8>, s: &[u8])
    ensures
        final(out)@ == old(out)@ + s@,
{
    let mut tail = vstd::slice::slice_to_vec(s);
    out.append(&mut tail);
}

} // verus!
