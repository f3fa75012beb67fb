use vstd::prelude::*;
use vstd::string::StringExecFns;
use crate::cell::char_text;

verus! {

/// The decimal digit character of `d < 10`.
pub open spec fn digit_char(d: nat) -> char {
    ((d + 48) as u8) as char
}

/// The lowercase hexadecimal digit character of `d < 16`.
pub open spec fn hex_char(d: nat) -> char {
    if d < 10 {
        ((d + 48) as u8) as char
    } else {
        ((d + 87) as u8) as char
    }
}

/// The decimal representation of `n`, without leading zeros.
pub open spec fn decimal(n: nat) -> Seq<char>
    decreases n,
{
    if n < 10 {
        seq![digit_char(n)]
    } else {
        decimal(n / 10).push(digit_char(n % 10))
    }
}

/// The two lowercase hexadecimal digits of a byte.
pub open spec fn hex_pair(b: u8) -> Seq<char> {
    seq![hex_char(b as nat / 16), hex_char(b as nat % 16)]
}

/// `"0"` right-aligned in a field of `len` columns.
pub open spec fn padded_zero(len: nat) -> Seq<char> {
    Seq::new((len - 1) as nat, |i: int| ' ').push('0')
}

/// Bytes shown as their own glyph: ASCII that is neither control nor whitespace.
pub open spec fn is_printable(b: u8) -> bool {
    0x21 <= b <= 0x7e
}

/// A decimal text is never empty, and a number below `10^k` has at most `k` digits.
pub proof fn lemma_decimal_len(n: nat, k: nat)
    requires
        k >= 1,
        n < pow10(k),
    ensures
        1 <= decimal(n).len() <= k,
    decreases n,
{
    if n >= 10 {
        assert(k >= 2) by {
            if k == 1 {
                assert(pow10(1) == 10) by {
                    reveal_with_fuel(pow10, 2);
                }
            }
        }
        assert(n / 10 < pow10((k - 1) as nat));
        lemma_decimal_len(n / 10, (k - 1) as nat);
    }
}

pub open spec fn pow10(k: nat) -> nat
    decreases k,
{
    if k == 0 {
        1
    } else {
        10 * pow10((k - 1) as nat)
    }
}

/// Every `u64` has at most 20 decimal digits.
pub proof fn lemma_u64_decimal_len(n: u64)
    ensures
        1 <= decimal(n as nat).len() <= 20,
{
    assert(pow10(20) == 100_000_000_000_000_000_000) by {
        reveal_with_fuel(pow10, 21);
    }
    lemma_decimal_len(n as nat, 20);
}

/// The number of decimal digits of `n`.
pub fn decimal_len(n: u64) -> (r: usize)
    ensures
        r == decimal(n as nat).len(),
    decreases n,
{
    proof {
        lemma_u64_decimal_len(n);
    }
    if n < 10 {
        1
    } else {
        decimal_len(n / 10) + 1
    }
}

fn digit_text(d: u64) -> (r: String)
    requires
        d < 10,
    ensures
        r@ == seq![digit_char(d as nat)],
{
    char_text(((d + 48) as u8) as char)
}

/// The decimal text of `n`.
pub fn decimal_label(n: u64) -> (r: String)
    ensures
        r@ == decimal(n as nat),
    decreases n,
{
    if n < 10 {
        digit_text(n)
    } else {
        let head = decimal_label(n / 10);
        let tail = digit_text(n % 10);
        head.concat(tail.as_str())
    }
}

/// The two-digit lowercase hexadecimal text of `b`.
pub fn hex_label(b: u8) -> (r: String)
    ensures
        r@ == hex_pair(b),
{
    let hi: u8 = b / 16;
    let lo: u8 = b % 16;
    let hi_c = if hi < 10 { ((hi + 48) as u8) as char } else { ((hi + 87) as u8) as char };
    let lo_c = if lo < 10 { ((lo + 48) as u8) as char } else { ((lo + 87) as u8) as char };
    let r = char_text(hi_c).concat(char_text(lo_c).as_str());
    proof {
        assert(r@ =~= hex_pair(b));
    }
    r
}

/// `"0"` right-aligned in a field of `len` columns.
pub fn zero_label(len: usize) -> (r: String)
    requires
        len >= 1,
    ensures
        r@ == padded_zero(len as nat),
{
    let mut r = String::new();
    let mut i: usize = 1;
    while i < len
        invariant
            1 <= i <= len,
            r@ == Seq::new((i - 1) as nat, |k: int| ' '),
        decreases len - i,
    {
        r = r.concat(char_text(' ').as_str());
        proof {
            assert(r@ =~= Seq::new(i as nat, |k: int| ' '));
        }
        i = i + 1;
    }
    let r = r.concat(char_text('0').as_str());
    proof {
        assert(r@ =~= padded_zero(len as nat));
    }
    r
}

/// The glyph of a printable byte, or `None`.
pub fn printable_char(b: u8) -> (r: Option<char>)
    ensures
        r == (if is_printable(b) {
            Some(b as char)
        } else {
            None::<char>
        }),
{
    if 0x21 <= b && b <= 0x7e {
        Some(b as char)
    } else {
        None
    }
}

} // verus!
