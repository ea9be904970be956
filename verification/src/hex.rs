//! The 128-bit device identifier: a run of 32 hex digits with no separators.
//!
//! `parse_hex32` reads such a string into the identifier value and
//! `format_hex32` writes the value back out in lowercase; the round trip is
//! proved in `lemma_identity_round_trip`.

use vstd::arithmetic::div_mod::{lemma_breakdown, lemma_small_mod};
use vstd::arithmetic::power::{lemma_pow0, lemma_pow1, lemma_pow_adds, lemma_pow_increases, pow};
use vstd::prelude::*;

verus! {

/// A hex digit: `0`-`9`, `a`-`f` or `A`-`F`.
pub open spec fn is_hex_digit(c: char) -> bool {
    let u = c as u32;
    (48 <= u && u <= 57) || (97 <= u && u <= 102) || (65 <= u && u <= 70)
}

/// The value of one hex digit (0 for a character that is none).
pub open spec fn hex_val(c: char) -> int {
    let u = c as u32;
    if 48 <= u && u <= 57 {
        u - 48
    } else if 97 <= u && u <= 102 {
        u - 87
    } else if 65 <= u && u <= 70 {
        u - 55
    } else {
        0
    }
}

/// The number a big-endian run of hex digits denotes.
pub open spec fn hex_value_of(s: Seq<char>) -> int
    decreases s.len(),
{
    if s.len() == 0 {
        0
    } else {
        hex_value_of(s.drop_last()) * 16 + hex_val(s.last())
    }
}

/// A well-formed identifier string: exactly 32 hex digits.
pub open spec fn is_hex32(s: Seq<char>) -> bool {
    s.len() == 32 && forall|i: int| 0 <= i < s.len() ==> is_hex_digit(#[trigger] s[i])
}

/// The lowercase digit character for a value below 16.
pub open spec fn hex_char_of(d: int) -> char {
    if d == 0 { '0' } else if d == 1 { '1' } else if d == 2 { '2' } else if d == 3 { '3' }
    else if d == 4 { '4' } else if d == 5 { '5' } else if d == 6 { '6' } else if d == 7 { '7' }
    else if d == 8 { '8' } else if d == 9 { '9' } else if d == 10 { 'a' } else if d == 11 { 'b' }
    else if d == 12 { 'c' } else if d == 13 { 'd' } else if d == 14 { 'e' } else { 'f' }
}

/// The `n` lowest nibbles of `v`, written big-endian in lowercase hex.
pub open spec fn hex_str_of(v: int, n: nat) -> Seq<char>
    decreases n,
{
    if n == 0 {
        Seq::empty()
    } else {
        hex_str_of(v / 16, (n - 1) as nat).push(hex_char_of(v % 16))
    }
}

/// `16^32` is exactly one more than the largest 128-bit value.
proof fn lemma_pow16_32()
    ensures
        pow(16, 32) == 0x100000000000000000000000000000000,
{
    lemma_pow1(16);
    lemma_pow_adds(16, 1, 1);
    assert(pow(16, 2) == 0x100);
    lemma_pow_adds(16, 2, 2);
    assert(pow(16, 4) == 0x10000);
    lemma_pow_adds(16, 4, 4);
    assert(pow(16, 8) == 0x100000000);
    lemma_pow_adds(16, 8, 8);
    assert(pow(16, 16) == 0x10000000000000000);
    lemma_pow_adds(16, 16, 16);
}

/// One more digit multiplies the weight of the run by 16.
proof fn lemma_pow16_step(n: nat)
    requires
        n >= 1,
    ensures
        pow(16, n) == 16 * pow(16, (n - 1) as nat),
{
    lemma_pow1(16);
    lemma_pow_adds(16, 1, (n - 1) as nat);
}

proof fn lemma_hex_char_val(d: int)
    requires
        0 <= d < 16,
    ensures
        is_hex_digit(hex_char_of(d)),
        hex_val(hex_char_of(d)) == d,
{
}

/// `hex_str_of` writes `n` hex digits whose value is `v` modulo `16^n`.
pub proof fn lemma_hex_str_of_value(v: int, n: nat)
    requires
        0 <= v,
    ensures
        hex_str_of(v, n).len() == n,
        forall|i: int| 0 <= i < n ==> is_hex_digit(#[trigger] hex_str_of(v, n)[i]),
        hex_value_of(hex_str_of(v, n)) == v % pow(16, n),
    decreases n,
{
    if n == 0 {
        lemma_pow0(16);
        lemma_small_mod(0, 1);
    } else {
        let rest = hex_str_of(v / 16, (n - 1) as nat);
        let whole = hex_str_of(v, n);
        lemma_hex_str_of_value(v / 16, (n - 1) as nat);
        lemma_hex_char_val(v % 16);
        assert(whole.drop_last() =~= rest);
        assert(whole.last() == hex_char_of(v % 16));
        vstd::arithmetic::power::lemma_pow_positive(16, (n - 1) as nat);
        lemma_breakdown(v, 16, pow(16, (n - 1) as nat));
        lemma_pow16_step(n);
        assert(forall|i: int| 0 <= i < n - 1 ==> whole[i] == #[trigger] rest[i]);
    }
}

/// The value of a digit run extended by one digit on the right.
proof fn lemma_hex_value_push(s: Seq<char>, c: char)
    ensures
        hex_value_of(s.push(c)) == hex_value_of(s) * 16 + hex_val(c),
{
    assert(s.push(c).drop_last() =~= s);
    assert(s.push(c).last() == c);
}

/// The digit value of one character, `None` when it is not a hex digit.
fn hex_digit_of(c: char) -> (r: Option<u8>)
    ensures
        r is Some <==> is_hex_digit(c),
        r is Some ==> r.unwrap() as int == hex_val(c),
{
    let u = c as u32;
    if 48 <= u && u <= 57 {
        Some((u - 48) as u8)
    } else if 97 <= u && u <= 102 {
        Some((u - 87) as u8)
    } else if 65 <= u && u <= 70 {
        Some((u - 55) as u8)
    } else {
        None
    }
}

/// Parses a 128-bit identifier out of exactly 32 hex digits.
///
/// Succeeds on precisely the well-formed identifier strings and returns the
/// number the digits denote.
pub fn parse_hex32(s: &str) -> (r: Option<u128>)
    ensures
        r is Some <==> is_hex32(s@),
        r is Some ==> r.unwrap() as int == hex_value_of(s@),
{
    let n = s.unicode_len();
    if n != 32 {
        return None;
    }
    let mut acc: u128 = 0;
    let mut i: usize = 0;
    proof {
        lemma_pow0(16);
        assert(s@.subrange(0, 0) =~= Seq::<char>::empty());
    }
    while i < 32
        invariant
            s@.len() == 32,
            0 <= i <= 32,
            forall|j: int| 0 <= j < i ==> is_hex_digit(#[trigger] s@[j]),
            acc as int == hex_value_of(s@.subrange(0, i as int)),
            (acc as int) < pow(16, i as nat),
        decreases 32 - i,
    {
        let c = s.get_char(i);
        match hex_digit_of(c) {
            None => {
                return None;
            },
            Some(d) => {
                proof {
                    let prefix = s@.subrange(0, i as int);
                    let next = s@.subrange(0, i as int + 1);
                    assert(next =~= prefix.push(s@[i as int]));
                    lemma_hex_value_push(prefix, s@[i as int]);
                    lemma_pow16_step((i + 1) as nat);
                    lemma_pow_increases(16, (i + 1) as nat, 32);
                    lemma_pow16_32();
                }
                acc = acc * 16 + (d as u128);
            },
        }
        i += 1;
    }
    proof {
        assert(s@.subrange(0, 32) =~= s@);
    }
    Some(acc)
}

/// One lowercase hex digit as a string slice.
fn hex_digit_str(d: u8) -> (r: &'static str)
    requires
        d < 16,
    ensures
        r@.len() == 1,
        r@[0] == hex_char_of(d as int),
{
    proof {
        reveal_strlit("0");
        reveal_strlit("1");
        reveal_strlit("2");
        reveal_strlit("3");
        reveal_strlit("4");
        reveal_strlit("5");
        reveal_strlit("6");
        reveal_strlit("7");
        reveal_strlit("8");
        reveal_strlit("9");
        reveal_strlit("a");
        reveal_strlit("b");
        reveal_strlit("c");
        reveal_strlit("d");
        reveal_strlit("e");
        reveal_strlit("f");
    }
    if d == 0 { "0" } else if d == 1 { "1" } else if d == 2 { "2" } else if d == 3 { "3" }
    else if d == 4 { "4" } else if d == 5 { "5" } else if d == 6 { "6" } else if d == 7 { "7" }
    else if d == 8 { "8" } else if d == 9 { "9" } else if d == 10 { "a" } else if d == 11 { "b" }
    else if d == 12 { "c" } else if d == 13 { "d" } else if d == 14 { "e" } else { "f" }
}

fn format_hex_rec(v: u128, n: usize) -> (r: String)
    ensures
        r@ == hex_str_of(v as int, n as nat),
    decreases n,
{
    if n == 0 {
        String::new()
    } else {
        let mut s = format_hex_rec(v / 16, n - 1);
        let d: u8 = (v % 16) as u8;
        let digit = hex_digit_str(d);
        s.append(digit);
        proof {
            assert(s@ =~= hex_str_of((v / 16) as int, (n - 1) as nat).push(
                hex_char_of(v as int % 16),
            ));
        }
        s
    }
}

/// Writes a 128-bit identifier as its 32 lowercase hex digits.
pub fn format_hex32(v: u128) -> (r: String)
    ensures
        r@ == hex_str_of(v as int, 32),
        is_hex32(r@),
        hex_value_of(r@) == v as int,
{
    let s = format_hex_rec(v, 32);
    proof {
        lemma_hex_str_of_value(v as int, 32);
        lemma_pow16_32();
        lemma_small_mod(v as nat, pow(16, 32) as nat);
    }
    s
}

/// Every 128-bit value written out as 32 hex digits reads back as itself:
/// the identifier round-trips through its string form.
pub proof fn lemma_identity_round_trip(v: u128)
    ensures
        is_hex32(hex_str_of(v as int, 32)),
        hex_value_of(hex_str_of(v as int, 32)) == v as int,
{
    lemma_hex_str_of_value(v as int, 32);
    lemma_pow16_32();
    lemma_small_mod(v as nat, pow(16, 32) as nat);
}

} // verus!
