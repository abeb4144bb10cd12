//! Fixed-width hexadecimal encoding of candidate scalars, hexadecimal
//! parsing of configured range bounds, and decimal rendering for reports.

use vstd::prelude::*;

verus! {

/// Width, in hex digits, of an encoded candidate scalar: 256 bits, zero padded.
pub const KEY_HEX_WIDTH: usize = 64;

/// The lower-case character for one hex digit value; total over `0..16`.
pub open spec fn hex_char(d: int) -> char {
    if d == 0 {
        '0'
    } else if d == 1 {
        '1'
    } else if d == 2 {
        '2'
    } else if d == 3 {
        '3'
    } else if d == 4 {
        '4'
    } else if d == 5 {
        '5'
    } else if d == 6 {
        '6'
    } else if d == 7 {
        '7'
    } else if d == 8 {
        '8'
    } else if d == 9 {
        '9'
    } else if d == 10 {
        'a'
    } else if d == 11 {
        'b'
    } else if d == 12 {
        'c'
    } else if d == 13 {
        'd'
    } else if d == 14 {
        'e'
    } else {
        'f'
    }
}

/// The numeric value of a hex digit character, `-1` if it is not one.
pub open spec fn hex_val(c: char) -> int {
    if c == '0' {
        0
    } else if c == '1' {
        1
    } else if c == '2' {
        2
    } else if c == '3' {
        3
    } else if c == '4' {
        4
    } else if c == '5' {
        5
    } else if c == '6' {
        6
    } else if c == '7' {
        7
    } else if c == '8' {
        8
    } else if c == '9' {
        9
    } else if c == 'a' || c == 'A' {
        10
    } else if c == 'b' || c == 'B' {
        11
    } else if c == 'c' || c == 'C' {
        12
    } else if c == 'd' || c == 'D' {
        13
    } else if c == 'e' || c == 'E' {
        14
    } else if c == 'f' || c == 'F' {
        15
    } else {
        -1
    }
}

pub open spec fn is_hex_digit(c: char) -> bool {
    hex_val(c) >= 0
}

pub open spec fn all_hex_digits(s: Seq<char>) -> bool {
    forall|i: int| 0 <= i < s.len() ==> is_hex_digit(#[trigger] s[i])
}

/// Big-endian, fixed-width hex digit string of `v mod 16^n`.
pub open spec fn hex_digits(v: int, n: nat) -> Seq<char>
    decreases n,
{
    if n == 0 {
        Seq::empty()
    } else {
        hex_digits(v / 16, (n - 1) as nat).push(hex_char(v % 16))
    }
}

/// The numeric value of a big-endian hex digit string.
pub open spec fn hex_value(s: Seq<char>) -> int
    decreases s.len(),
{
    if s.len() == 0 {
        0
    } else {
        hex_value(s.drop_last()) * 16 + hex_val(s.last())
    }
}

/// What parsing a hex string into a 128-bit scalar yields: the digits' value
/// when the string is non-empty, made of hex digits only, and in range.
pub open spec fn parse_hex_spec(s: Seq<char>) -> Option<u128> {
    if s.len() > 0 && all_hex_digits(s) && hex_value(s) <= u128::MAX {
        Some(hex_value(s) as u128)
    } else {
        None
    }
}

/// The fixed-width encoding of a candidate scalar, as a spec-level sequence.
#[verifier::opaque]
pub open spec fn key_hex_spec(v: u128) -> Seq<char> {
    hex_digits(v as int, KEY_HEX_WIDTH as nat)
}

/// Appends the character for one hex digit value.
fn push_hex_digit(s: &mut String, d: u8)
    requires
        d < 16,
    ensures
        final(s)@ == old(s)@.push(hex_char(d as int)),
{
    if d == 0 {
        s.append("0");
        proof {
            reveal_strlit("0");
            assert(s@ =~= old(s)@.push(hex_char(d as int)));
        }
    } else if d == 1 {
        s.append("1");
        proof {
            reveal_strlit("1");
            assert(s@ =~= old(s)@.push(hex_char(d as int)));
        }
    } else if d == 2 {
        s.append("2");
        proof {
            reveal_strlit("2");
            assert(s@ =~= old(s)@.push(hex_char(d as int)));
        }
    } else if d == 3 {
        s.append("3");
        proof {
            reveal_strlit("3");
            assert(s@ =~= old(s)@.push(hex_char(d as int)));
        }
    } else if d == 4 {
        s.append("4");
        proof {
            reveal_strlit("4");
            assert(s@ =~= old(s)@.push(hex_char(d as int)));
        }
    } else if d == 5 {
        s.append("5");
        proof {
            reveal_strlit("5");
            assert(s@ =~= old(s)@.push(hex_char(d as int)));
        }
    } else if d == 6 {
        s.append("6");
        proof {
            reveal_strlit("6");
            assert(s@ =~= old(s)@.push(hex_char(d as int)));
        }
    } else if d == 7 {
        s.append("7");
        proof {
            reveal_strlit("7");
            assert(s@ =~= old(s)@.push(hex_char(d as int)));
        }
    } else if d == 8 {
        s.append("8");
        proof {
            reveal_strlit("8");
            assert(s@ =~= old(s)@.push(hex_char(d as int)));
        }
    } else if d == 9 {
        s.append("9");
        proof {
            reveal_strlit("9");
            assert(s@ =~= old(s)@.push(hex_char(d as int)));
        }
    } else if d == 10 {
        s.append("a");
        proof {
            reveal_strlit("a");
            assert(s@ =~= old(s)@.push(hex_char(d as int)));
        }
    } else if d == 11 {
        s.append("b");
        proof {
            reveal_strlit("b");
            assert(s@ =~= old(s)@.push(hex_char(d as int)));
        }
    } else if d == 12 {
        s.append("c");
        proof {
            reveal_strlit("c");
            assert(s@ =~= old(s)@.push(hex_char(d as int)));
        }
    } else if d == 13 {
        s.append("d");
        proof {
            reveal_strlit("d");
            assert(s@ =~= old(s)@.push(hex_char(d as int)));
        }
    } else if d == 14 {
        s.append("e");
        proof {
            reveal_strlit("e");
            assert(s@ =~= old(s)@.push(hex_char(d as int)));
        }
    } else {
        s.append("f");
        proof {
            reveal_strlit("f");
            assert(s@ =~= old(s)@.push(hex_char(d as int)));
        }
    }
}

/// Big-endian hex rendering of `v`, zero padded to exactly `width` digits.
/// Digits beyond the given width are cut off; every caller in this crate
/// keeps `v` below `16^width`.
pub fn hex_string_fixed(v: u128, width: usize) -> (r: String)
    ensures
        r@ == hex_digits(v as int, width as nat),
        r@.len() == width,
    decreases width,
{
    if width == 0 {
        String::new()
    } else {
        let mut s = hex_string_fixed(v / 16, width - 1);
        push_hex_digit(&mut s, (v % 16) as u8);
        s
    }
}

/// The fixed-width encoding handed to the address-derivation collaborator.
pub fn key_hex(v: u128) -> (r: String)
    ensures
        r@ == key_hex_spec(v),
        r@.len() == KEY_HEX_WIDTH,
{
    proof {
        reveal(key_hex_spec);
    }
    hex_string_fixed(v, KEY_HEX_WIDTH)
}

/// Decimal digit string of `v`, most significant digit first, no padding.
pub open spec fn dec_str(v: nat) -> Seq<char>
    decreases v,
{
    if v < 10 {
        seq![hex_char(v as int)]
    } else {
        dec_str(v / 10).push(hex_char((v % 10) as int))
    }
}

/// Appends the character for one decimal digit value.
pub fn push_digit_char(s: &mut String, d: u8)
    requires
        d < 10,
    ensures
        final(s)@ == old(s)@.push(hex_char(d as int)),
{
    push_hex_digit(s, d);
}

/// Big-endian, fixed-width decimal digit string of `v mod 10^n`.
pub open spec fn dec_digits_fixed(v: int, n: nat) -> Seq<char>
    decreases n,
{
    if n == 0 {
        Seq::empty()
    } else {
        dec_digits_fixed(v / 10, (n - 1) as nat).push(hex_char(v % 10))
    }
}

/// Decimal rendering of `v`, zero padded to exactly `width` digits; digits
/// beyond the width are cut off.
pub fn dec_string_fixed(v: u128, width: usize) -> (r: String)
    ensures
        r@ == dec_digits_fixed(v as int, width as nat),
        r@.len() == width,
    decreases width,
{
    if width == 0 {
        String::new()
    } else {
        let mut s = dec_string_fixed(v / 10, width - 1);
        push_hex_digit(&mut s, (v % 10) as u8);
        s
    }
}

/// Decimal rendering of `v` for human-readable reports.
pub fn dec_string_u128(v: u128) -> (r: String)
    ensures
        r@ == dec_str(v as nat),
    decreases v,
{
    if v < 10 {
        let mut s = String::new();
        push_hex_digit(&mut s, v as u8);
        proof {
            assert(s@ =~= seq![hex_char(v as int)]);
        }
        s
    } else {
        let mut s = dec_string_u128(v / 10);
        push_hex_digit(&mut s, (v % 10) as u8);
        s
    }
}

/// The value of an all-hex-digit string is never negative.
proof fn lemma_hex_value_nonneg(s: Seq<char>)
    requires
        all_hex_digits(s),
    ensures
        hex_value(s) >= 0,
    decreases s.len(),
{
    if s.len() > 0 {
        assert forall|i: int| 0 <= i < s.drop_last().len() implies is_hex_digit(
            #[trigger] s.drop_last()[i],
        ) by {
            assert(s.drop_last()[i] == s[i]);
        }
        lemma_hex_value_nonneg(s.drop_last());
    }
}

/// A prefix of an all-hex-digit string never has a larger value than the whole.
proof fn lemma_hex_value_prefix_le(s: Seq<char>, j: int)
    requires
        all_hex_digits(s),
        0 <= j <= s.len(),
    ensures
        hex_value(s.take(j)) <= hex_value(s),
    decreases s.len() - j,
{
    if j == s.len() {
        assert(s.take(j) =~= s);
    } else {
        assert(s.take(j + 1).drop_last() =~= s.take(j));
        assert(s.take(j + 1).last() == s[j]);
        assert forall|i: int| 0 <= i < s.take(j).len() implies is_hex_digit(
            #[trigger] s.take(j)[i],
        ) by {
            assert(s.take(j)[i] == s[i]);
        }
        lemma_hex_value_nonneg(s.take(j));
        assert(hex_value(s.take(j + 1)) == hex_value(s.take(j)) * 16 + hex_val(s[j]));
        assert(hex_value(s.take(j)) <= hex_value(s.take(j)) * 16) by (nonlinear_arith)
            requires
                hex_value(s.take(j)) >= 0;
        lemma_hex_value_prefix_le(s, j + 1);
    }
}

/// The numeric value of one hex digit character, `None` if it is not one.
fn hex_digit_value(c: char) -> (r: Option<u8>)
    ensures
        match r {
            Some(d) => d < 16 && hex_val(c) == d as int,
            None => !is_hex_digit(c),
        },
{
    match c {
        '0' => Some(0),
        '1' => Some(1),
        '2' => Some(2),
        '3' => Some(3),
        '4' => Some(4),
        '5' => Some(5),
        '6' => Some(6),
        '7' => Some(7),
        '8' => Some(8),
        '9' => Some(9),
        'a' | 'A' => Some(10),
        'b' | 'B' => Some(11),
        'c' | 'C' => Some(12),
        'd' | 'D' => Some(13),
        'e' | 'E' => Some(14),
        'f' | 'F' => Some(15),
        _ => None,
    }
}

/// Parses a hexadecimal scalar, as a configured range bound is given.
/// Returns `None` exactly when the string is empty, holds a non-hex
/// character, or encodes a value above `u128::MAX`.
pub fn parse_hex_u128(s: &str) -> (r: Option<u128>)
    ensures
        r == parse_hex_spec(s@),
{
    let n: usize = s.unicode_len();
    if n == 0 {
        return None;
    }
    let mut acc: u128 = 0;
    let mut i: usize = 0;
    while i < n
        invariant
            n == s@.len(),
            0 <= i <= n,
            all_hex_digits(s@.take(i as int)),
            acc as int == hex_value(s@.take(i as int)),
        decreases n - i,
    {
        let c = s.get_char(i);
        proof {
            assert(s@.take(i + 1).drop_last() =~= s@.take(i as int));
            assert(s@.take(i + 1).last() == s@[i as int]);
        }
        match hex_digit_value(c) {
            None => {
                assert(!is_hex_digit(s@[i as int]));
                return None;
            },
            Some(d) => {
                if acc > (u128::MAX - d as u128) / 16 {
                    proof {
                        assert(acc as int * 16 + d as int > u128::MAX) by (nonlinear_arith)
                            requires
                                (acc as int) > (u128::MAX - d as int) / 16,
                                (d as int) < 16;
                        if all_hex_digits(s@) {
                            lemma_hex_value_prefix_le(s@, i + 1);
                        }
                    }
                    return None;
                }
                assert(acc as int * 16 + d as int <= u128::MAX) by (nonlinear_arith)
                    requires
                        (acc as int) <= (u128::MAX - d as int) / 16,
                        (d as int) < 16;
                acc = acc * 16 + d as u128;
                assert forall|k: int| 0 <= k < s@.take(i + 1).len() implies is_hex_digit(
                    #[trigger] s@.take(i + 1)[k],
                ) by {
                    assert(s@.take(i + 1)[k] == s@[k]);
                    if k < i {
                        assert(s@.take(i as int)[k] == s@[k]);
                    }
                }
            },
        }
        i = i + 1;
    }
    proof {
        assert(s@.take(n as int) =~= s@);
    }
    Some(acc)
}

/// Sixteen to the `n`th power: how many scalars an `n`-digit hex string
/// can tell apart.
pub open spec fn pow16(n: nat) -> int
    decreases n,
{
    if n == 0 {
        1
    } else {
        16 * pow16((n - 1) as nat)
    }
}

proof fn lemma_pow16_add(m: nat, n: nat)
    ensures
        pow16(m + n) == pow16(m) * pow16(n),
    decreases n,
{
    if n == 0 {
        assert(pow16(m + 0) == pow16(m) * 1);
    } else {
        lemma_pow16_add(m, (n - 1) as nat);
        assert(pow16(m + n) == 16 * pow16((m + n - 1) as nat));
        assert(16 * (pow16(m) * pow16((n - 1) as nat)) == pow16(m) * (16 * pow16(
            (n - 1) as nat,
        ))) by (nonlinear_arith);
    }
}

/// Every 128-bit scalar fits in 32 hex digits, so in the fixed width too.
proof fn lemma_u128_below_pow16_width(v: u128)
    ensures
        v < pow16(KEY_HEX_WIDTH as nat),
{
    reveal_with_fuel(pow16, 9);
    assert(pow16(8) == 0x100000000);
    lemma_pow16_add(8, 8);
    assert(pow16(16) == 0x100000000 * 0x100000000);
    lemma_pow16_add(16, 16);
    assert(pow16(32) == 0x10000000000000000 * 0x10000000000000000);
    lemma_pow16_add(32, 32);
    assert(pow16(32) * pow16(32) >= pow16(32) * 1) by (nonlinear_arith)
        requires
            pow16(32) >= 1;
}

/// A value below `16^n` survives the `n`-digit encoding: the digits are all
/// hex, there are exactly `n` of them, and they evaluate back to the value.
proof fn lemma_hex_digits_value(v: int, n: nat)
    requires
        0 <= v < pow16(n),
    ensures
        hex_digits(v, n).len() == n,
        all_hex_digits(hex_digits(v, n)),
        hex_value(hex_digits(v, n)) == v,
    decreases n,
{
    if n == 0 {
        assert(hex_digits(v, n) =~= Seq::<char>::empty());
    } else {
        assert(v / 16 < pow16((n - 1) as nat)) by (nonlinear_arith)
            requires
                0 <= v,
                v < 16 * pow16((n - 1) as nat);
        lemma_hex_digits_value(v / 16, (n - 1) as nat);
        let rec = hex_digits(v / 16, (n - 1) as nat);
        let whole = hex_digits(v, n);
        assert(whole =~= rec.push(hex_char(v % 16)));
        assert(whole.drop_last() =~= rec);
        assert(hex_val(hex_char(v % 16)) == v % 16);
        assert forall|i: int| 0 <= i < whole.len() implies is_hex_digit(#[trigger] whole[i]) by {
            if i < n - 1 {
                assert(whole[i] == rec[i]);
            }
        }
    }
}

/// The fixed-width encoding is total and injective over the scalar domain:
/// parsing any scalar's encoding yields that scalar back.
pub proof fn lemma_key_hex_round_trip(v: u128)
    ensures
        parse_hex_spec(key_hex_spec(v)) == Some(v),
{
    reveal(key_hex_spec);
    lemma_u128_below_pow16_width(v);
    lemma_hex_digits_value(v as int, KEY_HEX_WIDTH as nat);
}

/// No two distinct scalars share a fixed-width encoding.
pub proof fn lemma_key_hex_injective(a: u128, b: u128)
    requires
        key_hex_spec(a) == key_hex_spec(b),
    ensures
        a == b,
{
    lemma_key_hex_round_trip(a);
    lemma_key_hex_round_trip(b);
}

} // verus!
