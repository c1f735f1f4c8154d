//! Decimal and hexadecimal digit arithmetic: the character-level building
//! blocks of attribute codes and hex colour strings.

use vstd::prelude::*;

verus! {

/// The decimal digit character for `d`; meaningful when `d < 10`.
pub open spec fn dec_digit(d: nat) -> char
    recommends
        d < 10,
{
    if d == 0 {
        '0'
    } else if d == 1 {
        '1'
    } else if d == 2 {
        '2'
    } else if d == 3 {
        '3'
    } else if d == 4 {
        '4'
    } else if d == 5 {
        '5'
    } else if d == 6 {
        '6'
    } else if d == 7 {
        '7'
    } else if d == 8 {
        '8'
    } else {
        '9'
    }
}

/// The decimal rendering of `n`: most significant digit first, no leading
/// zeros, and a single `'0'` for zero itself.
pub open spec fn dec_str(n: nat) -> Seq<char>
    decreases n,
{
    if n < 10 {
        seq![dec_digit(n)]
    } else {
        dec_str(n / 10) + seq![dec_digit(n % 10)]
    }
}

/// The single-character string for one decimal digit.
fn digit_str(d: u8) -> (s: &'static str)
    requires
        d < 10,
    ensures
        s@ == seq![dec_digit(d as nat)],
{
    proof {
        reveal_strlit("0");
        reveal_strlit("1");
        reveal_strlit("2");
        reveal_strlit("3");
        reveal_strlit("4");
        reveal_strlit("5");
        reveal_strlit("6");
        reveal_strlit("7");
        reveal_strlit("8");
        reveal_strlit("9");
    }
    let s = match d {
        0 => "0",
        1 => "1",
        2 => "2",
        3 => "3",
        4 => "4",
        5 => "5",
        6 => "6",
        7 => "7",
        8 => "8",
        _ => "9",
    };
    proof {
        assert(s@ =~= seq![dec_digit(d as nat)]);
    }
    s
}

/// Renders `n` in decimal.
pub fn dec_u8(n: u8) -> (s: String)
    ensures
        s@ == dec_str(n as nat),
{
    if n < 10 {
        String::from_str(digit_str(n))
    } else if n < 100 {
        let s = String::from_str(digit_str(n / 10)).concat(digit_str(n % 10));
        proof {
            assert(dec_str((n / 10) as nat) == seq![dec_digit((n / 10) as nat)]);
            assert(s@ =~= dec_str(n as nat));
        }
        s
    } else {
        let s = String::from_str(digit_str(n / 100)).concat(digit_str((n / 10) % 10)).concat(
            digit_str(n % 10),
        );
        proof {
            assert(n / 10 / 10 == n / 100);
            assert(dec_str((n / 100) as nat) == seq![dec_digit((n / 100) as nat)]);
            assert(dec_str((n / 10) as nat) == dec_str((n / 100) as nat) + seq![
                dec_digit(((n / 10) % 10) as nat),
            ]);
            assert(s@ =~= dec_str(n as nat));
        }
        s
    }
}

/// Every character of a decimal rendering is a digit.
pub proof fn lemma_dec_str_digits(n: nat)
    ensures
        forall|i: int|
            0 <= i < dec_str(n).len() ==> '0' <= #[trigger] dec_str(n)[i] && dec_str(n)[i] <= '9',
    decreases n,
{
    if n < 10 {
        assert('0' <= dec_digit(n) && dec_digit(n) <= '9');
        assert(dec_str(n)[0] == dec_digit(n));
    } else {
        lemma_dec_str_digits(n / 10);
        assert forall|i: int|
            0 <= i < dec_str(n).len() implies '0' <= #[trigger] dec_str(n)[i] && dec_str(n)[i]
            <= '9' by {
            if i < dec_str(n / 10).len() {
                assert(dec_str(n)[i] == dec_str(n / 10)[i]);
            } else {
                assert(dec_str(n)[i] == dec_digit(n % 10));
            }
        }
    }
}

/// A decimal rendering is never empty.
pub proof fn lemma_dec_str_len(n: nat)
    ensures
        dec_str(n).len() >= 1,
        n >= 10 ==> dec_str(n).len() >= 2,
    decreases n,
{
    if n >= 10 {
        lemma_dec_str_len(n / 10);
    }
}

/// Distinct numbers have distinct decimal renderings.
pub proof fn lemma_dec_str_injective(m: nat, n: nat)
    requires
        dec_str(m) == dec_str(n),
    ensures
        m == n,
    decreases m,
{
    lemma_dec_str_len(m);
    lemma_dec_str_len(n);
    if m < 10 && n < 10 {
        assert(dec_str(m)[0] == dec_digit(m));
        assert(dec_str(n)[0] == dec_digit(n));
    } else if m >= 10 && n >= 10 {
        let dm = dec_str(m / 10);
        let dn = dec_str(n / 10);
        let len = dec_str(m).len() as int;
        assert(dec_str(m)[len - 1] == dec_digit(m % 10));
        assert(dec_str(n)[len - 1] == dec_digit(n % 10));
        assert(m % 10 == n % 10);
        assert forall|i: int| 0 <= i < dm.len() implies dm[i] == dn[i] by {
            assert(dec_str(m)[i] == dm[i]);
            assert(dec_str(n)[i] == dn[i]);
        }
        assert(dm =~= dn);
        lemma_dec_str_injective(m / 10, n / 10);
    }
}

/// Whether `c` is a hexadecimal digit (either case).
pub open spec fn is_hex_digit(c: char) -> bool {
    ('0' <= c && c <= '9') || ('a' <= c && c <= 'f') || ('A' <= c && c <= 'F')
}

/// The numeric value of the hexadecimal digit `c`; meaningful when
/// `is_hex_digit(c)`.
pub open spec fn hex_val(c: char) -> nat
    recommends
        is_hex_digit(c),
{
    if '0' <= c && c <= '9' {
        (c as u32 - '0' as u32) as nat
    } else if 'a' <= c && c <= 'f' {
        (c as u32 - 'a' as u32 + 10) as nat
    } else if 'A' <= c && c <= 'F' {
        (c as u32 - 'A' as u32 + 10) as nat
    } else {
        0
    }
}

/// The upper-case hexadecimal digit character for `v`; meaningful when
/// `v < 16`.
pub open spec fn hex_digit_upper(v: nat) -> char
    recommends
        v < 16,
{
    if v < 10 {
        dec_digit(v)
    } else if v == 10 {
        'A'
    } else if v == 11 {
        'B'
    } else if v == 12 {
        'C'
    } else if v == 13 {
        'D'
    } else if v == 14 {
        'E'
    } else {
        'F'
    }
}

/// Maps the lower-case hexadecimal letters to upper case and leaves every
/// other character alone.
pub open spec fn to_upper_hex(c: char) -> char {
    if c == 'a' {
        'A'
    } else if c == 'b' {
        'B'
    } else if c == 'c' {
        'C'
    } else if c == 'd' {
        'D'
    } else if c == 'e' {
        'E'
    } else if c == 'f' {
        'F'
    } else {
        c
    }
}

/// Re-encoding the value of a hexadecimal digit in upper case gives back the
/// upper-case normalisation of the digit itself.
pub proof fn lemma_hex_digit_round_trip(c: char)
    requires
        is_hex_digit(c),
    ensures
        hex_val(c) < 16,
        hex_digit_upper(hex_val(c)) == to_upper_hex(c),
{
}

/// The numeric value of `c` as a hexadecimal digit, or `None` where `c` is
/// not one.
pub fn hex_digit_val(c: char) -> (r: Option<u8>)
    ensures
        r == if is_hex_digit(c) {
            Some(hex_val(c) as u8)
        } else {
            None::<u8>
        },
{
    let u = c as u32;
    if u >= 48 && u <= 57 {
        Some((u - 48) as u8)
    } else if u >= 97 && u <= 102 {
        Some((u - 97 + 10) as u8)
    } else if u >= 65 && u <= 70 {
        Some((u - 65 + 10) as u8)
    } else {
        None
    }
}

} // verus!
