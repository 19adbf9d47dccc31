//! Decimal notation for machine integers: the spec-level decimal string of a
//! number, the value of a digit string, and verified conversions both ways.

use vstd::arithmetic::div_mod::lemma_fundamental_div_mod;
use vstd::prelude::*;

verus! {

/// The character for one decimal digit.
pub open spec fn digit_char(d: nat) -> char {
    if d == 0 {
        '0'
    } else if d == 1 {
        '1'
    } else if d == 2 {
        '2'
    } else if d == 3 {
        '3'
    } else if d == 4 {
        '4'
    } else if d == 5 {
        '5'
    } else if d == 6 {
        '6'
    } else if d == 7 {
        '7'
    } else if d == 8 {
        '8'
    } else {
        '9'
    }
}

pub open spec fn is_digit(c: char) -> bool {
    c == '0' || c == '1' || c == '2' || c == '3' || c == '4' || c == '5' || c == '6' || c == '7'
        || c == '8' || c == '9'
}

/// The numeric value of a digit character.
pub open spec fn digit_val(c: char) -> nat {
    if c == '0' {
        0
    } else if c == '1' {
        1
    } else if c == '2' {
        2
    } else if c == '3' {
        3
    } else if c == '4' {
        4
    } else if c == '5' {
        5
    } else if c == '6' {
        6
    } else if c == '7' {
        7
    } else if c == '8' {
        8
    } else {
        9
    }
}

/// The decimal notation of `n`, without sign or leading zeros (`0` is "0").
pub open spec fn dec_str(n: nat) -> Seq<char>
    decreases n,
{
    if n < 10 {
        seq![digit_char(n)]
    } else {
        dec_str(n / 10) + seq![digit_char(n % 10)]
    }
}

pub open spec fn all_digits(s: Seq<char>) -> bool {
    forall|i: int| 0 <= i < s.len() ==> is_digit(#[trigger] s[i])
}

/// The number denoted by a string of decimal digits (most significant first).
pub open spec fn val_of(s: Seq<char>) -> nat
    decreases s.len(),
{
    if s.len() == 0 {
        0
    } else {
        val_of(s.drop_last()) * 10 + digit_val(s.last())
    }
}

/// What a decimal digit string denotes, as a machine integer: `Some` exactly
/// when the string is nonempty, consists of digits alone, and its value fits.
pub open spec fn parse_decimal(s: Seq<char>) -> Option<usize> {
    if s.len() > 0 && all_digits(s) && val_of(s) <= usize::MAX {
        Some(val_of(s) as usize)
    } else {
        None
    }
}

/// Decimal notation round-trips: the digit string of `n` denotes `n`.
pub proof fn lemma_dec_str_val(n: nat)
    ensures
        dec_str(n).len() >= 1,
        all_digits(dec_str(n)),
        val_of(dec_str(n)) == n,
    decreases n,
{
    if n < 10 {
        let s = dec_str(n);
        assert(s =~= seq![digit_char(n)]);
        assert(s.drop_last() =~= Seq::<char>::empty());
        assert(val_of(s) == val_of(s.drop_last()) * 10 + digit_val(s.last()));
        assert(digit_val(digit_char(n)) == n);
    } else {
        lemma_dec_str_val(n / 10);
        let hd = dec_str(n / 10);
        let s = dec_str(n);
        assert(s =~= hd + seq![digit_char(n % 10)]);
        assert(s.drop_last() =~= hd);
        assert(s.last() == digit_char(n % 10));
        assert(digit_val(digit_char(n % 10)) == n % 10);
        assert forall|i: int| 0 <= i < s.len() implies is_digit(#[trigger] s[i]) by {
            if i < hd.len() {
                assert(is_digit(hd[i]));
            }
        }
        lemma_fundamental_div_mod(n as int, 10);
        assert(val_of(s) == (n / 10) * 10 + n % 10);
    }
}

/// Appending one more digit can only increase the denoted value.
pub proof fn lemma_val_of_extend(s: Seq<char>, i: int)
    requires
        0 <= i < s.len(),
    ensures
        val_of(s.subrange(0, i + 1)) == val_of(s.subrange(0, i)) * 10 + digit_val(s[i]),
        val_of(s.subrange(0, i + 1)) >= val_of(s.subrange(0, i)),
{
    let p = s.subrange(0, i + 1);
    assert(p.drop_last() =~= s.subrange(0, i));
    assert(p.last() == s[i]);
}

/// The value of a digit string is monotone in its prefixes.
pub proof fn lemma_val_of_prefix_le(s: Seq<char>, i: int, j: int)
    requires
        0 <= i <= j <= s.len(),
    ensures
        val_of(s.subrange(0, i)) <= val_of(s.subrange(0, j)),
    decreases j - i,
{
    if i < j {
        lemma_val_of_prefix_le(s, i, j - 1);
        lemma_val_of_extend(s, j - 1);
    }
}

/// The one-character string of a decimal digit.
pub fn digit_str(d: usize) -> (r: &'static str)
    requires
        d < 10,
    ensures
        r@ =~= seq![digit_char(d as nat)],
{
    proof {
        reveal_strlit("0");
        reveal_strlit("1");
        reveal_strlit("2");
        reveal_strlit("3");
        reveal_strlit("4");
        reveal_strlit("5");
        reveal_strlit("6");
        reveal_strlit("7");
        reveal_strlit("8");
        reveal_strlit("9");
    }
    match d {
        0 => "0",
        1 => "1",
        2 => "2",
        3 => "3",
        4 => "4",
        5 => "5",
        6 => "6",
        7 => "7",
        8 => "8",
        _ => "9",
    }
}

/// Appends the decimal notation of `n` to `out`.
pub fn push_decimal(n: usize, out: &mut String)
    ensures
        final(out)@ == old(out)@ + dec_str(n as nat),
    decreases n,
{
    if n < 10 {
        out.append(digit_str(n));
    } else {
        push_decimal(n / 10, out);
        out.append(digit_str(n % 10));
        proof {
            assert(out@ =~= old(out)@ + (dec_str(n as nat / 10) + seq![
                digit_char(n as nat % 10),
            ]));
        }
    }
}

/// The decimal notation of `n`, as an owned string.
pub fn usize_to_string(n: usize) -> (r: String)
    ensures
        r@ == dec_str(n as nat),
{
    let mut out = String::new();
    push_decimal(n, &mut out);
    proof {
        assert(out@ =~= dec_str(n as nat));
    }
    out
}

/// The digit value of a character, or `None` for a non-digit.
pub fn char_digit(c: char) -> (r: Option<usize>)
    ensures
        is_digit(c) ==> r == Some(digit_val(c) as usize),
        !is_digit(c) ==> r is None,
{
    match c {
        '0' => Some(0),
        '1' => Some(1),
        '2' => Some(2),
        '3' => Some(3),
        '4' => Some(4),
        '5' => Some(5),
        '6' => Some(6),
        '7' => Some(7),
        '8' => Some(8),
        '9' => Some(9),
        _ => None,
    }
}

/// Reads a nonempty string of decimal digits as a machine integer; `None` on
/// an empty string, on any non-digit character, and on overflow.
pub fn parse_usize(s: &str) -> (r: Option<usize>)
    ensures
        r == parse_decimal(s@),
{
    let n = s.unicode_len();
    if n == 0 {
        return None;
    }
    let mut acc: usize = 0;
    let mut i: usize = 0;
    while i < n
        invariant
            0 < n == s@.len(),
            0 <= i <= n,
            all_digits(s@.subrange(0, i as int)),
            acc == val_of(s@.subrange(0, i as int)),
        decreases n - i,
    {
        let c = s.get_char(i);
        let d = match char_digit(c) {
            Some(d) => d,
            None => {
                return None;
            },
        };
        let shifted = match acc.checked_mul(10) {
            Some(x) => x,
            None => {
                proof {
                    lemma_val_of_extend(s@, i as int);
                    lemma_val_of_prefix_le(s@, i as int + 1, s@.len() as int);
                    assert(s@.subrange(0, s@.len() as int) =~= s@);
                }
                return None;
            },
        };
        let next = match shifted.checked_add(d) {
            Some(x) => x,
            None => {
                proof {
                    lemma_val_of_extend(s@, i as int);
                    lemma_val_of_prefix_le(s@, i as int + 1, s@.len() as int);
                    assert(s@.subrange(0, s@.len() as int) =~= s@);
                }
                return None;
            },
        };
        proof {
            lemma_val_of_extend(s@, i as int);
            assert(s@.subrange(0, i as int + 1) =~= s@.subrange(0, i as int).push(s@[i as int]));
        }
        acc = next;
        i = i + 1;
    }
    proof {
        assert(s@.subrange(0, n as int) =~= s@);
    }
    Some(acc)
}

} // verus!
