//! Decimal digits: the value of a digit string, fixed-width rendering of
//! integers, and a checked parser. Used for command arguments that must be
//! numbers and for the store's snapshot format.

use vstd::prelude::*;
use crate::matcher::is_digit;
use crate::matcher::is_digit_char;
use crate::tokenize::push_char;

verus! {

/// Numeric value of one digit character.
pub open spec fn digit_val(c: char) -> int {
    if c == '0' {
        0
    } else if c == '1' {
        1
    } else if c == '2' {
        2
    } else if c == '3' {
        3
    } else if c == '4' {
        4
    } else if c == '5' {
        5
    } else if c == '6' {
        6
    } else if c == '7' {
        7
    } else if c == '8' {
        8
    } else {
        9
    }
}

/// The digit character for a value between 0 and 9.
pub open spec fn digit_char(d: int) -> char {
    if d == 0 {
        '0'
    } else if d == 1 {
        '1'
    } else if d == 2 {
        '2'
    } else if d == 3 {
        '3'
    } else if d == 4 {
        '4'
    } else if d == 5 {
        '5'
    } else if d == 6 {
        '6'
    } else if d == 7 {
        '7'
    } else if d == 8 {
        '8'
    } else {
        '9'
    }
}

/// Every character is a decimal digit.
pub open spec fn all_digits(s: Seq<char>) -> bool {
    forall|i: int| 0 <= i < s.len() ==> is_digit_char(#[trigger] s[i])
}

/// Value of a digit string read most-significant first.
pub open spec fn digits_value(s: Seq<char>) -> int
    decreases s.len(),
{
    if s.len() == 0 {
        0
    } else {
        10 * digits_value(s.drop_last()) + digit_val(s.last())
    }
}

/// `v` rendered as exactly `n` decimal digits, most significant first,
/// zero-padded on the left.
pub open spec fn enc_fixed(v: int, n: nat) -> Seq<char>
    decreases n,
{
    if n == 0 {
        Seq::empty()
    } else {
        enc_fixed(v / 10, (n - 1) as nat).push(digit_char(v % 10))
    }
}

pub open spec fn pow10(n: nat) -> int
    decreases n,
{
    if n == 0 {
        1
    } else {
        10 * pow10((n - 1) as nat)
    }
}

pub proof fn lemma_enc_fixed_wf(v: int, n: nat)
    requires
        0 <= v,
    ensures
        enc_fixed(v, n).len() == n,
        all_digits(enc_fixed(v, n)),
    decreases n,
{
    if n > 0 {
        lemma_enc_fixed_wf(v / 10, (n - 1) as nat);
        assert forall|i: int| 0 <= i < enc_fixed(v, n).len() implies is_digit_char(
            #[trigger] enc_fixed(v, n)[i],
        ) by {
            if i < n - 1 {
                assert(enc_fixed(v, n)[i] == enc_fixed(v / 10, (n - 1) as nat)[i]);
            } else {
                assert(enc_fixed(v, n)[i] == digit_char(v % 10));
            }
        }
    }
}

/// Rendering and reading back are inverse: a value below `10^n` survives a
/// round trip through its fixed-width rendering.
pub proof fn lemma_fixed_round_trip(v: int, n: nat)
    requires
        0 <= v < pow10(n),
    ensures
        digits_value(enc_fixed(v, n)) == v,
    decreases n,
{
    if n == 0 {
    } else {
        assert(v / 10 < pow10((n - 1) as nat)) by {
            assert(v < 10 * pow10((n - 1) as nat));
        }
        lemma_fixed_round_trip(v / 10, (n - 1) as nat);
        lemma_enc_fixed_wf(v / 10, (n - 1) as nat);
        let s = enc_fixed(v, n);
        assert(s.drop_last() =~= enc_fixed(v / 10, (n - 1) as nat));
        assert(s.last() == digit_char(v % 10));
        assert(digit_val(digit_char(v % 10)) == v % 10);
    }
}

pub proof fn lemma_digits_value_nonneg(s: Seq<char>)
    ensures
        digits_value(s) >= 0,
    decreases s.len(),
{
    if s.len() > 0 {
        lemma_digits_value_nonneg(s.drop_last());
        assert(digit_val(s.last()) >= 0);
    }
}

/// A longer prefix of a digit string never has a smaller value.
pub proof fn lemma_digits_value_prefix_le(s: Seq<char>, i: int)
    requires
        0 <= i <= s.len(),
    ensures
        digits_value(s.subrange(0, i)) <= digits_value(s),
    decreases s.len() - i,
{
    if i < s.len() {
        assert(s.subrange(0, i + 1).drop_last() =~= s.subrange(0, i));
        lemma_digits_value_nonneg(s.subrange(0, i as int));
        assert(digit_val(s.subrange(0, i + 1).last()) >= 0);
        assert(digits_value(s.subrange(0, i)) <= digits_value(s.subrange(0, i + 1)));
        lemma_digits_value_prefix_le(s, i + 1);
    } else {
        assert(s.subrange(0, i) =~= s);
    }
}

/// Value of one digit character at runtime.
pub fn digit_of(c: char) -> (d: u64)
    requires
        is_digit_char(c),
    ensures
        d as int == digit_val(c),
{
    match c {
        '0' => 0,
        '1' => 1,
        '2' => 2,
        '3' => 3,
        '4' => 4,
        '5' => 5,
        '6' => 6,
        '7' => 7,
        '8' => 8,
        _ => 9,
    }
}

/// Digit character for a value at runtime.
pub fn char_of_digit(d: u64) -> (c: char)
    requires
        d <= 9,
    ensures
        c == digit_char(d as int),
{
    match d {
        0 => '0',
        1 => '1',
        2 => '2',
        3 => '3',
        4 => '4',
        5 => '5',
        6 => '6',
        7 => '7',
        8 => '8',
        _ => '9',
    }
}

/// Append `v` to `out` as exactly `n` decimal digits, most significant
/// first.
pub fn enc_u64_fixed(v: u64, n: usize, out: &mut String)
    ensures
        final(out)@ == old(out)@ + enc_fixed(v as int, n as nat),
    decreases n,
{
    if n == 0 {
        proof {
            assert(old(out)@ + enc_fixed(v as int, 0) =~= old(out)@);
        }
    } else {
        enc_u64_fixed(v / 10, n - 1, out);
        push_char(out, char_of_digit(v % 10));
    }
}

/// `v` in ordinary decimal notation: no padding, most significant first.
pub open spec fn spec_render_u64(v: int) -> Seq<char>
    recommends
        0 <= v,
    decreases v,
{
    if v < 10 {
        seq![digit_char(v)]
    } else {
        spec_render_u64(v / 10).push(digit_char(v % 10))
    }
}

fn render_u64_into(v: u64, out: &mut String)
    ensures
        final(out)@ == old(out)@ + spec_render_u64(v as int),
    decreases v,
{
    if v < 10 {
        push_char(out, char_of_digit(v));
        proof {
            assert(out@ =~= old(out)@ + spec_render_u64(v as int));
        }
    } else {
        render_u64_into(v / 10, out);
        push_char(out, char_of_digit(v % 10));
    }
}

/// Render `v` in ordinary decimal notation.
pub fn render_u64(v: u64) -> (r: String)
    ensures
        r@ == spec_render_u64(v as int),
{
    let mut out = String::new();
    render_u64_into(v, &mut out);
    proof {
        assert(out@ =~= spec_render_u64(v as int));
    }
    out
}

/// Parse a whole string of decimal digits into a `u64`. `None` exactly when
/// the string is empty, holds a non-digit, or overflows.
pub fn parse_u64(s: &String) -> (r: Option<u64>)
    ensures
        match r {
            Some(v) => s@.len() > 0 && all_digits(s@) && v as int == digits_value(s@),
            None => s@.len() == 0 || !all_digits(s@) || digits_value(s@) > u64::MAX,
        },
{
    let t = s.as_str();
    let n = t.unicode_len();
    if n == 0 {
        return None;
    }
    let mut acc: u64 = 0;
    let mut i: usize = 0;
    while i < n
        invariant
            n == s@.len(),
            t@ == s@,
            i <= n,
            forall|j: int| 0 <= j < i ==> is_digit_char(#[trigger] s@[j]),
            acc as int == digits_value(s@.subrange(0, i as int)),
        decreases n - i,
    {
        let c = t.get_char(i);
        if !is_digit(c) {
            return None;
        }
        let d = digit_of(c);
        proof {
            assert(s@.subrange(0, i + 1).drop_last() =~= s@.subrange(0, i as int));
            assert(s@.subrange(0, i + 1).last() == s@[i as int]);
        }
        let step = match acc.checked_mul(10) {
            Some(m) => m.checked_add(d),
            None => None,
        };
        match step {
            Some(next) => {
                acc = next;
            },
            None => {
                proof {
                    assert(digits_value(s@.subrange(0, i + 1)) > u64::MAX);
                    lemma_digits_value_prefix_le(s@, i + 1);
                }
                return None;
            },
        }
        i = i + 1;
    }
    proof {
        assert(s@.subrange(0, n as int) =~= s@);
    }
    Some(acc)
}

} // verus!
