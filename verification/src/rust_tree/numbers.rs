//! Decimal numbers as text: reading an unsigned number and writing one.

use vstd::prelude::*;
use crate::rust_tree::text::is_digit;

verus! {

/// The value of a decimal digit; 0 for any other character.
pub open spec fn digit_value(c: char) -> nat {
    if is_digit(c) {
        (c as u32 - '0' as u32) as nat
    } else {
        0
    }
}

/// The number that the digits of `s` write in base ten.
pub open spec fn digits_value(s: Seq<char>) -> nat
    decreases s.len(),
{
    if s.len() == 0 {
        0
    } else {
        digits_value(s.drop_last()) * 10 + digit_value(s.last())
    }
}

/// Every character of `s` is a decimal digit.
pub open spec fn all_digits(s: Seq<char>) -> bool {
    forall|i: int| 0 <= i < s.len() ==> is_digit(#[trigger] s[i])
}

/// `s` without one leading `+`.
pub open spec fn unsigned_body(s: Seq<char>) -> Seq<char> {
    if s.len() > 0 && s[0] == '+' {
        s.subrange(1, s.len() as int)
    } else {
        s
    }
}

/// The number that `s` writes: an optional `+`, then one or more decimal
/// digits whose value fits in 64 bits. Any other text is no number.
pub open spec fn parse_u64(s: Seq<char>) -> Option<u64> {
    let body = unsigned_body(s);
    if body.len() > 0 && all_digits(body) && digits_value(body) <= u64::MAX {
        Some(digits_value(body) as u64)
    } else {
        None
    }
}

proof fn lemma_prefix_value_grows(s: Seq<char>, k: int)
    requires
        0 <= k <= s.len(),
    ensures
        digits_value(s.subrange(0, k)) <= digits_value(s),
    decreases s.len() - k,
{
    if k == s.len() {
        assert(s.subrange(0, k) =~= s);
    } else {
        lemma_prefix_value_grows(s, k + 1);
        let p = s.subrange(0, k + 1);
        assert(p.drop_last() =~= s.subrange(0, k));
    }
}

/// Reads an unsigned decimal number.
pub fn parse_u64_check(s: &Vec<char>) -> (r: Option<u64>)
    ensures
        r == parse_u64(s@),
{
    let start: usize = if s.len() > 0 && s[0] == '+' {
        1
    } else {
        0
    };
    let ghost body = unsigned_body(s@);
    assert(body =~= s@.subrange(start as int, s.len() as int));
    if start == s.len() {
        return None;
    }
    let mut value: u64 = 0;
    let mut i: usize = start;
    while i < s.len()
        invariant
            start <= i <= s.len(),
            body == s@.subrange(start as int, s.len() as int),
            body == unsigned_body(s@),
            all_digits(body.subrange(0, i - start)),
            value == digits_value(body.subrange(0, i - start)),
        decreases s.len() - i,
    {
        let c = s[i];
        let ghost next = body.subrange(0, i - start + 1);
        assert(next.drop_last() =~= body.subrange(0, i - start));
        assert(next.last() == c);
        if !(c >= '0' && c <= '9') {
            assert(body[i - start] == c);
            assert(!is_digit(body[i - start]));
            return None;
        }
        let d: u64 = (c as u32 - '0' as u32) as u64;
        assert(d == digit_value(c));
        assert(digits_value(next) == value * 10 + d);
        if value > (u64::MAX - d) / 10 {
            proof {
                lemma_prefix_value_grows(body, i - start + 1);
            }
            return None;
        }
        value = value * 10 + d;
        i += 1;
        assert forall|k: int| 0 <= k < next.len() implies is_digit(#[trigger] next[k]) by {
            if k < next.len() - 1 {
                assert(next[k] == body.subrange(0, i - start - 1)[k]);
            }
        }
    }
    assert(body.subrange(0, i - start) =~= body);
    Some(value)
}

/// The character that writes the digit `d`.
pub open spec fn digit_char(d: nat) -> char {
    if d == 0 {
        '0'
    } else if d == 1 {
        '1'
    } else if d == 2 {
        '2'
    } else if d == 3 {
        '3'
    } else if d == 4 {
        '4'
    } else if d == 5 {
        '5'
    } else if d == 6 {
        '6'
    } else if d == 7 {
        '7'
    } else if d == 8 {
        '8'
    } else {
        '9'
    }
}

/// The shortest decimal writing of `n`.
pub open spec fn decimal(n: nat) -> Seq<char>
    decreases n,
{
    if n < 10 {
        seq![digit_char(n)]
    } else {
        decimal(n / 10).push(digit_char(n % 10))
    }
}

fn digit_of(d: u64) -> (c: char)
    requires
        d < 10,
    ensures
        c == digit_char(d as nat),
{
    if d == 0 {
        '0'
    } else if d == 1 {
        '1'
    } else if d == 2 {
        '2'
    } else if d == 3 {
        '3'
    } else if d == 4 {
        '4'
    } else if d == 5 {
        '5'
    } else if d == 6 {
        '6'
    } else if d == 7 {
        '7'
    } else if d == 8 {
        '8'
    } else {
        '9'
    }
}

/// Appends the decimal writing of `n` to `v`.
pub fn push_decimal(v: &mut Vec<char>, n: u64)
    ensures
        final(v)@ == old(v)@ + decimal(n as nat),
    decreases n,
{
    if n >= 10 {
        push_decimal(v, n / 10);
        v.push(digit_of(n % 10));
        assert(v@ =~= old(v)@ + decimal(n as nat));
    } else {
        v.push(digit_of(n));
        assert(v@ =~= old(v)@ + decimal(n as nat));
    }
}

/// `s` preceded by as many copies of `fill` as bring it to `width` characters.
pub open spec fn pad_left(s: Seq<char>, width: nat, fill: char) -> Seq<char> {
    if s.len() >= width {
        s
    } else {
        Seq::new((width - s.len()) as nat, |i: int| fill) + s
    }
}

/// Appends the decimal writing of `n`, padded on the left to `width`.
pub fn push_decimal_padded(v: &mut Vec<char>, n: u64, width: usize, fill: char)
    ensures
        final(v)@ == old(v)@ + pad_left(decimal(n as nat), width as nat, fill),
{
    let mut digits: Vec<char> = Vec::new();
    push_decimal(&mut digits, n);
    assert(digits@ =~= decimal(n as nat));
    let mut k: usize = digits.len();
    while k < width
        invariant
            digits.len() <= k,
            digits.len() < width ==> k <= width,
            digits.len() >= width ==> k == digits.len(),
            v@ == old(v)@ + Seq::new((k - digits.len()) as nat, |i: int| fill),
        decreases width - k,
    {
        v.push(fill);
        k += 1;
        assert(v@ =~= old(v)@ + Seq::new((k - digits.len()) as nat, |i: int| fill));
    }
    let ghost before = v@;
    crate::rust_tree::text::push_all(v, &digits);
    if digits.len() >= width {
        assert(before =~= old(v)@);
    } else {
        assert(v@ =~= old(v)@ + (Seq::new((width - digits.len()) as nat, |i: int| fill)
            + digits@));
    }
}

} // verus!
