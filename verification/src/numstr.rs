//! Decimal rendering of numeric ids: digit sequences, their values, and the
//! grouping of digits into blocks of three for display.

use vstd::prelude::*;

verus! {

/// The character for one decimal digit value.
pub open spec fn spec_digit_char(d: int) -> char {
    if d == 0 {
        '0'
    } else if d == 1 {
        '1'
    } else if d == 2 {
        '2'
    } else if d == 3 {
        '3'
    } else if d == 4 {
        '4'
    } else if d == 5 {
        '5'
    } else if d == 6 {
        '6'
    } else if d == 7 {
        '7'
    } else if d == 8 {
        '8'
    } else {
        '9'
    }
}

pub open spec fn spec_is_digit(c: char) -> bool {
    '0' <= c && c <= '9'
}

/// Numeric value of one decimal digit character.
pub open spec fn spec_digit_val(c: char) -> int {
    c as u32 - '0' as u32
}

/// The decimal digit characters of `n`, most significant first, with no
/// leading zero except for `n == 0` itself.
pub open spec fn dec_digits(n: nat) -> Seq<char>
    decreases n,
{
    if n < 10 {
        seq![spec_digit_char(n as int)]
    } else {
        dec_digits(n / 10) + seq![spec_digit_char((n % 10) as int)]
    }
}

/// The value of a sequence of decimal digit characters (leading zeros allowed).
pub open spec fn digits_val(s: Seq<char>) -> int
    decreases s.len(),
{
    if s.len() == 0 {
        0
    } else {
        digits_val(s.drop_last()) * 10 + spec_digit_val(s.last())
    }
}

/// Digit groups of three, counted from the least-significant digit, joined
/// with `sep`; the leftmost group may be shorter.
pub open spec fn spec_grouped(digits: Seq<char>, sep: Seq<char>) -> Seq<char>
    decreases digits.len(),
{
    if digits.len() <= 3 {
        digits
    } else {
        spec_grouped(digits.take(digits.len() - 3), sep) + sep + digits.skip(digits.len() - 3)
    }
}

pub proof fn lemma_dec_digits_are_digits(n: nat)
    ensures
        forall|i: int| 0 <= i < dec_digits(n).len() ==> spec_is_digit(#[trigger] dec_digits(n)[i]),
        dec_digits(n).len() >= 1,
    decreases n,
{
    if n >= 10 {
        lemma_dec_digits_are_digits(n / 10);
    }
}

pub fn is_digit(c: char) -> (b: bool)
    ensures
        b == spec_is_digit(c),
{
    '0' <= c && c <= '9'
}

pub fn digit_char(d: u32) -> (c: char)
    requires
        d < 10,
    ensures
        c == spec_digit_char(d as int),
{
    match d {
        0 => '0',
        1 => '1',
        2 => '2',
        3 => '3',
        4 => '4',
        5 => '5',
        6 => '6',
        7 => '7',
        8 => '8',
        _ => '9',
    }
}

pub fn digit_val(c: char) -> (v: u32)
    requires
        spec_is_digit(c),
    ensures
        v == spec_digit_val(c),
        v < 10,
{
    c as u32 - '0' as u32
}

/// Relies on `String::push`: appends the given character to the end of the string.
#[verifier::external_body]
pub fn push_char(s: &mut String, c: char)
    ensures
        final(s)@ == old(s)@.push(c),
{
    s.push(c)
}

fn push_dec_digits(n: u32, s: &mut String)
    ensures
        final(s)@ == old(s)@ + dec_digits(n as nat),
    decreases n,
{
    if n < 10 {
        push_char(s, digit_char(n));
        assert(old(s)@.push(spec_digit_char(n as int)) =~= old(s)@ + dec_digits(n as nat));
    } else {
        push_dec_digits(n / 10, s);
        push_char(s, digit_char(n % 10));
        assert((old(s)@ + dec_digits((n / 10) as nat)).push(spec_digit_char((n % 10) as int))
            =~= old(s)@ + dec_digits(n as nat));
    }
}

/// The decimal rendering of `n`.
pub fn u32_to_string(n: u32) -> (s: String)
    ensures
        s@ == dec_digits(n as nat),
{
    let mut s = String::new();
    push_dec_digits(n, &mut s);
    assert(Seq::<char>::empty() + dec_digits(n as nat) =~= dec_digits(n as nat));
    s
}

fn grouped_rec(digits: &Vec<char>, end: usize, sep: &str) -> (r: String)
    requires
        end <= digits@.len(),
    ensures
        r@ == spec_grouped(digits@.take(end as int), sep@),
    decreases end,
{
    let mut r = String::new();
    if end <= 3 {
        let mut i: usize = 0;
        while i < end
            invariant
                i <= end,
                end <= digits@.len(),
                r@ == digits@.take(end as int).take(i as int),
            decreases end - i,
        {
            push_char(&mut r, digits[i]);
            assert(digits@.take(end as int).take(i as int).push(digits@[i as int])
                =~= digits@.take(end as int).take(i + 1));
            i = i + 1;
        }
        assert(digits@.take(end as int).take(end as int) =~= digits@.take(end as int));
        assert(spec_grouped(digits@.take(end as int), sep@) == digits@.take(end as int));
    } else {
        r = grouped_rec(digits, end - 3, sep);
        r.append(sep);
        let mut i: usize = end - 3;
        while i < end
            invariant
                end - 3 <= i <= end,
                3 < end <= digits@.len(),
                r@ == spec_grouped(digits@.take(end - 3), sep@) + sep@ + digits@.subrange(
                    end - 3,
                    i as int,
                ),
            decreases end - i,
        {
            push_char(&mut r, digits[i]);
            assert((spec_grouped(digits@.take(end - 3), sep@) + sep@ + digits@.subrange(
                end - 3,
                i as int,
            )).push(digits@[i as int]) =~= spec_grouped(digits@.take(end - 3), sep@) + sep@
                + digits@.subrange(end - 3, i + 1));
            i = i + 1;
        }
        proof {
            let d = digits@.take(end as int);
            assert(d.take(d.len() - 3) =~= digits@.take(end - 3));
            assert(d.skip(d.len() - 3) =~= digits@.subrange(end - 3, end as int));
            assert(spec_grouped(digits@.take(end - 3), sep@) + sep@ + digits@.subrange(
                end - 3,
                end as int,
            ) == spec_grouped(d, sep@));
        }
    }
    r
}

fn u32_to_digit_vec(n: u32) -> (v: Vec<char>)
    ensures
        v@ == dec_digits(n as nat),
{
    let mut v: Vec<char> = Vec::new();
    push_dec_digits_vec(n, &mut v);
    assert(Seq::<char>::empty() + dec_digits(n as nat) =~= dec_digits(n as nat));
    v
}

fn push_dec_digits_vec(n: u32, v: &mut Vec<char>)
    ensures
        final(v)@ == old(v)@ + dec_digits(n as nat),
    decreases n,
{
    if n < 10 {
        v.push(digit_char(n));
        assert(old(v)@.push(spec_digit_char(n as int)) =~= old(v)@ + dec_digits(n as nat));
    } else {
        push_dec_digits_vec(n / 10, v);
        v.push(digit_char(n % 10));
        assert((old(v)@ + dec_digits((n / 10) as nat)).push(spec_digit_char((n % 10) as int))
            =~= old(v)@ + dec_digits(n as nat));
    }
}

/// The decimal digits of `n` grouped in blocks of three from the right,
/// joined with `sep`.
pub fn grouped_digits(n: u32, sep: &str) -> (r: String)
    ensures
        r@ == spec_grouped(dec_digits(n as nat), sep@),
{
    let digits = u32_to_digit_vec(n);
    let len = digits.len();
    let r = grouped_rec(&digits, len, sep);
    assert(digits@.take(len as int) =~= digits@);
    r
}

} // verus!
