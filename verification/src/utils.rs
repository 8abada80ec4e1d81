//! Text scanning: removal of delimited spans (HTML-entity fragments, inline
//! tags), digit extraction, and the two number parsers — the poem-marker
//! normalizer and the volume-number reader.

use vstd::prelude::*;
use vstd::string::{StrSliceExecFns, StringExecFns};

use crate::error::Error;
use crate::error::PoemResult;
use crate::numstr::{digit_val, digits_val, is_digit, push_char, spec_digit_val, spec_is_digit};

verus! {

/// Whether the sequence, whose first character opens a span, closes it: some
/// later `close` character with neither `close` nor a line break before it.
pub open spec fn spec_span_ok(s: Seq<char>, close: char) -> bool {
    exists|j: int|
        1 <= j < s.len() && s[j] == close && (forall|m: int|
            1 <= m < j ==> s[m] != close && s[m] != '\n')
}

/// The index of the closing character of the span that opens the sequence.
pub open spec fn spec_span_end(s: Seq<char>, close: char) -> int {
    choose|j: int|
        1 <= j < s.len() && s[j] == close && (forall|m: int|
            1 <= m < j ==> s[m] != close && s[m] != '\n')
}

/// The sequence with every shortest `open ... close` span removed, spans not
/// crossing a line break, scanning left to right.
#[verifier::opaque]
pub open spec fn spec_strip_spans(s: Seq<char>, open: char, close: char) -> Seq<char>
    decreases s.len(),
{
    if s.len() == 0 {
        s
    } else if s[0] == open && spec_span_ok(s, close) {
        spec_strip_spans(s.skip(spec_span_end(s, close) + 1), open, close)
    } else {
        seq![s[0]] + spec_strip_spans(s.drop_first(), open, close)
    }
}

/// The characters of a string, in order.
pub fn chars_of(s: &str) -> (v: Vec<char>)
    ensures
        v@ == s@,
{
    let n = s.unicode_len();
    let mut v: Vec<char> = Vec::new();
    let mut i: usize = 0;
    while i < n
        invariant
            i <= n,
            n == s@.len(),
            v@ == s@.take(i as int),
        decreases n - i,
    {
        v.push(s.get_char(i));
        proof {
            assert(s@.take(i as int).push(s@[i as int]) =~= s@.take(i + 1));
        }
        i = i + 1;
    }
    proof {
        assert(s@.take(n as int) =~= s@);
    }
    v
}

/// The string holding exactly the given characters.
pub fn string_from_chars(v: &Vec<char>) -> (s: String)
    ensures
        s@ == v@,
{
    let mut s = String::new();
    let mut i: usize = 0;
    while i < v.len()
        invariant
            i <= v@.len(),
            s@ == v@.take(i as int),
        decreases v@.len() - i,
    {
        push_char(&mut s, v[i]);
        proof {
            assert(v@.take(i as int).push(v@[i as int]) =~= v@.take(i + 1));
        }
        i = i + 1;
    }
    proof {
        assert(v@.take(v@.len() as int) =~= v@);
    }
    s
}

/// Scans for the close of the span opening at `i`: on success the strip of
/// the text from `i` goes on after the close; otherwise the opening
/// character stays and the strip goes on after it.
fn scan_close(s: &Vec<char>, i: usize, open: char, close: char) -> (r: Option<usize>)
    requires
        i < s@.len(),
        s@[i as int] == open,
        open != close,
        open != '\n',
        close != '\n',
    ensures
        match r {
            Some(k) => i < k < s@.len() && spec_strip_spans(s@.skip(i as int), open, close)
                == spec_strip_spans(s@.skip(k + 1), open, close),
            None => spec_strip_spans(s@.skip(i as int), open, close) == seq![s@[i as int]]
                + spec_strip_spans(s@.skip(i + 1), open, close),
        },
{
    let ghost tail = s@.skip(i as int);
    let n = s.len();
    let mut k: usize = i + 1;
    let mut found = false;
    let mut nl = false;
    while k < n && !found && !nl
        invariant
            n == s@.len(),
            i + 1 <= k <= s@.len(),
            i < s@.len(),
            found ==> k < s@.len() && s@[k as int] == close,
            nl ==> k < s@.len() && s@[k as int] == '\n',
            forall|m: int| i + 1 <= m < k ==> s@[m] != close && s@[m] != '\n',
        decreases s@.len() - k, (if found || nl { 0int } else { 1int }),
    {
        let d = s[k];
        if d == close {
            found = true;
        } else if d == '\n' {
            nl = true;
        } else {
            k = k + 1;
        }
    }
    proof {
        assert(k >= n || found || nl);
    }
    if found {
        proof {
            reveal(spec_strip_spans);
            let j0 = k - i;
            assert(tail[j0] == s@[k as int]);
            assert forall|m: int| 1 <= m < j0 implies tail[m] != close && tail[m] != '\n' by {
                assert(tail[m] == s@[i + m]);
            }
            assert(spec_span_ok(tail, close));
            let j = spec_span_end(tail, close);
            assert(1 <= j < tail.len() && tail[j] == close);
            if j < j0 {
                assert(tail[j] == s@[i + j]);
                assert(s@[i + j] != close);
            }
            if j > j0 {
                assert(tail[j0] != close);
            }
            assert(j == j0);
            assert(tail[0] == s@[i as int]);
            assert(tail.skip(j0 + 1) =~= s@.skip(k + 1));
        }
        Some(k)
    } else {
        proof {
            reveal(spec_strip_spans);
            assert forall|j: int|
                1 <= j < tail.len() && tail[j] == close implies !(forall|m: int|
                1 <= m < j ==> tail[m] != close && tail[m] != '\n') by {
                assert(tail[j] == s@[i + j]);
                if i + j < k {
                    assert(s@[i + j] != close);
                    assert(false);
                } else {
                    assert(j < tail.len());
                    assert(tail.len() == s@.len() - i);
                    assert(k <= i + j < s@.len());
                    assert(nl);
                    assert(s@[k as int] == '\n');
                    assert(i + j > k);
                    assert(tail[k - i] == s@[k as int]);
                }
            }
            assert(!spec_span_ok(tail, close));
            assert(tail[0] == s@[i as int]);
            assert(tail.drop_first() =~= s@.skip(i + 1));
        }
        None
    }
}

/// Removes every shortest `open ... close` span, scanning left to right; a
/// span does not cross a line break, and an unclosed `open` stays.
fn strip_spans(v: &Vec<char>, open: char, close: char) -> (r: Vec<char>)
    requires
        open != close,
        open != '\n',
        close != '\n',
    ensures
        r@ == spec_strip_spans(v@, open, close),
{
    let s = v;
    let mut r: Vec<char> = Vec::new();
    let mut i: usize = 0;
    proof {
        assert(s@.skip(0) =~= s@);
        assert(r@ + spec_strip_spans(s@, open, close) =~= spec_strip_spans(s@, open, close));
    }
    while i < s.len()
        invariant
            i <= s@.len(),
            open != close,
            open != '\n',
            close != '\n',
            r@ + spec_strip_spans(s@.skip(i as int), open, close) == spec_strip_spans(
                s@,
                open,
                close,
            ),
        decreases s@.len() - i,
    {
        let ghost tail = s@.skip(i as int);
        let c = s[i];
        if c == open {
            match scan_close(s, i, open, close) {
                Some(k) => {
                    i = k + 1;
                },
                None => {
                    let ghost r0 = r@;
                    r.push(c);
                    proof {
                        assert(r@ =~= r0 + seq![s@[i as int]]);
                        assert(r@ + spec_strip_spans(s@.skip(i + 1), open, close) =~= r0
                            + spec_strip_spans(tail, open, close));
                    }
                    i = i + 1;
                },
            }
        } else {
            proof {
                assert(tail[0] == s@[i as int]);
                assert(tail.drop_first() =~= s@.skip(i + 1));
                assert(spec_strip_spans(tail, open, close) == seq![s@[i as int]]
                    + spec_strip_spans(s@.skip(i + 1), open, close)) by {
                    reveal(spec_strip_spans);
                }
            }
            let ghost r0 = r@;
            r.push(c);
            proof {
                assert(r@ =~= r0 + seq![s@[i as int]]);
                assert(r@ + spec_strip_spans(s@.skip(i + 1), open, close) =~= r0
                    + spec_strip_spans(tail, open, close));
            }
            i = i + 1;
        }
    }
    proof {
        assert(s@.skip(s@.len() as int) =~= Seq::<char>::empty());
        assert(spec_strip_spans(Seq::<char>::empty(), open, close) == Seq::<char>::empty()) by {
            reveal(spec_strip_spans);
        }
        assert(r@ + Seq::<char>::empty() =~= r@);
    }
    r
}

/// The sequence with every HTML-entity fragment (`&` up to the next `;`)
/// removed.
pub open spec fn spec_strip_entities(s: Seq<char>) -> Seq<char> {
    spec_strip_spans(s, '&', ';')
}

/// The sequence with every inline tag (`<` up to the next `>`) removed.
pub open spec fn spec_remove_tags(s: Seq<char>) -> Seq<char> {
    spec_strip_spans(s, '<', '>')
}

/// The line with every inline tag removed.
pub fn re_remove_tags(line: &str) -> (r: String)
    ensures
        r@ == spec_remove_tags(line@),
{
    let v = chars_of(line);
    let stripped = strip_spans(&v, '<', '>');
    string_from_chars(&stripped)
}

/// The decimal digit characters of the sequence, in order.
pub open spec fn spec_digits_of(s: Seq<char>) -> Seq<char>
    decreases s.len(),
{
    if s.len() == 0 {
        Seq::empty()
    } else if spec_is_digit(s.last()) {
        spec_digits_of(s.drop_last()).push(s.last())
    } else {
        spec_digits_of(s.drop_last())
    }
}

pub proof fn lemma_digits_of_are_digits(s: Seq<char>)
    ensures
        forall|i: int|
            0 <= i < spec_digits_of(s).len() ==> spec_is_digit(#[trigger] spec_digits_of(s)[i]),
    decreases s.len(),
{
    if s.len() > 0 {
        lemma_digits_of_are_digits(s.drop_last());
        let prev = spec_digits_of(s.drop_last());
        assert forall|i: int|
            0 <= i < spec_digits_of(s).len() implies spec_is_digit(
            #[trigger] spec_digits_of(s)[i],
        ) by {
            if spec_is_digit(s.last()) {
                assert(spec_digits_of(s) == prev.push(s.last()));
                if i < prev.len() {
                    assert(spec_digits_of(s)[i] == prev[i]);
                }
            } else {
                assert(spec_digits_of(s) == prev);
            }
        }
    }
}

fn digits_of(v: &Vec<char>) -> (r: Vec<char>)
    ensures
        r@ == spec_digits_of(v@),
{
    let mut r: Vec<char> = Vec::new();
    let mut i: usize = 0;
    while i < v.len()
        invariant
            i <= v@.len(),
            r@ == spec_digits_of(v@.take(i as int)),
        decreases v@.len() - i,
    {
        proof {
            assert(v@.take(i + 1).drop_last() =~= v@.take(i as int));
            assert(v@.take(i + 1).last() == v@[i as int]);
        }
        if is_digit(v[i]) {
            r.push(v[i]);
        }
        i = i + 1;
    }
    proof {
        assert(v@.take(v@.len() as int) =~= v@);
    }
    r
}

/// The value of a digit sequence is nonnegative and grows (weakly) as digits
/// are appended on the right.
pub proof fn lemma_digits_val_nonneg(s: Seq<char>)
    requires
        forall|i: int| 0 <= i < s.len() ==> spec_is_digit(#[trigger] s[i]),
    ensures
        digits_val(s) >= 0,
    decreases s.len(),
{
    if s.len() > 0 {
        assert(forall|i: int|
            0 <= i < s.drop_last().len() ==> spec_is_digit(#[trigger] s.drop_last()[i]));
        lemma_digits_val_nonneg(s.drop_last());
    }
}

pub proof fn lemma_digits_val_prefix_le(s: Seq<char>, n: int)
    requires
        forall|i: int| 0 <= i < s.len() ==> spec_is_digit(#[trigger] s[i]),
        0 <= n <= s.len(),
    ensures
        digits_val(s.take(n)) <= digits_val(s),
    decreases s.len() - n,
{
    if n < s.len() {
        lemma_digits_val_prefix_le(s, n + 1);
        assert(s.take(n + 1).drop_last() =~= s.take(n));
        assert(s.take(n + 1).last() == s[n]);
        assert(forall|i: int| 0 <= i < s.take(n).len() ==> spec_is_digit(#[trigger] s.take(n)[i]));
        lemma_digits_val_nonneg(s.take(n));
        assert(digits_val(s.take(n + 1)) == digits_val(s.take(n)) * 10 + spec_digit_val(s[n]));
        assert(digits_val(s.take(n)) * 10 >= digits_val(s.take(n))) by (nonlinear_arith)
            requires
                digits_val(s.take(n)) >= 0,
        ;
    } else {
        assert(s.take(n) =~= s);
    }
}

/// The numeric value of the digit characters, if there is at least one digit
/// and the value fits; the parsed digits may carry leading zeros.
fn parse_digit_chars(v: &Vec<char>) -> (r: Option<u32>)
    requires
        forall|i: int| 0 <= i < v@.len() ==> spec_is_digit(#[trigger] v@[i]),
    ensures
        match r {
            Some(n) => v@.len() > 0 && digits_val(v@) == n,
            None => v@.len() == 0 || digits_val(v@) > u32::MAX,
        },
{
    if v.len() == 0 {
        return None;
    }
    let mut acc: u64 = 0;
    let mut i: usize = 0;
    while i < v.len()
        invariant
            i <= v@.len(),
            forall|k: int| 0 <= k < v@.len() ==> spec_is_digit(#[trigger] v@[k]),
            acc == digits_val(v@.take(i as int)),
            acc <= u32::MAX,
        decreases v@.len() - i,
    {
        let d = digit_val(v[i]);
        let next: u64 = acc * 10 + (d as u64);
        proof {
            assert(v@.take(i + 1).drop_last() =~= v@.take(i as int));
            assert(v@.take(i + 1).last() == v@[i as int]);
            assert(digits_val(v@.take(i + 1)) == digits_val(v@.take(i as int)) * 10
                + spec_digit_val(v@[i as int]));
        }
        if next > (u32::MAX as u64) {
            proof {
                lemma_digits_val_prefix_le(v@, i + 1);
            }
            return None;
        }
        acc = next;
        i = i + 1;
    }
    proof {
        assert(v@.take(v@.len() as int) =~= v@);
    }
    Some(acc as u32)
}

/// The canonical numeric id of a raw marker text: entity fragments stripped,
/// every remaining non-digit dropped, the digits read as a decimal number;
/// nothing when no digit remains or the value does not fit.
pub open spec fn spec_normalize_num(s: Seq<char>) -> Option<u32> {
    let digits = spec_digits_of(spec_strip_entities(s));
    if digits.len() == 0 {
        None
    } else if digits_val(digits) > u32::MAX {
        None
    } else {
        Some(digits_val(digits) as u32)
    }
}

/// Normalizes a raw number-marker text to its numeric id, or fails with a
/// `NumberParseFailure` naming the text, exactly when the text has no usable
/// digits or the value does not fit.
pub fn parse_poem_num_impl(s: &str) -> (r: PoemResult<u32>)
    ensures
        match r {
            Ok(n) => spec_normalize_num(s@) == Some(n),
            Err(e) => spec_normalize_num(s@) is None && (e matches Error::NumberParseFailure {
                text,
            } && text@ == s@),
        },
{
    let v = chars_of(s);
    let stripped = strip_spans(&v, '&', ';');
    let digits = digits_of(&stripped);
    proof {
        lemma_digits_of_are_digits(stripped@);
    }
    match parse_digit_chars(&digits) {
        Some(n) => Ok(n),
        None => Err(Error::NumberParseFailure { text: String::from_str(s) }),
    }
}

/// The first two adjacent decimal digits of the sequence, read as a number.
pub open spec fn spec_book_num(s: Seq<char>) -> Option<u32>
    decreases s.len(),
{
    if s.len() < 2 {
        None
    } else if spec_is_digit(s[0]) && spec_is_digit(s[1]) {
        Some((spec_digit_val(s[0]) * 10 + spec_digit_val(s[1])) as u32)
    } else {
        spec_book_num(s.drop_first())
    }
}

/// Reads the volume number out of a source file name: the first two adjacent
/// decimal digits. Fails with `UnexpectedFilename` exactly when there are
/// none.
pub fn parse_book_num(name: &str) -> (r: PoemResult<u32>)
    ensures
        match r {
            Ok(n) => spec_book_num(name@) == Some(n),
            Err(e) => spec_book_num(name@) is None && (e matches Error::UnexpectedFilename {
                file_name,
            } && file_name@ == name@),
        },
{
    let v = chars_of(name);
    let n = v.len();
    let mut i: usize = 0;
    proof {
        assert(name@.skip(0) =~= name@);
    }
    while i < n
        invariant
            i <= n,
            n == v@.len(),
            v@ == name@,
            spec_book_num(name@) == spec_book_num(name@.skip(i as int)),
        decreases n - i,
    {
        if i + 1 < n && is_digit(v[i]) && is_digit(v[i + 1]) {
            let r = digit_val(v[i]) * 10 + digit_val(v[i + 1]);
            proof {
                let tail = name@.skip(i as int);
                assert(tail[0] == name@[i as int]);
                assert(tail[1] == name@[i + 1]);
            }
            return Ok(r);
        }
        proof {
            let tail = name@.skip(i as int);
            if i + 1 < n {
                assert(tail[0] == name@[i as int]);
                assert(tail[1] == name@[i + 1]);
                assert(tail.drop_first() =~= name@.skip(i + 1));
            } else {
                assert(tail.len() < 2);
                assert(name@.skip(i + 1).len() < 2);
            }
        }
        i = i + 1;
    }
    proof {
        let tail = name@.skip(i as int);
        assert(tail.len() < 2);
    }
    Err(Error::UnexpectedFilename { file_name: String::from_str(name) })
}

} // verus!
