//! Reading the number of cells to seed from a line of input.
//!
//! The line is stripped of white space at both ends. What is left must be
//! an unsigned decimal number, which may have a `+` before it. A line that
//! is no such number, or a number too large for the machine, gives the
//! default; a number larger than the world gives the whole world.

use crate::render::{decimal, digit_char};
use crate::torus::{COLUMNS, ROWS};
use vstd::prelude::*;

verus! {

/// Number of cells that are seeded when the input names no number: half
/// the world.
pub const DEFAULT_ALIVE: usize = ROWS * COLUMNS / 2;

/// The characters that Unicode counts as white space.
pub open spec fn is_white_space(c: char) -> bool {
    let code: u32 = c as u32;
    ||| 0x09 <= code <= 0x0d
    ||| code == 0x20
    ||| code == 0x85
    ||| code == 0xa0
    ||| code == 0x1680
    ||| 0x2000 <= code <= 0x200a
    ||| code == 0x2028
    ||| code == 0x2029
    ||| code == 0x202f
    ||| code == 0x205f
    ||| code == 0x3000
}

/// `s` without the white space at its start and at its end.
pub open spec fn trimmed(s: Seq<char>) -> Seq<char>
    decreases s.len(),
{
    if s.len() > 0 && is_white_space(s.first()) {
        trimmed(s.drop_first())
    } else if s.len() > 0 && is_white_space(s.last()) {
        trimmed(s.drop_last())
    } else {
        s
    }
}

/// A decimal digit.
pub open spec fn is_digit(c: char) -> bool {
    '0' <= c <= '9'
}

/// Every character of `s` is a decimal digit.
pub open spec fn all_digits(s: Seq<char>) -> bool {
    forall|i: int| 0 <= i < s.len() ==> is_digit(#[trigger] s[i])
}

/// The number that the decimal digits `s` stand for; nothing for no digits.
pub open spec fn digits_value(s: Seq<char>) -> int
    decreases s.len(),
{
    if s.len() == 0 {
        0
    } else {
        digits_value(s.drop_last()) * 10 + (s.last() as int - '0' as int)
    }
}

/// The digits of a number: `s` itself, or what follows its leading `+`
/// where something follows it.
pub open spec fn digits_of(s: Seq<char>) -> Seq<char> {
    if s.len() > 1 && s.first() == '+' {
        s.drop_first()
    } else {
        s
    }
}

/// The number that `s` stands for, if it is one or more decimal digits,
/// with or without a `+` before them, and the number fits in a `usize`.
pub open spec fn parsed_count(s: Seq<char>) -> Option<usize> {
    let digits = digits_of(s);
    if digits.len() > 0 && all_digits(digits) && digits_value(digits) <= usize::MAX {
        Some(digits_value(digits) as usize)
    } else {
        None
    }
}

/// The number of cells to seed for what was parsed: the number itself,
/// but no more than the world holds, and the default for no number.
pub open spec fn count_for(parsed: Option<usize>) -> usize {
    match parsed {
        Some(n) => if n > ROWS * COLUMNS {
            (ROWS * COLUMNS) as usize
        } else {
            n
        },
        None => DEFAULT_ALIVE,
    }
}

/// The number of cells to seed that a line of input asks for.
pub open spec fn input_count(line: Seq<char>) -> usize {
    count_for(parsed_count(trimmed(line)))
}

/// A prefix of decimal digits stands for no more than the whole does.
pub proof fn lemma_digits_value_grows(s: Seq<char>, n: int)
    requires
        all_digits(s),
        0 <= n <= s.len(),
    ensures
        0 <= digits_value(s.take(n)) <= digits_value(s),
    decreases s.len(),
{
    if n == s.len() {
        assert(s.take(n) =~= s);
        if s.len() > 0 {
            lemma_digits_value_grows(s.drop_last(), n - 1);
            assert(s.drop_last().take(n - 1) =~= s.drop_last());
            assert(is_digit(s[s.len() - 1]));
        }
    } else {
        lemma_digits_value_grows(s.drop_last(), n);
        assert(s.drop_last().take(n) =~= s.take(n));
        assert(is_digit(s[s.len() - 1]));
    }
}

/// The decimal digits of a number are digits, and they stand for the
/// number.
pub proof fn lemma_decimal_is_digits(n: nat)
    ensures
        decimal(n).len() > 0,
        all_digits(decimal(n)),
        digits_value(decimal(n)) == n,
    decreases n,
{
    assert(decimal(n).last() == digit_char(n % 10));
    assert(digit_char(n % 10) as int == '0' as int + n % 10);
    if n < 10 {
        assert(decimal(n).drop_last() =~= Seq::<char>::empty());
        assert(digits_value(Seq::<char>::empty()) == 0);
    } else {
        lemma_decimal_is_digits(n / 10);
        assert(decimal(n).drop_last() =~= decimal(n / 10));
    }
}

/// A number that is written out in decimal digits is read back as itself:
/// a count that the status line shows, handed in as input, asks for that
/// many cells, or for the whole world if the world holds fewer.
pub proof fn lemma_decimal_reads_back(n: nat)
    requires
        n <= usize::MAX,
    ensures
        trimmed(decimal(n)) == decimal(n),
        parsed_count(decimal(n)) == Some(n as usize),
        input_count(decimal(n)) == if n > ROWS * COLUMNS {
            (ROWS * COLUMNS) as usize
        } else {
            n as usize
        },
{
    lemma_decimal_is_digits(n);
    let text = decimal(n);
    assert(is_digit(text[0]));
    assert(is_digit(text[text.len() - 1]));
}

/// The characters of `text`, in order.
fn chars_of(text: &str) -> (chars: Vec<char>)
    ensures
        chars@ == text@,
{
    let mut chars: Vec<char> = Vec::new();
    for c in it: text.chars()
        invariant
            it.seq() == text@,
            chars@ == it.seq().take(it.index()),
    {
        chars.push(c);
        assert(it.seq().take(it.index() + 1) =~= it.seq().take(it.index()).push(c));
    }
    assert(chars@ =~= text@);
    chars
}

/// Whether `c` is white space.
fn white_space(c: char) -> (white: bool)
    ensures
        white == is_white_space(c),
{
    let code: u32 = c as u32;
    (0x09 <= code && code <= 0x0d) || code == 0x20 || code == 0x85 || code == 0xa0 || code
        == 0x1680 || (0x2000 <= code && code <= 0x200a) || code == 0x2028 || code == 0x2029
        || code == 0x202f || code == 0x205f || code == 0x3000
}

/// The bounds of what is left of `chars` when the white space at both ends
/// is taken away: the index of the first character that stays, and the
/// index after the last.
fn trim(chars: &Vec<char>) -> (bounds: (usize, usize))
    ensures
        bounds.0 <= bounds.1 <= chars.len(),
        chars@.subrange(bounds.0 as int, bounds.1 as int) == trimmed(chars@),
{
    let mut start: usize = 0;
    assert(chars@.skip(0) =~= chars@);
    while start < chars.len() && white_space(chars[start])
        invariant
            start <= chars.len(),
            trimmed(chars@) == trimmed(chars@.skip(start as int)),
        decreases chars.len() - start,
    {
        assert(chars@.skip(start as int).drop_first() =~= chars@.skip(start + 1));
        start = start + 1;
    }
    let mut end: usize = chars.len();
    assert(chars@.subrange(start as int, end as int) =~= chars@.skip(start as int));
    while end > start && white_space(chars[end - 1])
        invariant
            start <= end <= chars.len(),
            start < chars.len() ==> !is_white_space(chars@[start as int]),
            trimmed(chars@) == trimmed(chars@.subrange(start as int, end as int)),
        decreases end - start,
    {
        assert(chars@.subrange(start as int, end as int).drop_last() =~= chars@.subrange(
            start as int,
            end - 1,
        ));
        end = end - 1;
    }
    (start, end)
}

/// The number that the characters of `chars` from `start` up to `end`
/// stand for, if they stand for one.
fn parse_count(chars: &Vec<char>, start: usize, end: usize) -> (parsed: Option<usize>)
    requires
        start <= end <= chars.len(),
    ensures
        parsed == parsed_count(chars@.subrange(start as int, end as int)),
{
    let ghost text = chars@.subrange(start as int, end as int);
    let mut first: usize = start;
    if end - start > 1 && chars[start] == '+' {
        first = start + 1;
    }
    let ghost digits = chars@.subrange(first as int, end as int);
    assert(digits =~= digits_of(text));
    if first == end {
        return None;
    }
    let mut value: usize = 0;
    let mut at: usize = first;
    while at < end
        invariant
            start <= first <= at <= end <= chars.len(),
            first < end,
            digits == chars@.subrange(first as int, end as int),
            digits == digits_of(chars@.subrange(start as int, end as int)),
            all_digits(digits.take(at - first)),
            value == digits_value(digits.take(at - first)),
        decreases end - at,
    {
        let c: char = chars[at];
        if !('0' <= c && c <= '9') {
            assert(!is_digit(digits[at - first]));
            return None;
        }
        let digit: usize = (c as u32 - '0' as u32) as usize;
        proof {
            assert(digits.take(at - first + 1).drop_last() =~= digits.take(at - first));
            assert(digits.take(at - first + 1).last() == c);
        }
        if value > (usize::MAX - digit) / 10 {
            proof {
                if all_digits(digits) {
                    lemma_digits_value_grows(digits, at - first + 1);
                }
            }
            return None;
        }
        value = value * 10 + digit;
        at = at + 1;
    }
    assert(digits.take(end - first) =~= digits);
    Some(value)
}

/// The number of cells to seed for what was parsed: the number itself, but
/// no more than the world holds; the default where nothing was parsed.
pub fn count_from(parsed: Option<usize>) -> (count: usize)
    ensures
        count == count_for(parsed),
        count <= ROWS * COLUMNS,
{
    match parsed {
        Some(num) => {
            if num > ROWS * COLUMNS {
                ROWS * COLUMNS
            } else {
                num
            }
        },
        None => DEFAULT_ALIVE,
    }
}

/// The number of cells to seed that `line` asks for, never more than the
/// world holds.
pub fn read_input(line: &str) -> (count: usize)
    ensures
        count == input_count(line@),
        count <= ROWS * COLUMNS,
{
    let chars = chars_of(line);
    let (start, end) = trim(&chars);
    let parsed: Option<usize> = parse_count(&chars, start, end);
    count_from(parsed)
}

} // verus!
