//! Reading and writing the pieces of text that the native image format is
//! made of: lines, white space, and decimal numbers.

use vstd::prelude::*;

verus! {

pub const NEWLINE: u8 = 10;

pub const SPACE: u8 = 32;

pub const HASH: u8 = 35;

pub const PLUS: u8 = 43;

pub const ZERO: u8 = 48;

/// White space: a blank, a tab, a line feed, a vertical tab, a form feed or
/// a carriage return. No byte outside ASCII counts as white space.
pub open spec fn is_space(b: u8) -> bool {
    b == 32 || (9 <= b && b <= 13)
}

pub open spec fn is_digit(b: u8) -> bool {
    48 <= b && b <= 57
}

/// What a digit is worth; 0 for a byte that is no digit.
pub open spec fn digit_value(b: u8) -> nat {
    if is_digit(b) {
        (b - 48) as nat
    } else {
        0
    }
}

/// The first index from `i` on at which `s` holds a line feed, or the length
/// of `s` where there is none.
pub open spec fn line_end(s: Seq<u8>, i: int) -> int
    decreases s.len() - i,
{
    if i >= s.len() {
        s.len() as int
    } else if s[i] == 10 {
        i
    } else {
        line_end(s, i + 1)
    }
}

/// Where the line after the one that holds index `i` begins.
pub open spec fn next_line(s: Seq<u8>, i: int) -> int {
    let e = line_end(s, i);
    if e < s.len() {
        e + 1
    } else {
        e
    }
}

/// The first index in `i..end` whose byte is no white space, or `end`.
pub open spec fn skip_spaces(s: Seq<u8>, i: int, end: int) -> int
    decreases end - i,
{
    if i >= end {
        end
    } else if is_space(s[i]) {
        skip_spaces(s, i + 1, end)
    } else {
        i
    }
}

/// The first index in `i..end` whose byte is white space, or `end`.
pub open spec fn token_end(s: Seq<u8>, i: int, end: int) -> int
    decreases end - i,
{
    if i >= end {
        end
    } else if is_space(s[i]) {
        i
    } else {
        token_end(s, i + 1, end)
    }
}

pub open spec fn all_digits(s: Seq<u8>, lo: int, hi: int) -> bool {
    forall|k: int| lo <= k < hi ==> is_digit(#[trigger] s[k])
}

/// The number that the digits `lo..hi` of `s` spell in base ten.
pub open spec fn digits_value(s: Seq<u8>, lo: int, hi: int) -> nat
    decreases hi - lo,
{
    if hi <= lo {
        0
    } else {
        digits_value(s, lo, hi - 1) * 10 + digit_value(s[hi - 1])
    }
}

/// The number that the bytes `lo..hi` of `s` spell: a plus sign or none, then
/// digits, at least one. Nothing where they are anything else, or spell more
/// than a `usize` holds.
pub open spec fn number(s: Seq<u8>, lo: int, hi: int) -> Option<usize> {
    let from = if lo < hi && s[lo] == 43 {
        lo + 1
    } else {
        lo
    };
    if from < hi && all_digits(s, from, hi) && digits_value(s, from, hi) <= usize::MAX {
        Some(digits_value(s, from, hi) as usize)
    } else {
        None
    }
}

/// The numbers that the bytes from `i` on spell, separated by white space.
/// Nothing where one of the pieces between white space is no number.
pub open spec fn numbers(s: Seq<u8>, i: int) -> Option<Seq<usize>>
    decreases s.len() - i,
{
    if i < 0 || i >= s.len() {
        Some(Seq::empty())
    } else {
        let a = skip_spaces(s, i, s.len() as int);
        if a >= s.len() {
            Some(Seq::empty())
        } else {
            let b = token_end(s, a, s.len() as int);
            proof {
                lemma_skip_spaces(s, i, s.len() as int);
                lemma_token_end(s, a, s.len() as int);
            }
            match (number(s, a, b), numbers(s, b)) {
                (Some(v), Some(rest)) => Some(seq![v] + rest),
                _ => None,
            }
        }
    }
}

pub proof fn lemma_line_end(s: Seq<u8>, i: int)
    requires
        0 <= i <= s.len(),
    ensures
        i <= line_end(s, i) <= s.len(),
        line_end(s, i) < s.len() ==> s[line_end(s, i)] == 10,
        forall|k: int| i <= k < line_end(s, i) ==> #[trigger] s[k] != 10,
        i < s.len() ==> i < next_line(s, i) <= s.len(),
        i == s.len() ==> next_line(s, i) == i,
    decreases s.len() - i,
{
    if i < s.len() && s[i] != 10 {
        lemma_line_end(s, i + 1);
    }
}

pub proof fn lemma_skip_spaces(s: Seq<u8>, i: int, end: int)
    requires
        0 <= i <= end <= s.len(),
    ensures
        i <= skip_spaces(s, i, end) <= end,
        skip_spaces(s, i, end) < end ==> !is_space(s[skip_spaces(s, i, end)]),
        forall|k: int| i <= k < skip_spaces(s, i, end) ==> is_space(#[trigger] s[k]),
    decreases end - i,
{
    if i < end && is_space(s[i]) {
        lemma_skip_spaces(s, i + 1, end);
    }
}

pub proof fn lemma_token_end(s: Seq<u8>, i: int, end: int)
    requires
        0 <= i <= end <= s.len(),
    ensures
        i <= token_end(s, i, end) <= end,
        token_end(s, i, end) < end ==> is_space(s[token_end(s, i, end)]),
        forall|k: int| i <= k < token_end(s, i, end) ==> !is_space(#[trigger] s[k]),
        i < end && !is_space(s[i]) ==> i < token_end(s, i, end),
    decreases end - i,
{
    if i < end && !is_space(s[i]) {
        lemma_token_end(s, i + 1, end);
    }
}

/// More digits never spell less.
pub proof fn lemma_digits_grow(s: Seq<u8>, lo: int, mid: int, hi: int)
    requires
        lo <= mid <= hi,
    ensures
        digits_value(s, lo, mid) <= digits_value(s, lo, hi),
    decreases hi - mid,
{
    if mid < hi {
        lemma_digits_grow(s, lo, mid, hi - 1);
    }
}

/// The index at which the line that holds `i` ends.
pub fn find_line_end(s: &[u8], i: usize) -> (e: usize)
    requires
        i <= s@.len(),
    ensures
        e == line_end(s@, i as int),
        i <= e <= s@.len(),
{
    let mut k: usize = i;
    while k < s.len() && s[k] != NEWLINE
        invariant
            i <= k <= s@.len(),
            line_end(s@, i as int) == line_end(s@, k as int),
        decreases s@.len() - k,
    {
        k += 1;
    }
    k
}

/// The index at which the line after the one that holds `i` begins.
pub fn find_next_line(s: &[u8], i: usize) -> (n: usize)
    requires
        i <= s@.len(),
    ensures
        n == next_line(s@, i as int),
        i <= n <= s@.len(),
        i < s@.len() ==> i < n,
{
    proof {
        lemma_line_end(s@, i as int);
    }
    let e = find_line_end(s, i);
    if e < s.len() {
        e + 1
    } else {
        e
    }
}

fn space(b: u8) -> (yes: bool)
    ensures
        yes == is_space(b),
{
    b == SPACE || (b >= 9 && b <= 13)
}

/// The first index in `i..end` that holds no white space.
pub fn pass_spaces(s: &[u8], i: usize, end: usize) -> (at: usize)
    requires
        i <= end <= s@.len(),
    ensures
        at == skip_spaces(s@, i as int, end as int),
        i <= at <= end,
{
    let mut k: usize = i;
    while k < end && space(s[k])
        invariant
            i <= k <= end <= s@.len(),
            skip_spaces(s@, i as int, end as int) == skip_spaces(s@, k as int, end as int),
        decreases end - k,
    {
        k += 1;
    }
    k
}

/// The first index in `i..end` that holds white space.
pub fn find_token_end(s: &[u8], i: usize, end: usize) -> (at: usize)
    requires
        i <= end <= s@.len(),
    ensures
        at == token_end(s@, i as int, end as int),
        i <= at <= end,
{
    let mut k: usize = i;
    while k < end && !space(s[k])
        invariant
            i <= k <= end <= s@.len(),
            token_end(s@, i as int, end as int) == token_end(s@, k as int, end as int),
        decreases end - k,
    {
        k += 1;
    }
    k
}

/// The number that the bytes `lo..hi` spell.
pub fn read_number(s: &[u8], lo: usize, hi: usize) -> (found: Option<usize>)
    requires
        lo <= hi <= s@.len(),
    ensures
        found == number(s@, lo as int, hi as int),
{
    let from: usize = if lo < hi && s[lo] == PLUS {
        lo + 1
    } else {
        lo
    };
    if from >= hi {
        return None;
    }
    let mut value: usize = 0;
    let mut k: usize = from;
    while k < hi
        invariant
            from <= k <= hi <= s@.len(),
            from < hi,
            from == (if lo < hi && s@[lo as int] == 43 {
                lo + 1
            } else {
                lo as int
            }),
            all_digits(s@, from as int, k as int),
            value == digits_value(s@, from as int, k as int),
        decreases hi - k,
    {
        let b = s[k];
        if b < ZERO || b > 57 {
            assert(!is_digit(s@[k as int]));
            return None;
        }
        proof {
            lemma_digits_grow(s@, from as int, k + 1, hi as int);
        }
        let digit: usize = (b - ZERO) as usize;
        match value.checked_mul(10) {
            Some(tens) => match tens.checked_add(digit) {
                Some(next) => {
                    value = next;
                },
                None => {
                    return None;
                },
            },
            None => {
                return None;
            },
        }
        k += 1;
    }
    Some(value)
}

/// The numbers that the bytes from `start` on spell.
pub fn read_numbers(s: &[u8], start: usize) -> (found: Option<Vec<usize>>)
    requires
        start <= s@.len(),
    ensures
        found is Some <==> numbers(s@, start as int) is Some,
        found matches Some(v) ==> v@ == numbers(s@, start as int)->0,
{
    let len = s.len();
    let mut values: Vec<usize> = Vec::new();
    let mut pos: usize = start;
    loop
        invariant
            start <= pos <= len == s@.len(),
            numbers(s@, start as int) == (match numbers(s@, pos as int) {
                Some(rest) => Some(values@ + rest),
                None => None,
            }),
        decreases len - pos,
    {
        proof {
            lemma_skip_spaces(s@, pos as int, len as int);
        }
        let a = pass_spaces(s, pos, len);
        if a >= len {
            proof {
                assert(values@ + Seq::<usize>::empty() =~= values@);
            }
            return Some(values);
        }
        proof {
            lemma_token_end(s@, a as int, len as int);
        }
        let b = find_token_end(s, a, len);
        match read_number(s, a, b) {
            Some(v) => {
                proof {
                    let rest = numbers(s@, b as int);
                    if rest is Some {
                        assert(values@ + (seq![v] + rest->0) =~= values@.push(v) + rest->0);
                    }
                }
                values.push(v);
                pos = b;
            },
            None => {
                return None;
            },
        }
    }
}

/// The digits of `n` in base ten, without leading zeros.
pub open spec fn decimal(n: nat) -> Seq<u8>
    decreases n,
{
    if n < 10 {
        seq![(48 + n) as u8]
    } else {
        decimal(n / 10).push((48 + n % 10) as u8)
    }
}

/// Appends the digits of `n` in base ten.
pub fn push_decimal(out: &mut Vec<u8>, n: usize)
    ensures
        final(out)@ == old(out)@ + decimal(n as nat),
    decreases n,
{
    if n >= 10 {
        push_decimal(out, n / 10);
    }
    let digit: u8 = (n % 10) as u8;
    out.push(ZERO + digit);
    proof {
        if n >= 10 {
            assert(out@ =~= old(out)@ + decimal(n as nat));
        } else {
            assert(out@ =~= old(out)@ + decimal(n as nat));
        }
    }
}

/// Whether the line that begins at `i` is a comment: its first byte is a
/// hash sign or, where `lenient`, its first byte after white space is.
pub open spec fn is_comment(s: Seq<u8>, i: int, lenient: bool) -> bool {
    let e = line_end(s, i);
    let first = if lenient {
        skip_spaces(s, i, e)
    } else {
        i
    };
    first < e && s[first] == 35
}

/// Where the first line from `i` on begins that is no comment.
pub open spec fn skip_comments(s: Seq<u8>, i: int, lenient: bool) -> int
    decreases s.len() - i,
{
    if 0 <= i < s.len() && is_comment(s, i, lenient) {
        proof {
            lemma_line_end(s, i);
        }
        skip_comments(s, next_line(s, i), lenient)
    } else {
        i
    }
}

pub proof fn lemma_skip_comments(s: Seq<u8>, i: int, lenient: bool)
    requires
        0 <= i <= s.len(),
    ensures
        i <= skip_comments(s, i, lenient) <= s.len(),
    decreases s.len() - i,
{
    if i < s.len() && is_comment(s, i, lenient) {
        lemma_line_end(s, i);
        lemma_skip_comments(s, next_line(s, i), lenient);
    }
}

fn comment_at(s: &[u8], i: usize, lenient: bool) -> (yes: bool)
    requires
        i <= s@.len(),
    ensures
        yes == is_comment(s@, i as int, lenient),
{
    let e = find_line_end(s, i);
    let first = if lenient {
        pass_spaces(s, i, e)
    } else {
        i
    };
    first < e && s[first] == HASH
}

/// The index at which the first line from `i` on begins that is no comment.
pub fn pass_comments(s: &[u8], i: usize, lenient: bool) -> (at: usize)
    requires
        i <= s@.len(),
    ensures
        at == skip_comments(s@, i as int, lenient),
        i <= at <= s@.len(),
{
    let mut k: usize = i;
    while k < s.len() && comment_at(s, k, lenient)
        invariant
            i <= k <= s@.len(),
            skip_comments(s@, i as int, lenient) == skip_comments(s@, k as int, lenient),
        decreases s@.len() - k,
    {
        k = find_next_line(s, k);
    }
    k
}

/// The digits of a number are digits, and there is at least one.
pub proof fn lemma_decimal(n: nat)
    ensures
        decimal(n).len() >= 1,
        forall|k: int| 0 <= k < decimal(n).len() ==> is_digit(#[trigger] decimal(n)[k]),
    decreases n,
{
    if n >= 10 {
        lemma_decimal(n / 10);
    }
}

/// Where `s` holds the digits of `n`, they spell `n`.
pub proof fn lemma_decimal_value(s: Seq<u8>, lo: int, hi: int, n: nat)
    requires
        0 <= lo <= hi <= s.len(),
        s.subrange(lo, hi) == decimal(n),
    ensures
        lo < hi,
        all_digits(s, lo, hi),
        digits_value(s, lo, hi) == n,
    decreases n,
{
    lemma_decimal(n);
    assert forall|k: int| lo <= k < hi implies #[trigger] s[k] == decimal(n)[k - lo] by {
        assert(s.subrange(lo, hi)[k - lo] == s[k]);
    }
    if n < 10 {
        assert(decimal(n).len() == 1);
        assert(s[lo] == decimal(n)[0]);
        assert(digits_value(s, lo, lo) == 0);
    } else {
        assert(decimal(n).len() == decimal(n / 10).len() + 1);
        assert(s.subrange(lo, hi - 1) =~= decimal(n / 10));
        lemma_decimal_value(s, lo, hi - 1, n / 10);
        assert(s[hi - 1] == decimal(n)[hi - 1 - lo]);
    }
}

/// Where `s` holds the digits of `n`, they are read as the number `n`.
pub proof fn lemma_number_of_decimal(s: Seq<u8>, lo: int, hi: int, n: usize)
    requires
        0 <= lo <= hi <= s.len(),
        s.subrange(lo, hi) == decimal(n as nat),
    ensures
        lo < hi,
        number(s, lo, hi) == Some(n),
        forall|k: int| lo <= k < hi ==> is_digit(#[trigger] s[k]),
{
    lemma_decimal_value(s, lo, hi, n as nat);
    assert(is_digit(s[lo]));
}

/// The line that begins at `i` ends at `j` where no byte from `i` to `j` is
/// a line feed and `j` holds one or is the end.
pub proof fn lemma_line_end_is(s: Seq<u8>, i: int, j: int)
    requires
        0 <= i <= j <= s.len(),
        forall|k: int| i <= k < j ==> #[trigger] s[k] != 10,
        j == s.len() || s[j] == 10,
    ensures
        line_end(s, i) == j,
    decreases j - i,
{
    if i < j {
        lemma_line_end_is(s, i + 1, j);
    }
}

pub proof fn lemma_skip_spaces_is(s: Seq<u8>, i: int, j: int, end: int)
    requires
        0 <= i <= j <= end <= s.len(),
        forall|k: int| i <= k < j ==> is_space(#[trigger] s[k]),
        j == end || !is_space(s[j]),
    ensures
        skip_spaces(s, i, end) == j,
    decreases j - i,
{
    if i < j {
        lemma_skip_spaces_is(s, i + 1, j, end);
    }
}

pub proof fn lemma_token_end_is(s: Seq<u8>, i: int, j: int, end: int)
    requires
        0 <= i <= j <= end <= s.len(),
        forall|k: int| i <= k < j ==> !is_space(#[trigger] s[k]),
        j == end || is_space(s[j]),
    ensures
        token_end(s, i, end) == j,
    decreases j - i,
{
    if i < j {
        lemma_token_end_is(s, i + 1, j, end);
    }
}

/// A number that stands at `i` and ends at `j`, before white space or the
/// end, is the first of the numbers from `i` on; the others are those from
/// `j` on.
pub proof fn lemma_numbers_step(s: Seq<u8>, i: int, j: int, v: usize)
    requires
        0 <= i <= j <= s.len(),
        s.subrange(i, j) == decimal(v as nat),
        j == s.len() || is_space(s[j]),
    ensures
        numbers(s, i) == (match numbers(s, j) {
            Some(rest) => Some(seq![v] + rest),
            None => None,
        }),
{
    lemma_number_of_decimal(s, i, j, v);
    assert(!is_space(s[i]));
    lemma_skip_spaces_is(s, i, i, s.len() as int);
    assert forall|k: int| i <= k < j implies !is_space(#[trigger] s[k]) by {
        assert(is_digit(s[k]));
    }
    lemma_token_end_is(s, i, j, s.len() as int);
}

/// White space before the numbers changes nothing.
pub proof fn lemma_numbers_skip(s: Seq<u8>, i: int, j: int)
    requires
        0 <= i <= j <= s.len(),
        forall|k: int| i <= k < j ==> is_space(#[trigger] s[k]),
    ensures
        numbers(s, i) == numbers(s, j),
    decreases j - i,
{
    if i < j {
        lemma_numbers_skip(s, i + 1, j);
        let len = s.len() as int;
        assert(skip_spaces(s, i, len) == skip_spaces(s, i + 1, len));
        if i + 1 < len {
        } else {
            assert(skip_spaces(s, i + 1, len) == len);
        }
    }
}

} // verus!
