//! Progress extraction: finds an integer percentage in a text line.
//!
//! The extractor looks at the text strictly before the first `'%'` (the whole
//! line if there is none), takes the maximal trailing run of digits and
//! decimal points, reads it as a decimal number, rounds it to the nearest
//! integer (halves away from zero) and clamps the result to 100.

use vstd::prelude::*;

verus! {

use crate::text::first_index;
use crate::text::lemma_first_index;
use crate::text::lemma_first_index_unique;
use crate::text::find_char;
use crate::text::str_chars;
use crate::text::vec_skip;
use crate::text::vec_take;

/// An ASCII decimal digit.
pub open spec fn is_digit(c: char) -> bool {
    '0' <= c && c <= '9'
}

/// A character that may appear in a decimal number run.
pub open spec fn is_numchar(c: char) -> bool {
    is_digit(c) || c == '.'
}

/// The numeric value of a digit character.
pub open spec fn digit_val(c: char) -> int
    recommends
        is_digit(c),
{
    c as int - '0' as int
}

/// The text strictly before the first `'%'`; the whole text if there is
/// none.
pub open spec fn before_percent(s: Seq<char>) -> Seq<char> {
    s.take(first_index(s, '%'))
}

/// The maximal trailing run of digit/point characters.
pub open spec fn trailing_run(s: Seq<char>) -> Seq<char>
    decreases s.len(),
{
    if s.len() == 0 {
        s
    } else if is_numchar(s.last()) {
        trailing_run(s.drop_last()).push(s.last())
    } else {
        Seq::<char>::empty()
    }
}

/// Number of `'.'` characters.
pub open spec fn count_dots(s: Seq<char>) -> int
    decreases s.len(),
{
    if s.len() == 0 {
        0
    } else {
        count_dots(s.drop_last()) + if s.last() == '.' {
            1int
        } else {
            0int
        }
    }
}

/// Number of digit characters.
pub open spec fn count_digits(s: Seq<char>) -> int
    decreases s.len(),
{
    if s.len() == 0 {
        0
    } else {
        count_digits(s.drop_last()) + if is_digit(s.last()) {
            1int
        } else {
            0int
        }
    }
}

/// The value of a sequence of decimal digits (0 when empty).
pub open spec fn digits_val(s: Seq<char>) -> int
    decreases s.len(),
{
    if s.len() == 0 {
        0
    } else {
        10 * digits_val(s.drop_last()) + digit_val(s.last())
    }
}

/// A run reads as a number when it has at least one digit, at most one
/// decimal point, and nothing else.
pub open spec fn run_ok(run: Seq<char>) -> bool {
    &&& count_digits(run) >= 1
    &&& count_dots(run) <= 1
    &&& forall|i: int| 0 <= i < run.len() ==> is_numchar(#[trigger] run[i])
}

/// The value of a number run, rounded to the nearest integer with halves
/// rounded up: the integer part, plus one when the first fractional digit
/// is five or more.
pub open spec fn rounded_value(run: Seq<char>) -> int
    recommends
        run_ok(run),
{
    let d = first_index(run, '.');
    let up = d + 1 < run.len() && digit_val(run[d + 1]) >= 5;
    digits_val(run.take(d)) + if up {
        1int
    } else {
        0int
    }
}

/// A nonnegative value clamped to 100.
pub open spec fn clamp100(v: int) -> u8
    recommends
        v >= 0,
{
    if v > 100 {
        100
    } else {
        v as u8
    }
}

/// What `find_percentage` returns for a given line.
pub open spec fn percentage_of(s: Seq<char>) -> Option<u8> {
    let run = trailing_run(before_percent(s));
    if run_ok(run) {
        Some(clamp100(rounded_value(run)))
    } else {
        None
    }
}

proof fn lemma_count_dots_nonneg(s: Seq<char>)
    ensures
        count_dots(s) >= 0,
    decreases s.len(),
{
    if s.len() > 0 {
        lemma_count_dots_nonneg(s.drop_last());
    }
}

proof fn lemma_count_dots_one(s: Seq<char>, i: int)
    requires
        0 <= i < s.len(),
        s[i] == '.',
    ensures
        count_dots(s) >= 1,
    decreases s.len(),
{
    lemma_count_dots_nonneg(s.drop_last());
    if i < s.len() - 1 {
        lemma_count_dots_one(s.drop_last(), i);
    }
}

/// Two distinct points force a dot count of at least two.
proof fn lemma_count_dots_two(s: Seq<char>, i: int, j: int)
    requires
        0 <= i < j < s.len(),
        s[i] == '.',
        s[j] == '.',
    ensures
        count_dots(s) >= 2,
    decreases s.len(),
{
    if j == s.len() - 1 {
        lemma_count_dots_one(s.drop_last(), i);
    } else {
        lemma_count_dots_two(s.drop_last(), i, j);
    }
}

/// The trailing run is the suffix that starts at the first position after
/// which everything is a digit or point.
proof fn lemma_trailing_run_at(t: Seq<char>, k: int)
    requires
        0 <= k <= t.len(),
        forall|j: int| k <= j < t.len() ==> is_numchar(#[trigger] t[j]),
        k > 0 ==> !is_numchar(t[k - 1]),
    ensures
        trailing_run(t) == t.skip(k),
    decreases t.len(),
{
    if t.len() == 0 {
        assert(trailing_run(t) =~= t.skip(k));
    } else if k == t.len() {
        assert(!is_numchar(t.last()));
        assert(trailing_run(t) =~= t.skip(k));
    } else {
        assert(is_numchar(t.last()));
        lemma_trailing_run_at(t.drop_last(), k);
        assert(t.skip(k) =~= t.drop_last().skip(k).push(t.last()));
    }
}

/// Whenever a line contains a well-formed nonnegative number directly
/// before its first `'%'` — nothing numeric just before the number, no
/// earlier `'%'` — the extractor returns exactly that number, rounded to
/// the nearest integer and clamped to 100.
pub proof fn lemma_percentage_found(prefix: Seq<char>, num: Seq<char>, rest: Seq<char>)
    requires
        run_ok(num),
        forall|j: int| 0 <= j < prefix.len() ==> prefix[j] != '%',
        prefix.len() > 0 ==> !is_numchar(prefix.last()),
    ensures
        percentage_of(prefix + num + seq!['%'] + rest) == Some(clamp100(rounded_value(num))),
{
    let s = prefix + num + seq!['%'] + rest;
    let i = prefix.len() + num.len();
    assert(s[i as int] == '%');
    assert forall|j: int| 0 <= j < i implies s[j] != '%' by {
        if j < prefix.len() {
            assert(s[j] == prefix[j]);
        } else {
            assert(s[j] == num[j - prefix.len()]);
            assert(is_numchar(num[j - prefix.len()]));
        }
    }
    lemma_first_index_unique(s, '%', i as int);
    assert(before_percent(s) =~= prefix + num);
    assert forall|j: int|
        prefix.len() <= j < (prefix + num).len() implies is_numchar(
        #[trigger] (prefix + num)[j],
    ) by {
        assert((prefix + num)[j] == num[j - prefix.len()]);
    }
    lemma_trailing_run_at(prefix + num, prefix.len() as int);
    assert((prefix + num).skip(prefix.len() as int) =~= num);
}

/// When the first `'%'` of a line stands first or directly after a
/// character that is neither a digit nor a point, no percentage is
/// extracted.
pub proof fn lemma_percentage_missing(s: Seq<char>)
    requires
        first_index(s, '%') < s.len(),
        first_index(s, '%') == 0 || !is_numchar(s[first_index(s, '%') - 1]),
    ensures
        percentage_of(s) == None::<u8>,
{
    let i = first_index(s, '%');
    lemma_first_index(s, '%');
    let t = before_percent(s);
    lemma_trailing_run_at(t, i);
    assert(t.skip(i) =~= Seq::<char>::empty());
    assert(count_digits(Seq::<char>::empty()) == 0);
}

/// The numeric value of a digit character, for executable code.
fn digit_value(c: char) -> (d: u64)
    requires
        is_digit(c),
    ensures
        d == digit_val(c),
{
    if c == '0' {
        0
    } else if c == '1' {
        1
    } else if c == '2' {
        2
    } else if c == '3' {
        3
    } else if c == '4' {
        4
    } else if c == '5' {
        5
    } else if c == '6' {
        6
    } else if c == '7' {
        7
    } else if c == '8' {
        8
    } else {
        9
    }
}

/// Reads a digit/point run as a decimal number rounded to the nearest
/// integer and clamped to 100; `None` when the run is not a number.
#[verifier::loop_isolation(false)]
fn parse_run(run: &Vec<char>) -> (r: Option<u8>)
    requires
        forall|i: int| 0 <= i < run@.len() ==> is_numchar(#[trigger] run@[i]),
    ensures
        r == (if run_ok(run@) {
            Some(clamp100(rounded_value(run@)))
        } else {
            None
        }),
        r matches Some(p) ==> p <= 100,
{
    let n = run.len();
    // Count digits and points over the whole run.
    let mut ndigits: usize = 0;
    let mut ndots: usize = 0;
    let mut i: usize = 0;
    while i < n
        invariant
            i <= n,
            ndigits == count_digits(run@.take(i as int)),
            ndots == count_dots(run@.take(i as int)),
            ndigits <= i,
            ndots <= i,
        decreases n - i,
    {
        proof {
            assert(run@.take(i + 1).drop_last() =~= run@.take(i as int));
        }
        if run[i] == '.' {
            ndots = ndots + 1;
        } else {
            ndigits = ndigits + 1;
        }
        i = i + 1;
    }
    proof {
        assert(run@.take(n as int) =~= run@);
    }
    if ndigits == 0 || ndots > 1 {
        return None;
    }
    // The integer part ends at the first point (or at the end).
    let d = find_char(run, '.');
    proof {
        lemma_first_index(run@, '.');
    }
    // Its value, saturated just above the clamp bound.
    let mut acc: u64 = 0;
    let mut i: usize = 0;
    while i < d
        invariant
            i <= d <= n,
            acc == (if digits_val(run@.take(i as int)) > 100 {
                101int
            } else {
                digits_val(run@.take(i as int))
            }),
        decreases d - i,
    {
        proof {
            assert(run@.take(i + 1).drop_last() =~= run@.take(i as int));
            assert(is_numchar(run@[i as int]) && run@[i as int] != '.');
        }
        let dv: u64 = digit_value(run[i]);
        acc = acc * 10 + dv;
        if acc > 101 {
            acc = 101;
        }
        i = i + 1;
    }
    // Round up when the first fractional digit is five or more.
    let mut up: bool = false;
    if d < n && n - d > 1 {
        proof {
            if run@[d + 1] == '.' {
                lemma_count_dots_two(run@, d as int, d + 1);
            }
            assert(is_digit(run@[d + 1]));
        }
        up = run[d + 1] >= '5';
    }
    proof {
        assert(up == (first_index(run@, '.') + 1 < run@.len() && digit_val(
            run@[first_index(run@, '.') + 1],
        ) >= 5));
    }
    let rounded: u64 = acc + if up {
        1
    } else {
        0
    };
    let r: u8 = if rounded > 100 {
        100
    } else {
        rounded as u8
    };
    Some(r)
}

/// Extracts the percentage named by a line of progress output, if any:
/// the maximal decimal-number run just before the first `'%'` (or at the
/// very end of a line without one), rounded to the nearest integer and
/// clamped to 100.
pub fn find_percentage(s: &str) -> (r: Option<u8>)
    ensures
        r == percentage_of(s@),
        r matches Some(p) ==> p <= 100,
{
    let v = str_chars(s);
    let p = find_char(&v, '%');
    proof {
        lemma_first_index(v@, '%');
    }
    let before = vec_take(&v, p);
    // Scan backward to the start of the trailing digit/point run.
    let mut start: usize = p;
    while start > 0
        invariant
            start <= p,
            p == before@.len(),
            forall|j: int| start <= j < p ==> is_numchar(#[trigger] before@[j]),
        ensures
            start <= p,
            p == before@.len(),
            forall|j: int| start <= j < p ==> is_numchar(#[trigger] before@[j]),
            start > 0 ==> !is_numchar(before@[start - 1]),
        decreases start,
    {
        let c: char = before[start - 1];
        if ('0' <= c && c <= '9') || c == '.' {
            start = start - 1;
        } else {
            break ;
        }
    }
    proof {
        lemma_trailing_run_at(before@, start as int);
    }
    let run = vec_skip(&before, start);
    parse_run(&run)
}

} // verus!

