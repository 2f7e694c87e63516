//! Character-level text operations.

use vstd::prelude::*;
use vstd::string::*;

verus! {

broadcast use vstd::string::group_string_axioms;

/// `String::push` puts one character at the end of the string.
pub assume_specification[ String::push ](text: &mut String, c: char)
    ensures
        final(text)@ == old(text)@.push(c),
;

/// The characters of `text`, in order.
pub fn chars_of(text: &str) -> (chars: Vec<char>)
    ensures
        chars@ == text@,
{
    let mut chars: Vec<char> = Vec::new();
    for c in it: text.chars()
        invariant
            it.seq() == text@,
            chars@ == text@.take(it.index() as int),
    {
        assert(text@.take(it.index() as int).push(c) =~= text@.take(it.index() + 1));
        chars.push(c);
    }
    assert(text@.take(text@.len() as int) =~= text@);
    chars
}

/// The characters `from..to` as a string.
pub fn string_from(chars: &Vec<char>, from: usize, to: usize) -> (text: String)
    requires
        from <= to <= chars.len(),
    ensures
        text@ == chars@.subrange(from as int, to as int),
{
    let mut text = String::new();
    let mut i: usize = from;
    while i < to
        invariant
            from <= i <= to <= chars.len(),
            text@ == chars@.subrange(from as int, i as int),
        decreases to - i,
    {
        text.push(chars[i]);
        i = i + 1;
        assert(text@ =~= chars@.subrange(from as int, i as int));
    }
    text
}

/// Whether two strings hold the same characters.
pub fn same_text(left: &str, right: &str) -> (same: bool)
    ensures
        same == (left@ == right@),
{
    left.to_owned() == right.to_owned()
}

/// `head` and then `tail`.
pub fn joined(head: &str, tail: &str) -> (text: String)
    ensures
        text@ == head@ + tail@,
{
    let mut text: String = head.to_owned();
    text.append(tail);
    text
}

// ---- searching ----

/// Whether `needle` stands in `text` from position `i` on.
pub open spec fn occurs_at(text: Seq<char>, needle: Seq<char>, i: int) -> bool {
    &&& 0 <= i
    &&& i + needle.len() <= text.len()
    &&& text.subrange(i, i + needle.len()) == needle
}

/// Whether `i` is the leftmost position at which `needle` stands in `text`.
pub open spec fn first_at(text: Seq<char>, needle: Seq<char>, i: int) -> bool {
    &&& occurs_at(text, needle, i)
    &&& forall|j: int| 0 <= j < i ==> !occurs_at(text, needle, j)
}

/// Whether `needle` stands nowhere in `text`.
pub open spec fn absent(text: Seq<char>, needle: Seq<char>) -> bool {
    forall|j: int| !occurs_at(text, needle, j)
}

/// Whether `text` begins with `prefix`.
pub open spec fn begins_with(text: Seq<char>, prefix: Seq<char>) -> bool {
    occurs_at(text, prefix, 0)
}

/// Whether `text` ends with `suffix`.
pub open spec fn finishes_with(text: Seq<char>, suffix: Seq<char>) -> bool {
    occurs_at(text, suffix, text.len() - suffix.len())
}

/// The leftmost position is unique.
pub proof fn first_at_unique(text: Seq<char>, needle: Seq<char>, i: int, j: int)
    requires
        first_at(text, needle, i),
        first_at(text, needle, j),
    ensures
        i == j,
{
}

/// Where something occurs, it occurs leftmost somewhere.
pub proof fn first_occurrence(text: Seq<char>, needle: Seq<char>, k: int)
    requires
        occurs_at(text, needle, k),
    ensures
        exists|i: int| first_at(text, needle, i) && i <= k,
    decreases k,
{
    if exists|j: int| 0 <= j < k && occurs_at(text, needle, j) {
        let j = choose|j: int| 0 <= j < k && occurs_at(text, needle, j);
        first_occurrence(text, needle, j);
    } else {
        assert(first_at(text, needle, k));
    }
}

/// The leftmost position of `needle` in `text`.
pub open spec fn first_position(text: Seq<char>, needle: Seq<char>) -> int {
    choose|i: int| first_at(text, needle, i)
}

/// Whether `needle` stands in `text` from position `i` on.
pub fn stands_at(text: &Vec<char>, needle: &Vec<char>, i: usize) -> (found: bool)
    ensures
        found == occurs_at(text@, needle@, i as int),
{
    if needle.len() > text.len() || i > text.len() - needle.len() {
        return false;
    }
    let mut k: usize = 0;
    while k < needle.len()
        invariant
            k <= needle.len() <= text.len(),
            i <= text.len() - needle.len(),
            forall|m: int| 0 <= m < k ==> text@[i + m] == needle@[m],
        decreases needle.len() - k,
    {
        if text[i + k] != needle[k] {
            assert(text@.subrange(i as int, i + needle.len())[k as int] != needle@[k as int]);
            return false;
        }
        k = k + 1;
    }
    assert(text@.subrange(i as int, i + needle.len()) =~= needle@);
    true
}

/// The leftmost position of `needle` in `text`.
pub fn find(text: &Vec<char>, needle: &Vec<char>) -> (position: Option<usize>)
    ensures
        match position {
            Some(i) => first_at(text@, needle@, i as int),
            None => absent(text@, needle@),
        },
{
    if needle.len() > text.len() {
        return None;
    }
    let last: usize = text.len() - needle.len();
    let mut i: usize = 0;
    while i <= last
        invariant
            last == text.len() - needle.len(),
            i <= last + 1,
            forall|j: int| 0 <= j < i ==> !occurs_at(text@, needle@, j),
        decreases last + 1 - i,
    {
        if stands_at(text, needle, i) {
            return Some(i);
        }
        if i == last {
            assert forall|j: int| !occurs_at(text@, needle@, j) by {
                if 0 <= j <= i {
                }
            }
            return None;
        }
        i = i + 1;
    }
    None
}

// ---- replacing ----

/// `text` with each occurrence of `from`, taken from the left and without overlap, put as `to`.
pub open spec fn replaced(text: Seq<char>, from: Seq<char>, to: Seq<char>) -> Seq<char>
    decreases text.len(),
{
    if from.len() == 0 || text.len() == 0 {
        text
    } else if begins_with(text, from) {
        to + replaced(text.skip(from.len() as int), from, to)
    } else {
        seq![text[0]] + replaced(text.skip(1), from, to)
    }
}

/// `text` with each occurrence of `from` put as `to`.
pub fn replace_all(text: &str, from: &str, to: &str) -> (result: String)
    requires
        from@.len() > 0,
    ensures
        result@ == replaced(text@, from@, to@),
{
    let chars: Vec<char> = chars_of(text);
    let needle: Vec<char> = chars_of(from);
    let mut result = String::new();
    let mut i: usize = 0;
    assert(chars@.skip(0) =~= chars@);
    while i < chars.len()
        invariant
            i <= chars.len(),
            needle@ == from@,
            from@.len() > 0,
            replaced(chars@, from@, to@) == result@ + replaced(chars@.skip(i as int), from@, to@),
        decreases chars.len() - i,
    {
        let ghost rest = chars@.skip(i as int);
        let ghost before = result@;
        let here: bool = stands_at(&chars, &needle, i);
        proof {
            if rest.len() >= needle@.len() {
                assert(rest.subrange(0, needle@.len() as int) =~= chars@.subrange(
                    i as int,
                    i + needle@.len(),
                ));
            }
        }
        assert(here == begins_with(rest, from@));
        if here {
            result.append(to);
            i = i + needle.len();
            assert(rest.skip(from@.len() as int) =~= chars@.skip(i as int));
            assert(before + (to@ + replaced(chars@.skip(i as int), from@, to@)) =~= result@
                + replaced(chars@.skip(i as int), from@, to@));
        } else {
            result.push(chars[i]);
            i = i + 1;
            assert(rest.skip(1) =~= chars@.skip(i as int));
            assert(before + (seq![rest[0]] + replaced(chars@.skip(i as int), from@, to@)) =~= result@
                + replaced(chars@.skip(i as int), from@, to@));
        }
    }
    assert(chars@.skip(i as int) =~= seq![]);
    assert(result@ + seq![] =~= result@);
    result
}

// ---- splitting ----

/// The leftmost position of `c` in `text`, or its length.
pub open spec fn until(text: Seq<char>, c: char) -> int
    decreases text.len(),
{
    if text.len() == 0 || text[0] == c {
        0
    } else {
        1 + until(text.skip(1), c)
    }
}

/// `until` is the length of the longest beginning without `c`.
pub proof fn until_properties(text: Seq<char>, c: char)
    ensures
        0 <= until(text, c) <= text.len(),
        forall|j: int| 0 <= j < until(text, c) ==> text[j] != c,
        until(text, c) < text.len() ==> text[until(text, c)] == c,
    decreases text.len(),
{
    if text.len() > 0 && text[0] != c {
        until_properties(text.skip(1), c);
        assert forall|j: int| 0 <= j < until(text, c) implies text[j] != c by {
            if j > 0 {
                assert(text.skip(1)[j - 1] == text[j]);
            }
        }
    }
}

/// A position with no `c` before it, and `c` or the end at it, is `until`.
pub proof fn until_is(text: Seq<char>, c: char, i: int)
    requires
        0 <= i <= text.len(),
        forall|j: int| 0 <= j < i ==> text[j] != c,
        i < text.len() ==> text[i] == c,
    ensures
        until(text, c) == i,
{
    until_properties(text, c);
    if until(text, c) < i {
        assert(text[until(text, c)] != c);
    }
}

/// The pieces of `text` between the characters `c`.
pub open spec fn split(text: Seq<char>, c: char) -> Seq<Seq<char>>
    decreases text.len(),
    via split_decreases
{
    if until(text, c) >= text.len() {
        seq![text]
    } else {
        seq![text.take(until(text, c))] + split(text.skip(until(text, c) + 1), c)
    }
}

#[via_fn]
proof fn split_decreases(text: Seq<char>, c: char) {
    until_properties(text, c);
}

/// The position of the first `c` at or after `start`, or the length of `text`.
pub fn find_char(text: &Vec<char>, c: char, start: usize) -> (position: usize)
    requires
        start <= text.len(),
    ensures
        start <= position <= text.len(),
        position - start == until(text@.skip(start as int), c),
{
    let mut i: usize = start;
    while i < text.len() && text[i] != c
        invariant
            start <= i <= text.len(),
            forall|j: int| start <= j < i ==> text@[j] != c,
        decreases text.len() - i,
    {
        i = i + 1;
    }
    proof {
        until_is(text@.skip(start as int), c, i - start);
    }
    i
}

// ---- white space ----

/// The characters with the Unicode property White_Space.
pub open spec fn is_white_space(c: char) -> bool {
    ||| '\u{9}' <= c <= '\u{d}'
    ||| c == ' '
    ||| c == '\u{85}'
    ||| c == '\u{a0}'
    ||| c == '\u{1680}'
    ||| '\u{2000}' <= c <= '\u{200a}'
    ||| c == '\u{2028}'
    ||| c == '\u{2029}'
    ||| c == '\u{202f}'
    ||| c == '\u{205f}'
    ||| c == '\u{3000}'
}

/// Whether `c` is white space.
pub fn white_space(c: char) -> (yes: bool)
    ensures
        yes == is_white_space(c),
{
    ('\u{9}' <= c && c <= '\u{d}') || c == ' ' || c == '\u{85}' || c == '\u{a0}' || c == '\u{1680}'
        || ('\u{2000}' <= c && c <= '\u{200a}') || c == '\u{2028}' || c == '\u{2029}' || c
        == '\u{202f}' || c == '\u{205f}' || c == '\u{3000}'
}

/// `text` without the white space at its beginning.
pub open spec fn trimmed_start(text: Seq<char>) -> Seq<char>
    decreases text.len(),
{
    if text.len() > 0 && is_white_space(text[0]) {
        trimmed_start(text.skip(1))
    } else {
        text
    }
}

/// `text` without the white space at its end.
pub open spec fn trimmed_end(text: Seq<char>) -> Seq<char>
    decreases text.len(),
{
    if text.len() > 0 && is_white_space(text.last()) {
        trimmed_end(text.drop_last())
    } else {
        text
    }
}

/// `text` without the white space at both ends.
pub open spec fn trimmed(text: Seq<char>) -> Seq<char> {
    trimmed_end(trimmed_start(text))
}

/// The bounds of `text[from..to]` without the white space at both ends.
pub fn trim_bounds(text: &Vec<char>, from: usize, to: usize) -> (bounds: (usize, usize))
    requires
        from <= to <= text.len(),
    ensures
        from <= bounds.0 <= bounds.1 <= to,
        text@.subrange(bounds.0 as int, bounds.1 as int) == trimmed(
            text@.subrange(from as int, to as int),
        ),
{
    let ghost whole = text@.subrange(from as int, to as int);
    let mut start: usize = from;
    while start < to && white_space(text[start])
        invariant
            from <= start <= to <= text.len(),
            trimmed_start(whole) == trimmed_start(text@.subrange(start as int, to as int)),
        decreases to - start,
    {
        assert(text@.subrange(start as int, to as int).skip(1) =~= text@.subrange(
            start + 1,
            to as int,
        ));
        start = start + 1;
    }
    let ghost tail = text@.subrange(start as int, to as int);
    assert(trimmed_start(whole) == tail);
    let mut end: usize = to;
    while end > start && white_space(text[end - 1])
        invariant
            from <= start <= end <= to <= text.len(),
            trimmed_end(tail) == trimmed_end(text@.subrange(start as int, end as int)),
        decreases end - start,
    {
        assert(text@.subrange(start as int, end as int).drop_last() =~= text@.subrange(
            start as int,
            end - 1,
        ));
        end = end - 1;
    }
    (start, end)
}

// ---- numbers ----

/// The decimal digit of value `d`.
pub open spec fn digit(d: nat) -> char
    recommends
        d < 10,
{
    ('0' as u32 + d) as char
}

/// The decimal notation of `n`, without leading zeros.
pub open spec fn decimal(n: nat) -> Seq<char>
    decreases n,
{
    if n < 10 {
        seq![digit(n)]
    } else {
        decimal(n / 10).push(digit(n % 10))
    }
}

/// The value of a sequence of decimal digits.
pub open spec fn decimal_value(digits: Seq<char>) -> nat
    decreases digits.len(),
{
    if digits.len() == 0 {
        0
    } else {
        decimal_value(digits.drop_last()) * 10 + (digits.last() as u32 - '0' as u32) as nat
    }
}

/// Whether `c` is a decimal digit.
pub open spec fn is_digit(c: char) -> bool {
    '0' <= c <= '9'
}

/// Decimal notation is one or more digits and its value is the number.
pub proof fn decimal_properties(n: nat)
    ensures
        decimal(n).len() >= 1,
        forall|i: int| 0 <= i < decimal(n).len() ==> is_digit(#[trigger] decimal(n)[i]),
        decimal_value(decimal(n)) == n,
    decreases n,
{
    reveal_with_fuel(decimal_value, 2);
    if n >= 10 {
        decimal_properties(n / 10);
        let d = decimal(n);
        assert(d.drop_last() =~= decimal(n / 10));
        assert forall|i: int| 0 <= i < d.len() implies is_digit(#[trigger] d[i]) by {
            if i < d.len() - 1 {
                assert(d[i] == decimal(n / 10)[i]);
            }
        }
    } else {
        assert(decimal(n).drop_last() =~= seq![]);
    }
}

/// The decimal notation of `n`.
pub fn decimal_text(n: u64) -> (text: String)
    ensures
        text@ == decimal(n as nat),
    decreases n,
{
    let d: u8 = (n % 10) as u8;
    let c: char = (48u8 + d) as char;
    assert(c == digit((n % 10) as nat));
    if n < 10 {
        let mut text = String::new();
        text.push(c);
        assert(text@ =~= seq![c]);
        text
    } else {
        let mut text = decimal_text(n / 10);
        text.push(c);
        text
    }
}

} // verus!
