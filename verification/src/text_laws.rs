//! What holds of texts, whatever they are.

use vstd::prelude::*;
use vstd::string::*;

use crate::source_path::{normalized, relative_to, segments, source_relative, views};
use crate::text::{
    absent, begins_with, decimal, decimal_properties, decimal_value, finishes_with, first_at,
    first_occurrence, first_position, is_digit, is_white_space, occurs_at, replaced, split, trimmed,
    trimmed_end, trimmed_start, until, until_is, until_properties,
};
use crate::text_map::{entry_found, entry_map, distinct_keys, has_key, last_entries, texts};

verus! {

broadcast use vstd::string::group_string_axioms;

// ---- searching ----

/// A text that is put between two others stands there, and what stands somewhere parts the text
/// into what is before it, itself and what is behind it.
pub proof fn law_occurrence(before: Seq<char>, needle: Seq<char>, behind: Seq<char>)
    ensures
        occurs_at(before + needle + behind, needle, before.len() as int),
        !absent(before + needle + behind, needle),
        begins_with(needle + behind, needle),
        finishes_with(before + needle, needle),
        forall|text: Seq<char>, i: int| #[trigger]
            occurs_at(text, needle, i) ==> text == text.take(i) + needle + text.skip(
                i + needle.len(),
            ),
{
    let whole = before + needle + behind;
    let n = before.len() as int;
    assert(whole.subrange(n, n + needle.len()) =~= needle);
    assert(occurs_at(whole, needle, n));
    assert((needle + behind).subrange(0, needle.len() as int) =~= needle);
    assert((before + needle).subrange(n, n + needle.len()) =~= needle);
    assert forall|text: Seq<char>, i: int| #[trigger] occurs_at(text, needle, i) implies text
        == text.take(i) + needle + text.skip(i + needle.len()) by {
        assert forall|j: int| 0 <= j < needle.len() implies text[i + j] == needle[j] by {
            assert(text.subrange(i, i + needle.len())[j] == text[i + j]);
        }
        assert(text =~= text.take(i) + needle + text.skip(i + needle.len()));
    }
}

/// Where a text stands in another at all, its leftmost place has none before it.
pub proof fn law_leftmost(text: Seq<char>, needle: Seq<char>, k: int)
    requires
        occurs_at(text, needle, k),
    ensures
        occurs_at(text, needle, first_position(text, needle)),
        first_position(text, needle) <= k || k < 0,
{
    first_occurrence(text, needle, k);
    let i = choose|i: int| first_at(text, needle, i) && i <= k;
    assert(first_at(text, needle, first_position(text, needle)));
    crate::text::first_at_unique(text, needle, i, first_position(text, needle));
}

// ---- replacing ----

/// What is to be replaced is replaced where it stands, and what does not begin an occurrence stays.
pub proof fn law_replacing(from: Seq<char>, to: Seq<char>, rest: Seq<char>, c: char)
    requires
        from.len() > 0,
    ensures
        replaced(from + rest, from, to) == to + replaced(rest, from, to),
        !begins_with(seq![c] + rest, from) ==> replaced(seq![c] + rest, from, to) == seq![c]
            + replaced(rest, from, to),
        replaced(Seq::empty(), from, to) == Seq::<char>::empty(),
{
    law_occurrence(seq![], from, rest);
    assert((from + rest).skip(from.len() as int) =~= rest);
    assert((seq![c] + rest).skip(1) =~= rest);
}

/// A text without what is to be replaced stays as it is.
pub proof fn law_nothing_to_replace(text: Seq<char>, from: Seq<char>, to: Seq<char>)
    requires
        absent(text, from),
    ensures
        replaced(text, from, to) == text,
    decreases text.len(),
{
    if from.len() > 0 && text.len() > 0 {
        let rest = text.skip(1);
        assert(absent(rest, from)) by {
            assert forall|j: int| !occurs_at(rest, from, j) by {
                if occurs_at(rest, from, j) {
                    assert(rest.subrange(j, j + from.len()) =~= text.subrange(
                        j + 1,
                        j + 1 + from.len(),
                    ));
                    assert(occurs_at(text, from, j + 1));
                }
            }
        }
        law_nothing_to_replace(rest, from, to);
        assert(seq![text[0]] + rest =~= text);
        assert(!occurs_at(text, from, 0));
    }
}

/// Where no character of `head` begins what is to be replaced, `head` stays in front.
pub proof fn law_head_stays(head: Seq<char>, rest: Seq<char>, from: Seq<char>, to: Seq<char>)
    requires
        from.len() > 0,
        forall|i: int| 0 <= i < head.len() ==> head[i] != from[0],
    ensures
        replaced(head + rest, from, to) == head + replaced(rest, from, to),
    decreases head.len(),
{
    if head.len() == 0 {
        assert(head + rest =~= rest);
        assert(head + replaced(rest, from, to) =~= replaced(rest, from, to));
    } else {
        let tail = head.skip(1);
        law_head_stays(tail, rest, from, to);
        let whole = head + rest;
        assert(whole.skip(1) =~= tail + rest);
        if begins_with(whole, from) {
            assert(whole.subrange(0, from.len() as int)[0] == from[0]);
        }
        assert(seq![head[0]] + (tail + replaced(rest, from, to)) =~= head + replaced(
            rest,
            from,
            to,
        ));
    }
}

/// What stands before the leftmost occurrence of what is to be replaced stays in front of what takes
/// its place.
pub proof fn law_leftmost_replaced(
    head: Seq<char>,
    rest: Seq<char>,
    from: Seq<char>,
    to: Seq<char>,
)
    requires
        from.len() > 0,
        forall|j: int| 0 <= j < head.len() ==> !#[trigger] occurs_at(head + from + rest, from, j),
    ensures
        replaced(head + from + rest, from, to) == head + to + replaced(rest, from, to),
    decreases head.len(),
{
    let whole = head + from + rest;
    if head.len() == 0 {
        assert(whole =~= from + rest);
        law_replacing(from, to, rest, ' ');
        assert(head + to =~= to);
    } else {
        let tail = head.skip(1);
        assert(whole.skip(1) =~= tail + from + rest);
        assert forall|j: int| 0 <= j < tail.len() implies !#[trigger] occurs_at(
            tail + from + rest,
            from,
            j,
        ) by {
            if occurs_at(tail + from + rest, from, j) {
                assert((tail + from + rest).subrange(j, j + from.len()) =~= whole.subrange(
                    j + 1,
                    j + 1 + from.len(),
                ));
                assert(occurs_at(whole, from, j + 1));
            }
        }
        law_leftmost_replaced(tail, rest, from, to);
        assert(!occurs_at(whole, from, 0));
        assert(seq![head[0]] + (tail + to + replaced(rest, from, to)) =~= head + to + replaced(
            rest,
            from,
            to,
        ));
    }
}

/// Replacing one character goes piece by piece.
pub proof fn law_replacing_character(left: Seq<char>, right: Seq<char>, c: char, to: Seq<char>)
    ensures
        replaced(left + right, seq![c], to) == replaced(left, seq![c], to) + replaced(
            right,
            seq![c],
            to,
        ),
        replaced(seq![c], seq![c], to) == to,
    decreases left.len(),
{
    let from = seq![c];
    law_replacing(from, to, seq![], c);
    assert(from + Seq::<char>::empty() =~= from);
    assert(to + Seq::<char>::empty() =~= to);
    if left.len() == 0 {
        assert(left + right =~= right);
        assert(replaced(left, from, to) + replaced(right, from, to) =~= replaced(right, from, to));
    } else {
        let tail = left.skip(1);
        law_replacing_character(tail, right, c, to);
        let whole = left + right;
        assert(whole.skip(1) =~= tail + right);
        assert(whole.subrange(0, 1) =~= seq![left[0]]);
        assert(left.subrange(0, 1) =~= seq![left[0]]);
        if left[0] == c {
            assert(begins_with(whole, from) && begins_with(left, from));
            assert(to + (replaced(tail, from, to) + replaced(right, from, to)) =~= (to + replaced(
                tail,
                from,
                to,
            )) + replaced(right, from, to));
        } else {
            assert(seq![left[0]][0] != from[0]);
            assert(!begins_with(whole, from) && !begins_with(left, from));
            assert(seq![left[0]] + (replaced(tail, from, to) + replaced(right, from, to)) =~= (
            seq![left[0]] + replaced(tail, from, to)) + replaced(right, from, to));
        }
    }
}

// ---- splitting ----

/// A text is split at each separator, and one without separators is one piece.
pub proof fn law_split(left: Seq<char>, right: Seq<char>, c: char)
    ensures
        split(left + seq![c] + right, c) == split(left, c) + split(right, c),
        !left.contains(c) ==> split(left, c) == seq![left],
    decreases left.len(),
{
    let whole = left + seq![c] + right;
    let k = until(left, c);
    until_properties(left, c);
    assert forall|j: int| 0 <= j < k implies whole[j] != c by {
        assert(whole[j] == left[j]);
    }
    if k < left.len() {
        assert(whole[k] == left[k]);
    }
    until_is(whole, c, k);
    if k >= left.len() {
        assert(whole.take(k) =~= left);
        assert(whole.skip(k + 1) =~= right);
    } else {
        assert(left.contains(c));
        let rest = left.skip(k + 1);
        law_split(rest, right, c);
        assert(whole.take(k) =~= left.take(k));
        assert(whole.skip(k + 1) =~= rest + seq![c] + right);
        assert(seq![left.take(k)] + (split(rest, c) + split(right, c)) =~= (seq![left.take(k)]
            + split(rest, c)) + split(right, c));
    }
}

/// The names of two paths with a slash between them are those of the one and then those of the
/// other; a text without slashes is one name, unless it is empty.
pub proof fn law_names(left: Seq<char>, right: Seq<char>)
    ensures
        segments(left + seq!['/'] + right) == segments(left) + segments(right),
        !left.contains('/') && left.len() > 0 ==> segments(left) == seq![left],
        left.len() == 0 ==> segments(left) == Seq::<Seq<char>>::empty(),
{
    let named = |n: Seq<char>| n.len() > 0;
    law_split(left, right, '/');
    Seq::filter_distributes_over_add(split(left, '/'), split(right, '/'), named);
    if !left.contains('/') {
        reveal_with_fuel(Seq::filter, 2);
        assert(seq![left].drop_last() =~= seq![]);
        if left.len() > 0 {
            assert(seq![left].filter(named) =~= seq![left]);
        } else {
            assert(seq![left].filter(named) =~= seq![]);
        }
    }
}

// ---- white space ----

proof fn trimmed_start_pads(pad: Seq<char>, text: Seq<char>)
    requires
        forall|i: int| 0 <= i < pad.len() ==> is_white_space(#[trigger] pad[i]),
        text.len() > 0 ==> !is_white_space(text[0]),
    ensures
        trimmed_start(pad + text) == text,
    decreases pad.len(),
{
    if pad.len() == 0 {
        assert(pad + text =~= text);
    } else {
        assert((pad + text).skip(1) =~= pad.skip(1) + text);
        assert((pad + text)[0] == pad[0]);
        trimmed_start_pads(pad.skip(1), text);
    }
}

proof fn trimmed_end_pads(text: Seq<char>, pad: Seq<char>)
    requires
        forall|i: int| 0 <= i < pad.len() ==> is_white_space(#[trigger] pad[i]),
        text.len() > 0 ==> !is_white_space(text.last()),
    ensures
        trimmed_end(text + pad) == text,
    decreases pad.len(),
{
    if pad.len() == 0 {
        assert(text + pad =~= text);
    } else {
        assert((text + pad).drop_last() =~= text + pad.drop_last());
        assert((text + pad).last() == pad.last());
        trimmed_end_pads(text, pad.drop_last());
    }
}

/// White space is the tab, the line feed and the three behind it, the space, and the spaces and
/// separators beyond ASCII.
pub proof fn law_white_space(c: char)
    ensures
        (c as u32) < 128 ==> (is_white_space(c) <==> 9 <= c as u32 <= 13 || c as u32 == 32),
        c as u32 >= 128 ==> (is_white_space(c) <==> {
            ||| c as u32 == 0x85
            ||| c as u32 == 0xa0
            ||| c as u32 == 0x1680
            ||| 0x2000 <= c as u32 <= 0x200a
            ||| c as u32 == 0x2028
            ||| c as u32 == 0x2029
            ||| c as u32 == 0x202f
            ||| c as u32 == 0x205f
            ||| c as u32 == 0x3000
        }),
{
}

/// White space around a text that neither begins nor ends with any is taken away, and nothing else.
pub proof fn law_trimmed(before: Seq<char>, text: Seq<char>, behind: Seq<char>)
    requires
        forall|i: int| 0 <= i < before.len() ==> is_white_space(#[trigger] before[i]),
        forall|i: int| 0 <= i < behind.len() ==> is_white_space(#[trigger] behind[i]),
        text.len() > 0 ==> !is_white_space(text[0]) && !is_white_space(text.last()),
    ensures
        trimmed(before + text + behind) == text,
{
    if text.len() > 0 {
        assert(before + text + behind =~= before + (text + behind));
        trimmed_start_pads(before, text + behind);
        trimmed_end_pads(text, behind);
    } else {
        let pad = before + behind;
        assert(before + text + behind =~= pad + seq![]);
        trimmed_start_pads(pad, seq![]);
        assert(text =~= seq![]);
    }
}

// ---- numbers ----

/// Decimal notation is made of digits, does not begin with a zero unless it is one, and has the value
/// of the number.
pub proof fn law_decimal(n: nat)
    ensures
        decimal(n).len() >= 1,
        forall|i: int| 0 <= i < decimal(n).len() ==> '0' <= #[trigger] decimal(n)[i] <= '9',
        decimal(n).len() > 1 ==> decimal(n)[0] != '0',
        decimal_value(decimal(n)) == n,
    decreases n,
{
    decimal_properties(n);
    assert forall|i: int| 0 <= i < decimal(n).len() implies '0' <= #[trigger] decimal(n)[i]
        <= '9' by {
        assert(is_digit(decimal(n)[i]));
    }
    if n >= 10 {
        law_decimal(n / 10);
        assert(decimal(n)[0] == decimal(n / 10)[0]);
        if n / 10 < 10 {
            assert(decimal(n / 10) =~= seq![crate::text::digit(n / 10)]);
            assert(crate::text::digit(n / 10) != '0');
        } else {
            decimal_properties(n / 10 / 10);
            assert(decimal(n / 10).len() > 1);
        }
    }
}

/// Different numbers have different notations.
pub proof fn law_decimal_injective(a: nat, b: nat)
    requires
        decimal(a) == decimal(b),
    ensures
        a == b,
{
    decimal_properties(a);
    decimal_properties(b);
}

// ---- paths ----

/// Backslashes become slashes, and nothing else changes.
pub proof fn law_normalized(path: Seq<char>)
    ensures
        normalized(path).len() == path.len(),
        forall|i: int|
            0 <= i < path.len() ==> (#[trigger] normalized(path)[i] == '/' <==> path[i] == '/'
                || path[i] == '\\'),
        forall|i: int|
            0 <= i < path.len() && path[i] != '\\' ==> #[trigger] normalized(path)[i] == path[i],
        !path.contains('\\') ==> normalized(path) == path,
{
    if !path.contains('\\') {
        assert forall|i: int| 0 <= i < path.len() implies normalized(path)[i] == path[i] by {
            assert(path.contains(path[i]));
        }
        assert(normalized(path) =~= path);
    }
}

/// A directory has nothing below itself, and what stands behind it and a slash lies below it, as it
/// stands.
pub proof fn law_below_directory(directory: Seq<char>, rest: Seq<char>)
    ensures
        relative_to(directory, directory) == Some(Seq::<char>::empty()),
        relative_to(directory + seq!['/'] + rest, directory) == Some(rest),
{
    let path = directory + seq!['/'] + rest;
    let n = directory.len() as int;
    assert(path.subrange(0, n + 1) =~= directory.push('/'));
    assert(path.skip(n + 1) =~= rest);
}

/// Of a path that neither is the directory nor begins with it, the relative part stands behind the
/// leftmost place where the directory stands between slashes.
pub proof fn law_below_inner_directory(
    head: Seq<char>,
    directory: Seq<char>,
    rest: Seq<char>,
)
    requires
        head + seq!['/'] + directory + seq!['/'] + rest != directory,
        !begins_with(
            head + seq!['/'] + directory + seq!['/'] + rest,
            directory + seq!['/'],
        ),
        forall|j: int|
            0 <= j < head.len() ==> !occurs_at(
                head + seq!['/'] + directory + seq!['/'] + rest,
                seq!['/'] + directory + seq!['/'],
                j,
            ),
    ensures
        relative_to(head + seq!['/'] + directory + seq!['/'] + rest, directory) == Some(rest),
{
    let path = head + seq!['/'] + directory + seq!['/'] + rest;
    let needle = seq!['/'] + directory + seq!['/'];
    assert(needle =~= crate::source_path::slash_around(directory));
    assert(directory + seq!['/'] =~= crate::source_path::slash_after(directory));
    let n = head.len() as int;
    assert(path.subrange(n, n + needle.len()) =~= needle);
    assert(occurs_at(path, needle, n));
    assert(first_at(path, needle, n));
    let k = choose|k: int| first_at(path, needle, k);
    crate::text::first_at_unique(path, needle, n, k);
    assert(path.skip(n + directory.len() + 2) =~= rest);
}

/// A path that ends with the directory behind a slash, and holds it nowhere else, has nothing below
/// it.
pub proof fn law_ends_in_directory(head: Seq<char>, directory: Seq<char>)
    requires
        !begins_with(head + seq!['/'] + directory, directory + seq!['/']),
        absent(head + seq!['/'] + directory, seq!['/'] + directory + seq!['/']),
    ensures
        relative_to(head + seq!['/'] + directory, directory) == Some(Seq::<char>::empty()),
{
    let path = head + seq!['/'] + directory;
    let needle = seq!['/'] + directory + seq!['/'];
    assert(needle =~= crate::source_path::slash_around(directory));
    assert(directory + seq!['/'] =~= crate::source_path::slash_after(directory));
    assert(path =~= head + (seq!['/'] + directory));
    assert(seq!['/'] + directory =~= crate::source_path::slash_before(directory));
    law_occurrence(head, crate::source_path::slash_before(directory), seq![]);
}

/// What stands behind the source directory, with slashes of either kind, is the relative part.
pub proof fn law_source_part(rest: Seq<char>)
    ensures
        source_relative("raw/sources"@) == Some(Seq::<char>::empty()),
        source_relative("raw/sources/"@ + rest) == Some(normalized(rest)),
        source_relative("raw\\sources\\"@ + rest) == Some(normalized(rest)),
{
    reveal_strlit("raw/sources");
    reveal_strlit("raw/sources/");
    reveal_strlit("raw\\sources\\");
    let dir = "raw/sources"@;
    law_below_directory(dir, normalized(rest));
    assert(normalized(dir) =~= dir);
    assert(normalized("raw/sources/"@ + rest) =~= dir + seq!['/'] + normalized(rest));
    assert(normalized("raw\\sources\\"@ + rest) =~= dir + seq!['/'] + normalized(rest));
}

/// The part of any path below the sources is its part below `raw/sources`, with slashes in place of
/// backslashes.
pub proof fn law_source_below(path: Seq<char>)
    ensures
        source_relative(path) == relative_to(normalized(path), "raw/sources"@),
{
}

// ---- views and maps ----

/// The views of texts are those of each, in order.
pub proof fn law_views(list: Seq<String>)
    ensures
        views(list).len() == list.len(),
        forall|i: int| 0 <= i < list.len() ==> #[trigger] views(list)[i] == list[i]@,
{
}

/// A map of texts by its views has the same keys, and for each the text itself.
pub proof fn law_texts(map: Map<Seq<char>, String>)
    ensures
        texts(map).dom() == map.dom(),
        forall|key: Seq<char>| map.contains_key(key) ==> #[trigger] texts(map)[key] == map[key]@,
{
    assert(texts(map).dom() =~= map.dom());
}

/// Of a list of entries each key is there, with the value of its last entry, and no other key.
pub proof fn law_last_entry_counts<V>(list: Seq<(String, V)>, i: int)
    requires
        0 <= i < list.len(),
        forall|j: int| i < j < list.len() ==> (#[trigger] list[j]).0@ != list[i].0@,
    ensures
        last_entries(list).contains_key(list[i].0@),
        last_entries(list)[list[i].0@] == list[i].1,
    decreases list.len(),
{
    if i < list.len() - 1 {
        let front = list.drop_last();
        assert forall|j: int| i < j < front.len() implies (#[trigger] front[j]).0@
            != front[i].0@ by {
            assert(front[j] == list[j]);
        }
        law_last_entry_counts(front, i);
        assert(list[list.len() - 1].0@ != list[i].0@);
    }
}

/// A list of entries gives no key that none of them has.
pub proof fn law_no_other_entries<V>(list: Seq<(String, V)>, key: Seq<char>)
    requires
        last_entries(list).contains_key(key),
    ensures
        exists|i: int| 0 <= i < list.len() && (#[trigger] list[i]).0@ == key,
    decreases list.len(),
{
    if list.last().0@ == key {
        assert(list[list.len() - 1].0@ == key);
    } else {
        law_no_other_entries(list.drop_last(), key);
        let i = choose|i: int|
            0 <= i < list.drop_last().len() && (#[trigger] list.drop_last()[i]).0@ == key;
        assert(list[i].0@ == key);
    }
}

/// Of a list without repeated keys each key is there with its value, and no other key.
pub proof fn law_entries<V>(list: Seq<(String, V)>)
    requires
        distinct_keys(list),
    ensures
        forall|i: int|
            0 <= i < list.len() ==> entry_map(list).contains_key((#[trigger] list[i]).0@)
                && entry_map(list)[list[i].0@] == list[i].1,
        forall|key: Seq<char>| #[trigger]
            entry_map(list).contains_key(key) ==> exists|i: int|
                0 <= i < list.len() && (#[trigger] list[i]).0@ == key,
{
    assert forall|i: int| 0 <= i < list.len() implies entry_map(list).contains_key(
        (#[trigger] list[i]).0@,
    ) && entry_map(list)[list[i].0@] == list[i].1 by {
        entry_found(list, i);
    }
    assert forall|key: Seq<char>| #[trigger] entry_map(list).contains_key(key) implies exists|
        i: int,
    | 0 <= i < list.len() && (#[trigger] list[i]).0@ == key by {
        assert(has_key(list, key));
    }
}

} // verus!
