//! Which paths name remote sources, and what they name below the source directory.

use vstd::prelude::*;
use vstd::string::*;

use crate::text::{
    absent, begins_with, chars_of, find, find_char, finishes_with, first_at, first_at_unique,
    first_occurrence, occurs_at, same_text, split, stands_at, string_from, until,
};

verus! {

broadcast use vstd::string::group_string_axioms;

/// `path` with `/` for each `\`.
pub open spec fn normalized(path: Seq<char>) -> Seq<char> {
    path.map_values(
        |c: char|
            if c == '\\' {
                '/'
            } else {
                c
            },
    )
}

/// `path` with `/` for each `\`.
pub fn normalize(path: &str) -> (result: String)
    ensures
        result@ == normalized(path@),
{
    let chars: Vec<char> = chars_of(path);
    let mut result = String::new();
    let mut i: usize = 0;
    while i < chars.len()
        invariant
            i <= chars.len(),
            result@ == normalized(chars@.take(i as int)),
        decreases chars.len() - i,
    {
        let c: char = chars[i];
        if c == '\\' {
            result.push('/');
        } else {
            result.push(c);
        }
        i = i + 1;
        assert(result@ =~= normalized(chars@.take(i as int)));
    }
    assert(chars@.take(i as int) =~= chars@);
    result
}

/// `prefix` followed by a slash.
pub open spec fn slash_after(prefix: Seq<char>) -> Seq<char> {
    prefix.push('/')
}

/// `prefix` behind a slash.
pub open spec fn slash_before(prefix: Seq<char>) -> Seq<char> {
    seq!['/'] + prefix
}

/// `prefix` between slashes.
pub open spec fn slash_around(prefix: Seq<char>) -> Seq<char> {
    (seq!['/'] + prefix).push('/')
}

/// What `path` names below the directory `prefix`, where `path` is `prefix`, lies below it, or holds
/// it as a directory further down; the leftmost such directory counts.
pub open spec fn relative_to(path: Seq<char>, prefix: Seq<char>) -> Option<Seq<char>> {
    if path == prefix {
        Some(seq![])
    } else if begins_with(path, slash_after(prefix)) {
        Some(path.skip((prefix.len() + 1) as int))
    } else if !absent(path, slash_around(prefix)) {
        let i = choose|i: int| first_at(path, slash_around(prefix), i);
        Some(path.skip(i + prefix.len() + 2))
    } else if finishes_with(path, slash_before(prefix)) {
        Some(seq![])
    } else {
        None
    }
}

/// What `normalized` names below the directory `prefix`.
pub fn extract_relative<'a>(normalized: &'a str, prefix: &str) -> (relative: Option<&'a str>)
    ensures
        match relative {
            Some(rest) => relative_to(normalized@, prefix@) == Some(rest@),
            None => relative_to(normalized@, prefix@) is None,
        },
{
    proof {
        reveal_strlit("");
        assert(""@ =~= Seq::<char>::empty());
    }
    if same_text(normalized, prefix) {
        return Some("");
    }
    let path: Vec<char> = chars_of(normalized);
    let total: usize = path.len();
    let mut needle: Vec<char> = chars_of(prefix);
    let size: usize = needle.len();
    needle.push('/');
    assert(needle@ =~= slash_after(prefix@));
    if stands_at(&path, &needle, 0) {
        assert(size + 1 <= total);
        return Some(normalized.substring_char(size + 1, total));
    }
    needle.insert(0, '/');
    assert(needle@ =~= slash_around(prefix@));
    match find(&path, &needle) {
        Some(i) => {
            proof {
                let k = choose|k: int| first_at(path@, slash_around(prefix@), k);
                first_at_unique(path@, slash_around(prefix@), i as int, k);
            }
            assert(i + size + 2 <= total);
            Some(normalized.substring_char(i + size + 2, total))
        },
        None => {
            let _ = needle.pop();
            assert(needle@ =~= slash_before(prefix@));
            if needle.len() <= total && stands_at(&path, &needle, total - needle.len()) {
                Some("")
            } else {
                None
            }
        },
    }
}

/// Where the wiki keeps its sources.
pub open spec fn source_dir() -> Seq<char> {
    "raw/sources"@
}

/// What `path`, with slashes of either kind, names below the source directory.
pub open spec fn source_relative(path: Seq<char>) -> Option<Seq<char>> {
    relative_to(normalized(path), source_dir())
}

/// What `path` names below the source directory.
pub fn source_part(path: &str) -> (relative: Option<String>)
    ensures
        match relative {
            Some(rest) => source_relative(path@) == Some(rest@),
            None => source_relative(path@) is None,
        },
{
    let slashed: String = normalize(path);
    match extract_relative(slashed.as_str(), "raw/sources") {
        Some(rest) => Some(rest.to_owned()),
        None => None,
    }
}

/// The views of `texts`.
pub open spec fn views(texts: Seq<String>) -> Seq<Seq<char>> {
    texts.map_values(|t: String| t@)
}

/// The names between the slashes of `relative`, without empty ones.
pub open spec fn segments(relative: Seq<char>) -> Seq<Seq<char>> {
    split(relative, '/').filter(|name: Seq<char>| name.len() > 0)
}

/// The names between the slashes of `relative`, without empty ones.
pub fn path_segments(relative: &str) -> (names: Vec<String>)
    ensures
        views(names@) == segments(relative@),
{
    let text: Vec<char> = chars_of(relative);
    let mut names: Vec<String> = Vec::new();
    let mut start: usize = 0;
    let ghost named = |name: Seq<char>| name.len() > 0;
    assert(text@.skip(0) =~= text@);
    assert(views(names@) =~= seq![]);
    assert(seq![] + segments(text@) =~= segments(text@));
    loop
        invariant_except_break
            start <= text.len(),
            named == (|name: Seq<char>| name.len() > 0),
            segments(text@) == views(names@) + segments(text@.skip(start as int)),
        ensures
            segments(text@) == views(names@),
        decreases text.len() - start,
    {
        let end: usize = find_char(&text, '/', start);
        let ghost rest = text@.skip(start as int);
        let ghost piece = text@.subrange(start as int, end as int);
        let ghost before = views(names@);
        if end > start {
            names.push(string_from(&text, start, end));
            assert(views(names@) =~= before.push(piece));
        }
        proof {
            reveal_with_fuel(Seq::filter, 2);
            assert(seq![piece].drop_last() =~= seq![]);
            assert(views(names@) =~= before + seq![piece].filter(named));
            assert(rest.take(end - start) =~= piece);
        }
        if end == text.len() {
            assert(rest =~= piece);
            assert(split(rest, '/') =~= seq![piece]);
            break;
        }
        start = end + 1;
        proof {
            let next = text@.skip(start as int);
            assert(rest.skip(until(rest, '/') + 1) =~= next);
            assert(split(rest, '/') == seq![piece] + split(next, '/'));
            Seq::filter_distributes_over_add(seq![piece], split(next, '/'), named);
            assert(before + (seq![piece].filter(named) + segments(next)) =~= views(names@)
                + segments(next));
        }
    }
    names
}

// ---- laws ----

/// A path names something below `prefix` exactly where it is `prefix`, begins with it as a
/// directory, holds it as a directory, or ends with it behind a slash.
pub proof fn law_relative_when(path: Seq<char>, prefix: Seq<char>)
    ensures
        relative_to(path, prefix) is Some <==> {
            ||| path == prefix
            ||| begins_with(path, slash_after(prefix))
            ||| exists|i: int| occurs_at(path, slash_around(prefix), i)
            ||| finishes_with(path, slash_before(prefix))
        },
{
}

/// Whether `path` is `head`, `prefix`, a slash and `rest`, where the slash may be missing only if
/// `rest` is empty.
pub open spec fn stands_below(
    path: Seq<char>,
    head: Seq<char>,
    prefix: Seq<char>,
    rest: Seq<char>,
) -> bool {
    ||| path == head + prefix + seq!['/'] + rest
    ||| path == head + prefix && rest.len() == 0
}

/// The relative part stands at the end of the path, behind `prefix`, which stands at the beginning
/// or behind a slash.
pub proof fn law_relative_tail(path: Seq<char>, prefix: Seq<char>)
    requires
        relative_to(path, prefix) is Some,
    ensures
        exists|head: Seq<char>|
            {
                &&& head.len() == 0 || head.last() == '/'
                &&& #[trigger] stands_below(path, head, prefix, relative_to(path, prefix)->0)
            },
{
    let rest = relative_to(path, prefix)->0;
    let n = prefix.len() as int;
    if path == prefix {
        let head = Seq::<char>::empty();
        assert(path =~= head + prefix);
        assert(stands_below(path, head, prefix, rest));
    } else if begins_with(path, slash_after(prefix)) {
        let head = Seq::<char>::empty();
        assert forall|j: int| 0 <= j < n + 1 implies path[j] == slash_after(prefix)[j] by {
            assert(path.subrange(0, n + 1)[j] == path[j]);
        }
        assert(path =~= head + prefix + seq!['/'] + rest);
        assert(stands_below(path, head, prefix, rest));
    } else if !absent(path, slash_around(prefix)) {
        let k = choose|k: int| occurs_at(path, slash_around(prefix), k);
        first_occurrence(path, slash_around(prefix), k);
        let i = choose|i: int| first_at(path, slash_around(prefix), i);
        let head = path.take(i + 1);
        assert forall|j: int| 0 <= j < n + 2 implies path[i + j] == slash_around(prefix)[j] by {
            assert(path.subrange(i, i + n + 2)[j] == path[i + j]);
        }
        assert(slash_around(prefix)[0] == '/');
        assert(path[i + 0] == '/');
        assert(head.last() == '/');
        assert forall|j: int| 0 <= j < n implies path[i + 1 + j] == prefix[j] by {
            assert(path[i + (1 + j)] == slash_around(prefix)[1 + j]);
        }
        assert(slash_around(prefix)[n + 1] == '/');
        assert(path[i + (n + 1)] == '/');
        assert(path =~= head + prefix + seq!['/'] + rest);
        assert(stands_below(path, head, prefix, rest));
    } else {
        let i = path.len() - n - 1;
        let head = path.take(i + 1);
        assert forall|j: int| 0 <= j < n + 1 implies path[i + j] == slash_before(prefix)[j] by {
            assert(path.subrange(i, i + n + 1)[j] == path[i + j]);
        }
        assert(slash_before(prefix)[0] == '/');
        assert(path[i + 0] == '/');
        assert(head.last() == '/');
        assert forall|j: int| 0 <= j < n implies path[i + 1 + j] == prefix[j] by {
            assert(path[i + (1 + j)] == slash_before(prefix)[1 + j]);
        }
        assert(path =~= head + prefix);
        assert(stands_below(path, head, prefix, rest));
    }
}

/// Slashes of either kind name the same source.
pub proof fn law_slashes_alike(path: Seq<char>)
    ensures
        source_relative(normalized(path)) == source_relative(path),
{
    assert(normalized(normalized(path)) =~= normalized(path));
}

/// Below the source directory of a project directory, which does not hold an earlier one itself,
/// the relative part is what follows.
pub proof fn law_project_directory(project: Seq<char>, rest: Seq<char>)
    requires
        !begins_with(project + slash_around(source_dir()) + rest, slash_after(source_dir())),
        forall|j: int|
            0 <= j < project.len() ==> !occurs_at(
                project + slash_around(source_dir()) + rest,
                slash_around(source_dir()),
                j,
            ),
    ensures
        relative_to(project + slash_around(source_dir()) + rest, source_dir()) == Some(rest),
{
    let path = project + slash_around(source_dir()) + rest;
    let needle = slash_around(source_dir());
    let i = project.len() as int;
    assert(path.subrange(i, i + needle.len()) =~= needle);
    assert(occurs_at(path, needle, i));
    assert(path.len() > source_dir().len());
    assert(first_at(path, needle, i));
    let k = choose|k: int| first_at(path, needle, k);
    first_at_unique(path, needle, i, k);
    assert(path.skip(i + source_dir().len() + 2) =~= rest);
}

} // verus!
