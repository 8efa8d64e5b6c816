//! Strings: joined lines and the last segment of a path.

use vstd::prelude::*;

verus! {

/// The parts, with `separator` between each two of them.
pub open spec fn joined(parts: Seq<Seq<char>>, separator: Seq<char>) -> Seq<char>
    decreases parts.len(),
{
    if parts.len() == 0 {
        Seq::empty()
    } else if parts.len() == 1 {
        parts[0]
    } else {
        joined(parts.drop_last(), separator) + separator + parts.last()
    }
}

/// The text of each string.
pub open spec fn texts(strings: Seq<String>) -> Seq<Seq<char>> {
    strings.map_values(|s: String| s@)
}

/// Joins `parts` with a line break between each two of them.
pub fn join_lines(parts: &Vec<String>) -> (text: String)
    ensures
        text@ == joined(texts(parts@), "\n"@),
{
    let mut text = String::new();
    let ghost all = texts(parts@);
    let mut i: usize = 0;
    assert(all.take(0) =~= Seq::empty());
    while i < parts.len()
        invariant
            i <= parts.len(),
            all == texts(parts@),
            text@ == joined(all.take(i as int), "\n"@),
        decreases parts.len() - i,
    {
        assert(all.take(i + 1).drop_last() =~= all.take(i as int));
        if i > 0 {
            text.append("\n");
        } else {
            assert(text@ + parts[0]@ =~= parts[0]@);
        }
        text.append(parts[i].as_str());
        i = i + 1;
    }
    assert(all.take(i as int) =~= all);
    text
}

/// Whether a path separator, `::`, begins at `i`.
pub open spec fn separator_at(path: Seq<char>, i: int) -> bool {
    0 <= i < path.len() - 1 && path[i] == ':' && path[i + 1] == ':'
}

/// The first position from `from` on where a separator begins (the length when there is none).
pub open spec fn next_separator(path: Seq<char>, from: int) -> int
    decreases path.len() - from,
{
    if from >= path.len() {
        path.len() as int
    } else if separator_at(path, from) {
        from
    } else {
        next_separator(path, from + 1)
    }
}

/// Where the last segment begins that is left when `path`, from `from` on, is split at each
/// separator from left to right.
pub open spec fn last_segment_start(path: Seq<char>, from: int) -> int
    decreases path.len() - from,
{
    let at = next_separator(path, from);
    if from <= at && separator_at(path, at) {
        last_segment_start(path, at + 2)
    } else {
        from
    }
}

/// The last of the segments between the separators of `path`.
pub open spec fn last_segment_of(path: Seq<char>) -> Seq<char> {
    path.skip(last_segment_start(path, 0))
}

/// The last of the `::`-separated segments of `path`.
pub fn last_segment<'a>(path: &'a str) -> (segment: &'a str)
    ensures
        segment@ == last_segment_of(path@),
{
    let len: usize = path.unicode_len();
    let mut start: usize = 0;
    let mut i: usize = 0;
    while i < len
        invariant
            len == path@.len(),
            start <= i <= len,
            last_segment_start(path@, 0) == last_segment_start(path@, start as int),
            next_separator(path@, start as int) == next_separator(path@, i as int),
        decreases len - i,
    {
        if i + 1 < len && path.get_char(i) == ':' && path.get_char(i + 1) == ':' {
            start = i + 2;
            i = i + 2;
        } else {
            i = i + 1;
        }
    }
    assert(last_segment_start(path@, start as int) == start);
    path.substring_char(start, len)
}

/// Lines are joined one by one: no line gives an empty text, one line gives itself, and each
/// further line adds a line break and the line.
pub proof fn lines_are_joined_one_by_one(
    parts: Vec<String>,
    text: String,
    more: Vec<String>,
    longer: String,
)
    requires
        call_ensures(join_lines, (&parts,), text),
        more@.len() == parts@.len() + 1,
        forall|i: int| 0 <= i < parts@.len() ==> (#[trigger] more@[i])@ == parts@[i]@,
        call_ensures(join_lines, (&more,), longer),
    ensures
        parts@.len() == 0 ==> text@.len() == 0,
        parts@.len() == 0 ==> longer@ == more@[0]@,
        parts@.len() > 0 ==> longer@ == text@ + "\n"@ + more@.last()@,
{
    assert(texts(more@).drop_last() =~= texts(parts@));
}

proof fn lemma_no_separator(path: Seq<char>, from: int)
    requires
        0 <= from,
        forall|i: int| from <= i ==> !#[trigger] separator_at(path, i),
    ensures
        next_separator(path, from) >= path.len(),
    decreases path.len() - from,
{
    if from < path.len() {
        assert(!separator_at(path, from));
        lemma_no_separator(path, from + 1);
    }
}

proof fn lemma_first_separator(path: Seq<char>, from: int, at: int)
    requires
        0 <= from <= at,
        separator_at(path, at),
        forall|i: int| from <= i < at ==> !#[trigger] separator_at(path, i),
    ensures
        next_separator(path, from) == at,
    decreases at - from,
{
    if from < at {
        assert(!separator_at(path, from));
        lemma_first_separator(path, from + 1, at);
    }
}

proof fn lemma_next_shifted(path: Seq<char>, rest: Seq<char>, by: int, from: int)
    requires
        0 <= by <= path.len(),
        rest == path.skip(by),
        0 <= from <= rest.len(),
    ensures
        next_separator(path, by + from) == by + next_separator(rest, from),
    decreases rest.len() - from,
{
    if from < rest.len() {
        assert(separator_at(path, by + from) == separator_at(rest, from));
        if !separator_at(rest, from) {
            lemma_next_shifted(path, rest, by, from + 1);
        }
    }
}

proof fn lemma_next_bounds(path: Seq<char>, from: int)
    requires
        0 <= from <= path.len(),
    ensures
        from <= next_separator(path, from) <= path.len(),
    decreases path.len() - from,
{
    if from < path.len() && !separator_at(path, from) {
        lemma_next_bounds(path, from + 1);
    }
}

proof fn lemma_start_shifted(path: Seq<char>, rest: Seq<char>, by: int, from: int)
    requires
        0 <= by <= path.len(),
        rest == path.skip(by),
        0 <= from <= rest.len(),
    ensures
        last_segment_start(path, by + from) == by + last_segment_start(rest, from),
        from <= last_segment_start(rest, from) <= rest.len(),
    decreases rest.len() - from,
{
    lemma_next_shifted(path, rest, by, from);
    lemma_next_bounds(rest, from);
    let at = next_separator(rest, from);
    assert(separator_at(path, by + at) == separator_at(rest, at));
    if separator_at(rest, at) {
        lemma_start_shifted(path, rest, by, at + 2);
    }
}

/// A path without a separator is its own last segment.
pub proof fn a_single_segment_is_the_last(path: &str, segment: &str)
    requires
        call_ensures(last_segment, (path,), segment),
        forall|i: int|
            0 <= i < path@.len() - 1 ==> !(#[trigger] path@[i] == ':' && path@[i + 1] == ':'),
    ensures
        segment@ == path@,
{
    assert forall|i: int| 0 <= i implies !#[trigger] separator_at(path@, i) by {
        if i < path@.len() - 1 {
            assert(!(path@[i] == ':' && path@[i + 1] == ':'));
        }
    }
    lemma_no_separator(path@, 0);
    assert(path@.skip(0) =~= path@);
}

/// The first segment of a path does not matter: cutting it off, together with the separator behind
/// it, which is the first in the path, leaves a path with the same last segment.
pub proof fn the_first_segment_does_not_matter(
    path: &str,
    segment: &str,
    rest: &str,
    rest_segment: &str,
    at: int,
)
    requires
        call_ensures(last_segment, (path,), segment),
        call_ensures(last_segment, (rest,), rest_segment),
        0 <= at < path@.len() - 1,
        path@[at] == ':',
        path@[at + 1] == ':',
        forall|i: int| 0 <= i < at ==> !(#[trigger] path@[i] == ':' && path@[i + 1] == ':'),
        rest@ == path@.skip(at + 2),
    ensures
        segment@ == rest_segment@,
{
    assert forall|i: int| 0 <= i < at implies !#[trigger] separator_at(path@, i) by {
        assert(!(path@[i] == ':' && path@[i + 1] == ':'));
    }
    lemma_first_separator(path@, 0, at);
    lemma_start_shifted(path@, rest@, at + 2, 0);
    let start = last_segment_start(rest@, 0);
    assert(path@.skip(at + 2 + start) =~= rest@.skip(start));
}

} // verus!
