//! Splitting one line into a `Property`: a strict form that demands exactly one
//! separator, and a tolerant form that skips blank, comment and malformed lines.
use vstd::prelude::*;
use crate::property::Property;
use crate::text::{
    count_char, find_char, first_pos, has_prefix, lemma_first_pos, lemma_first_pos_inside,
    lemma_no_occurrences, lemma_occurrences_concat, occurrences, starts_with, trim, trim_str,
};

verus! {

/// The separator used when none is given.
pub const SEPARATOR: char = '=';

/// The separator in effect: the one given, or `SEPARATOR`.
pub open spec fn effective_separator(separator: Option<char>) -> char {
    match separator {
        Some(c) => c,
        None => SEPARATOR,
    }
}

/// The comment marker's characters, if there is one.
pub open spec fn marker_view(comment: Option<&str>) -> Option<Seq<char>> {
    match comment {
        Some(c) => Some(c@),
        None => None,
    }
}

/// A line that holds the separator `c` exactly once.
pub open spec fn well_formed(line: Seq<char>, c: char) -> bool {
    occurrences(line, c) == 1
}

/// Key and value of `line` split at its first `c`, each trimmed.
pub open spec fn split_at_separator(line: Seq<char>, c: char) -> (Seq<char>, Seq<char>) {
    let k = first_pos(line, c) as int;
    (trim(line.take(k)), trim(line.skip(k + 1)))
}

/// Whether the tolerant parse skips `line`: it is empty, begins with the comment
/// marker, or does not hold the separator exactly once.
pub open spec fn skipped(line: Seq<char>, separator: Option<char>, comment: Option<Seq<char>>) -> bool {
    ||| line.len() == 0
    ||| (comment is Some && has_prefix(line, comment->0))
    ||| !well_formed(line, effective_separator(separator))
}

/// What the tolerant parse yields for `line`.
pub open spec fn parsed(line: Seq<char>, separator: Option<char>, comment: Option<Seq<char>>) -> Option<
    (Seq<char>, Seq<char>),
> {
    if skipped(line, separator, comment) {
        None
    } else {
        Some(split_at_separator(line, effective_separator(separator)))
    }
}

/// Resolves an optional separator to the one in effect.
pub fn separator_or_default(separator: Option<char>) -> (r: char)
    ensures
        r == effective_separator(separator),
{
    match separator {
        Some(c) => c,
        None => SEPARATOR,
    }
}

/// Splits `line` at its one separator (`=` unless another is given) into a
/// trimmed key and a trimmed value.
pub fn split<'a>(line: &'a str, separator: Option<char>) -> (r: Property<'a>)
    requires
        well_formed(line@, effective_separator(separator)),
    ensures
        r@ == split_at_separator(line@, effective_separator(separator)),
{
    let sep = separator_or_default(separator);
    let n: usize = line.unicode_len();
    let k: usize = find_char(line, sep);
    proof {
        lemma_first_pos_inside(line@, sep);
    }
    let key = trim_str(line.substring_char(0, k));
    let value = trim_str(line.substring_char(k + 1, n));
    Property::init(key, value)
}

/// Whether `line` holds `separator` exactly once.
fn check_line(line: &str, separator: char) -> (r: bool)
    ensures
        r == well_formed(line@, separator),
{
    count_char(line, separator) == 1
}

/// Parses `line` unless it is empty, begins with `comment`, or does not hold the
/// separator (`=` unless another is given) exactly once; then there is no result.
pub fn try_split<'a>(line: &'a str, separator: Option<char>, comment: Option<&'a str>) -> (r: Option<
    Property<'a>,
>)
    ensures
        r is None <==> skipped(line@, separator, marker_view(comment)),
        r matches Some(p) ==> parsed(line@, separator, marker_view(comment)) == Some(p@),
{
    if line.is_empty() {
        return None;
    }
    match comment {
        None => {},
        Some(c) => {
            if starts_with(line, c) {
                return None;
            }
        },
    }
    if !check_line(line, separator_or_default(separator)) {
        return None;
    }
    Some(split(line, separator))
}

/// A line built as key, separator, value, where neither key nor value holds the
/// separator, is well formed, and splitting it gives back the trimmed key and the
/// trimmed value.
pub proof fn lemma_split_joined(key: Seq<char>, value: Seq<char>, separator: Option<char>)
    requires
        forall|j: int| 0 <= j < key.len() ==> key[j] != effective_separator(separator),
        forall|j: int| 0 <= j < value.len() ==> value[j] != effective_separator(separator),
    ensures
        well_formed(key + seq![effective_separator(separator)] + value, effective_separator(separator)),
        split_at_separator(key + seq![effective_separator(separator)] + value, effective_separator(separator))
            == (trim(key), trim(value)),
{
    let c = effective_separator(separator);
    let mid = seq![c];
    let line = key + mid + value;
    lemma_no_occurrences(key, c);
    lemma_no_occurrences(value, c);
    assert(mid.drop_last() =~= Seq::<char>::empty());
    assert(occurrences(Seq::<char>::empty(), c) == 0);
    assert(occurrences(mid, c) == 1);
    lemma_occurrences_concat(key, mid, c);
    lemma_occurrences_concat(key + mid, value, c);
    assert forall|j: int| 0 <= j < key.len() implies line[j] != c by {
        assert(line[j] == key[j]);
    }
    lemma_first_pos(line, c, key.len() as int);
    assert(line.take(key.len() as int) =~= key);
    assert(line.skip(key.len() as int + 1) =~= value);
}

/// On a line that the tolerant parse does not skip, it yields exactly what the
/// strict split yields, and the strict split's demand on the line holds.
pub proof fn lemma_try_split_agrees(
    line: Seq<char>,
    separator: Option<char>,
    comment: Option<Seq<char>>,
)
    requires
        !skipped(line, separator, comment),
    ensures
        well_formed(line, effective_separator(separator)),
        parsed(line, separator, comment) == Some(
            split_at_separator(line, effective_separator(separator)),
        ),
{
}

} // verus!
