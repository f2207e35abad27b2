//! Character-level operations on text lines, stated over `Seq<char>`.
//! Characters are read with `get_char`, which walks the text from its start, so
//! the loops here take time quadratic in a line's length; lines are short.
use vstd::prelude::*;
use vstd::string::StrSliceExecFns;

verus! {

/// The number of times `c` occurs in `s`.
pub open spec fn occurrences(s: Seq<char>, c: char) -> nat
    decreases s.len(),
{
    if s.len() == 0 {
        0
    } else {
        occurrences(s.drop_last(), c) + if s.last() == c { 1nat } else { 0nat }
    }
}

/// Counts the occurrences of `c` in `line`.
pub fn count_char(line: &str, c: char) -> (r: usize)
    ensures
        r == occurrences(line@, c),
{
    let n: usize = line.unicode_len();
    let mut i: usize = 0;
    let mut count: usize = 0;
    while i < n
        invariant
            n == line@.len(),
            i <= n,
            count == occurrences(line@.take(i as int), c),
            count <= i,
        decreases n - i,
    {
        let ch = line.get_char(i);
        assert(line@.take(i + 1).drop_last() =~= line@.take(i as int));
        if ch == c {
            count = count + 1;
        }
        i = i + 1;
    }
    assert(line@.take(n as int) =~= line@);
    count
}

/// The index of the first `c` in `s`, or `s.len()` when there is none.
pub open spec fn first_pos(s: Seq<char>, c: char) -> nat
    decreases s.len(),
{
    if s.len() == 0 {
        0
    } else if s[0] == c {
        0
    } else {
        1 + first_pos(s.drop_first(), c)
    }
}

/// An index at which `c` stands, with no `c` before it, is the first position of `c`.
pub(crate) proof fn lemma_first_pos(s: Seq<char>, c: char, i: int)
    requires
        0 <= i <= s.len(),
        i < s.len() ==> s[i] == c,
        forall|j: int| 0 <= j < i ==> s[j] != c,
    ensures
        first_pos(s, c) == i,
    decreases i,
{
    if i > 0 {
        assert(s[0] != c);
        let t = s.drop_first();
        assert forall|j: int| 0 <= j < i - 1 implies t[j] != c by {
            assert(t[j] == s[j + 1]);
        }
        lemma_first_pos(t, c, i - 1);
    }
}

/// A sequence that holds no `c` has no occurrence of it.
pub(crate) proof fn lemma_no_occurrences(s: Seq<char>, c: char)
    requires
        forall|j: int| 0 <= j < s.len() ==> s[j] != c,
    ensures
        occurrences(s, c) == 0,
    decreases s.len(),
{
    if s.len() > 0 {
        lemma_no_occurrences(s.drop_last(), c);
    }
}

/// Occurrences add up over a concatenation.
pub(crate) proof fn lemma_occurrences_concat(a: Seq<char>, b: Seq<char>, c: char)
    ensures
        occurrences(a + b, c) == occurrences(a, c) + occurrences(b, c),
    decreases b.len(),
{
    if b.len() == 0 {
        assert(a + b =~= a);
    } else {
        assert((a + b).drop_last() =~= a + b.drop_last());
        lemma_occurrences_concat(a, b.drop_last(), c);
    }
}

/// A line that holds `c` has its first `c` inside it.
pub(crate) proof fn lemma_first_pos_inside(s: Seq<char>, c: char)
    requires
        occurrences(s, c) > 0,
    ensures
        first_pos(s, c) < s.len(),
        s[first_pos(s, c) as int] == c,
    decreases s.len(),
{
    if s[0] != c {
        let t = s.drop_first();
        assert(s =~= seq![s[0]] + t);
        lemma_occurrences_concat(seq![s[0]], t, c);
        assert(seq![s[0]].drop_last() =~= Seq::<char>::empty());
        assert(occurrences(Seq::<char>::empty(), c) == 0);
        assert(occurrences(seq![s[0]], c) == 0);
        lemma_first_pos_inside(t, c);
    }
}

/// Finds the index of the first `c` in `line`, or its length when there is none.
pub fn find_char(line: &str, c: char) -> (r: usize)
    ensures
        r == first_pos(line@, c),
        r <= line@.len(),
        r < line@.len() ==> line@[r as int] == c,
        forall|j: int| 0 <= j < r ==> line@[j] != c,
{
    let n: usize = line.unicode_len();
    let mut i: usize = 0;
    while i < n
        invariant
            n == line@.len(),
            i <= n,
            forall|j: int| 0 <= j < i ==> line@[j] != c,
        decreases n - i,
    {
        if line.get_char(i) == c {
            proof {
                lemma_first_pos(line@, c, i as int);
            }
            return i;
        }
        i = i + 1;
    }
    proof {
        lemma_first_pos(line@, c, i as int);
    }
    i
}

/// Whether `line` begins with `prefix`.
pub open spec fn has_prefix(line: Seq<char>, prefix: Seq<char>) -> bool {
    prefix.len() <= line.len() && line.take(prefix.len() as int) == prefix
}

/// Tests whether `line` begins with `prefix`, character by character.
pub fn starts_with(line: &str, prefix: &str) -> (r: bool)
    ensures
        r == has_prefix(line@, prefix@),
{
    let n: usize = line.unicode_len();
    let m: usize = prefix.unicode_len();
    if m > n {
        return false;
    }
    let mut i: usize = 0;
    while i < m
        invariant
            n == line@.len(),
            m == prefix@.len(),
            m <= n,
            i <= m,
            forall|j: int| 0 <= j < i ==> line@[j] == prefix@[j],
        decreases m - i,
    {
        if line.get_char(i) != prefix.get_char(i) {
            assert(line@.take(m as int)[i as int] != prefix@[i as int]);
            return false;
        }
        i = i + 1;
    }
    assert(line@.take(m as int) =~= prefix@);
    true
}

/// Whether two texts hold the same characters.
pub fn same_text(a: &str, b: &str) -> (r: bool)
    ensures
        r == (a@ == b@),
{
    let n: usize = a.unicode_len();
    if n != b.unicode_len() {
        return false;
    }
    let mut i: usize = 0;
    while i < n
        invariant
            n == a@.len(),
            n == b@.len(),
            i <= n,
            forall|j: int| 0 <= j < i ==> a@[j] == b@[j],
        decreases n - i,
    {
        if a.get_char(i) != b.get_char(i) {
            return false;
        }
        i = i + 1;
    }
    assert(a@ =~= b@);
    true
}

/// Unicode's `White_Space` property: the characters that trimming removes.
pub open spec fn white_space(c: char) -> bool {
    ('\u{9}' <= c && c <= '\u{d}') || c == ' ' || c == '\u{85}' || c == '\u{a0}'
        || c == '\u{1680}' || ('\u{2000}' <= c && c <= '\u{200a}') || c == '\u{2028}'
        || c == '\u{2029}' || c == '\u{202f}' || c == '\u{205f}' || c == '\u{3000}'
}

/// Relies on char::is_whitespace: true exactly for the characters with Unicode's
/// `White_Space` property.
#[verifier::external_body]
fn is_white_space(c: char) -> (r: bool)
    ensures
        r == white_space(c),
{
    c.is_whitespace()
}

/// The number of white-space characters at the start of `s`.
pub open spec fn leading_ws(s: Seq<char>) -> nat
    decreases s.len(),
{
    if s.len() > 0 && white_space(s[0]) {
        1 + leading_ws(s.drop_first())
    } else {
        0
    }
}

/// The number of white-space characters at the end of `s`.
pub open spec fn trailing_ws(s: Seq<char>) -> nat
    decreases s.len(),
{
    if s.len() > 0 && white_space(s.last()) {
        1 + trailing_ws(s.drop_last())
    } else {
        0
    }
}

/// `s` without its leading white space.
pub open spec fn trim_start(s: Seq<char>) -> Seq<char> {
    s.skip(leading_ws(s) as int)
}

/// `s` without its trailing white space.
pub open spec fn trim_end(s: Seq<char>) -> Seq<char> {
    s.take(s.len() - trailing_ws(s))
}

/// `s` without white space at either end.
pub open spec fn trim(s: Seq<char>) -> Seq<char> {
    trim_end(trim_start(s))
}

/// Returns `s` without its leading white space.
pub fn trim_start_str<'a>(s: &'a str) -> (r: &'a str)
    ensures
        r@ == trim_start(s@),
{
    let n: usize = s.unicode_len();
    let mut i: usize = 0;
    proof {
        assert(s@.skip(0) =~= s@);
    }
    while i < n && is_white_space(s.get_char(i))
        invariant
            n == s@.len(),
            i <= n,
            leading_ws(s@) == i + leading_ws(s@.skip(i as int)),
        decreases n - i,
    {
        assert(s@.skip(i as int).drop_first() =~= s@.skip(i + 1));
        i = i + 1;
    }
    s.substring_char(i, n)
}

/// Returns `s` without its trailing white space.
pub fn trim_end_str<'a>(s: &'a str) -> (r: &'a str)
    ensures
        r@ == trim_end(s@),
{
    let n: usize = s.unicode_len();
    let mut j: usize = n;
    proof {
        assert(s@.take(n as int) =~= s@);
    }
    while j > 0 && is_white_space(s.get_char(j - 1))
        invariant
            n == s@.len(),
            j <= n,
            trailing_ws(s@) == (n - j) + trailing_ws(s@.take(j as int)),
        decreases j,
    {
        assert(s@.take(j as int).drop_last() =~= s@.take(j - 1));
        j = j - 1;
    }
    s.substring_char(0, j)
}

/// Returns `s` without white space at either end.
pub fn trim_str<'a>(s: &'a str) -> (r: &'a str)
    ensures
        r@ == trim(s@),
{
    trim_end_str(trim_start_str(s))
}

} // verus!
