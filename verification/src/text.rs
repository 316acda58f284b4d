//! Characters, character classes and runs of characters.

use vstd::prelude::*;

verus! {

/// Whether `c` is white space as Unicode defines it (`White_Space`).
pub open spec fn is_space(c: char) -> bool {
    ||| ('\u{0009}' <= c && c <= '\u{000D}')
    ||| c == ' '
    ||| c == '\u{0085}'
    ||| c == '\u{00A0}'
    ||| c == '\u{1680}'
    ||| ('\u{2000}' <= c && c <= '\u{200A}')
    ||| c == '\u{2028}'
    ||| c == '\u{2029}'
    ||| c == '\u{202F}'
    ||| c == '\u{205F}'
    ||| c == '\u{3000}'
}

/// Whether `c` is a single or a double quote.
pub open spec fn is_quote(c: char) -> bool {
    c == '\'' || c == '"'
}

/// The classes of characters that the tokens of a source line are made of.
#[derive(Clone, Copy, Debug, PartialEq, Eq)]
pub enum Class {
    /// White space.
    Space,
    /// What a name or a type is made of: anything but a colon and white space.
    Name,
    /// What a value is made of: anything but a quote and a line feed.
    Value,
}

impl Class {
    /// Whether `c` belongs to the class.
    pub open spec fn has(self, c: char) -> bool {
        match self {
            Class::Space => is_space(c),
            Class::Name => c != ':' && !is_space(c),
            Class::Value => !is_quote(c) && c != '\n',
        }
    }

    /// Tells whether `c` belongs to the class.
    pub fn contains(self, c: char) -> (b: bool)
        ensures
            b == self.has(c),
    {
        match self {
            Class::Space => space(c),
            Class::Name => c != ':' && !space(c),
            Class::Value => c != '\'' && c != '"' && c != '\n',
        }
    }
}

/// Tells whether a character is white space.
pub fn space(c: char) -> (b: bool)
    ensures
        b == is_space(c),
{
    ('\u{0009}' <= c && c <= '\u{000D}') || c == ' ' || c == '\u{0085}' || c == '\u{00A0}' || c
        == '\u{1680}' || ('\u{2000}' <= c && c <= '\u{200A}') || c == '\u{2028}' || c
        == '\u{2029}' || c == '\u{202F}' || c == '\u{205F}' || c == '\u{3000}'
}

/// Whether every character of `s` from `from` up to `to` belongs to `class`.
pub open spec fn all_in(s: Seq<char>, from: int, to: int, class: Class) -> bool {
    forall|k: int| from <= k < to ==> class.has(#[trigger] s[k])
}

/// Whether `s` is not empty and holds characters of `class` only.
pub open spec fn word_of(s: Seq<char>, class: Class) -> bool {
    s.len() > 0 && all_in(s, 0, s.len() as int, class)
}

/// Where the longest run of `class` characters that begins at `from` ends: the
/// first position at or after `from` that holds no character of the class.
pub open spec fn run_end(s: Seq<char>, from: int, class: Class) -> int
    decreases s.len() - from,
{
    if 0 <= from < s.len() && class.has(s[from]) {
        run_end(s, from + 1, class)
    } else {
        from
    }
}

/// A run ends within the text, holds only characters of its class, and stops at the end of
/// the text or before a character that is not of the class.
pub proof fn lemma_run_end(s: Seq<char>, from: int, class: Class)
    requires
        0 <= from <= s.len(),
    ensures
        from <= run_end(s, from, class) <= s.len(),
        all_in(s, from, run_end(s, from, class), class),
        run_end(s, from, class) < s.len() ==> !class.has(s[run_end(s, from, class)]),
    decreases s.len() - from,
{
    if from < s.len() && class.has(s[from]) {
        lemma_run_end(s, from + 1, class);
    }
}

/// A position that a run of the class leads up to, and where it cannot go on, is where
/// the run ends.
pub proof fn lemma_run_end_unique(s: Seq<char>, from: int, class: Class, end: int)
    requires
        0 <= from <= end <= s.len(),
        all_in(s, from, end, class),
        end < s.len() ==> !class.has(s[end]),
    ensures
        run_end(s, from, class) == end,
    decreases end - from,
{
    if from < end {
        lemma_run_end_unique(s, from + 1, class, end);
    }
}

/// From every position inside a run the run ends at the same place.
pub proof fn lemma_run_end_inside(s: Seq<char>, from: int, at: int, class: Class)
    requires
        0 <= from <= at <= run_end(s, from, class),
    ensures
        run_end(s, at, class) == run_end(s, from, class),
    decreases at - from,
{
    if from < at {
        lemma_run_end_inside(s, from + 1, at, class);
    }
}

/// Finds where the longest run of `class` characters that begins at `from` ends.
pub fn scan(v: &Vec<char>, from: usize, class: Class) -> (end: usize)
    requires
        from <= v.len(),
    ensures
        end == run_end(v@, from as int, class),
        from <= end <= v.len(),
{
    let mut end: usize = from;
    while end < v.len() && class.contains(v[end])
        invariant
            from <= end <= v.len(),
            run_end(v@, from as int, class) == run_end(v@, end as int, class),
        decreases v.len() - end,
    {
        end += 1;
    }
    end
}

/// Tells whether the characters of `v` from `span.0` up to `span.1` spell `word`.
pub fn spells(v: &Vec<char>, span: (usize, usize), word: &str) -> (r: bool)
    requires
        span.0 <= span.1 <= v.len(),
    ensures
        r == (v@.subrange(span.0 as int, span.1 as int) == word@),
{
    let w = to_chars(word);
    let ghost part = v@.subrange(span.0 as int, span.1 as int);
    if span.1 - span.0 != w.len() {
        return false;
    }
    let mut k: usize = 0;
    while k < w.len()
        invariant
            k <= w.len(),
            w@ == word@,
            span.0 + w.len() == span.1 <= v.len(),
            part == v@.subrange(span.0 as int, span.1 as int),
            forall|i: int| 0 <= i < k ==> part[i] == w[i],
        decreases w.len() - k,
    {
        if v[span.0 + k] != w[k] {
            assert(part[k as int] != w[k as int]);
            return false;
        }
        k += 1;
    }
    assert(part =~= w@);
    true
}

/// The characters of a string slice, one by one.
pub fn to_chars(s: &str) -> (v: Vec<char>)
    ensures
        v@ == s@,
{
    let mut v: Vec<char> = Vec::new();
    for c in it: s.chars()
        invariant
            it.seq() == s@,
            v@ == it.seq().take(it.index() as int),
    {
        v.push(c);
    }
    v
}

} // verus!
