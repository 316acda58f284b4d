//! Cutting a source text into lines: white space taken off both ends of the whole
//! text, then one line for each line feed and one for what follows the last.

use vstd::prelude::*;
use crate::text::{run_end, scan, space, Class};

verus! {

/// Where the white space at the end of the text begins, looking at the text up to `to`:
/// the first position of the longest run of white space that ends before `to`.
pub open spec fn trailing_space(s: Seq<char>, to: int) -> int
    decreases to,
{
    if 0 < to <= s.len() && Class::Space.has(s[to - 1]) {
        trailing_space(s, to - 1)
    } else {
        to
    }
}

/// The part of a text that is left when the white space at both ends is taken off, as
/// its first position and the one after its last. A text of white space alone leaves
/// an empty part.
pub open spec fn trimmed(s: Seq<char>) -> (int, int) {
    let start = run_end(s, 0, Class::Space);
    let end = trailing_space(s, s.len() as int);
    if start < end {
        (start, end)
    } else {
        (start, start)
    }
}

/// The first line feed from `from` on and before `to`; `to` if there is none.
pub open spec fn line_feed(s: Seq<char>, from: int, to: int) -> int
    decreases to - from,
{
    if 0 <= from < to && s[from] != '\n' {
        line_feed(s, from + 1, to)
    } else {
        from
    }
}

/// The line that begins at `from` and ends before the line feed at `feed`: a carriage
/// return just before the line feed is not part of it.
pub open spec fn line_before(s: Seq<char>, from: int, feed: int) -> (int, int) {
    if from < feed && s[feed - 1] == '\r' {
        (from, feed - 1)
    } else {
        (from, feed)
    }
}

/// The lines of the text from `from` up to `to`, each as its first position and the one
/// after its last. Every line feed ends a line; what follows the last line feed is a
/// line too, unless it is empty.
pub open spec fn line_spans(s: Seq<char>, from: int, to: int) -> Seq<(int, int)>
    decreases to - from,
{
    let feed = line_feed(s, from, to);
    if from >= to || from < 0 {
        Seq::empty()
    } else if feed >= to {
        seq![(from, to)]
    } else {
        proof {
            lemma_line_feed(s, from, to);
        }
        seq![line_before(s, from, feed)] + line_spans(s, feed + 1, to)
    }
}

/// The lines of a source text, white space taken off both ends of the text first.
pub open spec fn source_spans(s: Seq<char>) -> Seq<(int, int)> {
    line_spans(s, trimmed(s).0, trimmed(s).1)
}

/// The lines of a source text as texts.
pub open spec fn source_lines(s: Seq<char>) -> Seq<Seq<char>> {
    Seq::new(source_spans(s).len(), |i: int| s.subrange(source_spans(s)[i].0, source_spans(s)[i].1))
}

/// The view of a vector of pairs of positions.
pub open spec fn spans_view(v: Seq<(usize, usize)>) -> Seq<(int, int)> {
    Seq::new(v.len(), |i: int| (v[i].0 as int, v[i].1 as int))
}

/// A line feed is found between `from` and `to`, and no line feed stands before it.
pub proof fn lemma_line_feed(s: Seq<char>, from: int, to: int)
    requires
        0 <= from <= to,
    ensures
        from <= line_feed(s, from, to) <= to,
        forall|k: int| from <= k < line_feed(s, from, to) ==> s[k] != '\n',
        line_feed(s, from, to) < to ==> s[line_feed(s, from, to)] == '\n',
    decreases to - from,
{
    if from < to && s[from] != '\n' {
        lemma_line_feed(s, from + 1, to);
    }
}

/// Finds the part of a text that is left when white space is taken off both ends.
pub fn trim(v: &Vec<char>) -> (r: (usize, usize))
    ensures
        (r.0 as int, r.1 as int) == trimmed(v@),
        r.0 <= r.1 <= v.len(),
{
    let start = scan(v, 0, Class::Space);
    let mut end: usize = v.len();
    while end > 0 && space(v[end - 1])
        invariant
            end <= v.len(),
            trailing_space(v@, v.len() as int) == trailing_space(v@, end as int),
        decreases end,
    {
        end -= 1;
    }
    if start < end {
        (start, end)
    } else {
        (start, start)
    }
}

/// Cuts a source text into its lines.
pub fn split_lines(v: &Vec<char>) -> (r: Vec<(usize, usize)>)
    ensures
        spans_view(r@) == source_spans(v@),
        forall|i: int| 0 <= i < r.len() ==> (#[trigger] r[i]).0 <= r[i].1 <= v.len(),
{
    let ghost s = v@;
    let (start, end) = trim(v);
    let mut spans: Vec<(usize, usize)> = Vec::new();
    let mut from: usize = start;
    while from < end
        invariant
            start <= from <= end <= v.len(),
            s == v@,
            line_spans(s, start as int, end as int) == spans_view(spans@) + line_spans(
                s,
                from as int,
                end as int,
            ),
            forall|i: int| 0 <= i < spans.len() ==> (#[trigger] spans[i]).0 <= spans[i].1 <= v.len(),
        decreases end - from,
    {
        let mut feed: usize = from;
        while feed < end && v[feed] != '\n'
            invariant
                from <= feed <= end <= v.len(),
                line_feed(v@, from as int, end as int) == line_feed(v@, feed as int, end as int),
            decreases end - feed,
        {
            feed += 1;
        }
        let ghost before = spans@;
        let ghost rest = line_spans(s, from as int, end as int);
        if feed >= end {
            spans.push((from, end));
            proof {
                assert(spans_view(before) + rest =~= spans_view(spans@) + line_spans(
                    s,
                    end as int,
                    end as int,
                ));
            }
            from = end;
        } else {
            let line: (usize, usize) = if from < feed && v[feed - 1] == '\r' {
                (from, feed - 1)
            } else {
                (from, feed)
            };
            spans.push(line);
            proof {
                assert(spans_view(spans@) =~= spans_view(before) + seq![
                    line_before(s, from as int, feed as int),
                ]);
            }
            from = feed + 1;
        }
    }
    spans
}

} // verus!
