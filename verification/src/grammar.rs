//! The grammar of a source line: where the parts of a declaration and of an echo
//! statement stand in it.
//!
//! A declaration is a name, a colon, a type, an equals sign and a value, with optional
//! white space around the two signs and at most one quote before the value. It may stand
//! anywhere in the line. Where several readings are possible the leftmost name wins,
//! then the longest type, then the value that starts last; the value goes on as far as
//! value characters do. Letter case plays no part in this: which type a declaration
//! names is for its parser to say.
//!
//! An echo statement is the keyword `echo` at the start of the line, white space, and
//! something after it; what it echoes is the run of value characters that follows the
//! white space and at most one quote.

use vstd::prelude::*;
use crate::text::{
    all_in, is_quote, is_space, lemma_run_end, lemma_run_end_inside, lemma_run_end_unique, run_end,
    scan, space, Class,
};

verus! {

/// Whether a value may start at `at` when what precedes it begins at `from`: the text
/// between is white space, or white space and then one quote, and `at` holds a
/// character that a value can hold.
pub open spec fn value_may_start(s: Seq<char>, from: int, at: int) -> bool {
    &&& 0 <= from <= at < s.len()
    &&& Class::Value.has(s[at])
    &&& (all_in(s, from, at, Class::Space) || (from < at && all_in(s, from, at - 1, Class::Space)
        && is_quote(s[at - 1])))
}

/// The last position up to `hi` at which a value may start, for text that begins at `from`.
pub open spec fn last_value_start(s: Seq<char>, from: int, hi: int) -> Option<int>
    decreases hi - from + 1,
{
    if hi < from {
        None
    } else if value_may_start(s, from, hi) {
        Some(hi)
    } else {
        last_value_start(s, from, hi - 1)
    }
}

/// The value that follows position `from`, as its first position and the one after its
/// last: it starts at the last position where a value may start, and is the longest run
/// of value characters from there.
pub open spec fn value_at(s: Seq<char>, from: int) -> Option<(int, int)> {
    match last_value_start(s, from, s.len() - 1) {
        Some(at) => Some((at, run_end(s, at, Class::Value))),
        None => None,
    }
}

/// `last_value_start` gives a position where a value may start and after which, up to
/// `hi`, none may; it gives none exactly if none may start from `from` to `hi`.
pub proof fn lemma_last_value_start(s: Seq<char>, from: int, hi: int)
    ensures
        match last_value_start(s, from, hi) {
            Some(at) => from <= at <= hi && value_may_start(s, from, at) && forall|k: int|
                at < k <= hi ==> !value_may_start(s, from, k),
            None => forall|k: int| from <= k <= hi ==> !value_may_start(s, from, k),
        },
    decreases hi - from + 1,
{
    if hi >= from && !value_may_start(s, from, hi) {
        lemma_last_value_start(s, from, hi - 1);
    }
}

/// A position where a value may start and after which, up to `hi`, none may is what
/// `last_value_start` gives.
pub proof fn lemma_last_value_start_is(s: Seq<char>, from: int, hi: int, at: int)
    requires
        from <= at <= hi,
        value_may_start(s, from, at),
        forall|k: int| at < k <= hi ==> !value_may_start(s, from, k),
    ensures
        last_value_start(s, from, hi) == Some(at),
    decreases hi - at,
{
    if at < hi {
        lemma_last_value_start_is(s, from, hi - 1, at);
    }
}

/// If no value may start from `from` to `hi`, `last_value_start` gives none.
pub proof fn lemma_last_value_start_none(s: Seq<char>, from: int, hi: int)
    requires
        forall|k: int| from <= k <= hi ==> !value_may_start(s, from, k),
    ensures
        last_value_start(s, from, hi) is None,
    decreases hi - from + 1,
{
    if hi >= from {
        lemma_last_value_start_none(s, from, hi - 1);
    }
}

/// The view of an optional pair of positions.
pub open spec fn span_view(r: Option<(usize, usize)>) -> Option<(int, int)> {
    match r {
        Some((a, b)) => Some((a as int, b as int)),
        None => None,
    }
}

/// Finds the value that follows position `from`.
pub fn match_value(v: &Vec<char>, from: usize) -> (r: Option<(usize, usize)>)
    requires
        from <= v.len(),
    ensures
        span_view(r) == value_at(v@, from as int),
        r matches Some((a, b)) ==> from <= a < b <= v.len(),
{
    let ghost s = v@;
    let stop = scan(v, from, Class::Space);
    proof {
        lemma_run_end(s, from as int, Class::Space);
    }
    if stop < v.len() {
        if Class::Value.contains(v[stop]) {
            let end = scan(v, stop, Class::Value);
            proof {
                lemma_run_end(s, stop as int, Class::Value);
                lemma_last_value_start_is(s, from as int, s.len() - 1, stop as int);
            }
            return Some((stop, end));
        }
        // What ends the white space and cannot be in a value is a quote.
        if stop + 1 < v.len() && Class::Value.contains(v[stop + 1]) {
            let end = scan(v, stop + 1, Class::Value);
            proof {
                lemma_run_end(s, stop + 1, Class::Value);
                lemma_last_value_start_is(s, from as int, s.len() - 1, stop + 1);
            }
            return Some((stop + 1, end));
        }
    }
    // No value after the white space, nor after a quote: the white space is the value,
    // from its last character that is no line feed.
    let mut at: usize = stop;
    while at > from
        invariant
            from <= at <= stop <= v.len(),
            s == v@,
            all_in(s, from as int, stop as int, Class::Space),
            forall|k: int| at <= k <= s.len() - 1 ==> !value_may_start(s, from as int, k),
        decreases at,
    {
        at -= 1;
        if v[at] != '\n' {
            let end = scan(v, at, Class::Value);
            proof {
                lemma_run_end(s, at as int, Class::Value);
                lemma_last_value_start_is(s, from as int, s.len() - 1, at as int);
            }
            return Some((at, end));
        }
    }
    proof {
        lemma_last_value_start_none(s, from as int, s.len() - 1);
    }
    None
}

/// Whether a type that starts at `start` may end before `end`: it is made of name
/// characters, and white space, an equals sign and a value follow it.
pub open spec fn type_may_end(s: Seq<char>, start: int, end: int) -> bool {
    let sign = run_end(s, end, Class::Space);
    &&& 0 <= start < end <= s.len()
    &&& all_in(s, start, end, Class::Name)
    &&& sign < s.len()
    &&& s[sign] == '='
    &&& value_at(s, sign + 1) is Some
}

/// The last position up to `hi` before which a type that starts at `start` may end.
pub open spec fn last_type_end(s: Seq<char>, start: int, hi: int) -> Option<int>
    decreases hi - start,
{
    if hi <= start {
        None
    } else if type_may_end(s, start, hi) {
        Some(hi)
    } else {
        last_type_end(s, start, hi - 1)
    }
}

/// `last_type_end` gives a position where the type may end and after which, up to `hi`,
/// it may not; it gives none exactly if the type may end nowhere up to `hi`.
pub proof fn lemma_last_type_end(s: Seq<char>, start: int, hi: int)
    ensures
        match last_type_end(s, start, hi) {
            Some(end) => start < end <= hi && type_may_end(s, start, end) && forall|k: int|
                end < k <= hi ==> !type_may_end(s, start, k),
            None => forall|k: int| start < k <= hi ==> !type_may_end(s, start, k),
        },
    decreases hi - start,
{
    if hi > start && !type_may_end(s, start, hi) {
        lemma_last_type_end(s, start, hi - 1);
    }
}

/// Positions after `lo` where the type may not end do not count: the search may begin
/// at `lo`.
pub proof fn lemma_last_type_end_skip(s: Seq<char>, start: int, lo: int, hi: int)
    requires
        lo <= hi,
        forall|k: int| lo < k <= hi ==> !type_may_end(s, start, k),
    ensures
        last_type_end(s, start, hi) == last_type_end(s, start, lo),
    decreases hi - lo,
{
    if lo < hi && hi > start {
        lemma_last_type_end_skip(s, start, lo, hi - 1);
    }
}

/// The three parts of a declaration, each as its first position in the line and the one
/// after its last.
pub struct Decl {
    pub name: (int, int),
    pub kind: (int, int),
    pub value: (int, int),
}

/// The declaration whose name starts at `start`, if there is one: the name is the
/// longest run of name characters from there, a colon follows it, and the type is the
/// longest that leaves an equals sign and a value behind it.
pub open spec fn decl_at(s: Seq<char>, start: int) -> Option<Decl> {
    let name_end = run_end(s, start, Class::Name);
    let colon = run_end(s, name_end, Class::Space);
    let type_start = run_end(s, colon + 1, Class::Space);
    if 0 <= start < name_end && colon < s.len() && s[colon] == ':' {
        match last_type_end(s, type_start, s.len() as int) {
            Some(type_end) => match value_at(s, run_end(s, type_end, Class::Space) + 1) {
                Some(value) => Some(
                    Decl { name: (start, name_end), kind: (type_start, type_end), value },
                ),
                None => None,
            },
            None => None,
        }
    } else {
        None
    }
}

/// The first declaration whose name starts at `lo` or later.
pub open spec fn first_decl_from(s: Seq<char>, lo: int) -> Option<Decl>
    decreases s.len() - lo,
{
    if lo >= s.len() {
        None
    } else if decl_at(s, lo) is Some {
        decl_at(s, lo)
    } else {
        first_decl_from(s, lo + 1)
    }
}

/// The declaration that a line holds: the one whose name starts first.
pub open spec fn declaration(s: Seq<char>) -> Option<Decl> {
    first_decl_from(s, 0)
}

/// The parts of a declaration as positions in a vector of characters.
#[derive(Clone, Copy, Debug)]
pub struct DeclSpans {
    pub name: (usize, usize),
    pub kind: (usize, usize),
    pub value: (usize, usize),
}

impl View for DeclSpans {
    type V = Decl;

    open spec fn view(&self) -> Decl {
        Decl {
            name: (self.name.0 as int, self.name.1 as int),
            kind: (self.kind.0 as int, self.kind.1 as int),
            value: (self.value.0 as int, self.value.1 as int),
        }
    }
}

/// The view of an optional declaration.
pub open spec fn decl_view(r: Option<DeclSpans>) -> Option<Decl> {
    match r {
        Some(d) => Some(d@),
        None => None,
    }
}

/// Whether the parts are in order and inside a text of length `len`, none of them empty.
pub open spec fn spans_within(d: Decl, len: int) -> bool {
    &&& 0 <= d.name.0 < d.name.1 < d.kind.0 < d.kind.1 < d.value.0 < d.value.1 <= len
}

/// Finds the declaration whose name starts at `start`.
pub fn match_at(v: &Vec<char>, start: usize) -> (r: Option<DeclSpans>)
    requires
        start < v.len(),
    ensures
        decl_view(r) == decl_at(v@, start as int),
        r matches Some(d) ==> spans_within(d@, v.len() as int),
{
    let ghost s = v@;
    let name_end = scan(v, start, Class::Name);
    if name_end == start {
        return None;
    }
    let colon = scan(v, name_end, Class::Space);
    if colon >= v.len() || v[colon] != ':' {
        return None;
    }
    let type_start = scan(v, colon + 1, Class::Space);
    let run = scan(v, type_start, Class::Name);
    proof {
        lemma_run_end(s, type_start as int, Class::Name);
        lemma_last_type_end_skip(s, type_start as int, run as int, s.len() as int);
    }
    let mut end: usize = run;
    while end > type_start
        invariant
            type_start <= end <= run <= v.len(),
            s == v@,
            start < name_end == run_end(s, start as int, Class::Name),
            colon == run_end(s, name_end as int, Class::Space),
            name_end <= colon < type_start,
            colon < s.len() && s[colon as int] == ':',
            type_start == run_end(s, colon + 1, Class::Space),
            all_in(s, type_start as int, run as int, Class::Name),
            last_type_end(s, type_start as int, s.len() as int) == last_type_end(
                s,
                type_start as int,
                end as int,
            ),
        decreases end,
    {
        let sign = scan(v, end, Class::Space);
        if sign < v.len() && v[sign] == '=' {
            if let Some(value) = match_value(v, sign + 1) {
                return Some(
                    DeclSpans { name: (start, name_end), kind: (type_start, end), value },
                );
            }
        }
        end -= 1;
    }
    None
}

/// Where no declaration starts at a position, none starts at a later position of the
/// same name either: what follows the name is the same for all of them.
pub proof fn lemma_no_decl_in_name(s: Seq<char>, start: int, at: int)
    requires
        0 <= start <= at < run_end(s, start, Class::Name),
        decl_at(s, start) is None,
    ensures
        decl_at(s, at) is None,
{
    lemma_run_end_inside(s, start, at, Class::Name);
}

/// No declaration starts at any position from `lo` up to `hi`: the search may begin
/// at `hi`.
pub proof fn lemma_first_decl_skip(s: Seq<char>, lo: int, hi: int)
    requires
        0 <= lo <= hi <= s.len(),
        forall|k: int| lo <= k < hi ==> decl_at(s, k) is None,
    ensures
        first_decl_from(s, lo) == first_decl_from(s, hi),
    decreases hi - lo,
{
    if lo < hi {
        lemma_first_decl_skip(s, lo + 1, hi);
    }
}

/// Finds the declaration that a line holds.
pub fn find_declaration(v: &Vec<char>) -> (r: Option<DeclSpans>)
    ensures
        decl_view(r) == declaration(v@),
        r matches Some(d) ==> spans_within(d@, v.len() as int),
{
    let ghost s = v@;
    let mut start: usize = 0;
    while start < v.len()
        invariant
            start <= v.len(),
            s == v@,
            declaration(s) == first_decl_from(s, start as int),
        decreases v.len() - start,
    {
        let found = match_at(v, start);
        if found.is_some() {
            return found;
        }
        // A name that no declaration follows is passed over as a whole.
        let name_end = scan(v, start, Class::Name);
        let next: usize = if name_end > start {
            name_end
        } else {
            start + 1
        };
        proof {
            assert forall|k: int| start <= k < next implies decl_at(s, k) is None by {
                if k > start {
                    lemma_no_decl_in_name(s, start as int, k);
                }
            }
            lemma_first_decl_skip(s, start as int, next as int);
        }
        start = next;
    }
    None
}

/// Whether `d` is a reading of the line as a declaration, with its colon at `colon` and
/// its equals sign at `sign`: a name, white space, the colon, white space, a type, white
/// space, the equals sign, then white space or white space and one quote, and a value;
/// name and type of name characters, the value of value characters, none of them empty.
pub open spec fn reads_as(s: Seq<char>, d: Decl, colon: int, sign: int) -> bool {
    &&& 0 <= d.name.0 < d.name.1 <= colon < d.kind.0 < d.kind.1 <= sign < d.value.0 < d.value.1
        <= s.len()
    &&& all_in(s, d.name.0, d.name.1, Class::Name)
    &&& all_in(s, d.name.1, colon, Class::Space)
    &&& s[colon] == ':'
    &&& all_in(s, colon + 1, d.kind.0, Class::Space)
    &&& all_in(s, d.kind.0, d.kind.1, Class::Name)
    &&& all_in(s, d.kind.1, sign, Class::Space)
    &&& s[sign] == '='
    &&& value_may_start(s, sign + 1, d.value.0)
    &&& all_in(s, d.value.0, d.value.1, Class::Value)
}

/// `first_decl_from` gives the declaration at the first position from `lo` on that has
/// one; it gives none exactly if no position from `lo` on has one.
pub proof fn lemma_first_decl_from(s: Seq<char>, lo: int)
    requires
        0 <= lo,
    ensures
        match first_decl_from(s, lo) {
            Some(d) => lo <= d.name.0 < s.len() && decl_at(s, d.name.0) == Some(d) && forall|k: int|
                lo <= k < d.name.0 ==> decl_at(s, k) is None,
            None => forall|k: int| lo <= k < s.len() ==> decl_at(s, k) is None,
        },
    decreases s.len() - lo,
{
    if lo < s.len() && decl_at(s, lo) is None {
        lemma_first_decl_from(s, lo + 1);
    }
}

/// A value that is found is a run of value characters that is not empty, at a place
/// where a value may start.
pub proof fn lemma_value_at(s: Seq<char>, from: int)
    requires
        0 <= from,
        value_at(s, from) is Some,
    ensures
        value_at(s, from) matches Some(value) && value_may_start(s, from, value.0) && value.0
            < value.1 <= s.len() && all_in(s, value.0, value.1, Class::Value),
{
    lemma_last_value_start(s, from, s.len() - 1);
    let at = last_value_start(s, from, s.len() - 1)->0;
    lemma_run_end(s, at, Class::Value);
}

/// The declaration found at a position is a reading of the line.
pub proof fn lemma_decl_at_reads(s: Seq<char>, start: int)
    requires
        decl_at(s, start) is Some,
    ensures
        decl_at(s, start) matches Some(d) && d.name.0 == start && exists|colon: int, sign: int|
            reads_as(s, d, colon, sign),
{
    let d = decl_at(s, start)->0;
    let name_end = run_end(s, start, Class::Name);
    let colon = run_end(s, name_end, Class::Space);
    let type_start = run_end(s, colon + 1, Class::Space);
    lemma_run_end(s, start, Class::Name);
    lemma_run_end(s, name_end, Class::Space);
    lemma_run_end(s, colon + 1, Class::Space);
    lemma_last_type_end(s, type_start, s.len() as int);
    let type_end = last_type_end(s, type_start, s.len() as int)->0;
    let sign = run_end(s, type_end, Class::Space);
    lemma_run_end(s, type_end, Class::Space);
    lemma_value_at(s, sign + 1);
    assert(reads_as(s, d, colon, sign));
}

/// Where a line has a reading as a declaration, a declaration is found at the position
/// where the reading's name starts.
pub proof fn lemma_reading_is_found(s: Seq<char>, d: Decl, colon: int, sign: int)
    requires
        reads_as(s, d, colon, sign),
    ensures
        decl_at(s, d.name.0) is Some,
{
    lemma_run_end_unique(s, d.name.0, Class::Name, d.name.1);
    lemma_run_end_unique(s, d.name.1, Class::Space, colon);
    lemma_run_end_unique(s, colon + 1, Class::Space, d.kind.0);
    lemma_run_end_unique(s, d.kind.1, Class::Space, sign);
    lemma_last_value_start(s, sign + 1, s.len() - 1);
    assert(type_may_end(s, d.kind.0, d.kind.1));
    lemma_last_type_end(s, d.kind.0, s.len() as int);
}

/// What `declaration` gives is a reading of the line as a declaration.
pub proof fn law_declaration_reads(s: Seq<char>)
    requires
        declaration(s) is Some,
    ensures
        declaration(s) matches Some(d) && exists|colon: int, sign: int| reads_as(s, d, colon, sign),
{
    lemma_first_decl_from(s, 0);
    let d = declaration(s)->0;
    lemma_decl_at_reads(s, d.name.0);
}

/// Whether the reading `d` comes before the reading `other` of the same line: its name
/// starts earlier; or their names are the same and its type is longer; or their types
/// are the same too and its value starts no earlier.
pub open spec fn preferred(d: Decl, other: Decl) -> bool {
    d.name.0 < other.name.0 || (d.name == other.name && d.kind.0 == other.kind.0 && (d.kind.1
        > other.kind.1 || (d.kind.1 == other.kind.1 && d.value.0 >= other.value.0)))
}

/// A line that has a reading as a declaration holds a declaration, and the one that
/// `declaration` gives comes before every reading of the line.
pub proof fn law_declaration_is_preferred(s: Seq<char>, other: Decl, colon: int, sign: int)
    requires
        reads_as(s, other, colon, sign),
    ensures
        declaration(s) matches Some(d) && preferred(d, other),
{
    lemma_reading_is_found(s, other, colon, sign);
    lemma_first_decl_from(s, 0);
    let d = declaration(s)->0;
    if d.name.0 == other.name.0 {
        lemma_run_end_unique(s, other.name.0, Class::Name, other.name.1);
        lemma_run_end_unique(s, other.name.1, Class::Space, colon);
        lemma_run_end_unique(s, colon + 1, Class::Space, other.kind.0);
        lemma_run_end_unique(s, other.kind.1, Class::Space, sign);
        lemma_last_value_start(s, sign + 1, s.len() - 1);
        assert(type_may_end(s, other.kind.0, other.kind.1));
        lemma_last_type_end(s, other.kind.0, s.len() as int);
        assert(d.name == other.name);
    }
}

/// A reading that comes before every reading of the line, and whose value goes on as
/// far as value characters do, is the declaration that `declaration` gives.
pub proof fn law_preferred_reading_is_declaration(s: Seq<char>, d: Decl, colon: int, sign: int)
    requires
        reads_as(s, d, colon, sign),
        d.value.1 == s.len() || !Class::Value.has(s[d.value.1]),
        forall|other: Decl, c: int, g: int| #[trigger] reads_as(s, other, c, g) ==> preferred(d, other),
    ensures
        declaration(s) == Some(d),
{
    law_declaration_is_preferred(s, d, colon, sign);
    law_declaration_reads(s);
    lemma_first_decl_from(s, 0);
    lemma_run_end_unique(s, d.value.0, Class::Value, d.value.1);
}

/// A reading is the declaration that `declaration` gives if it starts at the first
/// character of the line, its type is followed by white space or the equals sign and
/// nothing else, no value may start after its value does, and its value ends where
/// value characters do.
pub proof fn lemma_reading_is_declaration(s: Seq<char>, d: Decl, colon: int, sign: int)
    requires
        reads_as(s, d, colon, sign),
        d.name.0 == 0,
        !Class::Name.has(s[d.kind.1]),
        forall|k: int| d.value.0 < k < s.len() ==> !#[trigger] value_may_start(s, sign + 1, k),
        d.value.1 == s.len() || !Class::Value.has(s[d.value.1]),
    ensures
        declaration(s) == Some(d),
{
    lemma_run_end_unique(s, d.name.0, Class::Name, d.name.1);
    lemma_run_end_unique(s, d.name.1, Class::Space, colon);
    lemma_run_end_unique(s, colon + 1, Class::Space, d.kind.0);
    lemma_run_end_unique(s, d.kind.1, Class::Space, sign);
    lemma_last_value_start_is(s, sign + 1, s.len() - 1, d.value.0);
    lemma_run_end_unique(s, d.value.0, Class::Value, d.value.1);
    lemma_last_type_end_skip(s, d.kind.0, d.kind.1, s.len() as int);
}

/// Whether a line begins with the keyword `echo` and a character of white space.
pub open spec fn echo_keyword(s: Seq<char>) -> bool {
    &&& s.len() >= 5
    &&& s[0] == 'e'
    &&& s[1] == 'c'
    &&& s[2] == 'h'
    &&& s[3] == 'o'
    &&& is_space(s[4])
}

/// Whether a line is an echo statement: the keyword, white space, and something that
/// is left after all of that white space.
pub open spec fn echo_shape(s: Seq<char>) -> bool {
    echo_keyword(s) && run_end(s, 4, Class::Space) < s.len()
}

/// What an echo statement echoes, as its first position in the line and the one after
/// its last: the longest run of value characters after the white space and at most one
/// quote. There is none if the line is no echo statement or that run is empty.
pub open spec fn echo_capture(s: Seq<char>) -> Option<(int, int)> {
    if echo_shape(s) {
        let rest = run_end(s, 4, Class::Space);
        let start = if is_quote(s[rest]) {
            rest + 1
        } else {
            rest
        };
        let end = run_end(s, start, Class::Value);
        if start < end {
            Some((start, end))
        } else {
            None
        }
    } else {
        None
    }
}

/// Finds where what follows the keyword `echo` and its white space begins, if the line
/// is an echo statement.
pub fn find_echo(v: &Vec<char>) -> (r: Option<usize>)
    ensures
        (r is Some) == echo_shape(v@),
        r matches Some(rest) ==> rest == run_end(v@, 4, Class::Space) && 5 <= rest < v.len(),
{
    if v.len() < 5 || v[0] != 'e' || v[1] != 'c' || v[2] != 'h' || v[3] != 'o' || !space(v[4]) {
        return None;
    }
    let rest = scan(v, 5, Class::Space);
    if rest < v.len() {
        Some(rest)
    } else {
        None
    }
}

/// Finds what an echo statement echoes.
pub fn match_echo(v: &Vec<char>) -> (r: Option<(usize, usize)>)
    ensures
        span_view(r) == echo_capture(v@),
        r matches Some((a, b)) ==> a < b <= v.len(),
{
    match find_echo(v) {
        None => None,
        Some(rest) => {
            let start: usize = if v[rest] == '\'' || v[rest] == '"' {
                rest + 1
            } else {
                rest
            };
            let end = scan(v, start, Class::Value);
            if start < end {
                Some((start, end))
            } else {
                None
            }
        },
    }
}

} // verus!
