//! The echo statement and its parser.

use vstd::prelude::*;
use vstd::string::StrSliceExecFns;
use crate::grammar::{echo_capture, echo_shape, find_echo, match_echo};
use crate::result::result_view;
use crate::text::{
    all_in, is_quote, is_space, lemma_run_end, lemma_run_end_unique, run_end, to_chars, word_of,
    Class,
};

verus! {

/// Why a line is no echo statement.
#[derive(Debug)]
pub enum EchoErr {
    /// The line does not read as an echo statement; holds the line.
    NoMatch(String),
}

/// What an `EchoErr` stands for.
pub enum EchoErrView {
    NoMatch(Seq<char>),
}

impl View for EchoErr {
    type V = EchoErrView;

    open spec fn view(&self) -> EchoErrView {
        match self {
            EchoErr::NoMatch(s) => EchoErrView::NoMatch(s@),
        }
    }
}

/// An echo statement: the text to look up or to print, quotes taken off.
#[derive(Debug, PartialEq, Eq)]
pub struct Echo(pub String);

impl View for Echo {
    type V = Seq<char>;

    open spec fn view(&self) -> Seq<char> {
        self.0@
    }
}

/// What a line echoes: the text that the grammar captures in it, or the line itself as
/// the error if it captures none.
pub open spec fn parse_echo(s: Seq<char>) -> Result<Seq<char>, EchoErrView> {
    match echo_capture(s) {
        Some(span) => Ok(s.subrange(span.0, span.1)),
        None => Err(EchoErrView::NoMatch(s)),
    }
}

impl Echo {
    /// Tells whether a line is an echo statement.
    pub fn is_echo(s: &str) -> (b: bool)
        ensures
            b == echo_shape(s@),
    {
        let v = to_chars(s);
        find_echo(&v).is_some()
    }
}

impl std::str::FromStr for Echo {
    type Err = EchoErr;

    /// Reads what a line echoes.
    fn from_str(s: &str) -> (r: Result<Self, EchoErr>)
        ensures
            result_view(r) == parse_echo(s@),
    {
        let v = to_chars(s);
        match match_echo(&v) {
            Some((start, end)) => Ok(Echo(s.substring_char(start, end).to_owned())),
            None => Err(EchoErr::NoMatch(s.to_owned())),
        }
    }
}

/// The line that is written as `echo`, a space, and then what is to be echoed.
pub open spec fn echo_line(rest: Seq<char>) -> Seq<char> {
    seq!['e', 'c', 'h', 'o', ' '] + rest
}

/// In the line written as `echo ` and then `lead`, `text` and `tail`, what is echoed is
/// `text`: where `lead` is empty or one quote, `text` does not begin with white space
/// unless a quote precedes it, and `tail` is empty or begins with a character that no
/// value holds.
pub proof fn lemma_line_echoes(lead: Seq<char>, text: Seq<char>, tail: Seq<char>)
    requires
        word_of(text, Class::Value),
        lead.len() == 0 && !is_space(text[0]) || lead.len() == 1 && is_quote(lead[0]),
        tail.len() == 0 || !Class::Value.has(tail[0]),
    ensures
        echo_shape(echo_line(lead + text + tail)),
        parse_echo(echo_line(lead + text + tail)) == Ok::<_, EchoErrView>(text),
{
    let s = echo_line(lead + text + tail);
    let start: int = 5 + lead.len() as int;
    let end: int = start + text.len() as int;
    assert(s.len() == end + tail.len());
    assert(s[0] == 'e' && s[1] == 'c' && s[2] == 'h' && s[3] == 'o' && s[4] == ' ');
    assert forall|i: int| 0 <= i < lead.len() implies s[5 + i] == lead[i] by {}
    assert forall|i: int| 0 <= i < text.len() implies s[start + i] == text[i] by {}
    assert forall|i: int| 0 <= i < tail.len() implies s[end + i] == tail[i] by {}
    assert(s[start] == text[0]);
    assert(Class::Value.has(text[0]));
    if lead.len() == 1 {
        assert(s[5] == lead[0]);
    }
    assert(!is_space(s[5]));
    lemma_run_end_unique(s, 4, Class::Space, 5);
    assert(all_in(s, start, end, Class::Value)) by {
        assert forall|i: int| start <= i < end implies Class::Value.has(
            #[trigger] s[i],
        ) by {
            assert(s[start + (i - start)] == text[i - start]);
            assert(Class::Value.has(text[i - start]));
        }
    }
    if tail.len() > 0 {
        assert(s[end] == tail[0]);
    }
    lemma_run_end_unique(s, start, Class::Value, end);
    assert(s.subrange(start, end) =~= text);
}

/// The line `echo text`, without quotes, echoes `text`, if `text` does not begin with
/// white space.
pub proof fn law_echo_bare(text: Seq<char>)
    requires
        word_of(text, Class::Value),
        !is_space(text[0]),
    ensures
        echo_shape(echo_line(text)),
        parse_echo(echo_line(text)) == Ok::<_, EchoErrView>(text),
{
    let none = Seq::<char>::empty();
    assert(none + text + none =~= text);
    lemma_line_echoes(none, text, none);
}

/// The line `echo "text"`, with a single or a double quote on each side, echoes `text`,
/// without the quotes.
pub proof fn law_echo_quoted(quote: char, text: Seq<char>)
    requires
        is_quote(quote),
        word_of(text, Class::Value),
    ensures
        echo_shape(echo_line(seq![quote] + text + seq![quote])),
        parse_echo(echo_line(seq![quote] + text + seq![quote])) == Ok::<_, EchoErrView>(text),
{
    lemma_line_echoes(seq![quote], text, seq![quote]);
}

/// A line that is an echo statement echoes something unless a quote follows the white
/// space and no value character follows the quote.
pub proof fn law_echo_statement_unreadable(s: Seq<char>)
    requires
        echo_shape(s),
    ensures
        parse_echo(s) is Err <==> is_quote(s[run_end(s, 4, Class::Space)]) && (run_end(
            s,
            4,
            Class::Space,
        ) + 1 == s.len() || !Class::Value.has(s[run_end(s, 4, Class::Space) + 1])),
{
    let rest = run_end(s, 4, Class::Space);
    lemma_run_end(s, 4, Class::Space);
    assert(run_end(s, rest, Class::Value) == if Class::Value.has(s[rest]) {
        run_end(s, rest + 1, Class::Value)
    } else {
        rest
    });
    lemma_run_end(s, rest + 1, Class::Value);
    if rest + 1 < s.len() {
        assert(run_end(s, rest + 1, Class::Value) == if Class::Value.has(s[rest + 1]) {
            run_end(s, rest + 2, Class::Value)
        } else {
            rest + 1
        });
        lemma_run_end(s, rest + 2, Class::Value);
    }
}

} // verus!
