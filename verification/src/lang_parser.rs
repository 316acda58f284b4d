//! Expressions, and the parser that turns a source text into a program.

use std::str::FromStr;
use vstd::prelude::*;
use vstd::string::StrSliceExecFns;
use crate::compare::{CompareExpr, CompareExprView};
use crate::echo::{parse_echo, Echo, EchoErr, EchoErrView};
use crate::grammar::{declaration, echo_shape};
use crate::lines::{source_lines, source_spans, spans_view, split_lines};
use crate::result::result_view;
use crate::text::to_chars;
use crate::variables::{parse_declaration, VarErr, VarErrView, Variable, VariableView};

verus! {

/// One unit of a program: a declaration, an echo statement or a conditional.
#[derive(Debug, PartialEq, Eq)]
pub enum Expression {
    Var(Variable),
    Echo(Echo),
    Condition(Box<Condition>),
}

/// A conditional: a comparison, and the expression that takes effect if it holds.
/// There is no other branch.
#[derive(Debug, PartialEq, Eq)]
pub struct Condition {
    pub condition: CompareExpr,
    pub if_expr: Expression,
}

/// What an `Expression` stands for.
pub enum ExpressionView {
    Var(VariableView),
    Echo(Seq<char>),
    Condition(Box<ConditionView>),
}

/// What a `Condition` stands for.
pub struct ConditionView {
    pub condition: CompareExprView,
    pub if_expr: ExpressionView,
}

impl View for Expression {
    type V = ExpressionView;

    open spec fn view(&self) -> ExpressionView
        decreases self,
    {
        match self {
            Expression::Var(var) => ExpressionView::Var(var@),
            Expression::Echo(echo) => ExpressionView::Echo(echo@),
            Expression::Condition(con) => ExpressionView::Condition(
                Box::new(
                    ConditionView { condition: con.condition@, if_expr: con.if_expr.view() },
                ),
            ),
        }
    }
}

impl View for Condition {
    type V = ConditionView;

    open spec fn view(&self) -> ConditionView {
        ConditionView { condition: self.condition@, if_expr: self.if_expr@ }
    }
}

/// What a sequence of expressions stands for.
pub open spec fn views(program: Seq<Expression>) -> Seq<ExpressionView> {
    Seq::new(program.len(), |i: int| program[i]@)
}

/// Why a source text is no program.
#[derive(Debug)]
pub enum ParseErr {
    VarErr(VarErr),
    EchoErr(EchoErr),
}

/// What a `ParseErr` stands for.
pub enum ParseErrView {
    VarErr(VarErrView),
    EchoErr(EchoErrView),
}

impl View for ParseErr {
    type V = ParseErrView;

    open spec fn view(&self) -> ParseErrView {
        match self {
            ParseErr::VarErr(e) => ParseErrView::VarErr(e@),
            ParseErr::EchoErr(e) => ParseErrView::EchoErr(e@),
        }
    }
}

/// A program: the expressions of a source text in the order of its lines.
#[derive(Debug)]
pub struct LangParser {
    pub experssions: Vec<Expression>,
}

impl View for LangParser {
    type V = Seq<ExpressionView>;

    open spec fn view(&self) -> Seq<ExpressionView> {
        views(self.experssions@)
    }
}

/// What a line is taken for.
#[derive(Debug, Clone, Copy, PartialEq, Eq)]
pub enum LineKind {
    /// The line holds a declaration.
    Declaration,
    /// The line holds no declaration and is an echo statement.
    Echo,
    /// The line is neither and adds nothing to the program.
    Skip,
}

/// What a line is taken for: a declaration wherever it holds one, else an echo
/// statement if it is one.
pub open spec fn line_kind(line: Seq<char>) -> LineKind {
    if declaration(line) is Some {
        LineKind::Declaration
    } else if echo_shape(line) {
        LineKind::Echo
    } else {
        LineKind::Skip
    }
}

/// What a line adds to a program when it is read as `kind`: the variable that it
/// declares, what it echoes, or nothing; or the error of a line that cannot be read as
/// what it is taken for.
pub open spec fn parse_as(line: Seq<char>, kind: LineKind) -> Result<
    Option<ExpressionView>,
    ParseErrView,
> {
    match kind {
        LineKind::Declaration => match parse_declaration(line) {
            Ok(var) => Ok(Some(ExpressionView::Var(var))),
            Err(e) => Err(ParseErrView::VarErr(e)),
        },
        LineKind::Echo => match parse_echo(line) {
            Ok(text) => Ok(Some(ExpressionView::Echo(text))),
            Err(e) => Err(ParseErrView::EchoErr(e)),
        },
        LineKind::Skip => Ok(None),
    }
}

/// What one line adds to a program, read as what it is taken for.
pub open spec fn parse_line(line: Seq<char>) -> Result<Option<ExpressionView>, ParseErrView> {
    parse_as(line, line_kind(line))
}

/// What the answer to one line stands for.
pub open spec fn line_view(r: Result<Option<Expression>, ParseErr>) -> Result<
    Option<ExpressionView>,
    ParseErrView,
> {
    match r {
        Ok(Some(expression)) => Ok(Some(expression@)),
        Ok(None) => Ok(None),
        Err(e) => Err(e@),
    }
}

/// Tells what a line is taken for.
pub fn classify(line: &str) -> (kind: LineKind)
    ensures
        kind == line_kind(line@),
{
    if Variable::is_var(line) {
        LineKind::Declaration
    } else if Echo::is_echo(line) {
        LineKind::Echo
    } else {
        LineKind::Skip
    }
}

/// Reads a line as `kind`.
pub fn parse(line: &str, kind: LineKind) -> (r: Result<Option<Expression>, ParseErr>)
    ensures
        line_view(r) == parse_as(line@, kind),
{
    match kind {
        LineKind::Declaration => match Variable::from_str(line) {
            Ok(var) => Ok(Some(Expression::Var(var))),
            Err(e) => Err(ParseErr::VarErr(e)),
        },
        LineKind::Echo => match Echo::from_str(line) {
            Ok(echo) => Ok(Some(Expression::Echo(echo))),
            Err(e) => Err(ParseErr::EchoErr(e)),
        },
        LineKind::Skip => Ok(None),
    }
}

/// The program of a sequence of lines: what each line adds, in the order of the lines;
/// or the error of the first line that has one.
pub open spec fn parse_lines(lines: Seq<Seq<char>>) -> Result<Seq<ExpressionView>, ParseErrView>
    decreases lines.len(),
{
    if lines.len() == 0 {
        Ok(Seq::empty())
    } else {
        match parse_lines(lines.drop_last()) {
            Err(e) => Err(e),
            Ok(program) => match parse_line(lines.last()) {
                Err(e) => Err(e),
                Ok(None) => Ok(program),
                Ok(Some(expression)) => Ok(program.push(expression)),
            },
        }
    }
}

/// The program of a source text.
pub open spec fn parse_program(s: Seq<char>) -> Result<Seq<ExpressionView>, ParseErrView> {
    parse_lines(source_lines(s))
}

impl FromStr for LangParser {
    type Err = ParseErr;

    /// Reads the program of a source text. Lines that are neither a declaration nor an
    /// echo statement are passed over; the first line that is one and cannot be read
    /// ends the parse with its error.
    fn from_str(s: &str) -> (r: Result<Self, ParseErr>)
        ensures
            result_view(r) == parse_program(s@),
    {
        let v = to_chars(s);
        let spans = split_lines(&v);
        let ghost lines = source_lines(s@);
        let mut experssions: Vec<Expression> = Vec::new();
        let mut idx: usize = 0;
        assert(views(experssions@) =~= Seq::empty());
        while idx < spans.len()
            invariant
                idx <= spans.len(),
                v@ == s@,
                lines == source_lines(s@),
                spans_view(spans@) == source_spans(s@),
                forall|i: int| 0 <= i < spans.len() ==> (#[trigger] spans[i]).0 <= spans[i].1 <= v.len(),
                parse_lines(lines.take(idx as int)) == Ok::<_, ParseErrView>(views(experssions@)),
            decreases spans.len() - idx,
        {
            let (from, to) = spans[idx];
            let line = s.substring_char(from, to);
            let ghost before = views(experssions@);
            proof {
                assert(lines.take(idx + 1).drop_last() =~= lines.take(idx as int));
            }
            match parse(line, classify(line)) {
                Ok(Some(expression)) => {
                    experssions.push(expression);
                    assert(views(experssions@) =~= before.push(expression@));
                },
                Ok(None) => {},
                Err(e) => {
                    proof {
                        lemma_parse_lines_fails(lines, idx + 1);
                    }
                    return Err(e);
                },
            }
            idx += 1;
        }
        assert(lines.take(idx as int) =~= lines);
        Ok(LangParser { experssions })
    }
}

/// An error among the first `k` lines is the error of the whole.
pub proof fn lemma_parse_lines_fails(lines: Seq<Seq<char>>, k: int)
    requires
        0 <= k <= lines.len(),
        parse_lines(lines.take(k)) is Err,
    ensures
        parse_lines(lines) == parse_lines(lines.take(k)),
    decreases lines.len() - k,
{
    if k < lines.len() {
        assert(lines.take(k + 1).drop_last() =~= lines.take(k));
        lemma_parse_lines_fails(lines, k + 1);
    } else {
        assert(lines.take(k) =~= lines);
    }
}

/// A sequence of lines is a program exactly if every line of it can be read: one line
/// that cannot leaves no program at all.
pub proof fn law_parse_is_all_or_nothing(lines: Seq<Seq<char>>)
    ensures
        parse_lines(lines) is Ok <==> forall|k: int|
            0 <= k < lines.len() ==> parse_line(#[trigger] lines[k]) is Ok,
    decreases lines.len(),
{
    if lines.len() > 0 {
        let front = lines.drop_last();
        law_parse_is_all_or_nothing(front);
        assert forall|k: int| 0 <= k < front.len() implies front[k] == lines[k] by {}
    }
}

/// The error of a parse is that of the first line that cannot be read.
pub proof fn law_first_error_ends_the_parse(lines: Seq<Seq<char>>, k: int)
    requires
        0 <= k < lines.len(),
        parse_line(lines[k]) is Err,
        forall|j: int| 0 <= j < k ==> parse_line(#[trigger] lines[j]) is Ok,
    ensures
        parse_lines(lines) matches Err(e) && parse_line(lines[k]) == Err::<
            Option<ExpressionView>,
            _,
        >(e),
{
    let front = lines.take(k);
    law_parse_is_all_or_nothing(front);
    let upto = lines.take(k + 1);
    assert(upto.drop_last() =~= front);
    lemma_parse_lines_fails(lines, k + 1);
}

/// The program of lines that follow one another is the program of the first lines
/// followed by the program of the rest: expressions stand in the order of their lines.
pub proof fn law_parse_keeps_order(a: Seq<Seq<char>>, b: Seq<Seq<char>>)
    ensures
        parse_lines(a + b) == match parse_lines(a) {
            Err(e) => Err(e),
            Ok(p) => match parse_lines(b) {
                Err(e) => Err(e),
                Ok(q) => Ok(p + q),
            },
        },
    decreases b.len(),
{
    if b.len() > 0 {
        law_parse_keeps_order(a, b.drop_last());
        assert((a + b).drop_last() =~= a + b.drop_last());
    }
}

} // verus!
