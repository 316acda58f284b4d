//! Running a program: every declaration of the program is in the environment before
//! the first expression runs; then the expressions take effect one by one, in order.

use vstd::prelude::*;
use crate::compare::{CompareExpr, CompareExprView};
use crate::environment::Environment;
use crate::lang_parser::{views, Condition, Expression, ExpressionView};
use crate::number::{parse_int, read_int};
use crate::text::to_chars;
use crate::variables::{ValueView, VarValue};

verus! {

/// Why a run ended before the end of the program.
#[derive(Debug, Clone, Copy, PartialEq, Eq)]
pub enum ExeError {
    /// A conditional whose comparison holds has a conditional as its branch.
    NestedCondition,
}

/// What a run has come to: the value of each name, and the lines put out so far.
pub struct State {
    pub vars: Map<Seq<char>, ValueView>,
    pub output: Seq<Seq<char>>,
}

/// How a run ended: the state it reached, and whether it was cut short.
pub struct Outcome {
    pub state: State,
    pub failed: bool,
}

/// The environment that a program begins with: every declaration among its
/// expressions, wherever it stands, a later one taking the place of an earlier one of
/// the same name. Declarations inside conditionals are not among them.
pub open spec fn declared(program: Seq<ExpressionView>) -> Map<Seq<char>, ValueView>
    decreases program.len(),
{
    if program.len() == 0 {
        Map::empty()
    } else {
        match program.last() {
            ExpressionView::Var(var) => declared(program.drop_last()).insert(var.name, var.value),
            _ => declared(program.drop_last()),
        }
    }
}

/// The state in which the run of a program begins.
pub open spec fn initial(program: Seq<ExpressionView>) -> State {
    State { vars: declared(program), output: Seq::empty() }
}

/// The line that an echo of `text` puts out: the canonical text of the variable of that
/// name, or `text` itself if there is none.
pub open spec fn echo_line(vars: Map<Seq<char>, ValueView>, text: Seq<char>) -> Seq<char> {
    if vars.contains_key(text) {
        vars[text].text()
    } else {
        text
    }
}

/// The value of an operand: that of the variable of that name; else the integer that
/// the token spells; else the token as a text.
pub open spec fn operand(vars: Map<Seq<char>, ValueView>, token: Seq<char>) -> ValueView {
    if vars.contains_key(token) {
        vars[token]
    } else {
        match parse_int(token) {
            Some(n) => ValueView::Integer(n),
            None => ValueView::Text(token),
        }
    }
}

/// Whether a comparison holds once its operands are resolved.
pub open spec fn condition_holds(vars: Map<Seq<char>, ValueView>, compare: CompareExprView) -> bool {
    compare.operator.holds(operand(vars, compare.left), operand(vars, compare.right))
}

/// The state after an echo of `text`.
pub open spec fn after_echo(state: State, text: Seq<char>) -> State {
    State { vars: state.vars, output: state.output.push(echo_line(state.vars, text)) }
}

/// The effect of one expression: the state after it, or none where the run must end. A
/// declaration changes nothing. An echo puts out one line. A conditional whose
/// comparison fails changes nothing; one whose comparison holds sets the variable that
/// its branch declares, or puts out the line that its branch echoes, and ends the run
/// if its branch is a conditional.
pub open spec fn step(state: State, expression: ExpressionView) -> Option<State> {
    match expression {
        ExpressionView::Var(_) => Some(state),
        ExpressionView::Echo(text) => Some(after_echo(state, text)),
        ExpressionView::Condition(con) => if !condition_holds(state.vars, con.condition) {
            Some(state)
        } else {
            match con.if_expr {
                ExpressionView::Var(var) => Some(
                    State { vars: state.vars.insert(var.name, var.value), output: state.output },
                ),
                ExpressionView::Echo(text) => Some(after_echo(state, text)),
                ExpressionView::Condition(_) => None,
            }
        },
    }
}

/// The run of a program from a state: its expressions take effect in order. Where one
/// ends the run, the outcome is the state before it, marked as failed.
pub open spec fn run(program: Seq<ExpressionView>, start: State) -> Outcome
    decreases program.len(),
{
    if program.len() == 0 {
        Outcome { state: start, failed: false }
    } else {
        let before = run(program.drop_last(), start);
        if before.failed {
            before
        } else {
            match step(before.state, program.last()) {
                Some(state) => Outcome { state, failed: false },
                None => Outcome { state: before.state, failed: true },
            }
        }
    }
}

/// A run that has failed after `k` expressions is the run of the whole program.
pub proof fn lemma_run_fails(program: Seq<ExpressionView>, start: State, k: int)
    requires
        0 <= k <= program.len(),
        run(program.take(k), start).failed,
    ensures
        run(program, start) == run(program.take(k), start),
    decreases program.len() - k,
{
    if k < program.len() {
        assert(program.take(k + 1).drop_last() =~= program.take(k));
        lemma_run_fails(program, start, k + 1);
    } else {
        assert(program.take(k) =~= program);
    }
}

/// What a sequence of lines stands for.
pub open spec fn texts(lines: Seq<String>) -> Seq<Seq<char>> {
    Seq::new(lines.len(), |i: int| lines[i]@)
}

/// The interpreter of one program.
pub struct Executor<'a> {
    vars: Environment,
    expressions: &'a Vec<Expression>,
    output: Vec<String>,
}

impl<'a> Executor<'a> {
    /// The state that the interpreter has come to.
    pub closed spec fn state(&self) -> State {
        State { vars: self.vars@, output: texts(self.output@) }
    }

    /// The program that the interpreter runs.
    pub closed spec fn program(&self) -> Seq<ExpressionView> {
        views(self.expressions@)
    }

    /// An interpreter for a program, with every declaration of the program in its
    /// environment and nothing put out.
    pub fn new(expressions: &'a Vec<Expression>) -> (r: Self)
        ensures
            r.program() == views(expressions@),
            r.state() == initial(views(expressions@)),
    {
        let ghost program = views(expressions@);
        let mut vars = Environment::new();
        let mut idx: usize = 0;
        while idx < expressions.len()
            invariant
                idx <= expressions.len(),
                program == views(expressions@),
                vars@ == declared(program.take(idx as int)),
            decreases expressions.len() - idx,
        {
            proof {
                assert(program.take(idx + 1).drop_last() =~= program.take(idx as int));
            }
            if let Expression::Var(var) = &expressions[idx] {
                vars.insert(var.name.clone(), var.value.copy());
            }
            idx += 1;
        }
        let output: Vec<String> = Vec::new();
        proof {
            assert(program.take(idx as int) =~= program);
            assert(texts(output@) =~= Seq::empty());
        }
        Self { vars, expressions, output }
    }

    /// The lines put out so far.
    pub fn output(&self) -> (r: &Vec<String>)
        ensures
            texts(r@) == self.state().output,
    {
        &self.output
    }

    /// The value of a variable, if there is one of that name.
    pub fn lookup(&self, name: &str) -> (r: Option<&VarValue>)
        ensures
            match r {
                Some(value) => self.state().vars.contains_key(name@) && self.state().vars[name@]
                    == value@,
                None => !self.state().vars.contains_key(name@),
            },
    {
        self.vars.get(name)
    }

    /// Runs the program from the state that the interpreter is in. The run ends with an
    /// error at the first conditional whose comparison holds and whose branch is a
    /// conditional; what came before it has taken effect.
    pub fn execute(&mut self) -> (r: Result<(), ExeError>)
        ensures
            final(self).program() == old(self).program(),
            final(self).state() == run(old(self).program(), old(self).state()).state,
            (r is Err) == run(old(self).program(), old(self).state()).failed,
    {
        let program = self.expressions;
        let ghost model = views(program@);
        let ghost start = self.state();
        let mut idx: usize = 0;
        while idx < program.len()
            invariant
                idx <= program.len(),
                model == views(program@),
                self.program() == model,
                old(self).program() == model,
                old(self).state() == start,
                run(model.take(idx as int), start) == (Outcome { state: self.state(), failed: false }),
            decreases program.len() - idx,
        {
            proof {
                assert(model.take(idx + 1).drop_last() =~= model.take(idx as int));
            }
            match &program[idx] {
                Expression::Var(_) => {},
                Expression::Echo(echo) => {
                    self.eval_echo(echo.0.as_str());
                },
                Expression::Condition(con) => {
                    if let Err(e) = self.eval_condition(con) {
                        proof {
                            lemma_run_fails(model, start, idx + 1);
                        }
                        return Err(e);
                    }
                },
            }
            idx += 1;
        }
        proof {
            assert(model.take(idx as int) =~= model);
        }
        Ok(())
    }

    /// Puts out the line of an echo of `s`: the text of the variable of that name, or
    /// `s` itself if there is none.
    pub fn eval_echo(&mut self, s: &str)
        ensures
            final(self).program() == old(self).program(),
            final(self).state() == after_echo(old(self).state(), s@),
    {
        let line = match self.vars.get(s) {
            Some(value) => value.text(),
            None => s.to_owned(),
        };
        self.output.push(line);
        proof {
            assert(texts(self.output@) =~= texts(old(self).output@).push(line@));
        }
    }

    /// Lets a conditional take effect: nothing if its comparison fails; else the effect
    /// of its branch, which is an error if the branch is a conditional.
    pub fn eval_condition(&mut self, con: &Condition) -> (r: Result<(), ExeError>)
        ensures
            final(self).program() == old(self).program(),
            match step(old(self).state(), ExpressionView::Condition(Box::new(con@))) {
                Some(state) => r is Ok && final(self).state() == state,
                None => r is Err && final(self).state() == old(self).state(),
            },
    {
        let left_val = self.found_var_or_create(con.condition.left.as_str());
        let right_val = self.found_var_or_create(con.condition.right.as_str());
        let is_true = CompareExpr::compare(&left_val, &right_val, &con.condition.operator);
        if is_true {
            match &con.if_expr {
                Expression::Var(var) => {
                    self.vars.insert(var.name.clone(), var.value.copy());
                },
                Expression::Echo(echo) => {
                    self.eval_echo(echo.0.as_str());
                },
                Expression::Condition(_) => {
                    return Err(ExeError::NestedCondition);
                },
            }
        }
        Ok(())
    }

    /// Resolves an operand: the value of the variable of that name; else the integer
    /// that `s` spells; else `s` as a text.
    pub fn found_var_or_create(&self, s: &str) -> (r: VarValue)
        ensures
            r@ == operand(self.state().vars, s@),
    {
        if let Some(value) = self.vars.get(s) {
            return value.copy();
        }
        let v = to_chars(s);
        proof {
            assert(v@.subrange(0, v.len() as int) =~= s@);
        }
        match read_int(&v, 0, v.len()) {
            Some(n) => VarValue::Int(n),
            None => VarValue::Str(s.to_owned()),
        }
    }
}

/// A program that is made of two parts runs as the first part and then, from the state
/// that the first part reached, the second; if the first part fails, the run ends there.
pub proof fn law_run_in_order(a: Seq<ExpressionView>, b: Seq<ExpressionView>, start: State)
    ensures
        run(a + b, start) == if run(a, start).failed {
            run(a, start)
        } else {
            run(b, run(a, start).state)
        },
    decreases b.len(),
{
    if b.len() == 0 {
    } else {
        law_run_in_order(a, b.drop_last(), start);
        assert((a + b).drop_last() =~= a + b.drop_last());
    }
}

/// Whether an expression declares a variable of the given name.
pub open spec fn declares(expression: ExpressionView, name: Seq<char>) -> bool {
    expression matches ExpressionView::Var(var) && var.name == name
}

/// Whether a program holds no conditional.
pub open spec fn plain(program: Seq<ExpressionView>) -> bool {
    forall|k: int| 0 <= k < program.len() ==> !(#[trigger] program[k] is Condition)
}

/// A program begins with the value of the last declaration of each name, wherever in
/// the program that declaration stands.
pub proof fn law_declarations_are_hoisted(program: Seq<ExpressionView>, at: int)
    requires
        0 <= at < program.len(),
        program[at] is Var,
        forall|k: int| at < k < program.len() ==> !declares(#[trigger] program[k], program[at]->Var_0.name),
    ensures
        declared(program).contains_key(program[at]->Var_0.name),
        declared(program)[program[at]->Var_0.name] == program[at]->Var_0.value,
    decreases program.len(),
{
    if at < program.len() - 1 {
        let front = program.drop_last();
        law_declarations_are_hoisted(front, at);
    }
}

/// A name that has a value keeps having one throughout a run.
pub proof fn law_names_stay(program: Seq<ExpressionView>, start: State, name: Seq<char>)
    requires
        start.vars.contains_key(name),
    ensures
        run(program, start).state.vars.contains_key(name),
    decreases program.len(),
{
    if program.len() > 0 {
        law_names_stay(program.drop_last(), start, name);
    }
}

/// A program without conditionals runs to its end in the environment it began with.
pub proof fn lemma_plain_run(program: Seq<ExpressionView>, start: State)
    requires
        plain(program),
    ensures
        !run(program, start).failed,
        run(program, start).state.vars == start.vars,
    decreases program.len(),
{
    if program.len() > 0 {
        let front = program.drop_last();
        lemma_plain_run(front, start);
    }
}

/// In a program without conditionals an echo of a name puts out the value of the last
/// declaration of that name, also where the declaration stands after the echo.
pub proof fn law_echo_sees_later_declaration(program: Seq<ExpressionView>, echo: int, at: int)
    requires
        plain(program),
        0 <= echo < program.len(),
        0 <= at < program.len(),
        program[echo] is Echo,
        declares(program[at], program[echo]->Echo_0),
        forall|k: int| at < k < program.len() ==> !declares(#[trigger] program[k], program[echo]->Echo_0),
    ensures
        run(program.take(echo + 1), initial(program)).state.output.last() == program[at]->Var_0.value.text(),
{
    let upto = program.take(echo + 1);
    let front = program.take(echo);
    assert(upto.drop_last() =~= front);
    lemma_plain_run(front, initial(program));
    law_declarations_are_hoisted(program, at);
}

/// An echo puts out one line and changes no variable: the canonical text of the variable
/// whose name is the text of the echo, or that text itself where no variable has the
/// name.
pub proof fn law_echo_output(state: State, text: Seq<char>)
    ensures
        step(state, ExpressionView::Echo(text)) matches Some(next) && next.vars == state.vars
            && next.output == state.output.push(
            if state.vars.contains_key(text) {
                state.vars[text].text()
            } else {
                text
            },
        ),
{
}

} // verus!
