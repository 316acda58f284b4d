use mybash::compare::{CompareExpr, Operator};
use mybash::echo::Echo;
use mybash::executor::{ExeError, Executor};
use mybash::lang_parser::{Condition, Expression, LangParser};
use mybash::variables::{VarValue, Variable};

fn run_source(source: &str) -> Vec<String> {
    let program = source.parse::<LangParser>().unwrap();
    let mut exe = Executor::new(&program.experssions);
    exe.execute().unwrap();
    exe.output().clone()
}

fn condition(left: &str, operator: Operator, right: &str, if_expr: Expression) -> Expression {
    Expression::Condition(Box::new(Condition {
        condition: CompareExpr {
            left: left.into(),
            right: right.into(),
            operator,
        },
        if_expr,
    }))
}

fn run_program(program: &Vec<Expression>) -> (Result<(), ExeError>, Vec<String>) {
    let mut exe = Executor::new(program);
    let result = exe.execute();
    (result, exe.output().clone())
}

#[test]
fn echo_of_a_string_variable_prints_its_value() {
    let program = "name: String = 'Jone'\necho name".parse::<LangParser>().unwrap();
    assert_eq!(program.experssions.len(), 2);
    let mut exe = Executor::new(&program.experssions);
    assert_eq!(exe.execute(), Ok(()));
    assert_eq!(exe.output(), &vec!["Jone".to_string()]);
}

#[test]
fn echo_of_an_int_variable_prints_its_decimal_text() {
    assert_eq!(run_source("age: Int = 31\necho age"), vec!["31"]);
    assert_eq!(run_source("n: Int = -0042\necho n"), vec!["-42"]);
    assert_eq!(
        run_source("n: Int = -9223372036854775808\necho n"),
        vec!["-9223372036854775808"]
    );
    assert_eq!(
        run_source("n: Int = +9223372036854775807\necho n"),
        vec!["9223372036854775807"]
    );
    assert_eq!(run_source("n: Int = 0\necho n"), vec!["0"]);
}

#[test]
fn condition_that_holds_runs_its_branch() {
    let program = vec![
        Expression::Var(Variable::new("x", VarValue::Int(5))),
        condition(
            "x",
            Operator::Eq,
            "5",
            Expression::Echo(Echo("five".into())),
        ),
    ];
    assert_eq!(run_program(&program), (Ok(()), vec!["five".to_string()]));
}

#[test]
fn condition_that_fails_has_no_effect() {
    let left_changed = vec![
        Expression::Var(Variable::new("x", VarValue::Int(6))),
        condition(
            "x",
            Operator::Eq,
            "5",
            Expression::Echo(Echo("five".into())),
        ),
    ];
    assert_eq!(run_program(&left_changed), (Ok(()), vec![]));
    let right_changed = vec![
        Expression::Var(Variable::new("x", VarValue::Int(5))),
        condition(
            "x",
            Operator::Eq,
            "6",
            Expression::Echo(Echo("five".into())),
        ),
    ];
    assert_eq!(run_program(&right_changed), (Ok(()), vec![]));
}

#[test]
fn invalid_int_produces_no_output() {
    assert!("age: Int = abc".parse::<LangParser>().is_err());
}

#[test]
fn echo_of_an_unknown_name_prints_it_verbatim() {
    assert_eq!(run_source("echo not_a_var"), vec!["not_a_var"]);
    assert_eq!(run_source("echo 'some text'"), vec!["some text"]);
}

#[test]
fn declaration_after_echo_is_visible_to_it() {
    assert_eq!(run_source("echo name\nname: Str = Jone"), vec!["Jone"]);
}

#[test]
fn later_declaration_of_a_name_wins() {
    assert_eq!(
        run_source("x: Int = 1\necho x\nx: Int = 2\necho x"),
        vec!["2", "2"]
    );
}

#[test]
fn taken_branch_declaration_changes_the_environment() {
    let program = vec![
        Expression::Var(Variable::new("x", VarValue::Int(1))),
        Expression::Echo(Echo("x".into())),
        Expression::Echo(Echo("y".into())),
        condition(
            "x",
            Operator::Lt,
            "2",
            Expression::Var(Variable::new("x", VarValue::Str("changed".into()))),
        ),
        condition(
            "x",
            Operator::Eq,
            "changed",
            Expression::Var(Variable::new("y", VarValue::Int(7))),
        ),
        condition(
            "x",
            Operator::Eq,
            "1",
            Expression::Var(Variable::new("y", VarValue::Int(8))),
        ),
        Expression::Echo(Echo("x".into())),
        Expression::Echo(Echo("y".into())),
    ];
    let mut exe = Executor::new(&program);
    assert_eq!(exe.execute(), Ok(()));
    assert_eq!(exe.output(), &vec!["1", "y", "changed", "7"]);
    assert_eq!(exe.lookup("x"), Some(&VarValue::Str("changed".into())));
    assert_eq!(exe.lookup("y"), Some(&VarValue::Int(7)));
    assert_eq!(exe.lookup("z"), None);
}

#[test]
fn declaration_inside_a_condition_is_not_hoisted() {
    let program = vec![
        Expression::Echo(Echo("y".into())),
        condition(
            "1",
            Operator::Eq,
            "2",
            Expression::Var(Variable::new("y", VarValue::Int(7))),
        ),
    ];
    let exe = Executor::new(&program);
    assert_eq!(exe.lookup("y"), None);
    assert_eq!(run_program(&program), (Ok(()), vec!["y".to_string()]));
}

#[test]
fn taken_nested_condition_ends_the_run() {
    let nested = condition("1", Operator::Eq, "1", Expression::Echo(Echo("deep".into())));
    let program = vec![
        Expression::Echo(Echo("first".into())),
        condition("1", Operator::Eq, "1", nested),
        Expression::Echo(Echo("never".into())),
    ];
    assert_eq!(
        run_program(&program),
        (Err(ExeError::NestedCondition), vec!["first".to_string()])
    );
}

#[test]
fn nested_condition_that_is_not_taken_is_passed_over() {
    let nested = condition("1", Operator::Eq, "1", Expression::Echo(Echo("deep".into())));
    let program = vec![
        condition("1", Operator::Eq, "2", nested),
        Expression::Echo(Echo("after".into())),
    ];
    assert_eq!(run_program(&program), (Ok(()), vec!["after".to_string()]));
}

#[test]
fn operands_resolve_to_variable_then_integer_then_text() {
    let program = vec![Expression::Var(Variable::new("12", VarValue::Str("x".into())))];
    let exe = Executor::new(&program);
    assert_eq!(exe.found_var_or_create("12"), VarValue::Str("x".into()));
    assert_eq!(exe.found_var_or_create("13"), VarValue::Int(13));
    assert_eq!(exe.found_var_or_create("-13"), VarValue::Int(-13));
    assert_eq!(exe.found_var_or_create("13a"), VarValue::Str("13a".into()));
    assert_eq!(
        exe.found_var_or_create("9223372036854775808"),
        VarValue::Str("9223372036854775808".into())
    );
    assert_eq!(exe.found_var_or_create(""), VarValue::Str("".into()));
}

#[test]
fn literals_compare_as_numbers_when_both_are_integers() {
    let branch = || Expression::Echo(Echo("yes".into()));
    let program = vec![
        condition("9", Operator::Lt, "10", branch()),
        condition("9", Operator::Lt, "10x", branch()),
        condition("10x", Operator::Lt, "9", branch()),
    ];
    assert_eq!(
        run_program(&program),
        (Ok(()), vec!["yes".to_string(), "yes".to_string()])
    );
}

#[test]
fn running_twice_goes_on_from_the_state_reached() {
    let program = vec![Expression::Echo(Echo("a".into()))];
    let mut exe = Executor::new(&program);
    exe.execute().unwrap();
    exe.execute().unwrap();
    assert_eq!(exe.output(), &vec!["a", "a"]);
}
