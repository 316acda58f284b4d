use mybash::compare::{order_texts, order_values, CompareExpr, Operator, Order};
use mybash::variables::VarValue;

const OPERATORS: [Operator; 6] = [
    Operator::Eq,
    Operator::Ne,
    Operator::Lt,
    Operator::Le,
    Operator::Gt,
    Operator::Ge,
];

fn truth(left: &VarValue, right: &VarValue) -> Vec<bool> {
    OPERATORS
        .iter()
        .map(|op| CompareExpr::compare(left, right, op))
        .collect()
}

fn whole(n: i64) -> VarValue {
    VarValue::Int(n)
}

fn words(s: &str) -> VarValue {
    VarValue::Str(s.into())
}

#[test]
fn integers_compare_by_number() {
    assert_eq!(truth(&whole(9), &whole(10)), [false, true, true, true, false, false]);
    assert_eq!(truth(&whole(10), &whole(9)), [false, true, false, false, true, true]);
    assert_eq!(truth(&whole(-3), &whole(-3)), [true, false, false, true, false, true]);
    assert_eq!(
        truth(&whole(i64::MIN), &whole(i64::MAX)),
        [false, true, true, true, false, false]
    );
}

#[test]
fn texts_compare_in_lexical_order() {
    assert_eq!(truth(&words("abc"), &words("abd")), [false, true, true, true, false, false]);
    assert_eq!(truth(&words("abc"), &words("ab")), [false, true, false, false, true, true]);
    assert_eq!(truth(&words(""), &words("")), [true, false, false, true, false, true]);
    assert_eq!(truth(&words(""), &words("a")), [false, true, true, true, false, false]);
    assert_eq!(truth(&words("Z"), &words("a")), [false, true, true, true, false, false]);
}

#[test]
fn mixed_operands_compare_as_texts() {
    // "9" comes after "10" as a text
    assert_eq!(truth(&whole(9), &words("10")), [false, true, false, false, true, true]);
    assert_eq!(truth(&words("9"), &whole(10)), [false, true, false, false, true, true]);
    assert_eq!(truth(&whole(10), &words("10")), [true, false, false, true, false, true]);
    assert_eq!(truth(&whole(-1), &words("-1")), [true, false, false, true, false, true]);
    assert_eq!(truth(&whole(7), &words("07")), [false, true, false, false, true, true]);
}

#[test]
fn each_operator_negates_its_opposite() {
    let values = [whole(-2), whole(0), whole(10), words("10"), words("9"), words(""), words("abc")];
    for a in values.iter() {
        for b in values.iter() {
            let t = truth(a, b);
            assert_eq!(t[0], !t[1]);
            assert_eq!(t[2], !t[5]);
            assert_eq!(t[4], !t[3]);
        }
    }
}

#[test]
fn code_points_order_texts() {
    assert_eq!(order_texts("\u{e9}", "z"), Order::After);
    assert_eq!(order_texts("z", "\u{1f600}"), Order::Before);
    assert_eq!(order_texts("\u{ffff}", "\u{10000}"), Order::Before);
    assert_eq!(order_texts("same", "same"), Order::Same);
    for (a, b) in [("a", "b"), ("b", "a"), ("ab", "a"), ("", "x"), ("\u{ff}", "\u{100}")] {
        let expected = match a.cmp(b) {
            std::cmp::Ordering::Less => Order::Before,
            std::cmp::Ordering::Equal => Order::Same,
            std::cmp::Ordering::Greater => Order::After,
        };
        assert_eq!(order_texts(a, b), expected);
    }
}

#[test]
fn values_order_three_ways() {
    assert_eq!(order_values(&whole(2), &whole(10)), Order::Before);
    assert_eq!(order_values(&whole(2), &words("10")), Order::After);
    assert_eq!(order_values(&words("x"), &words("x")), Order::Same);
}
