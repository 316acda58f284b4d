//! Comparing two values: integers by their order, anything else by the lexical order
//! of the canonical texts.

use vstd::prelude::*;
use crate::text::to_chars;
use crate::variables::{ValueView, VarValue};

verus! {

/// The six relations between two values.
#[derive(Debug, Clone, Copy, PartialEq, Eq)]
pub enum Operator {
    Eq,
    Ne,
    Lt,
    Le,
    Gt,
    Ge,
}

/// A comparison of two operands that are not resolved yet: each is the name of a
/// variable or a literal.
#[derive(Debug, PartialEq, Eq)]
pub struct CompareExpr {
    pub left: String,
    pub right: String,
    pub operator: Operator,
}

/// What a `CompareExpr` stands for.
pub struct CompareExprView {
    pub left: Seq<char>,
    pub right: Seq<char>,
    pub operator: Operator,
}

impl View for CompareExpr {
    type V = CompareExprView;

    open spec fn view(&self) -> CompareExprView {
        CompareExprView { left: self.left@, right: self.right@, operator: self.operator }
    }
}

/// Where two texts that agree from `from` on first differ: the first position at or
/// after `from` where one of them has ended or their characters differ.
pub open spec fn first_difference(a: Seq<char>, b: Seq<char>, from: int) -> int
    decreases a.len() - from,
{
    if 0 <= from < a.len() && from < b.len() && a[from] == b[from] {
        first_difference(a, b, from + 1)
    } else {
        from
    }
}

/// Whether `a` comes before `b` in lexical order: where they first differ, `a` has
/// ended, or has the character with the smaller code point.
pub open spec fn text_less(a: Seq<char>, b: Seq<char>) -> bool {
    let k = first_difference(a, b, 0);
    k < b.len() && (k == a.len() || a[k] < b[k])
}

/// Whether `a` comes before `b`: by number if both are integers, else by text.
pub open spec fn value_less(a: ValueView, b: ValueView) -> bool {
    match (a, b) {
        (ValueView::Integer(x), ValueView::Integer(y)) => x < y,
        _ => text_less(a.text(), b.text()),
    }
}

/// Whether `a` and `b` compare as equal: as numbers if both are integers, else as texts.
pub open spec fn value_same(a: ValueView, b: ValueView) -> bool {
    match (a, b) {
        (ValueView::Integer(x), ValueView::Integer(y)) => x == y,
        _ => a.text() == b.text(),
    }
}

impl Operator {
    /// Whether the relation holds between `a` and `b`.
    pub open spec fn holds(self, a: ValueView, b: ValueView) -> bool {
        match self {
            Operator::Eq => value_same(a, b),
            Operator::Ne => !value_same(a, b),
            Operator::Lt => value_less(a, b),
            Operator::Le => value_less(a, b) || value_same(a, b),
            Operator::Gt => value_less(b, a),
            Operator::Ge => value_less(b, a) || value_same(a, b),
        }
    }
}

/// Up to their first difference two texts agree, and there they differ or one has ended;
/// the position is the same whichever text is named first.
pub proof fn lemma_first_difference(a: Seq<char>, b: Seq<char>, from: int)
    requires
        0 <= from <= a.len(),
        from <= b.len(),
    ensures
        from <= first_difference(a, b, from) <= a.len(),
        first_difference(a, b, from) <= b.len(),
        first_difference(a, b, from) == first_difference(b, a, from),
        forall|i: int| from <= i < first_difference(a, b, from) ==> a[i] == b[i],
        first_difference(a, b, from) < a.len() && first_difference(a, b, from) < b.len() ==> a[first_difference(
            a,
            b,
            from,
        )] != b[first_difference(a, b, from)],
    decreases a.len() - from,
{
    if from < a.len() && from < b.len() && a[from] == b[from] {
        lemma_first_difference(a, b, from + 1);
    }
}

/// Of two texts exactly one of three holds: the first comes before the second, they are
/// equal, or the second comes before the first.
pub proof fn lemma_text_order_total(a: Seq<char>, b: Seq<char>)
    ensures
        text_less(a, b) || a == b || text_less(b, a),
        !(text_less(a, b) && a == b),
        !(text_less(b, a) && a == b),
        !(text_less(a, b) && text_less(b, a)),
{
    lemma_first_difference(a, b, 0);
}

/// How two values stand to each other.
#[derive(Debug, Clone, Copy, PartialEq, Eq)]
pub enum Order {
    Before,
    Same,
    After,
}

/// Tells how two texts stand in lexical order.
pub fn order_texts(a: &str, b: &str) -> (r: Order)
    ensures
        (r is Before) == text_less(a@, b@),
        (r is Same) == (a@ == b@),
        (r is After) == text_less(b@, a@),
{
    let x = to_chars(a);
    let y = to_chars(b);
    let mut k: usize = 0;
    while k < x.len() && k < y.len() && x[k] == y[k]
        invariant
            k <= x.len(),
            k <= y.len(),
            first_difference(x@, y@, 0) == first_difference(x@, y@, k as int),
        decreases x.len() - k,
    {
        k += 1;
    }
    proof {
        lemma_first_difference(x@, y@, 0);
        lemma_text_order_total(x@, y@);
    }
    if k == x.len() {
        if k == y.len() {
            Order::Same
        } else {
            Order::Before
        }
    } else if k == y.len() {
        Order::After
    } else if x[k] < y[k] {
        Order::Before
    } else {
        Order::After
    }
}

/// Tells how two values stand to each other: by number if both are integers, else by
/// the lexical order of their canonical texts.
pub fn order_values(left: &VarValue, right: &VarValue) -> (r: Order)
    ensures
        (r is Before) == value_less(left@, right@),
        (r is Same) == value_same(left@, right@),
        (r is After) == value_less(right@, left@),
{
    match (left, right) {
        (VarValue::Int(x), VarValue::Int(y)) => {
            if *x < *y {
                Order::Before
            } else if *x == *y {
                Order::Same
            } else {
                Order::After
            }
        },
        _ => {
            let a = left.text();
            let b = right.text();
            order_texts(a.as_str(), b.as_str())
        },
    }
}

impl CompareExpr {
    /// Tells whether the relation `operator` holds between two values.
    pub fn compare(left: &VarValue, right: &VarValue, operator: &Operator) -> (r: bool)
        ensures
            r == operator.holds(left@, right@),
    {
        let order = order_values(left, right);
        match operator {
            Operator::Eq => matches!(order, Order::Same),
            Operator::Ne => !matches!(order, Order::Same),
            Operator::Lt => matches!(order, Order::Before),
            Operator::Le => !matches!(order, Order::After),
            Operator::Gt => matches!(order, Order::After),
            Operator::Ge => !matches!(order, Order::Before),
        }
    }
}

/// Each relation is the negation of its opposite: `Eq` of `Ne`, `Lt` of `Ge`, and `Gt`
/// of `Le`. So of the two of a pair exactly one holds between any two values.
pub proof fn law_negation(a: ValueView, b: ValueView)
    ensures
        Operator::Eq.holds(a, b) == !Operator::Ne.holds(a, b),
        Operator::Lt.holds(a, b) == !Operator::Ge.holds(a, b),
        Operator::Gt.holds(a, b) == !Operator::Le.holds(a, b),
{
    lemma_text_order_total(a.text(), b.text());
}

/// Between two integers the relations are those of the numbers.
pub proof fn law_integers_by_number(x: int, y: int)
    ensures
        Operator::Eq.holds(ValueView::Integer(x), ValueView::Integer(y)) == (x == y),
        Operator::Ne.holds(ValueView::Integer(x), ValueView::Integer(y)) == (x != y),
        Operator::Lt.holds(ValueView::Integer(x), ValueView::Integer(y)) == (x < y),
        Operator::Le.holds(ValueView::Integer(x), ValueView::Integer(y)) == (x <= y),
        Operator::Gt.holds(ValueView::Integer(x), ValueView::Integer(y)) == (x > y),
        Operator::Ge.holds(ValueView::Integer(x), ValueView::Integer(y)) == (x >= y),
{
}

/// Where one of the two values is a text, the relations are those of the lexical order
/// of the canonical texts.
pub proof fn law_texts_by_lexical_order(a: ValueView, b: ValueView)
    requires
        a is Text || b is Text,
    ensures
        Operator::Eq.holds(a, b) == (a.text() == b.text()),
        Operator::Ne.holds(a, b) == (a.text() != b.text()),
        Operator::Lt.holds(a, b) == text_less(a.text(), b.text()),
        Operator::Le.holds(a, b) == !text_less(b.text(), a.text()),
        Operator::Gt.holds(a, b) == text_less(b.text(), a.text()),
        Operator::Ge.holds(a, b) == !text_less(a.text(), b.text()),
{
    lemma_text_order_total(a.text(), b.text());
}

} // verus!
