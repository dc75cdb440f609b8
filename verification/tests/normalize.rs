//! Constraint construction and normalization.

use lp_model::{Expression, Rat, Variable};

#[test]
fn normalization_partitions_and_folds() {
    // lhs = 2x + 3, rhs = y + 1, relation <=: the normal form keeps the
    // terms 2x and -1y (lhs terms first, then the negated rhs terms) and
    // moves the folded constant, negated, to the right: 3 - 1 = 2 gives -2.
    let x = Variable::new(0, Some(String::from("x")));
    let y = Variable::new(1, Some(String::from("y")));
    let lhs = x.mul(Rat::from_int(2)).add(Expression::from_const(Rat::from_int(3)));
    let rhs = Expression::from_var(y).add(Expression::from_const(Rat::from_int(1)));
    let constraint = lhs.le(rhs);
    let normalized = constraint.to_normalized();
    assert_eq!(normalized.render(), "2 x - 1 y <= -2");
}

#[test]
fn normalization_is_idempotent() {
    let x = Variable::new(0, Some(String::from("x")));
    let y = Variable::new(1, Some(String::from("y")));
    let lhs = x.mul(Rat::from_int(2)).add(Expression::from_const(Rat::from_int(3)));
    let rhs = Expression::from_var(y).add(Expression::from_const(Rat::from_int(1)));
    let once = lhs.le(rhs).to_normalized();
    let once_text = once.render();
    let twice = once.to_normalized();
    assert_eq!(twice.render(), once_text);
}

#[test]
fn relations_render_their_tokens() {
    let x = Variable::new(0, Some(String::from("x")));
    let y = Variable::new(1, Some(String::from("y")));
    let le = x.clone().le(Expression::from_var(y.clone()));
    assert_eq!(le.render(), "1 x <= 1 y");
    let eq = x.clone().eq(Expression::from_var(y.clone()));
    assert_eq!(eq.render(), "1 x = 1 y");
    let ge = x.ge(Expression::from_var(y));
    assert_eq!(ge.render(), "1 x >= 1 y");
}

#[test]
fn normalization_keeps_duplicate_variable_terms() {
    // Even normalization folds only the constants; repeated variable terms
    // survive in order.
    let x = Variable::new(0, Some(String::from("x")));
    let lhs = x.clone().mul(Rat::from_int(1)).add(x.mul(Rat::from_int(2)));
    let constraint = lhs.le(Expression::from_const(Rat::from_int(5)));
    assert_eq!(constraint.to_normalized().render(), "1 x + 2 x <= 5");
}

#[test]
fn normalization_carries_relation_through() {
    let x = Variable::new(0, Some(String::from("x")));
    let ge = x.ge(Expression::from_const(Rat::from_int(7)));
    assert_eq!(ge.to_normalized().render(), "1 x >= 7");
}
