//! Expression algebra: construction, composition, rendering.

use lp_model::{c, Expression, Model, Rat, Variable};

#[test]
fn test_expression() {
    let mut model = Model::new();
    let ba = model.add_var().name("a");
    let a = ba.build(&mut model);
    let bb = model.add_var().name("b");
    let b = bb.build(&mut model);
    let x = c(2).mul(Expression::from_var(a));
    let y = c(3).mul(Expression::from_var(b));
    let z = c(2).mul(y.duplicate());
    model.add_var();
    let be = model.add_var().name("e");
    let e = be.build(&mut model);
    let k = c(6).mul(Expression::from_var(e));
    let expr = x.add(y).add(z.add(k));
    assert_eq!(expr.render(), "2 a + 3 b + 6 b + 6 e");
}

#[test]
fn test_expression2() {}

#[test]
fn test_expression3() {}

#[test]
fn test_constraint() {}

#[test]
fn add_concatenates_term_renderings() {
    // The rendered term sequence of a sum is the first operand's terms
    // followed by the second's: nothing merged, nothing reordered.
    let a = Variable::new(0, Some(String::from("a")));
    let b = Variable::new(1, Some(String::from("b")));
    let e1 = a.mul(Rat::from_int(2)).add(Expression::from_const(Rat::from_int(3)));
    let e2 = b.mul(Rat::from_int(4));
    assert_eq!(e1.render(), "2 a + 3");
    assert_eq!(e2.render(), "4 b");
    let sum = e1.add(e2);
    assert_eq!(sum.render(), "2 a + 3 + 4 b");
}

#[test]
fn add_keeps_duplicate_terms() {
    let a = Variable::new(0, Some(String::from("a")));
    let e1 = a.clone().mul(Rat::from_int(2));
    let e2 = a.mul(Rat::from_int(2));
    assert_eq!(e1.add(e2).render(), "2 a + 2 a");
}

#[test]
fn divide_then_scale_restores_term_values() {
    let a = Variable::new(0, Some(String::from("a")));
    let b = Variable::new(1, Some(String::from("b")));
    let e = a.mul(Rat::from_int(2)).add(b.mul(Rat::from_int(3)));
    let s = Rat::from_int(3);
    let back = e.duplicate().div(s).mul(s);
    assert_eq!(back.term_count(), e.term_count());
    for i in 0..e.term_count() {
        let orig = e.term_at(i);
        let round = back.term_at(i);
        assert!(round.coeff.eq_value(&orig.coeff));
        match (&orig.var, &round.var) {
            (Some(v1), Some(v2)) => assert_eq!(v1.name(), v2.name()),
            (None, None) => {}
            _ => panic!("term shape changed"),
        }
    }
}

#[test]
fn negate_twice_is_identity() {
    let a = Variable::new(0, Some(String::from("a")));
    let e = a
        .mul(Rat::new(-7, 2))
        .add(Expression::from_const(Rat::from_int(5)));
    let back = e.duplicate().neg().neg();
    assert_eq!(back.term_count(), e.term_count());
    for i in 0..e.term_count() {
        assert_eq!(back.term_at(i).coeff, e.term_at(i).coeff);
    }
    assert_eq!(back.render(), e.render());
}

#[test]
fn empty_expression_renders_empty() {
    let e = Expression::new();
    assert_eq!(e.render(), "");
}

#[test]
fn negative_coefficients_render_with_explicit_sign() {
    let a = Variable::new(0, Some(String::from("a")));
    let b = Variable::new(1, Some(String::from("b")));
    let e = a.mul(Rat::from_int(-2)).add(b.mul(Rat::from_int(-5)));
    assert_eq!(e.render(), "-2 a - 5 b");
}

#[test]
fn unnamed_variable_renders_with_fallback_name() {
    // A variable with no name and ordinal id 3 renders as `v3`.
    let v = Variable::new(3, None);
    assert_eq!(v.name(), "v3");
    let e = Expression::from_var(v);
    assert_eq!(e.render(), "1 v3");
}

#[test]
fn rational_arithmetic_is_exact() {
    let half = Rat::new(1, 2);
    let third = Rat::new(1, 3);
    let sum = half.add(third);
    assert!(sum.eq_value(&Rat::new(5, 6)));
    assert_eq!(sum.to_text(), "5/6");
    let product = half.mul(third);
    assert!(product.eq_value(&Rat::new(1, 6)));
    let quotient = half.div(third);
    assert!(quotient.eq_value(&Rat::new(3, 2)));
    let difference = half.sub(third);
    assert!(difference.eq_value(&Rat::new(1, 6)));
    assert_eq!(Rat::from_int(-4).to_text(), "-4");
    assert_eq!(Rat::new(3, -4).to_text(), "-3/4");
    // Rendering is in lowest terms, whatever terms the value is held in.
    assert_eq!(Rat::new(8, 2).to_text(), "4");
    assert_eq!(Rat::new(6, 8).to_text(), "3/4");
    assert_eq!(Rat::new(-6, 8).to_text(), "-3/4");
    assert_eq!(Rat::new(0, 5).to_text(), "0");
    assert_eq!(half.add(Rat::new(1, 2)).to_text(), "1");
    assert!(Rat::new(2, 4).eq_value(&Rat::new(1, 2)));
    assert!(Rat::from_int(-1).is_negative());
    assert!(!Rat::zero().is_negative());
}
