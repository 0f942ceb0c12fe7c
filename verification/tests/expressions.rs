//! Checks of the expression engine on its own: the grammar, precedence,
//! fixed-point arithmetic, and the error taxonomy.

use colorgen::expr::{eval_text, EvalError};
use colorgen::{Scalar, VarMap};

fn empty_ctx() -> VarMap {
    VarMap::new()
}

fn eval_units(text: &str) -> Result<i64, EvalError> {
    eval_text(text, &empty_ctx()).map(|s| s.milli)
}

#[test]
fn integer_literals_scale_to_fixed_point() {
    assert_eq!(eval_units("5"), Ok(5_000));
    assert_eq!(eval_units("0"), Ok(0));
    assert_eq!(eval_units("360"), Ok(360_000));
}

#[test]
fn fractional_literals_keep_three_places() {
    assert_eq!(eval_units("5.25"), Ok(5_250));
    assert_eq!(eval_units("0.5"), Ok(500));
    assert_eq!(eval_units("1.234"), Ok(1_234));
    assert_eq!(eval_units("1.23456"), Ok(1_234));
}

#[test]
fn multiplication_binds_tighter_than_addition() {
    assert_eq!(eval_units("2 + 3 * 4"), Ok(14_000));
    assert_eq!(eval_units("2 * 3 + 4"), Ok(10_000));
}

#[test]
fn subtraction_is_left_associative() {
    assert_eq!(eval_units("10 - 2 - 3"), Ok(5_000));
    assert_eq!(eval_units("24 / 4 / 3"), Ok(2_000));
}

#[test]
fn division_is_fixed_point() {
    assert_eq!(eval_units("7 / 2"), Ok(3_500));
    assert_eq!(eval_units("1 / 3"), Ok(333));
    assert_eq!(eval_units("0 - 7 / 2"), Ok(-3_500));
}

#[test]
fn whitespace_is_ignored() {
    assert_eq!(eval_units("  1\t+ 2  "), Ok(3_000));
    assert_eq!(eval_units("1+2*3"), Ok(7_000));
}

#[test]
fn malformed_texts_are_parse_errors() {
    assert_eq!(eval_units("1 +"), Err(EvalError::Parse));
    assert_eq!(eval_units(""), Err(EvalError::Parse));
    assert_eq!(eval_units("5."), Err(EvalError::Parse));
    assert_eq!(eval_units("1 2"), Err(EvalError::Parse));
    assert_eq!(eval_units("(1)"), Err(EvalError::Parse));
    assert_eq!(eval_units("* 3"), Err(EvalError::Parse));
    assert_eq!(eval_units("1 ? 2"), Err(EvalError::Parse));
}

#[test]
fn over_long_literals_are_parse_errors() {
    assert_eq!(eval_units("999999999999999"), Ok(999_999_999_999_999_000));
    assert_eq!(eval_units("1234567890123456"), Err(EvalError::Parse));
}

#[test]
fn unbound_variables_are_evaluation_errors() {
    assert_eq!(eval_units("y"), Err(EvalError::Evaluation));
    assert_eq!(eval_units("1 + y"), Err(EvalError::Evaluation));
}

#[test]
fn division_by_zero_is_an_evaluation_error() {
    assert_eq!(eval_units("1 / 0"), Err(EvalError::Evaluation));
}

#[test]
fn overflow_is_an_evaluation_error() {
    assert_eq!(
        eval_units("999999999999999 * 999999999999999"),
        Err(EvalError::Evaluation)
    );
}

#[test]
fn variables_read_from_the_context() {
    let mut ctx = VarMap::new();
    ctx.set("x", Scalar { milli: 2_000 });
    ctx.set("rise", Scalar { milli: 500 });
    let r = eval_text("x * 10 + rise", &ctx).unwrap();
    assert_eq!(r.milli, 20_500);
}

#[test]
fn later_bindings_shadow_earlier_ones() {
    let mut ctx = VarMap::new();
    ctx.set("x", Scalar { milli: 1_000 });
    ctx.set("x", Scalar { milli: 9_000 });
    assert_eq!(ctx.get("x").unwrap().milli, 9_000);
    assert!(ctx.get("missing").is_none());
    assert_eq!(ctx.get_or_zero("missing").milli, 0);
}

#[test]
fn scalar_arithmetic_is_checked() {
    let big = Scalar { milli: i64::MAX };
    let one = Scalar { milli: 1_000 };
    assert!(big.add(one).is_none());
    assert!(big.mul(Scalar { milli: 2_000 }).is_none());
    assert!(one.div(Scalar { milli: 0 }).is_none());
    assert_eq!(one.add(one).unwrap().milli, 2_000);
    assert_eq!(one.sub(big).is_none(), false);
    assert_eq!(
        Scalar { milli: 1_500 }.mul(Scalar { milli: 2_000 }).unwrap().milli,
        3_000
    );
    assert_eq!(
        Scalar { milli: -7_000 }.div(Scalar { milli: 2_000 }).unwrap().milli,
        -3_500
    );
}
