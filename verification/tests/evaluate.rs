use imp_lang::imp::{Aexp, Bexp, BexpImpl};
use imp_lang::{EvalError, Evaluate, Number, State, Truth};

#[test]
fn equals() {
    // 3 = 3
    assert_eq!(Aexp::N(3.into()), Aexp::N(3.into()));

    // not ( 8 = 3 + 5 )
    assert_ne!(
        Aexp::N(8.into()),
        Aexp::Add(Box::new(Aexp::N(3.into())), Box::new(Aexp::N(5.into()))),
    );

    // not ( 5 + 3 = 3 + 5 )
    assert_ne!(
        Aexp::Add(Box::new(Aexp::N(5.into())), Box::new(Aexp::N(3.into()))),
        Aexp::Add(Box::new(Aexp::N(3.into())), Box::new(Aexp::N(5.into()))),
    );
}

#[test]
fn evaluate_number() {
    let state = State::init();
    let before = state.clone();
    assert_eq!(Ok(Number::from(2)), Aexp::N(2.into()).evaluate(&state));
    assert_eq!(before, state);

    let state = State::init();
    let before = state.clone();
    assert_eq!(Ok(Number::from(5)), Aexp::N(5.into()).evaluate(&state));
    assert_eq!(before, state);
}

#[test]
fn evaluate_variable() {
    let state = State::from(&[("Init", 0.into())]);
    let before = state.clone();
    assert_eq!(
        Ok(Number::from(0)),
        Aexp::Loc("Init".into()).evaluate(&state),
    );
    assert_eq!(before, state);
}

#[test]
fn evaluate_undefined_variable() {
    let state = State::init();
    assert_eq!(
        Err(EvalError::UndefinedVariable("Init".into())),
        Aexp::Loc("Init".into()).evaluate(&state),
    );
}

#[test]
fn evaluate_addition() {
    let state = State::init();
    assert_eq!(
        Ok(Number::from(16)),
        Aexp::Add(Box::new(Aexp::N(7.into())), Box::new(Aexp::N(9.into()))).evaluate(&state),
    );

    let state = State::from(&[("Init", 0.into())]);
    assert_eq!(
        Ok(Number::from(5)),
        Aexp::Add(
            Box::new(Aexp::Loc("Init".into())),
            Box::new(Aexp::N(5.into()))
        )
        .evaluate(&state),
    );

    let state = State::from(&[("Init", 0.into())]);
    assert_eq!(
        Ok(Number::from(21)),
        Aexp::Add(
            Box::new(Aexp::Add(
                Box::new(Aexp::Loc("Init".into())),
                Box::new(Aexp::N(5.into()))
            )),
            Box::new(Aexp::Add(
                Box::new(Aexp::N(7.into())),
                Box::new(Aexp::N(9.into()))
            )),
        )
        .evaluate(&state),
    );
}

#[test]
fn evaluate_addition_wraps() {
    let state = State::init();
    assert_eq!(
        Ok(Number::from(i32::MIN)),
        Aexp::Add(
            Box::new(Aexp::N(i32::MAX.into())),
            Box::new(Aexp::N(1.into()))
        )
        .evaluate(&state),
    );
}

#[test]
fn evaluate_subtraction() {
    let state = State::init();
    assert_eq!(
        Ok(Number::from(-2)),
        Aexp::Sub(Box::new(Aexp::N(7.into())), Box::new(Aexp::N(9.into()))).evaluate(&state),
    );

    let state = State::from(&[("Init", 0.into())]);
    assert_eq!(
        Ok(Number::from(-5)),
        Aexp::Sub(
            Box::new(Aexp::Loc("Init".into())),
            Box::new(Aexp::N(5.into()))
        )
        .evaluate(&state),
    );

    let state = State::from(&[("Init", 0.into())]);
    assert_eq!(
        Ok(Number::from(-3)),
        Aexp::Sub(
            Box::new(Aexp::Sub(
                Box::new(Aexp::Loc("Init".into())),
                Box::new(Aexp::N(5.into()))
            )),
            Box::new(Aexp::Sub(
                Box::new(Aexp::N(7.into())),
                Box::new(Aexp::N(9.into()))
            )),
        )
        .evaluate(&state),
    );
}

#[test]
fn evaluate_subtraction_wraps() {
    let state = State::init();
    assert_eq!(
        Ok(Number::from(i32::MAX)),
        Aexp::Sub(
            Box::new(Aexp::N(i32::MIN.into())),
            Box::new(Aexp::N(1.into()))
        )
        .evaluate(&state),
    );
}

#[test]
fn evaluate_multiplication() {
    let state = State::init();
    assert_eq!(
        Ok(Number::from(63)),
        Aexp::Mul(Box::new(Aexp::N(7.into())), Box::new(Aexp::N(9.into()))).evaluate(&state),
    );

    let state = State::from(&[("Init", 0.into())]);
    assert_eq!(
        Ok(Number::from(0)),
        Aexp::Mul(
            Box::new(Aexp::Loc("Init".into())),
            Box::new(Aexp::N(5.into()))
        )
        .evaluate(&state),
    );

    let state = State::from(&[("Init", 0.into())]);
    assert_eq!(
        Ok(Number::from(0)),
        Aexp::Mul(
            Box::new(Aexp::Mul(
                Box::new(Aexp::Loc("Init".into())),
                Box::new(Aexp::N(5.into()))
            )),
            Box::new(Aexp::Mul(
                Box::new(Aexp::N(7.into())),
                Box::new(Aexp::N(9.into()))
            )),
        )
        .evaluate(&state),
    );
}

#[test]
fn evaluate_multiplication_wraps() {
    let state = State::init();
    assert_eq!(
        Ok(Number::from(0)),
        Aexp::Mul(
            Box::new(Aexp::N(65536.into())),
            Box::new(Aexp::N(65536.into()))
        )
        .evaluate(&state),
    );
}

#[test]
fn evaluate_truth() {
    let state = State::init();
    assert_eq!(
        Ok(Truth::from(true)),
        BexpImpl::T(true.into()).evaluate(&state),
    );

    let state = State::init();
    assert_eq!(
        Ok(Truth::from(false)),
        BexpImpl::T(false.into()).evaluate(&state),
    );
}

#[test]
fn evaluate_equality() {
    let state = State::init();
    assert_eq!(
        Ok(Truth::from(true)),
        BexpImpl::Eq(Aexp::N(0.into()), Aexp::N(0.into())).evaluate(&state),
    );

    let state = State::init();
    assert_eq!(
        Ok(Truth::from(false)),
        BexpImpl::Eq(Aexp::N(0.into()), Aexp::N(1.into())).evaluate(&state),
    );
}

#[test]
fn evaluate_less_than_or_equal() {
    let state = State::init();
    assert_eq!(
        Ok(Truth::from(true)),
        BexpImpl::Le(Aexp::N(0.into()), Aexp::N(0.into())).evaluate(&state),
    );

    let state = State::init();
    assert_eq!(
        Ok(Truth::from(true)),
        BexpImpl::Le(Aexp::N(0.into()), Aexp::N(1.into())).evaluate(&state),
    );

    let state = State::init();
    assert_eq!(
        Ok(Truth::from(false)),
        BexpImpl::Le(Aexp::N(1.into()), Aexp::N(0.into())).evaluate(&state),
    );
}

#[test]
fn evaluate_not() {
    let state = State::init();
    assert_eq!(
        Ok(Truth::from(false)),
        BexpImpl::Not(Box::new(BexpImpl::T(true.into()))).evaluate(&state),
    );

    let state = State::init();
    assert_eq!(
        Ok(Truth::from(true)),
        BexpImpl::Not(Box::new(BexpImpl::T(false.into()))).evaluate(&state),
    );
}

#[test]
fn evaluate_and() {
    // A false left operand decides the result: the poisoned right operand
    // is never evaluated, so no failure surfaces.
    let state = State::init();
    assert_eq!(
        Ok(Truth::from(false)),
        BexpImpl::And(
            Box::new(BexpImpl::T(false.into())),
            Box::new(BexpImpl::Dummy),
        )
        .evaluate(&state),
    );

    let state = State::init();
    assert_eq!(
        Ok(Truth::from(false)),
        BexpImpl::And(
            Box::new(BexpImpl::T(true.into())),
            Box::new(BexpImpl::T(false.into()))
        )
        .evaluate(&state),
    );

    let state = State::init();
    assert_eq!(
        Ok(Truth::from(true)),
        BexpImpl::And(
            Box::new(BexpImpl::T(true.into())),
            Box::new(BexpImpl::T(true.into()))
        )
        .evaluate(&state),
    );
}

#[test]
fn evaluate_or() {
    // A true left operand decides the result: the poisoned right operand
    // is never evaluated, so no failure surfaces.
    let state = State::init();
    assert_eq!(
        Ok(Truth::from(true)),
        BexpImpl::Or(
            Box::new(BexpImpl::T(true.into())),
            Box::new(BexpImpl::Dummy),
        )
        .evaluate(&state),
    );

    let state = State::init();
    assert_eq!(
        Ok(Truth::from(true)),
        BexpImpl::Or(
            Box::new(BexpImpl::T(false.into())),
            Box::new(BexpImpl::T(true.into()))
        )
        .evaluate(&state),
    );

    let state = State::init();
    assert_eq!(
        Ok(Truth::from(false)),
        BexpImpl::Or(
            Box::new(BexpImpl::T(false.into())),
            Box::new(BexpImpl::T(false.into()))
        )
        .evaluate(&state),
    );
}

#[test]
fn evaluate_poison_directly() {
    // Evaluated on its own, the poison operand must fail visibly.
    let state = State::init();
    assert_eq!(Err(EvalError::Poisoned), BexpImpl::Dummy.evaluate(&state));
}

#[test]
fn evaluate_composed_bexp() {
    // (not (1 <= 0)) and (0 = 0) is true
    let b = Bexp::and(
        Bexp::not(Bexp::le(Aexp::N(1.into()), Aexp::N(0.into()))),
        Bexp::eq(Aexp::N(0.into()), Aexp::N(0.into())),
    );
    assert_eq!(Ok(Truth::from(true)), b.evaluate(&State::init()));

    // false or false is false
    let b = Bexp::or(Bexp::truth(false), Bexp::truth(false));
    assert_eq!(Ok(Truth::from(false)), b.evaluate(&State::init()));
}
