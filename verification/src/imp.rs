//! The IMP language: abstract syntax trees, their big-step semantics, and
//! the verified evaluator and executor.
//!
//! ```text
//! Aexp ::= Number | VarName | Aexp "+" Aexp | Aexp "-" Aexp | Aexp "*" Aexp
//! Bexp ::= Truth | Aexp "=" Aexp | Aexp "<=" Aexp | "not" Bexp | Bexp "and" Bexp | Bexp "or" Bexp
//! Com  ::= "skip" | VarName ":=" Aexp | Com ";" Com | "if" Bexp "then" Com "else" Com | "while" Bexp "do" Com
//! ```

use vstd::prelude::*;
use vstd::wrapping::i32_specs;

use crate::{Bindings, EvalError, Evaluate, Fault, Number, State, Truth, VarName};

verus! {

/// An arithmetic expression.
#[derive(Debug, PartialEq)]
pub enum Aexp {
    /// An integer literal.
    N(Number),
    /// A program variable.
    Loc(VarName),
    /// Addition.
    Add(Box<Aexp>, Box<Aexp>),
    /// Subtraction.
    Sub(Box<Aexp>, Box<Aexp>),
    /// Multiplication.
    Mul(Box<Aexp>, Box<Aexp>),
}

/// The value of an arithmetic expression under the bindings `s`.
///
/// Operands are evaluated left to right, so the left operand's fault wins
/// when both fail. Addition, subtraction and multiplication wrap around on
/// 32-bit overflow.
pub open spec fn aeval(a: Aexp, s: Bindings) -> Result<i32, Fault>
    decreases a,
{
    match a {
        Aexp::N(n) => Ok(n@),
        Aexp::Loc(x) => if s.contains_key(x@) {
            Ok(s[x@])
        } else {
            Err(Fault::Undefined(x@))
        },
        Aexp::Add(l, r) => match (aeval(*l, s), aeval(*r, s)) {
            (Err(e), _) => Err(e),
            (Ok(_), Err(e)) => Err(e),
            (Ok(lv), Ok(rv)) => Ok(i32_specs::wrapping_add(lv, rv)),
        },
        Aexp::Sub(l, r) => match (aeval(*l, s), aeval(*r, s)) {
            (Err(e), _) => Err(e),
            (Ok(_), Err(e)) => Err(e),
            (Ok(lv), Ok(rv)) => Ok(i32_specs::wrapping_sub(lv, rv)),
        },
        Aexp::Mul(l, r) => match (aeval(*l, s), aeval(*r, s)) {
            (Err(e), _) => Err(e),
            (Ok(_), Err(e)) => Err(e),
            (Ok(lv), Ok(rv)) => Ok(i32_specs::wrapping_mul(lv, rv)),
        },
    }
}

fn eval_aexp(a: &Aexp, state: &State) -> (r: Result<Number, EvalError>)
    ensures
        crate::outcome_of(r) == aeval(*a, state@),
    decreases *a,
{
    match a {
        Aexp::N(n) => Ok(*n),
        Aexp::Loc(x) => match state.get(x) {
            Some(n) => Ok(n),
            None => Err(EvalError::UndefinedVariable(x.clone())),
        },
        Aexp::Add(l, r) => {
            let lv = match eval_aexp(l, state) {
                Ok(v) => v,
                Err(e) => {
                    return Err(e);
                },
            };
            let rv = match eval_aexp(r, state) {
                Ok(v) => v,
                Err(e) => {
                    return Err(e);
                },
            };
            Ok(lv.add(rv))
        },
        Aexp::Sub(l, r) => {
            let lv = match eval_aexp(l, state) {
                Ok(v) => v,
                Err(e) => {
                    return Err(e);
                },
            };
            let rv = match eval_aexp(r, state) {
                Ok(v) => v,
                Err(e) => {
                    return Err(e);
                },
            };
            Ok(lv.sub(rv))
        },
        Aexp::Mul(l, r) => {
            let lv = match eval_aexp(l, state) {
                Ok(v) => v,
                Err(e) => {
                    return Err(e);
                },
            };
            let rv = match eval_aexp(r, state) {
                Ok(v) => v,
                Err(e) => {
                    return Err(e);
                },
            };
            Ok(lv.mul(rv))
        },
    }
}

impl Evaluate<Number> for Aexp {
    open spec fn eval_spec(&self, s: Bindings) -> Result<i32, Fault> {
        aeval(*self, s)
    }

    fn evaluate(&self, state: &State) -> (r: Result<Number, EvalError>) {
        eval_aexp(self, state)
    }
}

/// The shape of a boolean expression.
///
/// [`Bexp`] wraps this enum; the [`Bexp`] constructors never build the
/// [`BexpImpl::Dummy`] variant, which is reserved for tests that check
/// that a short-circuited operand is never evaluated.
#[derive(Debug, PartialEq)]
pub enum BexpImpl {
    /// A boolean literal.
    T(Truth),
    /// Equality of two arithmetic expressions.
    Eq(Aexp, Aexp),
    /// Order `left <= right` of two arithmetic expressions.
    Le(Aexp, Aexp),
    /// Negation.
    Not(Box<BexpImpl>),
    /// Conjunction, short-circuiting on a false left operand.
    And(Box<BexpImpl>, Box<BexpImpl>),
    /// Disjunction, short-circuiting on a true left operand.
    Or(Box<BexpImpl>, Box<BexpImpl>),
    /// A poison operand: evaluating it always fails. Short-circuit tests
    /// place it where a correct evaluator must never look.
    Dummy,
}

/// The value of a boolean expression under the bindings `s`.
///
/// `And` and `Or` short-circuit: when the left operand decides the result,
/// the right operand contributes nothing, not even a fault.
pub open spec fn beval(b: BexpImpl, s: Bindings) -> Result<bool, Fault>
    decreases b,
{
    match b {
        BexpImpl::T(t) => Ok(t@),
        BexpImpl::Eq(l, r) => match (aeval(l, s), aeval(r, s)) {
            (Err(e), _) => Err(e),
            (Ok(_), Err(e)) => Err(e),
            (Ok(lv), Ok(rv)) => Ok(lv == rv),
        },
        BexpImpl::Le(l, r) => match (aeval(l, s), aeval(r, s)) {
            (Err(e), _) => Err(e),
            (Ok(_), Err(e)) => Err(e),
            (Ok(lv), Ok(rv)) => Ok(lv <= rv),
        },
        BexpImpl::Not(inner) => match beval(*inner, s) {
            Err(e) => Err(e),
            Ok(t) => Ok(!t),
        },
        BexpImpl::And(l, r) => match beval(*l, s) {
            Err(e) => Err(e),
            Ok(t) => if !t {
                Ok(false)
            } else {
                beval(*r, s)
            },
        },
        BexpImpl::Or(l, r) => match beval(*l, s) {
            Err(e) => Err(e),
            Ok(t) => if t {
                Ok(true)
            } else {
                beval(*r, s)
            },
        },
        BexpImpl::Dummy => Err(Fault::Poisoned),
    }
}

fn eval_bexp(b: &BexpImpl, state: &State) -> (r: Result<Truth, EvalError>)
    ensures
        crate::outcome_of(r) == beval(*b, state@),
    decreases *b,
{
    match b {
        BexpImpl::T(t) => Ok(*t),
        BexpImpl::Eq(l, r) => {
            let lv = match eval_aexp(l, state) {
                Ok(v) => v,
                Err(e) => {
                    return Err(e);
                },
            };
            let rv = match eval_aexp(r, state) {
                Ok(v) => v,
                Err(e) => {
                    return Err(e);
                },
            };
            Ok(Truth::from(lv.equals(rv)))
        },
        BexpImpl::Le(l, r) => {
            let lv = match eval_aexp(l, state) {
                Ok(v) => v,
                Err(e) => {
                    return Err(e);
                },
            };
            let rv = match eval_aexp(r, state) {
                Ok(v) => v,
                Err(e) => {
                    return Err(e);
                },
            };
            Ok(Truth::from(lv.le(rv)))
        },
        BexpImpl::Not(inner) => {
            match eval_bexp(inner, state) {
                Ok(t) => Ok(t.not()),
                Err(e) => Err(e),
            }
        },
        BexpImpl::And(l, r) => {
            let lv = match eval_bexp(l, state) {
                Ok(v) => v,
                Err(e) => {
                    return Err(e);
                },
            };
            if lv.holds() {
                eval_bexp(r, state)
            } else {
                Ok(Truth::from(false))
            }
        },
        BexpImpl::Or(l, r) => {
            let lv = match eval_bexp(l, state) {
                Ok(v) => v,
                Err(e) => {
                    return Err(e);
                },
            };
            if lv.holds() {
                Ok(Truth::from(true))
            } else {
                eval_bexp(r, state)
            }
        },
        BexpImpl::Dummy => Err(EvalError::Poisoned),
    }
}

impl Evaluate<Truth> for BexpImpl {
    open spec fn eval_spec(&self, s: Bindings) -> Result<bool, Fault> {
        beval(*self, s)
    }

    fn evaluate(&self, state: &State) -> (r: Result<Truth, EvalError>) {
        eval_bexp(self, state)
    }
}

/// A boolean expression built from the constructors below.
#[derive(Debug, PartialEq)]
pub struct Bexp {
    bexp: BexpImpl,
}

impl View for Bexp {
    type V = BexpImpl;

    closed spec fn view(&self) -> BexpImpl {
        self.bexp
    }
}

impl Bexp {
    /// The literal `true` or `false`.
    pub fn truth(b: bool) -> (r: Bexp)
        ensures
            r@ matches BexpImpl::T(t) && t@ == b,
    {
        Bexp { bexp: BexpImpl::T(b.into()) }
    }

    /// Equality `left = right`.
    pub fn eq(left: Aexp, right: Aexp) -> (r: Bexp)
        ensures
            r@ == BexpImpl::Eq(left, right),
    {
        Bexp { bexp: BexpImpl::Eq(left, right) }
    }

    /// Order `left <= right`.
    pub fn le(left: Aexp, right: Aexp) -> (r: Bexp)
        ensures
            r@ == BexpImpl::Le(left, right),
    {
        Bexp { bexp: BexpImpl::Le(left, right) }
    }

    /// Negation `not expr`.
    pub fn not(expr: Bexp) -> (r: Bexp)
        ensures
            r@ == BexpImpl::Not(Box::new(expr@)),
    {
        Bexp { bexp: BexpImpl::Not(Box::new(expr.bexp)) }
    }

    /// Conjunction `left and right`.
    pub fn and(left: Bexp, right: Bexp) -> (r: Bexp)
        ensures
            r@ == BexpImpl::And(Box::new(left@), Box::new(right@)),
    {
        Bexp { bexp: BexpImpl::And(Box::new(left.bexp), Box::new(right.bexp)) }
    }

    /// Disjunction `left or right`.
    pub fn or(left: Bexp, right: Bexp) -> (r: Bexp)
        ensures
            r@ == BexpImpl::Or(Box::new(left@), Box::new(right@)),
    {
        Bexp { bexp: BexpImpl::Or(Box::new(left.bexp), Box::new(right.bexp)) }
    }
}

impl Evaluate<Truth> for Bexp {
    open spec fn eval_spec(&self, s: Bindings) -> Result<bool, Fault> {
        beval(self@, s)
    }

    fn evaluate(&self, state: &State) -> (r: Result<Truth, EvalError>) {
        eval_bexp(&self.bexp, state)
    }
}

/// A command.
#[derive(Debug, PartialEq)]
pub enum Com {
    /// The command that does nothing.
    Skip,
    /// Assignment `X := a`.
    Subst(VarName, Aexp),
    /// Sequencing `c0 ; c1`.
    Sequence(Box<Com>, Box<Com>),
    /// Conditional `if b then c0 else c1`.
    If(Bexp, Box<Com>, Box<Com>),
    /// Loop `while b do c`.
    While(Bexp, Box<Com>),
}

/// An abstract syntax tree of the language: a whole program is one command.
#[derive(Debug, PartialEq)]
pub struct AST(Com);

/// The outcome of running the command `c` from the bindings `s`, when at
/// most `fuel` big-step rule applications are allowed: `None` when `fuel`
/// runs out first, and otherwise the final bindings or the fault that
/// stopped the run.
///
/// Every terminating run is `Some` for all large enough `fuel`, and a run
/// that diverges is `None` for every `fuel`, so `Some` outcomes capture the
/// big-step semantics exactly; see [`big_step`].
pub open spec fn ceval(c: Com, s: Bindings, fuel: nat) -> Option<Result<Bindings, Fault>>
    decreases fuel,
{
    if fuel == 0 {
        None
    } else {
        let f = (fuel - 1) as nat;
        match c {
            Com::Skip => Some(Ok(s)),
            Com::Subst(x, a) => match aeval(a, s) {
                Ok(v) => Some(Ok(s.insert(x@, v))),
                Err(e) => Some(Err(e)),
            },
            Com::Sequence(c0, c1) => match ceval(*c0, s, f) {
                None => None,
                Some(Err(e)) => Some(Err(e)),
                Some(Ok(s1)) => ceval(*c1, s1, f),
            },
            Com::If(b, c0, c1) => match beval(b@, s) {
                Err(e) => Some(Err(e)),
                Ok(t) => if t {
                    ceval(*c0, s, f)
                } else {
                    ceval(*c1, s, f)
                },
            },
            Com::While(b, body) => match beval(b@, s) {
                Err(e) => Some(Err(e)),
                Ok(t) => if !t {
                    Some(Ok(s))
                } else {
                    match ceval(*body, s, f) {
                        None => None,
                        Some(Err(e)) => Some(Err(e)),
                        Some(Ok(s1)) => ceval(c, s1, f),
                    }
                },
            },
        }
    }
}

/// Holds when running `c` from `s` reaches a result in finitely many steps.
pub open spec fn halts(c: Com, s: Bindings) -> bool {
    exists|fuel: nat| ceval(c, s, fuel) is Some
}

/// The big-step semantics: running `c` from `s` ends in `out`.
pub open spec fn big_step(c: Com, s: Bindings, out: Result<Bindings, Fault>) -> bool {
    exists|fuel: nat| ceval(c, s, fuel) == Some(out)
}

/// Runs `c` from `state` by a trampoline: the current command and current
/// state are rebound in place, so the stack grows only when a `Sequence` left
/// part or a `While` body is entered, never per loop iteration.
fn run(c: &Com, state: State, Ghost(fuel): Ghost<nat>) -> (r: Result<State, EvalError>)
    requires
        ceval(*c, state@, fuel) is Some,
    ensures
        ceval(*c, state@, fuel) == Some(crate::outcome_of(r)),
    decreases fuel,
{
    let mut cmd: &Com = c;
    let mut st: State = state;
    let ghost mut f: nat = fuel;
    loop
        invariant
            f <= fuel,
            ceval(*cmd, st@, f) is Some,
            ceval(*cmd, st@, f) == ceval(*c, state@, fuel),
        decreases f,
    {
        match cmd {
            Com::Skip => {
                return Ok(st);
            },
            Com::Subst(x, a) => {
                match a.evaluate(&st) {
                    Ok(v) => {
                        return Ok(st.update_variable(x, v));
                    },
                    Err(e) => {
                        return Err(e);
                    },
                }
            },
            Com::Sequence(c0, c1) => {
                proof {
                    f = (f - 1) as nat;
                }
                match run(c0, st, Ghost(f)) {
                    Ok(s1) => {
                        st = s1;
                        cmd = c1;
                    },
                    Err(e) => {
                        return Err(e);
                    },
                }
            },
            Com::If(b, c0, c1) => {
                match b.evaluate(&st) {
                    Ok(t) => {
                        proof {
                            f = (f - 1) as nat;
                        }
                        if t.holds() {
                            cmd = c0;
                        } else {
                            cmd = c1;
                        }
                    },
                    Err(e) => {
                        return Err(e);
                    },
                }
            },
            Com::While(b, body) => {
                match b.evaluate(&st) {
                    Ok(t) => {
                        if t.holds() {
                            proof {
                                f = (f - 1) as nat;
                            }
                            match run(body, st, Ghost(f)) {
                                Ok(s1) => {
                                    st = s1;
                                },
                                Err(e) => {
                                    return Err(e);
                                },
                            }
                        } else {
                            return Ok(st);
                        }
                    },
                    Err(e) => {
                        return Err(e);
                    },
                }
            },
        }
    }
}

/// More fuel never changes a settled outcome: once `ceval` answers `Some`,
/// every larger fuel gives the same answer.
pub proof fn lemma_ceval_monotonic(c: Com, s: Bindings, f1: nat, f2: nat)
    requires
        f1 <= f2,
        ceval(c, s, f1) is Some,
    ensures
        ceval(c, s, f2) == ceval(c, s, f1),
    decreases f1,
{
    let g1 = (f1 - 1) as nat;
    let g2 = (f2 - 1) as nat;
    match c {
        Com::Skip => {},
        Com::Subst(x, a) => {},
        Com::Sequence(c0, c1) => {
            match ceval(*c0, s, g1) {
                None => {},
                Some(Err(e)) => {
                    lemma_ceval_monotonic(*c0, s, g1, g2);
                },
                Some(Ok(s1)) => {
                    lemma_ceval_monotonic(*c0, s, g1, g2);
                    lemma_ceval_monotonic(*c1, s1, g1, g2);
                },
            }
        },
        Com::If(b, c0, c1) => {
            match beval(b@, s) {
                Err(e) => {},
                Ok(t) => {
                    if t {
                        lemma_ceval_monotonic(*c0, s, g1, g2);
                    } else {
                        lemma_ceval_monotonic(*c1, s, g1, g2);
                    }
                },
            }
        },
        Com::While(b, body) => {
            match beval(b@, s) {
                Err(e) => {},
                Ok(t) => {
                    if t {
                        match ceval(*body, s, g1) {
                            None => {},
                            Some(Err(e)) => {
                                lemma_ceval_monotonic(*body, s, g1, g2);
                            },
                            Some(Ok(s1)) => {
                                lemma_ceval_monotonic(*body, s, g1, g2);
                                lemma_ceval_monotonic(c, s1, g1, g2);
                            },
                        }
                    }
                },
            }
        },
    }
}

/// A command run from given bindings can end in at most one outcome.
pub proof fn lemma_big_step_deterministic(
    c: Com,
    s: Bindings,
    out1: Result<Bindings, Fault>,
    out2: Result<Bindings, Fault>,
)
    requires
        big_step(c, s, out1),
        big_step(c, s, out2),
    ensures
        out1 == out2,
{
    let f1 = choose|f: nat| ceval(c, s, f) == Some(out1);
    let f2 = choose|f: nat| ceval(c, s, f) == Some(out2);
    if f1 <= f2 {
        lemma_ceval_monotonic(c, s, f1, f2);
    } else {
        lemma_ceval_monotonic(c, s, f2, f1);
    }
}

/// Adding two literals evaluates, under any bindings, to their wrapping
/// sum; when the exact sum fits in 32 bits it is the exact sum.
pub proof fn lemma_add_of_literals(a: Number, b: Number, s: Bindings)
    ensures
        aeval(Aexp::Add(Box::new(Aexp::N(a)), Box::new(Aexp::N(b))), s) == Ok::<i32, Fault>(
            i32_specs::wrapping_add(a@, b@),
        ),
        i32::MIN <= a@ + b@ <= i32::MAX ==> aeval(
            Aexp::Add(Box::new(Aexp::N(a)), Box::new(Aexp::N(b))),
            s,
        ) == Ok::<i32, Fault>((a@ + b@) as i32),
{
    assert(aeval(Aexp::N(a), s) == Ok::<i32, Fault>(a@));
    assert(aeval(Aexp::N(b), s) == Ok::<i32, Fault>(b@));
    assert(aeval(Aexp::Add(Box::new(Aexp::N(a)), Box::new(Aexp::N(b))), s) == Ok::<i32, Fault>(
        i32_specs::wrapping_add(a@, b@),
    ));
}

/// Subtracting two literals evaluates, under any bindings, to their
/// wrapping difference; when the exact difference fits in 32 bits it is
/// the exact difference.
pub proof fn lemma_sub_of_literals(a: Number, b: Number, s: Bindings)
    ensures
        aeval(Aexp::Sub(Box::new(Aexp::N(a)), Box::new(Aexp::N(b))), s) == Ok::<i32, Fault>(
            i32_specs::wrapping_sub(a@, b@),
        ),
        i32::MIN <= a@ - b@ <= i32::MAX ==> aeval(
            Aexp::Sub(Box::new(Aexp::N(a)), Box::new(Aexp::N(b))),
            s,
        ) == Ok::<i32, Fault>((a@ - b@) as i32),
{
    assert(aeval(Aexp::N(a), s) == Ok::<i32, Fault>(a@));
    assert(aeval(Aexp::N(b), s) == Ok::<i32, Fault>(b@));
    assert(aeval(Aexp::Sub(Box::new(Aexp::N(a)), Box::new(Aexp::N(b))), s) == Ok::<i32, Fault>(
        i32_specs::wrapping_sub(a@, b@),
    ));
}

/// Multiplying two literals evaluates, under any bindings, to their
/// wrapping product; when the exact product fits in 32 bits it is the
/// exact product.
pub proof fn lemma_mul_of_literals(a: Number, b: Number, s: Bindings)
    ensures
        aeval(Aexp::Mul(Box::new(Aexp::N(a)), Box::new(Aexp::N(b))), s) == Ok::<i32, Fault>(
            i32_specs::wrapping_mul(a@, b@),
        ),
        i32::MIN <= a@ * b@ <= i32::MAX ==> aeval(
            Aexp::Mul(Box::new(Aexp::N(a)), Box::new(Aexp::N(b))),
            s,
        ) == Ok::<i32, Fault>((a@ * b@) as i32),
{
    assert(aeval(Aexp::N(a), s) == Ok::<i32, Fault>(a@));
    assert(aeval(Aexp::N(b), s) == Ok::<i32, Fault>(b@));
    assert(aeval(Aexp::Mul(Box::new(Aexp::N(a)), Box::new(Aexp::N(b))), s) == Ok::<i32, Fault>(
        i32_specs::wrapping_mul(a@, b@),
    ));
    assert(i32::MIN <= a@ * b@ <= i32::MAX ==> i32_specs::wrapping_mul(a@, b@) == (a@ * b@) as i32)
        by {
        if i32::MIN <= a@ * b@ <= i32::MAX {
            let p = a@ * b@;
            let r = 0x1_0000_0000int;
            if p >= 0 {
                vstd::arithmetic::div_mod::lemma_small_mod(p as nat, r as nat);
            } else {
                vstd::arithmetic::div_mod::lemma_mod_add_multiples_vanish(p, r);
                vstd::arithmetic::div_mod::lemma_small_mod((p + r) as nat, r as nat);
            }
        }
    }
}

/// Reading a bound variable yields its value; reading an unbound variable
/// faults with that variable's name.
pub proof fn lemma_variable_lookup(x: VarName, s: Bindings)
    ensures
        s.contains_key(x@) ==> aeval(Aexp::Loc(x), s) == Ok::<i32, Fault>(s[x@]),
        !s.contains_key(x@) ==> aeval(Aexp::Loc(x), s) == Err::<i32, Fault>(Fault::Undefined(x@)),
{
}

/// A conjunction with a false left operand is false, whatever the right
/// operand is: the right operand is never evaluated, so even the poison
/// operand contributes nothing.
pub proof fn lemma_and_short_circuits(l: Box<BexpImpl>, r: Box<BexpImpl>, s: Bindings)
    requires
        beval(*l, s) == Ok::<bool, Fault>(false),
    ensures
        beval(BexpImpl::And(l, r), s) == Ok::<bool, Fault>(false),
{
}

/// A disjunction with a true left operand is true, whatever the right
/// operand is: the right operand is never evaluated, so even the poison
/// operand contributes nothing.
pub proof fn lemma_or_short_circuits(l: Box<BexpImpl>, r: Box<BexpImpl>, s: Bindings)
    requires
        beval(*l, s) == Ok::<bool, Fault>(true),
    ensures
        beval(BexpImpl::Or(l, r), s) == Ok::<bool, Fault>(true),
{
}

/// `skip` ends exactly in the bindings it started from. Running it on a
/// state a finished program left behind therefore changes nothing.
pub proof fn lemma_skip_is_identity(s: Bindings, out: Result<Bindings, Fault>)
    ensures
        big_step(Com::Skip, s, out) <==> out == Ok::<Bindings, Fault>(s),
{
    if big_step(Com::Skip, s, out) {
        let f = choose|f: nat| ceval(Com::Skip, s, f) == Some(out);
    }
    if out == Ok::<Bindings, Fault>(s) {
        assert(ceval(Com::Skip, s, 1) == Some(out));
    }
}

/// An assignment binds its variable to the value of its expression and
/// leaves every other binding unchanged; when the expression faults, the
/// assignment ends in that fault.
pub proof fn lemma_assignment_updates(
    x: VarName,
    a: Aexp,
    s: Bindings,
    out: Result<Bindings, Fault>,
)
    ensures
        big_step(Com::Subst(x, a), s, out) <==> out == (match aeval(a, s) {
            Ok(v) => Ok::<Bindings, Fault>(s.insert(x@, v)),
            Err(e) => Err::<Bindings, Fault>(e),
        }),
{
    let target = (match aeval(a, s) {
        Ok(v) => Ok::<Bindings, Fault>(s.insert(x@, v)),
        Err(e) => Err::<Bindings, Fault>(e),
    });
    if big_step(Com::Subst(x, a), s, out) {
        let f = choose|f: nat| ceval(Com::Subst(x, a), s, f) == Some(out);
    }
    if out == target {
        assert(ceval(Com::Subst(x, a), s, 1) == Some(out));
    }
}

/// A loop whose condition is false under the given bindings ends at once,
/// with those bindings unchanged.
pub proof fn lemma_while_false_is_identity(
    b: Bexp,
    body: Box<Com>,
    s: Bindings,
    out: Result<Bindings, Fault>,
)
    requires
        beval(b@, s) == Ok::<bool, Fault>(false),
    ensures
        big_step(Com::While(b, body), s, out) <==> out == Ok::<Bindings, Fault>(s),
{
    if big_step(Com::While(b, body), s, out) {
        let f = choose|f: nat| ceval(Com::While(b, body), s, f) == Some(out);
    }
    if out == Ok::<Bindings, Fault>(s) {
        assert(ceval(Com::While(b, body), s, 1) == Some(out));
    }
}

impl crate::Execute for Com {
    open spec fn halts_from(&self, s: Bindings) -> bool {
        halts(*self, s)
    }

    open spec fn runs_to(&self, s: Bindings, out: Result<Bindings, Fault>) -> bool {
        big_step(*self, s, out)
    }

    fn execute(&self, state: State) -> (r: Result<State, EvalError>) {
        let ghost fuel: nat = choose|fuel: nat| ceval(*self, state@, fuel) is Some;
        run(self, state, Ghost(fuel))
    }
}

} // verus!
