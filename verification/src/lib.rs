//! An interpreter for IMP, a small imperative teaching language with
//! integer arithmetic, boolean conditions and structured control flow.
//!
//! The crate is organised around three pieces: the value and state types in
//! this file, the abstract syntax trees and their big-step semantics in
//! [`imp`], and the two traits [`Evaluate`] and [`Execute`] that tie the
//! executable evaluators to that semantics.
//!
//! Arithmetic follows two's-complement wrapping on 32-bit integers: `+`,
//! `-` and `*` wrap around on overflow, and the specifications say so
//! explicitly through `vstd`'s wrapping spec functions.

use vstd::prelude::*;
use vstd::string::StringExecFns;
use vstd::wrapping::i32_specs;

pub mod imp;

verus! {

/// The bindings a [`State`] stands for: a finite map from variable names
/// (as character sequences) to 32-bit integer values.
pub type Bindings = Map<Seq<char>, i32>;

/// A 32-bit signed integer value of the interpreted language.
///
/// Arithmetic wraps around on overflow, as the contracts of [`Number::add`],
/// [`Number::sub`] and [`Number::mul`] state.
#[derive(Clone, Copy, Debug, PartialEq, PartialOrd)]
pub struct Number(i32);

impl View for Number {
    type V = i32;

    closed spec fn view(&self) -> i32 {
        self.0
    }
}

impl Number {
    /// Wrapping addition.
    pub fn add(self, rhs: Number) -> (r: Number)
        ensures
            r@ == i32_specs::wrapping_add(self@, rhs@),
    {
        Number(self.0.wrapping_add(rhs.0))
    }

    /// Wrapping subtraction.
    pub fn sub(self, rhs: Number) -> (r: Number)
        ensures
            r@ == i32_specs::wrapping_sub(self@, rhs@),
    {
        Number(self.0.wrapping_sub(rhs.0))
    }

    /// Wrapping multiplication.
    pub fn mul(self, rhs: Number) -> (r: Number)
        ensures
            r@ == i32_specs::wrapping_mul(self@, rhs@),
    {
        Number(self.0.wrapping_mul(rhs.0))
    }

    /// Comparison `self <= rhs` on the underlying integers.
    pub fn le(self, rhs: Number) -> (r: bool)
        ensures
            r == (self@ <= rhs@),
    {
        self.0 <= rhs.0
    }

    /// Equality on the underlying integers.
    pub fn equals(self, rhs: Number) -> (r: bool)
        ensures
            r == (self@ == rhs@),
    {
        self.0 == rhs.0
    }
}

impl From<i32> for Number {
    fn from(n: i32) -> (r: Number)
        ensures
            r@ == n,
    {
        Number(n)
    }
}

impl vstd::std_specs::convert::FromSpecImpl<i32> for Number {
    closed spec fn obeys_from_spec() -> bool {
        true
    }

    closed spec fn from_spec(n: i32) -> Number {
        Number(n)
    }
}

/// A boolean value of the interpreted language.
#[derive(Clone, Copy, Debug, PartialEq)]
pub struct Truth(bool);

impl View for Truth {
    type V = bool;

    closed spec fn view(&self) -> bool {
        self.0
    }
}

impl Truth {
    /// Logical negation.
    pub fn not(self) -> (r: Truth)
        ensures
            r@ == !self@,
    {
        Truth(!self.0)
    }

    /// The underlying boolean.
    pub fn holds(self) -> (r: bool)
        ensures
            r == self@,
    {
        self.0
    }
}

impl From<bool> for Truth {
    fn from(b: bool) -> (r: Truth)
        ensures
            r@ == b,
    {
        Truth(b)
    }
}

impl vstd::std_specs::convert::FromSpecImpl<bool> for Truth {
    closed spec fn obeys_from_spec() -> bool {
        true
    }

    closed spec fn from_spec(b: bool) -> Truth {
        Truth(b)
    }
}

/// A program variable, identified by its textual name.
///
/// Two variables are the same exactly when their names are the same
/// character sequence.
#[derive(Debug)]
pub struct VarName(String);

impl View for VarName {
    type V = Seq<char>;

    closed spec fn view(&self) -> Seq<char> {
        self.0@
    }
}

impl VarName {
    /// The variable's name, for diagnostics.
    pub fn text(&self) -> (r: &str)
        ensures
            r@ == self@,
    {
        self.0.as_str()
    }
}

impl Clone for VarName {
    fn clone(&self) -> (r: VarName)
        ensures
            r == *self,
    {
        VarName(self.0.clone())
    }
}

impl PartialEq for VarName {
    fn eq(&self, other: &VarName) -> (r: bool) {
        self.0 == other.0
    }
}

impl vstd::std_specs::cmp::PartialEqSpecImpl for VarName {
    open spec fn obeys_eq_spec() -> bool {
        true
    }

    open spec fn eq_spec(&self, other: &VarName) -> bool {
        self@ == other@
    }
}

impl From<&str> for VarName {
    fn from(name: &str) -> (r: VarName)
        ensures
            r@ == name@,
    {
        VarName(String::from_str(name))
    }
}

impl vstd::std_specs::convert::FromSpecImpl<&str> for VarName {
    closed spec fn obeys_from_spec() -> bool {
        false
    }

    closed spec fn from_spec(name: &str) -> VarName {
        choose|v: VarName| v@ == name@
    }
}

impl From<String> for VarName {
    fn from(name: String) -> (r: VarName)
        ensures
            r@ == name@,
    {
        VarName(name)
    }
}

impl vstd::std_specs::convert::FromSpecImpl<String> for VarName {
    closed spec fn obeys_from_spec() -> bool {
        true
    }

    closed spec fn from_spec(name: String) -> VarName {
        VarName(name)
    }
}

/// Why an evaluation or execution stopped without a result, at the
/// specification level.
pub enum Fault {
    /// An arithmetic expression read a variable that the state does not bind.
    Undefined(Seq<char>),
    /// The poison operand reserved for short-circuit tests was evaluated.
    Poisoned,
}

/// Why an evaluation or execution stopped without a result.
#[derive(Debug, PartialEq)]
pub enum EvalError {
    /// An arithmetic expression read a variable that the state does not
    /// bind. Carries the offending variable's name.
    UndefinedVariable(VarName),
    /// The poison operand reserved for short-circuit tests was evaluated.
    Poisoned,
}

impl View for EvalError {
    type V = Fault;

    open spec fn view(&self) -> Fault {
        match self {
            EvalError::UndefinedVariable(x) => Fault::Undefined(x@),
            EvalError::Poisoned => Fault::Poisoned,
        }
    }
}

/// The specification-level outcome that an executable result stands for.
pub open spec fn outcome_of<T: View>(r: Result<T, EvalError>) -> Result<T::V, Fault> {
    match r {
        Ok(v) => Ok(v@),
        Err(e) => Err(e@),
    }
}

/// The bindings that a sequence of state entries stands for: entries are
/// read left to right, later entries shadowing earlier ones.
spec fn map_of(entries: Seq<(VarName, Number)>) -> Bindings
    decreases entries.len(),
{
    if entries.len() == 0 {
        Map::empty()
    } else {
        map_of(entries.drop_last()).insert(entries.last().0@, entries.last().1@)
    }
}

/// The bindings described by a list of name/value pairs, later pairs
/// overwriting earlier ones with the same name.
pub open spec fn bindings_of(defs: Seq<(&str, Number)>) -> Bindings
    decreases defs.len(),
{
    if defs.len() == 0 {
        Map::empty()
    } else {
        bindings_of(defs.drop_last()).insert(defs.last().0@, defs.last().1@)
    }
}

/// A program state: a finite mapping from variables to integer values.
///
/// Its abstract value is the [`Bindings`] map reached through `@`; a
/// variable absent from that map is undefined.
#[derive(Debug, PartialEq)]
pub struct State(Vec<(VarName, Number)>);

impl View for State {
    type V = Bindings;

    closed spec fn view(&self) -> Bindings {
        map_of(self.0@)
    }
}

/// Removing an entry leaves the bindings unchanged at every other name.
proof fn lemma_map_of_remove(s: Seq<(VarName, Number)>, i: int)
    requires
        0 <= i < s.len(),
    ensures
        forall|k: Seq<char>|
            k != s[i].0@ ==> #[trigger] map_of(s.remove(i)).contains_key(k) == map_of(
                s,
            ).contains_key(k),
        forall|k: Seq<char>|
            k != s[i].0@ && map_of(s).contains_key(k) ==> #[trigger] map_of(s.remove(i))[k]
                == map_of(s)[k],
    decreases s.len(),
{
    if i == s.len() - 1 {
        assert(s.remove(i) =~= s.drop_last());
        assert(map_of(s) == map_of(s.drop_last()).insert(s.last().0@, s.last().1@));
    } else {
        let sdl = s.drop_last();
        assert(s.remove(i).drop_last() =~= sdl.remove(i));
        assert(s.remove(i).last() == s.last());
        lemma_map_of_remove(sdl, i);
        assert(sdl[i] == s[i]);
        assert(map_of(s.remove(i)) == map_of(sdl.remove(i)).insert(s.last().0@, s.last().1@));
        assert(map_of(s) == map_of(sdl).insert(s.last().0@, s.last().1@));
        assert forall|k: Seq<char>|
            k != s[i].0@ implies #[trigger] map_of(s.remove(i)).contains_key(k) == map_of(
            s,
        ).contains_key(k) by {
            if k != s.last().0@ {
                assert(map_of(sdl.remove(i)).contains_key(k) == map_of(sdl).contains_key(k));
            }
        }
        assert forall|k: Seq<char>|
            k != s[i].0@ && map_of(s).contains_key(k) implies #[trigger] map_of(s.remove(i))[k]
            == map_of(s)[k] by {
            if k != s.last().0@ {
                assert(map_of(sdl.remove(i)).contains_key(k) == map_of(sdl).contains_key(k));
                if map_of(sdl).contains_key(k) {
                    assert(map_of(sdl.remove(i))[k] == map_of(sdl)[k]);
                }
            }
        }
    }
}

impl State {
    /// The empty state: no variable is bound.
    pub fn init() -> (r: State)
        ensures
            r@ == Map::<Seq<char>, i32>::empty(),
    {
        State(Vec::new())
    }

    /// The state binding exactly the given pairs, later pairs overwriting
    /// earlier ones with the same name.
    pub fn from(defs: &[(&str, Number)]) -> (r: State)
        ensures
            r@ == bindings_of(defs@),
    {
        let mut st = State::init();
        let mut i: usize = 0;
        while i < defs.len()
            invariant
                i <= defs@.len(),
                st@ == bindings_of(defs@.take(i as int)),
            decreases defs@.len() - i,
        {
            st = st.update_variable(&VarName::from(defs[i].0), defs[i].1);
            i = i + 1;
            proof {
                assert(defs@.take(i as int).drop_last() =~= defs@.take(i - 1));
                assert(defs@.take(i as int).last() == defs@[i - 1]);
            }
        }
        proof {
            assert(defs@.take(defs@.len() as int) =~= defs@);
        }
        st
    }

    /// The value bound to `var`, or `None` when `var` is unbound.
    pub fn get(&self, var: &VarName) -> (r: Option<Number>)
        ensures
            match r {
                Some(n) => self@.contains_key(var@) && n@ == self@[var@],
                None => !self@.contains_key(var@),
            },
    {
        let mut i: usize = self.0.len();
        proof {
            assert(self.0@.take(i as int) =~= self.0@);
        }
        while i > 0
            invariant
                i <= self.0@.len(),
                map_of(self.0@).contains_key(var@) == map_of(self.0@.take(i as int)).contains_key(
                    var@,
                ),
                map_of(self.0@).contains_key(var@) ==> map_of(self.0@.take(i as int))[var@]
                    == map_of(self.0@)[var@],
            decreases i,
        {
            i = i - 1;
            proof {
                assert(self.0@.take(i + 1).drop_last() =~= self.0@.take(i as int));
                assert(self.0@.take(i + 1).last() == self.0@[i as int]);
            }
            if self.0[i].0 == *var {
                return Some(self.0[i].1);
            }
        }
        proof {
            assert(self.0@.take(0) =~= Seq::<(VarName, Number)>::empty());
        }
        None
    }

    /// The state that binds `var` to `value` and otherwise agrees with
    /// `self`.
    pub fn update_variable(self, var: &VarName, value: Number) -> (r: State)
        ensures
            r@ == self@.insert(var@, value@),
    {
        let mut entries = self.0;
        let ghost orig = entries@;
        let mut i: usize = entries.len();
        while i > 0
            invariant
                i <= entries@.len(),
                entries@ == orig,
                self@ == map_of(orig),
                forall|j: int| i <= j < entries@.len() ==> entries@[j].0@ != var@,
            decreases i,
        {
            i = i - 1;
            if entries[i].0 == *var {
                proof {
                    lemma_map_of_remove(orig, i as int);
                }
                let _replaced = entries.remove(i);
                entries.push((var.clone(), value));
                proof {
                    let removed = orig.remove(i as int);
                    assert(entries@.drop_last() =~= removed);
                    assert(entries@.last().0@ == var@ && entries@.last().1@ == value@);
                    assert(map_of(entries@) == map_of(removed).insert(var@, value@));
                    assert(orig[i as int].0@ == var@);
                    assert forall|k: Seq<char>| k != var@ implies #[trigger] map_of(
                        removed,
                    ).contains_key(k) == map_of(orig).contains_key(k) && (map_of(
                        orig,
                    ).contains_key(k) ==> map_of(removed)[k] == map_of(orig)[k]) by {
                        assert(map_of(orig.remove(i as int)).contains_key(k) == map_of(
                            orig,
                        ).contains_key(k));
                    }
                    assert(map_of(entries@) =~= map_of(orig).insert(var@, value@));
                }
                return State(entries);
            }
        }
        entries.push((var.clone(), value));
        proof {
            assert(entries@.drop_last() =~= orig);
            assert(map_of(entries@) =~= map_of(orig).insert(var@, value@));
        }
        State(entries)
    }
}

impl Clone for State {
    fn clone(&self) -> (r: State)
        ensures
            r@ == self@,
    {
        let mut entries: Vec<(VarName, Number)> = Vec::new();
        let mut i: usize = 0;
        while i < self.0.len()
            invariant
                i <= self.0@.len(),
                entries@ =~= self.0@.take(i as int),
            decreases self.0@.len() - i,
        {
            entries.push((self.0[i].0.clone(), self.0[i].1));
            i = i + 1;
        }
        proof {
            assert(self.0@.take(self.0@.len() as int) =~= self.0@);
        }
        State(entries)
    }
}

/// Evaluation of an expression against a state it never changes.
///
/// `eval_spec` is the mathematical meaning of the expression under given
/// bindings; `evaluate` computes exactly that meaning.
pub trait Evaluate<T: View> {
    /// The result that evaluating `self` under the bindings `s` must yield.
    spec fn eval_spec(&self, s: Bindings) -> Result<T::V, Fault>;

    /// Evaluates `self` under `state`.
    fn evaluate(&self, state: &State) -> (r: Result<T, EvalError>)
        ensures
            outcome_of(r) == self.eval_spec(state@),
    ;
}

/// Execution of a command, transforming a state.
///
/// Whether a command halts cannot be decided in general, so `execute`
/// asks its caller for the fact that it does (`halts_from`) and promises
/// in return that the state it yields is the one the big-step semantics
/// prescribes (`runs_to`).
pub trait Execute: Sized {
    /// Holds when running `self` from the bindings `s` reaches a result
    /// after finitely many steps.
    spec fn halts_from(&self, s: Bindings) -> bool;

    /// Holds when running `self` from the bindings `s` can end in `out`.
    spec fn runs_to(&self, s: Bindings, out: Result<Bindings, Fault>) -> bool;

    /// Runs `self` to completion from `state`.
    fn execute(&self, state: State) -> (r: Result<State, EvalError>)
        requires
            self.halts_from(state@),
        ensures
            self.runs_to(state@, outcome_of(r)),
    ;
}

} // verus!
