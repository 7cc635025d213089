//! Transitions of the recognizer's automaton, as far as they name their
//! kind and carry a set of symbol codes as their label.

use crate::interval_set::IntervalSet;
use vstd::prelude::*;
use vstd::string::StringExecFns;

verus! {

/// The kinds of transition, as a serialized automaton numbers them.
#[derive(Debug)]
pub enum SerializationType {
    EPSILON,
    RANGE,
    RULE,
    /// e.g., {isType(input.LT(1))}?
    PREDICATE,
    ATOM,
    ACTION,
    /// ~(A|B) or ~atom, wildcard, which convert to next 2
    SET,
    NOTSET,
    WILDCARD,
    PRECEDENCE,
}

impl SerializationType {
    /// The number of the kind, from 1 for `EPSILON` to 10 for `PRECEDENCE`.
    pub open spec fn spec_number(self) -> int {
        match self {
            SerializationType::EPSILON => 1,
            SerializationType::RANGE => 2,
            SerializationType::RULE => 3,
            SerializationType::PREDICATE => 4,
            SerializationType::ATOM => 5,
            SerializationType::ACTION => 6,
            SerializationType::SET => 7,
            SerializationType::NOTSET => 8,
            SerializationType::WILDCARD => 9,
            SerializationType::PRECEDENCE => 10,
        }
    }

    /// The number under which a serialized automaton names the kind.
    pub fn number(&self) -> (r: usize)
        ensures
            r == self.spec_number(),
    {
        match self {
            SerializationType::EPSILON => 1,
            SerializationType::RANGE => 2,
            SerializationType::RULE => 3,
            SerializationType::PREDICATE => 4,
            SerializationType::ATOM => 5,
            SerializationType::ACTION => 6,
            SerializationType::SET => 7,
            SerializationType::NOTSET => 8,
            SerializationType::WILDCARD => 9,
            SerializationType::PRECEDENCE => 10,
        }
    }
}

/// A state of the automaton.
pub trait ATNState {

}

/// A transition of the automaton.
pub trait Transition: Eq + Sized {
    fn new(target: &dyn ATNState) -> Self;

    fn get_serialization_type(&self) -> SerializationType;

    /// Whether the transition consumes no symbol. A transition does, unless
    /// its kind says otherwise.
    fn is_epsilon(&self) -> (r: bool)
        default_ensures
            !r,
    {
        false
    }

    /// The symbol codes on which the transition is taken.
    fn label(&self) -> IntervalSet;

    fn matches(&self, symbol: usize, min_vocab_symbol: usize, max_vocab_symbol: usize) -> bool;

    /// The transition as text. A kind that has nothing of its own to show
    /// is written `(Transition )`.
    fn to_string(&self) -> (r: String)
        default_ensures
            r@ == "(Transition )"@,
    {
        String::from_str("(Transition )")
    }
}

/// A transition that runs an action of the grammar.
pub struct ActionTransition {
    rule_index: usize,
    action_index: usize,
    is_ctx_dependent: bool,
}

} // verus!
