use vstd::prelude::*;

verus! {

/// Why a source text is not a dice expression.
#[derive(Clone, Copy, Debug, PartialEq, Eq, Structural)]
pub enum ParseError {
    /// A token that has to be an integer is not one: it is empty, holds a
    /// character that is no digit, or does not fit in 64 bits.
    MalformedNumber,
    /// The character at an additive split point is neither `+` nor `-`.
    InternalConsistency,
}

/// Why a stack program has no value.
#[derive(Clone, Copy, Debug, PartialEq, Eq, Structural)]
pub enum EvalError {
    /// An operator found fewer than two values on the stack.
    StackUnderflow,
    /// The program ended with no value on the stack, or with more than one.
    StackImbalance,
    /// A dice term asks for at least one roll of a die with no sides.
    InvalidDice,
    /// A dice term asks for a roll and the prepared rolls are used up.
    OutOfRolls,
    /// A prepared roll is not a face of the die it is rolled for.
    RollOutOfRange,
}

impl EvalError {
    /// Whether the error lies with the prepared rolls, not with the program.
    pub open spec fn blames_rolls(self) -> bool {
        self == EvalError::OutOfRolls || self == EvalError::RollOutOfRange
    }
}

} // verus!
