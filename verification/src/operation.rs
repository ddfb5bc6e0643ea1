use crate::arith::{clamp, saturating_add, saturating_mul, saturating_sub};
use crate::error::{EvalError, ParseError};
use crate::text::{
    characters, find, first_index, lemma_first_index, lemma_trimmed_len, trim, trimmed,
};
use crate::value::{parsed_value, Value};
use rand::rngs::ThreadRng;
use vstd::prelude::*;
use vstd::slice::slice_subrange;

verus! {

/// One step of a stack program.
#[derive(Clone, Copy, Debug, PartialEq, Eq, Structural)]
pub enum Operation {
    /// Puts a value on the stack.
    Push(Value),
    /// Replaces the two topmost values by their sum.
    Add,
    /// Replaces the two topmost values by their difference, the topmost
    /// one taken from the one below it.
    Subtract,
    /// Replaces the two topmost values by their product.
    Multiply,
}

/// The program of a binary operator: that of its left operand, that of
/// its right operand, then the operator. Where an operand is no
/// expression, its error is the result, that of the left one first.
pub open spec fn joined(
    left: Result<Seq<Operation>, ParseError>,
    right: Result<Seq<Operation>, ParseError>,
    operator: Operation,
) -> Result<Seq<Operation>, ParseError> {
    match left {
        Err(e) => Err(e),
        Ok(l) => match right {
            Err(e) => Err(e),
            Ok(r) => Ok((l + r).push(operator)),
        },
    }
}

/// The stack program that the expression `s` writes. Whitespace around
/// `s` is dropped. The first `*` splits what is left into two operands;
/// where there is none, the first `+` or `-` does; where there is none
/// either, `s` is a single value.
pub open spec fn parsed_operations(s: Seq<char>) -> Result<Seq<Operation>, ParseError>
    decreases s.len(),
{
    let source = trimmed(s);
    match first_index(source, '*', '*') {
        Some(i) => {
            proof {
                lemma_trimmed_len(s);
                lemma_first_index(source, '*', '*');
            }
            joined(
                parsed_operations(source.take(i)),
                parsed_operations(source.skip(i + 1)),
                Operation::Multiply,
            )
        },
        None => match first_index(source, '+', '-') {
            Some(i) => {
                proof {
                    lemma_trimmed_len(s);
                    lemma_first_index(source, '+', '-');
                }
                joined(
                    parsed_operations(source.take(i)),
                    parsed_operations(source.skip(i + 1)),
                    if source[i] == '+' {
                        Operation::Add
                    } else {
                        Operation::Subtract
                    },
                )
            },
            None => match parsed_value(source) {
                Ok(value) => Ok(seq![Operation::Push(value)]),
                Err(e) => Err(e),
            },
        },
    }
}

impl Operation {
    /// What an operator makes of its two operands: their sum, difference
    /// or product, stopped at the bounds of `i64`. A push has no operands,
    /// and passes the right one on.
    pub open spec fn combined(self, left: i64, right: i64) -> i64 {
        match self {
            Operation::Add => clamp(left + right),
            Operation::Subtract => clamp(left - right),
            Operation::Multiply => clamp(left * right),
            Operation::Push(_) => right,
        }
    }

    /// What an operator makes of a stack, whose top is its last value. It
    /// needs two values there: the topmost is its right operand, the one
    /// below it the left one, and the result takes their place.
    pub open spec fn operated(self, stack: Seq<i64>) -> Result<Seq<i64>, EvalError> {
        if stack.len() < 2 {
            Err(EvalError::StackUnderflow)
        } else {
            let left = stack[stack.len() - 2];
            let right = stack[stack.len() - 1];
            Ok(stack.take(stack.len() - 2).push(self.combined(left, right)))
        }
    }

    /// What the operation makes of a stack when the dice show `rolls`: the
    /// new stack, and the rolls that are left. A push takes its rolls from
    /// the front and puts its value on top. An operator takes no roll.
    pub open spec fn step(self, stack: Seq<i64>, rolls: Seq<i64>) -> Result<
        (Seq<i64>, Seq<i64>),
        EvalError,
    > {
        match self {
            Operation::Push(value) => match value.outcome(rolls) {
                Ok(pushed) => Ok((stack.push(pushed), rolls.skip(value.rolls_needed() as int))),
                Err(e) => Err(e),
            },
            _ => match self.operated(stack) {
                Ok(after) => Ok((after, rolls)),
                Err(e) => Err(e),
            },
        }
    }

    /// Carries out an operator on the two topmost values of `stack`.
    fn combine(&self, stack: &mut Vec<i64>) -> (done: Result<(), EvalError>)
        requires
            !(self is Push),
        ensures
            match self.operated(old(stack)@) {
                Ok(after) => done is Ok && final(stack)@ == after,
                Err(e) => done == Err::<(), EvalError>(e) && final(stack)@ == old(stack)@,
            },
    {
        let depth: usize = stack.len();
        if depth < 2 {
            return Err(EvalError::StackUnderflow);
        }
        let right: i64 = stack[depth - 1];
        let left: i64 = stack[depth - 2];
        let result: i64 = match self {
            Operation::Add => saturating_add(left, right),
            Operation::Subtract => saturating_sub(left, right),
            _ => saturating_mul(left, right),
        };
        stack.truncate(depth - 2);
        stack.push(result);
        Ok(())
    }

    /// Carries out the operation on `stack` with dice rolled by `rng`. A
    /// push rolls as many dice as its value asks for and no more. Where
    /// the operation fails, `stack` is left as it was.
    pub fn evaluate(&self, stack: &mut Vec<i64>, rng: &mut ThreadRng) -> (done: Result<
        (),
        EvalError,
    >)
        ensures
            exists|rolls: Seq<i64>|
                match #[trigger] self.step(old(stack)@, rolls) {
                    Ok((after, rest)) => done is Ok && final(stack)@ == after && rest.len() == 0,
                    Err(e) => done == Err::<(), EvalError>(e) && !e.blames_rolls() && final(stack)@
                        == old(stack)@,
                },
    {
        match self {
            Operation::Push(value) => {
                let pushed = value.evaluate(rng);
                let ghost rolls = choose|rolls: Seq<i64>|
                    rolls.len() == value.rolls_needed() && #[trigger] value.outcome(rolls)
                        == pushed;
                assert(self.step(old(stack)@, rolls) matches Ok((_, rest)) ==> rest.len() == 0);
                match pushed {
                    Ok(pushed) => {
                        stack.push(pushed);
                        Ok(())
                    },
                    Err(e) => Err(e),
                }
            },
            _ => {
                let ghost none = Seq::<i64>::empty();
                assert(self.step(old(stack)@, none) matches Ok((_, rest)) ==> rest == none);
                self.combine(stack)
            },
        }
    }

    /// Carries out the operation on `stack` with the dice showing `rolls`,
    /// taken from the front. Gives the number of rolls taken. Where the
    /// operation fails, `stack` is left as it was.
    pub fn evaluate_with_rolls(&self, stack: &mut Vec<i64>, rolls: &[i64]) -> (taken: Result<
        usize,
        EvalError,
    >)
        ensures
            match self.step(old(stack)@, rolls@) {
                Ok((after, rest)) => {
                    &&& taken matches Ok(n)
                    &&& n <= rolls@.len()
                    &&& rolls@.skip(n as int) == rest
                    &&& final(stack)@ == after
                },
                Err(e) => taken == Err::<usize, EvalError>(e) && final(stack)@ == old(stack)@,
            },
    {
        match self {
            Operation::Push(value) => match value.evaluate_with_rolls(rolls) {
                Ok((pushed, taken)) => {
                    stack.push(pushed);
                    Ok(taken)
                },
                Err(e) => Err(e),
            },
            _ => match self.combine(stack) {
                Ok(()) => {
                    Ok(0)
                },
                Err(e) => Err(e),
            },
        }
    }

    /// Reads an expression and appends its stack program to `ops`. Where
    /// `source` is no expression, `ops` is left as it was.
    pub fn parse(source: &str, ops: &mut Vec<Operation>) -> (done: Result<(), ParseError>)
        ensures
            match parsed_operations(source@) {
                Ok(program) => done is Ok && final(ops)@ == old(ops)@ + program,
                Err(e) => done == Err::<(), ParseError>(e) && final(ops)@ == old(ops)@,
            },
    {
        let chars = characters(source);
        Operation::parse_chars(chars.as_slice(), ops)
    }

    /// Reads an expression from its characters and appends its stack
    /// program to `ops`. Where `chars` is no expression, `ops` is left as
    /// it was.
    pub fn parse_chars(chars: &[char], ops: &mut Vec<Operation>) -> (done: Result<(), ParseError>)
        ensures
            match parsed_operations(chars@) {
                Ok(program) => done is Ok && final(ops)@ == old(ops)@ + program,
                Err(e) => done == Err::<(), ParseError>(e) && final(ops)@ == old(ops)@,
            },
        decreases chars@.len(),
    {
        let mark: usize = ops.len();
        let source = trim(chars);
        let end: usize = source.len();
        proof {
            lemma_trimmed_len(chars@);
        }
        let split = match find(source, '*', '*') {
            Some(i) => Some(i),
            None => find(source, '+', '-'),
        };
        match split {
            Some(i) => {
                proof {
                    lemma_first_index(source@, '*', '*');
                    lemma_first_index(source@, '+', '-');
                }
                let operator = match source[i] {
                    '*' => Operation::Multiply,
                    '+' => Operation::Add,
                    '-' => Operation::Subtract,
                    _ => {
                        return Err(ParseError::InternalConsistency);
                    },
                };
                match Operation::parse_chars(slice_subrange(source, 0, i), ops) {
                    Err(e) => {
                        return Err(e);
                    },
                    Ok(()) => {},
                }
                match Operation::parse_chars(slice_subrange(source, i + 1, end), ops) {
                    Err(e) => {
                        ops.truncate(mark);
                        return Err(e);
                    },
                    Ok(()) => {},
                }
                ops.push(operator);
                Ok(())
            },
            None => match Value::parse_chars(source) {
                Ok(value) => {
                    ops.push(Operation::Push(value));
                    Ok(())
                },
                Err(e) => Err(e),
            },
        }
    }
}

} // verus!
