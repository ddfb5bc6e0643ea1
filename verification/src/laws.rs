use crate::error::{EvalError, ParseError};
use crate::expression::{balanced, depth_after, evaluated, run};
use crate::operation::{parsed_operations, Operation};
use crate::text::{
    all_whitespace, first_index, lemma_first_index, lemma_trimmed_ignores_padding,
    lemma_trimmed_len, trimmed,
};
use crate::value::{lemma_roll_total_bounds, parsed_value, Value};
use vstd::prelude::*;

verus! {

/// Running two programs one after the other is running the second from
/// where the first one ends.
pub proof fn lemma_run_concat(
    first: Seq<Operation>,
    second: Seq<Operation>,
    stack: Seq<i64>,
    rolls: Seq<i64>,
)
    ensures
        run(first + second, stack, rolls) == match run(first, stack, rolls) {
            Ok((after, rest)) => run(second, after, rest),
            Err(e) => Err(e),
        },
    decreases first.len(),
{
    if first.len() > 0 {
        assert((first + second).drop_first() == first.drop_first() + second);
        match first.first().step(stack, rolls) {
            Ok((after, rest)) => {
                lemma_run_concat(first.drop_first(), second, after, rest);
            },
            Err(_) => {},
        }
    }
}

/// The depth after two programs is the depth after the second, counted
/// from the depth after the first.
pub proof fn lemma_depth_concat(first: Seq<Operation>, second: Seq<Operation>, depth: int)
    ensures
        depth_after(first + second, depth) == match depth_after(first, depth) {
            Some(between) => depth_after(second, between),
            None => None,
        },
    decreases first.len(),
{
    if first.len() > 0 {
        assert((first + second).drop_first() == first.drop_first() + second);
        match first.first() {
            Operation::Push(_) => {
                lemma_depth_concat(first.drop_first(), second, depth + 1);
            },
            _ => {
                if depth >= 2 {
                    lemma_depth_concat(first.drop_first(), second, depth - 1);
                }
            },
        }
    }
}

/// A program that is content with a stack is content with a deeper one,
/// and leaves it deeper by as much.
pub proof fn lemma_depth_shift(ops: Seq<Operation>, depth: int, more: int)
    requires
        more >= 0,
        depth_after(ops, depth) is Some,
    ensures
        depth_after(ops, depth + more) == Some(depth_after(ops, depth).unwrap() + more),
    decreases ops.len(),
{
    if ops.len() > 0 {
        match ops.first() {
            Operation::Push(_) => {
                lemma_depth_shift(ops.drop_first(), depth + 1, more);
            },
            _ => {
                lemma_depth_shift(ops.drop_first(), depth - 1, more);
            },
        }
    }
}

/// The program of every expression is balanced.
pub proof fn lemma_parsed_is_balanced(s: Seq<char>)
    requires
        parsed_operations(s) is Ok,
    ensures
        balanced(parsed_operations(s).unwrap()),
    decreases s.len(),
{
    let source = trimmed(s);
    lemma_trimmed_len(s);
    lemma_first_index(source, '*', '*');
    lemma_first_index(source, '+', '-');
    let split = match first_index(source, '*', '*') {
        Some(i) => Some(i),
        None => first_index(source, '+', '-'),
    };
    match split {
        Some(i) => {
            let operator = if source[i] == '*' {
                Operation::Multiply
            } else if source[i] == '+' {
                Operation::Add
            } else {
                Operation::Subtract
            };
            let left = parsed_operations(source.take(i));
            let right = parsed_operations(source.skip(i + 1));
            lemma_parsed_is_balanced(source.take(i));
            lemma_parsed_is_balanced(source.skip(i + 1));
            lemma_balanced_join(left.unwrap(), right.unwrap(), operator);
        },
        None => {
            let program = parsed_operations(s).unwrap();
            assert(depth_after(program.drop_first(), 1) == Some(1int));
        },
    }
}

/// Two balanced programs and an operator behind them make a balanced
/// program.
pub proof fn lemma_balanced_join(left: Seq<Operation>, right: Seq<Operation>, operator: Operation)
    requires
        balanced(left),
        balanced(right),
        !(operator is Push),
    ensures
        balanced((left + right).push(operator)),
{
    let last = seq![operator];
    assert((left + right).push(operator) == (left + right) + last);
    lemma_depth_concat(left, right, 0);
    lemma_depth_shift(right, 0, 1);
    lemma_depth_concat(left + right, last, 0);
    assert(depth_after(last.drop_first(), 1) == Some(1int));
}

/// A run ends with the depth that `depth_after` counts, and an operator is
/// short of operands in the run only where it is in the count.
pub proof fn lemma_run_depth(ops: Seq<Operation>, stack: Seq<i64>, rolls: Seq<i64>)
    ensures
        match run(ops, stack, rolls) {
            Ok((after, _)) => depth_after(ops, stack.len() as int) == Some(after.len() as int),
            Err(e) => {
                &&& e != EvalError::StackImbalance
                &&& e == EvalError::StackUnderflow ==> depth_after(ops, stack.len() as int)
                    is None
            },
        },
    decreases ops.len(),
{
    if ops.len() > 0 {
        match ops.first().step(stack, rolls) {
            Ok((after, rest)) => {
                lemma_run_depth(ops.drop_first(), after, rest);
            },
            Err(_) => {},
        }
    }
}

/// A balanced program fails only for its dice: no operator is short of
/// operands, and one value is left.
pub proof fn lemma_balanced_runs(ops: Seq<Operation>, rolls: Seq<i64>)
    requires
        balanced(ops),
    ensures
        evaluated(ops, rolls) != Err::<i64, EvalError>(EvalError::StackUnderflow),
        evaluated(ops, rolls) != Err::<i64, EvalError>(EvalError::StackImbalance),
{
    lemma_run_depth(ops, Seq::empty(), rolls);
}

/// Where an expression is no stack program, a number in it is malformed:
/// the parser has no other complaint.
pub proof fn lemma_parse_error_is_malformed_number(s: Seq<char>)
    ensures
        parsed_operations(s) matches Err(e) ==> e == ParseError::MalformedNumber,
    decreases s.len(),
{
    let source = trimmed(s);
    lemma_trimmed_len(s);
    lemma_first_index(source, '*', '*');
    lemma_first_index(source, '+', '-');
    let split = match first_index(source, '*', '*') {
        Some(i) => Some(i),
        None => first_index(source, '+', '-'),
    };
    match split {
        Some(i) => {
            lemma_parse_error_is_malformed_number(source.take(i));
            lemma_parse_error_is_malformed_number(source.skip(i + 1));
        },
        None => {},
    }
}

/// Whitespace around an expression does not change its program.
pub proof fn lemma_padding_is_ignored(before: Seq<char>, s: Seq<char>, after: Seq<char>)
    requires
        all_whitespace(before),
        all_whitespace(after),
    ensures
        parsed_operations(before + s + after) == parsed_operations(s),
{
    lemma_trimmed_ignores_padding(before, s, after);
}

/// The value of both operands under an operator, where both have one.
pub open spec fn both(left: Option<i64>, right: Option<i64>, operator: Operation) -> Option<i64> {
    match (left, right) {
        (Some(l), Some(r)) => Some(operator.combined(l, r)),
        _ => None,
    }
}

/// The value of an expression without dice, read from its text: the first
/// `*` splits it into two factors; where there is none, the first `+` or
/// `-` splits it into two terms; where there is none either, it is a
/// constant. Arithmetic stops at the bounds of `i64`. An expression with
/// dice in it, or with a malformed number, has no such value.
pub open spec fn constant_value(s: Seq<char>) -> Option<i64>
    decreases s.len(),
{
    let source = trimmed(s);
    match first_index(source, '*', '*') {
        Some(i) => {
            proof {
                lemma_trimmed_len(s);
                lemma_first_index(source, '*', '*');
            }
            both(
                constant_value(source.take(i)),
                constant_value(source.skip(i + 1)),
                Operation::Multiply,
            )
        },
        None => match first_index(source, '+', '-') {
            Some(i) => {
                proof {
                    lemma_trimmed_len(s);
                    lemma_first_index(source, '+', '-');
                }
                both(
                    constant_value(source.take(i)),
                    constant_value(source.skip(i + 1)),
                    if source[i] == '+' {
                        Operation::Add
                    } else {
                        Operation::Subtract
                    },
                )
            },
            None => match parsed_value(source) {
                Ok(Value::Constant(constant)) => Some(constant),
                _ => None,
            },
        },
    }
}

/// The program of an expression without dice puts the expression's value
/// on the stack, whatever the stack holds, and takes no roll.
pub proof fn lemma_constant_program(s: Seq<char>, stack: Seq<i64>, rolls: Seq<i64>)
    requires
        constant_value(s) is Some,
    ensures
        parsed_operations(s) is Ok,
        run(parsed_operations(s).unwrap(), stack, rolls) == Ok::<(Seq<i64>, Seq<i64>), EvalError>(
            (stack.push(constant_value(s).unwrap()), rolls),
        ),
    decreases s.len(),
{
    let source = trimmed(s);
    lemma_trimmed_len(s);
    lemma_first_index(source, '*', '*');
    lemma_first_index(source, '+', '-');
    let split = match first_index(source, '*', '*') {
        Some(i) => Some(i),
        None => first_index(source, '+', '-'),
    };
    match split {
        Some(i) => {
            let operator = if source[i] == '*' {
                Operation::Multiply
            } else if source[i] == '+' {
                Operation::Add
            } else {
                Operation::Subtract
            };
            let left = source.take(i);
            let right = source.skip(i + 1);
            let l = constant_value(left).unwrap();
            let r = constant_value(right).unwrap();
            let with_left = stack.push(l);
            let with_both = with_left.push(r);
            lemma_constant_program(left, stack, rolls);
            lemma_constant_program(right, with_left, rolls);
            let lp = parsed_operations(left).unwrap();
            let rp = parsed_operations(right).unwrap();
            let last = seq![operator];
            assert(parsed_operations(s).unwrap() == (lp + rp) + last);
            lemma_run_concat(lp, rp, stack, rolls);
            lemma_run_concat(lp + rp, last, stack, rolls);
            assert(with_both.take(with_both.len() - 2) == stack);
            assert(run(last.drop_first(), stack.push(operator.combined(l, r)), rolls) == Ok::<
                (Seq<i64>, Seq<i64>),
                EvalError,
            >((stack.push(operator.combined(l, r)), rolls)));
        },
        None => {
            let program = parsed_operations(s).unwrap();
            let constant = constant_value(s).unwrap();
            assert(rolls.skip(0) == rolls);
            assert(run(program.drop_first(), stack.push(constant), rolls) == Ok::<
                (Seq<i64>, Seq<i64>),
                EvalError,
            >((stack.push(constant), rolls)));
        },
    }
}

/// An expression without dice evaluates to the value that its text reads
/// as, whatever the dice show.
pub proof fn lemma_constant_expression(s: Seq<char>, rolls: Seq<i64>)
    requires
        constant_value(s) is Some,
    ensures
        parsed_operations(s) is Ok,
        evaluated(parsed_operations(s).unwrap(), rolls) == Ok::<i64, EvalError>(
            constant_value(s).unwrap(),
        ),
{
    lemma_constant_program(s, Seq::empty(), rolls);
}

/// A dice term of `count` dice with `sides` faces each, both at least one,
/// comes to no less than `count` and no more than `count` times `sides`,
/// whichever faces the dice show.
pub proof fn lemma_dice_term_range(count: i64, sides: i64, rolls: Seq<i64>)
    requires
        count >= 1,
        sides >= 1,
    ensures
        match evaluated(seq![Operation::Push(Value::Dice(count, sides))], rolls) {
            Ok(total) => count <= total <= count * sides,
            Err(e) => e.blames_rolls(),
        },
{
    let value = Value::Dice(count, sides);
    let program = seq![Operation::Push(value)];
    if value.outcome(rolls) is Ok {
        let taken = rolls.take(count as int);
        lemma_roll_total_bounds(taken, sides);
        let after = Seq::<i64>::empty().push(value.outcome(rolls).unwrap());
        assert(run(program.drop_first(), after, rolls.skip(count as int)) == Ok::<
            (Seq<i64>, Seq<i64>),
            EvalError,
        >((after, rolls.skip(count as int))));
    }
}

/// An operator on two constants gives the exact result where that fits in
/// 64 bits, the greatest 64-bit integer where the exact result lies above
/// it, and the least one where the exact result lies below.
pub proof fn lemma_operator_saturates(
    operator: Operation,
    left: i64,
    right: i64,
    rolls: Seq<i64>,
)
    requires
        !(operator is Push),
    ensures
        ({
            let exact: int = match operator {
                Operation::Add => left + right,
                Operation::Subtract => left - right,
                _ => left * right,
            };
            evaluated(
                seq![
                    Operation::Push(Value::Constant(left)),
                    Operation::Push(Value::Constant(right)),
                    operator,
                ],
                rolls,
            ) == Ok::<i64, EvalError>(
                if exact > i64::MAX {
                    i64::MAX
                } else if exact < i64::MIN {
                    i64::MIN
                } else {
                    exact as i64
                },
            )
        }),
{
    let program = seq![
        Operation::Push(Value::Constant(left)),
        Operation::Push(Value::Constant(right)),
        operator,
    ];
    let empty = Seq::<i64>::empty();
    let one = empty.push(left);
    let two = one.push(right);
    let result = empty.push(operator.combined(left, right));
    let second = program.drop_first();
    let third = second.drop_first();
    assert(rolls.skip(0) == rolls);
    assert(two.take(two.len() - 2) == empty);
    assert(run(third.drop_first(), result, rolls) == Ok::<(Seq<i64>, Seq<i64>), EvalError>(
        (result, rolls),
    ));
    assert(run(third, two, rolls) == Ok::<(Seq<i64>, Seq<i64>), EvalError>((result, rolls)));
    assert(run(second, one, rolls) == Ok::<(Seq<i64>, Seq<i64>), EvalError>((result, rolls)));
}

} // verus!
