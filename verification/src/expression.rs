use crate::error::{EvalError, ParseError};
use crate::laws::{
    lemma_balanced_runs, lemma_parse_error_is_malformed_number, lemma_parsed_is_balanced,
};
use crate::operation::{parsed_operations, Operation};
use vstd::prelude::*;
use vstd::slice::slice_subrange;

verus! {

/// A parsed dice expression: a stack program, run from its first
/// operation to its last.
#[derive(Debug)]
pub struct Expression {
    ops: Vec<Operation>,
}

impl View for Expression {
    type V = Seq<Operation>;

    closed spec fn view(&self) -> Seq<Operation> {
        self.ops@
    }
}

/// What `ops`, run one after the other, make of a stack when the dice
/// show `rolls`: the stack at the end, and the rolls that are left. The
/// first operation that fails ends the run with its error.
pub open spec fn run(ops: Seq<Operation>, stack: Seq<i64>, rolls: Seq<i64>) -> Result<
    (Seq<i64>, Seq<i64>),
    EvalError,
>
    decreases ops.len(),
{
    if ops.len() == 0 {
        Ok((stack, rolls))
    } else {
        match ops.first().step(stack, rolls) {
            Ok((after, rest)) => run(ops.drop_first(), after, rest),
            Err(e) => Err(e),
        }
    }
}

/// The value of the program `ops` when the dice show `rolls`: the one
/// value that a run from the empty stack leaves. Rolls that are left over
/// do not count.
pub open spec fn evaluated(ops: Seq<Operation>, rolls: Seq<i64>) -> Result<i64, EvalError> {
    match run(ops, Seq::empty(), rolls) {
        Ok((stack, _)) => if stack.len() == 1 {
            Ok(stack[0])
        } else {
            Err(EvalError::StackImbalance)
        },
        Err(e) => Err(e),
    }
}

/// How many values a stack of `depth` values holds after `ops`, where no
/// operator finds fewer than two.
pub open spec fn depth_after(ops: Seq<Operation>, depth: int) -> Option<int>
    decreases ops.len(),
{
    if ops.len() == 0 {
        Some(depth)
    } else {
        match ops.first() {
            Operation::Push(_) => depth_after(ops.drop_first(), depth + 1),
            _ => if depth < 2 {
                None
            } else {
                depth_after(ops.drop_first(), depth - 1)
            },
        }
    }
}

/// Whether `ops`, run on the empty stack, never finds an operator short of
/// operands and leaves exactly one value.
pub open spec fn balanced(ops: Seq<Operation>) -> bool {
    depth_after(ops, 0) == Some(1int)
}

/// A run goes on from where its first operations leave off.
pub proof fn lemma_run_step(ops: Seq<Operation>, i: int, stack: Seq<i64>, rolls: Seq<i64>)
    requires
        0 <= i < ops.len(),
    ensures
        run(ops.skip(i), stack, rolls) == match ops[i].step(stack, rolls) {
            Ok((after, rest)) => run(ops.skip(i + 1), after, rest),
            Err(e) => Err(e),
        },
{
    assert(ops.skip(i).drop_first() == ops.skip(i + 1));
}

/// Rolls behind those that an operation takes are handed on untouched.
pub proof fn lemma_step_with_more_rolls(
    op: Operation,
    stack: Seq<i64>,
    rolls: Seq<i64>,
    more: Seq<i64>,
)
    requires
        op.step(stack, rolls) matches Ok((_, rest)) && rest.len() == 0,
    ensures
        op.step(stack, rolls + more) == Ok::<(Seq<i64>, Seq<i64>), EvalError>(
            (op.step(stack, rolls)->Ok_0.0, more),
        ),
{
    match op {
        Operation::Push(value) => {
            let needed = value.rolls_needed() as int;
            assert((rolls + more).take(needed) == rolls.take(needed));
            assert((rolls + more).skip(needed) == more);
        },
        _ => {},
    }
}

impl Expression {
    /// The expression that runs `ops`.
    pub fn new(ops: Vec<Operation>) -> (expression: Expression)
        ensures
            expression@ == ops@,
    {
        Expression { ops }
    }

    /// The operations of the expression, in the order in which they run.
    pub fn operations(&self) -> (ops: &Vec<Operation>)
        ensures
            ops@ == self@,
    {
        &self.ops
    }

    /// Reads an expression such as `2d6 + 3 * 4`. What it gives is a
    /// balanced program; what it refuses has a malformed number in it.
    pub fn parse(source: &str) -> (parsed: Result<Expression, ParseError>)
        ensures
            match parsed_operations(source@) {
                Ok(program) => parsed matches Ok(expression) && expression@ == program,
                Err(e) => parsed matches Err(error) && error == e,
            },
            parsed matches Ok(expression) ==> balanced(expression@),
            parsed matches Err(error) ==> error == ParseError::MalformedNumber,
    {
        proof {
            lemma_parse_error_is_malformed_number(source@);
            if parsed_operations(source@) is Ok {
                lemma_parsed_is_balanced(source@);
            }
        }
        let mut ops: Vec<Operation> = Vec::new();
        match Operation::parse(source, &mut ops) {
            Ok(()) => Ok(Expression { ops }),
            Err(e) => Err(e),
        }
    }

    /// Evaluates the expression once, with dice rolled by the calling
    /// thread's random number generator: the value is the one that the
    /// program has for the faces that came, each a face of its die. A
    /// balanced program fails only where a die has no sides.
    pub fn evaluate(&self) -> (value: Result<i64, EvalError>)
        ensures
            exists|rolls: Seq<i64>| #[trigger] evaluated(self@, rolls) == value,
            value matches Err(e) ==> !e.blames_rolls(),
            balanced(self@) ==> (value matches Err(e) ==> e == EvalError::InvalidDice),
    {
        let mut rng = rand::thread_rng();
        let mut stack: Vec<i64> = Vec::with_capacity(self.ops.len());
        let ghost mut made: Seq<i64> = Seq::empty();
        let mut i: usize = 0;
        assert(self@.skip(0) == self@);
        while i < self.ops.len()
            invariant
                i <= self@.len(),
                forall|rest: Seq<i64>|
                    run(self@, Seq::empty(), made + rest) == #[trigger] run(
                        self@.skip(i as int),
                        stack@,
                        rest,
                    ),
            decreases self@.len() - i,
        {
            let ghost before = stack@;
            let done = self.ops[i].evaluate(&mut stack, &mut rng);
            let ghost rolls = choose|rolls: Seq<i64>|
                match #[trigger] self@[i as int].step(before, rolls) {
                    Ok((after, rest)) => done is Ok && stack@ == after && rest.len() == 0,
                    Err(e) => done == Err::<(), EvalError>(e) && !e.blames_rolls() && stack@
                        == before,
                };
            match done {
                Err(e) => {
                    proof {
                        lemma_run_step(self@, i as int, before, rolls);
                        if balanced(self@) {
                            lemma_balanced_runs(self@, made + rolls);
                        }
                    }
                    return Err(e);
                },
                Ok(()) => {
                    proof {
                        assert forall|rest: Seq<i64>|
                            run(self@, Seq::empty(), made + rolls + rest) == #[trigger] run(
                                self@.skip(i + 1),
                                stack@,
                                rest,
                            ) by {
                            assert(made + rolls + rest == made + (rolls + rest));
                            lemma_run_step(self@, i as int, before, rolls + rest);
                            lemma_step_with_more_rolls(self@[i as int], before, rolls, rest);
                        }
                        made = made + rolls;
                    }
                },
            }
            i += 1;
        }
        proof {
            assert(run(self@, Seq::empty(), made) == run(
                self@.skip(i as int),
                stack@,
                Seq::<i64>::empty(),
            ));
            if balanced(self@) {
                lemma_balanced_runs(self@, made);
            }
        }
        if stack.len() == 1 {
            Ok(stack[0])
        } else {
            Err(EvalError::StackImbalance)
        }
    }

    /// Evaluates the expression with the dice showing `rolls`, one roll
    /// after the other in the order in which the program asks for them.
    pub fn evaluate_with_rolls(&self, rolls: &[i64]) -> (value: Result<i64, EvalError>)
        ensures
            value == evaluated(self@, rolls@),
    {
        let mut stack: Vec<i64> = Vec::with_capacity(self.ops.len());
        let at_hand: usize = rolls.len();
        let mut taken: usize = 0;
        let mut i: usize = 0;
        assert(self@.skip(0) == self@);
        assert(rolls@.skip(0) == rolls@);
        while i < self.ops.len()
            invariant
                i <= self@.len(),
                taken <= at_hand == rolls@.len(),
                run(self@, Seq::empty(), rolls@) == run(
                    self@.skip(i as int),
                    stack@,
                    rolls@.skip(taken as int),
                ),
            decreases self@.len() - i,
        {
            proof {
                lemma_run_step(self@, i as int, stack@, rolls@.skip(taken as int));
            }
            let left = slice_subrange(rolls, taken, at_hand);
            match self.ops[i].evaluate_with_rolls(&mut stack, left) {
                Err(e) => {
                    return Err(e);
                },
                Ok(n) => {
                    assert(left@.skip(n as int) == rolls@.skip(taken + n));
                    taken += n;
                },
            }
            i += 1;
        }
        if stack.len() == 1 {
            Ok(stack[0])
        } else {
            Err(EvalError::StackImbalance)
        }
    }
}

} // verus!
