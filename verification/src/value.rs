use crate::arith::{clamp, saturating_add};
use crate::error::{EvalError, ParseError};
use crate::number::{integer_of, parse_integer};
use crate::random::roll;
use crate::text::{characters, find, first_index, lemma_first_index, trim, trimmed};
use rand::rngs::ThreadRng;
use vstd::prelude::*;
use vstd::slice::slice_subrange;

verus! {

/// What a push operation puts on the stack.
#[derive(Clone, Copy, Debug, PartialEq, Eq, Structural)]
pub enum Value {
    /// The integer itself.
    Constant(i64),
    /// The sum of `count` rolls of a die with `sides` faces, numbered from
    /// one: the fields are `count` and `sides`, in this order.
    Dice(i64, i64),
}

/// The value that the token `s` writes. Whitespace around the token is
/// dropped. A token with a `d` in it is a dice term, the count before the
/// first `d` and the number of sides behind it; any other token is a
/// constant.
pub open spec fn parsed_value(s: Seq<char>) -> Result<Value, ParseError> {
    let token = trimmed(s);
    match first_index(token, 'd', 'd') {
        Some(i) => match (integer_of(token.take(i)), integer_of(token.skip(i + 1))) {
            (Some(count), Some(sides)) => Ok(Value::Dice(count, sides)),
            _ => Err(ParseError::MalformedNumber),
        },
        None => match integer_of(token) {
            Some(constant) => Ok(Value::Constant(constant)),
            None => Err(ParseError::MalformedNumber),
        },
    }
}

/// Whether each of `rolls` is a face of a die with `sides` faces.
pub open spec fn all_faces(rolls: Seq<i64>, sides: i64) -> bool {
    forall|k: int| 0 <= k < rolls.len() ==> 1 <= #[trigger] rolls[k] <= sides
}

/// The sum of `rolls`, added up from the first one on with additions that
/// stop at the bounds of `i64`.
pub open spec fn roll_total(rolls: Seq<i64>) -> i64
    decreases rolls.len(),
{
    if rolls.len() == 0 {
        0
    } else {
        clamp(roll_total(rolls.drop_last()) + rolls.last())
    }
}

impl Value {
    /// How many rolls the value takes.
    pub open spec fn rolls_needed(self) -> nat {
        match self {
            Value::Constant(_) => 0,
            Value::Dice(count, _) => if count > 0 {
                count as nat
            } else {
                0
            },
        }
    }

    /// What the value comes to when the dice show `rolls`, taken from the
    /// front. A constant is itself. A dice term with no roll to make is
    /// zero; a die with no sides cannot be rolled; each roll has to be at
    /// hand and a face of the die; the term is then the total of its rolls.
    pub open spec fn outcome(self, rolls: Seq<i64>) -> Result<i64, EvalError> {
        match self {
            Value::Constant(constant) => Ok(constant),
            Value::Dice(count, sides) => {
                let at_hand = if rolls.len() < count {
                    rolls
                } else {
                    rolls.take(count as int)
                };
                if count <= 0 {
                    Ok(0)
                } else if sides < 1 {
                    Err(EvalError::InvalidDice)
                } else if !all_faces(at_hand, sides) {
                    Err(EvalError::RollOutOfRange)
                } else if rolls.len() < count {
                    Err(EvalError::OutOfRolls)
                } else {
                    Ok(roll_total(at_hand))
                }
            },
        }
    }

    /// Evaluates the value with dice rolled by `rng`: one roll after the
    /// other, each a face of the die, as many as the term asks for.
    pub fn evaluate(&self, rng: &mut ThreadRng) -> (result: Result<i64, EvalError>)
        ensures
            exists|rolls: Seq<i64>|
                rolls.len() == self.rolls_needed() && #[trigger] self.outcome(rolls) == result,
            result matches Err(e) ==> !e.blames_rolls(),
            *self matches Value::Dice(count, sides) ==> (count >= 1 && sides >= 1 ==> {
                &&& result matches Ok(total)
                &&& count <= total <= count * sides
            }),
    {
        match *self {
            Value::Constant(constant) => Ok(constant),
            Value::Dice(count, sides) => {
                if count <= 0 {
                    assert(self.outcome(Seq::empty()) == Ok::<i64, EvalError>(0));
                    return Ok(0);
                }
                if sides < 1 {
                    let ghost any = Seq::new(count as nat, |k: int| 0i64);
                    assert(self.outcome(any) == Err::<i64, EvalError>(EvalError::InvalidDice));
                    return Err(EvalError::InvalidDice);
                }
                let mut total: i64 = 0;
                let mut made: i64 = 0;
                let ghost mut rolls: Seq<i64> = Seq::empty();
                while made < count
                    invariant
                        0 <= made <= count,
                        1 <= sides,
                        rolls.len() == made,
                        all_faces(rolls, sides),
                        total == roll_total(rolls),
                    decreases count - made,
                {
                    let face = roll(rng, sides);
                    total = saturating_add(total, face);
                    proof {
                        let longer = rolls.push(face);
                        assert(longer.drop_last() == rolls);
                        rolls = longer;
                    }
                    made += 1;
                }
                proof {
                    assert(rolls.take(count as int) == rolls);
                    assert(self.outcome(rolls) == Ok::<i64, EvalError>(total));
                    lemma_roll_total_bounds(rolls, sides);
                }
                Ok(total)
            },
        }
    }

    /// Evaluates the value with the dice showing `rolls`, taken from the
    /// front. Gives the value and the number of rolls taken.
    pub fn evaluate_with_rolls(&self, rolls: &[i64]) -> (result: Result<(i64, usize), EvalError>)
        ensures
            match self.outcome(rolls@) {
                Ok(value) => {
                    &&& result matches Ok((given, taken))
                    &&& given == value
                    &&& taken == self.rolls_needed()
                    &&& taken <= rolls@.len()
                },
                Err(e) => result == Err::<(i64, usize), EvalError>(e),
            },
    {
        match *self {
            Value::Constant(constant) => Ok((constant, 0)),
            Value::Dice(count, sides) => {
                if count <= 0 {
                    return Ok((0, 0));
                }
                if sides < 1 {
                    return Err(EvalError::InvalidDice);
                }
                let mut total: i64 = 0;
                let mut taken: usize = 0;
                while (taken as u128) < (count as u128)
                    invariant
                        *self == Value::Dice(count, sides),
                        0 <= taken <= count,
                        taken <= rolls@.len(),
                        1 <= sides,
                        all_faces(rolls@.take(taken as int), sides),
                        total == roll_total(rolls@.take(taken as int)),
                    decreases count - taken,
                {
                    if taken >= rolls.len() {
                        assert(rolls@.take(taken as int) == rolls@);
                        return Err(EvalError::OutOfRolls);
                    }
                    let face = rolls[taken];
                    if face < 1 || face > sides {
                        proof {
                            let at_hand = if rolls@.len() < count {
                                rolls@
                            } else {
                                rolls@.take(count as int)
                            };
                            assert(at_hand[taken as int] == face);
                        }
                        return Err(EvalError::RollOutOfRange);
                    }
                    total = saturating_add(total, face);
                    proof {
                        let longer = rolls@.take(taken + 1);
                        assert(longer.drop_last() == rolls@.take(taken as int));
                    }
                    taken += 1;
                }
                Ok((total, taken))
            },
        }
    }

    /// Reads one token: a constant such as `10`, or a dice term such as `2d6`.
    pub fn parse(source: &str) -> (value: Result<Value, ParseError>)
        ensures
            value == parsed_value(source@),
    {
        let chars = characters(source);
        Value::parse_chars(chars.as_slice())
    }

    /// Reads one token from its characters.
    pub fn parse_chars(chars: &[char]) -> (value: Result<Value, ParseError>)
        ensures
            value == parsed_value(chars@),
    {
        let token = trim(chars);
        let end: usize = token.len();
        match find(token, 'd', 'd') {
            Some(i) => {
                proof {
                    lemma_first_index(token@, 'd', 'd');
                }
                let count = parse_integer(slice_subrange(token, 0, i));
                let sides = parse_integer(slice_subrange(token, i + 1, end));
                match (count, sides) {
                    (Some(count), Some(sides)) => Ok(Value::Dice(count, sides)),
                    _ => Err(ParseError::MalformedNumber),
                }
            },
            None => match parse_integer(token) {
                Some(constant) => Ok(Value::Constant(constant)),
                None => Err(ParseError::MalformedNumber),
            },
        }
    }
}

/// The total of rolls that are faces of one die lies between their number
/// and their number times the die's sides.
pub proof fn lemma_roll_total_bounds(rolls: Seq<i64>, sides: i64)
    requires
        all_faces(rolls, sides),
        rolls.len() <= i64::MAX,
    ensures
        rolls.len() <= roll_total(rolls) <= rolls.len() * sides,
    decreases rolls.len(),
{
    if rolls.len() > 0 {
        let earlier = rolls.drop_last();
        lemma_roll_total_bounds(earlier, sides);
        let n = rolls.len() as int;
        let m = sides as int;
        assert((n - 1) * m + m == n * m) by (nonlinear_arith);
    } else {
        assert(rolls.len() * sides == 0) by (nonlinear_arith)
            requires
                rolls.len() == 0,
        ;
    }
}

} // verus!
