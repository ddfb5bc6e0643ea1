use die::arith::{saturating_add, saturating_mul, saturating_sub};
use die::{EvalError, Expression, Operation, Value};

fn value_of(source: &str) -> i64 {
    Expression::parse(source).unwrap().evaluate().unwrap()
}

fn constant(value: i64) -> Operation {
    Operation::Push(Value::Constant(value))
}

#[test]
fn constant_evaluates_to_itself() {
    assert_eq!(value_of("10"), 10);
    assert_eq!(Expression::parse("10").unwrap().evaluate_with_rolls(&[]), Ok(10));
}

#[test]
fn first_star_splits_the_expression() {
    assert_eq!(value_of("1+2*3"), 9);
    assert_eq!(value_of("3*2+1"), 9);
    assert_eq!(value_of("2+3*4"), 20);
    assert_ne!(value_of("2+3*4"), 14);
}

#[test]
fn subtraction_takes_the_right_operand_from_the_left() {
    assert_eq!(value_of("10-3"), 7);
    assert_ne!(value_of("10-3"), -7);
}

#[test]
fn subtraction_chain_leans_to_the_right() {
    assert_eq!(value_of("5-2-1"), 4);
}

#[test]
fn whitespace_does_not_change_the_value() {
    assert_eq!(value_of(" 1 + 2 "), value_of("1+2"));
    assert_eq!(value_of(" 1 + 2 "), 3);
}

#[test]
fn operator_found_at_the_split_decides() {
    assert_eq!(value_of("1\u{3000}+2-3"), 0);
}

#[test]
fn sum_beyond_the_maximum_is_the_maximum() {
    assert_eq!(value_of("9223372036854775807+1"), i64::MAX);
    assert_eq!(value_of("9223372036854775807+9223372036854775807"), i64::MAX);
}

#[test]
fn product_beyond_the_maximum_is_the_maximum() {
    assert_eq!(value_of("9223372036854775807*2"), i64::MAX);
    assert_eq!(value_of("4294967296*4294967296"), i64::MAX);
}

#[test]
fn results_below_the_minimum_are_the_minimum() {
    assert_eq!(value_of("0-5*9223372036854775807"), i64::MIN);
    let below = Expression::new(vec![constant(i64::MIN), constant(1), Operation::Subtract]);
    assert_eq!(below.evaluate(), Ok(i64::MIN));
    let sum = Expression::new(vec![constant(i64::MIN), constant(-1), Operation::Add]);
    assert_eq!(sum.evaluate(), Ok(i64::MIN));
    let product = Expression::new(vec![constant(i64::MIN), constant(-1), Operation::Multiply]);
    assert_eq!(product.evaluate(), Ok(i64::MAX));
}

#[test]
fn results_within_range_are_exact() {
    assert_eq!(value_of("9223372036854775806+1"), i64::MAX);
    assert_eq!(value_of("3037000499*3037000499"), 9223372030926249001);
    assert_eq!(value_of("0-9223372036854775807"), -9223372036854775807);
}

#[test]
fn saturating_operations_stop_at_the_bounds() {
    assert_eq!(saturating_add(1, 2), 3);
    assert_eq!(saturating_add(i64::MAX, 1), i64::MAX);
    assert_eq!(saturating_add(i64::MIN, -1), i64::MIN);
    assert_eq!(saturating_sub(1, 2), -1);
    assert_eq!(saturating_sub(i64::MIN, 1), i64::MIN);
    assert_eq!(saturating_sub(i64::MAX, -1), i64::MAX);
    assert_eq!(saturating_sub(0, i64::MIN), i64::MAX);
    assert_eq!(saturating_mul(-3, 4), -12);
    assert_eq!(saturating_mul(i64::MAX, 2), i64::MAX);
    assert_eq!(saturating_mul(i64::MAX, -2), i64::MIN);
    assert_eq!(saturating_mul(i64::MIN, -1), i64::MAX);
    assert_eq!(saturating_mul(i64::MIN, 2), i64::MIN);
    assert_eq!(saturating_mul(0, i64::MIN), 0);
}

#[test]
fn saturating_operations_agree_with_std() {
    let samples = [i64::MIN, i64::MIN + 1, -3037000500, -2, -1, 0, 1, 2, 3037000500, i64::MAX - 1, i64::MAX];
    for x in samples {
        for y in samples {
            assert_eq!(saturating_add(x, y), x.saturating_add(y));
            assert_eq!(saturating_sub(x, y), x.saturating_sub(y));
            assert_eq!(saturating_mul(x, y), x.saturating_mul(y));
        }
    }
}

#[test]
fn two_dice_of_six_lie_between_two_and_twelve() {
    let expression = Expression::parse("2d6").unwrap();
    for _ in 0..500 {
        let value = expression.evaluate().unwrap();
        assert!((2..=12).contains(&value));
    }
}

#[test]
fn dice_terms_lie_between_count_and_count_times_sides() {
    for (count, sides) in [(1i64, 1i64), (1, 20), (3, 6), (10, 2), (7, 100)] {
        let expression = Expression::parse(&format!("{}d{}", count, sides)).unwrap();
        for _ in 0..200 {
            let value = expression.evaluate().unwrap();
            assert!(count <= value && value <= count * sides);
        }
    }
}

#[test]
fn die_with_one_side_always_shows_one() {
    for _ in 0..50 {
        assert_eq!(value_of("5d1"), 5);
    }
}

#[test]
fn rolls_are_not_the_number_of_sides_every_time() {
    let expression = Expression::parse("1d1000000").unwrap();
    let mut other = false;
    for _ in 0..64 {
        let value = expression.evaluate().unwrap();
        assert!((1..=1000000).contains(&value));
        if value != 1000000 {
            other = true;
        }
    }
    assert!(other);
}

#[test]
fn every_face_comes_up() {
    let expression = Expression::parse("1d6").unwrap();
    let mut seen = [false; 6];
    for _ in 0..2000 {
        let value = expression.evaluate().unwrap();
        seen[(value - 1) as usize] = true;
    }
    assert_eq!(seen, [true; 6]);
}

#[test]
fn value_evaluate_rolls_within_range() {
    let mut rng = rand::thread_rng();
    assert_eq!(Value::Constant(-4).evaluate(&mut rng), Ok(-4));
    for _ in 0..200 {
        let total = Value::Dice(4, 8).evaluate(&mut rng).unwrap();
        assert!((4..=32).contains(&total));
    }
}

#[test]
fn value_evaluate_without_rolls_is_zero() {
    let mut rng = rand::thread_rng();
    assert_eq!(Value::Dice(0, 6).evaluate(&mut rng), Ok(0));
    assert_eq!(Value::Dice(-3, 6).evaluate(&mut rng), Ok(0));
    assert_eq!(Value::Dice(0, 0).evaluate(&mut rng), Ok(0));
    assert_eq!(Value::Dice(-1, -1).evaluate(&mut rng), Ok(0));
}

#[test]
fn die_without_sides_cannot_be_rolled() {
    let mut rng = rand::thread_rng();
    assert_eq!(Value::Dice(1, 0).evaluate(&mut rng), Err(EvalError::InvalidDice));
    assert_eq!(Value::Dice(2, -6).evaluate(&mut rng), Err(EvalError::InvalidDice));
    assert_eq!(Expression::parse("2d0").unwrap().evaluate(), Err(EvalError::InvalidDice));
    assert_eq!(
        Expression::parse("2d0").unwrap().evaluate_with_rolls(&[1, 1]),
        Err(EvalError::InvalidDice)
    );
    assert_eq!(value_of("0d0"), 0);
    assert_eq!(value_of("0d6+1"), 1);
}

#[test]
fn huge_dice_stop_at_the_maximum() {
    let mut rng = rand::thread_rng();
    for _ in 0..20 {
        let total = Value::Dice(4, i64::MAX).evaluate(&mut rng).unwrap();
        assert!(total >= 4);
    }
    assert_eq!(
        Value::Dice(2, i64::MAX).evaluate_with_rolls(&[i64::MAX, i64::MAX]),
        Ok((i64::MAX, 2))
    );
    assert_eq!(
        Value::Dice(3, i64::MAX).evaluate_with_rolls(&[i64::MAX - 1, 1, 5]),
        Ok((i64::MAX, 3))
    );
}

#[test]
fn prepared_rolls_are_summed() {
    let expression = Expression::parse("2d6").unwrap();
    assert_eq!(expression.evaluate_with_rolls(&[3, 4]), Ok(7));
    assert_eq!(expression.evaluate_with_rolls(&[1, 1]), Ok(2));
    assert_eq!(expression.evaluate_with_rolls(&[6, 6]), Ok(12));
}

#[test]
fn prepared_rolls_give_the_same_value_each_time() {
    let expression = Expression::parse("3d6*2+1d4").unwrap();
    let first = expression.evaluate_with_rolls(&[2, 5, 6, 3]);
    assert_eq!(first, Ok(13 * (2 + 3)));
    for _ in 0..10 {
        assert_eq!(expression.evaluate_with_rolls(&[2, 5, 6, 3]), first);
    }
}

#[test]
fn prepared_rolls_are_taken_in_order() {
    let expression = Expression::parse("1d6-1d6").unwrap();
    assert_eq!(expression.evaluate_with_rolls(&[5, 2]), Ok(3));
    assert_eq!(expression.evaluate_with_rolls(&[2, 5]), Ok(-3));
    let mixed = Expression::parse("2d4*10+1d20").unwrap();
    assert_eq!(mixed.evaluate_with_rolls(&[1, 4, 20]), Ok(5 * 30));
}

#[test]
fn rolls_left_over_do_not_count() {
    let expression = Expression::parse("1d6").unwrap();
    assert_eq!(expression.evaluate_with_rolls(&[2, 5]), Ok(2));
    assert_eq!(Expression::parse("7").unwrap().evaluate_with_rolls(&[9, 9]), Ok(7));
}

#[test]
fn too_few_prepared_rolls_are_an_error() {
    let expression = Expression::parse("2d6").unwrap();
    assert_eq!(expression.evaluate_with_rolls(&[3]), Err(EvalError::OutOfRolls));
    assert_eq!(expression.evaluate_with_rolls(&[]), Err(EvalError::OutOfRolls));
    let two = Expression::parse("1d6+1d6").unwrap();
    assert_eq!(two.evaluate_with_rolls(&[3]), Err(EvalError::OutOfRolls));
}

#[test]
fn prepared_roll_that_is_no_face_is_an_error() {
    let expression = Expression::parse("2d6").unwrap();
    assert_eq!(expression.evaluate_with_rolls(&[3, 7]), Err(EvalError::RollOutOfRange));
    assert_eq!(expression.evaluate_with_rolls(&[0, 1]), Err(EvalError::RollOutOfRange));
    assert_eq!(expression.evaluate_with_rolls(&[-1, 1]), Err(EvalError::RollOutOfRange));
    assert_eq!(expression.evaluate_with_rolls(&[7]), Err(EvalError::RollOutOfRange));
    assert_eq!(expression.evaluate_with_rolls(&[6, 6, 7]), Ok(12));
}

#[test]
fn value_with_rolls_counts_what_it_takes() {
    assert_eq!(Value::Constant(5).evaluate_with_rolls(&[1, 2]), Ok((5, 0)));
    assert_eq!(Value::Dice(2, 6).evaluate_with_rolls(&[1, 2, 3]), Ok((3, 2)));
    assert_eq!(Value::Dice(0, 6).evaluate_with_rolls(&[1, 2, 3]), Ok((0, 0)));
    assert_eq!(Value::Dice(-2, 6).evaluate_with_rolls(&[]), Ok((0, 0)));
    assert_eq!(Value::Dice(2, 6).evaluate_with_rolls(&[1]), Err(EvalError::OutOfRolls));
    assert_eq!(Value::Dice(2, 6).evaluate_with_rolls(&[9]), Err(EvalError::RollOutOfRange));
    assert_eq!(Value::Dice(2, 0).evaluate_with_rolls(&[1, 1]), Err(EvalError::InvalidDice));
}

#[test]
fn operator_without_operands_underflows() {
    assert_eq!(Expression::new(vec![Operation::Add]).evaluate(), Err(EvalError::StackUnderflow));
    assert_eq!(
        Expression::new(vec![constant(1), Operation::Multiply]).evaluate(),
        Err(EvalError::StackUnderflow)
    );
    assert_eq!(
        Expression::new(vec![constant(1), Operation::Subtract, constant(2)]).evaluate_with_rolls(&[]),
        Err(EvalError::StackUnderflow)
    );
}

#[test]
fn program_that_leaves_no_single_value_is_imbalanced() {
    assert_eq!(Expression::new(Vec::new()).evaluate(), Err(EvalError::StackImbalance));
    assert_eq!(
        Expression::new(vec![constant(1), constant(2)]).evaluate(),
        Err(EvalError::StackImbalance)
    );
    assert_eq!(
        Expression::new(vec![constant(1), constant(2)]).evaluate_with_rolls(&[]),
        Err(EvalError::StackImbalance)
    );
}

#[test]
fn first_failure_ends_the_run() {
    let underflow_first = Expression::new(vec![Operation::Add, Operation::Push(Value::Dice(1, 0))]);
    assert_eq!(underflow_first.evaluate(), Err(EvalError::StackUnderflow));
    let dice_first = Expression::new(vec![Operation::Push(Value::Dice(1, 0)), Operation::Add]);
    assert_eq!(dice_first.evaluate(), Err(EvalError::InvalidDice));
    assert_eq!(dice_first.evaluate_with_rolls(&[]), Err(EvalError::InvalidDice));
}

#[test]
fn operation_evaluate_works_on_the_top_of_the_stack() {
    let mut rng = rand::thread_rng();
    let mut stack = vec![100, 10, 3];
    assert_eq!(Operation::Subtract.evaluate(&mut stack, &mut rng), Ok(()));
    assert_eq!(stack, vec![100, 7]);
    assert_eq!(Operation::Multiply.evaluate(&mut stack, &mut rng), Ok(()));
    assert_eq!(stack, vec![700]);
    assert_eq!(constant(5).evaluate(&mut stack, &mut rng), Ok(()));
    assert_eq!(stack, vec![700, 5]);
    assert_eq!(Operation::Add.evaluate(&mut stack, &mut rng), Ok(()));
    assert_eq!(stack, vec![705]);
    assert_eq!(Operation::Push(Value::Dice(2, 1)).evaluate(&mut stack, &mut rng), Ok(()));
    assert_eq!(stack, vec![705, 2]);
}

#[test]
fn operation_evaluate_leaves_the_stack_alone_on_failure() {
    let mut rng = rand::thread_rng();
    let mut stack = vec![4];
    assert_eq!(Operation::Add.evaluate(&mut stack, &mut rng), Err(EvalError::StackUnderflow));
    assert_eq!(stack, vec![4]);
    assert_eq!(
        Operation::Push(Value::Dice(1, 0)).evaluate(&mut stack, &mut rng),
        Err(EvalError::InvalidDice)
    );
    assert_eq!(stack, vec![4]);
}

#[test]
fn operation_with_rolls_counts_what_it_takes() {
    let mut stack = vec![1];
    assert_eq!(Operation::Push(Value::Dice(2, 6)).evaluate_with_rolls(&mut stack, &[4, 5, 6]), Ok(2));
    assert_eq!(stack, vec![1, 9]);
    assert_eq!(Operation::Subtract.evaluate_with_rolls(&mut stack, &[6]), Ok(0));
    assert_eq!(stack, vec![-8]);
    assert_eq!(
        Operation::Multiply.evaluate_with_rolls(&mut stack, &[6]),
        Err(EvalError::StackUnderflow)
    );
    assert_eq!(stack, vec![-8]);
    assert_eq!(
        Operation::Push(Value::Dice(2, 6)).evaluate_with_rolls(&mut stack, &[6]),
        Err(EvalError::OutOfRolls)
    );
    assert_eq!(stack, vec![-8]);
}

#[test]
fn expression_keeps_its_operations() {
    let ops = vec![constant(1), constant(2), Operation::Add];
    let expression = Expression::new(ops.clone());
    assert_eq!(expression.operations(), &ops);
    assert_eq!(expression.evaluate(), Ok(3));
}

#[test]
fn parsed_expression_can_be_evaluated_again() {
    let expression = Expression::parse("2*3+4").unwrap();
    assert_eq!(expression.evaluate(), Ok(14));
    assert_eq!(expression.evaluate(), Ok(14));
}
