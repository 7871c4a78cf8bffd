use calculator::Calculator;
use calculator::ComputeOutcome;
use calculator::Message;

/// The numeric evaluation the engine's caller owes it: parse both
/// operands, apply the operator, guard the division, format with ten
/// digits after the decimal point.
fn evaluate(left: &str, sign: &str, right: &str) -> ComputeOutcome {
    let a: f64 = left.parse().unwrap();
    let b: f64 = right.parse().unwrap();
    match sign {
        "+" => ComputeOutcome::Value(format!("{:.10}", a + b)),
        "-" => ComputeOutcome::Value(format!("{:.10}", a - b)),
        "×" => ComputeOutcome::Value(format!("{:.10}", a * b)),
        "÷" => {
            if b.abs() <= f64::EPSILON {
                ComputeOutcome::DivideByZero
            } else {
                ComputeOutcome::Value(format!("{:.10}", a / b))
            }
        }
        _ => panic!("not an operator: {}", sign),
    }
}

fn apply(c: &mut Calculator, m: Message) -> String {
    let outcome = if c.computes_next(&m) {
        Some(evaluate(&c.left_text(), &c.sign_text(), &c.right_text()))
    } else {
        None
    };
    c.apply(m, outcome)
}

fn apply_all(c: &mut Calculator, ms: &[Message]) -> String {
    let mut out = c.display();
    for m in ms {
        out = apply(c, *m);
    }
    out
}

#[test]
fn digits_concatenate_on_left() {
    let mut c = Calculator::new();
    assert_eq!(c.left_text(), "0");
    apply(&mut c, Message::Num('5'));
    assert_eq!(c.left_text(), "5");
    apply(&mut c, Message::Num('0'));
    assert_eq!(c.left_text(), "50");
}

#[test]
fn leading_zeros_are_suppressed() {
    let mut c = Calculator::new();
    apply_all(&mut c, &[Message::Num('0'), Message::Num('0'), Message::Num('7')]);
    assert_eq!(c.left_text(), "7");
    let mut d = Calculator::new();
    apply_all(&mut d, &[Message::Num('0'), Message::Num('0')]);
    assert_eq!(d.left_text(), "0");
}

#[test]
fn dot_is_idempotent_on_left() {
    let mut c = Calculator::new();
    apply_all(&mut c, &[Message::Num('3'), Message::Dot, Message::Dot]);
    assert_eq!(c.left_text(), "3.");
}

#[test]
fn dot_seeds_empty_right_operand() {
    let mut c = Calculator::new();
    apply_all(&mut c, &[Message::Num('2'), Message::Sign('+'), Message::Dot, Message::Dot]);
    assert_eq!(c.right_text(), "0.");
}

#[test]
fn addition_computes_and_trims() {
    let mut c = Calculator::new();
    let shown = apply_all(
        &mut c,
        &[Message::Num('2'), Message::Sign('+'), Message::Num('3'), Message::Ans],
    );
    assert_eq!(c.left_text(), "5");
    assert!(c.result_shown());
    assert_eq!(shown, "5");
}

#[test]
fn subtraction_can_go_negative() {
    let mut c = Calculator::new();
    apply_all(&mut c, &[Message::Num('2'), Message::Sign('-'), Message::Num('3'), Message::Ans]);
    assert_eq!(c.left_text(), "-1");
}

#[test]
fn trim_strips_zeros_even_past_the_decimal_point() {
    // The trim runs one character at a time from the end and only stops
    // at a character other than '0' and '.', so a round result like
    // 10 × 10 = "100.0000000000" loses its own trailing zeros too.
    let mut c = Calculator::new();
    apply_all(
        &mut c,
        &[
            Message::Num('1'),
            Message::Num('0'),
            Message::Sign('×'),
            Message::Num('1'),
            Message::Num('0'),
            Message::Ans,
        ],
    );
    assert_eq!(c.left_text(), "1");
}

#[test]
fn trim_keeps_a_result_that_ends_in_a_nonzero_digit() {
    let mut c = Calculator::new();
    apply_all(
        &mut c,
        &[
            Message::Num('5'),
            Message::Num('1'),
            Message::Sign('+'),
            Message::Num('5'),
            Message::Num('1'),
            Message::Ans,
        ],
    );
    assert_eq!(c.left_text(), "102");
}

#[test]
fn division_keeps_ten_decimals() {
    let mut c = Calculator::new();
    apply_all(&mut c, &[Message::Num('1'), Message::Sign('÷'), Message::Num('3'), Message::Ans]);
    assert_eq!(c.left_text(), "0.3333333333");
}

#[test]
fn divide_by_zero_substitutes_the_message() {
    let mut c = Calculator::new();
    apply_all(&mut c, &[Message::Num('5'), Message::Sign('÷'), Message::Num('0'), Message::Ans]);
    assert_eq!(c.left_text(), "Can't divide by zero");
    assert!(c.result_shown());
}

#[test]
fn ans_without_right_operand_is_ignored() {
    let mut c = Calculator::new();
    let shown = apply_all(&mut c, &[Message::Num('2'), Message::Sign('+'), Message::Ans]);
    assert_eq!(shown, "2 + ");
    assert!(!c.result_shown());
}

#[test]
fn chaining_computes_the_intermediate_result() {
    let mut c = Calculator::new();
    let shown = apply_all(
        &mut c,
        &[Message::Num('2'), Message::Sign('+'), Message::Num('3'), Message::Sign('×')],
    );
    assert_eq!(c.left_text(), "5");
    assert_eq!(c.sign_text(), "×");
    assert_eq!(c.right_text(), "");
    assert!(!c.result_shown());
    assert_eq!(shown, "5 × ");
}

#[test]
fn operator_is_replaced_when_no_right_operand_started() {
    let mut c = Calculator::new();
    let shown = apply_all(&mut c, &[Message::Num('2'), Message::Sign('+'), Message::Sign('×')]);
    assert_eq!(shown, "2 × ");
}

#[test]
fn clear_resets_every_field() {
    let mut c = Calculator::new();
    apply_all(
        &mut c,
        &[Message::Num('9'), Message::Sign('+'), Message::Num('4'), Message::Ans, Message::Clear],
    );
    assert_eq!(c.left_text(), "0");
    assert_eq!(c.sign_text(), "");
    assert_eq!(c.right_text(), "");
    assert!(!c.result_shown());
    assert_eq!(c.display(), "0  ");
}

#[test]
fn clear_end_clears_only_a_started_right_operand() {
    let mut c = Calculator::new();
    apply_all(&mut c, &[Message::Num('8'), Message::Sign('-'), Message::Num('2'), Message::ClearEnd]);
    assert_eq!(c.left_text(), "8");
    assert_eq!(c.sign_text(), "-");
    assert_eq!(c.right_text(), "");
}

#[test]
fn clear_end_resets_when_no_right_operand_started() {
    let mut c = Calculator::new();
    apply_all(&mut c, &[Message::Num('8'), Message::Sign('-'), Message::ClearEnd]);
    assert_eq!(c.left_text(), "0");
    assert_eq!(c.sign_text(), "");
    assert!(!c.result_shown());
}

#[test]
fn backspace_on_zero_left_is_a_noop() {
    let mut c = Calculator::new();
    apply(&mut c, Message::Backspace);
    assert_eq!(c.left_text(), "0");
}

#[test]
fn backspace_converges_to_zero_and_stays() {
    let mut c = Calculator::new();
    apply_all(&mut c, &[Message::Num('1'), Message::Num('2'), Message::Num('3')]);
    for _ in 0..6 {
        apply(&mut c, Message::Backspace);
    }
    assert_eq!(c.left_text(), "0");
}

#[test]
fn backspace_may_empty_the_right_operand() {
    let mut c = Calculator::new();
    let shown = apply_all(
        &mut c,
        &[Message::Num('2'), Message::Sign('+'), Message::Num('3'), Message::Backspace],
    );
    assert_eq!(c.right_text(), "");
    assert_eq!(shown, "2 + ");
}

#[test]
fn neg_toggles_twice_to_the_original_text() {
    let mut c = Calculator::new();
    apply_all(&mut c, &[Message::Num('1'), Message::Num('2')]);
    apply(&mut c, Message::Neg);
    assert_eq!(c.left_text(), "-12");
    apply(&mut c, Message::Neg);
    assert_eq!(c.left_text(), "12");
}

#[test]
fn neg_toggles_the_right_operand_when_an_operator_is_pending() {
    let mut c = Calculator::new();
    apply_all(&mut c, &[Message::Num('7'), Message::Sign('+'), Message::Num('4')]);
    apply(&mut c, Message::Neg);
    assert_eq!(c.right_text(), "-4");
    apply(&mut c, Message::Neg);
    assert_eq!(c.right_text(), "4");
}

#[test]
fn neg_is_skipped_on_a_bare_zero() {
    let mut c = Calculator::new();
    apply(&mut c, Message::Neg);
    assert_eq!(c.left_text(), "0");
    apply(&mut c, Message::Dot);
    apply(&mut c, Message::Neg);
    assert_eq!(c.left_text(), "0.");
}

#[test]
fn neg_on_right_is_skipped_while_left_is_zero_dot() {
    let mut c = Calculator::new();
    apply_all(
        &mut c,
        &[Message::Num('0'), Message::Dot, Message::Sign('+'), Message::Num('4'), Message::Neg],
    );
    assert_eq!(c.right_text(), "4");
}

#[test]
fn neg_edits_the_shown_result() {
    let mut c = Calculator::new();
    apply_all(&mut c, &[Message::Num('2'), Message::Sign('+'), Message::Num('3'), Message::Ans]);
    let shown = apply(&mut c, Message::Neg);
    assert_eq!(c.left_text(), "-5");
    assert!(c.result_shown());
    assert_eq!(shown, "-5");
}

#[test]
fn digit_after_a_result_starts_a_fresh_calculation() {
    let mut c = Calculator::new();
    apply_all(&mut c, &[Message::Num('2'), Message::Sign('+'), Message::Num('3'), Message::Ans]);
    apply(&mut c, Message::Num('7'));
    assert_eq!(c.left_text(), "7");
    assert_eq!(c.sign_text(), "");
    assert_eq!(c.right_text(), "");
    assert!(!c.result_shown());
}

#[test]
fn display_shows_the_whole_expression_while_editing() {
    let mut c = Calculator::new();
    let shown = apply_all(&mut c, &[Message::Num('2'), Message::Sign('+'), Message::Num('3')]);
    assert_eq!(shown, "2 + 3");
}
