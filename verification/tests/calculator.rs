use rust_calculator::calculator::{compile, CalcError, Program};
use rust_calculator::parser::{Step, SyntaxError};

/// Runs a compiled program on `f64` values, as the calculator front ends do.
fn run(program: &Program) -> Result<f64, CalcError> {
    let mut stack: Vec<f64> = Vec::new();
    for step in &program.steps {
        match *step {
            Step::Push(start, end) => {
                let value: f64 = program.literal_text(start, end).parse().unwrap();
                stack.push(value);
            }
            Step::Neg => {
                let a = stack.pop().unwrap();
                stack.push(-a);
            }
            binary => {
                let b = stack.pop().unwrap();
                let a = stack.pop().unwrap();
                let value = match binary {
                    Step::Add => a + b,
                    Step::Sub => a - b,
                    Step::Mul => a * b,
                    Step::Div => {
                        if b == 0.0 {
                            return Err(CalcError::division_by_zero());
                        }
                        a / b
                    }
                    Step::Rem => {
                        if b == 0.0 {
                            return Err(CalcError::division_by_zero());
                        }
                        a % b
                    }
                    _ => a.powf(b),
                };
                stack.push(value);
            }
        }
    }
    if let Some(error) = program.halt_error() {
        return Err(error);
    }
    Ok(stack.pop().unwrap())
}

fn evaluate(input: &str) -> Result<f64, CalcError> {
    let program = compile(input)?;
    run(&program)
}

fn eval(s: &str) -> f64 {
    evaluate(s).unwrap()
}

fn error_of(s: &str) -> String {
    match evaluate(s) {
        Ok(v) => panic!("{s} evaluated to {v}"),
        Err(e) => e.0,
    }
}

fn steps_of(s: &str) -> Vec<Step> {
    compile(s).unwrap().steps
}

#[test]
fn basic_ops() {
    assert_eq!(eval("2 + 3"), 5.0);
    assert_eq!(eval("10 - 4"), 6.0);
    assert_eq!(eval("6 * 7"), 42.0);
    assert_eq!(eval("8 / 2"), 4.0);
    assert_eq!(eval("7 % 3"), 1.0);
}

#[test]
fn precedence() {
    assert_eq!(eval("2 + 3 * 4"), 14.0);
    assert_eq!(eval("(2 + 3) * 4"), 20.0);
    assert_eq!(eval("2 * 3 + 4 * 5"), 26.0);
}

#[test]
fn power_right_assoc() {
    assert_eq!(eval("2 ^ 3"), 8.0);
    assert_eq!(eval("2 ^ 3 ^ 2"), 512.0); // 2^(3^2), not (2^3)^2
}

#[test]
fn unary_minus() {
    assert_eq!(eval("-5 + 3"), -2.0);
    assert_eq!(eval("-(2 + 3)"), -5.0);
    assert_eq!(eval("3 - -2"), 5.0);
}

#[test]
fn decimals() {
    assert_eq!(eval("1.5 + 2.25"), 3.75);
}

#[test]
fn division_by_zero() {
    assert!(evaluate("1 / 0").is_err());
}

#[test]
fn invalid_syntax() {
    assert!(evaluate("2 + ").is_err());
    assert!(evaluate("(2 + 3").is_err());
    assert!(evaluate("2 + + ").is_err());
    assert!(evaluate("2 3").is_err());
}

#[test]
fn multiplication_binds_tighter_than_addition_in_the_program() {
    assert_eq!(
        steps_of("2 + 3 * 4"),
        vec![Step::Push(0, 1), Step::Push(4, 5), Step::Push(8, 9), Step::Mul, Step::Add]
    );
}

#[test]
fn subtraction_groups_to_the_left() {
    assert_eq!(eval("10 - 4 - 3"), 3.0);
    assert_eq!(
        steps_of("10-4-3"),
        vec![Step::Push(0, 2), Step::Push(3, 4), Step::Sub, Step::Push(5, 6), Step::Sub]
    );
}

#[test]
fn division_groups_to_the_left() {
    assert_eq!(eval("64 / 4 / 2"), 8.0);
}

#[test]
fn power_groups_to_the_right_in_the_program() {
    assert_eq!(
        steps_of("2^3^2"),
        vec![Step::Push(0, 1), Step::Push(2, 3), Step::Push(4, 5), Step::Pow, Step::Pow]
    );
}

#[test]
fn unary_minus_applies_to_the_base_of_a_power() {
    assert_eq!(eval("-2 ^ 2"), 4.0);
    assert_eq!(
        steps_of("-2^2"),
        vec![Step::Push(1, 2), Step::Neg, Step::Push(3, 4), Step::Pow]
    );
}

#[test]
fn unary_plus_emits_nothing() {
    assert_eq!(eval("+4"), 4.0);
    assert_eq!(steps_of("++4"), vec![Step::Push(2, 3)]);
}

#[test]
fn remainder_keeps_the_sign_of_the_dividend() {
    assert_eq!(eval("-7 % 3"), -1.0);
}

#[test]
fn decimal_forms() {
    assert_eq!(eval("1."), 1.0);
    assert_eq!(eval(".5"), 0.5);
    assert_eq!(eval("007"), 7.0);
}

#[test]
fn white_space_is_skipped() {
    assert_eq!(eval("\t2 *\n( 1+1 )  "), 4.0);
    assert_eq!(eval("2\u{00A0}+\u{2003}2"), 4.0);
}

#[test]
fn empty_expression_message() {
    assert_eq!(error_of(""), "empty expression");
    assert_eq!(error_of("   "), "empty expression");
}

#[test]
fn unexpected_character_message() {
    assert_eq!(error_of("2 & 3"), "unexpected character '&'");
    assert_eq!(error_of("x"), "unexpected character 'x'");
}

#[test]
fn invalid_number_message() {
    assert_eq!(error_of("1.2.3 + 1"), "invalid number '1.2.3'");
    assert_eq!(error_of("2 * ."), "invalid number '.'");
}

#[test]
fn tokenizing_errors_come_before_syntax_errors() {
    assert_eq!(error_of("+ ) 1..2"), "invalid number '1..2'");
}

#[test]
fn syntax_error_messages() {
    assert_eq!(error_of("2 + "), "unexpected end of expression");
    assert_eq!(error_of("(2 + 3"), "expected ')'");
    assert_eq!(error_of("2 3"), "unexpected trailing input");
    assert_eq!(error_of("2 * )"), "unexpected token 'RParen'");
    assert_eq!(error_of("* 2"), "unexpected token 'Star'");
    assert_eq!(error_of("2 ^ ^ 3"), "unexpected token 'Caret'");
    assert_eq!(error_of("(2)(3)"), "unexpected trailing input");
}

#[test]
fn division_by_zero_message() {
    assert_eq!(error_of("1 / 0"), "division by zero");
    assert_eq!(error_of("5 % (2 - 2)"), "division by zero");
}

#[test]
fn arithmetic_before_a_syntax_error_runs_first() {
    // The division is complete before the trailing number is reached.
    assert_eq!(error_of("1 / 0 2"), "division by zero");
    let program = compile("1 / 0 2").unwrap();
    assert_eq!(program.halt, Some(SyntaxError::TrailingInput));
    // The syntax error comes first when the division is not complete.
    assert_eq!(error_of("1 / (0 2)"), "expected ')'");
}

#[test]
fn a_halted_program_keeps_the_steps_before_the_error() {
    let program = compile("3 * (4 +").unwrap();
    assert_eq!(program.steps, vec![Step::Push(0, 1), Step::Push(5, 6)]);
    assert_eq!(program.halt, Some(SyntaxError::UnexpectedEnd));
}

#[test]
fn literal_text_is_the_source_span() {
    let program = compile(" 12.50 ").unwrap();
    assert_eq!(program.steps, vec![Step::Push(1, 6)]);
    assert_eq!(program.literal_text(1, 6), "12.50");
}

#[test]
fn error_message_accessor() {
    let e = CalcError::empty_expression();
    assert_eq!(e.message(), "empty expression");
}

#[test]
fn white_space_only_separates_tokens() {
    let program = compile("1 2").unwrap();
    assert_eq!(program.steps, vec![Step::Push(0, 1)]);
    assert_eq!(program.halt, Some(SyntaxError::TrailingInput));
    assert_eq!(steps_of("12"), vec![Step::Push(0, 2)]);
    assert_eq!(steps_of("1 +2"), vec![Step::Push(0, 1), Step::Push(3, 4), Step::Add]);
}

#[test]
fn redundant_parentheses_and_unary_plus_change_nothing() {
    assert_eq!(steps_of("((2))*+3"), vec![Step::Push(2, 3), Step::Push(7, 8), Step::Mul]);
    assert_eq!(eval("((2 + 3))"), 5.0);
}

#[test]
fn tokenizing_error_passes_through_unchanged() {
    assert_eq!(error_of("(2 + 3) x"), "unexpected character 'x'");
    assert_eq!(error_of("2 3 4.4.4"), "invalid number '4.4.4'");
}
