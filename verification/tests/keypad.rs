use rust_calculator::calculator::CalcError;
use rust_calculator::keypad::{
    categorize, is_input_char, tint, CalculatorApp, DisplayTone, KeyCategory, Rgb,
};

#[test]
fn arithmetic_operators_are_operator_keys() {
    for label in ["÷", "×", "−", "+"] {
        assert_eq!(categorize(label), KeyCategory::Operator, "{label}");
    }
}

#[test]
fn percent_and_power_are_operator_keys() {
    // % and ^ are binary arithmetic operators just like the other four,
    // so they must not fall back to Control styling.
    assert_eq!(categorize("%"), KeyCategory::Operator);
    assert_eq!(categorize("^"), KeyCategory::Operator);
}

#[test]
fn non_arithmetic_actions_are_control_keys() {
    for label in ["C", "Del", "(", ")"] {
        assert_eq!(categorize(label), KeyCategory::Control, "{label}");
    }
}

#[test]
fn digits_and_decimal_point_are_number_keys() {
    for label in ["0", "1", "2", "3", "4", "5", "6", "7", "8", "9", "."] {
        assert_eq!(categorize(label), KeyCategory::Number, "{label}");
    }
}

#[test]
fn ascii_operators_other_than_plus_are_not_keypad_operators() {
    assert_eq!(categorize("-"), KeyCategory::Number);
    assert_eq!(categorize("*"), KeyCategory::Number);
}

fn typed(labels: &[&str]) -> CalculatorApp {
    let mut app = CalculatorApp::default();
    for label in labels {
        app.handle_label(label);
    }
    app
}

#[test]
fn keys_build_the_expression() {
    let app = typed(&["1", "2", "÷", "3", "×", "(", "4", "−", "5", ")", "+", "6", "%", "7", "^", "."]);
    assert_eq!(app.display, "12/3*(4-5)+6%7^.");
    assert!(!app.error);
    assert!(!app.just_evaluated);
}

#[test]
fn delete_removes_the_last_character() {
    let mut app = typed(&["1", "2", "3"]);
    app.handle_label("Del");
    assert_eq!(app.display, "12");
    app.backspace();
    app.backspace();
    app.backspace();
    assert_eq!(app.display, "");
}

#[test]
fn push_then_backspace_restores_the_display() {
    let mut app = typed(&["4", "+"]);
    app.push("7");
    app.backspace();
    assert_eq!(app.display, "4+");
}

#[test]
fn clear_empties_everything() {
    let mut app = typed(&["9", "9"]);
    app.evaluate(Ok("99".to_string()));
    app.handle_label("C");
    assert_eq!(app.display, "");
    assert!(!app.error);
    assert!(!app.just_evaluated);
}

#[test]
fn a_result_is_replaced_by_the_next_key() {
    let mut app = typed(&["2", "+", "3"]);
    app.evaluate(Ok("5".to_string()));
    assert_eq!(app.display, "5");
    assert!(app.just_evaluated);
    app.push("7");
    assert_eq!(app.display, "7");
    assert!(!app.just_evaluated);
}

#[test]
fn an_error_is_shown_and_then_replaced() {
    let mut app = typed(&["1", "÷", "0"]);
    app.evaluate(Err(CalcError::division_by_zero()));
    assert_eq!(app.display, "division by zero");
    assert!(app.error);
    assert_eq!(app.display_tone(), DisplayTone::Error);
    app.push("8");
    assert_eq!(app.display, "8");
    assert!(!app.error);
}

#[test]
fn delete_after_an_error_clears() {
    let mut app = typed(&["("]);
    app.evaluate(Err(CalcError::empty_expression()));
    app.backspace();
    assert_eq!(app.display, "");
    assert!(!app.error);
}

#[test]
fn delete_after_a_result_edits_it() {
    let mut app = typed(&["6"]);
    app.evaluate(Ok("42".to_string()));
    app.backspace();
    assert_eq!(app.display, "4");
    assert!(!app.just_evaluated);
}

#[test]
fn evaluating_an_empty_display_does_nothing() {
    let mut app = CalculatorApp::default();
    app.evaluate(Err(CalcError::empty_expression()));
    assert_eq!(app.display, "");
    assert!(!app.error);
    assert!(!app.just_evaluated);
}

#[test]
fn display_shows_zero_when_empty() {
    let mut app = CalculatorApp::default();
    assert_eq!(app.display_text(), "0");
    assert_eq!(app.display_tone(), DisplayTone::Placeholder);
    app.push("3");
    assert_eq!(app.display_text(), "3");
    assert_eq!(app.display_tone(), DisplayTone::Normal);
}

#[test]
fn keyboard_characters_that_enter_the_expression() {
    for c in "0123456789+-*/%^().".chars() {
        assert!(is_input_char(c), "{c}");
    }
    for c in "aZ =,x÷ \n".chars() {
        assert!(!is_input_char(c), "{c}");
    }
}

#[test]
fn tint_shifts_and_clamps_each_channel() {
    let c = Rgb { r: 47, g: 110, b: 250 };
    assert_eq!(tint(c, 18), Rgb { r: 65, g: 128, b: 255 });
    assert_eq!(tint(c, -16), Rgb { r: 31, g: 94, b: 234 });
    assert_eq!(tint(Rgb { r: 5, g: 0, b: 16 }, -16), Rgb { r: 0, g: 0, b: 0 });
}
