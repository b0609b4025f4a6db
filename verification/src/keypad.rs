//! The state of the calculator keypad: what each key does to the display, how
//! keys are classified for styling, and how the display is shown.
use vstd::prelude::*;
use vstd::string::StringExecFns;

use crate::calculator::CalcError;
use crate::lexer::{is_number_char, symbol_of, Symbol};
use crate::text::{pop_char, same_text};

verus! {

/// A key's role: a number key (digits and the point), an operator key (a binary
/// arithmetic operation) or a control key (editing the expression).
#[derive(Debug, Clone, Copy, PartialEq, Eq, Structural)]
pub enum KeyCategory {
    Number,
    Operator,
    Control,
}

/// The category of the key labelled `label`; the `=` key is styled on its own
/// and falls under no rule here.
pub open spec fn category_of(label: Seq<char>) -> KeyCategory {
    if label == "÷"@ || label == "×"@ || label == "−"@ || label == "+"@ || label == "%"@ || label
        == "^"@ {
        KeyCategory::Operator
    } else if label == "C"@ || label == "Del"@ || label == "("@ || label == ")"@ {
        KeyCategory::Control
    } else {
        KeyCategory::Number
    }
}

/// Classifies a key label.
pub fn categorize(label: &str) -> (r: KeyCategory)
    ensures
        r == category_of(label@),
{
    if same_text(label, "÷") || same_text(label, "×") || same_text(label, "−") || same_text(
        label,
        "+",
    ) || same_text(label, "%") || same_text(label, "^") {
        KeyCategory::Operator
    } else if same_text(label, "C") || same_text(label, "Del") || same_text(label, "(")
        || same_text(label, ")") {
        KeyCategory::Control
    } else {
        KeyCategory::Number
    }
}

/// The abstract state of the keypad.
pub struct KeypadState {
    /// The expression being typed, or the last result or error message.
    pub display: Seq<char>,
    /// The display shows an error message.
    pub error: bool,
    /// The display shows the result of `=`; the next key starts afresh.
    pub just_evaluated: bool,
}

/// The keypad after typing `s`: an error or a result is replaced, an expression
/// is extended.
pub open spec fn pushed(st: KeypadState, s: Seq<char>) -> KeypadState {
    KeypadState {
        display: if st.error || st.just_evaluated {
            s
        } else {
            st.display + s
        },
        error: false,
        just_evaluated: false,
    }
}

/// The keypad after `C`.
pub open spec fn cleared() -> KeypadState {
    KeypadState { display: seq![], error: false, just_evaluated: false }
}

/// The keypad after `Del`: an error is cleared, otherwise the last character goes.
pub open spec fn backspaced(st: KeypadState) -> KeypadState {
    if st.error {
        cleared()
    } else {
        KeypadState {
            display: if st.display.len() > 0 {
                st.display.drop_last()
            } else {
                st.display
            },
            error: st.error,
            just_evaluated: false,
        }
    }
}

/// The keypad after `=` with the evaluation's outcome: the result's text, or
/// the error message (`failed`). An empty display is left alone.
pub open spec fn evaluated(st: KeypadState, text: Seq<char>, failed: bool) -> KeypadState {
    if st.display.len() == 0 {
        st
    } else {
        KeypadState { display: text, error: failed, just_evaluated: true }
    }
}

/// The keypad after the key labelled `label`: `C` clears, `Del` deletes, the
/// operator glyphs `÷ × −` type `/ * -`, and any other label types itself.
pub open spec fn handled(st: KeypadState, label: Seq<char>) -> KeypadState {
    if label == "C"@ {
        cleared()
    } else if label == "Del"@ {
        backspaced(st)
    } else if label == "÷"@ {
        pushed(st, "/"@)
    } else if label == "×"@ {
        pushed(st, "*"@)
    } else if label == "−"@ {
        pushed(st, "-"@)
    } else {
        pushed(st, label)
    }
}

/// A character typed on the keyboard that goes into the expression: a digit or
/// one of `+ - * / % ^ ( ) .`.
pub open spec fn is_typed_input(c: char) -> bool {
    ('0' <= c <= '9') || c == '+' || c == '-' || c == '*' || c == '/' || c == '%' || c == '^'
        || c == '(' || c == ')' || c == '.'
}

/// How the display is drawn.
#[derive(Debug, Clone, Copy, PartialEq, Eq, Structural)]
pub enum DisplayTone {
    /// An error message.
    Error,
    /// The placeholder `0` of an empty display.
    Placeholder,
    /// An expression or a result.
    Normal,
}

/// `Del` undoes typing one character into an expression being edited.
pub proof fn lemma_backspace_undoes_push(st: KeypadState, c: char)
    requires
        !st.error,
        !st.just_evaluated,
    ensures
        backspaced(pushed(st, seq![c])) == st,
{
    assert((st.display + seq![c]).drop_last() =~= st.display);
}

/// The character that the operator key labelled `label` types.
pub open spec fn typed_operator(label: Seq<char>) -> char {
    if label == "÷"@ {
        '/'
    } else if label == "×"@ {
        '*'
    } else if label == "−"@ {
        '-'
    } else {
        label[0]
    }
}

/// The characters of the key labels.
proof fn lemma_key_labels()
    ensures
        "÷"@ == seq!['÷'],
        "×"@ == seq!['×'],
        "−"@ == seq!['−'],
        "+"@ == seq!['+'],
        "%"@ == seq!['%'],
        "^"@ == seq!['^'],
        "/"@ == seq!['/'],
        "*"@ == seq!['*'],
        "-"@ == seq!['-'],
        "C"@ == seq!['C'],
        "Del"@ == seq!['D', 'e', 'l'],
{
    reveal_strlit("÷");
    reveal_strlit("×");
    reveal_strlit("−");
    reveal_strlit("+");
    reveal_strlit("%");
    reveal_strlit("^");
    reveal_strlit("/");
    reveal_strlit("*");
    reveal_strlit("-");
    reveal_strlit("C");
    reveal_strlit("Del");
    assert("÷"@ =~= seq!['÷']);
    assert("×"@ =~= seq!['×']);
    assert("−"@ =~= seq!['−']);
    assert("+"@ =~= seq!['+']);
    assert("%"@ =~= seq!['%']);
    assert("^"@ =~= seq!['^']);
    assert("/"@ =~= seq!['/']);
    assert("*"@ =~= seq!['*']);
    assert("-"@ =~= seq!['-']);
    assert("C"@ =~= seq!['C']);
    assert("Del"@ =~= seq!['D', 'e', 'l']);
}

/// Every operator key types one character that the calculator reads as a
/// binary operator symbol.
pub proof fn lemma_operator_keys_type_operators(st: KeypadState, label: Seq<char>)
    requires
        category_of(label) == KeyCategory::Operator,
    ensures
        handled(st, label) == pushed(st, seq![typed_operator(label)]),
        symbol_of(typed_operator(label)) is Some,
        symbol_of(typed_operator(label)) != Some(Symbol::LParen),
        symbol_of(typed_operator(label)) != Some(Symbol::RParen),
{
    lemma_key_labels();
    assert(label.len() == 1);
    assert(label[0] != 'C');
    assert(label != "C"@ && label != "Del"@);
    if label != "÷"@ && label != "×"@ && label != "−"@ {
        assert(label =~= seq![label[0]]);
    }
}

/// What each key does, whatever the state: `C` empties the display and forgets
/// any error or result; `Del` drops the last character of an expression (and
/// clears an error); `÷ × −` type `/ * -`; any other label types itself. Typing
/// replaces an error or a result and extends an expression.
pub proof fn lemma_keys(st: KeypadState, label: Seq<char>)
    ensures
        handled(st, "C"@) == (KeypadState { display: Seq::empty(), error: false, just_evaluated: false }),
        handled(st, "Del"@) == (KeypadState {
            display: if st.error {
                Seq::empty()
            } else if st.display.len() > 0 {
                st.display.take(st.display.len() - 1)
            } else {
                st.display
            },
            error: false,
            just_evaluated: false,
        }),
        handled(st, "÷"@) == (KeypadState {
            display: if st.error || st.just_evaluated {
                seq!['/']
            } else {
                st.display.push('/')
            },
            error: false,
            just_evaluated: false,
        }),
        handled(st, "×"@) == (KeypadState {
            display: if st.error || st.just_evaluated {
                seq!['*']
            } else {
                st.display.push('*')
            },
            error: false,
            just_evaluated: false,
        }),
        handled(st, "−"@) == (KeypadState {
            display: if st.error || st.just_evaluated {
                seq!['-']
            } else {
                st.display.push('-')
            },
            error: false,
            just_evaluated: false,
        }),
        label != "C"@ && label != "Del"@ && label != "÷"@ && label != "×"@ && label != "−"@
            ==> handled(st, label) == (KeypadState {
            display: if st.error || st.just_evaluated {
                label
            } else {
                st.display + label
            },
            error: false,
            just_evaluated: false,
        }),
{
    lemma_key_labels();
    assert("C"@ != "Del"@);
    assert("÷"@ != "C"@ && "÷"@ != "Del"@) by {
        assert("÷"@[0] != "C"@[0]);
    }
    assert("×"@ != "C"@ && "×"@ != "Del"@ && "×"@ != "÷"@) by {
        assert("×"@[0] != "C"@[0]);
        assert("×"@[0] != "÷"@[0]);
    }
    assert("−"@ != "C"@ && "−"@ != "Del"@ && "−"@ != "÷"@ && "−"@ != "×"@) by {
        assert("−"@[0] != "C"@[0]);
        assert("−"@[0] != "÷"@[0]);
        assert("−"@[0] != "×"@[0]);
    }
    assert(seq!['/'] =~= "/"@);
    assert(st.display.push('/') =~= st.display + "/"@);
    assert(st.display.push('*') =~= st.display + "*"@);
    assert(st.display.push('-') =~= st.display + "-"@);
    if !st.error && st.display.len() > 0 {
        assert(st.display.drop_last() =~= st.display.take(st.display.len() - 1));
    }
}

/// After `=` on an expression, the display shows the outcome, and the next
/// typed key starts a new expression instead of extending the outcome.
pub proof fn lemma_result_is_replaced(st: KeypadState, text: Seq<char>, failed: bool, label: Seq<char>)
    requires
        st.display.len() > 0,
        label != "C"@ && label != "Del"@ && label != "÷"@ && label != "×"@ && label != "−"@,
    ensures
        evaluated(st, text, failed).display == text,
        evaluated(st, text, failed).error == failed,
        handled(evaluated(st, text, failed), label).display == label,
{
    lemma_keys(evaluated(st, text, failed), label);
}

/// `=` on an empty display changes nothing.
pub proof fn lemma_evaluate_empty(st: KeypadState, text: Seq<char>, failed: bool)
    requires
        st.display.len() == 0,
    ensures
        evaluated(st, text, failed) == st,
{
}

/// The keyboard lets through exactly the characters that the tokenizer reads
/// as part of a token: digits, the decimal point and the operator and
/// parenthesis symbols.
pub proof fn lemma_typed_input_is_token_text(c: char)
    ensures
        is_typed_input(c) <==> (is_number_char(c) || symbol_of(c) is Some),
{
}

/// The text shown for a keypad state: the display, or `0` when it is empty.
pub open spec fn shown_text(st: KeypadState) -> Seq<char> {
    if st.display.len() == 0 {
        "0"@
    } else {
        st.display
    }
}

/// How the display of a keypad state is drawn.
pub open spec fn tone_of(st: KeypadState) -> DisplayTone {
    if st.error {
        DisplayTone::Error
    } else if st.display.len() == 0 {
        DisplayTone::Placeholder
    } else {
        DisplayTone::Normal
    }
}

/// How keys show: after `C` the placeholder `0` is shown muted; a failed `=`
/// shows its message as an error; typing a label shows normal text that ends
/// with that label.
pub proof fn lemma_keys_show(st: KeypadState, text: Seq<char>, label: Seq<char>)
    ensures
        shown_text(handled(st, "C"@)) == "0"@,
        tone_of(handled(st, "C"@)) == DisplayTone::Placeholder,
        st.display.len() > 0 && text.len() > 0 ==> shown_text(evaluated(st, text, true)) == text
            && tone_of(evaluated(st, text, true)) == DisplayTone::Error,
        st.display.len() > 0 && text.len() > 0 ==> tone_of(evaluated(st, text, false))
            == DisplayTone::Normal,
        label.len() > 0 && label != "C"@ && label != "Del"@ && label != "÷"@ && label != "×"@
            && label != "−"@ ==> tone_of(handled(st, label)) == DisplayTone::Normal
            && shown_text(handled(st, label)).len() >= label.len() && shown_text(
            handled(st, label),
        ).skip(shown_text(handled(st, label)).len() - label.len()) == label,
{
    lemma_keys(st, label);
    if label.len() > 0 && label != "C"@ && label != "Del"@ && label != "÷"@ && label != "×"@
        && label != "−"@ {
        let d = handled(st, label).display;
        if !(st.error || st.just_evaluated) {
            assert(d.skip(d.len() - label.len()) =~= label);
        } else {
            assert(d.skip(0) =~= label);
        }
    }
}

/// The keys' categories: `÷ × − + % ^` are operator keys, `C`, `Del` and the
/// parentheses are control keys, and the digits and the decimal point are
/// number keys.
pub proof fn lemma_key_categories(d: char)
    requires
        '0' <= d <= '9',
    ensures
        category_of("÷"@) == KeyCategory::Operator,
        category_of("×"@) == KeyCategory::Operator,
        category_of("−"@) == KeyCategory::Operator,
        category_of("+"@) == KeyCategory::Operator,
        category_of("%"@) == KeyCategory::Operator,
        category_of("^"@) == KeyCategory::Operator,
        category_of("C"@) == KeyCategory::Control,
        category_of("Del"@) == KeyCategory::Control,
        category_of(seq!['(']) == KeyCategory::Control,
        category_of(seq![')']) == KeyCategory::Control,
        category_of(seq![d]) == KeyCategory::Number,
        category_of(seq!['.']) == KeyCategory::Number,
{
    lemma_key_labels();
    reveal_strlit("(");
    reveal_strlit(")");
    assert("("@ =~= seq!['(']);
    assert(")"@ =~= seq![')']);
    let ops = seq!["÷"@, "×"@, "−"@, "+"@, "%"@, "^"@];
    assert forall|i: int| 0 <= i < 6 implies #[trigger] ops[i] != "C"@ && ops[i] != seq!['(']
        && ops[i] != seq![')'] by {
        assert(ops[i].len() == 1);
        assert(ops[i][0] != 'C' && ops[i][0] != '(' && ops[i][0] != ')');
    }
    assert(ops[0] == "÷"@ && ops[1] == "×"@ && ops[2] == "−"@ && ops[3] == "+"@ && ops[4] == "%"@
        && ops[5] == "^"@);
    let labels = seq![seq![d], seq!['.']];
    assert forall|i: int| 0 <= i < 2 implies {
        let l = #[trigger] labels[i];
        l != "÷"@ && l != "×"@ && l != "−"@ && l != "+"@ && l != "%"@ && l != "^"@ && l != "C"@
            && l != "Del"@ && l != "("@ && l != ")"@
    } by {
        let l = labels[i];
        assert(l.len() == 1);
        assert(l[0] != "÷"@[0] && l[0] != "×"@[0] && l[0] != "−"@[0] && l[0] != "+"@[0] && l[0]
            != "%"@[0] && l[0] != "^"@[0] && l[0] != "C"@[0] && l[0] != "("@[0] && l[0] != ")"@[0]);
    }
    assert(labels[0] == seq![d]);
    assert(labels[1] == seq!['.']);
}

/// Moving a colour channel: it stays put for a zero shift, never moves against
/// the shift, moves exactly by the shift while that stays within `0..=255`,
/// and stops at the nearest end otherwise.
pub proof fn lemma_shifted(v: u8, delta: i16)
    ensures
        shifted(v, 0) == v,
        0 <= v + delta <= 255 ==> shifted(v, delta) == v + delta,
        v + delta < 0 ==> shifted(v, delta) == 0,
        v + delta > 255 ==> shifted(v, delta) == 255,
        delta >= 0 ==> shifted(v, delta) >= v,
        delta <= 0 ==> shifted(v, delta) <= v,
{
}

/// The calculator keypad.
pub struct CalculatorApp {
    pub display: String,
    pub error: bool,
    /// True right after '=' — the next digit starts a fresh expression
    /// instead of appending to the shown result.
    pub just_evaluated: bool,
}

impl View for CalculatorApp {
    type V = KeypadState;

    open spec fn view(&self) -> KeypadState {
        KeypadState { display: self.display@, error: self.error, just_evaluated: self.just_evaluated }
    }
}

impl Default for CalculatorApp {
    fn default() -> (r: CalculatorApp)
        ensures
            r@ == cleared(),
    {
        CalculatorApp { display: String::new(), error: false, just_evaluated: false }
    }
}

impl CalculatorApp {
    /// Types `s`.
    pub fn push(&mut self, s: &str)
        ensures
            final(self)@ == pushed(old(self)@, s@),
    {
        if self.error || self.just_evaluated {
            self.display = String::new();
        }
        self.error = false;
        self.just_evaluated = false;
        self.display.append(s);
        proof {
            if old(self).error || old(self).just_evaluated {
                assert(self.display@ =~= s@);
            }
        }
    }

    /// Empties the display and forgets any error or result.
    pub fn clear(&mut self)
        ensures
            final(self)@ == cleared(),
    {
        self.display = String::new();
        self.error = false;
        self.just_evaluated = false;
    }

    /// Deletes the last character, or clears an error.
    pub fn backspace(&mut self)
        ensures
            final(self)@ == backspaced(old(self)@),
    {
        if self.error {
            self.clear();
            return ;
        }
        let _ = pop_char(&mut self.display);
        self.just_evaluated = false;
    }

    /// Shows the outcome of evaluating the display: the text of the result, or
    /// the error. Nothing happens while the display is empty.
    ///
    /// `outcome` is the evaluation of the current display.
    pub fn evaluate(&mut self, outcome: Result<String, CalcError>)
        ensures
            final(self)@ == match outcome {
                Ok(text) => evaluated(old(self)@, text@, false),
                Err(e) => evaluated(old(self)@, e.0@, true),
            },
    {
        if self.display.as_str().is_empty() {
            return ;
        }
        match outcome {
            Ok(text) => {
                self.display = text;
                self.error = false;
            },
            Err(e) => {
                self.display = e.0;
                self.error = true;
            },
        }
        self.just_evaluated = true;
    }

    /// Applies the key labelled `label`.
    pub fn handle_label(&mut self, label: &str)
        ensures
            final(self)@ == handled(old(self)@, label@),
    {
        if same_text(label, "C") {
            self.clear();
        } else if same_text(label, "Del") {
            self.backspace();
        } else if same_text(label, "÷") {
            self.push("/");
        } else if same_text(label, "×") {
            self.push("*");
        } else if same_text(label, "−") {
            self.push("-");
        } else {
            self.push(label);
        }
    }

    /// The text shown: the display, or `0` when it is empty.
    pub fn display_text(&self) -> (r: &str)
        ensures
            r@ == shown_text(self@),
    {
        if self.display.as_str().is_empty() {
            "0"
        } else {
            self.display.as_str()
        }
    }

    /// How the display is drawn: an error, the placeholder, or normal text.
    pub fn display_tone(&self) -> (r: DisplayTone)
        ensures
            r == tone_of(self@),
    {
        if self.error {
            DisplayTone::Error
        } else if self.display.as_str().is_empty() {
            DisplayTone::Placeholder
        } else {
            DisplayTone::Normal
        }
    }
}

/// Whether a character typed on the keyboard goes into the expression.
pub fn is_input_char(c: char) -> (r: bool)
    ensures
        r == is_typed_input(c),
{
    ('0' <= c && c <= '9') || c == '+' || c == '-' || c == '*' || c == '/' || c == '%' || c
        == '^' || c == '(' || c == ')' || c == '.'
}

/// A colour as its red, green and blue channels.
#[derive(Debug, Clone, Copy, PartialEq, Eq, Structural)]
pub struct Rgb {
    pub r: u8,
    pub g: u8,
    pub b: u8,
}

/// A channel moved by `delta` and held within `0..=255`.
pub open spec fn shifted(v: u8, delta: i16) -> u8 {
    if v + delta < 0 {
        0
    } else if v + delta > 255 {
        255
    } else {
        (v + delta) as u8
    }
}

/// Moves a channel by `delta`, held within `0..=255`.
fn shift_channel(v: u8, delta: i16) -> (r: u8)
    requires
        delta <= i16::MAX - 255,
    ensures
        r == shifted(v, delta),
{
    let moved: i16 = v as i16 + delta;
    if moved < 0 {
        0
    } else if moved > 255 {
        255
    } else {
        moved as u8
    }
}

/// Shifts each channel of `c` by `delta`, held within `0..=255`.
pub fn tint(c: Rgb, delta: i16) -> (r: Rgb)
    requires
        delta <= i16::MAX - 255,
    ensures
        r == (Rgb { r: shifted(c.r, delta), g: shifted(c.g, delta), b: shifted(c.b, delta) }),
{
    Rgb { r: shift_channel(c.r, delta), g: shift_channel(c.g, delta), b: shift_channel(c.b, delta) }
}

} // verus!
