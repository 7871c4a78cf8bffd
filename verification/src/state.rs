use vstd::prelude::*;

verus! {

/// One user command, exactly one per button of the calculator.
#[derive(Debug, Clone, Copy)]
pub enum Message {
    /// A digit `'0'` to `'9'` for the operand under edit.
    Num(char),
    /// A binary operator: `'+'`, `'-'`, `'×'` or `'÷'`.
    Sign(char),
    /// Equals: compute the pending expression, if it is complete.
    Ans,
    /// Append a decimal point to the operand under edit.
    Dot,
    /// Toggle the leading minus of the operand under edit.
    Neg,
    /// Reset everything to the initial state.
    Clear,
    /// Clear the second operand; with none started, reset the calculation.
    ClearEnd,
    /// Remove the last character of the operand under edit.
    Backspace,
}

/// What the numeric evaluation of `left sign right` came to: the value
/// formatted with ten digits after the decimal point, or a divisor whose
/// magnitude was at or below machine epsilon.
pub enum ComputeOutcome {
    Value(String),
    DivideByZero,
}

/// The mathematical image of a `ComputeOutcome`.
pub ghost enum OutcomeView {
    Value(Seq<char>),
    DivideByZero,
}

/// The mathematical image of the calculator: the two operand texts, the
/// pending operator, and whether the text on show is a computed result.
#[verifier::ext_equal]
pub ghost struct CalcState {
    pub left: Seq<char>,
    pub sign: Seq<char>,
    pub right: Seq<char>,
    pub shadow: bool,
}

pub open spec fn is_digit_char(c: char) -> bool {
    '0' <= c && c <= '9'
}

pub open spec fn is_sign_char(c: char) -> bool {
    c == '+' || c == '-' || c == '×' || c == '÷'
}

/// The operand text `"0"`, the initial and the restored value of `left`.
pub open spec fn zero_text() -> Seq<char> {
    seq!['0']
}

/// The operand text `"0."`, exempt from sign toggling like `"0"` itself.
pub open spec fn zero_dot_text() -> Seq<char> {
    seq!['0', '.']
}

/// The text that takes the place of a result when the divisor is zero.
pub open spec fn error_text() -> Seq<char> {
    "Can't divide by zero"@
}

/// At most one decimal point occurs in the text.
pub open spec fn at_most_one_dot(s: Seq<char>) -> bool {
    forall|i: int, j: int|
        0 <= i < s.len() && 0 <= j < s.len() && s[i] == '.' && s[j] == '.' ==> i == j
}

/// A minus occurs only as the first character, if at all.
pub open spec fn minus_only_leading(s: Seq<char>) -> bool {
    forall|i: int| 1 <= i < s.len() ==> s[i] != '-'
}

/// What every operand text keeps: one dot at most, minus only in front.
pub open spec fn wf_operand(s: Seq<char>) -> bool {
    at_most_one_dot(s) && minus_only_leading(s)
}

impl Message {
    /// The payload a command may carry is a digit or an operator symbol.
    pub open spec fn wf(self) -> bool {
        match self {
            Message::Num(d) => is_digit_char(d),
            Message::Sign(c) => is_sign_char(c),
            _ => true,
        }
    }
}

impl View for ComputeOutcome {
    type V = OutcomeView;

    open spec fn view(&self) -> OutcomeView {
        match self {
            ComputeOutcome::Value(s) => OutcomeView::Value(s@),
            ComputeOutcome::DivideByZero => OutcomeView::DivideByZero,
        }
    }
}

impl OutcomeView {
    /// A value text is non-empty and shaped like an operand; ten-decimal
    /// formatting never produces anything else.
    pub open spec fn wf(self) -> bool {
        match self {
            OutcomeView::Value(v) => v.len() >= 1 && wf_operand(v),
            OutcomeView::DivideByZero => true,
        }
    }
}

impl ComputeOutcome {
    pub open spec fn wf(&self) -> bool {
        self@.wf()
    }
}

impl CalcState {
    /// The state at startup and after a full clear.
    pub open spec fn init() -> CalcState {
        CalcState { left: zero_text(), sign: Seq::empty(), right: Seq::empty(), shadow: false }
    }

    /// The invariant of every reachable state: `left` non-empty, both
    /// operands shaped like operands, the operator empty or one symbol.
    pub open spec fn wf(self) -> bool {
        &&& self.left.len() >= 1
        &&& wf_operand(self.left)
        &&& wf_operand(self.right)
        &&& (self.sign.len() == 0 || (self.sign.len() == 1 && is_sign_char(self.sign[0])))
    }

    /// Whether applying `m` here performs the compute step, so that the
    /// caller owes `update` the numeric outcome of `left sign right`.
    pub open spec fn computes(self, m: Message) -> bool {
        match m {
            Message::Ans => self.sign.len() > 0 && self.left.len() > 0 && self.right.len() > 0,
            Message::Sign(_) => self.sign.len() > 0 && !self.shadow && self.right.len() > 0,
            _ => false,
        }
    }

    /// The text on show: the result alone after a compute, else
    /// `left sign right` with single spaces between the three parts.
    pub open spec fn display(self) -> Seq<char> {
        if self.shadow {
            self.left
        } else {
            self.left + seq![' '] + self.sign + seq![' '] + self.right
        }
    }
}

/// A digit appended to an operand, with a bare `"0"` replaced instead.
pub open spec fn digit_entry(operand: Seq<char>, d: char) -> Seq<char> {
    if operand == zero_text() {
        seq![d]
    } else {
        operand.push(d)
    }
}

/// The leading minus toggled: prepended when absent, else the first
/// character removed.
pub open spec fn toggled(operand: Seq<char>) -> Seq<char> {
    if operand.contains('-') {
        operand.drop_first()
    } else {
        seq!['-'] + operand
    }
}

/// Toggling as applied to `left`, which is restored to `"0"` rather than
/// left empty.
pub open spec fn toggled_left(operand: Seq<char>) -> Seq<char> {
    if toggled(operand).len() == 0 {
        zero_text()
    } else {
        toggled(operand)
    }
}

/// Trailing `'0'` and `'.'` characters stripped one at a time from the
/// end, stopping at the first other character or at length one.
pub open spec fn spec_trim(s: Seq<char>) -> Seq<char>
    decreases s.len(),
{
    if s.len() <= 1 {
        s
    } else if s.last() == '0' || s.last() == '.' {
        spec_trim(s.drop_last())
    } else {
        s
    }
}

/// The compute step applied to its outcome: the trimmed value text, or
/// the divide-by-zero message, becomes `left`, and the result is on show.
pub open spec fn spec_calculate(s: CalcState, o: OutcomeView) -> CalcState {
    match o {
        OutcomeView::Value(v) => CalcState { left: spec_trim(v), shadow: true, ..s },
        OutcomeView::DivideByZero => CalcState { left: error_text(), shadow: true, ..s },
    }
}

/// The transition relation of the calculator: the state after command `m`,
/// where `o` is the numeric outcome of the pending expression whenever
/// `s.computes(m)` holds, and is ignored otherwise.
pub open spec fn spec_update(s: CalcState, m: Message, o: Option<OutcomeView>) -> CalcState {
    match m {
        Message::Num(d) => {
            if s.sign.len() == 0 {
                CalcState { left: digit_entry(s.left, d), ..s }
            } else if s.shadow {
                CalcState { left: seq![d], sign: Seq::empty(), right: Seq::empty(), shadow: false }
            } else {
                CalcState { right: digit_entry(s.right, d), ..s }
            }
        },
        Message::Sign(c) => {
            if s.sign.len() == 0 {
                CalcState { sign: seq![c], ..s }
            } else {
                let mid = if !s.shadow && s.right.len() > 0 {
                    match o {
                        Some(oc) => spec_calculate(s, oc),
                        None => s,
                    }
                } else {
                    s
                };
                CalcState { sign: seq![c], right: Seq::empty(), shadow: false, ..mid }
            }
        },
        Message::Ans => {
            if s.sign.len() > 0 && s.left.len() > 0 && s.right.len() > 0 {
                match o {
                    Some(oc) => spec_calculate(s, oc),
                    None => s,
                }
            } else {
                s
            }
        },
        Message::Dot => {
            if s.sign.len() == 0 && !s.left.contains('.') {
                CalcState { left: s.left.push('.'), ..s }
            } else if s.sign.len() > 0 && !s.right.contains('.') {
                CalcState {
                    right: if s.right.len() == 0 {
                        zero_dot_text()
                    } else {
                        s.right.push('.')
                    },
                    ..s
                }
            } else {
                s
            }
        },
        Message::Neg => {
            if s.sign.len() == 0 {
                if s.left != zero_text() && s.left != zero_dot_text() {
                    CalcState { left: toggled_left(s.left), ..s }
                } else {
                    s
                }
            } else if s.shadow {
                if s.left != zero_text() {
                    CalcState { left: toggled_left(s.left), ..s }
                } else {
                    s
                }
            } else {
                if s.right != zero_text() && s.left != zero_dot_text() {
                    CalcState { right: toggled(s.right), ..s }
                } else {
                    s
                }
            }
        },
        Message::Clear => CalcState::init(),
        Message::ClearEnd => {
            if s.right.len() == 0 {
                CalcState { left: zero_text(), sign: Seq::empty(), shadow: false, ..s }
            } else {
                CalcState { right: Seq::empty(), ..s }
            }
        },
        Message::Backspace => {
            if s.sign.len() == 0 {
                CalcState {
                    left: if s.left.len() <= 1 {
                        zero_text()
                    } else {
                        s.left.drop_last()
                    },
                    ..s
                }
            } else {
                CalcState {
                    right: if s.right.len() == 0 {
                        s.right
                    } else {
                        s.right.drop_last()
                    },
                    ..s
                }
            }
        },
    }
}

/// The mathematical image of an optional outcome, as `update` receives it.
pub open spec fn outcome_of(o: Option<ComputeOutcome>) -> Option<OutcomeView> {
    match o {
        Some(oc) => Some(oc@),
        None => None,
    }
}

/// Dropping the last character keeps an operand well shaped.
proof fn lemma_drop_last_wf(s: Seq<char>)
    requires
        s.len() >= 1,
        wf_operand(s),
    ensures
        wf_operand(s.drop_last()),
{
    let t = s.drop_last();
    assert forall|i: int, j: int|
        0 <= i < t.len() && 0 <= j < t.len() && t[i] == '.' && t[j] == '.' implies i == j by {
        assert(s[i] == '.');
        assert(s[j] == '.');
    }
    assert forall|i: int| 1 <= i < t.len() implies t[i] != '-' by {
        assert(s[i] != '-');
    }
}

/// Trimming keeps an operand well shaped and non-empty.
pub proof fn lemma_trim_wf(s: Seq<char>)
    requires
        s.len() >= 1,
        wf_operand(s),
    ensures
        spec_trim(s).len() >= 1,
        wf_operand(spec_trim(s)),
    decreases s.len(),
{
    if s.len() <= 1 {
    } else if s.last() == '0' || s.last() == '.' {
        lemma_drop_last_wf(s);
        lemma_trim_wf(s.drop_last());
    }
}

/// The divide-by-zero message is itself a well-shaped, non-empty operand.
pub proof fn lemma_error_text_wf()
    ensures
        error_text().len() >= 1,
        wf_operand(error_text()),
{
    reveal_strlit("Can't divide by zero");
    assert forall|i: int| 0 <= i < error_text().len() implies error_text()[i] != '.'
        && error_text()[i] != '-' by {
    }
    assert(at_most_one_dot(error_text()));
    assert(minus_only_leading(error_text()));
}

/// Appending a character other than dot and minus keeps an operand well
/// shaped.
pub proof fn lemma_push_wf(s: Seq<char>, c: char)
    requires
        wf_operand(s),
        c != '.',
        c != '-',
    ensures
        wf_operand(s.push(c)),
{
    let t = s.push(c);
    assert forall|i: int, j: int|
        0 <= i < t.len() && 0 <= j < t.len() && t[i] == '.' && t[j] == '.' implies i == j by {
        assert(i < s.len() && j < s.len());
        assert(s[i] == '.');
        assert(s[j] == '.');
    }
    assert forall|i: int| 1 <= i < t.len() implies t[i] != '-' by {
        if i < s.len() {
            assert(s[i] != '-');
        }
    }
}

/// Appending the first dot keeps an operand well shaped.
pub proof fn lemma_push_dot_wf(s: Seq<char>)
    requires
        wf_operand(s),
        !s.contains('.'),
    ensures
        wf_operand(s.push('.')),
{
    let t = s.push('.');
    assert forall|i: int, j: int|
        0 <= i < t.len() && 0 <= j < t.len() && t[i] == '.' && t[j] == '.' implies i == j by {
        if i < s.len() {
            assert(s[i] == '.');
        }
        if j < s.len() {
            assert(s[j] == '.');
        }
    }
    assert forall|i: int| 1 <= i < t.len() implies t[i] != '-' by {
        if i < s.len() {
            assert(s[i] != '-');
        }
    }
}

/// Toggling the leading minus keeps an operand well shaped; toggling
/// `left` also keeps it non-empty.
pub proof fn lemma_toggled_wf(s: Seq<char>)
    requires
        wf_operand(s),
    ensures
        wf_operand(toggled(s)),
        wf_operand(toggled_left(s)),
        toggled_left(s).len() >= 1,
{
    if s.contains('-') {
        let t = s.drop_first();
        assert forall|i: int, j: int|
            0 <= i < t.len() && 0 <= j < t.len() && t[i] == '.' && t[j] == '.' implies i == j by {
            assert(s[i + 1] == '.');
            assert(s[j + 1] == '.');
        }
        assert forall|i: int| 1 <= i < t.len() implies t[i] != '-' by {
            assert(s[i + 1] != '-');
        }
    } else {
        let t = seq!['-'] + s;
        assert forall|i: int, j: int|
            0 <= i < t.len() && 0 <= j < t.len() && t[i] == '.' && t[j] == '.' implies i == j by {
            assert(t[0] == '-');
            assert(i >= 1 && j >= 1);
            assert(s[i - 1] == '.');
            assert(s[j - 1] == '.');
        }
        assert forall|i: int| 1 <= i < t.len() implies t[i] != '-' by {
            assert(t[i] == s[i - 1]);
            assert(!s.contains('-'));
            assert(s[i - 1] != '-');
        }
    }
    if toggled(s).len() == 0 {
        assert(toggled_left(s) == zero_text());
    }
}

/// A single digit is a well-shaped operand.
proof fn lemma_digit_seq_wf(d: char)
    requires
        is_digit_char(d),
    ensures
        wf_operand(seq![d]),
        seq![d].len() >= 1,
{
    assert(d != '.' && d != '-');
}

/// Entering a digit keeps an operand well shaped.
pub proof fn lemma_digit_entry_wf(s: Seq<char>, d: char)
    requires
        wf_operand(s),
        is_digit_char(d),
    ensures
        wf_operand(digit_entry(s, d)),
        digit_entry(s, d).len() >= 1,
{
    if s == zero_text() {
        lemma_digit_seq_wf(d);
    } else {
        assert(d != '.' && d != '-');
        lemma_push_wf(s, d);
    }
}

/// The empty text and the texts `"0"` and `"0."` are well shaped.
proof fn lemma_small_texts_wf()
    ensures
        wf_operand(Seq::<char>::empty()),
        wf_operand(zero_text()),
        wf_operand(zero_dot_text()),
{
}

/// The compute step preserves the state invariant whenever its outcome is
/// well shaped.
pub proof fn lemma_calculate_wf(s: CalcState, o: OutcomeView)
    requires
        s.wf(),
        o.wf(),
    ensures
        spec_calculate(s, o).wf(),
{
    match o {
        OutcomeView::Value(v) => {
            lemma_trim_wf(v);
        },
        OutcomeView::DivideByZero => {
            lemma_error_text_wf();
        },
    }
}

/// Every command preserves the state invariant; the outcome, when one is
/// given, must be well shaped.
pub proof fn lemma_update_wf(s: CalcState, m: Message, o: Option<OutcomeView>)
    requires
        s.wf(),
        m.wf(),
        o matches Some(oc) ==> oc.wf(),
    ensures
        spec_update(s, m, o).wf(),
{
    lemma_small_texts_wf();
    match m {
        Message::Num(d) => {
            lemma_digit_entry_wf(s.left, d);
            lemma_digit_entry_wf(s.right, d);
            lemma_digit_seq_wf(d);
        },
        Message::Sign(c) => {
            if s.sign.len() > 0 && !s.shadow && s.right.len() > 0 {
                match o {
                    Some(oc) => lemma_calculate_wf(s, oc),
                    None => {},
                }
            }
        },
        Message::Ans => {
            if s.sign.len() > 0 && s.left.len() > 0 && s.right.len() > 0 {
                match o {
                    Some(oc) => lemma_calculate_wf(s, oc),
                    None => {},
                }
            }
        },
        Message::Dot => {
            if s.sign.len() == 0 && !s.left.contains('.') {
                lemma_push_dot_wf(s.left);
            } else if s.sign.len() > 0 && !s.right.contains('.') {
                if s.right.len() > 0 {
                    lemma_push_dot_wf(s.right);
                }
            }
        },
        Message::Neg => {
            lemma_toggled_wf(s.left);
            lemma_toggled_wf(s.right);
        },
        Message::Clear => {
        },
        Message::ClearEnd => {
        },
        Message::Backspace => {
            if s.sign.len() == 0 {
                if s.left.len() > 1 {
                    lemma_drop_last_wf(s.left);
                }
            } else {
                if s.right.len() > 0 {
                    lemma_drop_last_wf(s.right);
                }
            }
        },
    }
}

} // verus!
