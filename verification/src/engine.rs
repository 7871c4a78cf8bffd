use vstd::prelude::*;

use crate::state::digit_entry;
use crate::state::lemma_error_text_wf;
use crate::state::lemma_trim_wf;
use crate::state::lemma_update_wf;
use crate::state::outcome_of;
use crate::state::spec_calculate;
use crate::state::spec_trim;
use crate::state::spec_update;
use crate::state::toggled;
use crate::state::toggled_left;
use crate::state::zero_dot_text;
use crate::state::zero_text;
use crate::state::CalcState;
use crate::state::ComputeOutcome;
use crate::state::Message;

verus! {

/// The calculator engine: the running two-operand expression, mutated in
/// place by one command at a time. Its mathematical image is a
/// [`CalcState`]; every method states its effect on that image.
pub struct Calculator {
    left: Vec<char>,
    sign: Vec<char>,
    right: Vec<char>,
    shadow: bool,
}

impl View for Calculator {
    type V = CalcState;

    closed spec fn view(&self) -> CalcState {
        CalcState { left: self.left@, sign: self.sign@, right: self.right@, shadow: self.shadow }
    }
}

/// Relies on std's `str::chars`, collected into a vector: the characters
/// of the string, in order.
#[verifier::external_body]
fn text_chars(s: &str) -> (r: Vec<char>)
    ensures
        r@ == s@,
{
    s.chars().collect()
}

/// Relies on std's `String` built from characters by `FromIterator`: the
/// same characters, in order.
#[verifier::external_body]
fn chars_string(v: &Vec<char>) -> (r: String)
    ensures
        r@ == v@,
{
    v.iter().collect()
}

/// Appends every character of `v` to `out`, in order.
fn append_chars(out: &mut Vec<char>, v: &Vec<char>)
    ensures
        final(out)@ == old(out)@ + v@,
{
    proof {
        assert(out@ =~= out@ + v@.subrange(0, 0));
    }
    let mut i: usize = 0;
    while i < v.len()
        invariant
            i <= v.len(),
            out@ == old(out)@ + v@.subrange(0, i as int),
        decreases v.len() - i,
    {
        out.push(v[i]);
        i = i + 1;
        proof {
            assert(out@ =~= old(out)@ + v@.subrange(0, i as int));
        }
    }
    proof {
        assert(out@ =~= old(out)@ + v@);
    }
}

/// Whether `v` holds the character `c` anywhere.
fn contains_char(v: &Vec<char>, c: char) -> (b: bool)
    ensures
        b == v@.contains(c),
{
    let mut i: usize = 0;
    while i < v.len()
        invariant
            i <= v.len(),
            forall|k: int| 0 <= k < i ==> v@[k] != c,
        decreases v.len() - i,
    {
        if v[i] == c {
            proof {
                assert(v@[i as int] == c);
            }
            return true;
        }
        i = i + 1;
    }
    false
}

/// Whether `v` holds exactly the text `"0"`.
fn is_zero(v: &Vec<char>) -> (b: bool)
    ensures
        b == (v@ == zero_text()),
{
    let b = v.len() == 1 && v[0] == '0';
    proof {
        if b {
            assert(v@ =~= zero_text());
        } else if v@ == zero_text() {
            assert(v@[0] == '0');
        }
    }
    b
}

/// Whether `v` holds exactly the text `"0."`.
fn is_zero_dot(v: &Vec<char>) -> (b: bool)
    ensures
        b == (v@ == zero_dot_text()),
{
    let b = v.len() == 2 && v[0] == '0' && v[1] == '.';
    proof {
        if b {
            assert(v@ =~= zero_dot_text());
        } else if v@ == zero_dot_text() {
            assert(v@[0] == '0');
            assert(v@[1] == '.');
        }
    }
    b
}

/// Replaces the whole text by the single character `c`.
fn set_single(v: &mut Vec<char>, c: char)
    ensures
        final(v)@ == seq![c],
{
    v.clear();
    v.push(c);
    proof {
        assert(v@ =~= seq![c]);
    }
}

/// Enters a digit: appended, except that a bare `"0"` is replaced.
fn enter_digit(v: &mut Vec<char>, d: char)
    ensures
        final(v)@ == digit_entry(old(v)@, d),
{
    if is_zero(v) {
        set_single(v, d);
    } else {
        v.push(d);
    }
}

/// Toggles the leading minus: prepended when absent anywhere in the text,
/// else the first character removed.
fn toggle_plain(v: &mut Vec<char>)
    ensures
        final(v)@ == toggled(old(v)@),
{
    if contains_char(v, '-') {
        proof {
            assert(v@.len() > 0);
        }
        v.remove(0);
        proof {
            assert(v@ =~= old(v)@.drop_first());
        }
    } else {
        v.insert(0, '-');
        proof {
            assert(v@ =~= seq!['-'] + old(v)@);
        }
    }
}

/// Toggles the leading minus of `left`, restoring `"0"` rather than
/// leaving the text empty.
fn toggle_left(v: &mut Vec<char>)
    ensures
        final(v)@ == toggled_left(old(v)@),
{
    toggle_plain(v);
    if v.is_empty() {
        v.push('0');
        proof {
            assert(v@ =~= zero_text());
        }
    }
}

/// Strips trailing `'0'` and `'.'` characters one at a time, stopping at
/// the first other character or at length one.
fn trim_tail(v: &mut Vec<char>)
    ensures
        final(v)@ == spec_trim(old(v)@),
{
    while v.len() > 1 && (v[v.len() - 1] == '0' || v[v.len() - 1] == '.')
        invariant
            spec_trim(v@) == spec_trim(old(v)@),
        decreases v@.len(),
    {
        proof {
            assert(v@.last() == v@[v@.len() - 1]);
            assert(spec_trim(v@) == spec_trim(v@.drop_last()));
        }
        let ghost prev = v@;
        v.pop();
        proof {
            assert(v@ =~= prev.drop_last());
        }
    }
    proof {
        assert(spec_trim(v@) == v@);
    }
}

impl Calculator {
    /// A fresh calculator: `left` is `"0"`, everything else empty.
    pub fn new() -> (r: Calculator)
        ensures
            r@ == CalcState::init(),
            r.wf(),
    {
        let mut left: Vec<char> = Vec::new();
        left.push('0');
        let r = Calculator { left, sign: Vec::new(), right: Vec::new(), shadow: false };
        proof {
            assert(r@ =~= CalcState::init());
        }
        r
    }

    /// The invariant of the engine, stated over its image.
    pub open spec fn wf(&self) -> bool {
        self@.wf()
    }

    /// The text to render after the latest command.
    pub fn display(&self) -> (r: String)
        ensures
            r@ == self@.display(),
    {
        if self.shadow {
            chars_string(&self.left)
        } else {
            let mut out: Vec<char> = Vec::new();
            append_chars(&mut out, &self.left);
            out.push(' ');
            append_chars(&mut out, &self.sign);
            out.push(' ');
            append_chars(&mut out, &self.right);
            proof {
                assert(out@ =~= self@.display());
            }
            chars_string(&out)
        }
    }

    /// The left operand text, or the latest result.
    pub fn left_text(&self) -> (r: String)
        ensures
            r@ == self@.left,
    {
        chars_string(&self.left)
    }

    /// The pending operator text: empty, or one symbol.
    pub fn sign_text(&self) -> (r: String)
        ensures
            r@ == self@.sign,
    {
        chars_string(&self.sign)
    }

    /// The right operand text; may be empty.
    pub fn right_text(&self) -> (r: String)
        ensures
            r@ == self@.right,
    {
        chars_string(&self.right)
    }

    /// Whether the text on show is a computed result.
    pub fn result_shown(&self) -> (b: bool)
        ensures
            b == self@.shadow,
    {
        self.shadow
    }

    /// Whether applying `m` now would perform the compute step, so that
    /// the caller owes [`Calculator::update`] the numeric outcome of
    /// `left sign right`.
    pub fn computes_next(&self, m: &Message) -> (b: bool)
        ensures
            b == self@.computes(*m),
    {
        match m {
            Message::Ans => self.sign.len() > 0 && self.left.len() > 0 && self.right.len() > 0,
            Message::Sign(_) => self.sign.len() > 0 && !self.shadow && self.right.len() > 0,
            _ => false,
        }
    }

    /// Resets to a fresh calculation whose left operand is the single
    /// character `c`.
    pub fn clear(&mut self, c: char)
        ensures
            final(self)@ == (CalcState {
                left: seq![c],
                sign: Seq::empty(),
                right: Seq::empty(),
                shadow: false,
            }),
    {
        self.left.clear();
        self.left.push(c);
        self.sign.clear();
        self.right.clear();
        self.shadow = false;
        proof {
            assert(self@ =~= (CalcState {
                left: seq![c],
                sign: Seq::empty(),
                right: Seq::empty(),
                shadow: false,
            }));
        }
    }

    /// The compute step, applied to the numeric outcome of
    /// `left sign right`: the trimmed value text, or the divide-by-zero
    /// message, becomes `left`, and the result goes on show. The operator
    /// and the right operand stay as they are.
    pub fn calculate(&mut self, outcome: ComputeOutcome)
        requires
            old(self).wf(),
            outcome.wf(),
        ensures
            final(self).wf(),
            final(self)@ == spec_calculate(old(self)@, outcome@),
    {
        let ghost s0 = self@;
        let ghost ov = outcome@;
        self.shadow = true;
        match outcome {
            ComputeOutcome::Value(s) => {
                self.left = text_chars(s.as_str());
                trim_tail(&mut self.left);
                proof {
                    lemma_trim_wf(s@);
                    assert(self@ =~= spec_calculate(s0, ov));
                }
            },
            ComputeOutcome::DivideByZero => {
                self.left = text_chars("Can't divide by zero");
                proof {
                    lemma_error_text_wf();
                    assert(self@ =~= spec_calculate(s0, ov));
                }
            },
        }
    }

    /// Applies one command. Whenever the command performs the compute
    /// step — see [`CalcState::computes`] and [`Calculator::computes_next`]
    /// — the caller evaluates `left sign right` numerically and passes the
    /// outcome in; otherwise it passes `None`. The engine itself holds no
    /// numeric arithmetic: it is exact text manipulation throughout.
    pub fn update(&mut self, m: Message, outcome: Option<ComputeOutcome>)
        requires
            old(self).wf(),
            m.wf(),
            outcome.is_some() <==> old(self)@.computes(m),
            outcome matches Some(oc) ==> oc.wf(),
        ensures
            final(self).wf(),
            final(self)@ == spec_update(old(self)@, m, outcome_of(outcome)),
    {
        let ghost s0 = self@;
        let ghost ov = outcome_of(outcome);
        match m {
            Message::Num(d) => {
                if self.sign.is_empty() {
                    enter_digit(&mut self.left, d);
                } else if self.shadow {
                    self.clear(d);
                } else {
                    enter_digit(&mut self.right, d);
                }
                proof {
                    assert(self@ =~= spec_update(s0, m, ov));
                }
            },
            Message::Ans => {
                if self.sign.len() > 0 && self.left.len() > 0 && self.right.len() > 0 {
                    match outcome {
                        Some(oc) => {
                            self.calculate(oc);
                        },
                        None => {
                            proof {
                                assert(false);
                            }
                        },
                    }
                }
                proof {
                    assert(self@ =~= spec_update(s0, m, ov));
                }
            },
            Message::Sign(c) => {
                if self.sign.is_empty() {
                    self.sign.push(c);
                    proof {
                        assert(self@ =~= spec_update(s0, m, ov));
                    }
                } else {
                    if !self.shadow && !self.right.is_empty() {
                        match outcome {
                            Some(oc) => {
                                self.calculate(oc);
                            },
                            None => {
                                proof {
                                    assert(false);
                                }
                            },
                        }
                    }
                    set_single(&mut self.sign, c);
                    self.right.clear();
                    self.shadow = false;
                    proof {
                        assert(self@ =~= spec_update(s0, m, ov));
                    }
                }
            },
            Message::Dot => {
                if self.sign.is_empty() {
                    if !contains_char(&self.left, '.') {
                        self.left.push('.');
                    }
                } else {
                    if !contains_char(&self.right, '.') {
                        if self.right.is_empty() {
                            self.right.push('0');
                        }
                        self.right.push('.');
                    }
                }
                proof {
                    assert(self@ =~= spec_update(s0, m, ov));
                }
            },
            Message::Neg => {
                if self.sign.is_empty() {
                    if !is_zero(&self.left) && !is_zero_dot(&self.left) {
                        toggle_left(&mut self.left);
                    }
                } else if self.shadow {
                    if !is_zero(&self.left) {
                        toggle_left(&mut self.left);
                    }
                } else {
                    if !is_zero(&self.right) && !is_zero_dot(&self.left) {
                        toggle_plain(&mut self.right);
                    }
                }
                proof {
                    assert(self@ =~= spec_update(s0, m, ov));
                }
            },
            Message::Clear => {
                self.clear('0');
                proof {
                    assert(self@ =~= spec_update(s0, m, ov));
                }
            },
            Message::ClearEnd => {
                if self.right.is_empty() {
                    set_single(&mut self.left, '0');
                    self.sign.clear();
                    self.shadow = false;
                } else {
                    self.right.clear();
                }
                proof {
                    assert(self@ =~= spec_update(s0, m, ov));
                }
            },
            Message::Backspace => {
                if self.sign.is_empty() {
                    let _ = self.left.pop();
                    if self.left.is_empty() {
                        self.left.push('0');
                        proof {
                            assert(self.left@ =~= zero_text());
                        }
                    }
                } else {
                    let _ = self.right.pop();
                }
                proof {
                    assert(self@ =~= spec_update(s0, m, ov));
                }
            },
        }
        proof {
            lemma_update_wf(s0, m, ov);
        }
    }

    /// The engine's single entry point: applies one command as
    /// [`Calculator::update`] does and returns the text to render.
    pub fn apply(&mut self, m: Message, outcome: Option<ComputeOutcome>) -> (r: String)
        requires
            old(self).wf(),
            m.wf(),
            outcome.is_some() <==> old(self)@.computes(m),
            outcome matches Some(oc) ==> oc.wf(),
        ensures
            final(self).wf(),
            final(self)@ == spec_update(old(self)@, m, outcome_of(outcome)),
            r@ == final(self)@.display(),
    {
        self.update(m, outcome);
        self.display()
    }
}

} // verus!
