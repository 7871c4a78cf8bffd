use vstd::prelude::*;

use crate::state::is_digit_char;
use crate::state::minus_only_leading;
use crate::state::spec_update;
use crate::state::toggled;
use crate::state::toggled_left;
use crate::state::zero_dot_text;
use crate::state::zero_text;
use crate::state::CalcState;
use crate::state::Message;
use crate::state::OutcomeView;

verus! {

/// The state after a run of digit commands, applied first to last. None
/// of them performs the compute step.
pub open spec fn run_digits(s: CalcState, ds: Seq<char>) -> CalcState
    decreases ds.len(),
{
    if ds.len() == 0 {
        s
    } else {
        run_digits(spec_update(s, Message::Num(ds[0]), None::<OutcomeView>), ds.drop_first())
    }
}

/// The digit run with its leading zeros suppressed: what remains of `ds`
/// after the zeros in front, or `"0"` when nothing remains.
pub open spec fn lz_suppressed(ds: Seq<char>) -> Seq<char>
    decreases ds.len(),
{
    if ds.len() == 0 {
        zero_text()
    } else if ds[0] == '0' {
        lz_suppressed(ds.drop_first())
    } else {
        ds
    }
}

/// Digits entered into a left operand other than a bare `"0"` simply
/// append.
proof fn lemma_run_digits_appends(s: CalcState, ds: Seq<char>)
    requires
        s.sign.len() == 0,
        s.left.len() >= 1,
        s.left != zero_text(),
        forall|i: int| 0 <= i < ds.len() ==> is_digit_char(ds[i]),
    ensures
        run_digits(s, ds) == (CalcState { left: s.left + ds, ..s }),
    decreases ds.len(),
{
    if ds.len() == 0 {
        assert(s.left + ds =~= s.left);
        assert(run_digits(s, ds) =~= (CalcState { left: s.left + ds, ..s }));
    } else {
        let s1 = spec_update(s, Message::Num(ds[0]), None::<OutcomeView>);
        assert(s1.left == s.left.push(ds[0]));
        assert(s1.left != zero_text());
        assert(forall|i: int|
            0 <= i < ds.drop_first().len() ==> is_digit_char(#[trigger] ds.drop_first()[i]));
        lemma_run_digits_appends(s1, ds.drop_first());
        assert(s.left.push(ds[0]) + ds.drop_first() =~= s.left + ds);
        assert(run_digits(s, ds) =~= (CalcState { left: s.left + ds, ..s }));
    }
}

/// A digit run from the initial state leaves `left` equal to the
/// concatenation of the digits with leading zeros suppressed, and touches
/// nothing else.
pub proof fn lemma_digit_concatenation(ds: Seq<char>)
    requires
        forall|i: int| 0 <= i < ds.len() ==> is_digit_char(ds[i]),
    ensures
        run_digits(CalcState::init(), ds) == (CalcState {
            left: lz_suppressed(ds),
            ..CalcState::init()
        }),
    decreases ds.len(),
{
    let s0 = CalcState::init();
    if ds.len() == 0 {
        assert(run_digits(s0, ds) =~= (CalcState { left: lz_suppressed(ds), ..s0 }));
    } else {
        let s1 = spec_update(s0, Message::Num(ds[0]), None::<OutcomeView>);
        assert(forall|i: int|
            0 <= i < ds.drop_first().len() ==> is_digit_char(#[trigger] ds.drop_first()[i]));
        if ds[0] == '0' {
            assert(s1 =~= s0);
            lemma_digit_concatenation(ds.drop_first());
            assert(run_digits(s0, ds) =~= (CalcState { left: lz_suppressed(ds), ..s0 }));
        } else {
            assert(s1.left == seq![ds[0]]);
            assert(s1.left[0] == ds[0]);
            assert(s1.left != zero_text());
            lemma_run_digits_appends(s1, ds.drop_first());
            assert(seq![ds[0]] + ds.drop_first() =~= ds);
            assert(run_digits(s0, ds) =~= (CalcState { left: lz_suppressed(ds), ..s0 }));
        }
    }
}

/// Two dot commands in a row act as one: the second changes nothing, so
/// an operand never gains a second decimal point this way.
pub proof fn lemma_dot_idempotent(s: CalcState)
    ensures
        spec_update(spec_update(s, Message::Dot, None::<OutcomeView>), Message::Dot, None::<OutcomeView>)
            == spec_update(s, Message::Dot, None::<OutcomeView>),
{
    let s1 = spec_update(s, Message::Dot, None::<OutcomeView>);
    if s.sign.len() == 0 && !s.left.contains('.') {
        assert(s1.left[s.left.len() as int] == '.');
        assert(s1.left.contains('.'));
    } else if s.sign.len() > 0 && !s.right.contains('.') {
        if s.right.len() == 0 {
            assert(s1.right == zero_dot_text());
            assert(s1.right[1] == '.');
            assert(s1.right.contains('.'));
        } else {
            assert(s1.right[s.right.len() as int] == '.');
            assert(s1.right.contains('.'));
        }
    }
}

/// Clear from any state whatever yields exactly the initial state.
pub proof fn lemma_clear_resets(s: CalcState)
    ensures
        spec_update(s, Message::Clear, None::<OutcomeView>) == CalcState::init(),
{
}

/// The state after `n` backspace commands, applied one at a time.
pub open spec fn run_backspaces(s: CalcState, n: nat) -> CalcState
    decreases n,
{
    if n == 0 {
        s
    } else {
        run_backspaces(spec_update(s, Message::Backspace, None::<OutcomeView>), (n - 1) as nat)
    }
}

/// Backspace on a bare `"0"` left operand, with no operator pending, is a
/// no-op.
pub proof fn lemma_backspace_zero_noop(s: CalcState)
    requires
        s.sign.len() == 0,
        s.left == zero_text(),
    ensures
        spec_update(s, Message::Backspace, None::<OutcomeView>) == s,
{
    assert(spec_update(s, Message::Backspace, None::<OutcomeView>) =~= s);
}

/// Enough backspaces, with no operator pending, reduce any left operand
/// to `"0"`, and it stays there.
pub proof fn lemma_backspace_converges(s: CalcState, n: nat)
    requires
        s.sign.len() == 0,
        s.left.len() >= 1,
        n >= s.left.len(),
    ensures
        run_backspaces(s, n).left == zero_text(),
        run_backspaces(s, n).sign.len() == 0,
    decreases n,
{
    let s1 = spec_update(s, Message::Backspace, None::<OutcomeView>);
    if s.left.len() <= 1 {
        assert(s1.left == zero_text());
        if n == 1 {
            assert(run_backspaces(s1, 0) == s1);
            assert(run_backspaces(s, n) == run_backspaces(s1, 0));
        } else {
            lemma_backspace_converges(s1, (n - 1) as nat);
        }
    } else {
        lemma_backspace_converges(s1, (n - 1) as nat);
    }
}

/// Whether the sign-toggle command toggles here, rather than being
/// skipped by the zero guards of its branch.
pub open spec fn neg_allowed(s: CalcState) -> bool {
    if s.sign.len() == 0 {
        s.left != zero_text() && s.left != zero_dot_text()
    } else if s.shadow {
        s.left != zero_text()
    } else {
        s.right != zero_text() && s.left != zero_dot_text()
    }
}

/// An operand with its minus only in front and a minus present starts
/// with it, and loses every minus when that first character goes.
proof fn lemma_minus_in_front(x: Seq<char>)
    requires
        minus_only_leading(x),
        x.contains('-'),
    ensures
        x.len() >= 1,
        x[0] == '-',
        !x.drop_first().contains('-'),
        seq!['-'] + x.drop_first() =~= x,
{
    let i = choose|i: int| 0 <= i < x.len() && x[i] == '-';
    assert(i == 0);
    assert forall|j: int| 0 <= j < x.drop_first().len() implies x.drop_first()[j] != '-' by {
        assert(x[j + 1] != '-');
    }
}

/// Prepending a minus to an operand without one, then dropping the first
/// character, gives the operand back.
proof fn lemma_minus_prepended(x: Seq<char>)
    requires
        !x.contains('-'),
    ensures
        (seq!['-'] + x).contains('-'),
        (seq!['-'] + x).drop_first() =~= x,
{
    assert((seq!['-'] + x)[0] == '-');
}

/// Toggling the sign twice in a row, when neither toggle is skipped by
/// its zero guard, restores the state exactly.
pub proof fn lemma_neg_involution(s: CalcState)
    requires
        s.wf(),
        neg_allowed(s),
        neg_allowed(spec_update(s, Message::Neg, None::<OutcomeView>)),
    ensures
        spec_update(
            spec_update(s, Message::Neg, None::<OutcomeView>),
            Message::Neg,
            None::<OutcomeView>,
        ) == s,
{
    let s1 = spec_update(s, Message::Neg, None::<OutcomeView>);
    let s2 = spec_update(s1, Message::Neg, None::<OutcomeView>);
    if s.sign.len() == 0 || s.shadow {
        let x = s.left;
        if x.contains('-') {
            lemma_minus_in_front(x);
            let t = x.drop_first();
            if t.len() == 0 {
                assert(s1.left == zero_text());
                assert(false);
            } else {
                assert(s1.left == t);
                lemma_minus_prepended(t);
                assert(toggled(t) =~= x);
                assert(toggled_left(t) =~= x);
                assert(s2 =~= s);
            }
        } else {
            let t = seq!['-'] + x;
            assert(toggled(x) == t);
            assert(s1.left == t);
            lemma_minus_prepended(x);
            assert(toggled(t) =~= x);
            assert(toggled_left(t) =~= x);
            assert(s2 =~= s);
        }
    } else {
        let x = s.right;
        if x.contains('-') {
            lemma_minus_in_front(x);
            let t = x.drop_first();
            assert(s1.right == t);
            lemma_minus_prepended(t);
            assert(toggled(t) =~= x);
            assert(s2 =~= s);
        } else {
            let t = seq!['-'] + x;
            assert(s1.right == t);
            lemma_minus_prepended(x);
            assert(toggled(t) =~= x);
            assert(s2 =~= s);
        }
    }
}

} // verus!
