//! The world's side of the control channel: which of the requests that
//! arrived since the last frame the frame answers.
//!
//! A frame answers them in order, up to and including one that may write a
//! record, which ends its turn: the undo history takes one step per frame a
//! record changed in, so two edits answered in one frame would come undone
//! together. An interface command that works a control runs over several
//! frames and may write a record on any of them: while one does, a request
//! that may write waits - put back, ahead of anything newer, for the next
//! frame.
use vstd::prelude::*;

verus! {

/// What a frame does with the next request waiting.
#[derive(PartialEq, Eq, Structural, Clone, Copy, Debug)]
pub enum TurnStep {
    /// Answer it, and go on to the next.
    Answer,
    /// Answer it, and end the turn: it may write a record.
    AnswerAndEnd,
    /// Put it back with the rest, for the next frame: it may write a
    /// record, and an interface command is still working a control.
    PutBack,
}

/// What a frame does with a request that may write a record (`writes`)
/// or not, while an interface command is working a control (`ui_acting`)
/// or not.
pub open spec fn turn_step_spec(writes: bool, ui_acting: bool) -> TurnStep {
    if !writes {
        TurnStep::Answer
    } else if ui_acting {
        TurnStep::PutBack
    } else {
        TurnStep::AnswerAndEnd
    }
}

/// What a frame does with the next request waiting.
pub fn turn_step(writes: bool, ui_acting: bool) -> (s: TurnStep)
    ensures
        s == turn_step_spec(writes, ui_acting),
{
    if !writes {
        TurnStep::Answer
    } else if ui_acting {
        TurnStep::PutBack
    } else {
        TurnStep::AnswerAndEnd
    }
}

/// How many of the requests waiting a frame answers, each seen as whether
/// it may write a record and whether an interface command was working a
/// control when its turn came: the rest are put back.
pub open spec fn answered(seen: Seq<(bool, bool)>) -> nat
    decreases seen.len(),
{
    if seen.len() == 0 {
        0
    } else {
        match turn_step_spec(seen[0].0, seen[0].1) {
            TurnStep::Answer => 1 + answered(seen.skip(1)),
            TurnStep::AnswerAndEnd => 1,
            TurnStep::PutBack => 0,
        }
    }
}

/// A frame answers at most what is waiting.
pub proof fn lemma_answered_bound(seen: Seq<(bool, bool)>)
    ensures
        answered(seen) <= seen.len(),
    decreases seen.len(),
{
    if seen.len() > 0 {
        lemma_answered_bound(seen.skip(1));
    }
}

/// One write a frame: of the requests a frame answers, at most one may
/// write a record, and it is the last the frame answers; and none that may
/// write is answered while an interface command works a control.
pub proof fn lemma_one_write_per_turn(seen: Seq<(bool, bool)>, i: int)
    requires
        0 <= i < answered(seen),
        seen[i].0,
    ensures
        i == answered(seen) - 1,
        !seen[i].1,
    decreases seen.len(),
{
    lemma_answered_bound(seen);
    if i > 0 {
        let rest = seen.skip(1);
        assert(rest[i - 1] == seen[i]);
        lemma_one_write_per_turn(rest, i - 1);
    }
}

/// Everything waiting is answered in one frame when none of it may write a
/// record.
pub proof fn lemma_reads_all_answered(seen: Seq<(bool, bool)>)
    requires
        forall|i: int| 0 <= i < seen.len() ==> !(#[trigger] seen[i]).0,
    ensures
        answered(seen) == seen.len(),
    decreases seen.len(),
{
    if seen.len() > 0 {
        let rest = seen.skip(1);
        assert forall|i: int| 0 <= i < rest.len() implies !(#[trigger] rest[i]).0 by {
            assert(rest[i] == seen[i + 1]);
        }
        lemma_reads_all_answered(rest);
    }
}

/// What a frame leaves waiting of `waiting`, each request seen as in
/// [`answered`]: every one after those it answered, in their order.
pub open spec fn left_waiting<T>(waiting: Seq<T>, seen: Seq<(bool, bool)>) -> Seq<T> {
    waiting.skip(answered(seen) as int)
}

/// What the next frame finds waiting: what this one left, ahead of what
/// arrived since.
pub open spec fn next_waiting<T>(waiting: Seq<T>, seen: Seq<(bool, bool)>, arrived: Seq<T>) -> Seq<T> {
    left_waiting(waiting, seen) + arrived
}

/// Why a frame stopped short of the end of what was waiting: the first
/// request left may write a record while an interface command works a
/// control, after every one before it was answered going on; or the last
/// one answered may write a record, which ended the turn.
proof fn lemma_why_the_turn_ended(seen: Seq<(bool, bool)>)
    requires
        answered(seen) < seen.len(),
    ensures
        ({
            let n = answered(seen) as int;
            ||| seen[n].0 && seen[n].1
            ||| n > 0 && seen[n - 1].0 && !seen[n - 1].1
        }),
    decreases seen.len(),
{
    let rest = seen.skip(1);
    if turn_step_spec(seen[0].0, seen[0].1) == TurnStep::Answer {
        lemma_why_the_turn_ended(rest);
        let m = answered(rest) as int;
        assert(rest[m] == seen[m + 1]);
        if m > 0 {
            assert(rest[m - 1] == seen[m]);
        }
    }
}

/// A frame keeps what it does not answer, in order: what it answered and
/// what it left, one after the other, are exactly what was waiting; the
/// first request left is the one that ended the turn - put back because it
/// may write a record while an interface command works a control - or
/// comes right after the one that did, by writing a record; and the next
/// frame finds what was left ahead of everything newer, in order.
pub proof fn lemma_frame_keeps_order<T>(waiting: Seq<T>, seen: Seq<(bool, bool)>, arrived: Seq<T>)
    requires
        seen.len() == waiting.len(),
    ensures
        answered(seen) <= waiting.len(),
        waiting.take(answered(seen) as int) + left_waiting(waiting, seen) == waiting,
        left_waiting(waiting, seen).len() > 0 ==> ({
            let n = answered(seen) as int;
            ||| seen[n].0 && seen[n].1
            ||| n > 0 && seen[n - 1].0 && !seen[n - 1].1
        }),
        next_waiting(waiting, seen, arrived).take(left_waiting(waiting, seen).len() as int)
            == left_waiting(waiting, seen),
        next_waiting(waiting, seen, arrived).skip(left_waiting(waiting, seen).len() as int)
            == arrived,
{
    lemma_answered_bound(seen);
    let n = answered(seen) as int;
    assert(waiting.take(n) + waiting.skip(n) =~= waiting);
    if n < seen.len() {
        lemma_why_the_turn_ended(seen);
    }
    let left = left_waiting(waiting, seen);
    let next = next_waiting(waiting, seen, arrived);
    assert(next.take(left.len() as int) =~= left);
    assert(next.skip(left.len() as int) =~= arrived);
}

/// Requests are answered in the order they came, across frames: what two
/// frames in a row answer, the second one's requests seen as it reaches
/// them, is the start of what was waiting for the first and what arrived
/// after it.
pub proof fn lemma_answered_in_order<T>(
    waiting: Seq<T>,
    seen: Seq<(bool, bool)>,
    arrived: Seq<T>,
    seen_next: Seq<(bool, bool)>,
)
    requires
        seen.len() == waiting.len(),
        seen_next.len() == next_waiting(waiting, seen, arrived).len(),
    ensures
        waiting.take(answered(seen) as int) + next_waiting(waiting, seen, arrived).take(
            answered(seen_next) as int,
        ) == (waiting + arrived).take((answered(seen) + answered(seen_next)) as int),
{
    lemma_answered_bound(seen);
    lemma_answered_bound(seen_next);
    let n = answered(seen) as int;
    let m = answered(seen_next) as int;
    let next = next_waiting(waiting, seen, arrived);
    assert(next =~= (waiting + arrived).skip(n));
    assert(waiting.take(n) + next.take(m) =~= (waiting + arrived).take(n + m));
}

} // verus!
