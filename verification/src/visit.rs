//! What holds of a whole value, whoever reads it.
//!
//! A visitor asks for one value after another, and what it asks for next depends
//! on the answers so far. It gives up at the first error. What it makes of the
//! input is then settled by its answers.

use vstd::prelude::*;

use crate::answers::{
    answer, lemma_answer_buffer, lemma_answer_cut, lemma_answer_limit, lemma_answer_past,
    lemma_answer_same, plain_answer, Answer, Ask,
};
use crate::depth::is_looser;
use crate::error::Fault;
use crate::laws::{is_later, lemma_past_past};
use crate::prefix::{between, shares};
use crate::reads::{is_cut, is_same, lemma_cut_stage, lemma_stages};
use crate::state::State;

verus! {

/// Someone who reads a value: what is asked for next after some answers, if
/// anything is.
pub type Visitor = spec_fn(Seq<Answer>) -> Option<Ask>;

/// What comes of a visitor that has had some answers, within so many steps: all of
/// its answers, or the first error.
pub open spec fn visit(visitor: Visitor, answers: Seq<Answer>, state: State, steps: nat) -> (
    Result<Seq<Answer>, Fault>,
    State,
)
    decreases steps,
{
    match visitor(answers) {
        Some(ask) if steps > 0 => match answer(ask, state) {
            (Ok(given), after) => visit(visitor, answers.push(given), after, (steps - 1) as nat),
            (Err(fault), after) => (Err(fault), after),
        },
        _ => (Ok(answers), state),
    }
}

proof fn lemma_visit_past(visitor: Visitor, answers: Seq<Answer>, state: State, steps: nat)
    ensures
        is_later(visit(visitor, answers, state, steps).1, state),
    decreases steps,
{
    assert(state.input.unread.skip(0) =~= state.input.unread);
    if let Some(ask) = visitor(answers) {
        if steps > 0 {
            lemma_answer_past(ask, state);
            if let (Ok(given), after) = answer(ask, state) {
                lemma_visit_past(visitor, answers.push(given), after, (steps - 1) as nat);
                lemma_past_past(
                    visit(visitor, answers.push(given), after, (steps - 1) as nat).1.input,
                    after.input,
                    state.input,
                );
            }
        }
    }
}

/// Whoever reads a value gets the same from any other bytes that start with those
/// that were taken, and the rest of them is left.
pub proof fn law_values_are_decided(
    visitor: Visitor,
    answers: Seq<Answer>,
    state: State,
    steps: nat,
    other: Seq<u8>,
)
    ensures
        is_same(
            state,
            visit(visitor, answers, state, steps),
            other,
            visit(visitor, answers, state.with_unread(other), steps),
        ),
    decreases steps,
{
    let last = visit(visitor, answers, state, steps).1.input;
    let taken = between(state.input, last);
    assert(other.skip(0) =~= other);
    if visit(visitor, answers, state, steps).0 is Ok && shares(state.input, other, taken) {
        if let Some(ask) = visitor(answers) {
            if steps > 0 {
                if let (Ok(given), after) = answer(ask, state) {
                    lemma_answer_past(ask, state);
                    lemma_visit_past(visitor, answers.push(given), after, (steps - 1) as nat);
                    lemma_stages(state.input, after.input, last, other);
                    lemma_answer_same(ask, state, other);
                    law_values_are_decided(
                        visitor,
                        answers.push(given),
                        after,
                        (steps - 1) as nat,
                        other.skip(between(state.input, after.input)),
                    );
                }
            }
        }
    }
}

/// One deserializer reads successive values: what is read off some bytes alone is
/// read off them with others behind them, which are left to be read.
pub proof fn law_successive_values(
    visitor: Visitor,
    state: State,
    steps: nat,
    more: Seq<u8>,
)
    requires
        visit(visitor, seq![], state, steps).0 is Ok,
    ensures
        ({
            let (answers, after) = visit(visitor, seq![], state, steps);
            visit(visitor, seq![], state.with_unread(state.input.unread + more), steps) == (
                answers,
                after.with_unread(after.input.unread + more),
            )
        }),
{
    let after = visit(visitor, seq![], state, steps).1;
    let taken = between(state.input, after.input);
    let other = state.input.unread + more;
    lemma_visit_past(visitor, seq![], state, steps);
    assert(other.take(taken) =~= state.input.unread.take(taken));
    assert(other.skip(taken) =~= after.input.unread + more);
    law_values_are_decided(visitor, seq![], state, steps, other);
}

/// Whoever reads a value is told that the bytes end, with [`Fault::Io`], if any of
/// those are missing that it takes.
pub proof fn law_cut_values_end(
    visitor: Visitor,
    answers: Seq<Answer>,
    state: State,
    steps: nat,
    count: nat,
)
    ensures
        is_cut(
            state,
            visit(visitor, answers, state, steps),
            count,
            visit(visitor, answers, state.cut(count), steps),
        ),
    decreases steps,
{
    let last = visit(visitor, answers, state, steps).1.input;
    if visit(visitor, answers, state, steps).0 is Ok && count < between(state.input, last) {
        if let Some(ask) = visitor(answers) {
            if steps > 0 {
                if let (Ok(given), after) = answer(ask, state) {
                    lemma_answer_past(ask, state);
                    lemma_visit_past(visitor, answers, state, steps);
                    let first = between(state.input, after.input);
                    if count < first {
                        lemma_answer_cut(ask, state, count);
                    } else {
                        lemma_cut_stage(state.input, after.input, count as int);
                        lemma_answer_same(ask, state, state.input.unread.take(count as int));
                        law_cut_values_end(
                            visitor,
                            answers.push(given),
                            after,
                            (steps - 1) as nat,
                            (count - first) as nat,
                        );
                    }
                }
            }
        }
    }
}

/// Under a higher recursion limit whoever reads a value gets the same, be it a
/// value or an error, unless the lower limit was exceeded.
pub proof fn law_limit_decides_no_value(
    visitor: Visitor,
    answers: Seq<Answer>,
    state: State,
    steps: nat,
    more: nat,
)
    ensures
        is_looser(
            visit(visitor, answers, state, steps),
            more,
            visit(visitor, answers, state.with_budget(state.budget + more), steps),
        ),
    decreases steps,
{
    if let Some(ask) = visitor(answers) {
        if steps > 0 {
            lemma_answer_limit(ask, state, more);
            if let (Ok(given), after) = answer(ask, state) {
                law_limit_decides_no_value(
                    visitor,
                    answers.push(given),
                    after,
                    (steps - 1) as nat,
                    more,
                );
            }
        }
    }
}

/// These answers, whether or not their values were to fit the scratch buffer.
pub open spec fn plain_answers(answers: Seq<Answer>) -> Seq<Answer> {
    answers.map_values(|answer: Answer| plain_answer(answer))
}

/// Whether a visitor goes on in the same way where a value was to fit the scratch
/// buffer and where it was not.
pub open spec fn is_indifferent(visitor: Visitor) -> bool {
    forall|answers: Seq<Answer>| #[trigger] visitor(plain_answers(answers)) == visitor(answers)
}

/// A larger buffer never changes a value that is read.
pub proof fn law_buffer_decides_no_value(
    visitor: Visitor,
    answers: Seq<Answer>,
    other: Seq<Answer>,
    state: State,
    steps: nat,
    room: nat,
)
    requires
        is_indifferent(visitor),
        plain_answers(other) == plain_answers(answers),
        state.room <= room,
        visit(visitor, answers, state, steps).0 is Ok,
    ensures
        ({
            let (read, after) = visit(visitor, answers, state, steps);
            let (again, end) = visit(visitor, other, state.with_room(room), steps);
            &&& again is Ok
            &&& plain_answers(again->Ok_0) == plain_answers(read->Ok_0)
            &&& end == after.with_room(room)
        }),
    decreases steps,
{
    assert(visitor(plain_answers(answers)) == visitor(answers));
    assert(visitor(plain_answers(other)) == visitor(other));
    if let Some(ask) = visitor(answers) {
        if steps > 0 {
            lemma_answer_buffer(ask, state, room);
            lemma_answer_past(ask, state);
            let (given, after) = answer(ask, state);
            let (same, _) = answer(ask, state.with_room(room));
            let given = given->Ok_0;
            let same = same->Ok_0;
            assert(plain_answers(answers.push(given)) =~= plain_answers(answers).push(
                plain_answer(given),
            ));
            assert(plain_answers(other.push(same)) =~= plain_answers(other).push(
                plain_answer(same),
            ));
            law_buffer_decides_no_value(
                visitor,
                answers.push(given),
                other.push(same),
                after,
                (steps - 1) as nat,
                room,
            );
        }
    }
}

} // verus!
