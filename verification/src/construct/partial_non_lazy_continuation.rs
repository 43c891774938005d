//! Non-lazy continuation.
//!
//! A tiny helper that flow constructs use to make sure that the following
//! line is not lazy: html (flow) and code (fenced, indented) stop when the
//! next line is lazy.
use vstd::prelude::*;

use crate::event::Name;
use crate::state::{Name as StateName, State};
use crate::tokenizer::{
    current_fits, lemma_back_index, lemma_step, same_context, spec_consume, spec_enter, spec_exit, wf, Model,
    Tokenizer,
};

verus! {

/// At a line ending, the continuation enters a `LineEnding` token, consumes
/// the line ending, exits the token and goes on to `after`; anywhere else it
/// fails.
pub open spec fn spec_start(m: Model) -> (Model, State) {
    if m.current == Some(10u8) {
        let entered = spec_enter(m, Name::LineEnding, None);
        let eaten = spec_consume(entered);
        (
            spec_exit(eaten, Name::LineEnding),
            State::Next(StateName::NonLazyContinuationAfter),
        )
    } else {
        (m, State::Nok)
    }
}

/// After the line ending, the continuation fails when the line is lazy and
/// succeeds otherwise, without consuming anything.
pub open spec fn spec_after(m: Model) -> (Model, State) {
    (
        m,
        if m.lazy {
            State::Nok
        } else {
            State::Okay
        },
    )
}

/// Whether `start` may run: a line ending it is fed must not be consumed
/// yet.
pub open spec fn start_allowed(m: Model) -> bool {
    m.current == Some(10u8) ==> !m.consumed
}

/// Start of continuation.
///
/// ```markdown
/// > | * ```js
///            ^
///   | b
/// ```
pub fn start(tokenizer: &mut Tokenizer) -> (state: State)
    requires
        wf(old(tokenizer)@),
        current_fits(old(tokenizer)@),
        start_allowed(old(tokenizer)@),
    ensures
        (final(tokenizer)@, state) == spec_start(old(tokenizer)@),
        wf(final(tokenizer)@),
        current_fits(final(tokenizer)@),
        same_context(final(tokenizer), old(tokenizer)),
{
    match tokenizer.current {
        Some(10u8) => {
            let ghost before_point = tokenizer@.point;
            tokenizer.enter(Name::LineEnding);
            proof {
                lemma_step(tokenizer@);
                lemma_back_index(tokenizer@.bytes, before_point.index as nat);
            }
            tokenizer.consume();
            tokenizer.exit(Name::LineEnding);
            State::Next(StateName::NonLazyContinuationAfter)
        },
        _ => State::Nok,
    }
}

/// After line ending.
///
/// ```markdown
///   | * ```js
/// > | b
///     ^
/// ```
pub fn after(tokenizer: &mut Tokenizer) -> (state: State)
    ensures
        (final(tokenizer)@, state) == spec_after(old(tokenizer)@),
        same_context(final(tokenizer), old(tokenizer)),
{
    if tokenizer.lazy {
        State::Nok
    } else {
        State::Okay
    }
}

} // verus!
