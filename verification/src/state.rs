use vstd::prelude::*;

use crate::construct::partial_non_lazy_continuation::{
    after, spec_after, spec_start, start, start_allowed,
};
use crate::tokenizer::{
    current_fits, lemma_step, potential, same_context, wf, Model, Tokenizer,
};

verus! {

/// Names of state functions.
#[derive(Clone, Copy, Debug, PartialEq, Eq, Structural)]
pub enum Name {
    /// Start of a non-lazy continuation.
    NonLazyContinuationStart,
    /// After the line ending of a non-lazy continuation.
    NonLazyContinuationAfter,
}

/// Result of a state function.
#[derive(Clone, Copy, Debug, PartialEq, Eq, Structural)]
pub enum State {
    /// Feed the next byte to the named state function.
    Next(Name),
    /// Feed the current byte again, to the named state function.
    Retry(Name),
    /// The construct succeeded.
    Okay,
    /// The construct failed.
    Nok,
}

/// How far a state is from settling: `Okay` and `Nok` settle an attempt.
pub open spec fn rank(state: State) -> nat {
    match state {
        State::Okay | State::Nok => 0,
        _ => 1,
    }
}

/// Run the named state function.
pub open spec fn spec_call(m: Model, name: Name) -> (Model, State) {
    match name {
        Name::NonLazyContinuationStart => spec_start(m),
        Name::NonLazyContinuationAfter => spec_after(m),
    }
}

/// State functions keep a tokenizer well-formed, leave its attempts alone,
/// and either settle or make progress through the document.
pub proof fn lemma_call(m: Model, name: Name)
    requires
        wf(m),
        current_fits(m),
    ensures
        wf(spec_call(m, name).0),
        current_fits(spec_call(m, name).0),
        spec_call(m, name).0.attempts == m.attempts,
        spec_call(m, name).0.bytes == m.bytes,
        potential(spec_call(m, name).0) <= potential(m),
        rank(spec_call(m, name).1) == 0 || potential(spec_call(m, name).0) < potential(m),
{
    if name == Name::NonLazyContinuationStart && m.current == Some(10u8) {
        let entered = crate::tokenizer::spec_enter(m, crate::event::Name::LineEnding, None);
        lemma_step(entered);
    }
}

/// Whether the named state function may run.
pub open spec fn call_allowed(m: Model, name: Name) -> bool {
    match name {
        Name::NonLazyContinuationStart => start_allowed(m),
        Name::NonLazyContinuationAfter => true,
    }
}

/// Call the named state function.
pub fn call(tokenizer: &mut Tokenizer, name: Name) -> (state: State)
    requires
        wf(old(tokenizer)@),
        current_fits(old(tokenizer)@),
        call_allowed(old(tokenizer)@, name),
    ensures
        (final(tokenizer)@, state) == spec_call(old(tokenizer)@, name),
        wf(final(tokenizer)@),
        current_fits(final(tokenizer)@),
        same_context(final(tokenizer), old(tokenizer)),
{
    match name {
        Name::NonLazyContinuationStart => start(tokenizer),
        Name::NonLazyContinuationAfter => after(tokenizer),
    }
}

} // verus!
