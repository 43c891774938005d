//! Properties that hold across the tokenizer's operations.
use vstd::prelude::*;

use crate::event::{Event, Kind, Link, Name, Point};
use crate::resolve::Name as ResolveName;
use crate::state::{spec_call, Name as StateName, State};
use crate::construct::partial_non_lazy_continuation::{spec_after, spec_start};
use crate::event::Content;
use crate::tokenizer::{
    at_line_ending, attempt_fits, back_index, before, content_link, ignorable, initial_model,
    jump_applies, lemma_back_index, lemma_raw_step, lemma_step, lemma_take_jump,
    lemma_walk_arrives, line_offset, point_back, raw_step, same_outside_position, spec_attempt,
    spec_byte_action, spec_capture, spec_check, spec_consume, spec_define_skip, spec_enter,
    spec_exit, spec_expect, spec_free, spec_push_step, spec_register_resolver,
    spec_register_resolver_before, spec_settle, step, tab_gap, valid_target, wf, current_fits, ByteAction, Model,
};

verus! {

/// Whether no item occurs twice in `s`.
pub open spec fn no_duplicates<T>(s: Seq<T>) -> bool {
    forall|i: int, j: int| 0 <= i < j < s.len() ==> s[i] != s[j]
}

/// Whether `later` reached the settling of the innermost attempt stacked in
/// `earlier` (giving `stacked`): that attempt is still innermost, the
/// attempts below it are unchanged, and events and open tokens were only
/// added. Counts fit in `usize`, as they do in a tokenizer.
pub open spec fn settles_from(earlier: Model, stacked: Model, later: Model) -> bool {
    &&& earlier.events.len() <= usize::MAX
    &&& earlier.stack.len() <= usize::MAX
    &&& later.attempts == stacked.attempts
    &&& earlier.events.len() <= later.events.len()
    &&& later.events.take(earlier.events.len() as int) == earlier.events
    &&& earlier.stack.len() <= later.stack.len()
    &&& later.stack.take(earlier.stack.len() as int) == earlier.stack
}

/// A check reverts in both cases: whether it succeeds or fails, the
/// tokenizer is back where it was when the check was stacked (same point,
/// bytes, events and open tokens), and goes on to `ok` or `nok`.
pub proof fn lemma_check_always_reverts(
    earlier: Model,
    later: Model,
    ok: State,
    nok: State,
    outcome: State,
)
    requires
        settles_from(earlier, spec_check(earlier, ok, nok), later),
        outcome == State::Okay || outcome == State::Nok,
    ensures
        ({
            let (settled, next) = spec_settle(later, outcome);
            &&& settled.point == earlier.point
            &&& settled.previous == earlier.previous
            &&& settled.current == earlier.current
            &&& settled.events == earlier.events
            &&& settled.stack == earlier.stack
            &&& settled.attempts == earlier.attempts
            &&& next == (if outcome == State::Okay {
                ok
            } else {
                nok
            })
        }),
{
    let settled = spec_settle(later, outcome).0;
    assert(later.attempts.drop_last() =~= earlier.attempts);
    if earlier.events.len() == later.events.len() {
        assert(later.events =~= earlier.events);
    }
    if earlier.stack.len() == later.stack.len() {
        assert(later.stack =~= earlier.stack);
    }
}

/// An attempt reverts only when it fails: on success the tokenizer keeps its
/// progress, on failure it is back where it was when the attempt was stacked
/// (unless failure goes to `Nok`, where an enclosing attempt reverts).
pub proof fn lemma_attempt_reverts_on_failure(earlier: Model, later: Model, ok: State, nok: State)
    requires
        settles_from(earlier, spec_attempt(earlier, ok, nok), later),
    ensures
        ({
            let (settled, next) = spec_settle(later, State::Okay);
            &&& settled.point == later.point
            &&& settled.events == later.events
            &&& settled.stack == later.stack
            &&& settled.attempts == earlier.attempts
            &&& next == ok
        }),
        ({
            let (settled, next) = spec_settle(later, State::Nok);
            &&& nok != State::Nok ==> settled.point == earlier.point && settled.previous
                == earlier.previous && settled.current == earlier.current && settled.events
                == earlier.events && settled.stack == earlier.stack
            &&& nok == State::Nok ==> settled.point == later.point && settled.events
                == later.events && settled.stack == later.stack
            &&& settled.attempts == earlier.attempts
            &&& next == nok
        }),
{
    assert(later.attempts.drop_last() =~= earlier.attempts);
    if earlier.events.len() == later.events.len() {
        assert(later.events =~= earlier.events);
    }
    if earlier.stack.len() == later.stack.len() {
        assert(later.stack =~= earlier.stack);
    }
}

/// Registering a resolver (at the end or at the start) keeps the list free
/// of duplicates, makes it hold the resolver, and registering it again
/// changes nothing.
pub proof fn lemma_register_resolver(m: Model, name: ResolveName)
    requires
        no_duplicates(m.resolvers),
    ensures
        no_duplicates(spec_register_resolver(m, name).resolvers),
        spec_register_resolver(m, name).resolvers.contains(name),
        spec_register_resolver(spec_register_resolver(m, name), name) == spec_register_resolver(
            m,
            name,
        ),
        no_duplicates(spec_register_resolver_before(m, name).resolvers),
        spec_register_resolver_before(m, name).resolvers.contains(name),
        spec_register_resolver_before(spec_register_resolver_before(m, name), name)
            == spec_register_resolver_before(m, name),
        !m.resolvers.contains(name) ==> spec_register_resolver_before(m, name).resolvers[0]
            == name,
{
    if !m.resolvers.contains(name) {
        let after = spec_register_resolver(m, name).resolvers;
        assert(after[after.len() - 1] == name);
        let front = spec_register_resolver_before(m, name).resolvers;
        assert(front[0] == name);
        assert forall|i: int, j: int| 0 <= i < j < front.len() implies front[i] != front[j] by {
            if i == 0 {
                assert(front[j] == m.resolvers[j - 1]);
            } else {
                assert(front[i] == m.resolvers[i - 1]);
                assert(front[j] == m.resolvers[j - 1]);
            }
        }
        assert forall|i: int, j: int| 0 <= i < j < after.len() implies after[i] != after[j] by {
            if j == after.len() - 1 {
                assert(after[i] == m.resolvers[i]);
            }
        }
    }
}

/// Entering and then exiting a token leaves the open tokens as they were
/// and adds exactly an enter and an exit event of that token.
pub proof fn lemma_enter_exit_balanced(m: Model, name: Name, link: Option<Link>)
    ensures
        spec_exit(spec_enter(m, name, link), name).stack == m.stack,
        spec_exit(spec_enter(m, name, link), name).events.len() == m.events.len() + 2,
        spec_exit(spec_enter(m, name, link), name).events.take(m.events.len() as int)
            == m.events,
        spec_exit(spec_enter(m, name, link), name).events[m.events.len() as int].kind
            == Kind::Enter,
        spec_exit(spec_enter(m, name, link), name).events[m.events.len() + 1int].kind == Kind::Exit,
        spec_exit(spec_enter(m, name, link), name).events[m.events.len() as int].name == name,
        spec_exit(spec_enter(m, name, link), name).events[m.events.len() + 1int].name == name,
{
    let done = spec_exit(spec_enter(m, name, link), name);
    assert(m.stack.push(name).drop_last() =~= m.stack);
    assert(done.events.take(m.events.len() as int) =~= m.events);
}

/// Moving back past ignored bytes lands on a place that is not right after
/// the carriage return of a CRLF, and moving back again stays there.
pub proof fn lemma_move_back_settles(bytes: Seq<u8>, point: Point)
    ensures
        point_back(bytes, point).index <= point.index,
        point_back(bytes, point_back(bytes, point)) == point_back(bytes, point),
        !(point_back(bytes, point).index > 0 && ignorable(
            bytes,
            point_back(bytes, point).index - 1,
        )),
    decreases point.index,
{
    lemma_back_index(bytes, point.index as nat);
    if point.index > 0 && ignorable(bytes, point.index - 1) {
        lemma_move_back_settles(bytes, Point { index: (point.index - 1) as usize, ..point });
    }
}

/// Line endings are normalised: the carriage return of a CRLF is ignored
/// and its line feed is a line feed; a lone carriage return is a line feed.
pub proof fn lemma_line_endings(bytes: Seq<u8>, point: Point)
    requires
        bytes.len() <= usize::MAX,
        point.index < bytes.len(),
        bytes[point.index as int] == 13u8,
    ensures
        ignorable(bytes, point.index as int) ==> spec_byte_action(bytes, point)
            == ByteAction::Ignore && spec_byte_action(
            bytes,
            Point { index: (point.index + 1) as usize, ..point },
        ) == ByteAction::Normal(10u8),
        !ignorable(bytes, point.index as int) ==> spec_byte_action(bytes, point)
            == ByteAction::Normal(10u8),
{
}

/// Tabs are expanded to the next tab stop: a tab is sent as a tab and then
/// as spaces, with the index staying put until the column is a multiple of
/// the tab size, after which the next byte starts right after a tab stop.
pub proof fn lemma_tab_stops(m: Model)
    requires
        wf(m),
        m.point.index < m.bytes.len(),
        m.bytes[m.point.index as int] == 9u8,
    ensures
        tab_gap(m.point.column) == 0 ==> raw_step(m).point.index == m.point.index + 1 && raw_step(
            m,
        ).point.column % 4 == 1 && raw_step(m).point.vs == 0,
        tab_gap(m.point.column) > 0 ==> raw_step(m).point.index == m.point.index && raw_step(
            m,
        ).point.column == m.point.column + 1 && raw_step(m).point.vs == m.point.vs + 1,
{
    lemma_raw_step(m);
}

/// After a line ending, the tokenizer lands at or after the jump defined
/// for the new line (or at the end of the document).
pub proof fn lemma_line_ending_takes_jump(m: Model)
    requires
        wf(m),
        m.point.index < m.bytes.len(),
        at_line_ending(m),
        jump_applies(raw_step(m)),
    ensures
        !before(step(m).point, raw_step(m).column_start[line_offset(raw_step(m))]) || step(
            m,
        ).point.index >= m.bytes.len(),
{
    let r = raw_step(m);
    lemma_raw_step(m);
    lemma_walk_arrives(r, seq![r.column_start[line_offset(r)]]);
}

/// Consuming a byte moves the tokenizer forward: to a later index, or to a
/// later virtual step inside a tab; the consumed byte becomes the previous
/// one, and nothing is current.
pub proof fn lemma_consume_advances(m: Model)
    requires
        wf(m),
        m.point.index < m.bytes.len(),
    ensures
        before(m.point, (spec_consume(m).point.index, spec_consume(m).point.vs)),
        spec_consume(m).previous == m.current,
        spec_consume(m).current is None,
        spec_consume(m).consumed,
{
    lemma_step(m);
}

/// Replay the events: an enter opens a token, an exit must close the
/// innermost open token. The open tokens, innermost last, or `None` when an
/// exit does not close the innermost open token.
pub open spec fn open_tokens(events: Seq<Event>) -> Option<Seq<Name>>
    decreases events.len(),
{
    if events.len() == 0 {
        Some(Seq::empty())
    } else {
        match open_tokens(events.drop_last()) {
            Some(open) => {
                let event = events.last();
                if event.kind == Kind::Enter {
                    Some(open.push(event.name))
                } else if open.len() > 0 && open.last() == event.name {
                    Some(open.drop_last())
                } else {
                    None
                }
            },
            None => None,
        }
    }
}

/// How many events of `kind` there are.
pub open spec fn count_kind(events: Seq<Event>, kind: Kind) -> nat
    decreases events.len(),
{
    if events.len() == 0 {
        0
    } else {
        count_kind(events.drop_last(), kind) + if events.last().kind == kind {
            1nat
        } else {
            0nat
        }
    }
}

/// Whether the stack of open tokens is what the events leave open: every
/// exit closed the innermost open token, and the stack lists the tokens
/// still open, innermost last.
pub open spec fn balanced(m: Model) -> bool {
    open_tokens(m.events) == Some(m.stack)
}

/// When every exit closes the innermost open token, as many tokens are open
/// as there are enters more than exits.
pub proof fn lemma_open_tokens_count(events: Seq<Event>)
    requires
        open_tokens(events) is Some,
    ensures
        open_tokens(events).unwrap().len() + count_kind(events, Kind::Exit) == count_kind(
            events,
            Kind::Enter,
        ),
    decreases events.len(),
{
    if events.len() > 0 {
        lemma_open_tokens_count(events.drop_last());
    }
}

/// A new tokenizer is balanced, and entering, exiting (the innermost open
/// token) and consuming keep it balanced: the stack always lists the open
/// tokens, its length is the number of enters minus the number of exits,
/// and each exit closes the innermost open token.
pub proof fn lemma_stack_balance(m: Model, name: Name, link: Option<Link>, point: Point, bytes: Seq<u8>)
    ensures
        balanced(initial_model(point, bytes)),
        balanced(m) ==> balanced(spec_enter(m, name, link)),
        balanced(m) && m.stack.len() > 0 && m.stack.last() == name ==> balanced(
            spec_exit(m, name),
        ),
        balanced(m) && wf(m) && m.point.index < m.bytes.len() ==> balanced(spec_consume(m)),
        balanced(m) ==> m.stack.len() + count_kind(m.events, Kind::Exit) == count_kind(
            m.events,
            Kind::Enter,
        ),
{
    let entered = spec_enter(m, name, link);
    assert(entered.events.drop_last() =~= m.events);
    let exited = spec_exit(m, name);
    assert(exited.events.drop_last() =~= m.events);
    if m.point.index < m.bytes.len() && wf(m) {
        lemma_step(m);
        assert(spec_consume(m).events == m.events);
    }
    if balanced(m) {
        lemma_open_tokens_count(m.events);
    }
}

/// Reverting to a capture after only adding events and open tokens (the
/// tokens open at the capture staying open) gives back the captured place,
/// bytes, events and open tokens.
pub proof fn lemma_free_restores_capture(earlier: Model, later: Model)
    requires
        earlier.events.len() <= usize::MAX,
        earlier.stack.len() <= usize::MAX,
        earlier.events.len() <= later.events.len(),
        later.events.take(earlier.events.len() as int) == earlier.events,
        earlier.stack.len() <= later.stack.len(),
        later.stack.take(earlier.stack.len() as int) == earlier.stack,
    ensures
        spec_free(later, spec_capture(earlier)).point == earlier.point,
        spec_free(later, spec_capture(earlier)).previous == earlier.previous,
        spec_free(later, spec_capture(earlier)).current == earlier.current,
        spec_free(later, spec_capture(earlier)).events == earlier.events,
        spec_free(later, spec_capture(earlier)).stack == earlier.stack,
{
    if earlier.events.len() == later.events.len() {
        assert(later.events =~= earlier.events);
    }
    if earlier.stack.len() == later.stack.len() {
        assert(later.stack =~= earlier.stack);
    }
}

/// A step through the document keeps the jumps defined so far (it may only
/// add the entry for a new line), and leaves everything but the position
/// as it was.
pub proof fn lemma_step_keeps_jumps(m: Model)
    requires
        wf(m),
        m.point.index < m.bytes.len(),
    ensures
        same_outside_position(m, step(m)),
        m.column_start.len() <= step(m).column_start.len(),
        forall|i: int| 0 <= i < m.column_start.len() ==> #[trigger] step(m).column_start[i] == m.column_start[i],
{
    lemma_step(m);
}

/// When flushing, a state function reached at or past the end of what was
/// fed is fed no byte (the end of the document): this is how `flush`, which
/// runs from the current point to itself, feeds the end.
pub proof fn lemma_flush_feeds_end(m: Model, to: (usize, usize), name: StateName)
    requires
        !before(m.point, to),
    ensures
        spec_push_step(m, to, State::Next(name), true) == Some(
            spec_call(spec_expect(m, None), name),
        ),
        spec_expect(m, None).current is None,
        !before(m.point, (m.point.index, m.point.vs)),
{
}

/// Defining a jump for a line puts the target (moved back past ignored
/// bytes) in the table: over the line's entry when there is one (a
/// redefinition replaces the old jump), at the end of the table otherwise.
/// The other entries stay. When the tokenizer is at the start of a line
/// with a jump, it takes it: it lands at or after the target (or at the
/// end of the document); otherwise it stays put.
pub proof fn lemma_define_skip_sets_jump(m: Model, point: Point)
    requires
        wf(m),
        valid_target((point.index, point.vs), m.bytes.len()),
        point.line >= m.first_line,
    ensures
        ({
            let r = spec_define_skip(m, point);
            let at = point.line - m.first_line;
            let back = point_back(m.bytes, point);
            let slot = if at < m.column_start.len() {
                at
            } else {
                m.column_start.len() as int
            };
            let table_len = if at < m.column_start.len() {
                m.column_start.len()
            } else {
                m.column_start.len() + 1
            };
            &&& table_len <= r.column_start.len()
            &&& r.column_start[slot] == (back.index, back.vs)
            &&& forall|i: int|
                0 <= i < m.column_start.len() && i != slot ==> #[trigger] r.column_start[i]
                    == m.column_start[i]
            &&& r.events == m.events && r.stack == m.stack && r.attempts == m.attempts
            &&& r.current == m.current && r.resolvers == m.resolvers
            &&& if m.point.column == 1 && 0 <= line_offset(m) < table_len {
                !before(r.point, r.column_start[line_offset(m)]) || r.point.index >= m.bytes.len()
            } else {
                r.point == m.point
            }
        }),
{
    lemma_back_index(m.bytes, point.index as nat);
    let back = point_back(m.bytes, point);
    let at = point.line - m.first_line;
    let table = if at >= m.column_start.len() {
        m.column_start.push((back.index, back.vs))
    } else {
        m.column_start.update(at, (back.index, back.vs))
    };
    let t = Model { column_start: table, ..m };
    assert forall|i: int| 0 <= i < t.column_start.len() implies valid_target(
        #[trigger] t.column_start[i],
        t.bytes.len(),
    ) by {
        if i < m.column_start.len() && t.column_start[i] != (back.index, back.vs) {
            assert(t.column_start[i] == m.column_start[i]);
        }
    }
    assert forall|i: int| 0 <= i < t.attempts.len() implies attempt_fits(#[trigger] t.attempts[i], t) by {
        assert(attempt_fits(m.attempts[i], m));
    }
    assert(wf(t));
    lemma_take_jump(t);
    if jump_applies(t) {
        lemma_walk_arrives(t, seq![t.column_start[line_offset(t)]]);
    }
}

/// Moving back past ignored bytes moves back over exactly the carriage
/// returns of CRLFs right before the point: every byte passed over is one,
/// the byte before the landing place is not, and only the index changes.
pub proof fn lemma_move_back_exact(bytes: Seq<u8>, point: Point)
    ensures
        point_back(bytes, point).index <= point.index,
        forall|j: int|
            point_back(bytes, point).index <= j < point.index ==> #[trigger] ignorable(bytes, j),
        !(point_back(bytes, point).index > 0 && ignorable(
            bytes,
            point_back(bytes, point).index - 1,
        )),
        point_back(bytes, point).line == point.line,
        point_back(bytes, point).column == point.column,
        point_back(bytes, point).vs == point.vs,
    decreases point.index,
{
    lemma_back_index(bytes, point.index as nat);
    lemma_move_back_settles(bytes, point);
    if point.index > 0 && ignorable(bytes, point.index - 1) {
        let earlier = Point { index: (point.index - 1) as usize, ..point };
        lemma_move_back_exact(bytes, earlier);
        assert(point_back(bytes, point) == point_back(bytes, earlier));
    }
}

/// Exiting adds one exit event of the given name, without a link, and
/// closes the innermost open token. The event is at the start of the line
/// (before any jump) right after a line feed, and at the current point moved
/// back past ignored bytes otherwise.
pub proof fn lemma_exit_event(m: Model, name: Name)
    ensures
        spec_exit(m, name).events.len() == m.events.len() + 1,
        spec_exit(m, name).events.drop_last() == m.events,
        spec_exit(m, name).events.last().kind == Kind::Exit,
        spec_exit(m, name).events.last().name == name,
        (spec_exit(m, name).events.last().link is None),
        spec_exit(m, name).stack == m.stack.drop_last(),
        m.previous == Some(10u8) ==> spec_exit(m, name).events.last().point == m.line_start,
        m.previous != Some(10u8) ==> spec_exit(m, name).events.last().point == (Point {
            index: back_index(m.bytes, m.point.index as nat) as usize,
            ..m.point
        }),
        spec_exit(m, name).point == m.point,
{
    assert(spec_exit(m, name).events.drop_last() =~= m.events);
}

/// Entering adds one enter event of the given name and link, at the current
/// point moved back past ignored bytes, and opens the token. The link of
/// `enter_with_content` carries the given content type (and no neighbours),
/// or is absent when no content type is given.
pub proof fn lemma_enter_event(m: Model, name: Name, link: Option<Link>, content: Content)
    ensures
        spec_enter(m, name, link).events.len() == m.events.len() + 1,
        spec_enter(m, name, link).events.drop_last() == m.events,
        spec_enter(m, name, link).events.last() == (Event {
            kind: Kind::Enter,
            name,
            point: Point { index: back_index(m.bytes, m.point.index as nat) as usize, ..m.point },
            link,
        }),
        spec_enter(m, name, link).stack == m.stack.push(name),
        content_link(Some(content)) == Some(
            (Link { previous: None, next: None, content_type: content }),
        ),
        (content_link(None) is None),
        spec_enter(m, name, content_link(Some(content))).events.last().link == Some(
            (Link { previous: None, next: None, content_type: content }),
        ),
{
    assert(spec_enter(m, name, link).events.drop_last() =~= m.events);
}

/// A resolver that is not registered yet is appended (by
/// `register_resolver`) or put in front (by `register_resolver_before`),
/// with the others kept in order; one that is registered already leaves the
/// list as it is.
pub proof fn lemma_register_resolver_order(m: Model, name: ResolveName)
    ensures
        !m.resolvers.contains(name) ==> spec_register_resolver(m, name).resolvers
            == m.resolvers.push(name),
        !m.resolvers.contains(name) ==> spec_register_resolver_before(m, name).resolvers == seq![
            name,
        ] + m.resolvers,
        m.resolvers.contains(name) ==> spec_register_resolver(m, name).resolvers == m.resolvers,
        m.resolvers.contains(name) ==> spec_register_resolver_before(m, name).resolvers
            == m.resolvers,
        spec_register_resolver(m, name).events == m.events,
        spec_register_resolver(m, name).point == m.point,
        spec_register_resolver_before(m, name).events == m.events,
        spec_register_resolver_before(m, name).point == m.point,
{
}

/// The non-lazy continuation succeeds only across a line ending onto a line
/// that is not lazy: anything but a line feed (the end of the document too)
/// fails at the start without changing anything; a line feed is consumed
/// inside a `LineEnding` token and leads to `after`, which fails exactly on
/// a lazy line, changing nothing.
pub proof fn lemma_continuation(m: Model)
    requires
        wf(m),
        current_fits(m),
    ensures
        m.current != Some(10u8) ==> spec_start(m) == (m, State::Nok),
        m.current == Some(10u8) ==> spec_start(m).1 == State::Next(
            StateName::NonLazyContinuationAfter,
        ),
        m.current == Some(10u8) ==> spec_start(m).0.stack == m.stack,
        m.current == Some(10u8) ==> spec_start(m).0.events.len() == m.events.len() + 2,
        m.current == Some(10u8) ==> (spec_start(m).0.current is None),
        m.current == Some(10u8) ==> spec_start(m).0.previous == Some(10u8),
        spec_after(m).0 == m,
        spec_after(m).1 == (if m.lazy {
            State::Nok
        } else {
            State::Okay
        }),
        m.lazy ==> spec_after(m).1 != State::Okay,
{
    if m.current == Some(10u8) {
        let entered = spec_enter(m, Name::LineEnding, None);
        let eaten = spec_consume(entered);
        assert(m.stack.push(Name::LineEnding).drop_last() =~= m.stack);
        lemma_step(entered);
    }
}

} // verus!
