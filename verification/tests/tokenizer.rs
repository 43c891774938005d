use lib::event::{Content, Kind, Name, Point};
use lib::parser::ParseState;
use lib::resolve::Name as ResolveName;
use lib::state::{Name as StateName, State};
use lib::construct::partial_non_lazy_continuation::{after, start};
use lib::tokenizer::Tokenizer;

fn start_point() -> Point {
    Point { line: 1, column: 1, index: 0, vs: 0 }
}

fn continuation() -> State {
    State::Next(StateName::NonLazyContinuationStart)
}

#[test]
fn new_tokenizer_is_empty() {
    let parse_state = ParseState { bytes: b"a" };
    let tokenizer = Tokenizer::new(start_point(), &parse_state);
    assert_eq!(tokenizer.point, start_point());
    assert_eq!(tokenizer.first_line, 1);
    assert!(tokenizer.consumed);
    assert!(tokenizer.events.is_empty());
    assert!(tokenizer.stack.is_empty());
    assert!(tokenizer.resolvers.is_empty());
    assert!(tokenizer.attempts.is_empty());
    assert!(tokenizer.column_start.is_empty());
    assert_eq!(tokenizer.current, None);
    assert_eq!(tokenizer.previous, None);
    assert!(!tokenizer.lazy && !tokenizer.interrupt && !tokenizer.concrete);
    assert_eq!(tokenizer.tokenize_state.space_or_tab_token, Name::SpaceOrTab);
    assert_eq!(tokenizer.tokenize_state.token_1, Name::Data);
    assert_eq!(tokenizer.tokenize_state.size, 0);
}

fn after_state() -> State {
    State::Next(StateName::NonLazyContinuationAfter)
}

#[test]
fn start_on_line_feed_enters_and_exits() {
    let parse_state = ParseState { bytes: b"\nb" };
    let mut tokenizer = Tokenizer::new(start_point(), &parse_state);
    tokenizer.current = Some(b'\n');
    tokenizer.consumed = false;
    let state = start(&mut tokenizer);
    assert_eq!(state, after_state());
    assert_eq!(tokenizer.events.len(), 2);
    assert_eq!(tokenizer.events[0].kind, Kind::Enter);
    assert_eq!(tokenizer.events[0].name, Name::LineEnding);
    assert_eq!(tokenizer.events[0].point, start_point());
    assert_eq!(tokenizer.events[1].kind, Kind::Exit);
    assert_eq!(tokenizer.events[1].name, Name::LineEnding);
    assert_eq!(tokenizer.events[1].point, Point { line: 2, column: 1, index: 1, vs: 0 });
    assert_eq!(tokenizer.point, Point { line: 2, column: 1, index: 1, vs: 0 });
    assert!(tokenizer.stack.is_empty());
    assert_eq!(tokenizer.previous, Some(b'\n'));
    assert_eq!(tokenizer.current, None);
    assert!(tokenizer.consumed);
}

#[test]
fn start_without_line_ending_fails() {
    let parse_state = ParseState { bytes: b"ab" };
    let mut tokenizer = Tokenizer::new(start_point(), &parse_state);
    tokenizer.current = Some(b'a');
    tokenizer.consumed = false;
    assert_eq!(start(&mut tokenizer), State::Nok);
    assert!(tokenizer.events.is_empty());
    assert_eq!(tokenizer.point, start_point());
    assert_eq!(tokenizer.current, Some(b'a'));
}

#[test]
fn after_fails_on_lazy_line() {
    let parse_state = ParseState { bytes: b"b" };
    let mut tokenizer = Tokenizer::new(start_point(), &parse_state);
    assert_eq!(after(&mut tokenizer), State::Okay);
    tokenizer.lazy = true;
    assert_eq!(after(&mut tokenizer), State::Nok);
    assert_eq!(tokenizer.point, start_point());
}

#[test]
fn push_feeds_line_feed_and_stops_at_to() {
    let parse_state = ParseState { bytes: b"\nb" };
    let mut tokenizer = Tokenizer::new(start_point(), &parse_state);
    let state = tokenizer.push((0, 0), (1, 0), continuation());
    assert_eq!(state, after_state());
    assert_eq!(tokenizer.events.len(), 2);
    assert_eq!(tokenizer.point, Point { line: 2, column: 1, index: 1, vs: 0 });
    assert!(tokenizer.consumed);
    assert_eq!(tokenizer.column_start, vec![(1, 0)]);
}

#[test]
fn push_over_two_line_endings() {
    let parse_state = ParseState { bytes: b"\n\n" };
    let mut tokenizer = Tokenizer::new(start_point(), &parse_state);
    // After the first line ending, the next line is not lazy: go on.
    tokenizer.attempt(continuation(), continuation());
    let state = tokenizer.push((0, 0), (2, 0), continuation());
    assert_eq!(state, after_state());
    assert_eq!(tokenizer.events.len(), 4);
    assert_eq!(tokenizer.point, Point { line: 3, column: 1, index: 2, vs: 0 });
    assert!(tokenizer.attempts.is_empty());
}

#[test]
fn lazy_line_fails_and_attempt_reverts() {
    let parse_state = ParseState { bytes: b"\n\n" };
    let mut tokenizer = Tokenizer::new(start_point(), &parse_state);
    tokenizer.push((0, 0), (1, 0), continuation());
    tokenizer.lazy = true;
    tokenizer.attempt(continuation(), continuation());
    let state = tokenizer.push((1, 0), (2, 0), after_state());
    // `after` fails on the lazy line, the attempt reverts to index 1 and
    // goes on with `start` on the second line ending.
    assert_eq!(state, after_state());
    assert_eq!(tokenizer.events.len(), 4);
    assert_eq!(tokenizer.point.index, 2);
}

#[test]
fn crlf_is_one_line_ending() {
    let parse_state = ParseState { bytes: b"\r\nb" };
    let mut tokenizer = Tokenizer::new(start_point(), &parse_state);
    let state = tokenizer.push((0, 0), (2, 0), continuation());
    assert_eq!(state, after_state());
    assert_eq!(tokenizer.events.len(), 2);
    // The enter event is moved back past the ignored carriage return.
    assert_eq!(tokenizer.events[0].point, start_point());
    assert_eq!(tokenizer.events[1].point, Point { line: 2, column: 1, index: 2, vs: 0 });
    assert_eq!(tokenizer.point, Point { line: 2, column: 1, index: 2, vs: 0 });
}

#[test]
fn lone_carriage_return_is_a_line_ending() {
    let parse_state = ParseState { bytes: b"\rb" };
    let mut tokenizer = Tokenizer::new(start_point(), &parse_state);
    let state = tokenizer.push((0, 0), (1, 0), continuation());
    assert_eq!(state, after_state());
    assert_eq!(tokenizer.point, Point { line: 2, column: 1, index: 1, vs: 0 });
    assert_eq!(tokenizer.previous, Some(b'\n'));
}

#[test]
fn flush_feeds_the_end() {
    let parse_state = ParseState { bytes: b"\n" };
    let mut tokenizer = Tokenizer::new(start_point(), &parse_state);
    let state = tokenizer.push((0, 0), (1, 0), continuation());
    assert_eq!(state, after_state());
    tokenizer.register_resolver(ResolveName::Data);
    tokenizer.register_resolver(ResolveName::Text);
    let resolvers = tokenizer.flush(state, true);
    assert_eq!(resolvers, vec![ResolveName::Data, ResolveName::Text]);
    assert!(tokenizer.resolvers.is_empty());
    assert_eq!(tokenizer.current, None);
    assert!(tokenizer.consumed);
    assert_eq!(tokenizer.events.len(), 2);
}

#[test]
fn flush_without_resolving_keeps_resolvers() {
    let parse_state = ParseState { bytes: b"\n" };
    let mut tokenizer = Tokenizer::new(start_point(), &parse_state);
    let state = tokenizer.push((0, 0), (1, 0), continuation());
    tokenizer.register_resolver(ResolveName::Label);
    let resolvers = tokenizer.flush(state, false);
    assert!(resolvers.is_empty());
    assert_eq!(tokenizer.resolvers, vec![ResolveName::Label]);
}

#[test]
fn check_reverts_on_success() {
    let parse_state = ParseState { bytes: b"\n" };
    let mut tokenizer = Tokenizer::new(start_point(), &parse_state);
    tokenizer.check(State::Okay, State::Okay);
    let state = tokenizer.push((0, 0), (1, 0), continuation());
    assert_eq!(tokenizer.events.len(), 2);
    tokenizer.flush(state, false);
    assert!(tokenizer.events.is_empty());
    assert!(tokenizer.stack.is_empty());
    assert_eq!(tokenizer.point, start_point());
    assert!(tokenizer.attempts.is_empty());
    assert_eq!(tokenizer.previous, None);
}

#[test]
fn check_reverts_on_failure() {
    let parse_state = ParseState { bytes: b"\n" };
    let mut tokenizer = Tokenizer::new(start_point(), &parse_state);
    tokenizer.check(State::Okay, State::Okay);
    let state = tokenizer.push((0, 0), (1, 0), continuation());
    tokenizer.lazy = true;
    tokenizer.flush(state, false);
    assert!(tokenizer.events.is_empty());
    assert_eq!(tokenizer.point, start_point());
}

#[test]
fn attempt_keeps_progress_on_success() {
    let parse_state = ParseState { bytes: b"\n" };
    let mut tokenizer = Tokenizer::new(start_point(), &parse_state);
    tokenizer.attempt(State::Okay, State::Okay);
    let state = tokenizer.push((0, 0), (1, 0), continuation());
    tokenizer.flush(state, false);
    assert_eq!(tokenizer.events.len(), 2);
    assert_eq!(tokenizer.point.index, 1);
    assert!(tokenizer.attempts.is_empty());
}

#[test]
fn attempt_reverts_on_failure() {
    let parse_state = ParseState { bytes: b"\n" };
    let mut tokenizer = Tokenizer::new(start_point(), &parse_state);
    tokenizer.attempt(State::Okay, State::Okay);
    let state = tokenizer.push((0, 0), (1, 0), continuation());
    tokenizer.lazy = true;
    tokenizer.flush(state, false);
    assert!(tokenizer.events.is_empty());
    assert_eq!(tokenizer.point, start_point());
}

#[test]
fn attempt_failing_to_nok_leaves_reverting_to_parent() {
    let parse_state = ParseState { bytes: b"\n" };
    let mut tokenizer = Tokenizer::new(start_point(), &parse_state);
    tokenizer.check(State::Okay, State::Okay);
    tokenizer.attempt(State::Okay, State::Nok);
    assert!(tokenizer.attempts[1].progress.is_none());
    let state = tokenizer.push((0, 0), (1, 0), continuation());
    tokenizer.lazy = true;
    // The inner attempt fails to `Nok` without reverting; the outer check reverts.
    tokenizer.flush(state, false);
    assert!(tokenizer.events.is_empty());
    assert_eq!(tokenizer.point, start_point());
}

#[test]
fn register_resolver_ignores_duplicates() {
    let parse_state = ParseState { bytes: b"" };
    let mut tokenizer = Tokenizer::new(start_point(), &parse_state);
    tokenizer.register_resolver(ResolveName::Attention);
    tokenizer.register_resolver(ResolveName::Data);
    tokenizer.register_resolver(ResolveName::Attention);
    assert_eq!(tokenizer.resolvers, vec![ResolveName::Attention, ResolveName::Data]);
}

#[test]
fn register_resolver_before_puts_first() {
    let parse_state = ParseState { bytes: b"" };
    let mut tokenizer = Tokenizer::new(start_point(), &parse_state);
    tokenizer.register_resolver(ResolveName::Attention);
    tokenizer.register_resolver_before(ResolveName::Label);
    tokenizer.register_resolver_before(ResolveName::Attention);
    assert_eq!(tokenizer.resolvers, vec![ResolveName::Label, ResolveName::Attention]);
}

#[test]
fn enter_and_exit_balance() {
    let parse_state = ParseState { bytes: b"ab" };
    let mut tokenizer = Tokenizer::new(start_point(), &parse_state);
    tokenizer.enter_with_content(Name::Paragraph, Some(Content::Text));
    tokenizer.enter(Name::Data);
    assert_eq!(tokenizer.stack, vec![Name::Paragraph, Name::Data]);
    tokenizer.current = Some(b'a');
    tokenizer.consumed = false;
    tokenizer.consume();
    tokenizer.exit(Name::Data);
    tokenizer.exit(Name::Paragraph);
    assert!(tokenizer.stack.is_empty());
    assert_eq!(tokenizer.events.len(), 4);
    let link = tokenizer.events[0].link.unwrap();
    assert_eq!(link.content_type, Content::Text);
    assert_eq!(link.previous, None);
    assert_eq!(link.next, None);
    assert!(tokenizer.events[1].link.is_none());
    assert_eq!(tokenizer.events[3].kind, Kind::Exit);
    assert_eq!(tokenizer.events[3].name, Name::Paragraph);
}

#[test]
fn enter_moves_back_past_carriage_return() {
    let parse_state = ParseState { bytes: b"\r\nb" };
    let point = Point { line: 1, column: 1, index: 1, vs: 0 };
    let mut tokenizer = Tokenizer::new(point, &parse_state);
    tokenizer.enter(Name::LineEnding);
    assert_eq!(tokenizer.events[0].point.index, 0);
    assert_eq!(tokenizer.events[0].point.column, 1);
}

#[test]
fn define_skip_jumps_at_line_start() {
    let parse_state = ParseState { bytes: b"  b\nc" };
    let mut tokenizer = Tokenizer::new(start_point(), &parse_state);
    tokenizer.define_skip(Point { line: 1, column: 3, index: 2, vs: 0 });
    assert_eq!(tokenizer.column_start, vec![(2, 0)]);
    assert_eq!(tokenizer.point, Point { line: 1, column: 3, index: 2, vs: 0 });
    assert_eq!(tokenizer.previous, Some(b' '));
}

#[test]
fn skip_over_tab_expands_to_tab_stop() {
    let parse_state = ParseState { bytes: b"\tb" };
    let mut tokenizer = Tokenizer::new(start_point(), &parse_state);
    tokenizer.define_skip(Point { line: 1, column: 5, index: 1, vs: 0 });
    assert_eq!(tokenizer.point, Point { line: 1, column: 5, index: 1, vs: 0 });
    assert_eq!(tokenizer.previous, Some(b' '));
}

#[test]
fn skip_into_tab_stops_at_virtual_space() {
    let parse_state = ParseState { bytes: b"\tb" };
    let mut tokenizer = Tokenizer::new(start_point(), &parse_state);
    tokenizer.define_skip(Point { line: 1, column: 3, index: 0, vs: 2 });
    assert_eq!(tokenizer.point, Point { line: 1, column: 3, index: 0, vs: 2 });
    assert_eq!(tokenizer.previous, Some(b' '));
}

#[test]
fn skip_defined_for_next_line_is_taken_after_line_ending() {
    let parse_state = ParseState { bytes: b"\n> b" };
    let mut tokenizer = Tokenizer::new(start_point(), &parse_state);
    // Line 1 needs no jump; line 2 jumps past `> `.
    tokenizer.define_skip(Point { line: 1, column: 1, index: 0, vs: 0 });
    tokenizer.define_skip(Point { line: 2, column: 3, index: 3, vs: 0 });
    assert_eq!(tokenizer.column_start, vec![(0, 0), (3, 0)]);
    let state = tokenizer.push((0, 0), (3, 0), continuation());
    assert_eq!(state, after_state());
    assert_eq!(tokenizer.point, Point { line: 2, column: 3, index: 3, vs: 0 });
    // The exit of the line ending is at the start of the line, not after the jump.
    assert_eq!(tokenizer.events[1].point, Point { line: 2, column: 1, index: 1, vs: 0 });
}

#[test]
fn consume_moves_forward() {
    let parse_state = ParseState { bytes: b"ab" };
    let mut tokenizer = Tokenizer::new(start_point(), &parse_state);
    tokenizer.current = Some(b'a');
    tokenizer.consumed = false;
    tokenizer.consume();
    assert_eq!(tokenizer.point, Point { line: 1, column: 2, index: 1, vs: 0 });
    assert_eq!(tokenizer.previous, Some(b'a'));
    assert_eq!(tokenizer.current, None);
    assert!(tokenizer.consumed);
}

#[test]
fn consume_inside_tab_steps_virtually() {
    let parse_state = ParseState { bytes: b"\tb" };
    let point = Point { line: 1, column: 2, index: 0, vs: 0 };
    let mut tokenizer = Tokenizer::new(point, &parse_state);
    tokenizer.consumed = false;
    tokenizer.consume();
    assert_eq!(tokenizer.point, Point { line: 1, column: 3, index: 0, vs: 1 });
    tokenizer.consumed = false;
    tokenizer.consume();
    assert_eq!(tokenizer.point, Point { line: 1, column: 4, index: 0, vs: 2 });
    tokenizer.consumed = false;
    tokenizer.consume();
    assert_eq!(tokenizer.point, Point { line: 1, column: 5, index: 1, vs: 0 });
}
