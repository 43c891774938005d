//! The tokenizer glues states from the state machine together.
//!
//! It turns bytes into events, tracks where it is in the document, and
//! supports attempts to parse something that can be reverted when they fail
//! (`attempt`) or always (`check`).
use vstd::prelude::*;

use crate::constant::TAB_SIZE;
use crate::event::{is_void, Content, Event, Kind, Link, Name, Point};
use crate::parser::ParseState;
use crate::resolve::Name as ResolveName;
use crate::state::{call, call_allowed, lemma_call, rank, spec_call, State};

verus! {

/// Info used to tokenize the current container.
#[derive(Debug)]
pub struct ContainerState {
    /// Kind.
    pub kind: Container,
    /// Whether the first line was blank.
    pub blank_initial: bool,
    /// The size of the initial construct.
    pub size: usize,
}

/// How to handle a byte.
#[derive(Clone, Copy, Debug, PartialEq, Eq, Structural)]
pub enum ByteAction {
    /// A normal byte, possibly a replacement (a line feed for a carriage
    /// return, a space for the rest of a tab).
    Normal(u8),
    /// A virtual byte inside a tab, which does not advance the index.
    Insert(u8),
    /// A byte to skip (the carriage return of a CRLF).
    Ignore,
}

/// Supported containers.
#[derive(Debug, PartialEq, Eq, Structural)]
pub enum Container {
    /// A block quote.
    BlockQuote,
    /// A list item.
    ListItem,
}

/// Loose label starts we found.
#[derive(Debug)]
pub struct LabelStart {
    /// Indices of where the label starts and ends in `events`.
    pub start: (usize, usize),
    /// Whether this label start can no longer form a link.
    pub inactive: bool,
}

/// Media we found.
#[derive(Debug)]
pub struct Media {
    /// Indices of where the media's label start starts and ends in `events`.
    pub start: (usize, usize),
    /// Indices of where the media's label end starts and ends in `events`.
    pub end: (usize, usize),
}

/// Different kinds of attempts.
#[derive(Clone, Copy, Debug, PartialEq, Eq, Structural)]
pub enum AttemptKind {
    /// Discard what was tokenized when unsuccessful.
    Attempt,
    /// Discard always.
    Check,
}

/// How to handle `State::Okay` or `State::Nok`.
#[derive(Clone, Copy, Debug)]
pub struct Attempt {
    /// Where to go to when successful.
    pub ok: State,
    /// Where to go to when unsuccessful.
    pub nok: State,
    /// Kind of attempt.
    pub kind: AttemptKind,
    /// If needed, the progress to revert to.
    pub progress: Option<Progress>,
}

/// A snapshot of where the tokenizer is, to revert to.
#[derive(Clone, Copy, Debug)]
pub struct Progress {
    /// Length of `events`.
    pub events_len: usize,
    /// Length of the stack.
    pub stack_len: usize,
    /// Previous byte.
    pub previous: Option<u8>,
    /// Current byte.
    pub current: Option<u8>,
    /// Current place in the file.
    pub point: Point,
}

/// The mathematical state of a tokenizer.
pub struct Model {
    /// The document.
    pub bytes: Seq<u8>,
    /// Jumps to take after line endings, by line (counted from `first_line`).
    pub column_start: Seq<(usize, usize)>,
    /// First line where this tokenizer starts.
    pub first_line: usize,
    /// Point after the last line ending.
    pub line_start: Point,
    /// Whether the current byte is consumed.
    pub consumed: bool,
    /// Stack of pending attempts.
    pub attempts: Seq<Attempt>,
    /// Current byte.
    pub current: Option<u8>,
    /// Previous byte.
    pub previous: Option<u8>,
    /// Current place.
    pub point: Point,
    /// Events so far.
    pub events: Seq<Event>,
    /// Open tokens.
    pub stack: Seq<Name>,
    /// Registered resolvers.
    pub resolvers: Seq<ResolveName>,
    /// Whether we would be interrupting something.
    pub interrupt: bool,
    /// Whether containers cannot pierce into the current construct.
    pub concrete: bool,
    /// Whether this line is lazy.
    pub lazy: bool,
}

/// How many virtual spaces a tab at `column` expands to after itself.
pub open spec fn tab_gap(column: usize) -> nat {
    if column % TAB_SIZE == 0 {
        0
    } else {
        (TAB_SIZE - column % TAB_SIZE) as nat
    }
}

/// How the byte at `point` is handled: carriage returns become line feeds
/// (and are skipped before a line feed), tabs are sent as themselves and then
/// as spaces until the next tab stop.
pub open spec fn spec_byte_action(bytes: Seq<u8>, point: Point) -> ByteAction {
    let byte = bytes[point.index as int];
    if byte == 13u8 {
        if point.index + 1 < bytes.len() && bytes[point.index + 1] == 10u8 {
            ByteAction::Ignore
        } else {
            ByteAction::Normal(10u8)
        }
    } else if byte == 9u8 {
        let gap = tab_gap(point.column);
        if point.vs == 0 {
            if gap == 0 {
                ByteAction::Normal(byte)
            } else {
                ByteAction::Insert(byte)
            }
        } else if gap == 0 {
            ByteAction::Normal(32u8)
        } else {
            ByteAction::Insert(32u8)
        }
    } else {
        ByteAction::Normal(byte)
    }
}

/// Whether the byte at `index` is the carriage return of a CRLF.
pub open spec fn ignorable(bytes: Seq<u8>, index: int) -> bool {
    0 <= index && index + 1 < bytes.len() && bytes[index] == 13u8 && bytes[index + 1] == 10u8
}

/// The index reached by moving back past ignored bytes.
pub open spec fn back_index(bytes: Seq<u8>, index: nat) -> nat
    decreases index,
{
    if index > 0 && ignorable(bytes, index - 1) {
        back_index(bytes, (index - 1) as nat)
    } else {
        index
    }
}

/// `point`, moved back past ignored bytes.
pub open spec fn point_back(bytes: Seq<u8>, point: Point) -> Point {
    Point { index: back_index(bytes, point.index as nat) as usize, ..point }
}

/// Whether `point` comes before `to` (an index and a virtual step).
pub open spec fn before(point: Point, to: (usize, usize)) -> bool {
    point.index < to.0 || (point.index == to.0 && point.vs < to.1)
}

/// Whether `to` is a place in a document of `len` bytes that can be moved to.
pub open spec fn valid_target(to: (usize, usize), len: nat) -> bool {
    to.0 < len || (to.0 == len && to.1 == 0)
}

/// Whether moving from `point` to `to` stays inside the document.
pub open spec fn reachable(point: Point, to: (usize, usize), len: nat) -> bool {
    !before(point, to) || valid_target(to, len)
}

/// A measure that each step through the document decreases.
pub open spec fn potential(m: Model) -> nat {
    (4 * (m.bytes.len() - m.point.index) + tab_gap(m.point.column)) as nat
}

/// Whether moving through the rest of the document from `point` keeps every
/// number in range.
pub open spec fn point_fits(point: Point, len: nat) -> bool {
    &&& point.index <= len
    &&& point.column + tab_gap(point.column) + 4 * (len - point.index) <= usize::MAX
    &&& point.line + (len - point.index) < usize::MAX
    &&& point.vs + tab_gap(point.column) <= usize::MAX
    &&& point.index == len ==> point.vs == 0
}

/// Whether `point` is on a line that the jump table covers.
pub open spec fn line_fits(point: Point, first_line: usize, table_len: nat) -> bool {
    first_line <= point.line && point.line - first_line <= table_len
}

/// Whether an attempt can be reverted to a valid place.
pub open spec fn attempt_fits(attempt: Attempt, m: Model) -> bool {
    attempt.progress matches Some(p) ==> {
        &&& point_fits(p.point, m.bytes.len())
        &&& line_fits(p.point, m.first_line, m.column_start.len())
        &&& p.current is Some ==> p.point.index < m.bytes.len()
    }
}

/// Whether a byte that is current (fed but not yet consumed) lies inside the
/// document, so that it can be consumed.
pub open spec fn current_fits(m: Model) -> bool {
    m.current is Some ==> m.point.index < m.bytes.len()
}

/// Well-formedness of a tokenizer state.
pub open spec fn wf(m: Model) -> bool {
    &&& m.bytes.len() <= usize::MAX
    &&& point_fits(m.point, m.bytes.len())
    &&& line_fits(m.point, m.first_line, m.column_start.len())
    &&& forall|i: int|
        0 <= i < m.column_start.len() ==> valid_target(#[trigger] m.column_start[i], m.bytes.len())
    &&& forall|i: int| 0 <= i < m.attempts.len() ==> attempt_fits(#[trigger] m.attempts[i], m)
}

/// Whether the byte at the current point is a line ending.
pub open spec fn at_line_ending(m: Model) -> bool {
    spec_byte_action(m.bytes, m.point) == ByteAction::Normal(10u8)
}

/// One step through the document, without taking jumps.
pub open spec fn raw_step(m: Model) -> Model {
    let p = m.point;
    match spec_byte_action(m.bytes, p) {
        ByteAction::Ignore => Model { point: Point { index: (p.index + 1) as usize, ..p }, ..m },
        ByteAction::Insert(byte) => Model {
            previous: Some(byte),
            point: Point { column: (p.column + 1) as usize, vs: (p.vs + 1) as usize, ..p },
            ..m
        },
        ByteAction::Normal(byte) => if byte == 10u8 {
            let point = Point {
                line: (p.line + 1) as usize,
                column: 1,
                index: (p.index + 1) as usize,
                vs: 0,
            };
            let table = if point.line - m.first_line + 1 > m.column_start.len() {
                m.column_start.push((point.index, point.vs))
            } else {
                m.column_start
            };
            Model { previous: Some(byte), point, column_start: table, line_start: point, ..m }
        } else {
            Model {
                previous: Some(byte),
                point: Point {
                    column: (p.column + 1) as usize,
                    vs: 0,
                    index: (p.index + 1) as usize,
                    ..p
                },
                ..m
            }
        },
    }
}

/// The line of the current point, counted from the first line.
pub open spec fn line_offset(m: Model) -> int {
    m.point.line - m.first_line
}

/// Whether a jump is defined for the start of the current line, and we are
/// there.
pub open spec fn jump_applies(m: Model) -> bool {
    m.point.column == 1 && 0 <= line_offset(m) < m.column_start.len()
}

/// Move through the document towards the last of `targets`, taking the jump
/// of each line that is reached on the way (moving to it first).
pub open spec fn walk(m: Model, targets: Seq<(usize, usize)>) -> Model
    decreases potential(m), targets.len(),
    when wf(m)
{
    if targets.len() == 0 {
        m
    } else if !before(m.point, targets.last()) || m.point.index >= m.bytes.len() {
        walk(m, targets.drop_last())
    } else {
        let r = raw_step(m);
        proof {
            lemma_raw_step(m);
        }
        if at_line_ending(m) && jump_applies(r) {
            walk(r, targets.push(r.column_start[line_offset(r)]))
        } else {
            walk(r, targets)
        }
    }
}

/// Take the jump defined for the current line, if we are at its start.
pub open spec fn take_jump(m: Model) -> Model {
    if jump_applies(m) {
        walk(m, seq![m.column_start[line_offset(m)]])
    } else {
        m
    }
}

/// Move to the next (virtual) byte.
pub open spec fn step(m: Model) -> Model {
    if at_line_ending(m) {
        take_jump(raw_step(m))
    } else {
        raw_step(m)
    }
}

/// What a step leaves unchanged.
pub open spec fn same_outside_position(a: Model, b: Model) -> bool {
    &&& a.bytes == b.bytes
    &&& a.first_line == b.first_line
    &&& a.consumed == b.consumed
    &&& a.attempts == b.attempts
    &&& a.current == b.current
    &&& a.events == b.events
    &&& a.stack == b.stack
    &&& a.resolvers == b.resolvers
    &&& a.interrupt == b.interrupt
    &&& a.concrete == b.concrete
    &&& a.lazy == b.lazy
    &&& a.column_start.len() <= b.column_start.len()
    &&& forall|i: int| 0 <= i < a.column_start.len() ==> #[trigger] b.column_start[i] == a.column_start[i]
}

/// One column further, a tab expands to one virtual space less (down to
/// none at a tab stop); the gap after column 1 is a full tab minus one.
pub proof fn lemma_tab_gap_next(c: usize)
    requires
        c < usize::MAX,
    ensures
        tab_gap(c) > 0 ==> tab_gap((c + 1) as usize) == tab_gap(c) - 1,
        tab_gap(c) <= 3,
        tab_gap((c + 1) as usize) <= 3,
        tab_gap(1) == 3,
{
}

/// A step without jumps keeps a tokenizer well-formed and decreases the
/// potential.
pub proof fn lemma_raw_step(m: Model)
    requires
        wf(m),
        m.point.index < m.bytes.len(),
    ensures
        wf(raw_step(m)),
        potential(raw_step(m)) < potential(m),
        same_outside_position(m, raw_step(m)),
        before(m.point, ((raw_step(m).point.index), raw_step(m).point.vs)),
{
    let p = m.point;
    let len = m.bytes.len();
    lemma_tab_gap_next(p.column);
    let r = raw_step(m);
    assert(p.index + 1 <= len);
    match spec_byte_action(m.bytes, p) {
        ByteAction::Ignore => {
            assert(point_fits(r.point, len));
        },
        ByteAction::Insert(byte) => {
            assert(tab_gap(p.column) > 0);
            assert(r.point.column == p.column + 1);
            assert(tab_gap(r.point.column) == tab_gap(p.column) - 1);
            assert(point_fits(r.point, len));
        },
        ByteAction::Normal(byte) => {
            if byte == 10u8 {
                assert(tab_gap(r.point.column) == 3);
                assert(point_fits(r.point, len));
            } else {
                assert(r.point.column == p.column + 1);
                assert(point_fits(r.point, len));
            }
        },
    }
    assert forall|i: int| 0 <= i < r.column_start.len() implies valid_target(
        #[trigger] r.column_start[i],
        r.bytes.len(),
    ) by {
        if i < m.column_start.len() {
            assert(r.column_start[i] == m.column_start[i]);
        }
    }
    assert forall|i: int| 0 <= i < r.attempts.len() implies attempt_fits(#[trigger] r.attempts[i], r) by {
        assert(attempt_fits(m.attempts[i], m));
    }
}

/// Walking keeps a tokenizer well-formed, never increases the potential, and
/// only changes its position.
pub proof fn lemma_walk(m: Model, targets: Seq<(usize, usize)>)
    requires
        wf(m),
    ensures
        wf(walk(m, targets)),
        potential(walk(m, targets)) <= potential(m),
        same_outside_position(m, walk(m, targets)),
        !before(walk(m, targets).point, (m.point.index, m.point.vs)),
    decreases potential(m), targets.len(),
{
    if targets.len() == 0 {
    } else if !before(m.point, targets.last()) || m.point.index >= m.bytes.len() {
        lemma_walk(m, targets.drop_last());
    } else {
        let r = raw_step(m);
        lemma_raw_step(m);
        if at_line_ending(m) && jump_applies(r) {
            lemma_walk(r, targets.push(r.column_start[line_offset(r)]));
        } else {
            lemma_walk(r, targets);
        }
    }
}

/// Walking stops at or after the first target (or at the end).
pub proof fn lemma_walk_arrives(m: Model, targets: Seq<(usize, usize)>)
    requires
        wf(m),
        targets.len() > 0,
    ensures
        !before(walk(m, targets).point, targets[0]) || walk(m, targets).point.index
            >= m.bytes.len(),
    decreases potential(m), targets.len(),
{
    if !before(m.point, targets.last()) || m.point.index >= m.bytes.len() {
        if targets.len() > 1 {
            lemma_walk_arrives(m, targets.drop_last());
        }
    } else {
        let r = raw_step(m);
        lemma_raw_step(m);
        if at_line_ending(m) && jump_applies(r) {
            lemma_walk_arrives(r, targets.push(r.column_start[line_offset(r)]));
        } else {
            lemma_walk_arrives(r, targets);
        }
    }
}

/// Walking to a stack of targets is walking to the top one, then to the rest.
pub proof fn lemma_walk_compose(m: Model, targets: Seq<(usize, usize)>, to: (usize, usize))
    requires
        wf(m),
    ensures
        walk(m, targets.push(to)) == walk(walk(m, seq![to]), targets),
    decreases potential(m),
{
    let pushed = targets.push(to);
    let single = seq![to];
    assert(pushed.last() == to);
    assert(pushed.drop_last() =~= targets);
    assert(single.drop_last() =~= Seq::<(usize, usize)>::empty());
    if !before(m.point, to) || m.point.index >= m.bytes.len() {
        assert(walk(m, single) == walk(m, Seq::<(usize, usize)>::empty()));
    } else {
        let r = raw_step(m);
        lemma_raw_step(m);
        if at_line_ending(m) && jump_applies(r) {
            let jump = r.column_start[line_offset(r)];
            lemma_walk_compose(r, pushed, jump);
            lemma_walk_compose(r, single, jump);
            let r2 = walk(r, seq![jump]);
            lemma_walk(r, seq![jump]);
            lemma_walk_compose(r2, targets, to);
        } else {
            lemma_walk_compose(r, targets, to);
        }
    }
}

/// A step keeps a tokenizer well-formed, decreases the potential, and only
/// changes its position.
pub proof fn lemma_step(m: Model)
    requires
        wf(m),
        m.point.index < m.bytes.len(),
    ensures
        wf(step(m)),
        potential(step(m)) < potential(m),
        same_outside_position(m, step(m)),
        before(m.point, (step(m).point.index, step(m).point.vs)),
{
    lemma_raw_step(m);
    let r = raw_step(m);
    if at_line_ending(m) && jump_applies(r) {
        lemma_walk(r, seq![r.column_start[line_offset(r)]]);
    }
}

/// Taking a jump keeps a tokenizer well-formed and only changes its position.
pub proof fn lemma_take_jump(m: Model)
    requires
        wf(m),
    ensures
        wf(take_jump(m)),
        potential(take_jump(m)) <= potential(m),
        same_outside_position(m, take_jump(m)),
{
    if jump_applies(m) {
        lemma_walk(m, seq![m.column_start[line_offset(m)]]);
    }
}

/// Moving back never moves forward, and stays put at the end of the document.
pub proof fn lemma_back_index(bytes: Seq<u8>, index: nat)
    ensures
        back_index(bytes, index) <= index,
        index >= bytes.len() ==> back_index(bytes, index) == index,
    decreases index,
{
    if index > 0 && ignorable(bytes, index - 1) {
        lemma_back_index(bytes, (index - 1) as nat);
    }
}

/// A shared tokenize state as a new tokenizer holds it.
pub open spec fn fresh_tokenize_state(s: TokenizeState) -> bool {
    &&& s.document_child is None
    &&& s.document_child_state is None
    &&& s.document_container_stack@.len() == 0
    &&& s.document_continued == 0
    &&& s.document_data_index is None
    &&& s.document_exits@.len() == 0
    &&& !s.document_paragraph_before
    &&& s.space_or_tab_eol_content_type is None
    &&& !s.space_or_tab_eol_connect
    &&& !s.space_or_tab_eol_ok
    &&& !s.space_or_tab_connect
    &&& s.space_or_tab_content_type is None
    &&& s.space_or_tab_min == 0
    &&& s.space_or_tab_max == 0
    &&& s.space_or_tab_size == 0
    &&& s.space_or_tab_token == Name::SpaceOrTab
    &&& s.label_start_stack@.len() == 0
    &&& s.label_start_list_loose@.len() == 0
    &&& s.media_list@.len() == 0
    &&& s.definitions@.len() == 0
    &&& !s.connect
    &&& s.marker == 0
    &&& s.marker_b == 0
    &&& s.markers@.len() == 0
    &&& !s.seen
    &&& s.size == 0
    &&& s.size_b == 0
    &&& s.size_c == 0
    &&& s.start == 0
    &&& s.end == 0
    &&& s.token_1 == Name::Data
    &&& s.token_2 == Name::Data
    &&& s.token_3 == Name::Data
    &&& s.token_4 == Name::Data
    &&& s.token_5 == Name::Data
}

/// The state of a new tokenizer at `point`.
pub open spec fn initial_model(point: Point, bytes: Seq<u8>) -> Model {
    Model {
        bytes,
        column_start: Seq::empty(),
        first_line: point.line,
        line_start: point,
        consumed: true,
        attempts: Seq::empty(),
        current: None,
        previous: None,
        point,
        events: Seq::empty(),
        stack: Seq::empty(),
        resolvers: Seq::empty(),
        interrupt: false,
        concrete: false,
        lazy: false,
    }
}

/// Define a jump: after the line ending before the line of `point`, move to
/// `point` (moved back past ignored bytes).
pub open spec fn spec_define_skip(m: Model, point: Point) -> Model {
    let back = point_back(m.bytes, point);
    let at = point.line - m.first_line;
    let table = if at >= m.column_start.len() {
        m.column_start.push((back.index, back.vs))
    } else {
        m.column_start.update(at, (back.index, back.vs))
    };
    take_jump(Model { column_start: table, ..m })
}

/// Consume the current byte.
pub open spec fn spec_consume(m: Model) -> Model {
    Model { previous: m.current, current: None, consumed: true, ..step(m) }
}

/// Prepare for a next byte to get consumed.
pub open spec fn spec_expect(m: Model, byte: Option<u8>) -> Model {
    Model { consumed: false, current: byte, ..m }
}

/// Mark the start of a token: an enter event at the current point (moved
/// back past ignored bytes), and the name on the stack of open tokens.
pub open spec fn spec_enter(m: Model, name: Name, link: Option<Link>) -> Model {
    Model {
        events: m.events.push(
            Event { kind: Kind::Enter, name, point: point_back(m.bytes, m.point), link },
        ),
        stack: m.stack.push(name),
        ..m
    }
}

/// The link that `enter_with_content` attaches.
pub open spec fn content_link(content_type: Option<Content>) -> Option<Link> {
    match content_type {
        Some(content_type) => Some(Link { previous: None, next: None, content_type }),
        None => None,
    }
}

/// Where a token ends: right after a line ending it ends at the start of the
/// line (without the jump), otherwise at the current point moved back past
/// ignored bytes.
pub open spec fn exit_point(m: Model) -> Point {
    if m.previous == Some(10u8) {
        m.line_start
    } else {
        point_back(m.bytes, m.point)
    }
}

/// Whether `name` can be exited: it is the innermost open token, the token
/// is not empty (it does not end where its enter event is, unless another
/// event came in between), and a token that cannot contain others holds
/// none (the last event is its enter).
pub open spec fn exit_allowed(m: Model, name: Name) -> bool {
    &&& m.stack.len() > 0
    &&& m.events.len() > 0
    &&& m.stack.last() == name
    &&& is_void(name) ==> m.events.last().name == name
    &&& (m.events.last().name != name || m.events.last().point.index != m.point.index
        || m.events.last().point.vs != m.point.vs)
}

/// Mark the end of a token: an exit event, and the top of the stack of open
/// tokens removed.
pub open spec fn spec_exit(m: Model, name: Name) -> Model {
    Model {
        stack: m.stack.drop_last(),
        events: m.events.push(Event { kind: Kind::Exit, name, point: exit_point(m), link: None }),
        ..m
    }
}

/// The progress of a tokenizer, to revert to.
pub open spec fn spec_capture(m: Model) -> Progress {
    Progress {
        events_len: m.events.len() as usize,
        stack_len: m.stack.len() as usize,
        previous: m.previous,
        current: m.current,
        point: m.point,
    }
}

/// The first `len` items of `s`, or all of them when there are fewer.
pub open spec fn truncated<T>(s: Seq<T>, len: usize) -> Seq<T> {
    if len < s.len() {
        s.take(len as int)
    } else {
        s
    }
}

/// Revert to captured progress.
pub open spec fn spec_free(m: Model, progress: Progress) -> Model {
    Model {
        previous: progress.previous,
        current: progress.current,
        point: progress.point,
        events: truncated(m.events, progress.events_len),
        stack: truncated(m.stack, progress.stack_len),
        ..m
    }
}

/// Stack a check: progress is always captured, to revert to in any case.
pub open spec fn spec_check(m: Model, ok: State, nok: State) -> Model {
    Model {
        attempts: m.attempts.push(
            Attempt { ok, nok, kind: AttemptKind::Check, progress: Some(spec_capture(m)) },
        ),
        ..m
    }
}

/// Stack an attempt: progress is captured, to revert to on failure, unless
/// failure goes to `State::Nok` (then an enclosing attempt reverts).
pub open spec fn spec_attempt(m: Model, ok: State, nok: State) -> Model {
    Model {
        attempts: m.attempts.push(
            Attempt {
                ok,
                nok,
                kind: AttemptKind::Attempt,
                progress: if nok == State::Nok {
                    None
                } else {
                    Some(spec_capture(m))
                },
            },
        ),
        ..m
    }
}

/// Settle the innermost attempt with `state` (`Okay` or `Nok`): pop it,
/// revert if it is a check or failed (and captured progress), and go on to
/// its `ok` or `nok` state.
pub open spec fn spec_settle(m: Model, state: State) -> (Model, State) {
    let attempt = m.attempts.last();
    let popped = Model { attempts: m.attempts.drop_last(), ..m };
    let reverted = if attempt.kind == AttemptKind::Check || state == State::Nok {
        match attempt.progress {
            Some(progress) => spec_free(popped, progress),
            None => popped,
        }
    } else {
        popped
    };
    (
        Model { consumed: true, ..reverted },
        if state == State::Okay {
            attempt.ok
        } else {
            attempt.nok
        },
    )
}

/// Register a resolver, at the end, unless it is registered already.
pub open spec fn spec_register_resolver(m: Model, name: ResolveName) -> Model {
    if m.resolvers.contains(name) {
        m
    } else {
        Model { resolvers: m.resolvers.push(name), ..m }
    }
}

/// Register a resolver, at the start, unless it is registered already.
pub open spec fn spec_register_resolver_before(m: Model, name: ResolveName) -> Model {
    if m.resolvers.contains(name) {
        m
    } else {
        Model { resolvers: seq![name] + m.resolvers, ..m }
    }
}

/// One step of the state machine that runs the tokenizer, towards `to`:
/// `Okay` and `Nok` settle the innermost attempt; `Next` feeds the next byte
/// (skipping ignored ones, and feeding nothing at the end when flushing);
/// `Retry` feeds the current byte again. `None` when the machine halts.
pub open spec fn spec_push_step(m: Model, to: (usize, usize), state: State, flush: bool) -> Option<
    (Model, State),
> {
    match state {
        State::Okay | State::Nok => if m.attempts.len() > 0 {
            Some(spec_settle(m, state))
        } else {
            None
        },
        State::Next(name) => if before(m.point, to) && m.point.index < m.bytes.len() {
            match spec_byte_action(m.bytes, m.point) {
                ByteAction::Ignore => Some((step(m), state)),
                ByteAction::Insert(byte) => Some(spec_call(spec_expect(m, Some(byte)), name)),
                ByteAction::Normal(byte) => Some(spec_call(spec_expect(m, Some(byte)), name)),
            }
        } else if flush {
            Some(spec_call(spec_expect(m, None), name))
        } else {
            None
        },
        State::Retry(name) => Some(spec_call(m, name)),
    }
}

/// Run the state machine until it halts; the result is the final tokenizer
/// (with its current byte marked consumed) and the state it halted in.
pub open spec fn spec_run(m: Model, to: (usize, usize), state: State, flush: bool) -> (
    Model,
    State,
)
    decreases m.attempts.len(), potential(m), rank(state),
    when wf(m) && current_fits(m)
{
    match spec_push_step(m, to, state, flush) {
        Some(next) => {
            proof {
                lemma_push_step(m, to, state, flush);
            }
            spec_run(next.0, to, next.1, flush)
        },
        None => (Model { consumed: true, ..m }, state),
    }
}

/// Whether one step of the state machine may run: a byte is only fed after
/// the previous one was consumed, and a state function retried on the
/// current byte must be able to run on it.
pub open spec fn step_allowed(m: Model, to: (usize, usize), state: State, flush: bool) -> bool {
    match state {
        State::Next(_) => if before(m.point, to) && m.point.index < m.bytes.len() {
            spec_byte_action(m.bytes, m.point) == ByteAction::Ignore || m.consumed
        } else {
            !flush || m.consumed
        },
        State::Retry(name) => call_allowed(m, name),
        _ => true,
    }
}

/// Whether every step of the run may run.
pub open spec fn run_allowed(m: Model, to: (usize, usize), state: State, flush: bool) -> bool
    decreases m.attempts.len(), potential(m), rank(state),
    when wf(m) && current_fits(m)
{
    if !step_allowed(m, to, state, flush) {
        false
    } else {
        match spec_push_step(m, to, state, flush) {
            Some(next) => {
                proof {
                    lemma_push_step(m, to, state, flush);
                }
                run_allowed(next.0, to, next.1, flush)
            },
            None => true,
        }
    }
}

/// Whether `from` is not before `point`.
pub open spec fn not_behind(point: Point, from: (usize, usize)) -> bool {
    from.0 > point.index || (from.0 == point.index && from.1 >= point.vs)
}

/// Flush: run the state machine to the end of what was fed, feeding nothing
/// at the end; when resolving, take the registered resolvers out (they are
/// what the second part of the result holds).
pub open spec fn spec_flush(m: Model, state: State, resolve: bool) -> (Model, Seq<ResolveName>) {
    let done = spec_run(m, (m.point.index, m.point.vs), state, true).0;
    if resolve {
        (Model { resolvers: Seq::empty(), ..done }, done.resolvers)
    } else {
        (done, Seq::empty())
    }
}

/// A run ends with the current byte marked consumed; a run without
/// flushing that ends in a `Next` state stopped at or after `to`.
pub proof fn lemma_run_ends(m: Model, to: (usize, usize), state: State, flush: bool)
    requires
        wf(m),
        current_fits(m),
        valid_target(to, m.bytes.len()),
    ensures
        spec_run(m, to, state, flush).0.consumed,
        !flush && spec_run(m, to, state, flush).1 is Next ==> !before(
            spec_run(m, to, state, flush).0.point,
            to,
        ),
    decreases m.attempts.len(), potential(m), rank(state),
{
    match spec_push_step(m, to, state, flush) {
        Some(next) => {
            lemma_push_step(m, to, state, flush);
            lemma_run_ends(next.0, to, next.1, flush);
        },
        None => {},
    }
}

/// Each step of the state machine keeps the tokenizer well-formed and goes
/// down in (attempts, potential, rank).
pub proof fn lemma_push_step(m: Model, to: (usize, usize), state: State, flush: bool)
    requires
        wf(m),
        current_fits(m),
        spec_push_step(m, to, state, flush) is Some,
    ensures
        ({
            let next = spec_push_step(m, to, state, flush).unwrap();
            &&& wf(next.0)
            &&& current_fits(next.0)
            &&& next.0.bytes == m.bytes
            &&& (next.0.attempts.len() < m.attempts.len() || (next.0.attempts.len()
                == m.attempts.len() && (potential(next.0) < potential(m) || (potential(next.0)
                == potential(m) && rank(next.1) < rank(state)))))
        }),
{
    match state {
        State::Okay | State::Nok => {
            let next = spec_settle(m, state);
            let attempt = m.attempts.last();
            assert(attempt_fits(attempt, m));
            let n = next.0;
            assert forall|i: int| 0 <= i < n.attempts.len() implies attempt_fits(
                #[trigger] n.attempts[i],
                n,
            ) by {
                assert(n.attempts[i] == m.attempts[i]);
                assert(attempt_fits(m.attempts[i], m));
            }
        },
        State::Next(name) => {
            if before(m.point, to) && m.point.index < m.bytes.len() {
                match spec_byte_action(m.bytes, m.point) {
                    ByteAction::Ignore => {
                        lemma_step(m);
                        lemma_raw_step(m);
                    },
                    ByteAction::Insert(byte) => {
                        lemma_call(spec_expect(m, Some(byte)), name);
                    },
                    ByteAction::Normal(byte) => {
                        lemma_call(spec_expect(m, Some(byte)), name);
                    },
                }
            } else {
                lemma_call(spec_expect(m, None), name);
            }
        },
        State::Retry(name) => {
            lemma_call(m, name);
        },
    }
}

/// Shared fields used to tokenize things.
#[derive(Debug)]
pub struct TokenizeState<'a> {
    /// Tokenizer, used to tokenize flow in document.
    pub document_child: Option<Box<Tokenizer<'a>>>,
    /// State, used to tokenize containers.
    pub document_child_state: Option<State>,
    /// Stack of currently active containers.
    pub document_container_stack: Vec<ContainerState>,
    /// How many active containers continued.
    pub document_continued: usize,
    /// Index of last `data`.
    pub document_data_index: Option<usize>,
    /// Container exits by line number.
    pub document_exits: Vec<Option<Vec<Event>>>,
    /// Whether the previous flow was a paragraph.
    pub document_paragraph_before: bool,
    /// Content type of whitespace with line endings.
    pub space_or_tab_eol_content_type: Option<Content>,
    /// Whether to connect whitespace with line endings.
    pub space_or_tab_eol_connect: bool,
    /// Whether whitespace with line endings was found.
    pub space_or_tab_eol_ok: bool,
    /// Whether to connect whitespace.
    pub space_or_tab_connect: bool,
    /// Content type of whitespace.
    pub space_or_tab_content_type: Option<Content>,
    /// Minimum size of whitespace.
    pub space_or_tab_min: usize,
    /// Maximum size of whitespace.
    pub space_or_tab_max: usize,
    /// Size of whitespace.
    pub space_or_tab_size: usize,
    /// Token name of whitespace.
    pub space_or_tab_token: Name,
    /// Stack of label (start) that could form images and links.
    pub label_start_stack: Vec<LabelStart>,
    /// Stack of label (start) that cannot form images and links.
    pub label_start_list_loose: Vec<LabelStart>,
    /// Stack of images and links.
    pub media_list: Vec<Media>,
    /// List of defined identifiers.
    pub definitions: Vec<String>,
    /// Whether to connect tokens.
    pub connect: bool,
    /// Marker.
    pub marker: u8,
    /// Secondary marker.
    pub marker_b: u8,
    /// Several markers.
    pub markers: &'static [u8],
    /// Whether something was seen.
    pub seen: bool,
    /// Size.
    pub size: usize,
    /// Secondary size.
    pub size_b: usize,
    /// Tertiary size.
    pub size_c: usize,
    /// Index.
    pub start: usize,
    /// Index.
    pub end: usize,
    /// Slot for a token type.
    pub token_1: Name,
    /// Slot for a token type.
    pub token_2: Name,
    /// Slot for a token type.
    pub token_3: Name,
    /// Slot for a token type.
    pub token_4: Name,
    /// Slot for a token type.
    pub token_5: Name,
}

/// A tokenizer itself.
#[derive(Debug)]
pub struct Tokenizer<'a> {
    /// Jump between line endings.
    pub column_start: Vec<(usize, usize)>,
    /// First line where this tokenizer starts.
    pub first_line: usize,
    /// Current point after the last line ending (excluding jump).
    pub line_start: Point,
    /// Whether the current byte is already consumed.
    pub consumed: bool,
    /// Stack of how to handle attempts.
    pub attempts: Vec<Attempt>,
    /// Current byte.
    pub current: Option<u8>,
    /// Previous byte.
    pub previous: Option<u8>,
    /// Current relative and absolute place in the file.
    pub point: Point,
    /// Semantic labels.
    pub events: Vec<Event>,
    /// Hierarchy of semantic labels.
    pub stack: Vec<Name>,
    /// List of resolvers.
    pub resolvers: Vec<ResolveName>,
    /// Shared parsing state across tokenizers.
    pub parse_state: &'a ParseState<'a>,
    /// Shared fields used to tokenize things.
    pub tokenize_state: TokenizeState<'a>,
    /// Whether we would be interrupting something.
    pub interrupt: bool,
    /// Whether containers cannot "pierce" into the current construct.
    pub concrete: bool,
    /// Whether this line is lazy.
    pub lazy: bool,
}

impl<'a> View for Tokenizer<'a> {
    type V = Model;

    open spec fn view(&self) -> Model {
        Model {
            bytes: self.parse_state.bytes@,
            column_start: self.column_start@,
            first_line: self.first_line,
            line_start: self.line_start,
            consumed: self.consumed,
            attempts: self.attempts@,
            current: self.current,
            previous: self.previous,
            point: self.point,
            events: self.events@,
            stack: self.stack@,
            resolvers: self.resolvers@,
            interrupt: self.interrupt,
            concrete: self.concrete,
            lazy: self.lazy,
        }
    }
}

/// What the tokenizer's operations leave as it was: the document and the
/// shared tokenize state.
pub open spec fn same_context(a: &Tokenizer, b: &Tokenizer) -> bool {
    a.parse_state == b.parse_state && a.tokenize_state == b.tokenize_state
}

impl<'a> Tokenizer<'a> {
    /// Create a new tokenizer.
    pub fn new(point: Point, parse_state: &'a ParseState) -> (tokenizer: Tokenizer<'a>)
        requires
            point_fits(point, parse_state.bytes@.len()),
        ensures
            tokenizer@ == initial_model(point, parse_state.bytes@),
            wf(tokenizer@),
            tokenizer.parse_state == parse_state,
            fresh_tokenize_state(tokenizer.tokenize_state),
    {
        // The document's length fits in `usize`, as every slice length does.
        let len = parse_state.bytes.len();
        assert(parse_state.bytes@.len() == len);
        Tokenizer {
            previous: None,
            current: None,
            column_start: Vec::new(),
            first_line: point.line,
            line_start: point,
            consumed: true,
            attempts: Vec::new(),
            point,
            stack: Vec::new(),
            events: Vec::new(),
            parse_state,
            tokenize_state: TokenizeState {
                connect: false,
                document_container_stack: Vec::new(),
                document_exits: Vec::new(),
                document_continued: 0,
                document_paragraph_before: false,
                document_data_index: None,
                document_child_state: None,
                document_child: None,
                definitions: Vec::new(),
                end: 0,
                label_start_stack: Vec::new(),
                label_start_list_loose: Vec::new(),
                marker: 0,
                marker_b: 0,
                markers: &[],
                media_list: Vec::new(),
                seen: false,
                size: 0,
                size_b: 0,
                size_c: 0,
                space_or_tab_eol_content_type: None,
                space_or_tab_eol_connect: false,
                space_or_tab_eol_ok: false,
                space_or_tab_connect: false,
                space_or_tab_content_type: None,
                space_or_tab_min: 0,
                space_or_tab_max: 0,
                space_or_tab_size: 0,
                space_or_tab_token: Name::SpaceOrTab,
                start: 0,
                token_1: Name::Data,
                token_2: Name::Data,
                token_3: Name::Data,
                token_4: Name::Data,
                token_5: Name::Data,
            },
            interrupt: false,
            concrete: false,
            lazy: false,
            resolvers: Vec::new(),
        }
    }

    /// Define a jump between two places.
    ///
    /// This defines to which future index we move after a line ending.
    pub fn define_skip(&mut self, point: Point)
        requires
            wf(old(self)@),
            valid_target((point.index, point.vs), old(self)@.bytes.len()),
            point.line >= old(self)@.first_line,
        ensures
            final(self)@ == spec_define_skip(old(self)@, point),
            wf(final(self)@),
            same_context(final(self), old(self)),
    {
        let mut point = point;
        proof {
            lemma_back_index(self@.bytes, point.index as nat);
        }
        move_point_back(self, &mut point);
        let info = (point.index, point.vs);
        let at = point.line - self.first_line;
        if at >= self.column_start.len() {
            self.column_start.push(info);
        } else {
            self.column_start.set(at, info);
        }
        proof {
            let m = self@;
            assert forall|i: int| 0 <= i < m.column_start.len() implies valid_target(
                #[trigger] m.column_start[i],
                m.bytes.len(),
            ) by {
                if i < old(self)@.column_start.len() && m.column_start[i] != info {
                    assert(m.column_start[i] == old(self)@.column_start[i]);
                }
            }
            assert forall|i: int| 0 <= i < m.attempts.len() implies attempt_fits(
                #[trigger] m.attempts[i],
                m,
            ) by {
                assert(attempt_fits(old(self)@.attempts[i], old(self)@));
            }
        }
        self.account_for_potential_skip();
    }

    /// Increment the current positional info if we're right after a line
    /// ending, which has a skip defined.
    fn account_for_potential_skip(&mut self)
        requires
            wf(old(self)@),
        ensures
            final(self)@ == take_jump(old(self)@),
            wf(final(self)@),
            same_context(final(self), old(self)),
        decreases potential(old(self)@), 2nat,
    {
        proof {
            lemma_take_jump(self@);
        }
        let at = self.point.line - self.first_line;
        if self.point.column == 1 && at != self.column_start.len() {
            let target = self.column_start[at];
            self.move_to(target);
        }
    }

    /// Prepare for a next byte to get consumed.
    fn expect(&mut self, byte: Option<u8>)
        requires
            old(self)@.consumed,
        ensures
            final(self)@ == spec_expect(old(self)@, byte),
            same_context(final(self), old(self)),
    {
        self.consumed = false;
        self.current = byte;
    }

    /// Consume the current byte.
    /// Each state function is expected to call this to signal that this code is
    /// used, or call a next function.
    pub fn consume(&mut self)
        requires
            wf(old(self)@),
            old(self)@.point.index < old(self)@.bytes.len(),
            !old(self)@.consumed,
        ensures
            final(self)@ == spec_consume(old(self)@),
            wf(final(self)@),
            same_context(final(self), old(self)),
    {
        self.move_one();
        self.previous = self.current;
        // While we're not at eof, it is at least better to not have the
        // same current code as `previous` *and* `current`.
        self.current = None;
        // Mark as consumed.
        self.consumed = true;
        proof {
            lemma_step(old(self)@);
        }
    }

    /// Move to the next (virtual) byte.
    fn move_one(&mut self)
        requires
            wf(old(self)@),
            old(self)@.point.index < old(self)@.bytes.len(),
        ensures
            final(self)@ == step(old(self)@),
            wf(final(self)@),
            old(self)@.column_start.len() <= final(self)@.column_start.len(),
            forall|i: int|
                0 <= i < old(self)@.column_start.len() ==> #[trigger] final(self)@.column_start[i]
                    == old(self)@.column_start[i],
            same_context(final(self), old(self)),
        decreases potential(old(self)@), 0nat,
    {
        proof {
            lemma_raw_step(self@);
            lemma_step(self@);
        }
        match byte_action(self.parse_state.bytes, &self.point) {
            ByteAction::Ignore => {
                self.point.index += 1;
            },
            ByteAction::Insert(byte) => {
                self.previous = Some(byte);
                self.point.column += 1;
                self.point.vs += 1;
            },
            ByteAction::Normal(byte) => {
                self.previous = Some(byte);
                self.point.vs = 0;
                self.point.index += 1;
                if byte == 10u8 {
                    self.point.line += 1;
                    self.point.column = 1;
                    if self.point.line - self.first_line + 1 > self.column_start.len() {
                        self.column_start.push((self.point.index, self.point.vs));
                    }
                    self.line_start = self.point;
                    assert(self@ == raw_step(old(self)@));
                    self.account_for_potential_skip();
                } else {
                    self.point.column += 1;
                }
            },
        }
    }

    /// Move (virtual) bytes.
    fn move_to(&mut self, to: (usize, usize))
        requires
            wf(old(self)@),
            reachable(old(self)@.point, to, old(self)@.bytes.len()),
        ensures
            final(self)@ == walk(old(self)@, seq![to]),
            wf(final(self)@),
            same_context(final(self), old(self)),
        decreases potential(old(self)@), 1nat,
    {
        let (to_index, to_vs) = to;
        assert(to_index == to.0 && to_vs == to.1);
        let ghost start = self@;
        while self.point.index < to_index || self.point.index == to_index && self.point.vs < to_vs
            invariant
                wf(self@),
                reachable(self@.point, to, self@.bytes.len()),
                walk(self@, seq![to]) == walk(start, seq![to]),
                potential(self@) <= potential(start),
                start == old(self)@,
                wf(start),
                to_index == to.0,
                to_vs == to.1,
                self@.bytes == start.bytes,
                same_context(self, old(self)),
            decreases potential(self@),
        {
            proof {
                let m = self@;
                assert(before(m.point, to));
                assert(valid_target(to, m.bytes.len()));
                lemma_step(m);
                lemma_raw_step(m);
                let r = raw_step(m);
                if at_line_ending(m) && jump_applies(r) {
                    lemma_walk_compose(r, seq![to], r.column_start[line_offset(r)]);
                    assert(seq![to].push(r.column_start[line_offset(r)]).drop_last() =~= seq![to]);
                }
            }
            self.move_one();
        }
        proof {
            let m = self@;
            assert(seq![to].drop_last() =~= Seq::<(usize, usize)>::empty());
            assert(walk(m, Seq::<(usize, usize)>::empty()) == m);
            assert(walk(m, seq![to]) == walk(m, seq![to].drop_last()));
        }
    }

    /// Register a resolver.
    pub fn register_resolver(&mut self, name: ResolveName)
        ensures
            final(self)@ == spec_register_resolver(old(self)@, name),
            same_context(final(self), old(self)),
    {
        if !has_resolver(&self.resolvers, name) {
            self.resolvers.push(name);
        }
    }

    /// Register a resolver, before others.
    pub fn register_resolver_before(&mut self, name: ResolveName)
        ensures
            final(self)@ == spec_register_resolver_before(old(self)@, name),
            same_context(final(self), old(self)),
    {
        if !has_resolver(&self.resolvers, name) {
            self.resolvers.insert(0, name);
            assert(self@.resolvers =~= seq![name] + old(self)@.resolvers);
        }
    }

    /// Mark the start of a semantic label.
    pub fn enter(&mut self, name: Name)
        requires
            wf(old(self)@),
        ensures
            final(self)@ == spec_enter(old(self)@, name, None),
            same_context(final(self), old(self)),
    {
        self.enter_with_link(name, None);
    }

    /// Enter with a content type.
    pub fn enter_with_content(&mut self, name: Name, content_type_opt: Option<Content>)
        requires
            wf(old(self)@),
        ensures
            final(self)@ == spec_enter(old(self)@, name, content_link(content_type_opt)),
            same_context(final(self), old(self)),
    {
        let link = match content_type_opt {
            Some(content_type) => Some(Link { content_type, previous: None, next: None }),
            None => None,
        };
        self.enter_with_link(name, link);
    }

    /// Enter with a link.
    pub fn enter_with_link(&mut self, name: Name, link: Option<Link>)
        requires
            wf(old(self)@),
        ensures
            final(self)@ == spec_enter(old(self)@, name, link),
            same_context(final(self), old(self)),
    {
        let mut point = self.point;
        move_point_back(self, &mut point);
        self.events.push(Event { kind: Kind::Enter, name, point, link });
        self.stack.push(name);
    }

    /// Mark the end of a semantic label.
    pub fn exit(&mut self, name: Name)
        requires
            wf(old(self)@),
            exit_allowed(old(self)@, name),
        ensures
            final(self)@ == spec_exit(old(self)@, name),
            same_context(final(self), old(self)),
    {
        let _current_token = self.stack.pop();
        let mut point = self.point;
        // A bit weird, but if we exit right after a line ending, we *don't* want to consider
        // potential skips.
        match self.previous {
            Some(10u8) => {
                point = self.line_start;
            },
            _ => {
                move_point_back(self, &mut point);
            },
        }
        self.events.push(Event { kind: Kind::Exit, name, point, link: None });
    }

    /// Capture the tokenizer progress.
    fn capture(&self) -> (progress: Progress)
        ensures
            progress == spec_capture(self@),
    {
        Progress {
            previous: self.previous,
            current: self.current,
            point: self.point,
            events_len: self.events.len(),
            stack_len: self.stack.len(),
        }
    }

    /// Apply tokenizer progress.
    fn free(&mut self, previous: Progress)
        ensures
            final(self)@ == spec_free(old(self)@, previous),
            same_context(final(self), old(self)),
    {
        self.previous = previous.previous;
        self.current = previous.current;
        self.point = previous.point;
        self.events.truncate(previous.events_len);
        self.stack.truncate(previous.stack_len);
        assert(self@.events =~= truncated(old(self)@.events, previous.events_len));
        assert(self@.stack =~= truncated(old(self)@.stack, previous.stack_len));
    }

    /// Stack an attempt, moving to `ok` on `State::Okay` and `nok` on
    /// `State::Nok`, reverting in both cases.
    pub fn check(&mut self, ok: State, nok: State)
        ensures
            final(self)@ == spec_check(old(self)@, ok, nok),
            same_context(final(self), old(self)),
    {
        // Always capture (and restore) when checking.
        let progress = Some(self.capture());
        self.attempts.push(Attempt { kind: AttemptKind::Check, progress, ok, nok });
    }

    /// Stack an attempt, moving to `ok` on `State::Okay` and `nok` on
    /// `State::Nok`, reverting in the latter case.
    pub fn attempt(&mut self, ok: State, nok: State)
        ensures
            final(self)@ == spec_attempt(old(self)@, ok, nok),
            same_context(final(self), old(self)),
    {
        // No need to capture (and restore) when `nok` is `State::Nok`, because the
        // parent attempt will do it.
        let progress = if nok == State::Nok {
            None
        } else {
            Some(self.capture())
        };
        self.attempts.push(Attempt { kind: AttemptKind::Attempt, progress, ok, nok });
    }

    /// Tokenize.
    pub fn push(&mut self, from: (usize, usize), to: (usize, usize), state: State) -> (result: State)
        requires
            wf(old(self)@),
            reachable(old(self)@.point, from, old(self)@.bytes.len()),
            not_behind(old(self)@.point, from),
            valid_target(to, old(self)@.bytes.len()),
            current_fits(walk(old(self)@, seq![from])),
            run_allowed(walk(old(self)@, seq![from]), to, state, false),
            spec_run(walk(old(self)@, seq![from]), to, state, false).1 is Next,
        ensures
            (final(self)@, result) == spec_run(walk(old(self)@, seq![from]), to, state, false),
            result is Next,
            !before(final(self)@.point, to),
            final(self)@.consumed,
            wf(final(self)@),
            current_fits(final(self)@),
            same_context(final(self), old(self)),
    {
        proof {
            lemma_walk(old(self)@, seq![from]);
            lemma_run_ends(walk(old(self)@, seq![from]), to, state, false);
        }
        push_impl(self, from, to, state, false)
    }

    /// Flush: feed the end of the document to the state machine. When
    /// resolving, the registered resolvers are taken off and returned, in
    /// order, for the caller to run over the events.
    pub fn flush(&mut self, state: State, resolve: bool) -> (resolvers: Vec<ResolveName>)
        requires
            wf(old(self)@),
            current_fits(old(self)@),
            run_allowed(old(self)@, (old(self)@.point.index, old(self)@.point.vs), state, true),
            spec_run(old(self)@, (old(self)@.point.index, old(self)@.point.vs), state, true).1
                == State::Okay,
        ensures
            final(self)@ == spec_flush(old(self)@, state, resolve).0,
            final(self)@.consumed,
            resolvers@ == spec_flush(old(self)@, state, resolve).1,
            wf(final(self)@),
            current_fits(final(self)@),
            same_context(final(self), old(self)),
    {
        let to = (self.point.index, self.point.vs);
        proof {
            let m = self@;
            lemma_run_ends(m, to, state, true);
            assert(seq![to].drop_last() =~= Seq::<(usize, usize)>::empty());
            assert(walk(m, Seq::<(usize, usize)>::empty()) == m);
            assert(walk(m, seq![to]) == walk(m, seq![to].drop_last()));
        }
        push_impl(self, to, to, state, true);
        if resolve {
            let resolvers = self.resolvers.split_off(0);
            assert(self@.resolvers =~= Seq::<ResolveName>::empty());
            assert(resolvers@ =~= spec_flush(old(self)@, state, resolve).1);
            resolvers
        } else {
            Vec::new()
        }
    }
}

/// Run the tokenizer.
fn push_impl(
    tokenizer: &mut Tokenizer,
    from: (usize, usize),
    to: (usize, usize),
    state: State,
    flush: bool,
) -> (result: State)
    requires
        wf(old(tokenizer)@),
        reachable(old(tokenizer)@.point, from, old(tokenizer)@.bytes.len()),
        valid_target(to, old(tokenizer)@.bytes.len()),
        current_fits(walk(old(tokenizer)@, seq![from])),
        run_allowed(walk(old(tokenizer)@, seq![from]), to, state, flush),
    ensures
        (final(tokenizer)@, result) == spec_run(walk(old(tokenizer)@, seq![from]), to, state, flush),
        wf(final(tokenizer)@),
        current_fits(final(tokenizer)@),
        same_context(final(tokenizer), old(tokenizer)),
{
    tokenizer.move_to(from);
    let ghost start = tokenizer@;
    let ghost first_state = state;
    let mut state = state;
    loop
        invariant
            wf(tokenizer@),
            current_fits(tokenizer@),
            wf(start),
            current_fits(start),
            start == walk(old(tokenizer)@, seq![from]),
            valid_target(to, tokenizer@.bytes.len()),
            spec_run(tokenizer@, to, state, flush) == spec_run(start, to, first_state, flush),
            run_allowed(tokenizer@, to, state, flush),
            same_context(tokenizer, old(tokenizer)),
        ensures
            spec_push_step(tokenizer@, to, state, flush) is None,
            wf(tokenizer@),
            current_fits(tokenizer@),
            spec_run(tokenizer@, to, state, flush) == spec_run(start, to, first_state, flush),
            same_context(tokenizer, old(tokenizer)),
        decreases tokenizer@.attempts.len(), potential(tokenizer@), rank(state),
    {
        let ghost m = tokenizer@;
        proof {
            if spec_push_step(m, to, state, flush) is Some {
                lemma_push_step(m, to, state, flush);
            }
        }
        match state {
            State::Okay | State::Nok => {
                if let Some(attempt) = tokenizer.attempts.pop() {
                    if attempt.kind == AttemptKind::Check || state == State::Nok {
                        if let Some(progress) = attempt.progress {
                            tokenizer.free(progress);
                        }
                    }
                    tokenizer.consumed = true;
                    let next = if state == State::Okay {
                        attempt.ok
                    } else {
                        attempt.nok
                    };
                    state = next;
                } else {
                    break ;
                }
            },
            State::Next(name) => {
                let before_to = tokenizer.point.index < to.0 || (tokenizer.point.index == to.0
                    && tokenizer.point.vs < to.1);
                if !before_to && !flush {
                    break ;
                }
                let action = if before_to {
                    Some(byte_action(tokenizer.parse_state.bytes, &tokenizer.point))
                } else {
                    None
                };
                if let Some(ByteAction::Ignore) = action {
                    tokenizer.move_one();
                } else {
                    let byte = match action {
                        Some(ByteAction::Insert(byte)) => Some(byte),
                        Some(ByteAction::Normal(byte)) => Some(byte),
                        _ => None,
                    };
                    tokenizer.expect(byte);
                    state = call(tokenizer, name);
                }
            },
            State::Retry(name) => {
                state = call(tokenizer, name);
            },
        }
    }
    tokenizer.consumed = true;
    state
}

/// Whether `name` is in `list`.
fn has_resolver(list: &Vec<ResolveName>, name: ResolveName) -> (found: bool)
    ensures
        found == list@.contains(name),
{
    let mut index: usize = 0;
    while index < list.len()
        invariant
            index <= list@.len(),
            forall|i: int| 0 <= i < index ==> list@[i] != name,
        decreases list@.len() - index,
    {
        if list[index] == name {
            return true;
        }
        index += 1;
    }
    false
}

/// Move back past ignored bytes.
fn move_point_back(tokenizer: &Tokenizer, point: &mut Point)
    requires
        old(point).index <= tokenizer@.bytes.len(),
    ensures
        *final(point) == point_back(tokenizer@.bytes, *old(point)),
{
    let ghost bytes = tokenizer@.bytes;
    let ghost target = back_index(bytes, old(point).index as nat);
    while point.index > 0
        invariant_except_break
            point.index <= bytes.len(),
            back_index(bytes, point.index as nat) == target,
            point.line == old(point).line,
            point.column == old(point).column,
            point.vs == old(point).vs,
            bytes == tokenizer.parse_state.bytes@,
        ensures
            point.index == target,
            point.line == old(point).line,
            point.column == old(point).column,
            point.vs == old(point).vs,
        decreases point.index,
    {
        point.index -= 1;
        let action = byte_action(tokenizer.parse_state.bytes, point);
        if !matches!(action, ByteAction::Ignore) {
            point.index += 1;
            break;
        }
    }
}

/// Figure out how to handle a byte.
fn byte_action(bytes: &[u8], point: &Point) -> (action: ByteAction)
    requires
        point.index < bytes@.len(),
    ensures
        action == spec_byte_action(bytes@, *point),
{
    let byte = bytes[point.index];
    if byte == 13u8 {
        // CRLF.
        if point.index < bytes.len() - 1 && bytes[point.index + 1] == 10u8 {
            ByteAction::Ignore
        }
        // CR.
         else {
            ByteAction::Normal(10u8)
        }
    } else if byte == 9u8 {
        let remainder = point.column % TAB_SIZE;
        let vs = if remainder == 0 {
            0
        } else {
            TAB_SIZE - remainder
        };

        // On the tab itself, first send it.
        if point.vs == 0 {
            if vs == 0 {
                ByteAction::Normal(byte)
            } else {
                ByteAction::Insert(byte)
            }
        } else if vs == 0 {
            ByteAction::Normal(32u8)
        } else {
            ByteAction::Insert(32u8)
        }
    } else {
        ByteAction::Normal(byte)
    }
}

} // verus!
