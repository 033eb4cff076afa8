//! Mouse events, the cached pointer position and pointer control.
//!
//! Raw events reach the host through [`read_stream`]; [`split_events`] narrows
//! them to scroll and button events, and [`store_last_pos`] keeps
//! [`GlobalMousePos`] current. Commands travel the other way: the host hands
//! them to [`mover_events`], and the dispatcher thread turns each into one
//! call on the pointer handle, as [`dispatcher_step`] decides.
//!
//! Nothing here touches the operating system. Whoever drives these functions
//! installs the hook, asks for the pointer position when [`store_last_pos`]
//! says so, and performs the calls that the dispatcher names.

use vstd::prelude::*;
use crossbeam_channel::{Receiver, Sender};
use crate::channel::{send_message, take_buffered};
use crate::hook::{BridgeEvent, HookFailure};

verus! {

/// A mouse button.
#[derive(Copy, Clone, Debug, PartialEq, Eq, Hash, Structural)]
pub enum GlobalMouseButton {
    Left,
    Middle,
    Right,
}

/// The direction of one scroll step.
#[derive(Copy, Clone, Debug, PartialEq, Eq, Hash, Structural)]
pub enum GlobalScrollDirection {
    Up,
    Down,
    Right,
    Left,
}

/// One raw event as the mouse hook reports it.
#[derive(Copy, Clone, Debug, PartialEq, Eq, Hash, Structural)]
pub enum MouseEvent {
    /// The pointer moved by an offset.
    RelativeMove(i32, i32),
    /// The pointer moved to a position.
    AbsoluteMove(i32, i32),
    Press(GlobalMouseButton),
    Release(GlobalMouseButton),
    Scroll(GlobalScrollDirection),
}

/// Why a call on the pointer handle failed.
#[derive(Debug, PartialEq, Eq)]
pub enum MouseError {
    NotImplemented,
    WriteFailed,
    UnhookFailed,
    X11PointerWindowMismatch,
    InputIsBlocked,
    CGCouldNotCreateEvent,
    PermissionDenied,
    CustomError(String),
}

impl MouseError {
    /// The reason to give the host when the mouse hook was refused with this
    /// error. A missing privilege is told apart from everything else.
    pub fn hook_failure(&self) -> (reason: HookFailure)
        ensures
            reason == (match *self {
                MouseError::PermissionDenied => HookFailure::PermissionDenied,
                _ => HookFailure::Other,
            }),
    {
        match self {
            MouseError::PermissionDenied => HookFailure::PermissionDenied,
            _ => HookFailure::Other,
        }
    }
}

/// What to tell the hook bridge once the attempt to install the mouse hook
/// has returned.
pub fn hook_outcome(result: Result<(), MouseError>) -> (event: BridgeEvent)
    ensures
        event == (match result {
            Ok(_) => BridgeEvent::Installed,
            Err(MouseError::PermissionDenied) => BridgeEvent::Refused(HookFailure::PermissionDenied),
            Err(_) => BridgeEvent::Refused(HookFailure::Other),
        }),
{
    match result {
        Ok(_) => BridgeEvent::Installed,
        Err(error) => BridgeEvent::Refused(error.hook_failure()),
    }
}

/// Contains all mouse events. Using more concrete events like
/// [`GlobalMouseButtonEvents`] and [`GlobalScrollEvents`] is recommended.
#[derive(Copy, Clone, Debug, PartialEq, Eq, Structural)]
pub struct GlobalMouseEvents(pub MouseEvent);

/// Scroll wheel events. One event per scroll step, only contains the
/// direction.
#[derive(Copy, Clone, Debug, PartialEq, Eq, Structural)]
pub struct GlobalScrollEvents(pub GlobalScrollDirection);

/// Mouse button press events.
#[derive(Copy, Clone, Debug, PartialEq, Eq, Structural)]
pub struct GlobalMouseButtonEvents(pub GlobalMouseButton);

/// The global mouse position.
#[derive(Copy, Clone, Debug, PartialEq, Eq, Structural)]
pub struct GlobalMousePos {
    /// Absolute x coordinate of the mouse. Coordinates span across all monitors.
    pub x: i32,
    /// Absolute y coordinate of the mouse. Coordinates span across all monitors.
    pub y: i32,
}

impl Default for GlobalMousePos {
    /// The origin: what the position is before anything is known of it.
    fn default() -> (pos: GlobalMousePos)
        ensures
            pos.x == 0,
            pos.y == 0,
    {
        GlobalMousePos { x: 0, y: 0 }
    }
}

// ---------------------------------------------------------------------------
// Draining the raw stream
// ---------------------------------------------------------------------------

/// Wraps each raw event for the host, keeping count and order.
pub fn mouse_events_from(raw: Vec<MouseEvent>) -> (events: Vec<GlobalMouseEvents>)
    ensures
        events@.len() == raw@.len(),
        forall|i: int| 0 <= i < raw@.len() ==> (#[trigger] events@[i]).0 == raw@[i],
{
    let mut events: Vec<GlobalMouseEvents> = Vec::new();
    let mut i: usize = 0;
    while i < raw.len()
        invariant
            i <= raw.len(),
            events@.len() == i,
            forall|k: int| 0 <= k < i ==> (#[trigger] events@[k]).0 == raw@[k],
        decreases raw.len() - i,
    {
        events.push(GlobalMouseEvents(raw[i]));
        i += 1;
    }
    events
}

/// Takes the raw mouse events that the hook has queued so far, without
/// waiting, and hands them to the host in arrival order.
///
/// Which events are queued is the hook's doing, so the contract is silent on
/// them; [`mouse_events_from`] says what becomes of each.
pub fn read_stream(receiver: &Receiver<MouseEvent>) -> (events: Vec<GlobalMouseEvents>) {
    mouse_events_from(take_buffered(receiver))
}

// ---------------------------------------------------------------------------
// Derived events
// ---------------------------------------------------------------------------

/// The scroll event that a raw event gives rise to, if any.
pub open spec fn scroll_of(event: GlobalMouseEvents) -> Option<GlobalScrollEvents> {
    match event.0 {
        MouseEvent::Scroll(direction) => Some(GlobalScrollEvents(direction)),
        _ => None,
    }
}

/// The button event that a raw event gives rise to, if any.
pub open spec fn press_of(event: GlobalMouseEvents) -> Option<GlobalMouseButtonEvents> {
    match event.0 {
        MouseEvent::Press(button) => Some(GlobalMouseButtonEvents(button)),
        _ => None,
    }
}

/// The scroll events derived from `events`, in order.
pub open spec fn scrolls_in(events: Seq<GlobalMouseEvents>) -> Seq<GlobalScrollEvents> {
    events.filter_map(|e: GlobalMouseEvents| scroll_of(e))
}

/// The button events derived from `events`, in order.
pub open spec fn presses_in(events: Seq<GlobalMouseEvents>) -> Seq<GlobalMouseButtonEvents> {
    events.filter_map(|e: GlobalMouseEvents| press_of(e))
}

/// Derives the scroll and button events of one tick from its raw events.
pub fn split_events(events: &Vec<GlobalMouseEvents>) -> (derived: (
    Vec<GlobalScrollEvents>,
    Vec<GlobalMouseButtonEvents>,
))
    ensures
        derived.0@ == scrolls_in(events@),
        derived.1@ == presses_in(events@),
{
    let mut scrolls: Vec<GlobalScrollEvents> = Vec::new();
    let mut clicks: Vec<GlobalMouseButtonEvents> = Vec::new();
    let mut i: usize = 0;
    assert(events@.take(0) =~= Seq::<GlobalMouseEvents>::empty());
    while i < events.len()
        invariant
            i <= events.len(),
            scrolls@ == scrolls_in(events@.take(i as int)),
            clicks@ == presses_in(events@.take(i as int)),
        decreases events.len() - i,
    {
        proof {
            events@.lemma_filter_map_take_succ(|e: GlobalMouseEvents| scroll_of(e), i as int);
            events@.lemma_filter_map_take_succ(|e: GlobalMouseEvents| press_of(e), i as int);
        }
        match events[i].0 {
            MouseEvent::Scroll(scroll) => scrolls.push(GlobalScrollEvents(scroll)),
            MouseEvent::Press(click) => clicks.push(GlobalMouseButtonEvents(click)),
            _ => {},
        }
        i += 1;
    }
    assert(events@.take(events@.len() as int) =~= events@);
    (scrolls, clicks)
}

/// Every raw event of kind `Scroll` yields exactly one scroll event with its
/// direction, every `Press` exactly one button event with its button, and no
/// other kind yields anything: appending one raw event appends exactly that to
/// what is derived.
pub proof fn lemma_split_events_one_for_one(events: Seq<GlobalMouseEvents>, next: GlobalMouseEvents)
    ensures
        scrolls_in(events.push(next)) == scrolls_in(events) + (match next.0 {
            MouseEvent::Scroll(direction) => seq![GlobalScrollEvents(direction)],
            _ => Seq::<GlobalScrollEvents>::empty(),
        }),
        presses_in(events.push(next)) == presses_in(events) + (match next.0 {
            MouseEvent::Press(button) => seq![GlobalMouseButtonEvents(button)],
            _ => Seq::<GlobalMouseButtonEvents>::empty(),
        }),
{
    let all = events.push(next);
    assert(all.drop_last() =~= events);
    assert(all.last() == next);
    assert(scrolls_in(events) + Seq::<GlobalScrollEvents>::empty() =~= scrolls_in(events));
    assert(presses_in(events) + Seq::<GlobalMouseButtonEvents>::empty() =~= presses_in(events));
}

// ---------------------------------------------------------------------------
// The cached position
// ---------------------------------------------------------------------------

/// The coordinates that a raw event reports, if it is an absolute move.
pub open spec fn absolute_move_of(event: GlobalMouseEvents) -> Option<(i32, i32)> {
    match event.0 {
        MouseEvent::AbsoluteMove(x, y) => Some((x, y)),
        _ => None,
    }
}

/// The coordinates of the latest absolute move among `events`, if there is
/// one.
pub open spec fn last_absolute_move(events: Seq<GlobalMouseEvents>) -> Option<(i32, i32)> {
    let moves = events.filter_map(|e: GlobalMouseEvents| absolute_move_of(e));
    if moves.len() == 0 {
        None
    } else {
        Some(moves.last())
    }
}

/// What is left to do for the position once a tick's events have been looked
/// at.
#[derive(Copy, Clone, Debug, PartialEq, Eq, Structural)]
pub enum PositionStep {
    /// An absolute move settled the position.
    Settled,
    /// No absolute move arrived: ask the system where the pointer is, and pass
    /// the answer to [`store_queried_pos`].
    QueryPosition,
}

/// Updates the position from this tick's raw events.
///
/// The latest absolute move wins. Without one the position is left alone and
/// the caller is told to query the system.
pub fn store_last_pos(events: &Vec<GlobalMouseEvents>, mouse: &mut GlobalMousePos) -> (step:
    PositionStep)
    ensures
        match last_absolute_move(events@) {
            Some(coords) => {
                &&& step == PositionStep::Settled
                &&& final(mouse).x == coords.0
                &&& final(mouse).y == coords.1
            },
            None => {
                &&& step == PositionStep::QueryPosition
                &&& *final(mouse) == *old(mouse)
            },
        },
{
    let mut abs_move: Option<(i32, i32)> = None;
    let mut i: usize = 0;
    assert(events@.take(0) =~= Seq::<GlobalMouseEvents>::empty());
    while i < events.len()
        invariant
            i <= events.len(),
            abs_move == last_absolute_move(events@.take(i as int)),
        decreases events.len() - i,
    {
        proof {
            events@.lemma_filter_map_take_succ(
                |e: GlobalMouseEvents| absolute_move_of(e),
                i as int,
            );
        }
        match events[i].0 {
            MouseEvent::AbsoluteMove(x, y) => {
                abs_move = Some((x, y));
            },
            _ => {},
        }
        i += 1;
    }
    assert(events@.take(events@.len() as int) =~= events@);
    match abs_move {
        Some(coords) => {
            mouse.x = coords.0;
            mouse.y = coords.1;
            PositionStep::Settled
        },
        None => PositionStep::QueryPosition,
    }
}

/// Stores the answer to a position query: the coordinates it gave, or the
/// origin when it failed. A failed query never leaves the earlier position in
/// place.
pub fn store_queried_pos(queried: Result<(i32, i32), MouseError>, mouse: &mut GlobalMousePos)
    ensures
        match queried {
            Ok(pos) => final(mouse).x == pos.0 && final(mouse).y == pos.1,
            Err(_) => final(mouse).x == 0 && final(mouse).y == 0,
        },
{
    match queried {
        Ok(pos) => {
            mouse.x = pos.0;
            mouse.y = pos.1;
        },
        Err(_) => {
            mouse.x = 0;
            mouse.y = 0;
        },
    }
}

/// `last_absolute_move` by position: it is the absolute move after which no
/// other follows, and there is none exactly when no event is an absolute move.
pub proof fn lemma_last_absolute_move(events: Seq<GlobalMouseEvents>)
    ensures
        match last_absolute_move(events) {
            Some(coords) => exists|i: int|
                {
                    &&& 0 <= i < events.len()
                    &&& #[trigger] events[i].0 == MouseEvent::AbsoluteMove(coords.0, coords.1)
                    &&& forall|j: int| i < j < events.len() ==> !(#[trigger] events[j].0 is AbsoluteMove)
                },
            None => forall|j: int| 0 <= j < events.len() ==> !(#[trigger] events[j].0 is AbsoluteMove),
        },
    decreases events.len(),
{
    if events.len() > 0 {
        let rest = events.drop_last();
        lemma_last_absolute_move(rest);
        match events.last().0 {
            MouseEvent::AbsoluteMove(x, y) => {
                assert(events[events.len() - 1].0 == MouseEvent::AbsoluteMove(x, y));
            },
            _ => {
                assert(last_absolute_move(events) == last_absolute_move(rest));
                match last_absolute_move(rest) {
                    Some(coords) => {
                        let i = choose|i: int|
                            {
                                &&& 0 <= i < rest.len()
                                &&& #[trigger] rest[i].0 == MouseEvent::AbsoluteMove(
                                    coords.0,
                                    coords.1,
                                )
                                &&& forall|j: int|
                                    i < j < rest.len() ==> !(#[trigger] rest[j].0 is AbsoluteMove)
                            };
                        assert(events[i].0 == MouseEvent::AbsoluteMove(coords.0, coords.1));
                        assert forall|j: int| i < j < events.len() implies !(
                        #[trigger] events[j].0 is AbsoluteMove) by {
                            if j < rest.len() {
                                assert(rest[j] == events[j]);
                            }
                        }
                    },
                    None => {
                        assert forall|j: int| 0 <= j < events.len() implies !(
                        #[trigger] events[j].0 is AbsoluteMove) by {
                            if j < rest.len() {
                                assert(rest[j] == events[j]);
                            }
                        }
                    },
                }
            },
        }
    }
}

/// Within one tick the last write wins: once an absolute move is the newest
/// event, the position is its coordinates whatever came before, and events of
/// other kinds that follow do not change that.
pub proof fn lemma_last_write_wins(events: Seq<GlobalMouseEvents>, next: GlobalMouseEvents)
    ensures
        last_absolute_move(events.push(next)) == (match next.0 {
            MouseEvent::AbsoluteMove(x, y) => Some((x, y)),
            _ => last_absolute_move(events),
        }),
{
    let all = events.push(next);
    assert(all.drop_last() =~= events);
    assert(all.last() == next);
}

// ---------------------------------------------------------------------------
// One tick
// ---------------------------------------------------------------------------

/// What one tick brought in from the mouse hook.
#[derive(Debug, PartialEq, Eq)]
pub struct MouseTick {
    /// The raw events of this tick, in arrival order.
    pub events: Vec<GlobalMouseEvents>,
    /// The scroll events derived from them.
    pub scrolls: Vec<GlobalScrollEvents>,
    /// The button events derived from them.
    pub clicks: Vec<GlobalMouseButtonEvents>,
    /// Whether the position is settled or the system has yet to be asked.
    pub position: PositionStep,
}

/// Works out a tick from the raw events that were drained for it: wraps them
/// for the host, derives the narrower events and updates the position, all
/// from these same events.
pub fn mouse_tick_from(raw: Vec<MouseEvent>, mouse: &mut GlobalMousePos) -> (tick: MouseTick)
    ensures
        tick.events@.len() == raw@.len(),
        forall|i: int| 0 <= i < raw@.len() ==> (#[trigger] tick.events@[i]).0 == raw@[i],
        tick.scrolls@ == scrolls_in(tick.events@),
        tick.clicks@ == presses_in(tick.events@),
        match last_absolute_move(tick.events@) {
            Some(coords) => {
                &&& tick.position == PositionStep::Settled
                &&& final(mouse).x == coords.0
                &&& final(mouse).y == coords.1
            },
            None => {
                &&& tick.position == PositionStep::QueryPosition
                &&& *final(mouse) == *old(mouse)
            },
        },
{
    let events = mouse_events_from(raw);
    let (scrolls, clicks) = split_events(&events);
    let position = store_last_pos(&events, mouse);
    MouseTick { events, scrolls, clicks, position }
}

/// The mouse half of a tick, in the order that matters: drain the hook's
/// channel, then derive the narrower events and update the position, both
/// from what was drained just now.
///
/// Which events the tick holds is the hook's doing. Whatever they are, the
/// derived events and the position are those of exactly these events;
/// [`mouse_tick_from`] says what the tick is for each drained value.
pub fn poll_mouse(receiver: &Receiver<MouseEvent>, mouse: &mut GlobalMousePos) -> (tick: MouseTick)
    ensures
        tick.scrolls@ == scrolls_in(tick.events@),
        tick.clicks@ == presses_in(tick.events@),
        match last_absolute_move(tick.events@) {
            Some(coords) => {
                &&& tick.position == PositionStep::Settled
                &&& final(mouse).x == coords.0
                &&& final(mouse).y == coords.1
            },
            None => {
                &&& tick.position == PositionStep::QueryPosition
                &&& *final(mouse) == *old(mouse)
            },
        },
{
    mouse_tick_from(take_buffered(receiver), mouse)
}

/// A tick in which the hook queued nothing yields nothing: no raw event means
/// no derived event, and the position is left to a query.
pub proof fn lemma_idle_tick_yields_nothing()
    ensures
        scrolls_in(Seq::<GlobalMouseEvents>::empty()) == Seq::<GlobalScrollEvents>::empty(),
        presses_in(Seq::<GlobalMouseEvents>::empty()) == Seq::<GlobalMouseButtonEvents>::empty(),
        last_absolute_move(Seq::<GlobalMouseEvents>::empty()) is None,
{
}

// ---------------------------------------------------------------------------
// Pointer control
// ---------------------------------------------------------------------------

/// Event which allows control over the mouse.
#[derive(Copy, Clone, Debug, PartialEq, Eq, Structural)]
pub enum MouseControl {
    /// Moves the cursor to an absolute position (x, y), in the same coordinate
    /// system as [`GlobalMousePos`].
    MoveTo(usize, usize),
    /// Moves the cursor relative to its current position (x_offset, y_offset).
    MoveRelative(i32, i32),
    /// Presses down a mouse button.
    PressButton(GlobalMouseButton),
    /// Releases a mouse button.
    ReleaseButton(GlobalMouseButton),
    /// Clicks a mouse button: a press immediately followed by a release, done
    /// by the pointer handle as one call.
    ClickButton(GlobalMouseButton),
    /// Moves the scroll wheel one step.
    ScrollWheel(GlobalScrollDirection),
}

/// One call on the pointer handle. Its coordinates are the handle's: `i32`.
#[derive(Copy, Clone, Debug, PartialEq, Eq, Structural)]
pub enum MouseCall {
    MoveTo(i32, i32),
    MoveRelative(i32, i32),
    PressButton(GlobalMouseButton),
    ReleaseButton(GlobalMouseButton),
    ClickButton(GlobalMouseButton),
    ScrollWheel(GlobalScrollDirection),
}

/// What the dispatcher does after a receive.
#[derive(Copy, Clone, Debug, PartialEq, Eq, Structural)]
pub enum DispatcherStep {
    /// Make this call, drop its result, and receive again.
    Perform(MouseCall),
    /// Every sender is gone: leave the loop.
    Stop,
}

/// A target coordinate as the pointer handle takes it. The handle cannot
/// reach further than `i32::MAX`, so targets beyond it stop there.
pub open spec fn handle_coordinate(target: usize) -> i32 {
    if target <= i32::MAX {
        target as i32
    } else {
        i32::MAX
    }
}

/// The one call that carries out `command`.
pub open spec fn call_for(command: MouseControl) -> MouseCall {
    match command {
        MouseControl::MoveTo(x, y) => MouseCall::MoveTo(handle_coordinate(x), handle_coordinate(y)),
        MouseControl::MoveRelative(dx, dy) => MouseCall::MoveRelative(dx, dy),
        MouseControl::PressButton(button) => MouseCall::PressButton(button),
        MouseControl::ReleaseButton(button) => MouseCall::ReleaseButton(button),
        MouseControl::ClickButton(button) => MouseCall::ClickButton(button),
        MouseControl::ScrollWheel(direction) => MouseCall::ScrollWheel(direction),
    }
}

/// The dispatcher's decision on what a receive returned: `Some` command, or
/// `None` once the channel is closed.
pub open spec fn step_for(received: Option<MouseControl>) -> DispatcherStep {
    match received {
        Some(command) => DispatcherStep::Perform(call_for(command)),
        None => DispatcherStep::Stop,
    }
}

/// The calls that the dispatcher makes, first to last, when its channel
/// delivers `queue` and then closes.
pub open spec fn dispatcher_calls(queue: Seq<MouseControl>) -> Seq<MouseCall>
    decreases queue.len(),
{
    if queue.len() == 0 {
        Seq::empty()
    } else {
        match step_for(Some(queue.first())) {
            DispatcherStep::Perform(call) => seq![call] + dispatcher_calls(queue.drop_first()),
            DispatcherStep::Stop => Seq::empty(),
        }
    }
}

fn to_handle_coordinate(target: usize) -> (coordinate: i32)
    ensures
        coordinate == handle_coordinate(target),
{
    if target <= i32::MAX as usize {
        target as i32
    } else {
        i32::MAX
    }
}

/// Names the call on the pointer handle that carries out `command`.
pub fn mouse_call(command: MouseControl) -> (call: MouseCall)
    ensures
        call == call_for(command),
{
    match command {
        MouseControl::MoveTo(x, y) => MouseCall::MoveTo(
            to_handle_coordinate(x),
            to_handle_coordinate(y),
        ),
        MouseControl::MoveRelative(x_offset, y_offset) => MouseCall::MoveRelative(
            x_offset,
            y_offset,
        ),
        MouseControl::PressButton(button) => MouseCall::PressButton(button),
        MouseControl::ReleaseButton(button) => MouseCall::ReleaseButton(button),
        MouseControl::ClickButton(button) => MouseCall::ClickButton(button),
        MouseControl::ScrollWheel(direction) => MouseCall::ScrollWheel(direction),
    }
}

/// One turn of the dispatcher loop: given what the blocking receive returned,
/// says whether to make a call, and which, or to stop.
///
/// The dispatcher alone owns the pointer handle and makes one call per turn,
/// so calls never interleave.
pub fn dispatcher_step(received: Option<MouseControl>) -> (step: DispatcherStep)
    ensures
        step == step_for(received),
{
    match received {
        Some(command) => DispatcherStep::Perform(mouse_call(command)),
        None => DispatcherStep::Stop,
    }
}

/// Forwards the host's commands of this tick to the dispatcher's channel, in
/// the order given, without ever waiting. A command that the channel
/// refuses, because the dispatcher is gone or the channel has no room, is
/// dropped without notice.
pub fn mover_events(commands: &Vec<MouseControl>, tx: &Sender<MouseControl>) {
    let mut i: usize = 0;
    while i < commands.len()
        invariant
            i <= commands.len(),
        decreases commands.len() - i,
    {
        let _ = send_message(tx, commands[i]);
        i += 1;
    }
}

/// Commands are carried out in the order sent: the dispatcher makes exactly
/// one call per command, and the call for an earlier command comes before the
/// call for a later one.
pub proof fn lemma_dispatcher_keeps_order(queue: Seq<MouseControl>)
    ensures
        dispatcher_calls(queue).len() == queue.len(),
        forall|i: int| 0 <= i < queue.len() ==> #[trigger] dispatcher_calls(queue)[i] == call_for(queue[i]),
    decreases queue.len(),
{
    if queue.len() > 0 {
        let rest = queue.drop_first();
        lemma_dispatcher_keeps_order(rest);
        assert forall|i: int| 0 <= i < queue.len() implies #[trigger] dispatcher_calls(queue)[i]
            == call_for(queue[i]) by {
            if i > 0 {
                assert(dispatcher_calls(queue)[i] == dispatcher_calls(rest)[i - 1]);
                assert(rest[i - 1] == queue[i]);
            }
        }
    }
}

} // verus!
