use bevy_global_input::hook::{BridgeEvent, HookFailure};
use bevy_global_input::provide_mouce::{
    dispatcher_step, hook_outcome, mouse_call, mouse_events_from, mouse_tick_from, mover_events,
    poll_mouse, read_stream, split_events, store_last_pos, store_queried_pos, DispatcherStep,
    MouseCall, MouseError, MouseTick, PositionStep,
};
use bevy_global_input::{
    GlobalMouseButton, GlobalMouseButtonEvents, GlobalMouseEvents, GlobalMousePos,
    GlobalScrollDirection, GlobalScrollEvents, MouseControl, MouseEvent,
};

fn wrap(raw: &[MouseEvent]) -> Vec<GlobalMouseEvents> {
    raw.iter().map(|e| GlobalMouseEvents(*e)).collect()
}

#[test]
fn position_starts_at_the_origin() {
    assert_eq!(GlobalMousePos::default(), GlobalMousePos { x: 0, y: 0 });
}

#[test]
fn scrolls_and_presses_are_derived_in_order() {
    let events = wrap(&[
        MouseEvent::Scroll(GlobalScrollDirection::Up),
        MouseEvent::Press(GlobalMouseButton::Left),
        MouseEvent::RelativeMove(1, -1),
        MouseEvent::Scroll(GlobalScrollDirection::Down),
        MouseEvent::Release(GlobalMouseButton::Left),
        MouseEvent::AbsoluteMove(10, 20),
        MouseEvent::Press(GlobalMouseButton::Right),
        MouseEvent::Scroll(GlobalScrollDirection::Down),
    ]);
    let (scrolls, clicks) = split_events(&events);
    assert_eq!(
        scrolls,
        vec![
            GlobalScrollEvents(GlobalScrollDirection::Up),
            GlobalScrollEvents(GlobalScrollDirection::Down),
            GlobalScrollEvents(GlobalScrollDirection::Down),
        ]
    );
    assert_eq!(
        clicks,
        vec![
            GlobalMouseButtonEvents(GlobalMouseButton::Left),
            GlobalMouseButtonEvents(GlobalMouseButton::Right),
        ]
    );
}

#[test]
fn every_scroll_direction_is_kept() {
    let events = wrap(&[
        MouseEvent::Scroll(GlobalScrollDirection::Left),
        MouseEvent::Scroll(GlobalScrollDirection::Right),
        MouseEvent::Scroll(GlobalScrollDirection::Up),
        MouseEvent::Scroll(GlobalScrollDirection::Down),
    ]);
    let (scrolls, clicks) = split_events(&events);
    assert_eq!(
        scrolls,
        vec![
            GlobalScrollEvents(GlobalScrollDirection::Left),
            GlobalScrollEvents(GlobalScrollDirection::Right),
            GlobalScrollEvents(GlobalScrollDirection::Up),
            GlobalScrollEvents(GlobalScrollDirection::Down),
        ]
    );
    assert_eq!(clicks, vec![]);
}

#[test]
fn every_button_is_kept() {
    let events = wrap(&[
        MouseEvent::Press(GlobalMouseButton::Middle),
        MouseEvent::Press(GlobalMouseButton::Right),
        MouseEvent::Press(GlobalMouseButton::Left),
    ]);
    let (scrolls, clicks) = split_events(&events);
    assert_eq!(scrolls, vec![]);
    assert_eq!(
        clicks,
        vec![
            GlobalMouseButtonEvents(GlobalMouseButton::Middle),
            GlobalMouseButtonEvents(GlobalMouseButton::Right),
            GlobalMouseButtonEvents(GlobalMouseButton::Left),
        ]
    );
}

#[test]
fn moves_and_releases_derive_nothing() {
    let events = wrap(&[
        MouseEvent::RelativeMove(3, 4),
        MouseEvent::AbsoluteMove(5, 6),
        MouseEvent::Release(GlobalMouseButton::Left),
        MouseEvent::Release(GlobalMouseButton::Middle),
    ]);
    let (scrolls, clicks) = split_events(&events);
    assert_eq!(scrolls, vec![]);
    assert_eq!(clicks, vec![]);
}

#[test]
fn no_raw_event_derives_nothing() {
    let (scrolls, clicks) = split_events(&vec![]);
    assert_eq!(scrolls, vec![]);
    assert_eq!(clicks, vec![]);
}

#[test]
fn the_last_absolute_move_of_a_tick_wins() {
    let events = wrap(&[
        MouseEvent::AbsoluteMove(1, 1),
        MouseEvent::AbsoluteMove(2, 2),
        MouseEvent::AbsoluteMove(3, 3),
    ]);
    let mut mouse = GlobalMousePos::default();
    let step = store_last_pos(&events, &mut mouse);
    assert_eq!(step, PositionStep::Settled);
    assert_eq!(mouse, GlobalMousePos { x: 3, y: 3 });
}

#[test]
fn later_events_of_other_kinds_do_not_unsettle_the_position() {
    let events = wrap(&[
        MouseEvent::RelativeMove(9, 9),
        MouseEvent::AbsoluteMove(-5, 700),
        MouseEvent::Press(GlobalMouseButton::Left),
        MouseEvent::RelativeMove(1, 1),
        MouseEvent::Scroll(GlobalScrollDirection::Up),
    ]);
    let mut mouse = GlobalMousePos { x: 1, y: 2 };
    let step = store_last_pos(&events, &mut mouse);
    assert_eq!(step, PositionStep::Settled);
    assert_eq!(mouse, GlobalMousePos { x: -5, y: 700 });
}

#[test]
fn extreme_coordinates_are_stored_exactly() {
    let events = wrap(&[MouseEvent::AbsoluteMove(i32::MIN, i32::MAX)]);
    let mut mouse = GlobalMousePos::default();
    assert_eq!(store_last_pos(&events, &mut mouse), PositionStep::Settled);
    assert_eq!(mouse, GlobalMousePos { x: i32::MIN, y: i32::MAX });
}

#[test]
fn without_an_absolute_move_the_system_is_asked() {
    let events = wrap(&[
        MouseEvent::RelativeMove(4, 4),
        MouseEvent::Press(GlobalMouseButton::Left),
    ]);
    let mut mouse = GlobalMousePos { x: 11, y: 12 };
    let step = store_last_pos(&events, &mut mouse);
    assert_eq!(step, PositionStep::QueryPosition);
    assert_eq!(mouse, GlobalMousePos { x: 11, y: 12 });
}

#[test]
fn a_tick_without_events_asks_the_system() {
    let mut mouse = GlobalMousePos { x: 11, y: 12 };
    assert_eq!(store_last_pos(&vec![], &mut mouse), PositionStep::QueryPosition);
    assert_eq!(mouse, GlobalMousePos { x: 11, y: 12 });
}

#[test]
fn a_successful_query_sets_the_position() {
    let events = wrap(&[MouseEvent::Scroll(GlobalScrollDirection::Down)]);
    let mut mouse = GlobalMousePos { x: 1, y: 1 };
    assert_eq!(store_last_pos(&events, &mut mouse), PositionStep::QueryPosition);
    store_queried_pos(Ok((42, 7)), &mut mouse);
    assert_eq!(mouse, GlobalMousePos { x: 42, y: 7 });
}

#[test]
fn a_failed_query_resets_the_position() {
    let events = wrap(&[MouseEvent::Scroll(GlobalScrollDirection::Down)]);
    let mut mouse = GlobalMousePos { x: 42, y: 7 };
    assert_eq!(store_last_pos(&events, &mut mouse), PositionStep::QueryPosition);
    store_queried_pos(Err(MouseError::NotImplemented), &mut mouse);
    assert_eq!(mouse, GlobalMousePos { x: 0, y: 0 });
}

#[test]
fn every_kind_of_failure_resets_the_position() {
    let failures = vec![
        MouseError::NotImplemented,
        MouseError::WriteFailed,
        MouseError::UnhookFailed,
        MouseError::X11PointerWindowMismatch,
        MouseError::InputIsBlocked,
        MouseError::CGCouldNotCreateEvent,
        MouseError::PermissionDenied,
        MouseError::CustomError("no display".to_string()),
    ];
    for failure in failures {
        let mut mouse = GlobalMousePos { x: -8, y: 8 };
        store_queried_pos(Err(failure), &mut mouse);
        assert_eq!(mouse, GlobalMousePos { x: 0, y: 0 });
    }
}

#[test]
fn each_command_names_its_call() {
    assert_eq!(mouse_call(MouseControl::MoveTo(10, 20)), MouseCall::MoveTo(10, 20));
    assert_eq!(mouse_call(MouseControl::MoveRelative(-1, 0)), MouseCall::MoveRelative(-1, 0));
    assert_eq!(
        mouse_call(MouseControl::PressButton(GlobalMouseButton::Left)),
        MouseCall::PressButton(GlobalMouseButton::Left)
    );
    assert_eq!(
        mouse_call(MouseControl::ReleaseButton(GlobalMouseButton::Middle)),
        MouseCall::ReleaseButton(GlobalMouseButton::Middle)
    );
    assert_eq!(
        mouse_call(MouseControl::ClickButton(GlobalMouseButton::Right)),
        MouseCall::ClickButton(GlobalMouseButton::Right)
    );
    assert_eq!(
        mouse_call(MouseControl::ScrollWheel(GlobalScrollDirection::Up)),
        MouseCall::ScrollWheel(GlobalScrollDirection::Up)
    );
}

#[test]
fn a_click_stays_one_call() {
    let step = dispatcher_step(Some(MouseControl::ClickButton(GlobalMouseButton::Left)));
    assert_eq!(step, DispatcherStep::Perform(MouseCall::ClickButton(GlobalMouseButton::Left)));
}

#[test]
fn targets_stop_at_the_reach_of_the_handle() {
    let edge = i32::MAX as usize;
    assert_eq!(mouse_call(MouseControl::MoveTo(0, 0)), MouseCall::MoveTo(0, 0));
    assert_eq!(mouse_call(MouseControl::MoveTo(edge - 1, 1)), MouseCall::MoveTo(i32::MAX - 1, 1));
    assert_eq!(mouse_call(MouseControl::MoveTo(edge, 2)), MouseCall::MoveTo(i32::MAX, 2));
    assert_eq!(mouse_call(MouseControl::MoveTo(edge + 1, 3)), MouseCall::MoveTo(i32::MAX, 3));
    assert_eq!(
        mouse_call(MouseControl::MoveTo(4, usize::MAX)),
        MouseCall::MoveTo(4, i32::MAX)
    );
}

#[test]
fn a_closed_channel_stops_the_dispatcher() {
    assert_eq!(dispatcher_step(None), DispatcherStep::Stop);
}

#[test]
fn commands_are_carried_out_in_the_order_sent() {
    let (tx, rx) = crossbeam_channel::unbounded::<MouseControl>();
    let commands = vec![
        MouseControl::MoveTo(100, 200),
        MouseControl::PressButton(GlobalMouseButton::Left),
        MouseControl::MoveRelative(5, 5),
        MouseControl::ReleaseButton(GlobalMouseButton::Left),
        MouseControl::ScrollWheel(GlobalScrollDirection::Down),
    ];
    mover_events(&commands, &tx);
    drop(tx);

    let mut calls = Vec::new();
    loop {
        match dispatcher_step(rx.recv().ok()) {
            DispatcherStep::Perform(call) => calls.push(call),
            DispatcherStep::Stop => break,
        }
    }
    assert_eq!(
        calls,
        vec![
            MouseCall::MoveTo(100, 200),
            MouseCall::PressButton(GlobalMouseButton::Left),
            MouseCall::MoveRelative(5, 5),
            MouseCall::ReleaseButton(GlobalMouseButton::Left),
            MouseCall::ScrollWheel(GlobalScrollDirection::Down),
        ]
    );
}

#[test]
fn commands_of_two_ticks_keep_their_order() {
    let (tx, rx) = crossbeam_channel::unbounded::<MouseControl>();
    mover_events(&vec![MouseControl::MoveRelative(1, 0), MouseControl::MoveRelative(2, 0)], &tx);
    mover_events(&vec![], &tx);
    mover_events(&vec![MouseControl::MoveRelative(3, 0)], &tx);
    let queued: Vec<MouseControl> = rx.try_iter().collect();
    assert_eq!(
        queued,
        vec![
            MouseControl::MoveRelative(1, 0),
            MouseControl::MoveRelative(2, 0),
            MouseControl::MoveRelative(3, 0),
        ]
    );
}

#[test]
fn commands_for_a_gone_dispatcher_are_dropped() {
    let (tx, rx) = crossbeam_channel::unbounded::<MouseControl>();
    drop(rx);
    mover_events(&vec![MouseControl::MoveTo(1, 1), MouseControl::MoveTo(2, 2)], &tx);
}

#[test]
fn raw_events_reach_the_host_in_order() {
    let (tx, rx) = crossbeam_channel::unbounded::<MouseEvent>();
    tx.send(MouseEvent::AbsoluteMove(1, 2)).unwrap();
    tx.send(MouseEvent::Press(GlobalMouseButton::Left)).unwrap();
    tx.send(MouseEvent::Release(GlobalMouseButton::Left)).unwrap();
    assert_eq!(
        read_stream(&rx),
        wrap(&[
            MouseEvent::AbsoluteMove(1, 2),
            MouseEvent::Press(GlobalMouseButton::Left),
            MouseEvent::Release(GlobalMouseButton::Left),
        ])
    );
}

#[test]
fn a_raw_event_is_handed_over_once() {
    let (tx, rx) = crossbeam_channel::unbounded::<MouseEvent>();
    tx.send(MouseEvent::RelativeMove(1, 1)).unwrap();
    assert_eq!(read_stream(&rx).len(), 1);
    assert_eq!(read_stream(&rx), vec![]);
    tx.send(MouseEvent::RelativeMove(2, 2)).unwrap();
    assert_eq!(read_stream(&rx), wrap(&[MouseEvent::RelativeMove(2, 2)]));
}

#[test]
fn an_idle_tick_yields_nothing_and_returns() {
    let (_tx, rx) = crossbeam_channel::unbounded::<MouseEvent>();
    let events = read_stream(&rx);
    assert_eq!(events, vec![]);
    let (scrolls, clicks) = split_events(&events);
    assert_eq!(scrolls, vec![]);
    assert_eq!(clicks, vec![]);
    let mut mouse = GlobalMousePos::default();
    assert_eq!(store_last_pos(&events, &mut mouse), PositionStep::QueryPosition);
}

#[test]
fn a_tick_works_on_what_it_drained() {
    let (tx, rx) = crossbeam_channel::unbounded::<MouseEvent>();
    tx.send(MouseEvent::AbsoluteMove(7, 8)).unwrap();
    tx.send(MouseEvent::Scroll(GlobalScrollDirection::Up)).unwrap();
    let events = read_stream(&rx);
    let (scrolls, clicks) = split_events(&events);
    let mut mouse = GlobalMousePos::default();
    assert_eq!(store_last_pos(&events, &mut mouse), PositionStep::Settled);
    assert_eq!(mouse, GlobalMousePos { x: 7, y: 8 });
    assert_eq!(scrolls, vec![GlobalScrollEvents(GlobalScrollDirection::Up)]);
    assert_eq!(clicks, vec![]);
}

#[test]
fn raw_events_wrap_one_for_one() {
    let raw = vec![MouseEvent::RelativeMove(0, 0), MouseEvent::RelativeMove(0, 0)];
    assert_eq!(mouse_events_from(raw.clone()), wrap(&raw));
    assert_eq!(mouse_events_from(vec![]), vec![]);
}

#[test]
fn an_installed_hook_is_reported_as_such() {
    assert_eq!(hook_outcome(Ok(())), BridgeEvent::Installed);
}

#[test]
fn a_missing_privilege_is_told_apart() {
    assert_eq!(
        hook_outcome(Err(MouseError::PermissionDenied)),
        BridgeEvent::Refused(HookFailure::PermissionDenied)
    );
    assert_eq!(MouseError::PermissionDenied.hook_failure(), HookFailure::PermissionDenied);
}

#[test]
fn other_refusals_are_lumped_together() {
    assert_eq!(
        hook_outcome(Err(MouseError::NotImplemented)),
        BridgeEvent::Refused(HookFailure::Other)
    );
    assert_eq!(
        hook_outcome(Err(MouseError::CustomError("permission denied".to_string()))),
        BridgeEvent::Refused(HookFailure::Other)
    );
    assert_eq!(MouseError::UnhookFailed.hook_failure(), HookFailure::Other);
}

#[test]
fn a_polled_tick_derives_from_what_it_drained() {
    let (tx, rx) = crossbeam_channel::unbounded::<MouseEvent>();
    tx.send(MouseEvent::AbsoluteMove(1, 1)).unwrap();
    tx.send(MouseEvent::Press(GlobalMouseButton::Middle)).unwrap();
    tx.send(MouseEvent::AbsoluteMove(30, 40)).unwrap();
    tx.send(MouseEvent::Scroll(GlobalScrollDirection::Left)).unwrap();
    let mut mouse = GlobalMousePos::default();
    let tick = poll_mouse(&rx, &mut mouse);
    assert_eq!(
        tick,
        MouseTick {
            events: wrap(&[
                MouseEvent::AbsoluteMove(1, 1),
                MouseEvent::Press(GlobalMouseButton::Middle),
                MouseEvent::AbsoluteMove(30, 40),
                MouseEvent::Scroll(GlobalScrollDirection::Left),
            ]),
            scrolls: vec![GlobalScrollEvents(GlobalScrollDirection::Left)],
            clicks: vec![GlobalMouseButtonEvents(GlobalMouseButton::Middle)],
            position: PositionStep::Settled,
        }
    );
    assert_eq!(mouse, GlobalMousePos { x: 30, y: 40 });
}

#[test]
fn an_idle_polled_tick_is_empty_and_asks_the_system() {
    let (_tx, rx) = crossbeam_channel::unbounded::<MouseEvent>();
    let mut mouse = GlobalMousePos { x: 5, y: 6 };
    let tick = poll_mouse(&rx, &mut mouse);
    assert_eq!(
        tick,
        MouseTick {
            events: vec![],
            scrolls: vec![],
            clicks: vec![],
            position: PositionStep::QueryPosition,
        }
    );
    assert_eq!(mouse, GlobalMousePos { x: 5, y: 6 });
    store_queried_pos(Ok((42, 7)), &mut mouse);
    assert_eq!(mouse, GlobalMousePos { x: 42, y: 7 });
}

#[test]
fn a_position_does_not_outlive_a_tick_without_news() {
    let (tx, rx) = crossbeam_channel::unbounded::<MouseEvent>();
    tx.send(MouseEvent::AbsoluteMove(9, 9)).unwrap();
    let mut mouse = GlobalMousePos::default();
    assert_eq!(poll_mouse(&rx, &mut mouse).position, PositionStep::Settled);
    assert_eq!(mouse, GlobalMousePos { x: 9, y: 9 });
    assert_eq!(poll_mouse(&rx, &mut mouse).position, PositionStep::QueryPosition);
    store_queried_pos(Err(MouseError::X11PointerWindowMismatch), &mut mouse);
    assert_eq!(mouse, GlobalMousePos { x: 0, y: 0 });
}

#[test]
fn a_tick_is_worked_out_from_the_events_given() {
    let raw = vec![
        MouseEvent::Scroll(GlobalScrollDirection::Up),
        MouseEvent::AbsoluteMove(-3, 4),
        MouseEvent::Press(GlobalMouseButton::Right),
        MouseEvent::RelativeMove(1, 1),
    ];
    let mut mouse = GlobalMousePos { x: 8, y: 8 };
    let tick = mouse_tick_from(raw.clone(), &mut mouse);
    assert_eq!(
        tick,
        MouseTick {
            events: wrap(&raw),
            scrolls: vec![GlobalScrollEvents(GlobalScrollDirection::Up)],
            clicks: vec![GlobalMouseButtonEvents(GlobalMouseButton::Right)],
            position: PositionStep::Settled,
        }
    );
    assert_eq!(mouse, GlobalMousePos { x: -3, y: 4 });
}

#[test]
fn a_tick_from_no_events_is_empty() {
    let mut mouse = GlobalMousePos { x: 8, y: 8 };
    let tick = mouse_tick_from(vec![], &mut mouse);
    assert_eq!(
        tick,
        MouseTick {
            events: vec![],
            scrolls: vec![],
            clicks: vec![],
            position: PositionStep::QueryPosition,
        }
    );
    assert_eq!(mouse, GlobalMousePos { x: 8, y: 8 });
}

#[test]
fn a_full_channel_does_not_hold_the_tick_up() {
    let (tx, rx) = crossbeam_channel::bounded::<MouseControl>(1);
    mover_events(
        &vec![
            MouseControl::MoveRelative(1, 0),
            MouseControl::MoveRelative(2, 0),
            MouseControl::MoveRelative(3, 0),
        ],
        &tx,
    );
    let queued: Vec<MouseControl> = rx.try_iter().collect();
    assert_eq!(queued, vec![MouseControl::MoveRelative(1, 0)]);
}

#[test]
fn a_channel_without_room_does_not_hold_the_tick_up() {
    let (tx, rx) = crossbeam_channel::bounded::<MouseControl>(0);
    mover_events(&vec![MouseControl::MoveTo(1, 1), MouseControl::MoveTo(2, 2)], &tx);
    let queued: Vec<MouseControl> = rx.try_iter().collect();
    assert_eq!(queued, vec![]);
}
