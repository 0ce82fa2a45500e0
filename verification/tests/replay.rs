use rift::events::MouseState;
use rift::ids::{SpaceId, WindowId};
use rift::replay::{
    final_window, first_word, frames_in_request, CheckedEvent, Checker, Divergence, DropNote,
    DropSession, FinalWindow, FrameRequest, LiveWrite, LiveWrites, PlaceReport, Replay, ReplayEnd,
    ReplayEvent, ReplayReport, ReplayWrite, StateChange, Violation, WriteFacts, WriteMatch, Written,
};
use rift::table::Table;

type Frame = (i32, i32);

fn window(idx: u32) -> WindowId {
    WindowId::new(1, idx)
}

fn live(ms: u64, idx: u32) -> LiveWrite {
    LiveWrite { ms, window: window(idx), matched: false }
}

fn write(ms: u64, idx: u32, event_index: usize) -> ReplayWrite<Frame> {
    ReplayWrite { ms, window: window(idx), frame: (ms as i32, 0), event_index }
}

fn found(close: &[bool]) -> WriteMatch {
    WriteMatch { position_only: false, stays: false, close: close.to_vec() }
}

fn facts() -> WriteFacts {
    WriteFacts {
        in_drag: None,
        empty: false,
        position_only: false,
        floating: false,
        finishes_drop: false,
        differs: true,
        display: Some(0),
    }
}

#[test]
fn a_write_reproduces_the_nearest_in_time() {
    let mut report: ReplayReport<Frame> = ReplayReport::new();
    let mut lives = LiveWrites::new(
        vec![live(100, 1), live(300, 1), live(420, 1), live(300, 2)],
        Table::new(),
    );
    lives.on_replay_write(&write(350, 1, 0), &found(&[true, true, true, true]), &mut report);
    let matched: Vec<bool> = lives.writes.iter().map(|w| w.matched).collect();
    assert_eq!(matched, vec![false, true, false, false]);
    assert!(report.diverged.is_none());
    assert_eq!(lives.last_replay.get(&window(1)), Some(&(350, 0)));
}

#[test]
fn the_first_of_two_as_near_is_reproduced() {
    let mut report: ReplayReport<Frame> = ReplayReport::new();
    let mut lives = LiveWrites::new(vec![live(100, 1), live(300, 1)], Table::new());
    lives.on_replay_write(&write(200, 1, 0), &found(&[true, true]), &mut report);
    assert!(lives.writes[0].matched);
    assert!(!lives.writes[1].matched);
}

#[test]
fn a_write_that_was_not_made_live_parts_the_runs() {
    let mut report: ReplayReport<Frame> = ReplayReport::new();
    let mut lives = LiveWrites::new(vec![live(9000, 1), live(700, 1)], Table::new());
    lives.on_replay_write(&write(1000, 1, 7), &found(&[false, false]), &mut report);
    match report.diverged {
        Some(Divergence::OnlyReplay { line: 7, ms: 1000, near: Some(1), .. }) => {}
        other => panic!("{other:?}"),
    }
    // It has left the recording, and is held to it no longer.
    lives.on_replay_write(&write(700, 1, 8), &found(&[true, true]), &mut report);
    assert!(!lives.writes[1].matched);
}

#[test]
fn a_write_that_changes_nothing_parts_nothing() {
    let mut report: ReplayReport<Frame> = ReplayReport::new();
    let mut reported = Table::new();
    reported.insert(window(1), (5, 0));
    let mut lives = LiveWrites::new(vec![], reported);
    let idle = WriteMatch { stays: true, ..found(&[]) };
    lives.on_replay_write(&write(5, 1, 0), &idle, &mut report);
    assert!(report.diverged.is_none());
    let moved = WriteMatch { position_only: true, ..found(&[]) };
    lives.on_replay_write(&write(5, 2, 0), &moved, &mut report);
    assert!(lives.last_replay.get(&window(2)).is_none());
    assert!(matches!(report.diverged, Some(Divergence::OnlyReplay { near: None, .. })));
}

#[test]
fn an_acknowledgement_of_another_write_parts_the_runs() {
    let mut report: ReplayReport<Frame> = ReplayReport::new();
    let mut lives = LiveWrites::new(vec![live(10, 1)], Table::new());
    lives.on_report(0, 1, window(1), (1, 1), false, false, &mut report);
    assert!(report.diverged.is_none());
    assert_eq!(lives.reported.get(&window(1)), Some(&(1, 1)));
    lives.on_replay_write(&write(10, 1, 1), &found(&[true]), &mut report);
    lives.on_report(1, 11, window(1), (10, 0), true, true, &mut report);
    assert!(report.diverged.is_none());
    lives.on_report(2, 12, window(1), (2, 2), true, false, &mut report);
    assert!(matches!(
        report.diverged,
        Some(Divergence::Acknowledged { line: 2, ms: 12, frame: (2, 2), sent: Some((10, 0)), .. })
    ));
}

#[test]
fn a_live_write_that_never_comes_parts_the_runs() {
    let mut report: ReplayReport<Frame> = ReplayReport::new();
    let lives: LiveWrites<Frame> = LiveWrites::new(vec![live(100, 1)], Table::new());
    lives.at(600, 3, &mut report);
    assert!(report.diverged.is_none());
    lives.at(601, 4, &mut report);
    assert!(matches!(report.diverged, Some(Divergence::OnlyLive { line: 4, ms: 601, live: 0 })));
}

#[test]
fn no_write_under_the_hand() {
    let mut report: ReplayReport<Frame> = ReplayReport::new();
    let mut checker = Checker::new();
    let down = CheckedEvent::Report {
        window: window(1),
        frame: (0, 0),
        mouse: Some(MouseState::Down),
    };
    checker.before(down, None, &mut report);
    let held = WriteFacts { in_drag: Some(window(2)), ..facts() };
    checker.on_write(&write(1, 1, 4), held, &mut report);
    let [Violation::WhileDragging { line: 4, frame: (1, 0), in_drag, .. }] = report.violations[..]
    else {
        panic!("the write broke another rule");
    };
    assert_eq!(in_drag, Some(window(2)));
    assert!(!report.is_clean());
}

#[test]
fn a_late_report_still_judges() {
    let mut report: ReplayReport<Frame> = ReplayReport::new();
    let mut checker = Checker::new();
    checker.before(CheckedEvent::Dragged, None, &mut report);
    checker.on_write(&write(1, 1, 4), facts(), &mut report);
    checker.on_write(&write(2, 2, 4), facts(), &mut report);
    checker.on_write(&write(3, 3, 5), facts(), &mut report);
    assert!(report.is_clean());
    let down = CheckedEvent::Report {
        window: window(1),
        frame: (0, 0),
        mouse: Some(MouseState::Down),
    };
    checker.before(down, None, &mut report);
    checker.before(CheckedEvent::Released, Some(window(3)), &mut report);
    assert!(matches!(
        report.violations[..],
        [Violation::ButtonDown { line: 4, .. }, Violation::ButtonDown { line: 5, .. }]
    ));
    assert_eq!(checker.epoch, 1);
    checker.before(CheckedEvent::Released, None, &mut report);
    assert_eq!(checker.epoch, 1);
}

#[test]
fn no_empty_frame() {
    let mut report: ReplayReport<Frame> = ReplayReport::new();
    let mut checker = Checker::new();
    checker.on_write(&write(1, 1, 4), WriteFacts { empty: true, ..facts() }, &mut report);
    assert!(matches!(report.violations[..], [Violation::EmptyFrame { line: 4, .. }]));
}

#[test]
fn a_float_is_moved_on_a_commands_behalf_only() {
    let float = WriteFacts { floating: true, ..facts() };
    let at = |frame| CheckedEvent::Report { window: window(1), frame, mouse: None };
    let mut report: ReplayReport<Frame> = ReplayReport::new();
    let mut checker = Checker::new();
    checker.on_write(&write(1, 1, 3), float, &mut report);
    checker.before(at((9, 9)), None, &mut report);
    checker.on_write(&write(1, 1, 3), WriteFacts { differs: false, ..float }, &mut report);
    checker.on_write(&write(1, 1, 3), WriteFacts { finishes_drop: true, ..float }, &mut report);
    checker.on_write(&write(1, 1, 3), WriteFacts { position_only: true, ..float }, &mut report);
    checker.index = 3;
    checker.before(CheckedEvent::Command, None, &mut report);
    checker.on_write(&write(1, 1, 5), float, &mut report);
    assert!(report.is_clean());
    checker.on_write(&write(1, 1, 6), float, &mut report);
    assert!(matches!(
        report.violations[..],
        [Violation::FloatMoved { line: 6, frame: (1, 0), reported: (9, 9), .. }]
    ));
    // A drop may finish its window.
    checker.before(CheckedEvent::Dragged, None, &mut report);
    checker.index = 10;
    checker.before(CheckedEvent::Released, Some(window(1)), &mut report);
    checker.on_write(&write(1, 1, 12), float, &mut report);
    assert_eq!(report.violations.len(), 1);
    checker.on_write(&write(1, 1, 13), float, &mut report);
    assert_eq!(report.violations.len(), 2);
}

#[test]
fn a_window_is_not_bounced_between_displays() {
    let on = |display| WriteFacts { display: Some(display), ..facts() };
    let mut report: ReplayReport<Frame> = ReplayReport::new();
    let mut checker = Checker::new();
    checker.on_write(&write(1000, 1, 1), on(0), &mut report);
    checker.on_write(&write(2000, 1, 2), on(0), &mut report);
    checker.on_write(&write(3501, 1, 3), on(1), &mut report);
    assert!(report.is_clean());
    checker.on_write(&write(5001, 1, 4), on(0), &mut report);
    assert!(matches!(
        report.violations[..],
        [Violation::Bounced { line: 4, from: 1, to: 0, since: 3501, ms: 5001, .. }]
    ));
    checker.before(CheckedEvent::Command, None, &mut report);
    checker.on_write(&write(5002, 1, 5), on(1), &mut report);
    assert_eq!(report.violations.len(), 1);
    checker.on_write(&write(5003, 1, 6), WriteFacts { display: None, ..facts() }, &mut report);
    assert_eq!(checker.last_write.get(&window(1)).unwrap().ms, 5002);
}

fn place(idx: u32, floating: bool, tiled: &[u64]) -> PlaceReport {
    PlaceReport {
        window: window(idx),
        floating,
        tiled: tiled.iter().map(|n| SpaceId::new(*n)).collect(),
    }
}

#[test]
fn a_window_is_in_one_place() {
    let mut report: ReplayReport<Frame> = ReplayReport::new();
    let mut checker: Checker<Frame> = Checker::new();
    checker.after_event(1, &[place(1, false, &[1]), place(2, true, &[])], &mut report);
    assert!(report.is_clean());
    assert_eq!(report.state_changes.len(), 2);
    checker.after_event(2, &[place(1, false, &[1]), place(2, false, &[2])], &mut report);
    assert_eq!(report.state_changes.len(), 3);
    assert!(matches!(report.state_changes[2], StateChange::Moved { line: 2, floating: false, .. }));
    checker.after_event(3, &[place(1, true, &[1, 2])], &mut report);
    let both = vec![SpaceId::new(1), SpaceId::new(2)];
    match &report.violations[..] {
        [Violation::TwoTrees { line: 3, tiled, .. }, Violation::FloatingAndTiled { line: 3, tiled: under, .. }] =>
        {
            assert_eq!((tiled, under), (&both, &both));
        }
        violations => panic!("{violations:?}"),
    }
    assert_eq!(checker.index, 3);
}

#[test]
fn a_divergence_is_final() {
    let mut report: ReplayReport<Frame> = ReplayReport::new();
    report.misses.push("question".to_string());
    assert!(!report.is_clean());
    report.diverged = Some(Divergence::OnlyLive { line: 1, ms: 2, live: 0 });
    assert!(report.is_clean());
    report.violation(Violation::EmptyFrame { line: 3, window: window(1), frame: (0, 0) });
    assert!(report.is_clean());
    assert_eq!(report.after_divergence.len(), 1);
}

#[test]
fn requests_are_counted_by_kind() {
    assert_eq!(first_word("SetWindowPos(WindowId)"), "SetWindowPos");
    assert_eq!(first_word("Raise { a: 1 }"), "Raise");
    assert_eq!(first_word("Terminate"), "Terminate");
    assert_eq!(first_word(""), "");
    let mut report: ReplayReport<Frame> = ReplayReport::new();
    report.count_request("Raise { a: 1 }");
    report.count_request("Terminate");
    report.count_request("Raise { a: 2 }");
    assert_eq!(report.requests, 3);
    assert_eq!(report.request_kinds.get(&"Raise".to_string()), Some(&2));
    assert_eq!(report.request_kinds.get(&"Terminate".to_string()), Some(&1));
    let counted: usize = report.request_kinds.entries.iter().map(|(_, count)| count).sum();
    assert_eq!(counted, report.requests);
}

#[test]
fn the_frames_of_a_request_are_found() {
    let frames = |request: FrameRequest<Frame, i32>| {
        frames_in_request(&request)
            .into_iter()
            .map(|(window, written)| match written {
                Written::Frame(frame) => (window.idx, frame, false),
                Written::Position(x) => (window.idx, (x, -1), true),
            })
            .collect::<Vec<_>>()
    };
    assert_eq!(frames(FrameRequest::SetWindowFrame(window(1), (1, 2))), vec![(1, (1, 2), false)]);
    assert_eq!(frames(FrameRequest::SetWindowPos(window(1), 5)), vec![(1, (5, -1), true)]);
    assert_eq!(
        frames(FrameRequest::SetBatchWindowFrame(vec![(window(1), (1, 2)), (window(2), (3, 4))])),
        vec![(1, (1, 2), false), (2, (3, 4), false)]
    );
    assert_eq!(frames(FrameRequest::AnimationFrame(window(3), (0, 0))), vec![(3, (0, 0), false)]);
    assert_eq!(frames(FrameRequest::Other), vec![]);
}

fn end() -> ReplayEnd {
    ReplayEnd {
        spaces: vec![SpaceId::new(1), SpaceId::new(2)],
        workspaces: vec![true, false],
        screens: 2,
        windows: vec![FinalWindow {
            window: window(1),
            title: "a title of more than twenty characters".to_string(),
            admitted: true,
            floating: false,
            tiled: vec![SpaceId::new(9), SpaceId::new(2), SpaceId::new(1)],
        }],
    }
}

#[test]
fn a_replay_tells_of_drops_and_of_the_end() {
    let mut replay: Replay<Frame> = Replay::new(vec![], Table::new());
    assert!(replay.report.final_windows.is_empty());
    let session =
        DropSession { window: window(1), origin: Some(SpaceId::new(1)), settled: None };
    let note = DropNote { line: 4, in_drag: Some(window(1)), session: Some(session) };
    replay.note_drop(note);
    replay.end_event(4, &[place(1, false, &[1])]);
    let report = replay.finish(vec!["question".to_string()], vec![], end());
    assert!(matches!(
        &report.state_changes[..],
        [StateChange::Dropped(dropped), StateChange::Moved { line: 4, .. }] if *dropped == note
    ));
    assert_eq!(report.final_spaces, vec![SpaceId::new(1), SpaceId::new(2)]);
    assert_eq!(report.final_workspaces, vec![true, false]);
    assert_eq!(report.final_screens, 2);
    let last = &report.final_windows[0];
    assert_eq!(last.title, "a title of more than");
    assert_eq!(last.tiled, vec![SpaceId::new(1), SpaceId::new(2)]);
    assert!(last.admitted && !last.floating);
    let short = FinalWindow { title: "short".to_string(), ..end().windows.remove(0) };
    assert_eq!(final_window(&short, &[]).title, "short");
    assert!(!report.is_clean());
}

#[test]
fn a_replay_that_reproduces_the_recording_is_clean() {
    let mut replay: Replay<Frame> = Replay::new(vec![live(120, 1)], Table::new());
    let step = ReplayEvent {
        line: 0,
        ms: 100,
        event: CheckedEvent::Command,
        requested: false,
        echoes: false,
        in_drag: None,
    };
    replay.begin_event(step);
    replay.on_request("SetWindowFrame(..)");
    replay.on_write(write(100, 1, 0), &found(&[true]), facts());
    replay.end_event(0, &[place(1, false, &[1])]);
    // The application acknowledges what the replay wrote.
    let report = CheckedEvent::Report { window: window(1), frame: (100, 0), mouse: None };
    replay.begin_event(ReplayEvent {
        line: 1,
        ms: 900,
        event: report,
        requested: true,
        echoes: true,
        ..step
    });
    replay.end_event(1, &[place(1, false, &[1])]);
    let report = replay.finish(vec![], vec!["drift".to_string()], end());
    assert!(report.is_clean());
    assert!(report.diverged.is_none());
    assert_eq!((report.events, report.requests, report.writes.len()), (2, 1, 1));
    assert_eq!(report.state_changes.len(), 1);
    assert_eq!(report.drifts.len(), 1);
}

#[test]
fn a_replay_that_writes_nothing_leaves_the_recording() {
    let mut replay: Replay<Frame> = Replay::new(vec![live(120, 1)], Table::new());
    replay.begin_event(ReplayEvent {
        line: 3,
        ms: 700,
        event: CheckedEvent::Other,
        requested: false,
        echoes: false,
        in_drag: None,
    });
    replay.on_write(write(700, 1, 3), &found(&[true]), WriteFacts { empty: true, ..facts() });
    let report = replay.finish(vec!["question".to_string()], vec![], end());
    assert!(matches!(report.diverged, Some(Divergence::OnlyLive { line: 3, ms: 700, live: 0 })));
    assert_eq!(report.after_divergence.len(), 1);
    assert!(report.is_clean());
}
