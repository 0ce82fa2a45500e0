use rift::events::MouseState;
use rift::ids::{WindowId, WindowServerId};
use rift::managers::{WindowInventoryManager, WindowInventoryToken};
use rift::trace::{
    answers_in_order, event_line, fill_legacy_inventory_token, is_readable, legacy_inventory_token,
    mouse_state_changes, read_line, read_ms, seed_transactions, transactions_line, windows_line,
    Answer, ButtonHint, SeenReport, TraceLine,
};
use rift::transaction_manager::TransactionId;

#[test]
fn a_line_says_by_its_first_word_what_it_holds() {
    assert!(matches!(read_line(""), TraceLine::Blank));
    assert!(matches!(read_line("  \t"), TraceLine::Blank));
    assert!(matches!(read_line("Windows {\"a\":1}"), TraceLine::Windows(t) if t == "{\"a\":1}"));
    assert!(matches!(read_line("Transactions []"), TraceLine::Transactions(t) if t == "[]"));
    assert!(matches!(read_line("Out {}"), TraceLine::Out(t) if t == "{}"));
    assert!(matches!(read_line("Sys {}"), TraceLine::Sys(t) if t == "{}"));
    assert!(matches!(read_line("Sys(ms:1)"), TraceLine::OldSys(t) if t == "(ms:1)"));
    assert!(matches!(read_line("Act tap"), TraceLine::Note));
    assert!(matches!(read_line("Flight 1"), TraceLine::Flight));
    assert!(matches!(read_line("MouseUp"), TraceLine::OldEvent));
    assert!(matches!(read_line("WindowsDiscovered(pid:1)"), TraceLine::OldEvent));
}

#[test]
fn an_event_has_a_time_before_it() {
    match read_line("Ev 12 \"MouseUp\" x") {
        TraceLine::Event { ms, event } => {
            assert_eq!(ms, "12");
            assert_eq!(event, "\"MouseUp\" x");
            assert_eq!(read_ms(&ms), Some(12));
        }
        other => panic!("{other:?}"),
    }
    assert!(is_readable("Ev 12 x"));
    assert!(!is_readable("Ev 12"));
    assert!(is_readable("Event 12"));
    assert_eq!(read_ms("12ms"), None);
}

#[test]
fn a_written_event_reads_back() {
    for (ms, json) in [(0, "\"MouseUp\""), (1500, "{\"MouseMoved\": 4}"), (u64::MAX, "")] {
        let line = event_line(ms, json);
        assert_eq!(line, format!("Ev {ms} {json}"));
        match read_line(&line) {
            TraceLine::Event { ms: time, event } => {
                assert_eq!(read_ms(&time), Some(ms));
                assert_eq!(event, json);
            }
            other => panic!("{other:?}"),
        }
    }
}

#[test]
fn a_written_state_reads_back() {
    assert!(matches!(read_line(&windows_line("{}")), TraceLine::Windows(t) if t == "{}"));
    assert!(matches!(read_line(&transactions_line("[1]")), TraceLine::Transactions(t) if t == "[1]"));
}

#[test]
fn an_inventory_without_a_token_answers_what_is_in_flight() {
    let mut inventories = WindowInventoryManager::new();
    let token = inventories.request(7, false, true).unwrap();
    inventories.sent(7, token);
    assert_eq!(fill_legacy_inventory_token(&inventories, 7, legacy_inventory_token()), token);
    assert_eq!(
        fill_legacy_inventory_token(&inventories, 8, legacy_inventory_token()),
        legacy_inventory_token()
    );
    let other = WindowInventoryToken { request_id: 9, topology_revision: 0 };
    assert_eq!(fill_legacy_inventory_token(&inventories, 7, other), other);
    assert_eq!(inventories.finish(7, token, true, false), (true, false));
}

fn hint(ms: u64, down: bool) -> ButtonHint {
    ButtonHint { ms, down }
}

#[test]
fn the_button_is_made_up_from_the_events() {
    let hints = [hint(1, false), hint(2, true), hint(3, true), hint(4, false), hint(5, false)];
    assert_eq!(mouse_state_changes(&hints), vec![hint(2, true), hint(4, false)]);
    assert_eq!(mouse_state_changes(&[]), vec![]);
}

#[test]
fn answers_are_in_the_order_of_their_times() {
    let answers = answers_in_order(&[5, 1, 5], &[hint(5, true), hint(0, false)]);
    assert_eq!(
        answers,
        vec![
            (0, Answer::Button(MouseState::Up)),
            (1, Answer::Recorded(1)),
            (5, Answer::Recorded(0)),
            (5, Answer::Recorded(2)),
            (5, Answer::Button(MouseState::Down)),
        ]
    );
}

#[test]
fn the_first_echo_is_what_was_last_sent() {
    let a = WindowId::new(1, 1);
    let b = WindowId::new(1, 2);
    let first = TransactionId::default().next();
    let second = first.next();
    let report = |window, seen, number: Option<u32>| SeenReport {
        window,
        seen,
        sys_id: number.map(WindowServerId::new),
    };
    let seeds = seed_transactions(&[
        report(a, None, Some(10)),
        report(a, Some(first), Some(10)),
        report(b, Some(first), None),
        report(a, Some(second), Some(10)),
        report(b, Some(second), Some(20)),
    ]);
    assert_eq!(seeds, vec![(WindowServerId::new(10), first)]);
}
