//! The lines of a trace: what the reactor saw, and what it was answered.
//!
//! A trace begins with a line that holds the settings and one that holds the
//! layout. Each line behind them says by its first word what it holds.

use vstd::prelude::*;

use crate::events::MouseState;
use crate::ids::{Pid, WindowId, WindowServerId};
use crate::lists::IdSet;
use crate::managers::{WindowInventoryManager, WindowInventoryToken};
use crate::order::{each_once, in_order, stable_order};
use crate::text::{
    all_blank, begins, decimal, find_char, first_char_at, is_blank, number_of, number_text,
    parse_number, starts_with,
};
use crate::transaction_manager::TransactionId;

verus! {

/// A line of a trace behind the first two, with the text that it holds.
#[derive(Debug)]
pub enum TraceLine {
    Blank,
    /// The windows known when the recording began.
    Windows(String),
    /// The transactions known when the recording began.
    Transactions(String),
    /// A frame that was written.
    Out(String),
    /// An event, with the time it came at.
    Event { ms: String, event: String },
    /// An answer of the system.
    Sys(String),
    /// An answer of the system, in the older notation.
    OldSys(String),
    /// A note for readers.
    Note,
    /// A line of the flight recorder, which has no state to begin from.
    Flight,
    /// An event without a time, in the older notation.
    OldEvent,
}

/// What a line holds.
pub enum LineText {
    Blank,
    Windows(Seq<char>),
    Transactions(Seq<char>),
    Out(Seq<char>),
    Event { ms: Seq<char>, event: Seq<char> },
    Sys(Seq<char>),
    OldSys(Seq<char>),
    Note,
    Flight,
    OldEvent,
}

impl View for TraceLine {
    type V = LineText;

    open spec fn view(&self) -> LineText {
        match *self {
            TraceLine::Blank => LineText::Blank,
            TraceLine::Windows(text) => LineText::Windows(text@),
            TraceLine::Transactions(text) => LineText::Transactions(text@),
            TraceLine::Out(text) => LineText::Out(text@),
            TraceLine::Event { ms, event } => LineText::Event { ms: ms@, event: event@ },
            TraceLine::Sys(text) => LineText::Sys(text@),
            TraceLine::OldSys(text) => LineText::OldSys(text@),
            TraceLine::Note => LineText::Note,
            TraceLine::Flight => LineText::Flight,
            TraceLine::OldEvent => LineText::OldEvent,
        }
    }
}

/// Where the first blank of a text is.
pub open spec fn first_space(text: Seq<char>) -> int {
    choose|at: int| first_char_at(text, ' ', at)
}

/// What a line holds, by its first word.
pub open spec fn line_text(line: Seq<char>) -> LineText {
    if all_blank(line) {
        LineText::Blank
    } else if begins(line, "Windows "@) {
        LineText::Windows(line.skip(8))
    } else if begins(line, "Transactions "@) {
        LineText::Transactions(line.skip(13))
    } else if begins(line, "Out "@) {
        LineText::Out(line.skip(4))
    } else if begins(line, "Ev "@) {
        let rest = line.skip(3);
        let at = first_space(rest);
        LineText::Event { ms: rest.take(at), event: rest.skip(at + 1) }
    } else if begins(line, "Sys "@) {
        LineText::Sys(line.skip(4))
    } else if begins(line, "Sys"@) {
        LineText::OldSys(line.skip(3))
    } else if begins(line, "Act "@) {
        LineText::Note
    } else if begins(line, "Flight "@) {
        LineText::Flight
    } else {
        LineText::OldEvent
    }
}

/// A line that names an event has a time before it.
pub open spec fn readable(line: Seq<char>) -> bool {
    begins(line, "Ev "@) ==> line.skip(3).contains(' ')
}

fn rest_of(line: &str, from: usize) -> (rest: String)
    requires
        from <= line@.len(),
    ensures
        rest@ == line@.skip(from as int),
{
    let len = line.unicode_len();
    let rest = line.substring_char(from, len).to_owned();
    assert(line@.subrange(from as int, len as int) =~= line@.skip(from as int));
    rest
}

/// Whether a line that names an event has a time before it.
pub fn is_readable(line: &str) -> (is: bool)
    ensures
        is == readable(line@),
{
    proof {
        reveal_strlit("Ev ");
    }
    if !starts_with(line, "Ev ") {
        return true;
    }
    find_char(rest_of(line, 3).as_str(), ' ').is_some()
}

proof fn lemma_first_space(text: Seq<char>, at: int)
    requires
        first_char_at(text, ' ', at),
    ensures
        first_space(text) == at,
{
    let other = first_space(text);
    assert(first_char_at(text, ' ', other));
    if other < at {
        assert(text[other] != ' ');
    }
    if at < other {
        assert(text[at] != ' ');
    }
}

/// Reads a line.
pub fn read_line(line: &str) -> (read: TraceLine)
    requires
        readable(line@),
    ensures
        read@ == line_text(line@),
{
    proof {
        reveal_strlit("Windows ");
        reveal_strlit("Transactions ");
        reveal_strlit("Out ");
        reveal_strlit("Ev ");
        reveal_strlit("Sys ");
        reveal_strlit("Sys");
        reveal_strlit("Act ");
        reveal_strlit("Flight ");
    }
    if is_blank(line) {
        TraceLine::Blank
    } else if starts_with(line, "Windows ") {
        TraceLine::Windows(rest_of(line, 8))
    } else if starts_with(line, "Transactions ") {
        TraceLine::Transactions(rest_of(line, 13))
    } else if starts_with(line, "Out ") {
        TraceLine::Out(rest_of(line, 4))
    } else if starts_with(line, "Ev ") {
        let rest = rest_of(line, 3);
        match find_char(rest.as_str(), ' ') {
            Some(at) => {
                proof {
                    lemma_first_space(rest@, at as int);
                }
                let ms = rest.as_str().substring_char(0, at).to_owned();
                let len = rest.as_str().unicode_len();
                assert(at < len);
                let event = rest_of(rest.as_str(), at + 1);
                assert(rest@.subrange(0, at as int) =~= rest@.take(at as int));
                TraceLine::Event { ms, event }
            },
            None => TraceLine::Blank,
        }
    } else if starts_with(line, "Sys ") {
        TraceLine::Sys(rest_of(line, 4))
    } else if starts_with(line, "Sys") {
        TraceLine::OldSys(rest_of(line, 3))
    } else if starts_with(line, "Act ") {
        TraceLine::Note
    } else if starts_with(line, "Flight ") {
        TraceLine::Flight
    } else {
        TraceLine::OldEvent
    }
}

/// The time of an event line.
pub fn read_ms(ms: &str) -> (time: Option<u64>)
    ensures
        time == number_of(ms@),
{
    parse_number(ms)
}

/// The line for an event.
pub open spec fn event_text(ms: u64, event: Seq<char>) -> Seq<char> {
    "Ev "@ + decimal(ms as nat) + " "@ + event
}

/// The line for an event.
pub fn event_line(ms: u64, event: &str) -> (line: String)
    ensures
        line@ == event_text(ms, event@),
{
    let mut line = "Ev ".to_owned();
    line.append(number_text(ms).as_str());
    line.append(" ");
    line.append(event);
    line
}

/// The line for the windows known when a recording begins.
pub fn windows_line(windows: &str) -> (line: String)
    ensures
        line@ == "Windows "@ + windows@,
{
    let mut line = "Windows ".to_owned();
    line.append(windows);
    line
}

/// The line for the transactions known when a recording begins.
pub fn transactions_line(transactions: &str) -> (line: String)
    ensures
        line@ == "Transactions "@ + transactions@,
{
    let mut line = "Transactions ".to_owned();
    line.append(transactions);
    line
}

/// An event reads back from its line as it was written, with its time.
pub proof fn a_written_event_reads_back(ms: u64, event: Seq<char>)
    ensures
        readable(event_text(ms, event)),
        line_text(event_text(ms, event)) == (LineText::Event { ms: decimal(ms as nat), event }),
        number_of(decimal(ms as nat)) == Some(ms),
{
    reveal_strlit("Windows ");
    reveal_strlit("Transactions ");
    reveal_strlit("Out ");
    reveal_strlit("Ev ");
    reveal_strlit(" ");
    crate::text::a_written_number_reads_back(ms);
    let line = event_text(ms, event);
    let time = decimal(ms as nat);
    let rest = line.skip(3);
    let at = time.len() as int;
    assert(rest =~= time + " "@ + event);
    assert(line.take(3) =~= "Ev "@);
    assert(line[0] == 'E');
    assert(!crate::text::blank('E'));
    assert("Windows "@[0] == 'W' && "Transactions "@[0] == 'T' && "Out "@[0] == 'O');
    assert(!begins(line, "Windows "@)) by {
        if begins(line, "Windows "@) {
            assert(line.take(8)[0] == 'E');
        }
    }
    assert(!begins(line, "Transactions "@)) by {
        if begins(line, "Transactions "@) {
            assert(line.take(13)[0] == 'E');
        }
    }
    assert(!begins(line, "Out "@)) by {
        assert(line.take(4)[0] == 'E');
    }
    assert(first_char_at(rest, ' ', at)) by {
        assert(rest[at] == ' ');
        assert forall|i: int| 0 <= i < at implies #[trigger] rest[i] != ' ' by {
            assert(rest[i] == time[i]);
            assert(time.contains(time[i]));
        }
    }
    assert(rest.contains(' '));
    lemma_first_space(rest, at);
    assert(rest.take(at) =~= time);
    assert(rest.skip(at + 1) =~= event);
}

/// What is written of the windows and transactions at the beginning reads back.
pub proof fn a_written_state_reads_back(text: Seq<char>)
    ensures
        readable("Windows "@ + text),
        line_text("Windows "@ + text) == LineText::Windows(text),
        readable("Transactions "@ + text),
        line_text("Transactions "@ + text) == LineText::Transactions(text),
{
    reveal_strlit("Windows ");
    reveal_strlit("Transactions ");
    reveal_strlit("Ev ");
    let windows = "Windows "@ + text;
    let transactions = "Transactions "@ + text;
    assert(windows.take(8) =~= "Windows "@);
    assert(windows.skip(8) =~= text);
    assert(transactions.take(13) =~= "Transactions "@);
    assert(transactions.skip(13) =~= text);
    assert(windows[0] == 'W' && transactions[0] == 'T');
    assert(!crate::text::blank('W') && !crate::text::blank('T'));
    assert(!begins(transactions, "Windows "@)) by {
        assert(transactions.take(8)[0] == 'T');
    }
    assert(!begins(windows, "Ev "@)) by {
        assert(windows.take(3)[0] == 'W');
    }
    assert(!begins(transactions, "Ev "@)) by {
        assert(transactions.take(3)[0] == 'T');
    }
}

/// The token of an inventory from a trace that has none. Requests are numbered
/// from one, so it is no other request's.
pub fn legacy_inventory_token() -> (token: WindowInventoryToken)
    ensures
        token == (WindowInventoryToken { request_id: 0, topology_revision: 0 }),
{
    WindowInventoryToken { request_id: 0, topology_revision: 0 }
}

/// The token that an inventory of a trace answers. One without a token answers
/// what is in flight for its application; with nothing in flight it answers
/// nothing.
pub fn fill_legacy_inventory_token(
    inventories: &WindowInventoryManager,
    pid: Pid,
    token: WindowInventoryToken,
) -> (filled: WindowInventoryToken)
    requires
        inventories.wf(),
    ensures
        filled == if token.request_id == 0 && token.topology_revision == 0
            && inventories.in_flight.at(pid) is Some {
            inventories.in_flight.at(pid)->0
        } else {
            token
        },
{
    if token == legacy_inventory_token() {
        match inventories.in_flight.get(&pid) {
            Some(in_flight) => {
                return *in_flight;
            },
            None => {},
        }
    }
    token
}

/// An inventory without a token is taken if its application was asked for one in
/// the topology of now.
pub proof fn a_legacy_inventory_is_taken(
    inventories: WindowInventoryManager,
    pid: Pid,
    in_flight: WindowInventoryToken,
)
    requires
        inventories.in_flight.at(pid) == Some(in_flight),
        in_flight.topology_revision == inventories.topology_revision,
    ensures
        inventories.accepts(pid, in_flight, true, false),
{
}

/// What an event says of the mouse button.
#[derive(Clone, Copy, Debug, PartialEq, Eq, Structural)]
pub struct ButtonHint {
    pub ms: u64,
    /// Down for a drag, up for a release or a move.
    pub down: bool,
}

/// An answer of the system to replay.
#[derive(Clone, Copy, Debug, PartialEq, Eq, Structural)]
pub enum Answer {
    /// The recorded one at this place.
    Recorded(usize),
    /// The mouse button, as the events tell.
    Button(MouseState),
}

/// The changes of the mouse button that events tell of, up to the first of which
/// it was `down`.
pub open spec fn button_changes(hints: Seq<ButtonHint>) -> Seq<ButtonHint>
    decreases hints.len(),
{
    if hints.len() == 0 {
        Seq::empty()
    } else {
        let before = button_changes(hints.drop_last());
        if hints.last().down == button_state(hints.drop_last()) {
            before
        } else {
            before.push(hints.last())
        }
    }
}

/// Whether the button is down after these events; it begins up.
pub open spec fn button_state(hints: Seq<ButtonHint>) -> bool {
    hints.len() > 0 && hints.last().down
}

/// The changes of the mouse button that events tell of. Those in between ask for
/// a state that was not recorded, so it is made up from the events.
pub fn mouse_state_changes(hints: &[ButtonHint]) -> (changes: Vec<ButtonHint>)
    ensures
        changes@ == button_changes(hints@),
{
    let mut changes: Vec<ButtonHint> = Vec::new();
    let mut down = false;
    let mut i: usize = 0;
    while i < hints.len()
        invariant
            i <= hints@.len(),
            changes@ == button_changes(hints@.take(i as int)),
            down == button_state(hints@.take(i as int)),
        decreases hints@.len() - i,
    {
        let ghost next = hints@.take(i + 1);
        assert(next.drop_last() =~= hints@.take(i as int));
        assert(next.last() == hints@[i as int]);
        if hints[i].down != down {
            down = hints[i].down;
            changes.push(hints[i]);
        }
        i = i + 1;
    }
    assert(hints@.take(i as int) =~= hints@);
    changes
}

/// The button goes up and down in turn: no two changes in a row are to the same
/// state, and the first is down.
pub proof fn button_changes_alternate(hints: Seq<ButtonHint>)
    ensures
        ({
            let changes = button_changes(hints);
            &&& changes.len() > 0 ==> changes[0].down
            &&& forall|i: int|
                0 < i < changes.len() ==> (#[trigger] changes[i]).down != changes[i - 1].down
            &&& (changes.len() > 0 && changes.last().down) == button_state(hints)
        }),
    decreases hints.len(),
{
    if hints.len() > 0 {
        button_changes_alternate(hints.drop_last());
        let before = button_changes(hints.drop_last());
        let after = button_changes(hints);
        assert forall|i: int| 0 < i < after.len() implies (#[trigger] after[i]).down != after[i
            - 1].down by {
            if i < before.len() {
                assert(after[i] == before[i] && after[i - 1] == before[i - 1]);
            }
        }
    }
}

/// The times of the recorded answers, and behind them of the button's changes.
pub open spec fn answer_times(recorded: Seq<u64>, changes: Seq<ButtonHint>) -> Seq<u64> {
    recorded + changes.map_values(|change: ButtonHint| change.ms)
}

/// The answer at a place among the recorded ones and, behind them, the button's
/// changes.
pub open spec fn answer_at(recorded: nat, changes: Seq<ButtonHint>, place: int) -> Answer {
    if place < recorded {
        Answer::Recorded(place as usize)
    } else if changes[place - recorded].down {
        Answer::Button(MouseState::Down)
    } else {
        Answer::Button(MouseState::Up)
    }
}

/// The answers to replay, in the order of their times: the recorded ones, and
/// the changes of the mouse button.
pub fn answers_in_order(recorded: &[u64], changes: &[ButtonHint]) -> (answers: Vec<(u64, Answer)>)
    requires
        recorded@.len() + changes@.len() <= usize::MAX,
    ensures
        exists|order: Seq<usize>|
            #![trigger in_order(answer_times(recorded@, changes@), order)]
            each_once(order, (recorded@.len() + changes@.len()) as int) && in_order(
                answer_times(recorded@, changes@),
                order,
            ) && answers@.len() == order.len() && forall|i: int|
                0 <= i < answers@.len() ==> #[trigger] answers@[i] == (
                    answer_times(recorded@, changes@)[order[i] as int],
                    answer_at(recorded@.len(), changes@, order[i] as int),
                ),
{
    let mut times: Vec<u64> = Vec::new();
    let mut i: usize = 0;
    while i < recorded.len()
        invariant
            i <= recorded@.len(),
            times@ == recorded@.take(i as int),
        decreases recorded@.len() - i,
    {
        times.push(recorded[i]);
        assert(times@ =~= recorded@.take(i + 1));
        i = i + 1;
    }
    let ghost all = answer_times(recorded@, changes@);
    assert(times@ =~= recorded@);
    let mut k: usize = 0;
    while k < changes.len()
        invariant
            k <= changes@.len(),
            all == answer_times(recorded@, changes@),
            times@ == all.take(recorded@.len() + k),
        decreases changes@.len() - k,
    {
        times.push(changes[k].ms);
        assert(times@ =~= all.take(recorded@.len() + k + 1));
        k = k + 1;
    }
    assert(times@ =~= all);
    let order = stable_order(&times);
    let mut answers: Vec<(u64, Answer)> = Vec::new();
    let mut n: usize = 0;
    while n < order.len()
        invariant
            n <= order@.len(),
            each_once(order@, (recorded@.len() + changes@.len()) as int),
            all == answer_times(recorded@, changes@),
            times@ == all,
            answers@.len() == n,
            forall|j: int|
                0 <= j < n ==> #[trigger] answers@[j] == (
                    all[order@[j] as int],
                    answer_at(recorded@.len(), changes@, order@[j] as int),
                ),
        decreases order@.len() - n,
    {
        let place = order[n];
        let answer = if place < recorded.len() {
            Answer::Recorded(place)
        } else if changes[place - recorded.len()].down {
            Answer::Button(MouseState::Down)
        } else {
            Answer::Button(MouseState::Up)
        };
        answers.push((times[place], answer));
        n = n + 1;
    }
    assert(in_order(all, order@));
    answers
}

/// A frame report of a trace: the transaction that the application had seen, and
/// the window's number with the window server.
#[derive(Clone, Copy, Debug, PartialEq, Eq, Structural)]
pub struct SeenReport {
    pub window: WindowId,
    pub seen: Option<TransactionId>,
    pub sys_id: Option<WindowServerId>,
}

/// A report of the same window with a transaction came before.
pub open spec fn seen_before(reports: Seq<SeenReport>, at: int) -> bool {
    exists|i: int|
        0 <= i < at && (#[trigger] reports[i]).window == reports[at].window && reports[i].seen is Some
}

/// The transaction that the first report of each window with one tells of, by
/// the window's number.
pub open spec fn first_seen_ids(reports: Seq<SeenReport>) -> Seq<(WindowServerId, TransactionId)>
    decreases reports.len(),
{
    if reports.len() == 0 {
        Seq::empty()
    } else {
        let before = first_seen_ids(reports.drop_last());
        let report = reports.last();
        if report.seen is Some && report.sys_id is Some && !seen_before(
            reports,
            reports.len() - 1,
        ) {
            before.push((report.sys_id->0, report.seen->0))
        } else {
            before
        }
    }
}

/// The transactions to begin from where a trace has none: the first that each
/// application echoes is the one that was last sent.
pub fn seed_transactions(reports: &[SeenReport]) -> (seeds: Vec<(WindowServerId, TransactionId)>)
    ensures
        seeds@ == first_seen_ids(reports@),
{
    let mut seeds: Vec<(WindowServerId, TransactionId)> = Vec::new();
    let mut seeded: IdSet<WindowId> = IdSet::new();
    let mut i: usize = 0;
    while i < reports.len()
        invariant
            i <= reports@.len(),
            seeded.wf(),
            forall|window: WindowId| #[trigger]
                seeded@.contains(window) <==> exists|k: int|
                    0 <= k < i && (#[trigger] reports@[k]).window == window && reports@[k].seen is Some,
            seeds@ == first_seen_ids(reports@.take(i as int)),
        decreases reports@.len() - i,
    {
        let report = reports[i];
        let ghost next = reports@.take(i + 1);
        let ghost before = seeded@;
        assert(next.drop_last() =~= reports@.take(i as int));
        assert(next.last() == report);
        assert(seeded@.contains(report.window) == seen_before(next, i as int)) by {
            if seeded@.contains(report.window) {
                let k = choose|k: int|
                    0 <= k < i && (#[trigger] reports@[k]).window == report.window
                        && reports@[k].seen is Some;
                assert(next[k] == reports@[k]);
            }
            if seen_before(next, i as int) {
                let k = choose|k: int|
                    0 <= k < i && (#[trigger] next[k]).window == next[i as int].window
                        && next[k].seen is Some;
                assert(next[k] == reports@[k]);
            }
        }
        match report.seen {
            Some(seen) => {
                if !seeded.contains(report.window) {
                    let _ = seeded.insert(report.window);
                    match report.sys_id {
                        Some(window) => {
                            seeds.push((window, seen));
                        },
                        None => {},
                    }
                }
            },
            None => {},
        }
        proof {
            assert forall|window: WindowId| #[trigger]
                seeded@.contains(window) <==> exists|k: int|
                    0 <= k < i + 1 && (#[trigger] reports@[k]).window == window
                        && reports@[k].seen is Some by {
                if before.contains(window) {
                    let k = choose|k: int|
                        0 <= k < i && (#[trigger] reports@[k]).window == window
                            && reports@[k].seen is Some;
                    assert(0 <= k < i + 1 && reports@[k].window == window);
                }
                if report.seen is Some && report.window == window {
                    assert(reports@[i as int].window == window);
                }
            }
        }
        i = i + 1;
    }
    assert(reports@.take(i as int) =~= reports@);
    seeds
}

/// The mark of each kind of line is its first word; a line of blanks is none of them, and
/// what has no mark is an event of the older notation.
pub proof fn what_a_line_holds(text: Seq<char>)
    ensures
        line_text("Out "@ + text) == LineText::Out(text),
        line_text("Sys "@ + text) == LineText::Sys(text),
        line_text("Act "@ + text) is Note,
        line_text("Flight "@ + text) is Flight,
        all_blank(text) ==> line_text(text) is Blank,
        text.len() > 0 && text[0] != ' ' ==> line_text("Sys"@ + text) == LineText::OldSys(text),
        !all_blank(text) && text.len() > 0 && text[0] != 'W' && text[0] != 'T' && text[0] != 'O'
            && text[0] != 'E' && text[0] != 'S' && text[0] != 'A' && text[0] != 'F' ==> line_text(
            text,
        ) is OldEvent,
{
    reveal_strlit("Windows ");
    reveal_strlit("Transactions ");
    reveal_strlit("Out ");
    reveal_strlit("Ev ");
    reveal_strlit("Sys ");
    reveal_strlit("Sys");
    reveal_strlit("Act ");
    reveal_strlit("Flight ");
    let out = "Out "@ + text;
    assert(out[0] == 'O');
    assert(out.take(4) =~= "Out "@);
    assert(out.skip(4) =~= text);
    assert(!crate::text::blank(out[0]));
    assert(out.take(8)[0] == out[0] || out.len() < 8);
    assert(out.take(13)[0] == out[0] || out.len() < 13);
    let sys = "Sys "@ + text;
    assert(sys[0] == 'S');
    assert(sys.take(4) =~= "Sys "@);
    assert(sys.skip(4) =~= text);
    assert(!crate::text::blank(sys[0]));
    lemma_first_letter(sys);
    let act = "Act "@ + text;
    assert(act[0] == 'A');
    assert(act.take(4) =~= "Act "@);
    assert(!crate::text::blank(act[0]));
    lemma_first_letter(act);
    let flight = "Flight "@ + text;
    assert(flight[0] == 'F');
    assert(flight.take(7) =~= "Flight "@);
    assert(!crate::text::blank(flight[0]));
    lemma_first_letter(flight);
    lemma_first_letter(out);
    if text.len() > 0 && text[0] != ' ' {
        let old = "Sys"@ + text;
        assert(old[0] == 'S');
        assert(old[3] == text[0]);
        assert(old.take(4)[3] == text[0]);
        assert(old.take(3) =~= "Sys"@);
        assert(old.skip(3) =~= text);
        assert(!crate::text::blank(old[0]));
        lemma_first_letter(old);
    }
    if text.len() > 0 {
        lemma_first_letter(text);
    }
}

proof fn lemma_first_letter(line: Seq<char>)
    requires
        line.len() > 0,
    ensures
        line[0] != 'W' ==> !begins(line, "Windows "@),
        line[0] != 'T' ==> !begins(line, "Transactions "@),
        line[0] != 'O' ==> !begins(line, "Out "@),
        line[0] != 'E' ==> !begins(line, "Ev "@),
        line[0] != 'S' ==> !begins(line, "Sys "@) && !begins(line, "Sys"@),
        line[0] != 'A' ==> !begins(line, "Act "@),
        line[0] != 'F' ==> !begins(line, "Flight "@),
{
    reveal_strlit("Windows ");
    reveal_strlit("Transactions ");
    reveal_strlit("Out ");
    reveal_strlit("Ev ");
    reveal_strlit("Sys ");
    reveal_strlit("Sys");
    reveal_strlit("Act ");
    reveal_strlit("Flight ");
    assert(begins(line, "Windows "@) ==> line.take(8)[0] == line[0]);
    assert(begins(line, "Transactions "@) ==> line.take(13)[0] == line[0]);
    assert(begins(line, "Out "@) ==> line.take(4)[0] == line[0]);
    assert(begins(line, "Ev "@) ==> line.take(3)[0] == line[0]);
    assert(begins(line, "Sys "@) ==> line.take(4)[0] == line[0]);
    assert(begins(line, "Sys"@) ==> line.take(3)[0] == line[0]);
    assert(begins(line, "Act "@) ==> line.take(4)[0] == line[0]);
    assert(begins(line, "Flight "@) ==> line.take(7)[0] == line[0]);
}

/// One more event changes the button if it tells of the other state than the event before,
/// or of the button down where there was none before.
pub proof fn when_the_button_changes(hints: Seq<ButtonHint>, hint: ButtonHint)
    ensures
        hints.len() == 0 && hint.down ==> button_changes(hints.push(hint)) == seq![hint],
        hints.len() == 0 && !hint.down ==> button_changes(hints.push(hint)).len() == 0,
        hints.len() > 0 && hint.down != hints.last().down ==> button_changes(hints.push(hint))
            == button_changes(hints).push(hint),
        hints.len() > 0 && hint.down == hints.last().down ==> button_changes(hints.push(hint))
            == button_changes(hints),
{
    reveal_with_fuel(button_changes, 2);
    assert(hints.push(hint).drop_last() =~= hints);
}

/// The answers are the recorded ones at their places and times, and behind them the changes
/// of the button at theirs.
pub proof fn which_answer_is_at_a_place(recorded: Seq<u64>, changes: Seq<ButtonHint>, i: int)
    ensures
        0 <= i < recorded.len() ==> answer_times(recorded, changes)[i] == recorded[i] && answer_at(
            recorded.len(),
            changes,
            i,
        ) == Answer::Recorded(i as usize),
        0 <= i < changes.len() ==> answer_times(recorded, changes)[recorded.len() + i]
            == changes[i].ms,
        0 <= i < changes.len() && changes[i].down ==> answer_at(
            recorded.len(),
            changes,
            recorded.len() + i,
        ) == Answer::Button(MouseState::Down),
        0 <= i < changes.len() && !changes[i].down ==> answer_at(
            recorded.len(),
            changes,
            recorded.len() + i,
        ) == Answer::Button(MouseState::Up),
{
}

/// One more report adds its transaction by its window's number, if it has both and no
/// report of that window before it had a transaction.
pub proof fn which_transactions_are_begun_from(reports: Seq<SeenReport>, report: SeenReport)
    ensures
        first_seen_ids(Seq::empty()).len() == 0,
        ({
            let before = first_seen_ids(reports);
            let after = first_seen_ids(reports.push(report));
            let told = exists|i: int|
                0 <= i < reports.len() && (#[trigger] reports[i]).window == report.window
                    && reports[i].seen is Some;
            &&& report.seen is Some && report.sys_id is Some && !told ==> after == before.push(
                (report.sys_id->0, report.seen->0),
            )
            &&& report.seen is None || report.sys_id is None || told ==> after == before
        }),
{
    let all = reports.push(report);
    assert(all.drop_last() =~= reports);
    assert(all[reports.len() as int] == report);
    if seen_before(all, reports.len() as int) {
        let i = choose|i: int|
            0 <= i < reports.len() && (#[trigger] all[i]).window == report.window
                && all[i].seen is Some;
        assert(reports[i] == all[i]);
    }
    if exists|i: int|
        0 <= i < reports.len() && (#[trigger] reports[i]).window == report.window
            && reports[i].seen is Some {
        let i = choose|i: int|
            0 <= i < reports.len() && (#[trigger] reports[i]).window == report.window
                && reports[i].seen is Some;
        assert(all[i] == reports[i]);
    }
}

} // verus!
