//! The reactor: what is done about each event.

use vstd::prelude::*;

use crate::clock::Nanos;
use crate::commands::Vocabulary;
use crate::events::{Event, Quiet, SnapshotReleases};
use crate::ids::{Pid, SpaceId, WindowId};
use crate::lists::holds;
use crate::managers::{
    after_lifecycle, next_number, AppManager, AppState, Lifecycle, MenuManager, MenuState,
    MissionControlManager, MissionControlState, RefocusManager, RefocusState,
    RefreshQuarantineManager, StaleCleanupState, WindowInventoryManager, WindowInventoryToken,
    WorkspaceSwitchManager, WorkspaceSwitchState,
};

verus! {

/// What the reactor remembers between events, besides its layouts and drags.
#[derive(Debug)]
pub struct Reactor {
    pub apps: AppManager,
    pub quarantine: RefreshQuarantineManager,
    pub menu: MenuManager,
    pub mission_control: MissionControlManager,
    pub inventories: WindowInventoryManager,
    pub switch: WorkspaceSwitchManager,
    pub refocus: RefocusManager,
    pub menu_bar_space: Option<SpaceId>,
    /// The desktop that commands are for.
    pub command_space: Option<SpaceId>,
    /// When the mouse button last came up.
    pub last_mouse_up: Option<Nanos>,
    /// The window that had focus when focus went where there is no window.
    pub focus_left_from: Option<WindowId>,
    /// Why the command in hand could not be carried out.
    pub command_error: Option<String>,
}

/// Whether an event is looked at.
#[derive(Clone, Copy, Debug, PartialEq, Eq, Structural)]
pub enum Admission {
    /// It is a question, which is answered.
    Answer,
    /// It is dropped.
    Drop,
    /// It is handled; the window of that number is at work.
    Handle(Option<u32>),
}

/// What becomes of an event before it is dispatched.
#[derive(Clone, Copy, Debug, PartialEq, Eq, Structural)]
pub enum Entry {
    /// It was a sleep, wake, session or display change. Whether all windows are
    /// to be looked at now.
    Lifecycle { change: Lifecycle, refresh: bool },
    /// The time of a display's windows to arrive is up.
    HomingDeadline,
    Dispatch,
}

/// What is known when an event is dispatched.
#[derive(Clone, Copy, Debug, PartialEq, Eq, Structural)]
pub struct DispatchFacts {
    /// The window that the event brings to the front.
    pub raised: Option<WindowId>,
    /// The event's application was in front before it.
    pub was_front: bool,
    /// The event's application is in front now.
    pub is_front: bool,
    /// The window that has the layout's focus.
    pub layout_focus: Option<WindowId>,
    /// The event's window is known.
    pub window_known: bool,
    /// The event's desktop is one on which the manager is active.
    pub space_active: bool,
}

/// What is done about an event.
#[derive(Clone, Copy, Debug, PartialEq, Eq, Structural)]
pub enum Route {
    Nothing,
    /// Focus may have changed, and with it what notifications are taken from.
    Focus { notify: bool },
    /// The application is taken in, and told when it is in front.
    Launched { tell_front: bool },
    Terminated,
    ThreadTerminated,
    /// The workspace may follow the application.
    Activated { follow: bool },
    /// The application is told that it is in front, and answers for itself.
    TellActivated { tell: bool },
    /// The pointer stays hidden.
    EnforceHidden,
    /// The application's windows are asked for.
    Ask,
    /// The layout's focus goes to the window.
    FocusLayout { space: SpaceId, window: WindowId },
    /// The raises that missed their windows are over, and the application's
    /// windows asked for.
    GiveUpRaises,
    /// The windows found are taken in; after a raise that missed its window the
    /// layout is arranged again.
    Discovered { arrange: bool },
    /// The windows found are out of date.
    Discard,
    RegisterSender,
    /// The report of the topology is taken in.
    Snapshot,
    /// The drag ends.
    MouseUp,
    /// The command is carried out.
    Command,
    /// The report of a window's frame is taken in.
    FrameReport,
    /// A window has appeared on a desktop.
    Appeared,
    /// A window is back from the Dock.
    Deminiaturized,
    /// A window was ordered in or out.
    Visibility,
    /// A drag with a modifier begins.
    ModifierBegin,
    /// The pointer moved in a drag with a modifier.
    ModifierMoved,
    /// The pointer moved with the button held.
    Dragged,
    /// The pointer came over a window.
    Hovered,
    /// What the event says is handed on as it is.
    TakeIn,
}

/// What is done about an event, and with it.
#[derive(Clone, Copy, Debug, PartialEq, Eq, Structural)]
pub struct Dispatch {
    pub route: Route,
    /// The window that gets the focus once the layout is done.
    pub focused: Option<WindowId>,
    /// The request for an application's windows to send.
    pub ask: Option<WindowInventoryToken>,
    /// A menu was closed, so focus may follow the mouse again.
    pub menu_closed: bool,
}

/// A window that is missing from a raise is among the windows found.
pub open spec fn found_missing(
    inventories: WindowInventoryManager,
    pid: Pid,
    new: Seq<WindowId>,
) -> bool {
    inventories.refocus_after_refresh.at(pid) matches Some(window) && new.contains(window)
}

impl Reactor {
    pub open spec fn wf(&self) -> bool {
        self.apps.wf() && self.inventories.wf()
    }

    /// The application is the one that guards the login screen.
    pub open spec fn is_login_window(&self, pid: Pid) -> bool {
        self.apps.apps.at(pid) matches Some(app) && (app.bundle_id matches Some(id) && id@
            == "com.apple.loginwindow"@)
    }

    /// A reactor that has seen nothing yet.
    pub fn new() -> (reactor: Reactor)
        ensures
            reactor.wf(),
            reactor.apps.apps@ == Map::<Pid, AppState>::empty(),
            reactor.quarantine == (RefreshQuarantineManager {
                sleeping: false,
                session_inactive: false,
                display_churn_active: false,
                awaiting_post_wake_snapshot: false,
                awaiting_post_session_snapshot: false,
                pending_inventory_refresh: false,
                suppress_auto_workspace_switch_until_input: false,
            }),
            reactor.menu.menu_state == MenuState::Closed,
            reactor.mission_control.mission_control_state == MissionControlState::Inactive,
            reactor.inventories.topology_revision == 0,
            reactor.inventories.next_request_id == 0,
            reactor.inventories.in_flight@ == Map::<Pid, WindowInventoryToken>::empty(),
            reactor.inventories.pending@ == Set::<Pid>::empty(),
            reactor.inventories.refocus_after_refresh@ == Map::<Pid, WindowId>::empty(),
            reactor.switch == (WorkspaceSwitchManager {
                workspace_switch_state: WorkspaceSwitchState::Inactive,
                workspace_switch_generation: 0,
                active_workspace_switch: None,
                pending_workspace_switch_origin: None,
                pending_workspace_mouse_warp: None,
            }),
            reactor.refocus.stale_cleanup_state == StaleCleanupState::Enabled,
            reactor.refocus.refocus_state == RefocusState::Idle,
            reactor.menu_bar_space is None && reactor.command_space is None,
            reactor.last_mouse_up is None && reactor.focus_left_from is None,
            reactor.command_error is None,
    {
        Reactor {
            apps: AppManager::new(),
            quarantine: RefreshQuarantineManager::new(),
            menu: MenuManager { menu_state: MenuState::Closed },
            mission_control: MissionControlManager {
                mission_control_state: MissionControlState::Inactive,
            },
            inventories: WindowInventoryManager::new(),
            switch: WorkspaceSwitchManager::new(),
            refocus: RefocusManager {
                stale_cleanup_state: StaleCleanupState::Enabled,
                refocus_state: RefocusState::Idle,
            },
            menu_bar_space: None,
            command_space: None,
            last_mouse_up: None,
            focus_left_from: None,
            command_error: None,
        }
    }

    /// Whether an event is looked at: a question always is; what cannot be
    /// relied on while displays come and go is dropped.
    pub fn admission<V: Vocabulary>(&self, event: &Event<V>, churn_active: bool) -> (admission:
        Admission)
        ensures
            admission == if event is Query {
                Admission::Answer
            } else if self.quarantine.blocks_refreshes() && (event is SpaceCreated
                || event is SpaceDestroyed) {
                Admission::Drop
            } else if churn_active && event.is_churned() {
                Admission::Drop
            } else {
                Admission::Handle(event.activity())
            },
    {
        if matches!(event, Event::Query) {
            return Admission::Answer;
        }
        if event.should_quarantine_space_lifecycle_event(&self.quarantine) {
            return Admission::Drop;
        }
        if event.should_quarantine_during_display_churn(churn_active) {
            return Admission::Drop;
        }
        Admission::Handle(event.windowserver_activity())
    }

    /// The quarantine with the user's doing taken into account: after input,
    /// activations are the user's again.
    pub open spec fn input_seen<V: Vocabulary>(&self, event: Event<V>) -> RefreshQuarantineManager {
        RefreshQuarantineManager {
            suppress_auto_workspace_switch_until_input:
                self.quarantine.suppress_auto_workspace_switch_until_input && !event.is_input(),
            ..self.quarantine
        }
    }

    /// Begins with an event: notes input, and takes in a sleep, wake, session or
    /// display change, which is all that is done about one.
    pub fn enter<V: Vocabulary>(&mut self, event: &Event<V>) -> (entry: Entry)
        ensures
            match event.spec_lifecycle() {
                Some(change) => {
                    let (after, refresh) = after_lifecycle(old(self).input_seen(*event), change);
                    entry == (Entry::Lifecycle { change, refresh }) && *final(self) == (Reactor {
                        quarantine: after,
                        ..*old(self)
                    })
                },
                None => entry == (if event is DisplayHomingDeadline {
                    Entry::HomingDeadline
                } else {
                    Entry::Dispatch
                }) && *final(self) == (Reactor {
                    quarantine: old(self).input_seen(*event),
                    ..*old(self)
                }),
            },
    {
        if event.comes_from_user() {
            self.quarantine.suppress_auto_workspace_switch_until_input = false;
        }
        match event.lifecycle() {
            Some(change) => {
                let refresh = self.quarantine.on_lifecycle(change);
                Entry::Lifecycle { change, refresh }
            },
            None => if matches!(event, Event::DisplayHomingDeadline(_)) {
                Entry::HomingDeadline
            } else {
                Entry::Dispatch
            },
        }
    }

    /// What is done about an event.
    pub open spec fn route<V: Vocabulary>(&self, event: Event<V>, facts: DispatchFacts) -> Route {
        match event {
            Event::ApplicationLaunched { .. } => Route::Launched { tell_front: facts.is_front },
            Event::ApplicationTerminated(_) => Route::Terminated,
            Event::ApplicationThreadTerminated(_) => Route::ThreadTerminated,
            Event::ApplicationActivated(_, quiet) => Route::Activated { follow: quiet == Quiet::No },
            Event::ApplicationGloballyActivated(pid) => if facts.was_front {
                Route::Focus { notify: false }
            } else {
                Route::TellActivated {
                    tell: self.apps.apps@.contains_key(pid) && !self.is_login_window(pid),
                }
            },
            Event::WindowServerFocusChanged(window, space) => if facts.layout_focus == Some(
                window,
            ) {
                Route::EnforceHidden
            } else if !facts.window_known {
                Route::Ask
            } else if facts.space_active {
                Route::FocusLayout { space, window }
            } else {
                Route::Nothing
            },
            Event::RegisterWmSender => Route::RegisterSender,
            Event::WindowInventoryRefreshRequested(_) => Route::Ask,
            Event::RaiseTargetsMissing { windows, .. } => if windows@.len() == 0 {
                Route::Nothing
            } else {
                Route::GiveUpRaises
            },
            Event::WindowsDiscovered { pid, token, successful, new } => if self.inventories.accepts(
                pid,
                token,
                successful,
                self.quarantine.blocks_refreshes(),
            ) {
                Route::Discovered { arrange: found_missing(self.inventories, pid, new@) }
            } else {
                Route::Discard
            },
            Event::WindowDestroyed(_) => if self.quarantine.blocks_refreshes() {
                Route::Nothing
            } else {
                Route::TakeIn
            },
            Event::SpaceStateChanged(_) => Route::Snapshot,
            Event::ActiveDisplayChanged { .. } => Route::Nothing,
            Event::MouseUp => Route::MouseUp,
            Event::Command(_) => Route::Command,
            Event::WindowFrameChanged(_, _) => Route::FrameReport,
            Event::WindowServerAppeared(_, _, _) => Route::Appeared,
            Event::WindowDeminiaturized(_) => Route::Deminiaturized,
            Event::WindowServerVisibilityChanged(_, _) => Route::Visibility,
            Event::MouseModifierDragBegin { .. } => Route::ModifierBegin,
            Event::MouseModifierDrag => Route::ModifierMoved,
            Event::MouseDragged => Route::Dragged,
            Event::MouseMoved(_) => Route::Hovered,
            Event::WindowCreated(_)
            | Event::WindowServerDestroyed(_, _, _)
            | Event::SpaceCreated(_)
            | Event::SpaceDestroyed(_)
            | Event::WindowMinimized(_)
            | Event::WindowTitleChanged(_)
            | Event::MenuOpened(_)
            | Event::MenuClosed(_)
            | Event::MissionControlNativeEntered
            | Event::MissionControlNativeExited
            | Event::RaiseCompleted { .. }
            | Event::RaiseTimeout { .. }
            | Event::ConfigUpdated => Route::TakeIn,
            Event::DisplayHomingDeadline(_) => Route::Nothing,
            _ => if event.spec_lifecycle() is Some {
                Route::Nothing
            } else {
                Route::Focus { notify: event.changes_windows() }
            },
        }
    }

    /// The window that gets the focus once the layout is done.
    pub open spec fn refocused<V: Vocabulary>(
        &self,
        event: Event<V>,
        facts: DispatchFacts,
    ) -> Option<WindowId> {
        let route = self.route(event, facts);
        if event is ApplicationGloballyActivated {
            None
        } else if route is Focus || route is Launched || route is Activated || route is Discovered
            || event is WindowCreated || (event is WindowDestroyed && route is TakeIn)
            || event is WindowFrameChanged || event is WindowTitleChanged {
            facts.raised
        } else {
            None
        }
    }

    /// The application whose menu, if it is open, closes with the event.
    pub open spec fn menu_closes<V: Vocabulary>(&self, event: Event<V>, facts: DispatchFacts) -> bool {
        match event {
            Event::ApplicationThreadTerminated(pid) => self.menu.menu_state == MenuState::Open(pid),
            Event::ApplicationDeactivated(pid) => self.menu.menu_state == MenuState::Open(pid),
            Event::ApplicationGloballyDeactivated(pid) => self.menu.menu_state == MenuState::Open(
                pid,
            ),
            Event::ApplicationActivated(pid, _) => self.menu.menu_state matches MenuState::Open(owner)
                && owner != pid,
            Event::ApplicationGloballyActivated(pid) => !facts.was_front && (
            self.menu.menu_state matches MenuState::Open(owner) && owner != pid),
            _ => false,
        }
    }

    /// The inventories after an event are `after`, with `ask` the request to
    /// send.
    pub open spec fn inventories_after<V: Vocabulary>(
        &self,
        after: WindowInventoryManager,
        event: Event<V>,
        facts: DispatchFacts,
        ask: Option<WindowInventoryToken>,
    ) -> bool {
        let blocked = self.quarantine.blocks_refreshes();
        let known = self.apps.apps@;
        match event {
            Event::ApplicationLaunched { pid } => self.inventories.forgotten(after, pid)
                && ask is None,
            Event::ApplicationThreadTerminated(pid) => self.inventories.forgotten(after, pid)
                && ask is None,
            Event::WindowInventoryRefreshRequested(pid) => self.inventories.asked(
                after,
                pid,
                blocked,
                known.contains_key(pid),
                ask,
            ),
            Event::WindowServerFocusChanged(window, _) => if facts.layout_focus != Some(window)
                && !facts.window_known {
                self.inventories.asked(
                    after,
                    window.pid,
                    blocked,
                    known.contains_key(window.pid),
                    ask,
                )
            } else {
                after == self.inventories && ask is None
            },
            Event::RaiseTargetsMissing { windows, .. } => if windows@.len() == 0 {
                after == self.inventories && ask is None
            } else {
                &&& after.refocus_after_refresh@ == self.inventories.refocus_after_refresh@.insert(
                    windows@[0].pid,
                    windows@[0],
                )
                &&& (WindowInventoryManager {
                    refocus_after_refresh: after.refocus_after_refresh,
                    ..self.inventories
                }).asked(after, windows@[0].pid, blocked, known.contains_key(windows@[0].pid), ask)
            },
            Event::WindowsDiscovered { pid, token, successful, new } => self.inventory_finished(
                after,
                pid,
                token,
                successful,
                ask,
            ),
            _ => after == self.inventories && ask is None,
        }
    }

    /// An answer with an application's windows has come in, which makes the
    /// inventories `after`: an answer that was asked for is no longer expected,
    /// and one that is out of date is asked for again.
    pub open spec fn inventory_finished(
        &self,
        after: WindowInventoryManager,
        pid: Pid,
        token: WindowInventoryToken,
        successful: bool,
        ask: Option<WindowInventoryToken>,
    ) -> bool {
        let blocked = self.quarantine.blocks_refreshes();
        let before = self.inventories;
        let again = before.asks_again(pid, token, successful, blocked);
        let asks = again && !blocked && self.apps.apps@.contains_key(pid);
        if before.in_flight.at(pid) == Some(token) {
            &&& after.in_flight@ == before.in_flight@.remove(pid)
            &&& after.pending@ == if again && blocked {
                before.pending@.insert(pid)
            } else {
                before.pending@.remove(pid)
            }
            &&& after.refocus_after_refresh@ == if before.accepts(pid, token, successful, blocked) {
                before.refocus_after_refresh@.remove(pid)
            } else {
                before.refocus_after_refresh@
            }
            &&& after.topology_revision == before.topology_revision
            &&& after.next_request_id == if asks {
                next_number(before.next_request_id)
            } else {
                before.next_request_id
            }
            &&& ask == if asks {
                Some(
                    WindowInventoryToken {
                        request_id: next_number(before.next_request_id),
                        topology_revision: before.topology_revision,
                    },
                )
            } else {
                None
            }
        } else {
            after == before && ask is None
        }
    }

    /// Asks for an application's windows. The request to send is returned.
    pub fn request_window_inventory(&mut self, pid: Pid) -> (ask: Option<WindowInventoryToken>)
        requires
            old(self).wf(),
        ensures
            final(self).wf(),
            old(self).inventories.asked(
                final(self).inventories,
                pid,
                old(self).quarantine.blocks_refreshes(),
                old(self).apps.apps@.contains_key(pid),
                ask,
            ),
            *final(self) == (Reactor { inventories: final(self).inventories, ..*old(self) }),
    {
        let blocked = self.quarantine.blocks_refreshes();
        let known = self.apps.apps.contains_key(&pid);
        self.inventories.request(pid, blocked, known)
    }

    /// Takes in an answer with an application's windows. Whether it is good, and
    /// whether it has the window that a raise missed, is returned, with the
    /// request to send.
    pub fn finish_window_inventory(
        &mut self,
        pid: Pid,
        token: WindowInventoryToken,
        successful: bool,
        new: &[WindowId],
    ) -> (finished: (bool, bool, Option<WindowInventoryToken>))
        requires
            old(self).wf(),
        ensures
            final(self).wf(),
            finished.0 == old(self).inventories.accepts(
                pid,
                token,
                successful,
                old(self).quarantine.blocks_refreshes(),
            ),
            finished.1 == (finished.0 && found_missing(old(self).inventories, pid, new@)),
            old(self).inventory_finished(
                final(self).inventories,
                pid,
                token,
                successful,
                finished.2,
            ),
            *final(self) == (Reactor { inventories: final(self).inventories, ..*old(self) }),
    {
        let blocked = self.quarantine.blocks_refreshes();
        let (accepted, again) = self.inventories.finish(pid, token, successful, blocked);
        let mut ask: Option<WindowInventoryToken> = None;
        if again {
            let ghost pending = old(self).inventories.pending@;
            ask = self.request_window_inventory(pid);
            proof {
                assert(pending.remove(pid).insert(pid) =~= pending.insert(pid));
                assert(pending.remove(pid).remove(pid) =~= pending.remove(pid));
            }
        }
        let mut refocus = false;
        if accepted {
            match self.inventories.refocus_after_refresh.remove(&pid) {
                Some(window) => {
                    refocus = holds(new, window);
                },
                None => {},
            }
        }
        (accepted, refocus, ask)
    }

    /// What is done about an event. The reactor's own state is brought up to
    /// date; the rest is for the caller to carry out.
    pub fn dispatch_workflow<V: Vocabulary>(&mut self, event: &Event<V>, facts: DispatchFacts) -> (
    dispatch: Dispatch)
        requires
            old(self).wf(),
        ensures
            final(self).wf(),
            dispatch.route == old(self).route(*event, facts),
            dispatch.focused == old(self).refocused(*event, facts),
            dispatch.menu_closed == old(self).menu_closes(*event, facts),
            old(self).inventories_after(final(self).inventories, *event, facts, dispatch.ask),
            final(self).menu.menu_state == if dispatch.menu_closed {
                MenuState::Closed
            } else {
                old(self).menu.menu_state
            },
            match *event {
                Event::ActiveDisplayChanged { menu_bar_space, command_space } =>
                    final(self).menu_bar_space == menu_bar_space && final(self).command_space
                        == command_space,
                _ => final(self).menu_bar_space == old(self).menu_bar_space
                    && final(self).command_space == old(self).command_space,
            },
            *final(self) == (Reactor {
                menu: final(self).menu,
                inventories: final(self).inventories,
                menu_bar_space: final(self).menu_bar_space,
                command_space: final(self).command_space,
                ..*old(self)
            }),
    {
        let mut focused: Option<WindowId> = None;
        let mut ask: Option<WindowInventoryToken> = None;
        let mut menu_closed = false;
        let route = match event {
            Event::ApplicationLaunched { pid } => {
                self.inventories.forget(*pid);
                focused = facts.raised;
                Route::Launched { tell_front: facts.is_front }
            },
            Event::ApplicationTerminated(_) => Route::Terminated,
            Event::ApplicationThreadTerminated(pid) => {
                self.inventories.forget(*pid);
                menu_closed = self.menu.clear_for_pid(*pid);
                Route::ThreadTerminated
            },
            Event::ApplicationActivated(pid, quiet) => {
                menu_closed = self.menu.clear_for_non_owner(*pid);
                focused = facts.raised;
                Route::Activated { follow: *quiet == Quiet::No }
            },
            Event::ApplicationDeactivated(pid) | Event::ApplicationGloballyDeactivated(pid) => {
                menu_closed = self.menu.clear_for_pid(*pid);
                focused = facts.raised;
                Route::Focus { notify: false }
            },
            Event::ApplicationGloballyActivated(pid) => {
                if facts.was_front {
                    Route::Focus { notify: false }
                } else {
                    menu_closed = self.menu.clear_for_non_owner(*pid);
                    let login = self.apps.is_login_window(*pid);
                    Route::TellActivated { tell: self.apps.apps.contains_key(pid) && !login }
                }
            },
            Event::WindowServerFocusChanged(window, space) => {
                let there = match facts.layout_focus {
                    Some(focus) => focus == *window,
                    None => false,
                };
                if there {
                    Route::EnforceHidden
                } else if !facts.window_known {
                    ask = self.request_window_inventory(window.pid);
                    Route::Ask
                } else if facts.space_active {
                    Route::FocusLayout { space: *space, window: *window }
                } else {
                    Route::Nothing
                }
            },
            Event::RegisterWmSender => Route::RegisterSender,
            Event::WindowInventoryRefreshRequested(pid) => {
                ask = self.request_window_inventory(*pid);
                Route::Ask
            },
            Event::RaiseTargetsMissing { windows, .. } => {
                if windows.len() == 0 {
                    Route::Nothing
                } else {
                    let first = windows[0];
                    self.inventories.refocus_after_refresh.insert(first.pid, first);
                    ask = self.request_window_inventory(first.pid);
                    Route::GiveUpRaises
                }
            },
            Event::WindowsDiscovered { pid, token, successful, new } => {
                let (accepted, missing, again) = self.finish_window_inventory(
                    *pid,
                    *token,
                    *successful,
                    new,
                );
                ask = again;
                if accepted {
                    focused = facts.raised;
                    Route::Discovered { arrange: missing }
                } else {
                    Route::Discard
                }
            },
            Event::WindowDestroyed(_) => {
                if self.quarantine.blocks_refreshes() {
                    Route::Nothing
                } else {
                    focused = facts.raised;
                    Route::TakeIn
                }
            },
            Event::SpaceStateChanged(_) => Route::Snapshot,
            Event::ActiveDisplayChanged { menu_bar_space, command_space } => {
                self.menu_bar_space = *menu_bar_space;
                self.command_space = *command_space;
                Route::Nothing
            },
            Event::MouseUp => Route::MouseUp,
            Event::Command(_) => Route::Command,
            Event::WindowFrameChanged(_, _) => {
                focused = facts.raised;
                Route::FrameReport
            },
            Event::WindowServerAppeared(_, _, _) => Route::Appeared,
            Event::WindowDeminiaturized(_) => Route::Deminiaturized,
            Event::WindowServerVisibilityChanged(_, _) => Route::Visibility,
            Event::MouseModifierDragBegin { .. } => Route::ModifierBegin,
            Event::MouseModifierDrag => Route::ModifierMoved,
            Event::MouseDragged => Route::Dragged,
            Event::MouseMoved(_) => Route::Hovered,
            Event::WindowCreated(_) | Event::WindowTitleChanged(_) => {
                focused = facts.raised;
                Route::TakeIn
            },
            Event::WindowServerDestroyed(_, _, _)
            | Event::SpaceCreated(_)
            | Event::SpaceDestroyed(_)
            | Event::WindowMinimized(_)
            | Event::MenuOpened(_)
            | Event::MenuClosed(_)
            | Event::MissionControlNativeEntered
            | Event::MissionControlNativeExited
            | Event::RaiseCompleted { .. }
            | Event::RaiseTimeout { .. }
            | Event::ConfigUpdated => Route::TakeIn,
            Event::DisplayHomingDeadline(_) => Route::Nothing,
            _ => {
                if event.lifecycle().is_some() {
                    Route::Nothing
                } else {
                    focused = facts.raised;
                    Route::Focus { notify: event.should_update_notifications() }
                }
            },
        };
        Dispatch { route, focused, ask, menu_closed }
    }
}

/// What a report of the topology ends.
pub open spec fn ends_instability(
    quarantine: RefreshQuarantineManager,
    releases: SnapshotReleases,
) -> bool {
    (releases.lifecycle && (quarantine.awaiting_post_wake_snapshot
        || quarantine.awaiting_post_session_snapshot)) || (releases.display_churn
        && quarantine.display_churn_active)
}

/// The quarantine once a report of the topology was taken in, and whether all
/// windows are to be looked at: for the wake or unlock before it, and for the
/// displays that have settled.
pub open spec fn after_snapshot(
    quarantine: RefreshQuarantineManager,
    releases: SnapshotReleases,
) -> (RefreshQuarantineManager, bool, bool) {
    let (released, woken) = if releases.lifecycle && (quarantine.awaiting_post_wake_snapshot
        || quarantine.awaiting_post_session_snapshot) {
        quarantine.released().flushed()
    } else {
        (quarantine, false)
    };
    if releases.display_churn {
        let (settled, churned) = after_lifecycle(released, Lifecycle::ChurnEnded);
        (settled, woken, churned)
    } else {
        (released, woken, false)
    }
}

/// What is due once a report of the topology was taken in.
#[derive(Clone, Copy, Debug, PartialEq, Eq, Structural)]
pub struct SnapshotDue {
    /// All windows are looked at, for the wake or unlock before it.
    pub refresh_after_wake: bool,
    /// All windows are looked at, for the displays that have settled.
    pub refresh_after_churn: bool,
    /// The refresh that the report itself asks for is left: the ones above have
    /// done it.
    pub drop_own_refresh: bool,
}

impl Reactor {
    /// A report of the topology comes in. Answers of an older topology are asked
    /// for again, and what was in flight during an instability that the report
    /// ends is given up; whether it ends one is returned.
    pub fn begin_snapshot(&mut self, releases: SnapshotReleases, topology_changed: bool) -> (ends:
        bool)
        requires
            old(self).wf(),
        ensures
            final(self).wf(),
            ends == ends_instability(old(self).quarantine, releases),
            final(self).inventories.topology_revision == if topology_changed {
                next_number(old(self).inventories.topology_revision)
            } else {
                old(self).inventories.topology_revision
            },
            final(self).inventories.in_flight@ == if ends {
                Map::<Pid, WindowInventoryToken>::empty()
            } else {
                old(self).inventories.in_flight@
            },
            final(self).inventories.pending@ == if ends || topology_changed {
                old(self).inventories.pending@.union(
                    crate::managers::pids_in(old(self).inventories.in_flight),
                )
            } else {
                old(self).inventories.pending@
            },
            final(self).inventories.next_request_id == old(self).inventories.next_request_id,
            final(self).inventories.refocus_after_refresh
                == old(self).inventories.refocus_after_refresh,
            *final(self) == (Reactor { inventories: final(self).inventories, ..*old(self) }),
    {
        let ghost pending = self.inventories.pending@;
        let ghost flying = crate::managers::pids_in(self.inventories.in_flight);
        self.inventories.advance_revision_if_needed(topology_changed);
        let ends = (releases.lifecycle && (self.quarantine.awaiting_post_wake_snapshot
            || self.quarantine.awaiting_post_session_snapshot)) || (releases.display_churn
            && self.quarantine.display_churn_active);
        if ends {
            self.inventories.abandon_in_flight();
        }
        assert(pending.union(flying).union(flying) =~= pending.union(flying));
        ends
    }

    /// A report of the topology was taken in: what waited for it is over.
    pub fn end_snapshot(&mut self, releases: SnapshotReleases, ends: bool) -> (due: SnapshotDue)
        ensures
            (final(self).quarantine, due.refresh_after_wake, due.refresh_after_churn)
                == after_snapshot(old(self).quarantine, releases),
            due.drop_own_refresh == ends,
            *final(self) == (Reactor { quarantine: final(self).quarantine, ..*old(self) }),
    {
        let mut refresh_after_wake = false;
        let mut refresh_after_churn = false;
        if releases.lifecycle {
            refresh_after_wake = self.quarantine.release_after_snapshot();
        }
        if releases.display_churn {
            refresh_after_churn = self.quarantine.on_lifecycle(Lifecycle::ChurnEnded);
        }
        SnapshotDue { refresh_after_wake, refresh_after_churn, drop_own_refresh: ends }
    }

    /// All windows are to be looked at. While refreshes are blocked or a window
    /// is dragged that is put off; else the applications to ask are returned.
    pub fn request_window_inventories(&mut self, dragging: bool) -> (pids: Vec<Pid>)
        requires
            old(self).wf(),
        ensures
            pids@ == if old(self).quarantine.blocks_refreshes() || dragging {
                Seq::<Pid>::empty()
            } else {
                old(self).apps.apps.entries@.map_values(|entry: (Pid, AppState)| entry.0)
            },
            *final(self) == (Reactor {
                quarantine: RefreshQuarantineManager {
                    pending_inventory_refresh: old(self).quarantine.pending_inventory_refresh
                        || old(self).quarantine.blocks_refreshes() || dragging,
                    ..old(self).quarantine
                },
                ..*old(self)
            }),
    {
        let mut pids: Vec<Pid> = Vec::new();
        if self.quarantine.blocks_refreshes() || dragging {
            self.quarantine.pending_inventory_refresh = true;
            return pids;
        }
        let ghost entries = self.apps.apps.entries@;
        let ghost key = |entry: (Pid, AppState)| entry.0;
        let mut i: usize = 0;
        while i < self.apps.apps.entries.len()
            invariant
                *self == *old(self),
                entries == self.apps.apps.entries@,
                i <= entries.len(),
                pids@.len() == i,
                forall|k: int| 0 <= k < i ==> #[trigger] pids@[k] == entries[k].0,
            decreases entries.len() - i,
        {
            pids.push(self.apps.apps.entries[i].0);
            i = i + 1;
        }
        assert(pids@ =~= entries.map_values(|entry: (Pid, AppState)| entry.0));
        pids
    }

    /// The button has come up and the drag is over. Whether a refresh that was
    /// put off for it is due is returned.
    pub fn note_mouse_up(&mut self, now: Nanos) -> (refresh: bool)
        ensures
            (final(self).quarantine, refresh) == old(self).quarantine.flushed(),
            *final(self) == (Reactor {
                quarantine: final(self).quarantine,
                last_mouse_up: Some(now),
                ..*old(self)
            }),
    {
        self.last_mouse_up = Some(now);
        self.quarantine.flush_deferred()
    }

    /// The command in hand could not be carried out.
    pub fn fail_command(&mut self, message: String)
        ensures
            *final(self) == (Reactor { command_error: Some(message), ..*old(self) }),
    {
        self.command_error = Some(message);
    }

    /// A command comes in, of which nothing is known to have failed.
    pub fn begin_command(&mut self)
        ensures
            *final(self) == (Reactor { command_error: None, ..*old(self) }),
    {
        self.command_error = None;
    }

    /// How the command in hand ended, which is told once.
    pub fn command_result(&mut self) -> (result: Result<(), String>)
        ensures
            result == match old(self).command_error {
                Some(error) => Err(error),
                None => Ok(()),
            },
            *final(self) == (Reactor { command_error: None, ..*old(self) }),
    {
        match self.command_error.take() {
            Some(error) => Err(error),
            None => Ok(()),
        }
    }
}

/// An activation of the application that is in front already does nothing.
pub proof fn a_repeated_activation_does_nothing<V: Vocabulary>(
    reactor: Reactor,
    pid: Pid,
    facts: DispatchFacts,
)
    requires
        facts.was_front,
    ensures
        ({
            let event = Event::<V>::ApplicationGloballyActivated(pid);
            &&& reactor.route(event, facts) == (Route::Focus { notify: false })
            &&& reactor.refocused(event, facts) is None
            &&& !reactor.menu_closes(event, facts)
        }),
{
}

/// While refreshes are blocked no window is taken out of a layout for a report
/// that it is gone: its element may only have been replaced.
pub proof fn a_quarantined_window_stays<V: Vocabulary>(
    reactor: Reactor,
    window: WindowId,
    facts: DispatchFacts,
)
    requires
        reactor.quarantine.blocks_refreshes(),
    ensures
        reactor.route(Event::<V>::WindowDestroyed(window), facts) == Route::Nothing,
{
}

/// From a wake on the workspace does not follow an application until there is
/// input: every event without any keeps that, and input ends it.
pub proof fn only_input_ends_the_suppression<V: Vocabulary>(reactor: Reactor, event: Event<V>)
    requires
        reactor.quarantine.suppress_auto_workspace_switch_until_input,
        event.spec_lifecycle() is None,
    ensures
        reactor.input_seen(event).suppress_auto_workspace_switch_until_input == !event.is_input(),
{
}

/// A sleep, wake, session or display change and the end of a return trip's time
/// are dealt with on entry: nothing more is done about them, whatever holds.
pub proof fn what_is_dealt_with_on_entry_asks_for_nothing<V: Vocabulary>(
    reactor: Reactor,
    event: Event<V>,
    facts: DispatchFacts,
)
    requires
        event.spec_lifecycle() is Some || event is DisplayHomingDeadline,
    ensures
        reactor.route(event, facts) == Route::Nothing,
        reactor.refocused(event, facts) is None,
{
}

/// A report that ends an instability leaves nothing blocked by it.
pub proof fn a_snapshot_lifts_the_quarantine(
    quarantine: RefreshQuarantineManager,
    releases: SnapshotReleases,
)
    requires
        releases.lifecycle && releases.display_churn,
        quarantine.sleeping ==> quarantine.awaiting_post_wake_snapshot,
        quarantine.session_inactive ==> quarantine.awaiting_post_session_snapshot,
    ensures
        ({
            let (after, woken, churned) = after_snapshot(quarantine, releases);
            &&& !after.blocks_refreshes()
            &&& churned
            &&& !after.pending_inventory_refresh
        }),
{
}

/// Every report on a window or a desktop that is handed on as it is, is taken in,
/// whatever holds: a window that is gone only while refreshes are not blocked.
pub proof fn reports_are_taken_in<V: Vocabulary>(
    reactor: Reactor,
    event: Event<V>,
    facts: DispatchFacts,
)
    ensures
        event is WindowCreated || event is WindowServerDestroyed || event is SpaceCreated
            || event is SpaceDestroyed || event is WindowMinimized || event is WindowTitleChanged
            || event is MenuOpened || event is MenuClosed || event is MissionControlNativeEntered
            || event is MissionControlNativeExited || event is RaiseCompleted
            || event is RaiseTimeout || event is ConfigUpdated ==> reactor.route(event, facts)
            == Route::TakeIn,
        event is WindowDestroyed && !reactor.quarantine.blocks_refreshes() ==> reactor.route(
            event,
            facts,
        ) == Route::TakeIn,
{
}

/// Reports that call for a work of their own get it, whatever holds.
pub proof fn reports_reach_their_handlers<V: Vocabulary>(
    reactor: Reactor,
    event: Event<V>,
    facts: DispatchFacts,
)
    ensures
        event is SpaceStateChanged ==> reactor.route(event, facts) == Route::Snapshot,
        event is MouseUp ==> reactor.route(event, facts) == Route::MouseUp,
        event is Command ==> reactor.route(event, facts) == Route::Command,
        event is WindowFrameChanged ==> reactor.route(event, facts) == Route::FrameReport,
        event is WindowServerAppeared ==> reactor.route(event, facts) == Route::Appeared,
        event is WindowDeminiaturized ==> reactor.route(event, facts) == Route::Deminiaturized,
        event is WindowServerVisibilityChanged ==> reactor.route(event, facts)
            == Route::Visibility,
        event is MouseModifierDragBegin ==> reactor.route(event, facts) == Route::ModifierBegin,
        event is MouseModifierDrag ==> reactor.route(event, facts) == Route::ModifierMoved,
        event is MouseDragged ==> reactor.route(event, facts) == Route::Dragged,
        event is MouseMoved ==> reactor.route(event, facts) == Route::Hovered,
        event is ApplicationTerminated ==> reactor.route(event, facts) == Route::Terminated,
        event is ApplicationThreadTerminated ==> reactor.route(event, facts)
            == Route::ThreadTerminated,
        event is RegisterWmSender ==> reactor.route(event, facts) == Route::RegisterSender,
        event is WindowInventoryRefreshRequested ==> reactor.route(event, facts) == Route::Ask,
        event is ApplicationLaunched ==> reactor.route(event, facts) == (Route::Launched {
            tell_front: facts.is_front,
        }),
{
}

/// The workspace follows an activation if and only if the manager did not bring it
/// about; an application that comes to the front is told so if it is known and does
/// not guard the login screen.
pub proof fn what_an_activation_does<V: Vocabulary>(
    reactor: Reactor,
    pid: Pid,
    quiet: Quiet,
    facts: DispatchFacts,
)
    ensures
        reactor.route(Event::<V>::ApplicationActivated(pid, quiet), facts) == (Route::Activated {
            follow: quiet == Quiet::No,
        }),
        !facts.was_front && reactor.apps.apps.at(pid) is None ==> reactor.route(
            Event::<V>::ApplicationGloballyActivated(pid),
            facts,
        ) == (Route::TellActivated { tell: false }),
        !facts.was_front && (reactor.apps.apps.at(pid) matches Some(app) && (app.bundle_id is None
            || app.bundle_id->0@ != "com.apple.loginwindow"@)) ==> reactor.route(
            Event::<V>::ApplicationGloballyActivated(pid),
            facts,
        ) == (Route::TellActivated { tell: true }),
        !facts.was_front && (reactor.apps.apps.at(pid) matches Some(app) && (
        app.bundle_id matches Some(id) && id@ == "com.apple.loginwindow"@)) ==> reactor.route(
            Event::<V>::ApplicationGloballyActivated(pid),
            facts,
        ) == (Route::TellActivated { tell: false }),
{
}

/// What the window server says of focus goes to the layout, unless it has it so
/// already, does not know the window, or is not active there.
pub proof fn where_focus_goes<V: Vocabulary>(
    reactor: Reactor,
    window: WindowId,
    space: SpaceId,
    facts: DispatchFacts,
)
    ensures
        ({
            let route = reactor.route(
                Event::<V>::WindowServerFocusChanged(window, space),
                facts,
            );
            &&& facts.layout_focus == Some(window) ==> route == Route::EnforceHidden
            &&& facts.layout_focus != Some(window) && !facts.window_known ==> route == Route::Ask
            &&& facts.layout_focus != Some(window) && facts.window_known && facts.space_active
                ==> route == (Route::FocusLayout { space, window })
            &&& facts.layout_focus != Some(window) && facts.window_known && !facts.space_active
                ==> route == Route::Nothing
        }),
{
}

/// Windows that were found are taken in if and only if they answer the request that
/// is open, were read without fault, are of this topology, and nothing is blocked;
/// else they are dropped.
pub proof fn what_is_found_is_taken_in<V: Vocabulary>(
    reactor: Reactor,
    pid: Pid,
    token: WindowInventoryToken,
    successful: bool,
    new: Vec<WindowId>,
    facts: DispatchFacts,
)
    ensures
        ({
            let route = reactor.route(
                Event::<V>::WindowsDiscovered { pid, token, successful, new },
                facts,
            );
            let good = successful && reactor.inventories.in_flight.at(pid) == Some(token)
                && token.topology_revision == reactor.inventories.topology_revision
                && !reactor.quarantine.blocks_refreshes();
            &&& !good ==> route == Route::Discard
            &&& good && reactor.inventories.refocus_after_refresh.at(pid) is None ==> route == (
            Route::Discovered { arrange: false })
            &&& good && (reactor.inventories.refocus_after_refresh.at(pid) matches Some(window)
                && new@.contains(window)) ==> route == (Route::Discovered { arrange: true })
            &&& good && (reactor.inventories.refocus_after_refresh.at(pid) matches Some(window)
                && !new@.contains(window)) ==> route == (Route::Discovered { arrange: false })
        }),
{
}

/// Raises that missed windows are given up, those that missed none are left.
pub proof fn missed_raises_are_given_up<V: Vocabulary>(
    reactor: Reactor,
    windows: Vec<WindowId>,
    sequence_id: u64,
    facts: DispatchFacts,
)
    ensures
        windows@.len() > 0 ==> reactor.route(
            Event::<V>::RaiseTargetsMissing { windows, sequence_id },
            facts,
        ) == Route::GiveUpRaises,
        windows@.len() == 0 ==> reactor.route(
            Event::<V>::RaiseTargetsMissing { windows, sequence_id },
            facts,
        ) == Route::Nothing,
{
}

/// What changes nothing but which application or window is the main one is looked
/// at for focus alone.
pub proof fn changes_of_focus_are_looked_at<V: Vocabulary>(
    reactor: Reactor,
    event: Event<V>,
    facts: DispatchFacts,
)
    requires
        event is ApplicationDeactivated || event is ApplicationGloballyDeactivated
            || event is ApplicationMainWindowChanged || event is InstallIpc,
    ensures
        reactor.route(event, facts) == (Route::Focus { notify: false }),
        reactor.refocused(event, facts) == facts.raised,
{
}

/// The window that an event brings to the front gets the focus with the events that
/// are about windows coming, going and changing, and with no other.
pub proof fn who_gets_the_focus<V: Vocabulary>(
    reactor: Reactor,
    event: Event<V>,
    facts: DispatchFacts,
)
    ensures
        event is WindowCreated || event is WindowFrameChanged || event is WindowTitleChanged
            || event is ApplicationLaunched || event is ApplicationActivated ==> reactor.refocused(
            event,
            facts,
        ) == facts.raised,
        event is WindowDestroyed && !reactor.quarantine.blocks_refreshes() ==> reactor.refocused(
            event,
            facts,
        ) == facts.raised,
        event is WindowDestroyed && reactor.quarantine.blocks_refreshes() ==> reactor.refocused(
            event,
            facts,
        ) is None,
        event is ApplicationGloballyActivated || event is WindowServerFocusChanged
            || event is MouseUp || event is Command || event is WindowMinimized
            || event is SpaceStateChanged || event is WindowServerDestroyed
            || event is WindowServerAppeared || event is SpaceCreated || event is SpaceDestroyed
            || event is MouseMoved || event is MouseDragged || event is ConfigUpdated
            || event is ApplicationTerminated || event is ApplicationThreadTerminated
            ==> reactor.refocused(event, facts) is None,
{
}

/// An open menu closes when its application goes away or another comes to the
/// front, and with no other event.
pub proof fn when_a_menu_closes<V: Vocabulary>(
    reactor: Reactor,
    event: Event<V>,
    owner: Pid,
    facts: DispatchFacts,
)
    ensures
        reactor.menu.menu_state == MenuState::Closed ==> !reactor.menu_closes(event, facts),
        reactor.menu.menu_state == MenuState::Open(owner) ==> (reactor.menu_closes(event, facts)
            <==> {
            ||| event == Event::<V>::ApplicationThreadTerminated(owner)
            ||| event == Event::<V>::ApplicationDeactivated(owner)
            ||| event == Event::<V>::ApplicationGloballyDeactivated(owner)
            ||| (event matches Event::ApplicationActivated(pid, _) && pid != owner)
            ||| (event matches Event::ApplicationGloballyActivated(pid) && pid != owner
                && !facts.was_front)
        }),
{
}

/// A question is always answered. What is not one is dropped while displays come and
/// go if it speaks of windows or desktops, and while refreshes are blocked if it
/// speaks of a desktop that came or went.
pub proof fn what_churn_drops<V: Vocabulary>(event: Event<V>)
    ensures
        event is Query || event is MouseUp || event is MouseMoved || event is Command
            || event is ApplicationLaunched || event is ApplicationTerminated
            || event is ApplicationActivated || event is ConfigUpdated || event is MenuOpened
            || event is WindowServerFocusChanged || event is DisplayHomingDeadline
            || event is SystemWoke || event is DisplayChurnBegin ==> !event.is_churned(),
        event is WindowCreated || event is WindowServerAppeared || event is WindowFrameChanged
            || event is WindowDeminiaturized || event is WindowTitleChanged
            || event is WindowsDiscovered || event is SpaceCreated || event is SpaceDestroyed
            || event is WindowMinimized || event is WindowDestroyed
            || event is WindowServerDestroyed ==> event.is_churned(),
{
}

/// Input ends the suppression of a workspace switch and changes nothing else of the
/// quarantine; no other event changes it.
pub proof fn input_changes_only_the_suppression<V: Vocabulary>(reactor: Reactor, event: Event<V>)
    ensures
        event is MouseUp || event is MouseMoved || event is Command
            ==> !reactor.input_seen(event).suppress_auto_workspace_switch_until_input,
        !(event is MouseUp || event is MouseMoved || event is Command) ==> reactor.input_seen(event)
            == reactor.quarantine,
        reactor.input_seen(event).blocks_refreshes() == reactor.quarantine.blocks_refreshes(),
        reactor.input_seen(event).pending_inventory_refresh
            == reactor.quarantine.pending_inventory_refresh,
{
}

/// A missing window is found if one was missed for the application and is among the new.
pub proof fn when_a_missing_window_is_found(
    inventories: WindowInventoryManager,
    pid: Pid,
    new: Seq<WindowId>,
    window: WindowId,
)
    ensures
        inventories.refocus_after_refresh.at(pid) is None ==> !found_missing(inventories, pid, new),
        inventories.refocus_after_refresh.at(pid) == Some(window) ==> found_missing(
            inventories,
            pid,
            new,
        ) == new.contains(window),
{
}

/// A report of the topology ends an instability if it releases what a wake or an unlock
/// waits for, or the displays have settled that were changing; and in no other case.
pub proof fn when_a_report_ends_instability(
    quarantine: RefreshQuarantineManager,
    releases: SnapshotReleases,
)
    ensures
        releases.lifecycle && quarantine.awaiting_post_wake_snapshot ==> ends_instability(
            quarantine,
            releases,
        ),
        releases.lifecycle && quarantine.awaiting_post_session_snapshot ==> ends_instability(
            quarantine,
            releases,
        ),
        releases.display_churn && quarantine.display_churn_active ==> ends_instability(
            quarantine,
            releases,
        ),
        !releases.lifecycle && !releases.display_churn ==> !ends_instability(quarantine, releases),
        !releases.lifecycle && !quarantine.display_churn_active ==> !ends_instability(
            quarantine,
            releases,
        ),
        !releases.display_churn && !quarantine.awaiting_post_wake_snapshot
            && !quarantine.awaiting_post_session_snapshot ==> !ends_instability(
            quarantine,
            releases,
        ),
        !quarantine.display_churn_active && !quarantine.awaiting_post_wake_snapshot
            && !quarantine.awaiting_post_session_snapshot ==> !ends_instability(
            quarantine,
            releases,
        ),
{
}

/// An application's windows are asked for when a refresh is requested, when an unknown
/// window of it that the layout does not have in focus is focused, when a window of it is
/// missing from a raise, and when its answer is out of date. For a launch or an end nothing
/// is expected of it any longer. No other event touches the inventories.
pub proof fn which_events_ask_for_windows<V: Vocabulary>(
    reactor: Reactor,
    after: WindowInventoryManager,
    event: Event<V>,
    facts: DispatchFacts,
    ask: Option<WindowInventoryToken>,
)
    requires
        reactor.inventories_after(after, event, facts, ask),
    ensures
        ({
            let before = reactor.inventories;
            let blocked = reactor.quarantine.blocks_refreshes();
            let known = reactor.apps.apps@;
            &&& (event matches Event::ApplicationLaunched { pid } ==> ask is None
                && !after.in_flight@.contains_key(pid) && !after.pending@.contains(pid)
                && !after.refocus_after_refresh@.contains_key(pid))
            &&& (event matches Event::ApplicationThreadTerminated(pid) ==> ask is None
                && !after.in_flight@.contains_key(pid) && !after.pending@.contains(pid)
                && !after.refocus_after_refresh@.contains_key(pid))
            &&& (event matches Event::WindowInventoryRefreshRequested(pid) ==> (ask is Some
                <==> !blocked && !before.in_flight@.contains_key(pid) && known.contains_key(pid)))
            &&& (event matches Event::WindowServerFocusChanged(window, _) ==> (ask is Some
                <==> facts.layout_focus != Some(window) && !facts.window_known && !blocked
                && !before.in_flight@.contains_key(window.pid) && known.contains_key(window.pid)))
            &&& (event matches Event::WindowServerFocusChanged(window, _) ==> (facts.layout_focus
                == Some(window) || facts.window_known ==> after == before))
            &&& (event matches Event::RaiseTargetsMissing { windows, .. } ==> {
                &&& windows@.len() == 0 ==> after == before && ask is None
                &&& windows@.len() > 0 ==> after.refocus_after_refresh@.contains_key(windows@[0].pid)
                    && after.refocus_after_refresh@[windows@[0].pid] == windows@[0]
                &&& windows@.len() > 0 ==> (ask is Some <==> !blocked
                    && !before.in_flight@.contains_key(windows@[0].pid) && known.contains_key(
                    windows@[0].pid,
                ))
            })
            &&& !(event is ApplicationLaunched) && !(event is ApplicationThreadTerminated) && !(
            event is WindowInventoryRefreshRequested) && !(event is WindowServerFocusChanged) && !(
            event is RaiseTargetsMissing) && !(event is WindowsDiscovered) ==> after == before
                && ask is None
            &&& (ask matches Some(token) ==> token.topology_revision == before.topology_revision
                && (before.next_request_id < u64::MAX ==> token.request_id
                == before.next_request_id + 1))
        }),
{
}

/// An answer that is not the one in flight changes nothing. The one in flight is expected no
/// longer; it is asked for again if a refresh was pending or it is complete and not taken:
/// at once, or later where refreshes are blocked. A missing window is given up once an
/// answer was taken.
pub proof fn what_an_answer_does(
    reactor: Reactor,
    after: WindowInventoryManager,
    pid: Pid,
    token: WindowInventoryToken,
    successful: bool,
    ask: Option<WindowInventoryToken>,
)
    requires
        reactor.inventory_finished(after, pid, token, successful, ask),
    ensures
        ({
            let before = reactor.inventories;
            let blocked = reactor.quarantine.blocks_refreshes();
            let current = token.topology_revision == before.topology_revision;
            let ours = before.in_flight.at(pid) == Some(token);
            let pending = before.pending@.contains(pid);
            &&& !ours ==> after == before && ask is None
            &&& ours ==> !after.in_flight@.contains_key(pid)
            &&& ours && blocked ==> ask is None && (after.pending@.contains(pid) <==> pending
                || successful)
            &&& ours && !blocked ==> !after.pending@.contains(pid)
            &&& ours && !blocked ==> (ask is Some <==> (pending || (successful && !current))
                && reactor.apps.apps@.contains_key(pid))
            &&& ours && successful && !blocked && current
                ==> !after.refocus_after_refresh@.contains_key(pid)
            &&& ours && (!successful || blocked || !current) ==> after.refocus_after_refresh@
                == before.refocus_after_refresh@
            &&& after.topology_revision == before.topology_revision
            &&& ask is None ==> after.next_request_id == before.next_request_id
            &&& (ask matches Some(next) ==> next.request_id == after.next_request_id
                && next.topology_revision == before.topology_revision && (before.next_request_id
                < u64::MAX ==> after.next_request_id == before.next_request_id + 1))
        }),
{
}

/// Only what brings windows or the focus about asks for the focus to be told, and then for
/// the window that was raised; a change of the active display asks for nothing.
pub proof fn what_asks_for_the_focus<V: Vocabulary>(
    reactor: Reactor,
    event: Event<V>,
    facts: DispatchFacts,
)
    ensures
        reactor.refocused(event, facts) is Some ==> reactor.refocused(event, facts) == facts.raised
            && (event is WindowCreated || event is WindowFrameChanged || event is WindowTitleChanged
            || event is WindowDestroyed || event is WindowsDiscovered || event is ApplicationLaunched
            || event is ApplicationActivated || event is ApplicationDeactivated
            || event is ApplicationGloballyDeactivated || event is ApplicationMainWindowChanged
            || event is InstallIpc || event is Query),
        event is Query ==> reactor.route(event, facts) == (Route::Focus { notify: false })
            && reactor.refocused(event, facts) == facts.raised,
        reactor.route(event, facts) is Discovered ==> event is WindowsDiscovered
            && reactor.refocused(event, facts) == facts.raised,
        reactor.route(event, facts) is Discard ==> reactor.refocused(event, facts) is None,
        event is ActiveDisplayChanged ==> reactor.route(event, facts) == Route::Nothing,
{
}

/// A report that releases what is waited for ends a sleep and a session that wait for it,
/// and tells of a look at the windows that was put off, unless something else blocks it. One
/// that says that the displays have settled ends that, and tells of a look in any case,
/// unless something blocks it. A report that does neither changes nothing.
pub proof fn what_a_snapshot_releases(
    quarantine: RefreshQuarantineManager,
    releases: SnapshotReleases,
)
    ensures
        ({
            let (after, woken, churned) = after_snapshot(quarantine, releases);
            let awaited = releases.lifecycle && (quarantine.awaiting_post_wake_snapshot
                || quarantine.awaiting_post_session_snapshot);
            let sleeps = quarantine.sleeping && !(awaited && quarantine.awaiting_post_wake_snapshot);
            let away = quarantine.session_inactive && !(awaited
                && quarantine.awaiting_post_session_snapshot);
            &&& !awaited && !releases.display_churn ==> after == quarantine && !woken && !churned
            &&& after.sleeping == sleeps && after.session_inactive == away
            &&& awaited ==> !after.awaiting_post_wake_snapshot
                && !after.awaiting_post_session_snapshot
            &&& !awaited ==> !woken && after.awaiting_post_wake_snapshot
                == quarantine.awaiting_post_wake_snapshot && after.awaiting_post_session_snapshot
                == quarantine.awaiting_post_session_snapshot
            &&& awaited ==> woken == (quarantine.pending_inventory_refresh && !sleeps && !away
                && !quarantine.display_churn_active)
            &&& releases.display_churn ==> !after.display_churn_active && churned == (!sleeps
                && !away) && after.pending_inventory_refresh == (sleeps || away)
            &&& !releases.display_churn ==> !churned && after.display_churn_active
                == quarantine.display_churn_active
            &&& !releases.display_churn && awaited ==> after.pending_inventory_refresh == (
            quarantine.pending_inventory_refresh && !woken)
            &&& after.suppress_auto_workspace_switch_until_input
                == quarantine.suppress_auto_workspace_switch_until_input
        }),
{
}

} // verus!
