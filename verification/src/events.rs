//! The events that the manager takes in, and which of them are let through.

use vstd::prelude::*;

use crate::commands::{Command, LayoutCommand, Vocabulary};
use crate::drag::MouseAction;
use crate::ids::{Pid, SpaceId, WindowId, WindowServerId};
use crate::managers::{Lifecycle, RefreshQuarantineManager, WindowInventoryToken};

verus! {

/// Whether a desktop of an event is one of the user's, or a fullscreen one.
#[derive(Clone, Copy, Debug, PartialEq, Eq, Structural)]
pub enum SpaceEventKind {
    User,
    Fullscreen,
}

/// Whether an event is one that the manager itself brought about.
#[derive(Clone, Copy, Debug, PartialEq, Eq, Structural)]
pub enum Quiet {
    Yes,
    No,
}

#[derive(Clone, Copy, Debug, PartialEq, Eq, Structural)]
pub enum MouseState {
    Up,
    Down,
}

/// What a report of the topology says of the instability before it.
#[derive(Clone, Copy, Debug, PartialEq, Eq, Structural)]
pub struct SnapshotReleases {
    /// It was taken after a wake or an unlock.
    pub lifecycle: bool,
    /// It was taken after the displays had settled.
    pub display_churn: bool,
}

/// An event. The frames and titles that come with some of them stay with the
/// caller: what is decided by them is asked for when it is needed.
pub enum Event<V: Vocabulary> {
    SpaceStateChanged(SnapshotReleases),
    ActiveDisplayChanged { menu_bar_space: Option<SpaceId>, command_space: Option<SpaceId> },
    /// An application was launched. Sent for every running one at the start.
    ApplicationLaunched { pid: Pid },
    ApplicationTerminated(Pid),
    ApplicationThreadTerminated(Pid),
    ApplicationActivated(Pid, Quiet),
    ApplicationDeactivated(Pid),
    ApplicationGloballyActivated(Pid),
    ApplicationGloballyDeactivated(Pid),
    ApplicationMainWindowChanged(Pid, Option<WindowId>, Quiet),
    /// Focus, as the window server has it.
    WindowServerFocusChanged(WindowId, SpaceId),
    WindowsDiscovered {
        pid: Pid,
        token: WindowInventoryToken,
        successful: bool,
        new: Vec<WindowId>,
    },
    WindowInventoryRefreshRequested(Pid),
    RaiseTargetsMissing { windows: Vec<WindowId>, sequence_id: u64 },
    WindowCreated(WindowId),
    WindowDestroyed(WindowId),
    WindowServerDestroyed(WindowServerId, SpaceId, SpaceEventKind),
    WindowServerAppeared(WindowServerId, SpaceId, SpaceEventKind),
    SpaceCreated(SpaceId),
    /// The windows of a display that came back were given until now.
    DisplayHomingDeadline(String),
    SpaceDestroyed(SpaceId),
    WindowMinimized(WindowId),
    WindowDeminiaturized(WindowId),
    WindowFrameChanged(WindowId, Option<MouseState>),
    WindowTitleChanged(WindowId),
    MenuOpened(Pid),
    MenuClosed(Pid),
    /// The left mouse button was released.
    MouseUp,
    /// A drag with a modifier held has started over a window.
    MouseModifierDragBegin { window: WindowServerId, action: MouseAction },
    /// The window server ordered a window in or out.
    WindowServerVisibilityChanged(WindowServerId, bool),
    /// Movement during a drag with a modifier held.
    MouseModifierDrag,
    /// The pointer has come over another window.
    MouseMoved(WindowServerId),
    /// The pointer has moved with a button held.
    MouseDragged,
    SystemWoke,
    SystemWillSleep,
    SessionDidResignActive,
    SessionDidBecomeActive,
    DisplayChurnBegin,
    DisplayChurnEnd,
    MissionControlNativeEntered,
    MissionControlNativeExited,
    RaiseCompleted { window_id: WindowId, sequence_id: u64 },
    RaiseTimeout { sequence_id: u64 },
    Query,
    InstallIpc,
    Command(Command<V>),
    RegisterWmSender,
    ConfigUpdated,
}

impl<V: Vocabulary> Event<V> {
    /// Windows came or went, so the set that notifications are taken from may
    /// have changed.
    pub open spec fn changes_windows(&self) -> bool {
        ||| self is WindowCreated
        ||| self is WindowDestroyed
        ||| self is WindowServerDestroyed
        ||| self is WindowServerAppeared
        ||| self is WindowsDiscovered
        ||| self is ApplicationLaunched
        ||| self is ApplicationTerminated
        ||| self is ApplicationThreadTerminated
        ||| self is SpaceStateChanged
    }

    /// Whether the set of windows that notifications are taken from may have
    /// changed.
    pub fn should_update_notifications(&self) -> (update: bool)
        ensures
            update == self.changes_windows(),
    {
        matches!(
            self,
            Event::WindowCreated(_) | Event::WindowDestroyed(_)
                | Event::WindowServerDestroyed(_, _, _) | Event::WindowServerAppeared(_, _, _)
                | Event::WindowsDiscovered { .. } | Event::ApplicationLaunched { .. }
                | Event::ApplicationTerminated(_) | Event::ApplicationThreadTerminated(_)
                | Event::SpaceStateChanged(_)
        )
    }

    /// The event speaks of windows or desktops, of which nothing is certain
    /// while displays come and go.
    pub open spec fn is_churned(&self) -> bool {
        ||| self is WindowCreated
        ||| self is WindowDestroyed
        ||| self is WindowServerDestroyed
        ||| self is WindowServerAppeared
        ||| self is WindowFrameChanged
        ||| self is WindowMinimized
        ||| self is WindowDeminiaturized
        ||| self is WindowTitleChanged
        ||| self is WindowsDiscovered
        ||| self is SpaceCreated
        ||| self is SpaceDestroyed
    }

    /// Whether the event is dropped because displays come and go.
    pub fn should_quarantine_during_display_churn(&self, churn_active: bool) -> (drop: bool)
        ensures
            drop == (churn_active && self.is_churned()),
    {
        churn_active && matches!(
            self,
            Event::WindowCreated(_) | Event::WindowDestroyed(_)
                | Event::WindowServerDestroyed(_, _, _) | Event::WindowServerAppeared(_, _, _)
                | Event::WindowFrameChanged(_, _) | Event::WindowMinimized(_)
                | Event::WindowDeminiaturized(_) | Event::WindowTitleChanged(_)
                | Event::WindowsDiscovered { .. } | Event::SpaceCreated(_)
                | Event::SpaceDestroyed(_)
        )
    }

    /// Whether the event is dropped because desktops that come and go mean
    /// nothing before the next snapshot.
    pub fn should_quarantine_space_lifecycle_event(&self, quarantine: &RefreshQuarantineManager) -> (
    drop: bool)
        ensures
            drop == (quarantine.blocks_refreshes() && (self is SpaceCreated
                || self is SpaceDestroyed)),
    {
        quarantine.blocks_refreshes() && matches!(
            self,
            Event::SpaceCreated(_) | Event::SpaceDestroyed(_)
        )
    }

    /// The number of the window that the event shows to be at work.
    pub open spec fn activity(&self) -> Option<u32> {
        match *self {
            Event::WindowFrameChanged(window, _) => Some(window.idx),
            Event::WindowCreated(window) => Some(window.idx),
            Event::WindowDestroyed(window) => Some(window.idx),
            Event::WindowMinimized(window) => Some(window.idx),
            Event::WindowDeminiaturized(window) => Some(window.idx),
            Event::WindowServerDestroyed(window, _, _) => Some(window.0),
            Event::WindowServerAppeared(window, _, _) => Some(window.0),
            _ => None,
        }
    }

    /// The number of the window that the event shows to be at work.
    pub fn windowserver_activity(&self) -> (number: Option<u32>)
        ensures
            number == self.activity(),
    {
        match self {
            Event::WindowFrameChanged(window, _) => Some(window.idx),
            Event::WindowCreated(window) => Some(window.idx),
            Event::WindowDestroyed(window) => Some(window.idx),
            Event::WindowMinimized(window) => Some(window.idx),
            Event::WindowDeminiaturized(window) => Some(window.idx),
            Event::WindowServerDestroyed(window, _, _) => Some(window.0),
            Event::WindowServerAppeared(window, _, _) => Some(window.0),
            _ => None,
        }
    }

    /// The event is the user's doing.
    pub open spec fn is_input(&self) -> bool {
        self is MouseUp || self is MouseMoved || self is Command
    }

    /// Whether the event is the user's doing.
    pub fn comes_from_user(&self) -> (input: bool)
        ensures
            input == self.is_input(),
    {
        matches!(self, Event::MouseUp | Event::MouseMoved(_) | Event::Command(_))
    }

    /// The sleep, wake, session or display change that the event reports.
    pub open spec fn spec_lifecycle(&self) -> Option<Lifecycle> {
        match *self {
            Event::SystemWillSleep => Some(Lifecycle::WillSleep),
            Event::SystemWoke => Some(Lifecycle::Woke),
            Event::SessionDidResignActive => Some(Lifecycle::SessionResigned),
            Event::SessionDidBecomeActive => Some(Lifecycle::SessionBecameActive),
            Event::DisplayChurnBegin => Some(Lifecycle::ChurnBegan),
            Event::DisplayChurnEnd => Some(Lifecycle::ChurnEnded),
            _ => None,
        }
    }

    /// The sleep, wake, session or display change that the event reports.
    pub fn lifecycle(&self) -> (lifecycle: Option<Lifecycle>)
        ensures
            lifecycle == self.spec_lifecycle(),
    {
        match self {
            Event::SystemWillSleep => Some(Lifecycle::WillSleep),
            Event::SystemWoke => Some(Lifecycle::Woke),
            Event::SessionDidResignActive => Some(Lifecycle::SessionResigned),
            Event::SessionDidBecomeActive => Some(Lifecycle::SessionBecameActive),
            Event::DisplayChurnBegin => Some(Lifecycle::ChurnBegan),
            Event::DisplayChurnEnd => Some(Lifecycle::ChurnEnded),
            _ => None,
        }
    }

    /// The windows that the event is unambiguously about: the focused one for a
    /// command that acts on it, the two that are swapped, the one that is
    /// dropped on another, the one that a drag begins on.
    pub open spec fn intended(
        &self,
        main_window: Option<WindowId>,
        dropped: Option<WindowId>,
        grabbed: Option<WindowId>,
    ) -> Seq<WindowId> {
        match *self {
            Event::Command(Command::Layout(command)) => {
                let focused = if command.is_for_focused() && main_window is Some {
                    seq![main_window->0]
                } else {
                    Seq::<WindowId>::empty()
                };
                match command {
                    LayoutCommand::SwapWindows(a, b) => focused.push(a).push(b),
                    _ => focused,
                }
            },
            Event::MouseUp => listed(dropped),
            Event::MouseModifierDragBegin { .. } => listed(grabbed),
            _ => Seq::<WindowId>::empty(),
        }
    }

    /// The windows that the event is unambiguously about. `dropped` is the
    /// window of a drag that is over another one, `grabbed` the known window
    /// that a drag with a modifier begins on.
    pub fn explicit_window_intent(
        &self,
        main_window: Option<WindowId>,
        dropped: Option<WindowId>,
        grabbed: Option<WindowId>,
    ) -> (windows: Vec<WindowId>)
        ensures
            windows@ == self.intended(main_window, dropped, grabbed),
    {
        let mut windows: Vec<WindowId> = Vec::new();
        match self {
            Event::Command(Command::Layout(command)) => {
                if command.targets_focused_window() {
                    push_some(&mut windows, main_window);
                }
                match command {
                    LayoutCommand::SwapWindows(a, b) => {
                        windows.push(*a);
                        windows.push(*b);
                    },
                    _ => {},
                }
            },
            Event::MouseUp => {
                push_some(&mut windows, dropped);
            },
            Event::MouseModifierDragBegin { .. } => {
                push_some(&mut windows, grabbed);
            },
            _ => {},
        }
        assert(windows@ =~= self.intended(main_window, dropped, grabbed));
        windows
    }

    /// The event with `root` in place of the window whose focus it reports.
    pub open spec fn with_focus_on(self, root: WindowId) -> Event<V> {
        match self {
            Event::WindowServerFocusChanged(_, space) => Event::WindowServerFocusChanged(
                root,
                space,
            ),
            Event::ApplicationMainWindowChanged(pid, Some(_), quiet) =>
                Event::ApplicationMainWindowChanged(pid, Some(root), quiet),
            other => other,
        }
    }

    /// Puts `root`, the admitted window around the one whose focus the event
    /// reports, in its place.
    pub fn retarget_focus(self, root: WindowId) -> (event: Event<V>)
        ensures
            event == self.with_focus_on(root),
    {
        match self {
            Event::WindowServerFocusChanged(_, space) => Event::WindowServerFocusChanged(
                root,
                space,
            ),
            Event::ApplicationMainWindowChanged(pid, Some(_), quiet) =>
                Event::ApplicationMainWindowChanged(pid, Some(root), quiet),
            other => other,
        }
    }
}

/// The window, if there is one.
pub open spec fn listed(window: Option<WindowId>) -> Seq<WindowId> {
    match window {
        Some(window) => seq![window],
        None => Seq::<WindowId>::empty(),
    }
}

fn push_some(windows: &mut Vec<WindowId>, window: Option<WindowId>)
    ensures
        final(windows)@ == old(windows)@ + listed(window),
{
    match window {
        Some(window) => windows.push(window),
        None => {},
    }
    assert(windows@ =~= old(windows)@ + listed(window));
}

/// What is dropped while displays come and go never reaches the layout as a
/// window that went away: no report of a destroyed or minimized window passes.
pub proof fn churn_removes_no_windows<V: Vocabulary>(event: Event<V>)
    ensures
        event is WindowDestroyed || event is WindowServerDestroyed || event is WindowMinimized
            ==> event.is_churned(),
        event is Command || event is MouseUp || event is SpaceStateChanged || event is DisplayChurnEnd
            ==> !event.is_churned(),
{
}

/// Which events change the windows that notifications are taken from.
pub proof fn which_events_change_windows<V: Vocabulary>(event: Event<V>)
    ensures
        event is WindowCreated || event is WindowDestroyed || event is WindowServerDestroyed
            || event is WindowServerAppeared || event is WindowsDiscovered
            || event is ApplicationLaunched || event is ApplicationTerminated
            || event is ApplicationThreadTerminated || event is SpaceStateChanged
            ==> event.changes_windows(),
        event is WindowFrameChanged || event is WindowTitleChanged || event is WindowMinimized
            || event is MouseUp || event is MouseMoved || event is Command
            || event is ApplicationActivated || event is ApplicationMainWindowChanged
            || event is SpaceCreated || event is SpaceDestroyed || event is ConfigUpdated
            ==> !event.changes_windows(),
{
}

/// The window that an event shows to be at work is the one it is about.
pub proof fn who_is_at_work<V: Vocabulary>(
    window: WindowId,
    number: WindowServerId,
    space: SpaceId,
    kind: SpaceEventKind,
    mouse: Option<MouseState>,
)
    ensures
        Event::<V>::WindowFrameChanged(window, mouse).activity() == Some(window.idx),
        Event::<V>::WindowCreated(window).activity() == Some(window.idx),
        Event::<V>::WindowDestroyed(window).activity() == Some(window.idx),
        Event::<V>::WindowMinimized(window).activity() == Some(window.idx),
        Event::<V>::WindowDeminiaturized(window).activity() == Some(window.idx),
        Event::<V>::WindowServerDestroyed(number, space, kind).activity() == Some(number.0),
        Event::<V>::WindowServerAppeared(number, space, kind).activity() == Some(number.0),
        Event::<V>::MouseUp.activity() is None,
        Event::<V>::WindowTitleChanged(window).activity() is None,
        Event::<V>::SpaceCreated(space).activity() is None,
{
}

/// The sleep, wake, session and display changes are those that are reported as such.
pub proof fn which_events_are_of_the_session<V: Vocabulary>(event: Event<V>)
    ensures
        event.spec_lifecycle() == Some(Lifecycle::WillSleep) <==> event is SystemWillSleep,
        event.spec_lifecycle() == Some(Lifecycle::Woke) <==> event is SystemWoke,
        event.spec_lifecycle() == Some(Lifecycle::SessionResigned)
            <==> event is SessionDidResignActive,
        event.spec_lifecycle() == Some(Lifecycle::SessionBecameActive)
            <==> event is SessionDidBecomeActive,
        event.spec_lifecycle() == Some(Lifecycle::ChurnBegan) <==> event is DisplayChurnBegin,
        event.spec_lifecycle() == Some(Lifecycle::ChurnEnded) <==> event is DisplayChurnEnd,
{
}

/// The windows that an event is unambiguously about: the main one for a command that acts
/// on the focused window, both of those that are swapped, the one that is dropped and the
/// one that is grabbed; no other event is about any.
pub proof fn whom_an_event_is_about<V: Vocabulary>(
    event: Event<V>,
    main_window: Option<WindowId>,
    dropped: Option<WindowId>,
    grabbed: Option<WindowId>,
    window: WindowId,
)
    ensures
        ({
            let intended = event.intended(main_window, dropped, grabbed);
            &&& event is MouseUp ==> (intended.contains(window) <==> dropped == Some(window))
            &&& event is MouseModifierDragBegin ==> (intended.contains(window) <==> grabbed == Some(
                window,
            ))
            &&& (event matches Event::Command(Command::Layout(command)) && !(command is SwapWindows)
                && command.is_for_focused()) ==> (intended.contains(window) <==> main_window == Some(
                window,
            ))
            &&& (event matches Event::Command(Command::Layout(command)) && !(command is SwapWindows)
                && !command.is_for_focused()) ==> intended.len() == 0
            &&& (event matches Event::Command(Command::Layout(LayoutCommand::SwapWindows(a, b)))
                ==> intended == seq![a, b])
            &&& (event matches Event::Command(Command::Reactor(_))) ==> intended.len() == 0
            &&& event is WindowCreated || event is WindowFrameChanged || event is MouseMoved
                || event is WindowServerFocusChanged || event is ApplicationActivated
                ==> intended.len() == 0
        }),
{
    let intended = event.intended(main_window, dropped, grabbed);
    if intended.len() == 1 {
        assert(intended.contains(intended[0]));
    }
}

/// The admitted window around a focused one takes its place in a report of focus, and no
/// other event is changed.
pub proof fn a_report_of_focus_is_of_the_root<V: Vocabulary>(event: Event<V>, root: WindowId)
    ensures
        (event matches Event::WindowServerFocusChanged(_, space) ==> event.with_focus_on(root)
            == Event::<V>::WindowServerFocusChanged(root, space)),
        (event matches Event::ApplicationMainWindowChanged(pid, Some(_), quiet)
            ==> event.with_focus_on(root) == Event::<V>::ApplicationMainWindowChanged(
            pid,
            Some(root),
            quiet,
        )),
        (event matches Event::ApplicationMainWindowChanged(_, None, _)) ==> event.with_focus_on(root)
            == event,
        !(event is WindowServerFocusChanged) && !(event is ApplicationMainWindowChanged)
            ==> event.with_focus_on(root) == event,
{
}

/// An event is about windows only if it is a command to the layout, a release of the button
/// or the beginning of a drag with a modifier.
pub proof fn which_events_are_about_windows<V: Vocabulary>(
    event: Event<V>,
    main_window: Option<WindowId>,
    dropped: Option<WindowId>,
    grabbed: Option<WindowId>,
)
    requires
        event.intended(main_window, dropped, grabbed).len() > 0,
    ensures
        event is MouseUp || event is MouseModifierDragBegin || (event matches Event::Command(command)
            && command is Layout),
        event is MouseUp ==> event.intended(main_window, dropped, grabbed) == seq![dropped->0],
        event is MouseModifierDragBegin ==> event.intended(main_window, dropped, grabbed) == seq![
            grabbed->0,
        ],
{
}

/// Windows change with no other event than their coming and going, that of applications, and
/// a report of the desktops. While displays change, just what is told of windows and
/// desktops is dropped. Only a release, a move of the pointer and a command are input.
pub proof fn how_events_are_sorted<V: Vocabulary>(event: Event<V>)
    ensures
        event.changes_windows() ==> event is WindowCreated || event is WindowDestroyed
            || event is WindowServerDestroyed || event is WindowServerAppeared
            || event is WindowsDiscovered || event is ApplicationLaunched
            || event is ApplicationTerminated || event is ApplicationThreadTerminated
            || event is SpaceStateChanged,
        event.is_churned() <==> event is WindowCreated || event is WindowDestroyed
            || event is WindowServerDestroyed || event is WindowServerAppeared
            || event is WindowFrameChanged || event is WindowMinimized
            || event is WindowDeminiaturized || event is WindowTitleChanged
            || event is WindowsDiscovered || event is SpaceCreated || event is SpaceDestroyed,
        event.is_input() <==> event is MouseUp || event is MouseMoved || event is Command,
        event.activity() is Some <==> event is WindowFrameChanged || event is WindowCreated
            || event is WindowDestroyed || event is WindowMinimized || event is WindowDeminiaturized
            || event is WindowServerDestroyed || event is WindowServerAppeared,
{
}

} // verus!
