//! The parts of the manager's state, each with the rules that change it.

use vstd::prelude::*;

use crate::ids::{Pid, SpaceId, WindowId};
use crate::layout::LayoutMode;
use crate::lists::{Id, IdSet};
use crate::reconcile::same_list;
use crate::screens::Screen;
use crate::table::Table;
use crate::text::same_text;

verus! {

/// Identifies the thread that talks to one application.
#[derive(Clone, Copy, Debug, PartialEq, Eq, Structural)]
pub struct ActorId(pub u64);

/// What is known of a running application.
#[derive(Clone, Debug)]
pub struct AppState {
    pub handle: ActorId,
    pub bundle_id: Option<String>,
}

/// The running applications.
#[derive(Debug)]
pub struct AppManager {
    pub apps: Table<Pid, AppState>,
}

/// What becomes of a registration under a process that has one.
#[derive(Clone, Copy, Debug, PartialEq, Eq, Structural)]
pub struct Rejection {
    /// The process is registered already, and keeps its actor.
    pub rejected: bool,
    /// The actor that came second is another one, and is told to stop.
    pub terminate: bool,
}

impl AppManager {
    pub open spec fn wf(&self) -> bool {
        self.apps.wf()
    }

    pub fn new() -> (manager: AppManager)
        ensures
            manager.wf(),
            manager.apps@ == Map::<Pid, AppState>::empty(),
            manager.apps.entries@.len() == 0,
    {
        AppManager { apps: Table::new() }
    }

    /// Whether `handle` registers under a process that is registered already.
    pub fn reject_duplicate(&self, pid: Pid, handle: ActorId) -> (rejection: Rejection)
        requires
            self.wf(),
        ensures
            rejection == match self.apps.at(pid) {
                Some(existing) => Rejection { rejected: true, terminate: existing.handle != handle },
                None => Rejection { rejected: false, terminate: false },
            },
    {
        match self.apps.get(&pid) {
            Some(existing) => Rejection { rejected: true, terminate: existing.handle != handle },
            None => Rejection { rejected: false, terminate: false },
        }
    }

    /// Whether the application is the one that guards the login screen.
    pub fn is_login_window(&self, pid: Pid) -> (is: bool)
        requires
            self.wf(),
        ensures
            is == (self.apps.at(pid) matches Some(app) && (app.bundle_id matches Some(id) && id@
                == "com.apple.loginwindow"@)),
    {
        match self.apps.get(&pid) {
            Some(app) => match &app.bundle_id {
                Some(id) => same_text(id.as_str(), "com.apple.loginwindow"),
                None => false,
            },
            None => false,
        }
    }
}

/// A menu is open, and whose.
#[derive(Clone, Copy, Debug, PartialEq, Eq, Structural)]
pub enum MenuState {
    Closed,
    Open(Pid),
}

#[derive(Debug)]
pub struct MenuManager {
    pub menu_state: MenuState,
}

impl MenuManager {
    /// The owner of an open menu went to the back: the menu is closed. Whether
    /// it was is returned.
    pub fn clear_for_pid(&mut self, pid: Pid) -> (cleared: bool)
        ensures
            cleared == (old(self).menu_state == MenuState::Open(pid)),
            final(self).menu_state == if cleared {
                MenuState::Closed
            } else {
                old(self).menu_state
            },
    {
        let cleared = match self.menu_state {
            MenuState::Open(owner) => owner == pid,
            MenuState::Closed => false,
        };
        if cleared {
            self.menu_state = MenuState::Closed;
        }
        cleared
    }

    /// Another application than the owner of an open menu came to the front: the
    /// menu is closed. Whether it was is returned.
    pub fn clear_for_non_owner(&mut self, pid: Pid) -> (cleared: bool)
        ensures
            cleared == (old(self).menu_state matches MenuState::Open(owner) && owner != pid),
            final(self).menu_state == if cleared {
                MenuState::Closed
            } else {
                old(self).menu_state
            },
    {
        let cleared = match self.menu_state {
            MenuState::Open(owner) => owner != pid,
            MenuState::Closed => false,
        };
        if cleared {
            self.menu_state = MenuState::Closed;
        }
        cleared
    }
}

#[derive(Clone, Copy, Debug, PartialEq, Eq, Structural)]
pub enum MissionControlState {
    Inactive,
    Active,
}

#[derive(Debug)]
pub struct MissionControlManager {
    pub mission_control_state: MissionControlState,
}

impl MissionControlManager {
    pub fn is_active(&self) -> (active: bool)
        ensures
            active == (self.mission_control_state == MissionControlState::Active),
    {
        self.mission_control_state == MissionControlState::Active
    }

    /// Enters or leaves; whether that is a change is returned.
    pub fn set_active(&mut self, active: bool) -> (changed: bool)
        ensures
            changed == (active != (old(self).mission_control_state == MissionControlState::Active)),
            final(self).mission_control_state == if active {
                MissionControlState::Active
            } else {
                MissionControlState::Inactive
            },
    {
        let changed = self.is_active() != active;
        self.mission_control_state = if active {
            MissionControlState::Active
        } else {
            MissionControlState::Inactive
        };
        changed
    }
}

/// Whether focus follows the mouse: as configured, but not with a menu open or
/// in Mission Control.
pub fn focus_follows_mouse(
    configured: bool,
    menu: &MenuManager,
    mission_control: &MissionControlManager,
) -> (enabled: bool)
    ensures
        enabled == (configured && menu.menu_state == MenuState::Closed
            && mission_control.mission_control_state != MissionControlState::Active),
{
    configured && menu.menu_state == MenuState::Closed && !mission_control.is_active()
}

#[derive(Clone, Copy, Debug, PartialEq, Eq, Structural)]
pub enum WorkspaceSwitchState {
    Inactive,
    Active,
}

#[derive(Clone, Copy, Debug, PartialEq, Eq, Structural)]
pub enum WorkspaceSwitchOrigin {
    Manual,
    Auto,
}

/// Manages workspace switching state.
#[derive(Debug)]
pub struct WorkspaceSwitchManager {
    pub workspace_switch_state: WorkspaceSwitchState,
    pub workspace_switch_generation: u64,
    pub active_workspace_switch: Option<u64>,
    pub pending_workspace_switch_origin: Option<WorkspaceSwitchOrigin>,
    pub pending_workspace_mouse_warp: Option<WindowId>,
}

/// The number after `n`, going round at the end.
pub open spec fn next_number(n: u64) -> u64 {
    if n == u64::MAX {
        0
    } else {
        (n + 1) as u64
    }
}

impl WorkspaceSwitchManager {
    pub fn new() -> (manager: WorkspaceSwitchManager)
        ensures
            manager == (WorkspaceSwitchManager {
                workspace_switch_state: WorkspaceSwitchState::Inactive,
                workspace_switch_generation: 0,
                active_workspace_switch: None,
                pending_workspace_switch_origin: None,
                pending_workspace_mouse_warp: None,
            }),
    {
        WorkspaceSwitchManager {
            workspace_switch_state: WorkspaceSwitchState::Inactive,
            workspace_switch_generation: 0,
            active_workspace_switch: None,
            pending_workspace_switch_origin: None,
            pending_workspace_mouse_warp: None,
        }
    }

    pub fn start_workspace_switch(&mut self, origin: WorkspaceSwitchOrigin)
        ensures
            *final(self) == (WorkspaceSwitchManager {
                workspace_switch_generation: next_number(old(self).workspace_switch_generation),
                active_workspace_switch: Some(
                    next_number(old(self).workspace_switch_generation),
                ),
                workspace_switch_state: WorkspaceSwitchState::Active,
                pending_workspace_switch_origin: Some(origin),
                ..*old(self)
            }),
    {
        self.workspace_switch_generation = self.workspace_switch_generation.wrapping_add(1);
        self.active_workspace_switch = Some(self.workspace_switch_generation);
        self.workspace_switch_state = WorkspaceSwitchState::Active;
        self.pending_workspace_switch_origin = Some(origin);
    }

    pub fn manual_switch_in_progress(&self) -> (manual: bool)
        ensures
            manual == (self.workspace_switch_state == WorkspaceSwitchState::Active
                && self.pending_workspace_switch_origin == Some(WorkspaceSwitchOrigin::Manual)),
    {
        self.workspace_switch_state == WorkspaceSwitchState::Active && (
        match self.pending_workspace_switch_origin {
            Some(origin) => origin == WorkspaceSwitchOrigin::Manual,
            None => false,
        })
    }

    pub fn mark_workspace_switch_inactive(&mut self)
        ensures
            *final(self) == (WorkspaceSwitchManager {
                workspace_switch_state: WorkspaceSwitchState::Inactive,
                pending_workspace_switch_origin: None,
                ..*old(self)
            }),
    {
        self.workspace_switch_state = WorkspaceSwitchState::Inactive;
        self.pending_workspace_switch_origin = None;
    }

    /// An event has been dealt with: the switch is over, and stands for frame
    /// changes to come only while the layout still changes. The window to warp
    /// the pointer to, if that was put off, is returned.
    pub fn end_event(&mut self, layout_changed: bool) -> (warp: Option<WindowId>)
        ensures
            warp == old(self).pending_workspace_mouse_warp,
            *final(self) == (WorkspaceSwitchManager {
                workspace_switch_state: WorkspaceSwitchState::Inactive,
                pending_workspace_switch_origin: None,
                active_workspace_switch: if layout_changed {
                    old(self).active_workspace_switch
                } else {
                    None
                },
                pending_workspace_mouse_warp: None,
                ..*old(self)
            }),
    {
        self.mark_workspace_switch_inactive();
        if !layout_changed {
            self.active_workspace_switch = None;
        }
        self.pending_workspace_mouse_warp.take()
    }
}

#[derive(Clone, Copy, Debug, PartialEq, Eq, Structural)]
pub enum StaleCleanupState {
    Enabled,
    Suppressed,
}

#[derive(Clone, Copy, Debug, PartialEq, Eq, Structural)]
pub enum RefocusState {
    Idle,
    Pending(SpaceId),
}

/// Manages refocus and cleanup state.
#[derive(Debug)]
pub struct RefocusManager {
    pub stale_cleanup_state: StaleCleanupState,
    pub refocus_state: RefocusState,
}

impl RefocusManager {
    /// Stale windows are cleaned up unless no screen shows a desktop.
    pub fn note_spaces(&mut self, spaces: &[Option<SpaceId>])
        ensures
            final(self).refocus_state == old(self).refocus_state,
            final(self).stale_cleanup_state == if forall|i: int|
                0 <= i < spaces@.len() ==> (#[trigger] spaces@[i]) is None {
                StaleCleanupState::Suppressed
            } else {
                StaleCleanupState::Enabled
            },
    {
        let mut i: usize = 0;
        while i < spaces.len()
            invariant
                i <= spaces@.len(),
                self.refocus_state == old(self).refocus_state,
                forall|j: int| 0 <= j < i ==> (#[trigger] spaces@[j]) is None,
            decreases spaces@.len() - i,
        {
            if spaces[i].is_some() {
                assert(spaces@[i as int] is Some);
                self.stale_cleanup_state = StaleCleanupState::Enabled;
                return;
            }
            i = i + 1;
        }
        self.stale_cleanup_state = StaleCleanupState::Suppressed;
    }
}

#[derive(Clone, Copy, Debug, PartialEq, Eq, Structural)]
pub enum RefreshQuarantineState {
    Ready,
    Sleeping,
    SessionInactive,
    DisplayChurn,
}

/// What keeps windows from being looked at anew.
#[derive(Clone, Copy, Debug, PartialEq, Eq, Structural)]
pub struct RefreshQuarantineManager {
    pub sleeping: bool,
    pub session_inactive: bool,
    pub display_churn_active: bool,
    pub awaiting_post_wake_snapshot: bool,
    pub awaiting_post_session_snapshot: bool,
    pub pending_inventory_refresh: bool,
    /// Activations replayed while a session is restored are not the user's, and
    /// drive no workspace switch until there is input.
    pub suppress_auto_workspace_switch_until_input: bool,
}

impl RefreshQuarantineManager {
    pub open spec fn spec_state(&self) -> RefreshQuarantineState {
        if self.sleeping {
            RefreshQuarantineState::Sleeping
        } else if self.session_inactive {
            RefreshQuarantineState::SessionInactive
        } else if self.display_churn_active {
            RefreshQuarantineState::DisplayChurn
        } else {
            RefreshQuarantineState::Ready
        }
    }

    pub open spec fn spec_blocks_refreshes(&self) -> bool {
        self.spec_state() != RefreshQuarantineState::Ready
    }

    pub fn new() -> (manager: RefreshQuarantineManager)
        ensures
            manager == (RefreshQuarantineManager {
                sleeping: false,
                session_inactive: false,
                display_churn_active: false,
                awaiting_post_wake_snapshot: false,
                awaiting_post_session_snapshot: false,
                pending_inventory_refresh: false,
                suppress_auto_workspace_switch_until_input: false,
            }),
    {
        RefreshQuarantineManager {
            sleeping: false,
            session_inactive: false,
            display_churn_active: false,
            awaiting_post_wake_snapshot: false,
            awaiting_post_session_snapshot: false,
            pending_inventory_refresh: false,
            suppress_auto_workspace_switch_until_input: false,
        }
    }

    /// What keeps windows from being looked at, the strongest first.
    #[verifier::when_used_as_spec(spec_state)]
    pub fn state(&self) -> (state: RefreshQuarantineState)
        ensures
            state == self.spec_state(),
    {
        if self.sleeping {
            RefreshQuarantineState::Sleeping
        } else if self.session_inactive {
            RefreshQuarantineState::SessionInactive
        } else if self.display_churn_active {
            RefreshQuarantineState::DisplayChurn
        } else {
            RefreshQuarantineState::Ready
        }
    }

    #[verifier::when_used_as_spec(spec_blocks_refreshes)]
    pub fn blocks_refreshes(&self) -> (blocks: bool)
        ensures
            blocks == self.spec_blocks_refreshes(),
    {
        self.state() != RefreshQuarantineState::Ready
    }

    /// A refresh that was put off is due, if nothing keeps it back any longer.
    pub open spec fn flushed(self) -> (RefreshQuarantineManager, bool) {
        if self.blocks_refreshes() {
            (self, false)
        } else {
            (
                RefreshQuarantineManager { pending_inventory_refresh: false, ..self },
                self.pending_inventory_refresh,
            )
        }
    }

    /// Takes a refresh that was put off, if nothing keeps it back any longer.
    pub fn flush_deferred(&mut self) -> (due: bool)
        ensures
            (*final(self), due) == old(self).flushed(),
    {
        if self.blocks_refreshes() {
            return false;
        }
        let due = self.pending_inventory_refresh;
        self.pending_inventory_refresh = false;
        due
    }

    /// The state once a snapshot of the topology, taken after what was waited
    /// for, has come in.
    pub open spec fn released(self) -> RefreshQuarantineManager {
        RefreshQuarantineManager {
            sleeping: self.sleeping && !self.awaiting_post_wake_snapshot,
            session_inactive: self.session_inactive && !self.awaiting_post_session_snapshot,
            awaiting_post_wake_snapshot: false,
            awaiting_post_session_snapshot: false,
            ..self
        }
    }

    /// A snapshot of the topology has come in: ends what was waiting for one.
    /// Whether a refresh that was put off is due is returned.
    pub fn release_after_snapshot(&mut self) -> (due: bool)
        ensures
            if old(self).awaiting_post_wake_snapshot || old(self).awaiting_post_session_snapshot {
                (*final(self), due) == old(self).released().flushed()
            } else {
                *final(self) == *old(self) && !due
            },
    {
        let released_wake = self.awaiting_post_wake_snapshot;
        let released_session = self.awaiting_post_session_snapshot;
        if !released_wake && !released_session {
            return false;
        }
        self.awaiting_post_wake_snapshot = false;
        self.awaiting_post_session_snapshot = false;
        if released_wake {
            self.sleeping = false;
        }
        if released_session {
            self.session_inactive = false;
        }
        self.flush_deferred()
    }
}

/// A sleep, a wake, a session change or a display change.
#[derive(Clone, Copy, Debug, PartialEq, Eq, Structural)]
pub enum Lifecycle {
    WillSleep,
    Woke,
    SessionResigned,
    SessionBecameActive,
    ChurnBegan,
    ChurnEnded,
}

/// The quarantine after a lifecycle event, and whether a refresh is due. A wake
/// and an unlock keep it up until the next snapshot of the topology.
pub open spec fn after_lifecycle(
    before: RefreshQuarantineManager,
    event: Lifecycle,
) -> (RefreshQuarantineManager, bool) {
    match event {
        Lifecycle::WillSleep => (
            RefreshQuarantineManager {
                sleeping: true,
                awaiting_post_wake_snapshot: false,
                ..before
            },
            false,
        ),
        Lifecycle::Woke => (
            RefreshQuarantineManager {
                sleeping: true,
                awaiting_post_wake_snapshot: true,
                suppress_auto_workspace_switch_until_input: true,
                pending_inventory_refresh: true,
                ..before
            },
            false,
        ),
        Lifecycle::SessionResigned => (
            RefreshQuarantineManager {
                session_inactive: true,
                awaiting_post_session_snapshot: false,
                ..before
            },
            false,
        ),
        Lifecycle::SessionBecameActive => (
            RefreshQuarantineManager {
                session_inactive: true,
                awaiting_post_session_snapshot: true,
                suppress_auto_workspace_switch_until_input: true,
                pending_inventory_refresh: true,
                ..before
            },
            false,
        ),
        Lifecycle::ChurnBegan => (
            RefreshQuarantineManager { display_churn_active: true, ..before },
            false,
        ),
        Lifecycle::ChurnEnded => (RefreshQuarantineManager {
            display_churn_active: false,
            pending_inventory_refresh: true,
            ..before
        }).flushed(),
    }
}

impl RefreshQuarantineManager {
    /// Takes in a lifecycle event; whether a refresh is due is returned.
    pub fn on_lifecycle(&mut self, event: Lifecycle) -> (due: bool)
        ensures
            (*final(self), due) == after_lifecycle(*old(self), event),
    {
        match event {
            Lifecycle::WillSleep => {
                self.sleeping = true;
                self.awaiting_post_wake_snapshot = false;
                false
            },
            Lifecycle::Woke => {
                self.sleeping = true;
                self.awaiting_post_wake_snapshot = true;
                self.suppress_auto_workspace_switch_until_input = true;
                self.pending_inventory_refresh = true;
                false
            },
            Lifecycle::SessionResigned => {
                self.session_inactive = true;
                self.awaiting_post_session_snapshot = false;
                false
            },
            Lifecycle::SessionBecameActive => {
                self.session_inactive = true;
                self.awaiting_post_session_snapshot = true;
                self.suppress_auto_workspace_switch_until_input = true;
                self.pending_inventory_refresh = true;
                false
            },
            Lifecycle::ChurnBegan => {
                self.display_churn_active = true;
                false
            },
            Lifecycle::ChurnEnded => {
                self.display_churn_active = false;
                self.pending_inventory_refresh = true;
                self.flush_deferred()
            },
        }
    }
}

/// A refresh that was put off is never lost: a lifecycle event either hands it
/// out or leaves it pending.
pub proof fn a_deferred_refresh_is_not_lost(before: RefreshQuarantineManager, event: Lifecycle)
    requires
        before.pending_inventory_refresh,
    ensures
        ({
            let (after, due) = after_lifecycle(before, event);
            due || after.pending_inventory_refresh
        }),
{
}

/// Nothing is looked at anew from a wake until the next snapshot: refreshes are
/// blocked after it, and once the snapshot has come in only by what else blocks
/// them.
pub proof fn a_wake_blocks_until_the_snapshot(before: RefreshQuarantineManager)
    ensures
        ({
            let (woken, due) = after_lifecycle(before, Lifecycle::Woke);
            &&& woken.blocks_refreshes() && !due
            &&& woken.released().blocks_refreshes() == (woken.released().session_inactive
                || before.display_churn_active)
        }),
{
}

/// The window inventory asked for: which request, and at which topology.
#[derive(Clone, Copy, Debug, PartialEq, Eq, Structural)]
pub struct WindowInventoryToken {
    pub request_id: u64,
    pub topology_revision: u64,
}

/// Owns ordering and coalescing of window inventories, which applications
/// answer at their own time.
#[derive(Debug)]
pub struct WindowInventoryManager {
    pub topology_revision: u64,
    pub next_request_id: u64,
    pub in_flight: Table<Pid, WindowInventoryToken>,
    pub pending: IdSet<Pid>,
    pub refocus_after_refresh: Table<Pid, WindowId>,
}

/// The processes with an entry in `table`.
pub open spec fn pids_in<V>(table: Table<Pid, V>) -> Set<Pid> {
    Set::new(|pid: Pid| table@.contains_key(pid))
}

impl WindowInventoryManager {
    pub open spec fn wf(&self) -> bool {
        self.in_flight.wf() && self.pending.wf() && self.refocus_after_refresh.wf()
    }

    pub fn new() -> (manager: WindowInventoryManager)
        ensures
            manager.wf(),
            manager.topology_revision == 0,
            manager.next_request_id == 0,
            manager.in_flight@ == Map::<Pid, WindowInventoryToken>::empty(),
            manager.pending@ == Set::<Pid>::empty(),
            manager.refocus_after_refresh@ == Map::<Pid, WindowId>::empty(),
    {
        WindowInventoryManager {
            topology_revision: 0,
            next_request_id: 0,
            in_flight: Table::new(),
            pending: IdSet::new(),
            refocus_after_refresh: Table::new(),
        }
    }

    /// Everything in flight is asked for again.
    fn repeat_in_flight(&mut self)
        requires
            old(self).wf(),
        ensures
            final(self).wf(),
            final(self).pending@ == old(self).pending@.union(pids_in(old(self).in_flight)),
            *final(self) == (WindowInventoryManager {
                pending: final(self).pending,
                ..*old(self)
            }),
    {
        let ghost begun = *self;
        let ghost entries = self.in_flight.entries@;
        let mut i: usize = 0;
        while i < self.in_flight.entries.len()
            invariant
                begun.wf(),
                self.wf(),
                entries == begun.in_flight.entries@,
                i <= entries.len(),
                *self == (WindowInventoryManager { pending: self.pending, ..begun }),
                forall|pid: Pid| #[trigger]
                    self.pending@.contains(pid) <==> begun.pending@.contains(pid) || exists|x: int|
                        0 <= x < i && (#[trigger] entries[x]).0 == pid,
            decreases entries.len() - i,
        {
            let ghost before = self.pending@;
            let _ = self.pending.insert(self.in_flight.entries[i].0);
            proof {
                assert forall|pid: Pid| #[trigger]
                    self.pending@.contains(pid) <==> begun.pending@.contains(pid) || exists|x: int|
                        0 <= x < i + 1 && (#[trigger] entries[x]).0 == pid by {
                    if exists|x: int| 0 <= x < i && (#[trigger] entries[x]).0 == pid {
                        let x = choose|x: int| 0 <= x < i && (#[trigger] entries[x]).0 == pid;
                        assert(0 <= x < i + 1 && entries[x].0 == pid);
                    }
                    if pid == entries[i as int].0 {
                        assert(0 <= i < i + 1 && entries[i as int].0 == pid);
                    }
                    assert(before.contains(pid) == before.contains(pid));
                }
            }
            i = i + 1;
        }
        proof {
            assert forall|pid: Pid| #[trigger]
                self.pending@.contains(pid) == begun.pending@.union(
                    pids_in(begun.in_flight),
                ).contains(pid) by {
                if exists|x: int| 0 <= x < entries.len() && (#[trigger] entries[x]).0 == pid {
                    let x = choose|x: int| 0 <= x < entries.len() && (#[trigger] entries[x]).0 == pid;
                    begun.in_flight.lemma_at(x);
                }
                if begun.in_flight@.contains_key(pid) {
                    let x = begun.in_flight.index_of(pid);
                    assert(begun.in_flight.has_at(x, pid));
                    assert(entries[x].0 == pid);
                }
            }
            assert(self.pending@ =~= begun.pending@.union(pids_in(begun.in_flight)));
        }
    }

    /// A report of the topology has come in. If it is another one than before,
    /// what is in flight is of an older topology, and is asked for again.
    pub fn advance_revision_if_needed(&mut self, topology_changed: bool)
        requires
            old(self).wf(),
        ensures
            final(self).wf(),
            !topology_changed ==> *final(self) == *old(self),
            topology_changed ==> final(self).topology_revision == next_number(
                old(self).topology_revision,
            ) && final(self).pending@ == old(self).pending@.union(pids_in(old(self).in_flight))
                && *final(self) == (WindowInventoryManager {
                topology_revision: final(self).topology_revision,
                pending: final(self).pending,
                ..*old(self)
            }),
    {
        if !topology_changed {
            return;
        }
        self.topology_revision = self.topology_revision.wrapping_add(1);
        self.repeat_in_flight();
    }

    /// Requests from before an instability may never be answered: they are
    /// given up, and asked for again.
    pub fn abandon_in_flight(&mut self)
        requires
            old(self).wf(),
        ensures
            final(self).wf(),
            final(self).in_flight@ == Map::<Pid, WindowInventoryToken>::empty(),
            final(self).pending@ == old(self).pending@.union(pids_in(old(self).in_flight)),
            *final(self) == (WindowInventoryManager {
                in_flight: final(self).in_flight,
                pending: final(self).pending,
                ..*old(self)
            }),
    {
        self.repeat_in_flight();
        self.in_flight = Table::new();
    }

    /// An application's windows were asked for, which makes this `after`.
    pub open spec fn asked(
        &self,
        after: WindowInventoryManager,
        pid: Pid,
        blocked: bool,
        known: bool,
        token: Option<WindowInventoryToken>,
    ) -> bool {
        if blocked || self.in_flight@.contains_key(pid) {
            &&& token is None
            &&& after.pending@ == self.pending@.insert(pid)
            &&& after == (WindowInventoryManager { pending: after.pending, ..*self })
        } else if !known {
            &&& token is None
            &&& after.pending@ == self.pending@.remove(pid)
            &&& after == (WindowInventoryManager { pending: after.pending, ..*self })
        } else {
            &&& token == Some(
                WindowInventoryToken {
                    request_id: next_number(self.next_request_id),
                    topology_revision: self.topology_revision,
                },
            )
            &&& after == (WindowInventoryManager {
                next_request_id: next_number(self.next_request_id),
                ..*self
            })
        }
    }

    /// Asks for an application's windows. While refreshes are blocked, or the
    /// last answer is still to come, that is put off; an application that is
    /// not known is not asked. The request to send is returned, and counts once
    /// it was sent (see `sent`).
    pub fn request(&mut self, pid: Pid, blocked: bool, known: bool) -> (token: Option<
        WindowInventoryToken,
    >)
        requires
            old(self).wf(),
        ensures
            final(self).wf(),
            old(self).asked(*final(self), pid, blocked, known, token),
    {
        if blocked || self.in_flight.contains_key(&pid) {
            let _ = self.pending.insert(pid);
            return None;
        }
        if !known {
            let _ = self.pending.remove(pid);
            return None;
        }
        self.next_request_id = self.next_request_id.wrapping_add(1);
        Some(
            WindowInventoryToken {
                request_id: self.next_request_id,
                topology_revision: self.topology_revision,
            },
        )
    }

    /// A request was sent: its answer is to come.
    pub fn sent(&mut self, pid: Pid, token: WindowInventoryToken)
        requires
            old(self).wf(),
        ensures
            final(self).wf(),
            final(self).in_flight@ == old(self).in_flight@.insert(pid, token),
            final(self).pending@ == old(self).pending@.remove(pid),
            *final(self) == (WindowInventoryManager {
                in_flight: final(self).in_flight,
                pending: final(self).pending,
                ..*old(self)
            }),
    {
        self.in_flight.insert(pid, token);
        let _ = self.pending.remove(pid);
    }

    /// Nothing is expected of the application any longer, which makes this
    /// `after`.
    pub open spec fn forgotten(&self, after: WindowInventoryManager, pid: Pid) -> bool {
        &&& after.in_flight@ == self.in_flight@.remove(pid)
        &&& after.pending@ == self.pending@.remove(pid)
        &&& after.refocus_after_refresh@ == self.refocus_after_refresh@.remove(pid)
        &&& after.topology_revision == self.topology_revision
        &&& after.next_request_id == self.next_request_id
    }

    /// An application is gone: nothing is expected of it.
    pub fn forget(&mut self, pid: Pid)
        requires
            old(self).wf(),
        ensures
            final(self).wf(),
            old(self).forgotten(*final(self), pid),
    {
        let _ = self.in_flight.remove(&pid);
        let _ = self.pending.remove(pid);
        let _ = self.refocus_after_refresh.remove(&pid);
    }

    /// An answer is taken: it is the one in flight, complete, of the topology of
    /// now, and nothing blocks refreshes.
    pub open spec fn accepts(
        &self,
        pid: Pid,
        token: WindowInventoryToken,
        successful: bool,
        blocked: bool,
    ) -> bool {
        self.in_flight.at(pid) == Some(token) && successful && !blocked && token.topology_revision
            == self.topology_revision
    }

    /// The application is to be asked again after this answer.
    pub open spec fn asks_again(
        &self,
        pid: Pid,
        token: WindowInventoryToken,
        successful: bool,
        blocked: bool,
    ) -> bool {
        self.in_flight.at(pid) == Some(token) && (self.pending@.contains(pid) || (successful
            && !self.accepts(pid, token, successful, blocked)))
    }

    /// An application has answered. An answer that was not asked for is
    /// discarded; one that is out of date is asked for again. Whether it is
    /// taken, and whether to ask again, is returned.
    pub fn finish(
        &mut self,
        pid: Pid,
        token: WindowInventoryToken,
        successful: bool,
        blocked: bool,
    ) -> (finished: (bool, bool))
        requires
            old(self).wf(),
        ensures
            final(self).wf(),
            finished.0 == old(self).accepts(pid, token, successful, blocked),
            finished.1 == old(self).asks_again(pid, token, successful, blocked),
            if old(self).in_flight.at(pid) == Some(token) {
                &&& final(self).in_flight@ == old(self).in_flight@.remove(pid)
                &&& final(self).pending@ == old(self).pending@.remove(pid)
                &&& *final(self) == (WindowInventoryManager {
                    in_flight: final(self).in_flight,
                    pending: final(self).pending,
                    ..*old(self)
                })
            } else {
                *final(self) == *old(self)
            },
    {
        let expected = match self.in_flight.get(&pid) {
            Some(expected) => *expected == token,
            None => false,
        };
        if !expected {
            return (false, false);
        }
        let _ = self.in_flight.remove(&pid);
        let accepted = successful && !blocked && token.topology_revision == self.topology_revision;
        let ghost pending = self.pending@;
        if !accepted && successful {
            let _ = self.pending.insert(pid);
            assert(pending.insert(pid).remove(pid) =~= pending.remove(pid));
        }
        let again = self.pending.remove(pid);
        (accepted, again)
    }
}

/// An answer that comes twice is taken once: after the first nothing is in
/// flight for the process, until it is asked again.
pub proof fn an_inventory_is_taken_once(
    before: WindowInventoryManager,
    after: WindowInventoryManager,
    pid: Pid,
    token: WindowInventoryToken,
    successful: bool,
    blocked: bool,
)
    requires
        before.in_flight.at(pid) == Some(token),
        after.in_flight@ == before.in_flight@.remove(pid),
    ensures
        !after.accepts(pid, token, successful, blocked),
        !after.asks_again(pid, token, successful, blocked),
{
}

/// Manages window notifications.
#[derive(Debug)]
pub struct NotificationManager {
    pub last_sls_notification_ids: Vec<u32>,
    pub last_layout_modes_by_space: Table<SpaceId, LayoutMode>,
}

/// Manages pending space changes.
#[derive(Debug)]
pub struct PendingSpaceChangeManager<S> {
    pub pending_space_change: Option<S>,
}

/// Each number in order, those that were there and no others.
pub open spec fn ascending(ids: Seq<u32>) -> bool {
    forall|i: int, j: int| 0 <= i < j < ids.len() ==> (#[trigger] ids[i]) <= (#[trigger] ids[j])
}

fn sort_ids(ids: &[u32]) -> (sorted: Vec<u32>)
    ensures
        ascending(sorted@),
        sorted@.to_multiset() == ids@.to_multiset(),
{
    let mut sorted: Vec<u32> = Vec::new();
    let mut i: usize = 0;
    assert(ids@.take(0) =~= sorted@);
    while i < ids.len()
        invariant
            i <= ids@.len(),
            ascending(sorted@),
            sorted@.to_multiset() == ids@.take(i as int).to_multiset(),
        decreases ids@.len() - i,
    {
        let id = ids[i];
        let mut at: usize = sorted.len();
        while at > 0 && id < sorted[at - 1]
            invariant
                at <= sorted@.len(),
                forall|x: int| at <= x < sorted@.len() ==> id < #[trigger] sorted@[x],
            decreases at,
        {
            at = at - 1;
        }
        let ghost before = sorted@;
        sorted.insert(at, id);
        proof {
            let after = before.insert(at as int, id);
            assert(sorted@ == after);
            assert forall|x: int, y: int| 0 <= x < y < after.len() implies (#[trigger] after[x])
                <= (#[trigger] after[y]) by {
                let fx = if x < at { x } else { x - 1 };
                let fy = if y < at { y } else { y - 1 };
                if x != at {
                    assert(after[x] == before[fx]);
                }
                if y != at {
                    assert(after[y] == before[fy]);
                }
                if y == at && at > 0 && x < at - 1 {
                    assert(before[x] <= before[at - 1]);
                }
            }
            vstd::seq_lib::to_multiset_insert(before, at as int, id);
            assert(ids@.take(i + 1) =~= ids@.take(i as int).push(id));
            vstd::seq_lib::to_multiset_build(ids@.take(i as int), id);
        }
        i = i + 1;
    }
    assert(ids@.take(i as int) =~= ids@);
    sorted
}

impl Id for u32 {
    fn is(&self, other: &Self) -> (same: bool) {
        *self == *other
    }
}

/// The desktops the screens show with their layout modes, each desktop once, by
/// the first screen that shows it.
pub open spec fn modes_shown(screens: Seq<Screen>, modes: Seq<LayoutMode>) -> Seq<
    (SpaceId, LayoutMode),
>
    decreases screens.len(),
{
    if screens.len() == 0 {
        seq![]
    } else {
        let front = modes_shown(screens.drop_last(), modes);
        match screens.last().space {
            Some(space) => if mode_listed(front, space) {
                front
            } else {
                front.push((space, modes[screens.len() - 1]))
            },
            None => front,
        }
    }
}

pub open spec fn mode_listed(modes: Seq<(SpaceId, LayoutMode)>, space: SpaceId) -> bool {
    exists|i: int| 0 <= i < modes.len() && (#[trigger] modes[i]).0 == space
}

/// One of `modes` is not what was last told of its desktop.
pub open spec fn modes_changed(
    modes: Seq<(SpaceId, LayoutMode)>,
    last: Table<SpaceId, LayoutMode>,
) -> bool {
    exists|i: int| 0 <= i < modes.len() && last.at((#[trigger] modes[i]).0) != Some(modes[i].1)
}

/// `table` says of each desktop what `modes` does.
pub open spec fn is_mode_table(
    table: Table<SpaceId, LayoutMode>,
    modes: Seq<(SpaceId, LayoutMode)>,
) -> bool {
    forall|space: SpaceId|
        match #[trigger] table.at(space) {
            Some(mode) => modes.contains((space, mode)),
            None => !mode_listed(modes, space),
        }
}

fn find_modes(screens: &[Screen], modes: &[LayoutMode]) -> (shown: Vec<(SpaceId, LayoutMode)>)
    requires
        modes@.len() == screens@.len(),
    ensures
        shown@ == modes_shown(screens@, modes@),
{
    let mut shown: Vec<(SpaceId, LayoutMode)> = Vec::new();
    let mut i: usize = 0;
    while i < screens.len()
        invariant
            modes@.len() == screens@.len(),
            i <= screens@.len(),
            shown@ == modes_shown(screens@.take(i as int), modes@),
        decreases screens@.len() - i,
    {
        proof {
            assert(screens@.take(i + 1).drop_last() =~= screens@.take(i as int));
            assert(screens@.take(i + 1).last() == screens@[i as int]);
        }
        match screens[i].space {
            Some(space) => {
                let mut listed = false;
                let mut j: usize = 0;
                while j < shown.len()
                    invariant
                        j <= shown@.len(),
                        listed == exists|k: int| 0 <= k < j && (#[trigger] shown@[k]).0 == space,
                    decreases shown@.len() - j,
                {
                    if shown[j].0 == space {
                        assert(shown@[j as int].0 == space);
                        listed = true;
                    }
                    j = j + 1;
                }
                if !listed {
                    shown.push((space, modes[i]));
                }
            },
            None => {},
        }
        i = i + 1;
    }
    assert(screens@.take(i as int) =~= screens@);
    shown
}

fn mode_table(modes: &Vec<(SpaceId, LayoutMode)>) -> (table: Table<SpaceId, LayoutMode>)
    ensures
        table.wf(),
        is_mode_table(table, modes@),
{
    let mut table: Table<SpaceId, LayoutMode> = Table::new();
    let mut i: usize = 0;
    while i < modes.len()
        invariant
            i <= modes@.len(),
            table.wf(),
            is_mode_table(table, modes@.take(i as int)),
        decreases modes@.len() - i,
    {
        let ghost before = table;
        let (space, mode) = modes[i];
        table.insert(space, mode);
        proof {
            let so_far = modes@.take(i as int);
            let next = modes@.take(i + 1);
            assert(next[i as int] == (space, mode));
            assert forall|other: SpaceId|
                match #[trigger] table.at(other) {
                    Some(mode) => next.contains((other, mode)),
                    None => !mode_listed(next, other),
                } by {
                if other != space {
                    assert(table.at(other) == before.at(other));
                    match before.at(other) {
                        Some(mode) => {
                            let k = choose|k: int|
                                0 <= k < so_far.len() && so_far[k] == (other, mode);
                            assert(next[k] == (other, mode));
                        },
                        None => {
                            if mode_listed(next, other) {
                                let k = choose|k: int|
                                    0 <= k < next.len() && (#[trigger] next[k]).0 == other;
                                assert(so_far[k].0 == other);
                            }
                        },
                    }
                } else {
                    assert(next.contains((space, mode)));
                }
            }
        }
        i = i + 1;
    }
    assert(modes@.take(i as int) =~= modes@);
    table
}

impl NotificationManager {
    pub open spec fn wf(&self) -> bool {
        self.last_layout_modes_by_space.wf()
    }

    pub fn new() -> (manager: NotificationManager)
        ensures
            manager.wf(),
            manager.last_sls_notification_ids@.len() == 0,
            manager.last_layout_modes_by_space@ == Map::<SpaceId, LayoutMode>::empty(),
    {
        NotificationManager {
            last_sls_notification_ids: Vec::new(),
            last_layout_modes_by_space: Table::new(),
        }
    }

    /// The windows to be notified of are `followed`. Whether that is news, so
    /// that the system is told, is returned; they are kept in order.
    pub fn update_window_notifications(&mut self, followed: &[u32]) -> (changed: bool)
        ensures
            ascending(final(self).last_sls_notification_ids@) || !changed,
            changed ==> final(self).last_sls_notification_ids@.to_multiset()
                == followed@.to_multiset() && final(self).last_sls_notification_ids@
                    != old(self).last_sls_notification_ids@,
            !changed ==> *final(self) == *old(self) && ascending(
                old(self).last_sls_notification_ids@,
            ) && old(self).last_sls_notification_ids@.to_multiset() == followed@.to_multiset(),
            final(self).last_layout_modes_by_space == old(self).last_layout_modes_by_space,
    {
        let ids = sort_ids(followed);
        if same_list(ids.as_slice(), self.last_sls_notification_ids.as_slice()) {
            return false;
        }
        self.last_sls_notification_ids = ids;
        true
    }

    /// The screens show desktops in `modes`, one for each screen. What is to be
    /// told of them, if it is another thing than was told last, is returned.
    pub fn update_layout_modes(&mut self, screens: &[Screen], modes: &[LayoutMode]) -> (told: Option<
        Vec<(SpaceId, LayoutMode)>,
    >)
        requires
            old(self).wf(),
            modes@.len() == screens@.len(),
        ensures
            final(self).wf(),
            final(self).last_sls_notification_ids == old(self).last_sls_notification_ids,
            ({
                let shown = modes_shown(screens@, modes@);
                let last = old(self).last_layout_modes_by_space;
                if shown.len() == 0 || (!modes_changed(shown, last) && shown.len()
                    == last.entries@.len()) {
                    told is None && *final(self) == *old(self)
                } else {
                    &&& told matches Some(told) && told@ == shown
                    &&& is_mode_table(final(self).last_layout_modes_by_space, shown)
                }
            }),
    {
        let shown = find_modes(screens, modes);
        let mut changed = false;
        let mut i: usize = 0;
        while i < shown.len()
            invariant
                self.wf(),
                *self == *old(self),
                i <= shown@.len(),
                changed == exists|j: int|
                    0 <= j < i && self.last_layout_modes_by_space.at((#[trigger] shown@[j]).0)
                        != Some(shown@[j].1),
            decreases shown@.len() - i,
        {
            let (space, mode) = shown[i];
            let same = match self.last_layout_modes_by_space.get(&space) {
                Some(last) => *last == mode,
                None => false,
            };
            if !same {
                assert(self.last_layout_modes_by_space.at(shown@[i as int].0) != Some(
                    shown@[i as int].1,
                ));
                changed = true;
            }
            i = i + 1;
        }
        if shown.len() == 0 || (!changed && shown.len()
            == self.last_layout_modes_by_space.entries.len()) {
            return None;
        }
        self.last_layout_modes_by_space = mode_table(&shown);
        Some(shown)
    }
}

/// Refreshes are blocked while asleep, while another session is active and while
/// displays come and go, and otherwise not; the strongest of these is the state.
pub proof fn what_blocks_refreshes(quarantine: RefreshQuarantineManager)
    ensures
        quarantine.blocks_refreshes() <==> quarantine.sleeping || quarantine.session_inactive
            || quarantine.display_churn_active,
        quarantine.sleeping ==> quarantine.state() == RefreshQuarantineState::Sleeping,
        !quarantine.sleeping && quarantine.session_inactive ==> quarantine.state()
            == RefreshQuarantineState::SessionInactive,
        !quarantine.sleeping && !quarantine.session_inactive && quarantine.display_churn_active
            ==> quarantine.state() == RefreshQuarantineState::DisplayChurn,
        !quarantine.sleeping && !quarantine.session_inactive && !quarantine.display_churn_active
            ==> quarantine.state() == RefreshQuarantineState::Ready,
{
}

/// A refresh that was put off is handed out once nothing blocks it, once, and not
/// before.
pub proof fn when_a_deferred_refresh_is_due(quarantine: RefreshQuarantineManager)
    ensures
        quarantine.sleeping || quarantine.session_inactive || quarantine.display_churn_active
            ==> quarantine.flushed() == (quarantine, false),
        !quarantine.sleeping && !quarantine.session_inactive && !quarantine.display_churn_active
            ==> quarantine.flushed().1 == quarantine.pending_inventory_refresh
            && !quarantine.flushed().0.pending_inventory_refresh
            && !quarantine.flushed().0.blocks_refreshes() && !quarantine.flushed().0.flushed().1,
        quarantine.flushed().0.suppress_auto_workspace_switch_until_input
            == quarantine.suppress_auto_workspace_switch_until_input,
        quarantine.flushed().0.awaiting_post_wake_snapshot
            == quarantine.awaiting_post_wake_snapshot,
{
}

/// Sleep and another session block until a report that was taken after a wake or an
/// unlock; a report before that ends neither, and none ends a churn.
pub proof fn what_a_report_ends(quarantine: RefreshQuarantineManager)
    ensures
        quarantine.awaiting_post_wake_snapshot ==> !quarantine.released().sleeping,
        !quarantine.awaiting_post_wake_snapshot ==> quarantine.released().sleeping
            == quarantine.sleeping,
        quarantine.awaiting_post_session_snapshot ==> !quarantine.released().session_inactive,
        !quarantine.awaiting_post_session_snapshot ==> quarantine.released().session_inactive
            == quarantine.session_inactive,
        !quarantine.released().awaiting_post_wake_snapshot
            && !quarantine.released().awaiting_post_session_snapshot,
        quarantine.released().display_churn_active == quarantine.display_churn_active,
        quarantine.released().pending_inventory_refresh == quarantine.pending_inventory_refresh,
        quarantine.released().suppress_auto_workspace_switch_until_input
            == quarantine.suppress_auto_workspace_switch_until_input,
{
}

/// Sleep, a session's end and a churn block refreshes and make none due; a wake and an
/// unlock block them until the next report, put a refresh off, and keep the workspace
/// from following; the end of a churn makes one due where nothing else blocks it. What
/// an event is not about stays.
pub proof fn what_a_lifecycle_event_does(before: RefreshQuarantineManager)
    ensures
        ({
            let (after, due) = after_lifecycle(before, Lifecycle::WillSleep);
            !due && after.sleeping && !after.awaiting_post_wake_snapshot && after.session_inactive
                == before.session_inactive && after.pending_inventory_refresh
                == before.pending_inventory_refresh && after.display_churn_active
                == before.display_churn_active
                && after.suppress_auto_workspace_switch_until_input
                == before.suppress_auto_workspace_switch_until_input
        }),
        ({
            let (after, due) = after_lifecycle(before, Lifecycle::Woke);
            !due && after.sleeping && after.awaiting_post_wake_snapshot
                && after.suppress_auto_workspace_switch_until_input
                && after.pending_inventory_refresh && after.session_inactive
                == before.session_inactive && after.display_churn_active
                == before.display_churn_active
        }),
        ({
            let (after, due) = after_lifecycle(before, Lifecycle::SessionResigned);
            !due && after.session_inactive && !after.awaiting_post_session_snapshot
                && after.sleeping == before.sleeping && after.pending_inventory_refresh
                == before.pending_inventory_refresh && after.display_churn_active
                == before.display_churn_active
                && after.suppress_auto_workspace_switch_until_input
                == before.suppress_auto_workspace_switch_until_input
        }),
        ({
            let (after, due) = after_lifecycle(before, Lifecycle::SessionBecameActive);
            !due && after.session_inactive && after.awaiting_post_session_snapshot
                && after.suppress_auto_workspace_switch_until_input
                && after.pending_inventory_refresh && after.sleeping == before.sleeping
                && after.display_churn_active == before.display_churn_active
        }),
        ({
            let (after, due) = after_lifecycle(before, Lifecycle::ChurnBegan);
            !due && after.display_churn_active && after.sleeping == before.sleeping
                && after.session_inactive == before.session_inactive
                && after.pending_inventory_refresh == before.pending_inventory_refresh
        }),
        ({
            let (after, due) = after_lifecycle(before, Lifecycle::ChurnEnded);
            !after.display_churn_active && due == (!before.sleeping && !before.session_inactive)
                && after.pending_inventory_refresh == (before.sleeping || before.session_inactive)
                && after.sleeping == before.sleeping && after.session_inactive
                == before.session_inactive
        }),
{
}

/// Numbers go up by one, and from the last to the first.
pub proof fn numbers_go_round(n: u64)
    ensures
        n < u64::MAX ==> next_number(n) == n + 1,
        next_number(u64::MAX) == 0,
        next_number(n) != n,
{
}

/// An application is asked for its windows if nothing blocks, it is known and no answer
/// of its is to come, and the request is a new one of this topology; else the asking is
/// put off, or, of an application that is not known, dropped.
pub proof fn when_an_application_is_asked(
    before: WindowInventoryManager,
    after: WindowInventoryManager,
    pid: Pid,
    blocked: bool,
    known: bool,
    token: Option<WindowInventoryToken>,
)
    requires
        before.asked(after, pid, blocked, known, token),
    ensures
        token is Some <==> !blocked && known && before.in_flight.at(pid) is None,
        token is Some ==> token->0.topology_revision == before.topology_revision
            && token->0.request_id == next_number(before.next_request_id)
            && after.next_request_id == token->0.request_id,
        blocked || before.in_flight.at(pid) is Some ==> after.pending@.contains(pid),
        !blocked && before.in_flight.at(pid) is None && !known ==> !after.pending@.contains(pid),
        after.in_flight == before.in_flight,
        after.topology_revision == before.topology_revision,
{
}

/// An answer is taken if it was asked for, whole, of this topology, and nothing blocks;
/// one that was asked for and cannot be taken for being out of date or blocked is asked
/// for again, and so is any that was asked for anew meanwhile.
pub proof fn what_becomes_of_an_answer(
    manager: WindowInventoryManager,
    pid: Pid,
    token: WindowInventoryToken,
    successful: bool,
    blocked: bool,
)
    ensures
        manager.in_flight.at(pid) != Some(token) ==> !manager.accepts(
            pid,
            token,
            successful,
            blocked,
        ) && !manager.asks_again(pid, token, successful, blocked),
        manager.in_flight.at(pid) == Some(token) && successful && !blocked
            && token.topology_revision == manager.topology_revision ==> manager.accepts(
            pid,
            token,
            successful,
            blocked,
        ) && manager.asks_again(pid, token, successful, blocked) == manager.pending@.contains(pid),
        manager.in_flight.at(pid) == Some(token) && successful && (blocked
            || token.topology_revision != manager.topology_revision) ==> !manager.accepts(
            pid,
            token,
            successful,
            blocked,
        ) && manager.asks_again(pid, token, successful, blocked),
        manager.in_flight.at(pid) == Some(token) && !successful ==> !manager.accepts(
            pid,
            token,
            successful,
            blocked,
        ) && manager.asks_again(pid, token, successful, blocked) == manager.pending@.contains(pid),
{
}

/// Of an application that is gone nothing is expected, and what is expected of others
/// stays.
pub proof fn what_is_expected_of_an_application_that_is_gone(
    before: WindowInventoryManager,
    after: WindowInventoryManager,
    pid: Pid,
    other: Pid,
)
    requires
        before.forgotten(after, pid),
        other != pid,
    ensures
        after.in_flight.at(pid) is None,
        !after.pending@.contains(pid),
        after.refocus_after_refresh.at(pid) is None,
        after.in_flight.at(other) == before.in_flight.at(other),
        after.pending@.contains(other) == before.pending@.contains(other),
        after.refocus_after_refresh.at(other) == before.refocus_after_refresh.at(other),
{
}

/// One more screen adds the desktop it shows with its mode, if no screen before it shows
/// that one.
pub proof fn which_modes_are_shown(screens: Seq<Screen>, modes: Seq<LayoutMode>, screen: Screen)
    requires
        screens.len() < modes.len(),
    ensures
        modes_shown(Seq::empty(), modes).len() == 0,
        ({
            let before = modes_shown(screens, modes);
            let after = modes_shown(screens.push(screen), modes);
            let seen = exists|i: int|
                0 <= i < before.len() && Some((#[trigger] before[i]).0) == screen.space;
            &&& screen.space is None || seen ==> after == before
            &&& screen.space is Some && !seen ==> after == before.push(
                (screen.space->0, modes[screens.len() as int]),
            )
        }),
{
    assert(screens.push(screen).drop_last() =~= screens);
}

/// What is told of modes is news if a desktop has another mode than was told last, or was
/// not told of.
pub proof fn when_modes_are_news(
    modes: Seq<(SpaceId, LayoutMode)>,
    last: Table<SpaceId, LayoutMode>,
    i: int,
)
    ensures
        0 <= i < modes.len() && last.at(modes[i].0) is None ==> modes_changed(modes, last),
        0 <= i < modes.len() && last.at(modes[i].0) is Some && last.at(modes[i].0)->0 != modes[i].1
            ==> modes_changed(modes, last),
        (forall|k: int|
            0 <= k < modes.len() ==> last.at((#[trigger] modes[k]).0) == Some(modes[k].1))
            ==> !modes_changed(modes, last),
{
}

/// A table of modes has those that were told, of the desktops they were told of, and no
/// others.
pub proof fn what_a_table_of_modes_says(
    table: Table<SpaceId, LayoutMode>,
    modes: Seq<(SpaceId, LayoutMode)>,
    i: int,
    space: SpaceId,
)
    requires
        is_mode_table(table, modes),
    ensures
        0 <= i < modes.len() ==> table.at(modes[i].0) is Some,
        table.at(space) is Some ==> modes.contains((space, table.at(space)->0)),
        (forall|k: int| 0 <= k < modes.len() ==> (#[trigger] modes[k]).0 != space) ==> table.at(
            space,
        ) is None,
{
    if 0 <= i < modes.len() && table.at(modes[i].0) is None {
        assert(mode_listed(modes, modes[i].0));
    }
    if table.at(space) is Some {
        assert(modes.contains((space, table.at(space)->0)));
    }
}

/// A sleep and a session are waited for apart, and a change of displays touches neither;
/// nor does it drive workspace switches.
pub proof fn what_a_lifecycle_event_leaves(before: RefreshQuarantineManager)
    ensures
        after_lifecycle(before, Lifecycle::WillSleep).0.awaiting_post_session_snapshot
            == before.awaiting_post_session_snapshot,
        after_lifecycle(before, Lifecycle::Woke).0.awaiting_post_session_snapshot
            == before.awaiting_post_session_snapshot,
        after_lifecycle(before, Lifecycle::SessionResigned).0.awaiting_post_wake_snapshot
            == before.awaiting_post_wake_snapshot,
        after_lifecycle(before, Lifecycle::SessionBecameActive).0.awaiting_post_wake_snapshot
            == before.awaiting_post_wake_snapshot,
        ({
            let after = after_lifecycle(before, Lifecycle::ChurnBegan).0;
            after.awaiting_post_wake_snapshot == before.awaiting_post_wake_snapshot
                && after.awaiting_post_session_snapshot == before.awaiting_post_session_snapshot
                && after.suppress_auto_workspace_switch_until_input
                == before.suppress_auto_workspace_switch_until_input
        }),
        ({
            let after = after_lifecycle(before, Lifecycle::ChurnEnded).0;
            after.awaiting_post_wake_snapshot == before.awaiting_post_wake_snapshot
                && after.awaiting_post_session_snapshot == before.awaiting_post_session_snapshot
                && after.suppress_auto_workspace_switch_until_input
                == before.suppress_auto_workspace_switch_until_input
        }),
{
}

/// An application is expected to answer if and only if a request to it is in flight.
pub proof fn who_is_expected_to_answer(inventories: WindowInventoryManager, pid: Pid)
    ensures
        pids_in(inventories.in_flight).contains(pid) <==> inventories.in_flight.at(pid) is Some,
{
}

/// Numbers in order have the smallest first and the largest last.
pub proof fn what_order_numbers_have(ids: Seq<u32>, i: int)
    requires
        ascending(ids),
        0 <= i < ids.len(),
    ensures
        ids[0] <= ids[i],
        ids[i] <= ids.last(),
{
    if i > 0 {
        assert(ids[0] <= ids[i]);
    }
    if i < ids.len() - 1 {
        assert(ids[i] <= ids[ids.len() - 1]);
    }
}

} // verus!
