//! Taking in which windows are on which desktops, and telling of it.

use vstd::prelude::*;

use crate::drag::first_of;
use crate::ids::{Pid, SpaceId, WindowId, WindowServerId};
use crate::lists::IdSet;
use crate::managers::{AppManager, AppState, RefreshQuarantineManager};

verus! {

/// A window that the window server has on an active desktop.
#[derive(Clone, Copy, Debug, PartialEq, Eq, Structural)]
pub struct Observed {
    /// The window of that number, if it is known.
    pub window: Option<WindowId>,
    /// The desktop that is on file for it.
    pub filed: Option<SpaceId>,
    /// The desktop it was seen on.
    pub seen: Option<SpaceId>,
}

/// A window and the desktop it belongs to.
#[derive(Clone, Copy, Debug, PartialEq, Eq, Structural)]
pub struct Belongs {
    pub window: WindowId,
    pub space: SpaceId,
}

/// A known window belongs to the desktop that is on file for it, else to the one
/// it was seen on.
pub open spec fn belonging() -> spec_fn(Observed) -> Option<Belongs> {
    |observed: Observed|
        match (observed.window, first_of(observed.filed, observed.seen)) {
            (Some(window), Some(space)) => Some(Belongs { window, space }),
            _ => None,
        }
}

/// Where the windows of a snapshot belong. While refreshes are blocked that is
/// put off.
pub fn reconcile_windows_in_snapshot(
    quarantine: &mut RefreshQuarantineManager,
    observed: &[Observed],
) -> (windows: Option<Vec<Belongs>>)
    ensures
        if old(quarantine).blocks_refreshes() {
            windows is None && *final(quarantine) == (RefreshQuarantineManager {
                pending_inventory_refresh: true,
                ..*old(quarantine)
            })
        } else {
            windows is Some && windows->0@ == observed@.filter_map(belonging())
                && *final(quarantine) == *old(quarantine)
        },
{
    if quarantine.blocks_refreshes() {
        quarantine.pending_inventory_refresh = true;
        return None;
    }
    let ghost f = belonging();
    let mut windows: Vec<Belongs> = Vec::new();
    let mut i: usize = 0;
    while i < observed.len()
        invariant
            f == belonging(),
            i <= observed@.len(),
            windows@ == observed@.take(i as int).filter_map(f),
        decreases observed@.len() - i,
    {
        proof {
            observed@.lemma_filter_map_take_succ(f, i as int);
        }
        let space = match observed[i].filed {
            Some(space) => Some(space),
            None => observed[i].seen,
        };
        match (observed[i].window, space) {
            (Some(window), Some(space)) => {
                windows.push(Belongs { window, space });
            },
            _ => {},
        }
        assert(windows@ =~= observed@.take(i + 1).filter_map(f));
        i = i + 1;
    }
    assert(observed@.take(i as int) =~= observed@);
    Some(windows)
}

/// A window that may wait for a write on a hidden desktop.
#[derive(Clone, Copy, Debug, PartialEq, Eq, Structural)]
pub struct HiddenWindow {
    /// It is kept on a desktop that is not shown.
    pub hidden: bool,
    pub sys_id: Option<WindowServerId>,
}

/// The number of a window on a hidden desktop.
pub open spec fn hidden_number() -> spec_fn(HiddenWindow) -> Option<WindowServerId> {
    |window: HiddenWindow|
        if window.hidden {
            window.sys_id
        } else {
            None
        }
}

/// The windows whose awaited frames are forgotten: those on hidden desktops.
pub fn pending_hidden_targets(windows: &[HiddenWindow]) -> (numbers: Vec<WindowServerId>)
    ensures
        numbers@ == windows@.filter_map(hidden_number()),
{
    let ghost f = hidden_number();
    let mut numbers: Vec<WindowServerId> = Vec::new();
    let mut i: usize = 0;
    while i < windows.len()
        invariant
            f == hidden_number(),
            i <= windows@.len(),
            numbers@ == windows@.take(i as int).filter_map(f),
        decreases windows@.len() - i,
    {
        proof {
            windows@.lemma_filter_map_take_succ(f, i as int);
        }
        if windows[i].hidden {
            match windows[i].sys_id {
                Some(number) => {
                    numbers.push(number);
                },
                None => {},
            }
        }
        assert(numbers@ =~= windows@.take(i + 1).filter_map(f));
        i = i + 1;
    }
    assert(windows@.take(i as int) =~= windows@);
    numbers
}

/// A window on a desktop, as the rules look at it.
#[derive(Clone, Copy, Debug, PartialEq, Eq, Structural)]
pub struct RuledWindow {
    pub space: SpaceId,
    /// The window of that number, if it is known.
    pub window: Option<WindowId>,
    /// Whether it takes part may still be decided.
    pub reconciles: bool,
}

/// A window of this application that the rules are applied to because its
/// desktop became active.
pub open spec fn ruled_for(activated: Seq<SpaceId>, pid: Pid) -> spec_fn(RuledWindow) -> Option<
    WindowId,
> {
    |ruled: RuledWindow|
        if activated.contains(ruled.space) && ruled.reconciles && ruled.window is Some
            && ruled.window->0.pid == pid {
            ruled.window
        } else {
            None
        }
}

/// The windows of an application that the rules are applied to because their
/// desktops became active.
pub fn windows_for_activated_spaces(
    windows: &[RuledWindow],
    activated: &[SpaceId],
    pid: Pid,
) -> (ruled: Vec<WindowId>)
    ensures
        ruled@ == windows@.filter_map(ruled_for(activated@, pid)),
{
    let ghost f = ruled_for(activated@, pid);
    let mut ruled: Vec<WindowId> = Vec::new();
    let mut i: usize = 0;
    while i < windows.len()
        invariant
            f == ruled_for(activated@, pid),
            i <= windows@.len(),
            ruled@ == windows@.take(i as int).filter_map(f),
        decreases windows@.len() - i,
    {
        proof {
            windows@.lemma_filter_map_take_succ(f, i as int);
        }
        if windows[i].reconciles && crate::lists::holds(activated, windows[i].space) {
            match windows[i].window {
                Some(window) => {
                    if window.pid == pid {
                        ruled.push(window);
                    }
                },
                None => {},
            }
        }
        assert(ruled@ =~= windows@.take(i + 1).filter_map(f));
        i = i + 1;
    }
    assert(windows@.take(i as int) =~= windows@);
    ruled
}

/// An application with windows that the rules are applied to.
#[derive(Debug)]
pub struct RuledApp {
    pub pid: Pid,
    pub windows: Vec<WindowId>,
}

/// The windows of each application that the rules are applied to because their
/// desktops became active, for the applications with any.
pub open spec fn ruled_apps(
    apps: Seq<(Pid, AppState)>,
    windows: Seq<RuledWindow>,
    activated: Seq<SpaceId>,
) -> Seq<(Pid, Seq<WindowId>)>
    decreases apps.len(),
{
    if apps.len() == 0 {
        Seq::empty()
    } else {
        let before = ruled_apps(apps.drop_last(), windows, activated);
        let pid = apps.last().0;
        let own = windows.filter_map(ruled_for(activated, pid));
        if own.len() > 0 {
            before.push((pid, own))
        } else {
            before
        }
    }
}

/// The applications with windows that the rules are applied to because desktops
/// became active, in the order in which they are known, with those windows.
pub fn apply_app_rules_for_activated_spaces(
    apps: &AppManager,
    windows: &[RuledWindow],
    activated: &[SpaceId],
) -> (ruled: Vec<RuledApp>)
    ensures
        ruled@.map_values(|app: RuledApp| (app.pid, app.windows@)) == ruled_apps(
            apps.apps.entries@,
            windows@,
            activated@,
        ),
{
    let ghost entries = apps.apps.entries@;
    let ghost says = |app: RuledApp| (app.pid, app.windows@);
    let mut ruled: Vec<RuledApp> = Vec::new();
    let mut i: usize = 0;
    assert(ruled@.map_values(says) =~= Seq::<(Pid, Seq<WindowId>)>::empty());
    while i < apps.apps.entries.len()
        invariant
            entries == apps.apps.entries@,
            says == (|app: RuledApp| (app.pid, app.windows@)),
            i <= entries.len(),
            ruled@.map_values(says) == ruled_apps(entries.take(i as int), windows@, activated@),
        decreases entries.len() - i,
    {
        let pid = apps.apps.entries[i].0;
        let ghost before = ruled@;
        let ghost next = entries.take(i + 1);
        assert(next.drop_last() =~= entries.take(i as int));
        let own = windows_for_activated_spaces(windows, activated, pid);
        if own.len() > 0 {
            let app = RuledApp { pid, windows: own };
            ruled.push(app);
            assert(ruled@.map_values(says) =~= before.map_values(says).push(says(app)));
        }
        i = i + 1;
    }
    assert(entries.take(i as int) =~= entries);
    ruled
}

/// What a report of the window server changes of a window.
#[derive(Clone, Copy, Debug, PartialEq, Eq, Structural)]
pub struct ServerUpdate {
    /// Its frame is taken.
    pub take_frame: bool,
    /// It takes no part any longer, and leaves its layout.
    pub remove: bool,
}

/// What a report of the window server changes of a window that is known: the
/// frame of an ordinary one is taken, and one that no longer qualifies leaves.
pub fn server_update(known: bool, layer: i32, was_admitted: bool, is_admitted: bool) -> (update:
    ServerUpdate)
    ensures
        update == (ServerUpdate {
            take_frame: known && layer == 0,
            remove: known && was_admitted && !is_admitted,
        }),
{
    ServerUpdate {
        take_frame: known && layer == 0,
        remove: known && was_admitted && !is_admitted,
    }
}

/// Whether the frame that the window server has for a float is taken. An empty
/// one is the absence of a frame.
pub fn takes_live_frame(has_area: bool, known: bool, differs: bool) -> (takes: bool)
    ensures
        takes == (has_area && known && differs),
{
    has_area && known && differs
}

/// The desktop that listeners are told of after desktops changed: the one that
/// commands are for, else the first shown on which the manager is active.
pub open spec fn first_active(spaces: Seq<Option<SpaceId>>, active: Set<SpaceId>) -> Option<SpaceId>
    decreases spaces.len(),
{
    if spaces.len() == 0 {
        None
    } else if spaces[0] is Some && active.contains(spaces[0]->0) {
        spaces[0]
    } else {
        first_active(spaces.skip(1), active)
    }
}

/// The desktop that listeners are told of after desktops changed.
pub fn space_to_announce(
    command_space: Option<SpaceId>,
    spaces: &[Option<SpaceId>],
    active: &IdSet<SpaceId>,
) -> (space: Option<SpaceId>)
    requires
        active.wf(),
    ensures
        space == first_of(command_space, first_active(spaces@, active@)),
{
    if command_space.is_some() {
        return command_space;
    }
    let mut i: usize = 0;
    assert(spaces@.skip(0) =~= spaces@);
    while i < spaces.len()
        invariant
            active.wf(),
            command_space is None,
            i <= spaces@.len(),
            first_active(spaces@, active@) == first_active(spaces@.skip(i as int), active@),
        decreases spaces@.len() - i,
    {
        match spaces[i] {
            Some(space) => {
                if active.contains(space) {
                    return Some(space);
                }
            },
            None => {},
        }
        assert(spaces@.skip(i as int).skip(1) =~= spaces@.skip(i + 1));
        i = i + 1;
    }
    None
}

/// Whether listeners are told of a window or a layout: its desktop is one on
/// which the manager is active, with an active workspace.
pub fn announces(
    space: Option<SpaceId>,
    active: &IdSet<SpaceId>,
    has_workspace: bool,
    changed: bool,
) -> (announces: bool)
    requires
        active.wf(),
    ensures
        announces == (changed && has_workspace && (space matches Some(space) && active@.contains(
            space,
        ))),
{
    match space {
        Some(space) => changed && has_workspace && active.contains(space),
        None => false,
    }
}

/// One more window that was observed belongs to the desktop on file for it, else to
/// the one it was seen on; one that is not known, or of which neither is known,
/// belongs nowhere.
pub proof fn where_an_observed_window_belongs(observed: Seq<Observed>, one: Observed)
    ensures
        Seq::<Observed>::empty().filter_map(belonging()) == Seq::<Belongs>::empty(),
        one.window is Some && one.filed is Some ==> observed.push(one).filter_map(belonging())
            == observed.filter_map(belonging()).push(
            Belongs { window: one.window->0, space: one.filed->0 },
        ),
        one.window is Some && one.filed is None && one.seen is Some ==> observed.push(
            one,
        ).filter_map(belonging()) == observed.filter_map(belonging()).push(
            Belongs { window: one.window->0, space: one.seen->0 },
        ),
        one.window is None || (one.filed is None && one.seen is None) ==> observed.push(
            one,
        ).filter_map(belonging()) == observed.filter_map(belonging()),
{
    crate::lists::lemma_filter_map_push(observed, one, belonging());
}

/// One more window adds its number to those whose frames are awaited no longer, if
/// it is hidden and has one.
pub proof fn whose_frames_are_forgotten(windows: Seq<HiddenWindow>, one: HiddenWindow)
    ensures
        Seq::<HiddenWindow>::empty().filter_map(hidden_number()) == Seq::<WindowServerId>::empty(),
        one.hidden && one.sys_id is Some ==> windows.push(one).filter_map(hidden_number())
            == windows.filter_map(hidden_number()).push(one.sys_id->0),
        !one.hidden || one.sys_id is None ==> windows.push(one).filter_map(hidden_number())
            == windows.filter_map(hidden_number()),
{
    crate::lists::lemma_filter_map_push(windows, one, hidden_number());
}

/// One more window is looked at by the rules if it is the application's, known, may
/// still be decided on, and on a desktop that became active.
pub proof fn what_the_rules_look_at(
    windows: Seq<RuledWindow>,
    one: RuledWindow,
    activated: Seq<SpaceId>,
    pid: Pid,
)
    ensures
        Seq::<RuledWindow>::empty().filter_map(ruled_for(activated, pid))
            == Seq::<WindowId>::empty(),
        activated.contains(one.space) && one.reconciles && (one.window matches Some(window)
            && window.pid == pid) ==> windows.push(one).filter_map(ruled_for(activated, pid))
            == windows.filter_map(ruled_for(activated, pid)).push(one.window->0),
        !activated.contains(one.space) || !one.reconciles || one.window is None
            || one.window->0.pid != pid ==> windows.push(one).filter_map(ruled_for(activated, pid))
            == windows.filter_map(ruled_for(activated, pid)),
{
    crate::lists::lemma_filter_map_push(windows, one, ruled_for(activated, pid));
}

/// An application is among those that the rules are applied to, with all its
/// windows, if and only if one of its windows is looked at.
pub proof fn which_applications_the_rules_look_at(
    apps: Seq<(Pid, AppState)>,
    app: (Pid, AppState),
    windows: Seq<RuledWindow>,
    activated: Seq<SpaceId>,
)
    ensures
        ruled_apps(Seq::empty(), windows, activated).len() == 0,
        ({
            let looked_at = exists|i: int|
                #![trigger windows[i]]
                0 <= i < windows.len() && activated.contains(windows[i].space)
                    && windows[i].reconciles && (windows[i].window matches Some(window)
                    && window.pid == app.0);
            let before = ruled_apps(apps, windows, activated);
            let after = ruled_apps(apps.push(app), windows, activated);
            &&& looked_at ==> after == before.push(
                (app.0, windows.filter_map(ruled_for(activated, app.0))),
            )
            &&& !looked_at ==> after == before
        }),
{
    let f = ruled_for(activated, app.0);
    let own = windows.filter_map(f);
    assert(apps.push(app).drop_last() =~= apps);
    if exists|i: int|
        #![trigger windows[i]]
        0 <= i < windows.len() && activated.contains(windows[i].space) && windows[i].reconciles && (
        windows[i].window matches Some(window) && window.pid == app.0) {
        let i = choose|i: int|
            #![trigger windows[i]]
            0 <= i < windows.len() && activated.contains(windows[i].space) && windows[i].reconciles
                && (windows[i].window matches Some(window) && window.pid == app.0);
        crate::lists::lemma_filter_map_holds(windows, f, windows[i].window->0);
        assert(f(windows[i]) == Some(windows[i].window->0));
        assert(own.contains(windows[i].window->0));
    } else if own.len() > 0 {
        crate::lists::lemma_filter_map_holds(windows, f, own[0]);
        assert(own.contains(own[0]));
        let i = choose|i: int| 0 <= i < windows.len() && f(#[trigger] windows[i]) == Some(own[0]);
        assert(activated.contains(windows[i].space));
    }
}

/// The first desktop on which the manager is active is announced where commands are
/// for none.
pub proof fn which_desktop_is_announced(spaces: Seq<Option<SpaceId>>, active: Set<SpaceId>, at: int)
    requires
        0 <= at <= spaces.len(),
        at < spaces.len() ==> spaces[at] is Some && active.contains(spaces[at]->0),
        forall|i: int|
            0 <= i < at ==> (#[trigger] spaces[i]) is None || !active.contains(spaces[i]->0),
    ensures
        at < spaces.len() ==> first_active(spaces, active) == spaces[at],
        at == spaces.len() ==> first_active(spaces, active) is None,
    decreases spaces.len(),
{
    if at > 0 {
        let rest = spaces.skip(1);
        assert(spaces[0] is None || !active.contains(spaces[0]->0));
        assert forall|i: int| 0 <= i < at - 1 implies (#[trigger] rest[i]) is None
            || !active.contains(rest[i]->0) by {
            assert(rest[i] == spaces[i + 1]);
        }
        which_desktop_is_announced(rest, active, at - 1);
    }
}

} // verus!
