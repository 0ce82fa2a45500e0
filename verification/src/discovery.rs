//! Windows that applications say they have, and the rules applied to them.

use vstd::prelude::*;

use crate::ids::{Pid, SpaceId, WindowId, WindowServerId};
use crate::lists::{dedup, deduped, append_list, copy_list, holds, IdSet};
use crate::reports::LayoutEvent;
use crate::screens::Screen;

verus! {

/// A window that is known when an application has answered.
#[derive(Clone, Copy, Debug, PartialEq, Eq, Structural)]
pub struct KnownWindow {
    pub wid: WindowId,
    pub sys_id: Option<WindowServerId>,
    /// The desktop it counts as being on.
    pub authoritative: Option<SpaceId>,
    /// The desktop it goes on, as a discovered window.
    pub discovery: Option<SpaceId>,
}

/// A window that the application has said it has.
#[derive(Clone, Copy, Debug, PartialEq, Eq, Structural)]
pub struct NewWindow {
    pub wid: WindowId,
    /// The known window under the same number with the window server: the
    /// application can give a window another identity while it stays the same.
    pub known_as: Option<WindowId>,
}

/// A window of `pid` on a desktop that is not active.
pub open spec fn on_inactive_space(pid: Pid, active: Set<SpaceId>) -> spec_fn(KnownWindow) -> Option<
    WindowId,
> {
    |window: KnownWindow|
        if window.wid.pid == pid && (window.authoritative matches Some(space) && !active.contains(
            space,
        )) {
            Some(window.wid)
        } else {
            None
        }
}

/// The known window that a new one is.
pub open spec fn known_identity() -> spec_fn(NewWindow) -> Option<WindowId> {
    |window: NewWindow| window.known_as
}

/// The windows that are taken to have been seen: those the application said are
/// visible, and those that new ones are under another identity.
pub open spec fn seen_windows(known_visible: Seq<WindowId>, new: Seq<NewWindow>) -> Seq<WindowId> {
    known_visible + new.filter_map(known_identity())
}

/// A window of `pid` that was not seen, by the window server's number: only such
/// a one can be gone.
pub open spec fn not_seen(pid: Pid, seen: Seq<WindowId>) -> spec_fn(KnownWindow) -> Option<
    WindowServerId,
> {
    |window: KnownWindow|
        if window.wid.pid == pid && !seen.contains(window.wid) {
            window.sys_id
        } else {
            None
        }
}

/// What is to be found out about the windows of an application that answered.
#[derive(Debug)]
pub struct CleanupPlan {
    /// Its windows on desktops that are not active.
    pub inactive: Vec<WindowId>,
    /// Its windows that were seen.
    pub seen: Vec<WindowId>,
    /// The windows to ask the window server about.
    pub ask: Vec<WindowServerId>,
}

/// What is to be found out about the windows of an application that answered.
pub fn plan_stale_cleanup(
    pid: Pid,
    windows: &[KnownWindow],
    new: &[NewWindow],
    known_visible: &[WindowId],
    active: &IdSet<SpaceId>,
) -> (plan: CleanupPlan)
    ensures
        plan.inactive@ == windows@.filter_map(on_inactive_space(pid, active@)),
        plan.seen@ == seen_windows(known_visible@, new@),
        plan.ask@ == windows@.filter_map(not_seen(pid, plan.seen@)),
{
    let ghost f = on_inactive_space(pid, active@);
    let mut inactive: Vec<WindowId> = Vec::new();
    let mut i: usize = 0;
    while i < windows.len()
        invariant
            f == on_inactive_space(pid, active@),
            i <= windows@.len(),
            inactive@ == windows@.take(i as int).filter_map(f),
        decreases windows@.len() - i,
    {
        proof {
            windows@.lemma_filter_map_take_succ(f, i as int);
        }
        let away = match windows[i].authoritative {
            Some(space) => !active.contains(space),
            None => false,
        };
        if windows[i].wid.pid == pid && away {
            inactive.push(windows[i].wid);
        }
        assert(inactive@ =~= windows@.take(i + 1).filter_map(f));
        i = i + 1;
    }
    assert(windows@.take(i as int) =~= windows@);
    let ghost g = known_identity();
    let mut identities: Vec<WindowId> = Vec::new();
    let mut i: usize = 0;
    while i < new.len()
        invariant
            g == known_identity(),
            i <= new@.len(),
            identities@ == new@.take(i as int).filter_map(g),
        decreases new@.len() - i,
    {
        proof {
            new@.lemma_filter_map_take_succ(g, i as int);
        }
        match new[i].known_as {
            Some(wid) => {
                identities.push(wid);
            },
            None => {},
        }
        assert(identities@ =~= new@.take(i + 1).filter_map(g));
        i = i + 1;
    }
    assert(new@.take(i as int) =~= new@);
    let mut seen = copy_list(known_visible);
    append_list(&mut seen, identities.as_slice());
    let ghost h = not_seen(pid, seen@);
    let mut ask: Vec<WindowServerId> = Vec::new();
    let mut i: usize = 0;
    while i < windows.len()
        invariant
            h == not_seen(pid, seen@),
            i <= windows@.len(),
            ask@ == windows@.take(i as int).filter_map(h),
        decreases windows@.len() - i,
    {
        proof {
            windows@.lemma_filter_map_take_succ(h, i as int);
        }
        if windows[i].wid.pid == pid && !holds(seen.as_slice(), windows[i].wid) {
            match windows[i].sys_id {
                Some(sys_id) => {
                    ask.push(sys_id);
                },
                None => {},
            }
        }
        assert(ask@ =~= windows@.take(i + 1).filter_map(h));
        i = i + 1;
    }
    assert(windows@.take(i as int) =~= windows@);
    CleanupPlan { inactive, seen, ask }
}

/// Being a window of `pid`.
pub open spec fn of_pid(pid: Pid) -> spec_fn(WindowId) -> bool {
    |wid: WindowId| wid.pid == pid
}

/// The windows of an application that the layouts are told of: those known once
/// its answer was taken in, and those it said are visible, each once.
pub fn candidate_windows(pid: Pid, known: &[WindowId], known_visible: &[WindowId]) -> (windows: Vec<
    WindowId,
>)
    ensures
        windows@ == deduped((known@ + known_visible@).filter(of_pid(pid))),
{
    let ghost p = of_pid(pid);
    let ghost all = known@ + known_visible@;
    let mut own: Vec<WindowId> = Vec::new();
    let mut i: usize = 0;
    assert(all.take(0).filter(p) =~= Seq::<WindowId>::empty());
    while i < known.len()
        invariant
            p == of_pid(pid),
            all == known@ + known_visible@,
            i <= known@.len(),
            own@ == all.take(i as int).filter(p),
        decreases known@.len() - i,
    {
        proof {
            assert(all.take(i + 1) =~= all.take(i as int).push(known@[i as int]));
            all.take(i as int).lemma_filter_push(known@[i as int], p);
        }
        if known[i].pid == pid {
            own.push(known[i]);
        }
        i = i + 1;
    }
    let mut k: usize = 0;
    while k < known_visible.len()
        invariant
            p == of_pid(pid),
            all == known@ + known_visible@,
            k <= known_visible@.len(),
            own@ == all.take(known@.len() + k).filter(p),
        decreases known_visible@.len() - k,
    {
        proof {
            let at = known@.len() + k;
            assert(all.take(at + 1) =~= all.take(at as int).push(known_visible@[k as int]));
            all.take(at as int).lemma_filter_push(known_visible@[k as int], p);
        }
        if known_visible[k].pid == pid {
            own.push(known_visible[k]);
        }
        k = k + 1;
    }
    assert(all.take((known@.len() + known_visible@.len()) as int) =~= all);
    dedup(&own)
}

/// A window of `pid` with the desktop it goes on.
pub open spec fn discovered_on(pid: Pid) -> spec_fn(KnownWindow) -> Option<(WindowId, SpaceId)> {
    |window: KnownWindow|
        match window.discovery {
            Some(space) => if window.wid.pid == pid {
                Some((window.wid, space))
            } else {
                None
            },
            None => None,
        }
}

/// A window of `pid` with the desktop it counts as being on.
pub open spec fn counted_on(pid: Pid) -> spec_fn(KnownWindow) -> Option<(WindowId, SpaceId)> {
    |window: KnownWindow|
        match window.authoritative {
            Some(space) => if window.wid.pid == pid {
                Some((window.wid, space))
            } else {
                None
            },
            None => None,
        }
}

/// A shown desktop on which the manager is active.
pub open spec fn shown_active(active: Set<SpaceId>) -> spec_fn(Screen) -> Option<SpaceId> {
    |screen: Screen|
        match screen.space {
            Some(space) => if active.contains(space) {
                Some(space)
            } else {
                None
            },
            None => None,
        }
}

/// What the layouts are told of an application's windows.
#[derive(Debug)]
pub struct DiscoveryPlan {
    pub discovery_spaces: Vec<(WindowId, SpaceId)>,
    pub authoritative_spaces: Vec<(WindowId, SpaceId)>,
    pub active_spaces: Vec<SpaceId>,
    /// The window to give focus back to.
    pub focused: Option<(SpaceId, WindowId)>,
}

/// The window that discovery may give focus back to: the main one, if it is the
/// application's, and on the desktop that commands are for.
pub fn focused_window_for_discovery(
    pid: Pid,
    main_window: Option<WindowId>,
    main_space: Option<SpaceId>,
    command_space: Option<SpaceId>,
) -> (focused: Option<(SpaceId, WindowId)>)
    ensures
        focused == match (main_window, main_space) {
            (Some(window), Some(space)) => if window.pid == pid && command_space == Some(space) {
                Some((space, window))
            } else {
                None
            },
            _ => None,
        },
{
    match (main_window, main_space, command_space) {
        (Some(window), Some(space), Some(command)) => if window.pid == pid && command == space {
            Some((space, window))
        } else {
            None
        },
        _ => None,
    }
}

/// The shown desktops on which the manager is active, in the order of the
/// screens.
pub fn shown_active_spaces(screens: &[Screen], active: &IdSet<SpaceId>) -> (spaces: Vec<SpaceId>)
    ensures
        spaces@ == screens@.filter_map(shown_active(active@)),
{
    let ghost f = shown_active(active@);
    let mut spaces: Vec<SpaceId> = Vec::new();
    let mut i: usize = 0;
    while i < screens.len()
        invariant
            f == shown_active(active@),
            i <= screens@.len(),
            spaces@ == screens@.take(i as int).filter_map(f),
        decreases screens@.len() - i,
    {
        proof {
            screens@.lemma_filter_map_take_succ(f, i as int);
        }
        match screens[i].space {
            Some(space) => {
                if active.contains(space) {
                    spaces.push(space);
                }
            },
            None => {},
        }
        assert(spaces@ =~= screens@.take(i + 1).filter_map(f));
        i = i + 1;
    }
    assert(screens@.take(i as int) =~= screens@);
    spaces
}

/// What the layouts are told of an application's windows, once its answer was
/// taken in.
pub fn plan_discovery(
    pid: Pid,
    windows: &[KnownWindow],
    screens: &[Screen],
    active: &IdSet<SpaceId>,
    focused: Option<(SpaceId, WindowId)>,
) -> (plan: DiscoveryPlan)
    ensures
        plan.discovery_spaces@ == windows@.filter_map(discovered_on(pid)),
        plan.authoritative_spaces@ == windows@.filter_map(counted_on(pid)),
        plan.active_spaces@ == screens@.filter_map(shown_active(active@)),
        plan.focused == focused,
{
    let ghost f = discovered_on(pid);
    let ghost g = counted_on(pid);
    let mut discovery_spaces: Vec<(WindowId, SpaceId)> = Vec::new();
    let mut authoritative_spaces: Vec<(WindowId, SpaceId)> = Vec::new();
    let mut i: usize = 0;
    while i < windows.len()
        invariant
            f == discovered_on(pid),
            g == counted_on(pid),
            i <= windows@.len(),
            discovery_spaces@ == windows@.take(i as int).filter_map(f),
            authoritative_spaces@ == windows@.take(i as int).filter_map(g),
        decreases windows@.len() - i,
    {
        proof {
            windows@.lemma_filter_map_take_succ(f, i as int);
            windows@.lemma_filter_map_take_succ(g, i as int);
        }
        if windows[i].wid.pid == pid {
            match windows[i].discovery {
                Some(space) => {
                    discovery_spaces.push((windows[i].wid, space));
                },
                None => {},
            }
            match windows[i].authoritative {
                Some(space) => {
                    authoritative_spaces.push((windows[i].wid, space));
                },
                None => {},
            }
        }
        assert(discovery_spaces@ =~= windows@.take(i + 1).filter_map(f));
        assert(authoritative_spaces@ =~= windows@.take(i + 1).filter_map(g));
        i = i + 1;
    }
    assert(windows@.take(i as int) =~= windows@);
    DiscoveryPlan {
        discovery_spaces,
        authoritative_spaces,
        active_spaces: shown_active_spaces(screens, active),
        focused,
    }
}

/// A window that rules may be applied to.
#[derive(Clone, Copy, Debug, PartialEq, Eq, Structural)]
pub struct RuleWindow {
    pub wid: WindowId,
    /// It is known, and its admission can be looked at again.
    pub reconcilable: bool,
    /// The desktop it is on.
    pub space: Option<SpaceId>,
}

/// The window, under the desktop `space`: it is not in the user's hand, and on
/// that desktop.
pub open spec fn ruled_on(in_hand: Option<WindowId>, space: SpaceId) -> spec_fn(RuleWindow) -> Option<
    WindowId,
> {
    |window: RuleWindow|
        if in_hand != Some(window.wid) && window.reconcilable && window.space == Some(space) {
            Some(window.wid)
        } else {
            None
        }
}

/// Desktops in order, each once.
pub open spec fn by_space(groups: Seq<(SpaceId, Vec<WindowId>)>) -> bool {
    forall|i: int, j: int|
        0 <= i < j < groups.len() ==> (#[trigger] groups[i]).0.0 < (#[trigger] groups[j]).0.0
}

/// Where the desktop `space` stands in the groups, or belongs.
fn find_group(groups: &Vec<(SpaceId, Vec<WindowId>)>, space: SpaceId) -> (at: (usize, bool))
    requires
        by_space(groups@),
    ensures
        at.0 <= groups@.len(),
        at.1 ==> at.0 < groups@.len() && groups@[at.0 as int].0 == space,
        forall|i: int| 0 <= i < at.0 ==> (#[trigger] groups@[i]).0.0 < space.0,
        forall|i: int|
            at.0 <= i < groups@.len() && (!at.1 || i > at.0) ==> (#[trigger] groups@[i]).0.0
                > space.0,
{
    let mut i: usize = 0;
    while i < groups.len() && groups[i].0.0 < space.0
        invariant
            by_space(groups@),
            i <= groups@.len(),
            forall|j: int| 0 <= j < i ==> (#[trigger] groups@[j]).0.0 < space.0,
        decreases groups@.len() - i,
    {
        i = i + 1;
    }
    let found = i < groups.len() && groups[i].0.0 == space.0;
    proof {
        assert forall|j: int| i <= j < groups@.len() && (!found || j > i) implies (
        #[trigger] groups@[j]).0.0 > space.0 by {
            if j > i {
                assert(groups@[i as int].0.0 < groups@[j].0.0);
            }
        }
    }
    (i, found)
}

/// The windows that rules are applied to, by desktop, in the order of the
/// desktops: those on desktops where the manager is active, without the one in
/// the user's hand.
pub fn group_for_app_rules(
    windows: &[RuleWindow],
    in_hand: Option<WindowId>,
    active: &IdSet<SpaceId>,
) -> (groups: Vec<(SpaceId, Vec<WindowId>)>)
    ensures
        by_space(groups@),
        forall|i: int|
            0 <= i < groups@.len() ==> active@.contains((#[trigger] groups@[i]).0)
                && groups@[i].1@.len() > 0 && groups@[i].1@ == windows@.filter_map(
                ruled_on(in_hand, groups@[i].0),
            ),
        forall|space: SpaceId|
            active@.contains(space) && (#[trigger] windows@.filter_map(
                ruled_on(in_hand, space),
            )).len() > 0 ==> exists|i: int|
                0 <= i < groups@.len() && (#[trigger] groups@[i]).0 == space,
{
    let mut groups: Vec<(SpaceId, Vec<WindowId>)> = Vec::new();
    let mut i: usize = 0;
    while i < windows.len()
        invariant
            i <= windows@.len(),
            by_space(groups@),
            forall|k: int|
                0 <= k < groups@.len() ==> active@.contains((#[trigger] groups@[k]).0)
                    && groups@[k].1@.len() > 0 && groups@[k].1@ == windows@.take(
                    i as int,
                ).filter_map(ruled_on(in_hand, groups@[k].0)),
            forall|space: SpaceId|
                active@.contains(space) && (#[trigger] windows@.take(i as int).filter_map(
                    ruled_on(in_hand, space),
                )).len() > 0 ==> exists|k: int|
                    0 <= k < groups@.len() && (#[trigger] groups@[k]).0 == space,
        decreases windows@.len() - i,
    {
        let window = windows[i];
        let held = match in_hand {
            Some(held) => held == window.wid,
            None => false,
        };
        let ghost before = groups@;
        let ghost so_far = windows@.take(i as int);
        let ghost next = windows@.take(i + 1);
        proof {
            assert forall|space: SpaceId| #[trigger]
                next.filter_map(ruled_on(in_hand, space)) == match ruled_on(in_hand, space)(
                    window,
                ) {
                    Some(wid) => so_far.filter_map(ruled_on(in_hand, space)).push(wid),
                    None => so_far.filter_map(ruled_on(in_hand, space)),
                } by {
                let f = ruled_on(in_hand, space);
                windows@.lemma_filter_map_take_succ(f, i as int);
                match f(window) {
                    Some(wid) => {
                        assert(next.filter_map(f) =~= so_far.filter_map(f).push(wid));
                    },
                    None => {
                        assert(next.filter_map(f) =~= so_far.filter_map(f));
                    },
                }
            }
        }
        let mut entered = false;
        match window.space {
            Some(space) => {
                if !held && window.reconcilable && active.contains(space) {
                    entered = true;
                    let (at, found) = find_group(&groups, space);
                    if found {
                        let (_, mut wids) = groups.remove(at);
                        wids.push(window.wid);
                        groups.insert(at, (space, wids));
                        proof {
                            assert(groups@.len() == before.len());
                            assert forall|k: int| 0 <= k < groups@.len() && k != at implies
                                #[trigger] groups@[k] == before[k] by {}
                            assert forall|x: int, y: int| 0 <= x < y < groups@.len() implies (
                            #[trigger] groups@[x]).0.0 < (#[trigger] groups@[y]).0.0 by {
                                assert(before[x].0.0 < before[y].0.0);
                            }
                            assert forall|k: int| 0 <= k < groups@.len() implies active@.contains(
                                (#[trigger] groups@[k]).0,
                            ) && groups@[k].1@.len() > 0 && groups@[k].1@ == next.filter_map(
                                ruled_on(in_hand, groups@[k].0),
                            ) by {
                                assert(active@.contains(before[k].0));
                                if k != at {
                                    assert(groups@[k].0 != space);
                                }
                            }
                            assert forall|s: SpaceId|
                                active@.contains(s) && (#[trigger] next.filter_map(
                                    ruled_on(in_hand, s),
                                )).len() > 0 implies exists|k: int|
                                0 <= k < groups@.len() && (#[trigger] groups@[k]).0 == s by {
                                if s == space {
                                    assert(groups@[at as int].0 == s);
                                } else {
                                    assert(so_far.filter_map(ruled_on(in_hand, s)).len() > 0);
                                    let k = choose|k: int|
                                        0 <= k < before.len() && (#[trigger] before[k]).0 == s;
                                    assert(groups@[k].0 == s);
                                }
                            }
                        }
                    } else {
                        let mut wids: Vec<WindowId> = Vec::new();
                        wids.push(window.wid);
                        groups.insert(at, (space, wids));
                        proof {
                            let from = |k: int| if k < at { k } else { k - 1 };
                            assert forall|k: int| 0 <= k < groups@.len() && k != at implies
                                #[trigger] groups@[k] == before[from(k)] by {}
                            assert forall|x: int, y: int| 0 <= x < y < groups@.len() implies (
                            #[trigger] groups@[x]).0.0 < (#[trigger] groups@[y]).0.0 by {
                                if x != at && y != at {
                                    assert(before[from(x)].0.0 < before[from(y)].0.0);
                                } else if x == at {
                                    assert(before[from(y)].0.0 > space.0);
                                } else {
                                    assert(before[from(x)].0.0 < space.0);
                                }
                            }
                            assert(so_far.filter_map(ruled_on(in_hand, space)).len() == 0) by {
                                if so_far.filter_map(ruled_on(in_hand, space)).len() > 0 {
                                    let k = choose|k: int|
                                        0 <= k < before.len() && (#[trigger] before[k]).0 == space;
                                    assert(before[k].0.0 == space.0);
                                }
                            }
                            assert(next.filter_map(ruled_on(in_hand, space)) =~= seq![window.wid]);
                            assert forall|k: int| 0 <= k < groups@.len() implies active@.contains(
                                (#[trigger] groups@[k]).0,
                            ) && groups@[k].1@.len() > 0 && groups@[k].1@ == next.filter_map(
                                ruled_on(in_hand, groups@[k].0),
                            ) by {
                                if k != at {
                                    assert(active@.contains(before[from(k)].0));
                                    assert(groups@[k].0 != space);
                                } else {
                                    assert(groups@[k].1@ =~= seq![window.wid]);
                                }
                            }
                            assert forall|s: SpaceId|
                                active@.contains(s) && (#[trigger] next.filter_map(
                                    ruled_on(in_hand, s),
                                )).len() > 0 implies exists|k: int|
                                0 <= k < groups@.len() && (#[trigger] groups@[k]).0 == s by {
                                if s == space {
                                    assert(groups@[at as int].0 == s);
                                } else {
                                    assert(so_far.filter_map(ruled_on(in_hand, s)).len() > 0);
                                    let k = choose|k: int|
                                        0 <= k < before.len() && (#[trigger] before[k]).0 == s;
                                    let to = if k < at { k } else { k + 1 };
                                    assert(groups@[to] == before[from(to)]);
                                    assert(groups@[to].0 == s);
                                }
                            }
                        }
                    }
                }
            },
            None => {},
        }
        proof {
            if !entered {
                assert forall|k: int| 0 <= k < groups@.len() implies active@.contains(
                    (#[trigger] groups@[k]).0,
                ) && groups@[k].1@.len() > 0 && groups@[k].1@ == next.filter_map(
                    ruled_on(in_hand, groups@[k].0),
                ) by {
                    assert(active@.contains(before[k].0));
                }
                assert forall|s: SpaceId|
                    active@.contains(s) && (#[trigger] next.filter_map(
                        ruled_on(in_hand, s),
                    )).len() > 0 implies exists|k: int|
                    0 <= k < groups@.len() && (#[trigger] groups@[k]).0 == s by {
                    assert(so_far.filter_map(ruled_on(in_hand, s)).len() > 0);
                }
            }
        }
        i = i + 1;
    }
    assert(windows@.take(i as int) =~= windows@);
    groups
}

/// A window in the user's hand is left alone by rules.
pub proof fn rules_leave_the_window_in_hand(
    windows: Seq<RuleWindow>,
    in_hand: WindowId,
    space: SpaceId,
)
    ensures
        !windows.filter_map(ruled_on(Some(in_hand), space)).contains(in_hand),
    decreases windows.len(),
{
    if windows.len() > 0 {
        let f = ruled_on(Some(in_hand), space);
        rules_leave_the_window_in_hand(windows.drop_last(), in_hand, space);
        let front = windows.drop_last().filter_map(f);
        match f(windows.last()) {
            Some(wid) => {
                crate::screens::lemma_concat_contains(front, seq![wid], in_hand);
                assert(!seq![wid].contains(in_hand)) by {
                    if seq![wid].contains(in_hand) {
                        let i = choose|i: int| 0 <= i < 1 && seq![wid][i] == in_hand;
                    }
                }
            },
            None => {},
        }
    }
}

/// What rules made of a window.
#[derive(Clone, Copy, Debug, PartialEq, Eq, Structural)]
pub struct RuleFacts {
    /// The rules are applied anew, whatever was there.
    pub reapply: bool,
    /// The workspace it was in is the one it is assigned to.
    pub same_workspace: bool,
    pub was_floating: bool,
    pub floats: bool,
    /// It was not managed by the user's wish.
    pub was_ignored: bool,
}

/// Whether the layout has to look at a window again after rules were applied.
pub fn needs_layout_refresh(facts: RuleFacts) -> (needs: bool)
    ensures
        needs == (facts.reapply || !facts.same_workspace || facts.was_floating != facts.floats
            || facts.was_ignored),
{
    facts.reapply || !facts.same_workspace || facts.was_floating != facts.floats
        || facts.was_ignored
}

/// What the rules answered for a window.
#[derive(Clone, Copy, Debug, PartialEq, Eq, Structural)]
pub enum RuleAnswer {
    /// It is managed, in a workspace.
    Managed(RuleFacts),
    /// It is not; whether it is still in a layout that it has to leave.
    Rejected { in_layout: bool },
    /// It could not be assigned.
    Failed,
}

/// A window that the rules were asked about.
#[derive(Clone, Copy, Debug, PartialEq, Eq, Structural)]
pub struct AnsweredWindow {
    pub wid: WindowId,
    pub answer: RuleAnswer,
    /// It is known once the rules were asked about every window of its desktop.
    pub known_after: bool,
}

/// What is done about an answer of the rules.
#[derive(Clone, Copy, Debug, PartialEq, Eq, Structural)]
pub enum RuleStep {
    Tell(LayoutEvent),
    /// What the rules had said of its admission is forgotten.
    ClearAdmission(WindowId),
}

/// What is done about an answer at once.
pub open spec fn at_once() -> spec_fn(AnsweredWindow) -> Option<RuleStep> {
    |window: AnsweredWindow|
        match window.answer {
            RuleAnswer::Managed(_) => None,
            RuleAnswer::Rejected { in_layout } => if in_layout {
                Some(RuleStep::Tell(LayoutEvent::WindowRemoved(window.wid)))
            } else {
                None
            },
            RuleAnswer::Failed => Some(RuleStep::ClearAdmission(window.wid)),
        }
}

/// The layout has to look at a window again after rules were applied.
pub open spec fn refreshes(facts: RuleFacts) -> bool {
    facts.reapply || !facts.same_workspace || facts.was_floating != facts.floats
        || facts.was_ignored
}

/// What is done about an answer once all answers for the desktop are in.
pub open spec fn afterwards(space: SpaceId) -> spec_fn(AnsweredWindow) -> Option<RuleStep> {
    |window: AnsweredWindow|
        match window.answer {
            RuleAnswer::Managed(facts) => if refreshes(facts) && window.known_after {
                Some(RuleStep::Tell(LayoutEvent::WindowObserved(space, window.wid)))
            } else {
                None
            },
            _ => None,
        }
}

/// What is done about the answers of the rules for the windows of a desktop: a
/// window that was turned away leaves its layout, and one that could not be
/// assigned is as if the rules had not spoken; then the layout is told of those
/// that are managed otherwise than before.
pub fn process_windows_for_app_rules(space: SpaceId, windows: &[AnsweredWindow]) -> (steps: Vec<
    RuleStep,
>)
    ensures
        steps@ == windows@.filter_map(at_once()) + windows@.filter_map(afterwards(space)),
{
    let mut steps: Vec<RuleStep> = Vec::new();
    let ghost first = at_once();
    let mut i: usize = 0;
    while i < windows.len()
        invariant
            first == at_once(),
            i <= windows@.len(),
            steps@ == windows@.take(i as int).filter_map(first),
        decreases windows@.len() - i,
    {
        proof {
            windows@.lemma_filter_map_take_succ(first, i as int);
        }
        match windows[i].answer {
            RuleAnswer::Managed(_) => {},
            RuleAnswer::Rejected { in_layout } => {
                if in_layout {
                    steps.push(RuleStep::Tell(LayoutEvent::WindowRemoved(windows[i].wid)));
                }
            },
            RuleAnswer::Failed => {
                steps.push(RuleStep::ClearAdmission(windows[i].wid));
            },
        }
        i = i + 1;
    }
    assert(windows@.take(i as int) =~= windows@);
    let ghost front = steps@;
    let ghost second = afterwards(space);
    let mut i: usize = 0;
    assert(windows@.take(0).filter_map(second) =~= Seq::<RuleStep>::empty());
    assert(front + Seq::<RuleStep>::empty() =~= front);
    while i < windows.len()
        invariant
            second == afterwards(space),
            front == windows@.filter_map(at_once()),
            i <= windows@.len(),
            steps@ == front + windows@.take(i as int).filter_map(second),
        decreases windows@.len() - i,
    {
        proof {
            windows@.lemma_filter_map_take_succ(second, i as int);
        }
        let ghost done = windows@.take(i as int).filter_map(second);
        match windows[i].answer {
            RuleAnswer::Managed(facts) => {
                if needs_layout_refresh(facts) && windows[i].known_after {
                    let event = LayoutEvent::WindowObserved(space, windows[i].wid);
                    steps.push(RuleStep::Tell(event));
                    assert((front + done).push(RuleStep::Tell(event)) =~= front + done.push(
                        RuleStep::Tell(event),
                    ));
                }
            },
            _ => {},
        }
        i = i + 1;
    }
    assert(windows@.take(i as int) =~= windows@);
    steps
}

/// What is done with the answer of an application, once windows that are gone
/// were cleaned up.
#[derive(Clone, Copy, Debug, PartialEq, Eq, Structural)]
pub enum DiscoveryStep {
    /// The windows it named are taken in.
    TakeIn,
    UpdateStates,
    /// The window in the user's hand keeps its place in the layouts.
    Freeze(Option<WindowId>),
    /// The layouts are told.
    Emit,
    Apply,
}

/// What is done with the answer of an application, in order; nothing, if the
/// windows that are gone could not be cleaned up.
pub fn on_windows_discovered(cleaned: bool, in_hand: Option<WindowId>) -> (steps: Vec<DiscoveryStep>)
    ensures
        steps@ == if cleaned {
            seq![
                DiscoveryStep::TakeIn,
                DiscoveryStep::UpdateStates,
                DiscoveryStep::Freeze(in_hand),
                DiscoveryStep::Emit,
                DiscoveryStep::Apply,
            ]
        } else {
            seq![]
        },
{
    let mut steps: Vec<DiscoveryStep> = Vec::new();
    if cleaned {
        steps.push(DiscoveryStep::TakeIn);
        steps.push(DiscoveryStep::UpdateStates);
        steps.push(DiscoveryStep::Freeze(in_hand));
        steps.push(DiscoveryStep::Emit);
        steps.push(DiscoveryStep::Apply);
    }
    steps
}

/// Whether rules are applied anew to a window whose title changed.
pub fn reapplies_on_title_change(
    configured: bool,
    space_active: bool,
    reconcilable: bool,
    app_known: bool,
) -> (applies: bool)
    ensures
        applies == (configured && space_active && reconcilable && app_known),
{
    configured && space_active && reconcilable && app_known
}

/// One more window is on a desktop that is not active if it is the application's and
/// counts as being on one.
pub proof fn which_windows_are_out_of_sight(
    windows: Seq<KnownWindow>,
    one: KnownWindow,
    pid: Pid,
    active: Set<SpaceId>,
)
    ensures
        one.wid.pid == pid && one.authoritative is Some && !active.contains(one.authoritative->0)
            ==> windows.push(one).filter_map(on_inactive_space(pid, active)) == windows.filter_map(
            on_inactive_space(pid, active),
        ).push(one.wid),
        one.wid.pid != pid || one.authoritative is None || active.contains(one.authoritative->0)
            ==> windows.push(one).filter_map(on_inactive_space(pid, active)) == windows.filter_map(
            on_inactive_space(pid, active),
        ),
{
    crate::lists::lemma_filter_map_push(windows, one, on_inactive_space(pid, active));
}

/// A window was seen if the application said it is visible, or if a new one is it under
/// another identity.
pub proof fn which_windows_were_seen(
    known_visible: Seq<WindowId>,
    new: Seq<NewWindow>,
    window: WindowId,
)
    ensures
        seen_windows(known_visible, new).contains(window) <==> known_visible.contains(window)
            || exists|i: int| 0 <= i < new.len() && (#[trigger] new[i]).known_as == Some(window),
{
    let more = new.filter_map(known_identity());
    crate::lists::lemma_filter_map_holds(new, known_identity(), window);
    crate::screens::lemma_concat_contains(known_visible, more, window);
    if more.contains(window) {
        let i = choose|i: int|
            0 <= i < new.len() && known_identity()(#[trigger] new[i]) == Some(window);
        assert(new[i].known_as == Some(window));
    }
    if exists|i: int| 0 <= i < new.len() && (#[trigger] new[i]).known_as == Some(window) {
        let i = choose|i: int| 0 <= i < new.len() && (#[trigger] new[i]).known_as == Some(window);
        assert(known_identity()(new[i]) == Some(window));
    }
}

/// One more window is asked about if it is the application's, was not seen, and has a
/// number.
pub proof fn which_windows_are_asked_about(
    windows: Seq<KnownWindow>,
    one: KnownWindow,
    pid: Pid,
    seen: Seq<WindowId>,
)
    ensures
        one.wid.pid == pid && !seen.contains(one.wid) && one.sys_id is Some ==> windows.push(
            one,
        ).filter_map(not_seen(pid, seen)) == windows.filter_map(not_seen(pid, seen)).push(
            one.sys_id->0,
        ),
        one.wid.pid != pid || seen.contains(one.wid) || one.sys_id is None ==> windows.push(
            one,
        ).filter_map(not_seen(pid, seen)) == windows.filter_map(not_seen(pid, seen)),
{
    crate::lists::lemma_filter_map_push(windows, one, not_seen(pid, seen));
}

/// The layouts are told of every window of the application that is known or said to be
/// visible, once, and of no window of another.
pub proof fn which_windows_the_layouts_are_told_of(
    pid: Pid,
    known: Seq<WindowId>,
    known_visible: Seq<WindowId>,
    window: WindowId,
)
    ensures
        deduped((known + known_visible).filter(of_pid(pid))).no_duplicates(),
        deduped((known + known_visible).filter(of_pid(pid))).contains(window) <==> window.pid == pid
            && (known.contains(window) || known_visible.contains(window)),
{
    let all = known + known_visible;
    let own = all.filter(of_pid(pid));
    crate::lists::lemma_deduped(own);
    crate::lists::lemma_filter_holds(all, of_pid(pid), window);
    crate::screens::lemma_concat_contains(known, known_visible, window);
    assert(deduped(own).to_set().contains(window) == own.to_set().contains(window));
}

/// One more window is told of with the desktop it goes on and the one it counts as being
/// on, where there is one, if it is the application's.
pub proof fn where_discovered_windows_go(windows: Seq<KnownWindow>, one: KnownWindow, pid: Pid)
    ensures
        one.wid.pid == pid && one.discovery is Some ==> windows.push(one).filter_map(
            discovered_on(pid),
        ) == windows.filter_map(discovered_on(pid)).push((one.wid, one.discovery->0)),
        one.wid.pid != pid || one.discovery is None ==> windows.push(one).filter_map(
            discovered_on(pid),
        ) == windows.filter_map(discovered_on(pid)),
        one.wid.pid == pid && one.authoritative is Some ==> windows.push(one).filter_map(
            counted_on(pid),
        ) == windows.filter_map(counted_on(pid)).push((one.wid, one.authoritative->0)),
        one.wid.pid != pid || one.authoritative is None ==> windows.push(one).filter_map(
            counted_on(pid),
        ) == windows.filter_map(counted_on(pid)),
{
    crate::lists::lemma_filter_map_push(windows, one, discovered_on(pid));
    crate::lists::lemma_filter_map_push(windows, one, counted_on(pid));
}

/// One more screen adds the desktop it shows, if the manager is active there.
pub proof fn which_desktops_are_shown_and_active(
    screens: Seq<Screen>,
    screen: Screen,
    active: Set<SpaceId>,
)
    ensures
        screen.space is Some && active.contains(screen.space->0) ==> screens.push(screen).filter_map(
            shown_active(active),
        ) == screens.filter_map(shown_active(active)).push(screen.space->0),
        screen.space is None || !active.contains(screen.space->0) ==> screens.push(
            screen,
        ).filter_map(shown_active(active)) == screens.filter_map(shown_active(active)),
{
    crate::lists::lemma_filter_map_push(screens, screen, shown_active(active));
}

/// One more window has the rules applied on a desktop if it is there, may be looked at
/// again, and is not in the hand.
pub proof fn which_windows_rules_apply_to(
    windows: Seq<RuleWindow>,
    one: RuleWindow,
    in_hand: Option<WindowId>,
    space: SpaceId,
)
    ensures
        in_hand != Some(one.wid) && one.reconcilable && one.space == Some(space) ==> windows.push(
            one,
        ).filter_map(ruled_on(in_hand, space)) == windows.filter_map(ruled_on(in_hand, space)).push(
            one.wid,
        ),
        in_hand == Some(one.wid) || !one.reconcilable || one.space != Some(space) ==> windows.push(
            one,
        ).filter_map(ruled_on(in_hand, space)) == windows.filter_map(ruled_on(in_hand, space)),
{
    crate::lists::lemma_filter_map_push(windows, one, ruled_on(in_hand, space));
}

/// What one more answer of the rules leads to: a window that is turned away leaves its
/// layout if it is in one; one that could not be assigned has its admission forgotten; and
/// afterwards the layout is told of one that is managed otherwise than before and still
/// known.
pub proof fn what_an_answer_leads_to(
    windows: Seq<AnsweredWindow>,
    one: AnsweredWindow,
    space: SpaceId,
)
    ensures
        ({
            let before = windows.filter_map(at_once());
            let after = windows.push(one).filter_map(at_once());
            &&& one.answer == (RuleAnswer::Rejected { in_layout: true }) ==> after == before.push(
                RuleStep::Tell(LayoutEvent::WindowRemoved(one.wid)),
            )
            &&& one.answer == (RuleAnswer::Rejected { in_layout: false }) ==> after == before
            &&& one.answer is Failed ==> after == before.push(RuleStep::ClearAdmission(one.wid))
            &&& one.answer is Managed ==> after == before
        }),
        ({
            let before = windows.filter_map(afterwards(space));
            let after = windows.push(one).filter_map(afterwards(space));
            let otherwise = one.answer matches RuleAnswer::Managed(facts) && (facts.reapply
                || !facts.same_workspace || facts.was_floating != facts.floats || facts.was_ignored);
            &&& otherwise && one.known_after ==> after == before.push(
                RuleStep::Tell(LayoutEvent::WindowObserved(space, one.wid)),
            )
            &&& !otherwise || !one.known_after ==> after == before
        }),
{
    crate::lists::lemma_filter_map_push(windows, one, at_once());
    crate::lists::lemma_filter_map_push(windows, one, afterwards(space));
}

/// Desktops in order come each once.
pub proof fn what_order_groups_have(groups: Seq<(SpaceId, Vec<WindowId>)>, i: int, j: int)
    requires
        by_space(groups),
        0 <= i < j < groups.len(),
    ensures
        groups[i].0.0 < groups[j].0.0,
        groups[i].0 != groups[j].0,
{
}

} // verus!
