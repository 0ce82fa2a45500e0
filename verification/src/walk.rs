//! Putting a display's desktops in order, one move at a time.
//!
//! Each desired desktop that the display lists is moved behind the previous
//! one, unless it is there already. Whether a move is carried out is for the
//! window server to say, so a walk is stepped: [`DesktopWalk::step`] gives the
//! next move, and [`DesktopWalk::moved`] takes the answer.

use vstd::prelude::*;

use crate::ids::SpaceId;
use crate::lists::{among, drop_listed, first_at, holds, not_among, position};

verus! {

#[derive(Debug)]
pub struct DesktopWalk {
    /// The display's desktops as they stand now.
    pub order: Vec<SpaceId>,
    /// The desktops to stand behind one another.
    pub desired: Vec<SpaceId>,
    /// How many of the desired have been dealt with.
    pub next: usize,
    /// Those of them that stand where they should.
    pub chain: Vec<SpaceId>,
}

/// The place of `item`'s first occurrence.
pub open spec fn first_place<T>(list: Seq<T>, item: T) -> Option<int> {
    if exists|at: int| first_at(list, item, at) {
        Some(choose|at: int| first_at(list, item, at))
    } else {
        None
    }
}

proof fn lemma_first_place<T>(list: Seq<T>, item: T, at: int)
    requires
        first_at(list, item, at),
    ensures
        first_place(list, item) == Some(at),
{
    let other = choose|other: int| first_at(list, item, other);
    assert(first_at(list, item, other));
    if other < at {
        assert(list[other] != item);
    } else if at < other {
        assert(list[at] != item);
    }
}

fn find_place(list: &Vec<SpaceId>, item: SpaceId) -> (at: Option<usize>)
    ensures
        match at {
            Some(at) => first_place(list@, item) == Some(at as int) && first_at(
                list@,
                item,
                at as int,
            ),
            None => first_place(list@, item) is None && !list@.contains(item),
        },
{
    let at = position(list.as_slice(), item);
    proof {
        match at {
            Some(at) => {
                lemma_first_place(list@, item, at as int);
            },
            None => {
                if exists|at: int| first_at(list@, item, at) {
                    let at = choose|at: int| first_at(list@, item, at);
                    assert(list@[at] == item);
                }
            },
        }
    }
    at
}

/// `order` once `space` has been moved right behind `after`; last, if that is
/// not there.
pub open spec fn moved_behind(order: Seq<SpaceId>, space: SpaceId, after: SpaceId) -> Seq<SpaceId> {
    let rest = order.filter(not_among(seq![space]));
    match first_place(rest, after) {
        Some(at) => rest.insert(at + 1, space),
        None => rest.push(space),
    }
}

/// `space` stands right behind `after`.
pub open spec fn stands_behind(order: Seq<SpaceId>, space: SpaceId, after: SpaceId) -> bool {
    first_place(order, after) matches Some(at) && first_place(order, space) == Some(at + 1)
}

/// How many of the desired desktops from `next` on need no move, and the chain
/// once they are dealt with.
pub open spec fn dealt_with(
    order: Seq<SpaceId>,
    desired: Seq<SpaceId>,
    next: int,
    chain: Seq<SpaceId>,
) -> (int, Seq<SpaceId>)
    decreases desired.len() - next,
{
    if next < 0 || next >= desired.len() {
        (next, chain)
    } else {
        let space = desired[next];
        if !order.contains(space) {
            dealt_with(order, desired, next + 1, chain)
        } else if chain.len() == 0 || stands_behind(order, space, chain.last()) {
            dealt_with(order, desired, next + 1, chain.push(space))
        } else {
            (next, chain)
        }
    }
}

/// `chain` stands in `order` without a gap.
pub open spec fn unbroken(order: Seq<SpaceId>, chain: Seq<SpaceId>) -> bool {
    chain.len() == 0 || exists|at: int| chain_at(order, chain, at)
}

pub open spec fn chain_at(order: Seq<SpaceId>, chain: Seq<SpaceId>, at: int) -> bool {
    0 <= at && at + chain.len() <= order.len() && order.subrange(at, at + chain.len()) == chain
}

impl DesktopWalk {
    pub open spec fn wf(&self) -> bool {
        self.next <= self.desired@.len()
    }

    /// No desktop occurs twice, and those dealt with stand behind one another.
    pub open spec fn chained(&self) -> bool {
        &&& self.wf()
        &&& self.order@.no_duplicates()
        &&& self.desired@.no_duplicates()
        &&& unbroken(self.order@, self.chain@)
        &&& forall|i: int|
            0 <= i < self.chain@.len() ==> self.desired@.take(self.next as int).contains(
                #[trigger] self.chain@[i],
            )
    }

    /// Starts a walk of `desired` over the desktops in `order`.
    pub fn new(order: Vec<SpaceId>, desired: Vec<SpaceId>) -> (walk: DesktopWalk)
        ensures
            walk.wf(),
            walk.order == order,
            walk.desired == desired,
            walk.next == 0,
            walk.chain@.len() == 0,
            order@.no_duplicates() && desired@.no_duplicates() ==> walk.chained(),
    {
        DesktopWalk { order, desired, next: 0, chain: Vec::new() }
    }

    /// The next move to ask for: which desktop, and behind which. The desktops
    /// before it that need none are dealt with.
    pub fn step(&mut self) -> (asked: Option<(SpaceId, SpaceId)>)
        requires
            old(self).wf(),
        ensures
            final(self).wf(),
            final(self).order == old(self).order,
            final(self).desired == old(self).desired,
            (final(self).next as int, final(self).chain@) == dealt_with(
                old(self).order@,
                old(self).desired@,
                old(self).next as int,
                old(self).chain@,
            ),
            match asked {
                Some((space, after)) => final(self).next < final(self).desired@.len() && space
                    == final(self).desired@[final(self).next as int]
                        && final(self).order@.contains(space) && final(self).chain@.len() > 0
                        && after == final(self).chain@.last(),
                None => final(self).next == final(self).desired@.len(),
            },
            old(self).chained() ==> final(self).chained(),
    {
        let ghost begun = *self;
        while self.next < self.desired.len()
            invariant
                begun == *old(self),
                self.wf(),
                self.order == begun.order,
                self.desired == begun.desired,
                dealt_with(begun.order@, begun.desired@, begun.next as int, begun.chain@)
                    == dealt_with(self.order@, self.desired@, self.next as int, self.chain@),
                begun.chained() ==> self.chained(),
            decreases self.desired@.len() - self.next,
        {
            let space = self.desired[self.next];
            let ghost before = *self;
            if holds(self.order.as_slice(), space) {
                if self.chain.len() == 0 {
                    self.chain.push(space);
                    proof {
                        assert(before.chain@ =~= Seq::<SpaceId>::empty());
                        if before.chained() {
                            let at = choose|at: int|
                                0 <= at < before.order@.len() && before.order@[at] == space;
                            assert(self.order@.subrange(at, at + 1) =~= self.chain@);
                            assert(chain_at(self.order@, self.chain@, at));
                        }
                    }
                } else {
                    let after = self.chain[self.chain.len() - 1];
                    let here = find_place(&self.order, space);
                    let there = find_place(&self.order, after);
                    let behind = match (there, here) {
                        (Some(there), Some(here)) => here > 0 && here - 1 == there,
                        _ => false,
                    };
                    assert(behind == stands_behind(self.order@, space, after));
                    if !behind {
                        return Some((space, after));
                    }
                    self.chain.push(space);
                    proof {
                        if before.chained() {
                            lemma_chain_grows(before.order@, before.chain@, space);
                        }
                    }
                }
            }
            proof {
                if before.chained() {
                    lemma_chain_dealt(before, self.chain@, space);
                }
            }
            self.next = self.next + 1;
        }
        None
    }

    /// The answer to the move that `step` asked for last.
    pub fn moved(&mut self, accepted: bool)
        requires
            old(self).wf(),
            old(self).next < old(self).desired@.len(),
            old(self).chain@.len() > 0,
        ensures
            final(self).wf(),
            final(self).desired == old(self).desired,
            final(self).next == old(self).next + 1,
            ({
                let space = old(self).desired@[old(self).next as int];
                let after = old(self).chain@.last();
                if accepted {
                    final(self).order@ == moved_behind(old(self).order@, space, after)
                        && final(self).chain@ == old(self).chain@.push(space)
                } else {
                    final(self).order@ == old(self).order@ && final(self).chain@ == old(self).chain@
                }
            }),
            old(self).chained() ==> final(self).chained(),
    {
        let ghost before = *self;
        assert(self.next < self.desired.len());
        let space = self.desired[self.next];
        let after = self.chain[self.chain.len() - 1];
        if accepted {
            let mut one: Vec<SpaceId> = Vec::new();
            one.push(space);
            assert(one@ =~= seq![space]);
            let mut rest = drop_listed(self.order.as_slice(), one.as_slice());
            match find_place(&rest, after) {
                Some(at) => {
                    assert(at < rest.len());
                    rest.insert(at + 1, space);
                },
                None => {
                    rest.push(space);
                },
            }
            self.order = rest;
            self.chain.push(space);
            proof {
                if before.chained() {
                    lemma_not_dealt(before, space);
                    lemma_chain_moved(before.order@, before.chain@, space);
                }
            }
        }
        proof {
            if before.chained() {
                lemma_chain_dealt(before, self.chain@, space);
            }
        }
        self.next = self.next + 1;
    }
}

/// The next desired desktop is not in the chain yet.
proof fn lemma_not_dealt(walk: DesktopWalk, space: SpaceId)
    requires
        walk.chained(),
        walk.next < walk.desired@.len(),
        space == walk.desired@[walk.next as int],
    ensures
        !walk.chain@.contains(space),
{
    if walk.chain@.contains(space) {
        let i = choose|i: int| 0 <= i < walk.chain@.len() && walk.chain@[i] == space;
        assert(walk.desired@.take(walk.next as int).contains(walk.chain@[i]));
        let j = choose|j: int|
            0 <= j < walk.next && walk.desired@.take(walk.next as int)[j] == space;
        assert(walk.desired@[j] == walk.desired@[walk.next as int]);
    }
}

/// What is in the chain is among the desktops dealt with.
proof fn lemma_chain_dealt(before: DesktopWalk, chain: Seq<SpaceId>, space: SpaceId)
    requires
        before.chained(),
        before.next < before.desired@.len(),
        space == before.desired@[before.next as int],
        chain == before.chain@ || chain == before.chain@.push(space),
    ensures
        forall|i: int|
            0 <= i < chain.len() ==> before.desired@.take(before.next + 1).contains(
                #[trigger] chain[i],
            ),
{
    let longer = before.desired@.take(before.next + 1);
    assert forall|i: int| 0 <= i < chain.len() implies longer.contains(#[trigger] chain[i]) by {
        if i < before.chain@.len() {
            assert(before.desired@.take(before.next as int).contains(before.chain@[i]));
            let j = choose|j: int|
                0 <= j < before.next && before.desired@.take(before.next as int)[j]
                    == before.chain@[i];
            assert(longer[j] == chain[i]);
        } else {
            assert(longer[before.next as int] == space);
        }
    }
}

/// A chain that `space` stands right behind is unbroken with it.
proof fn lemma_chain_grows(order: Seq<SpaceId>, chain: Seq<SpaceId>, space: SpaceId)
    requires
        order.no_duplicates(),
        chain.len() > 0,
        unbroken(order, chain),
        stands_behind(order, space, chain.last()),
    ensures
        unbroken(order, chain.push(space)),
{
    let at = choose|at: int| chain_at(order, chain, at);
    let end = at + chain.len() - 1;
    assert(order.subrange(at, at + chain.len())[chain.len() - 1] == order[end]);
    let there = first_place(order, chain.last())->0;
    assert(exists|x: int| first_at(order, chain.last(), x));
    assert(first_at(order, chain.last(), there));
    assert(there == end);
    assert(exists|x: int| first_at(order, space, x));
    assert(first_at(order, space, there + 1));
    assert(order.subrange(at, at + chain.len() + 1) =~= chain.push(space));
    assert(chain_at(order, chain.push(space), at));
}

/// Where an element of a list without repetitions goes when another is taken
/// out.
proof fn lemma_taken_out(order: Seq<SpaceId>, space: SpaceId, out: int)
    requires
        order.no_duplicates(),
        0 <= out < order.len(),
        order[out] == space,
    ensures
        order.filter(not_among(seq![space])) == order.remove(out),
    decreases order.len(),
{
    let p = not_among(seq![space]);
    let front = order.drop_last();
    assert(order =~= front.push(order.last()));
    front.lemma_filter_push(order.last(), p);
    assert(seq![space].contains(space)) by {
        assert(seq![space][0] == space);
    }
    if out == order.len() - 1 {
        assert(!front.contains(space)) by {
            if front.contains(space) {
                let i = choose|i: int| 0 <= i < front.len() && front[i] == space;
                assert(order[i] == order[out]);
            }
        }
        lemma_keeps_all(front, space);
        assert(order.remove(out) =~= front);
    } else {
        assert(front.no_duplicates());
        lemma_taken_out(front, space, out);
        assert(order.last() != space);
        assert(p(order.last())) by {
            if seq![space].contains(order.last()) {
                let i = choose|i: int| 0 <= i < 1 && seq![space][i] == order.last();
            }
        }
        assert(order.remove(out) =~= front.remove(out).push(order.last()));
    }
}

proof fn lemma_keeps_all(list: Seq<SpaceId>, space: SpaceId)
    requires
        !list.contains(space),
    ensures
        list.filter(not_among(seq![space])) == list,
    decreases list.len(),
{
    if list.len() > 0 {
        let front = list.drop_last();
        assert(list =~= front.push(list.last()));
        assert(!front.contains(space)) by {
            if front.contains(space) {
                let i = choose|i: int| 0 <= i < front.len() && front[i] == space;
                assert(list[i] == space);
            }
        }
        lemma_keeps_all(front, space);
        front.lemma_filter_push(list.last(), not_among(seq![space]));
        assert(list.last() != space) by {
            assert(list[list.len() - 1] == list.last());
        }
        assert(not_among(seq![space])(list.last())) by {
            if seq![space].contains(list.last()) {
                let i = choose|i: int| 0 <= i < 1 && seq![space][i] == list.last();
            }
        }
    } else {
        assert(list.filter(not_among(seq![space])) =~= list);
    }
}

/// Moving a desktop behind the end of an unbroken chain makes the chain longer
/// by it.
proof fn lemma_chain_moved(order: Seq<SpaceId>, chain: Seq<SpaceId>, space: SpaceId)
    requires
        order.no_duplicates(),
        chain.len() > 0,
        unbroken(order, chain),
        !chain.contains(space),
    ensures
        moved_behind(order, space, chain.last()).no_duplicates(),
        unbroken(moved_behind(order, space, chain.last()), chain.push(space)),
{
    let after = chain.last();
    let rest = order.filter(not_among(seq![space]));
    let at = choose|at: int| chain_at(order, chain, at);
    assert forall|i: int| 0 <= i < chain.len() implies #[trigger] order[at + i] == chain[i] by {
        assert(order.subrange(at, at + chain.len())[i] == order[at + i]);
    }
    // Where the chain begins once the desktop is out.
    let begins = if order.contains(space) {
        let out = choose|out: int| 0 <= out < order.len() && order[out] == space;
        lemma_taken_out(order, space, out);
        if at <= out < at + chain.len() {
            assert(order[at + (out - at)] == chain[out - at]);
            assert(chain.contains(space));
        }
        assert(rest.no_duplicates()) by {
            assert forall|i: int, j: int|
                0 <= i < rest.len() && 0 <= j < rest.len() && i != j implies rest[i] != rest[j] by {
                let fi = if i < out { i } else { i + 1 };
                let fj = if j < out { j } else { j + 1 };
                assert(rest[i] == order[fi]);
                assert(rest[j] == order[fj]);
            }
        }
        assert(!rest.contains(space)) by {
            if rest.contains(space) {
                let i = choose|i: int| 0 <= i < rest.len() && rest[i] == space;
                let fi = if i < out { i } else { i + 1 };
                assert(order[fi] == order[out]);
            }
        }
        if out < at {
            at - 1
        } else {
            at
        }
    } else {
        lemma_keeps_all(order, space);
        at
    };
    assert forall|i: int| 0 <= i < chain.len() implies #[trigger] rest[begins + i] == chain[i] by {
        assert(order[at + i] == chain[i]);
    }
    let end = begins + chain.len() - 1;
    assert(rest[begins + (chain.len() - 1)] == after);
    assert(first_at(rest, after, end));
    lemma_first_place(rest, after, end);
    let result = rest.insert(end + 1, space);
    assert(result == moved_behind(order, space, after));
    assert(result.subrange(begins, begins + chain.len() + 1) =~= chain.push(space)) by {
        assert forall|i: int| 0 <= i < chain.len() implies #[trigger] result[begins + i]
            == chain[i] by {
            assert(rest[begins + i] == chain[i]);
        }
    }
    assert(chain_at(result, chain.push(space), begins));
    assert(result.no_duplicates()) by {
        assert forall|i: int, j: int|
            0 <= i < result.len() && 0 <= j < result.len() && i != j implies result[i]
            != result[j] by {
            let fi = if i <= end { i } else { i - 1 };
            let fj = if j <= end { j } else { j - 1 };
            if i != end + 1 {
                assert(result[i] == rest[fi]);
            }
            if j != end + 1 {
                assert(result[j] == rest[fj]);
            }
            if i == end + 1 {
                assert(rest.contains(rest[fj]));
            }
            if j == end + 1 {
                assert(rest.contains(rest[fi]));
            }
        }
    }
}

/// The desktops and the chain at the end of a walk whose moves are all carried
/// out.
pub open spec fn walked(
    order: Seq<SpaceId>,
    desired: Seq<SpaceId>,
    next: int,
    chain: Seq<SpaceId>,
) -> (Seq<SpaceId>, Seq<SpaceId>)
    decreases desired.len() - next,
{
    if next < 0 || next >= desired.len() {
        (order, chain)
    } else {
        let space = desired[next];
        if !order.contains(space) {
            walked(order, desired, next + 1, chain)
        } else if chain.len() == 0 || stands_behind(order, space, chain.last()) {
            walked(order, desired, next + 1, chain.push(space))
        } else {
            walked(
                moved_behind(order, space, chain.last()),
                desired,
                next + 1,
                chain.push(space),
            )
        }
    }
}

/// Stepping through a walk, each move carried out, leads to that end: what
/// `step` deals with and what `moved` enters leave it as it is.
pub proof fn steps_lead_to_the_end(
    order: Seq<SpaceId>,
    desired: Seq<SpaceId>,
    next: int,
    chain: Seq<SpaceId>,
)
    requires
        0 <= next <= desired.len(),
    ensures
        ({
            let (n, c) = dealt_with(order, desired, next, chain);
            &&& next <= n <= desired.len()
            &&& walked(order, desired, next, chain) == if n == desired.len() {
                (order, c)
            } else {
                walked(moved_behind(order, desired[n], c.last()), desired, n + 1, c.push(desired[n]))
            }
        }),
    decreases desired.len() - next,
{
    if next < desired.len() {
        let space = desired[next];
        if !order.contains(space) {
            steps_lead_to_the_end(order, desired, next + 1, chain);
        } else if chain.len() == 0 || stands_behind(order, space, chain.last()) {
            steps_lead_to_the_end(order, desired, next + 1, chain.push(space));
        }
    }
}

proof fn lemma_moved_holds(order: Seq<SpaceId>, space: SpaceId, after: SpaceId)
    requires
        order.no_duplicates(),
        order.contains(space),
    ensures
        forall|x: SpaceId| #[trigger]
            moved_behind(order, space, after).contains(x) == order.contains(x),
{
    let out = choose|out: int| 0 <= out < order.len() && order[out] == space;
    lemma_taken_out(order, space, out);
    let rest = order.remove(out);
    let result = moved_behind(order, space, after);
    let at = match first_place(rest, after) {
        Some(at) => at + 1,
        None => rest.len() as int,
    };
    assert(result =~= rest.insert(at, space)) by {
        if first_place(rest, after) is Some {
            assert(exists|x: int| first_at(rest, after, x));
        }
    }
    assert forall|x: SpaceId| #[trigger] result.contains(x) == order.contains(x) by {
        if order.contains(x) {
            let i = choose|i: int| 0 <= i < order.len() && order[i] == x;
            if i == out {
                assert(result[at] == x);
            } else {
                let r = if i < out {
                    i
                } else {
                    i - 1
                };
                assert(rest[r] == x);
                assert(result[if r < at {
                    r
                } else {
                    r + 1
                }] == x);
            }
        }
        if result.contains(x) {
            let i = choose|i: int| 0 <= i < result.len() && result[i] == x;
            if i != at {
                let r = if i < at {
                    i
                } else {
                    i - 1
                };
                assert(rest[r] == x);
                assert(order[if r < out {
                    r
                } else {
                    r + 1
                }] == x);
            }
        }
    }
}

proof fn lemma_walked(
    order: Seq<SpaceId>,
    desired: Seq<SpaceId>,
    next: int,
    chain: Seq<SpaceId>,
    begun: Seq<SpaceId>,
)
    requires
        order.no_duplicates(),
        desired.no_duplicates(),
        0 <= next <= desired.len(),
        unbroken(order, chain),
        chain == desired.take(next).filter(among(begun)),
        forall|x: SpaceId| #[trigger] order.contains(x) == begun.contains(x),
    ensures
        ({
            let (end, stands) = walked(order, desired, next, chain);
            &&& stands == desired.filter(among(begun))
            &&& unbroken(end, stands)
            &&& forall|x: SpaceId| #[trigger] end.contains(x) == begun.contains(x)
        }),
    decreases desired.len() - next,
{
    if next == desired.len() {
        assert(desired.take(next) =~= desired);
    } else {
        let space = desired[next];
        let p = among(begun);
        assert(desired.take(next + 1) =~= desired.take(next).push(space));
        desired.take(next).lemma_filter_push(space, p);
        if !order.contains(space) {
            lemma_walked(order, desired, next + 1, chain, begun);
        } else if chain.len() == 0 {
            let at = choose|at: int| 0 <= at < order.len() && order[at] == space;
            let grown = chain.push(space);
            assert(order.subrange(at, at + 1) =~= grown);
            assert(chain_at(order, grown, at));
            lemma_walked(order, desired, next + 1, grown, begun);
        } else if stands_behind(order, space, chain.last()) {
            lemma_chain_grows(order, chain, space);
            lemma_walked(order, desired, next + 1, chain.push(space), begun);
        } else {
            assert(!chain.contains(space)) by {
                if chain.contains(space) {
                    let done = desired.take(next);
                    let i = choose|i: int| 0 <= i < chain.len() && chain[i] == space;
                    done.lemma_filter_contains_rev(p, space);
                    let j = choose|j: int| 0 <= j < done.len() && done[j] == space;
                    assert(desired[j] == desired[next]);
                }
            }
            lemma_chain_moved(order, chain, space);
            lemma_moved_holds(order, space, chain.last());
            lemma_walked(
                moved_behind(order, space, chain.last()),
                desired,
                next + 1,
                chain.push(space),
                begun,
            );
        }
    }
}

/// A walk whose moves are all carried out leaves the desired desktops that the
/// display lists right behind one another, in the order desired, and neither
/// adds a desktop nor takes one away.
pub proof fn a_walk_puts_desktops_in_order(order: Seq<SpaceId>, desired: Seq<SpaceId>)
    requires
        order.no_duplicates(),
        desired.no_duplicates(),
    ensures
        ({
            let (end, stands) = walked(order, desired, 0, Seq::empty());
            &&& stands == desired.filter(among(order))
            &&& unbroken(end, stands)
            &&& forall|x: SpaceId| #[trigger] end.contains(x) == order.contains(x)
        }),
{
    assert(desired.take(0) =~= Seq::<SpaceId>::empty());
    assert(desired.take(0).filter(among(order)) =~= Seq::<SpaceId>::empty());
    lemma_walked(order, desired, 0, Seq::empty(), order);
}

/// A desktop that is moved stands right behind the other; every other desktop keeps its
/// place among the rest.
pub proof fn a_moved_desktop_stands_behind(
    order: Seq<SpaceId>,
    space: SpaceId,
    after: SpaceId,
    at: int,
)
    requires
        space != after,
        0 <= at < order.filter(not_among(seq![space])).len(),
        order.filter(not_among(seq![space]))[at] == after,
        forall|i: int|
            0 <= i < at ==> #[trigger] order.filter(not_among(seq![space]))[i] != after,
    ensures
        ({
            let rest = order.filter(not_among(seq![space]));
            let end = moved_behind(order, space, after);
            &&& end[at] == after
            &&& end[at + 1] == space
            &&& end.len() == rest.len() + 1
            &&& end.remove(at + 1) == rest
        }),
{
    let rest = order.filter(not_among(seq![space]));
    assert(first_at(rest, after, at));
    let k = choose|k: int| first_at(rest, after, k);
    if k < at {
        assert(rest[k] != after);
    } else if at < k {
        assert(rest[at] != after);
    }
    assert(rest.insert(at + 1, space).remove(at + 1) =~= rest);
}

/// Behind a desktop that is not there the moved one goes last.
pub proof fn a_desktop_behind_none_goes_last(order: Seq<SpaceId>, space: SpaceId, after: SpaceId)
    requires
        !order.filter(not_among(seq![space])).contains(after),
    ensures
        moved_behind(order, space, after) == order.filter(not_among(seq![space])).push(space),
{
    let rest = order.filter(not_among(seq![space]));
    if exists|at: int| first_at(rest, after, at) {
        let at = choose|at: int| first_at(rest, after, at);
        assert(rest[at] == after);
    }
}

/// A walk asks for no move for a desktop that is not listed, for the first that is, and for
/// one that stands behind the one before it; and it stops at the first that does not.
pub proof fn what_a_walk_deals_with(
    order: Seq<SpaceId>,
    desired: Seq<SpaceId>,
    next: int,
    chain: Seq<SpaceId>,
)
    requires
        0 <= next < desired.len(),
    ensures
        !order.contains(desired[next]) ==> dealt_with(order, desired, next, chain) == dealt_with(
            order,
            desired,
            next + 1,
            chain,
        ),
        order.contains(desired[next]) && chain.len() == 0 ==> dealt_with(order, desired, next, chain)
            == dealt_with(order, desired, next + 1, chain.push(desired[next])),
        order.contains(desired[next]) && chain.len() > 0 && stands_behind(
            order,
            desired[next],
            chain.last(),
        ) ==> dealt_with(order, desired, next, chain) == dealt_with(
            order,
            desired,
            next + 1,
            chain.push(desired[next]),
        ),
        order.contains(desired[next]) && chain.len() > 0 && !stands_behind(
            order,
            desired[next],
            chain.last(),
        ) ==> dealt_with(order, desired, next, chain) == (next, chain),
        dealt_with(order, desired, desired.len() as int, chain) == (desired.len() as int, chain),
{
}

/// A desktop stands behind another if the place of its first occurrence comes right after
/// that of the other.
pub proof fn when_a_desktop_stands_behind(
    order: Seq<SpaceId>,
    space: SpaceId,
    after: SpaceId,
    a: int,
    b: int,
)
    requires
        order.no_duplicates(),
        0 <= a < order.len(),
        0 <= b < order.len(),
        order[a] == after,
        order[b] == space,
    ensures
        stands_behind(order, space, after) <==> b == a + 1,
{
    assert(first_at(order, after, a));
    assert(first_at(order, space, b));
}

} // verus!
