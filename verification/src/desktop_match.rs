//! Matching the desktops a record remembers against the ones the window
//! server lists now.
//!
//! A desktop's number does not survive a reconfiguration: desktops are
//! destroyed, minted again and moved between displays. What does survive is
//! the windows, so the matching is on content. Every pairing of a recorded
//! desktop with a listed one is scored and the best are taken first.

use vstd::prelude::*;
use vstd::set_lib::lemma_len_intersect;
use crate::ids::{SpaceId, WindowId};
use crate::lists::{dedup, holds, lemma_deduped};
use crate::table::Table;

verus! {

/// A desktop and the windows on it, as recorded or as reported.
#[derive(Clone, Debug, PartialEq, Eq)]
pub struct Desktop {
    pub space: SpaceId,
    /// The display this desktop belonged to, by UUID.
    pub display: Option<String>,
    /// Position within that display's desktops, from the left.
    pub index: usize,
    pub windows: Vec<WindowId>,
}

/// How good a pairing is; only the order matters.
pub type Score = i128;

/// Content agreement dominates everything else.
pub const PER_SHARED_WINDOW: Score = 100;

/// A window that was there and is not costs less than a shared one gains.
pub const PER_MISSING_WINDOW: Score = -30;

/// As does one that is there and was not.
pub const PER_EXTRA_WINDOW: Score = -30;

/// Worth less than a single shared window, as are the two below.
pub const SAME_DISPLAY: Score = 40;

pub const SAME_INDEX: Score = 20;

pub const SAME_SPACE_ID: Score = 10;

/// Two empty desktops have no content to agree on.
pub const BOTH_EMPTY: Score = 30;

/// Below this a pairing is worse than leaving both sides unmatched.
pub const FLOOR: Score = 60;

impl Desktop {
    /// The windows on the desktop.
    pub open spec fn content(&self) -> Set<WindowId> {
        self.windows@.to_set()
    }

    /// Both desktops name a display, and it is the same.
    pub open spec fn shares_display(&self, other: &Desktop) -> bool {
        match (self.display, other.display) {
            (Some(a), Some(b)) => a@ == b@,
            _ => false,
        }
    }
}

/// What the content of the two desktops is worth.
pub open spec fn content_score(before: Set<WindowId>, after: Set<WindowId>) -> int {
    PER_SHARED_WINDOW * before.intersect(after).len() + PER_MISSING_WINDOW * before.difference(
        after,
    ).len() + PER_EXTRA_WINDOW * after.difference(before).len() + if before.is_empty()
        && after.is_empty() {
        BOTH_EMPTY as int
    } else {
        0
    }
}

/// What the place of the two desktops is worth.
pub open spec fn place_score(was: &Desktop, now: &Desktop) -> int {
    (if was.shares_display(now) {
        SAME_DISPLAY + if was.index == now.index {
            SAME_INDEX as int
        } else {
            0
        }
    } else {
        0
    }) + if was.space == now.space {
        SAME_SPACE_ID as int
    } else {
        0
    }
}

/// How much speaks for `now` being the desktop that `was` recorded.
pub open spec fn pair_score(was: &Desktop, now: &Desktop) -> int {
    content_score(was.content(), now.content()) + place_score(was, now)
}

/// Of the distinct windows `these`, how many are among `those`.
fn count_shared(these: &[WindowId], those: &[WindowId]) -> (count: usize)
    requires
        these@.no_duplicates(),
    ensures
        count == these@.to_set().intersect(those@.to_set()).len(),
        count <= these@.len(),
        these@.to_set().difference(those@.to_set()).len() == these@.len() - count,
{
    let mut count: usize = 0;
    let mut i: usize = 0;
    let ghost other = those@.to_set();
    proof {
        assert(these@.take(0).to_set().intersect(other) =~= Set::empty());
        assert(these@.take(0).to_set().difference(other) =~= Set::empty());
    }
    while i < these.len()
        invariant
            these@.no_duplicates(),
            other == those@.to_set(),
            count <= i <= these@.len(),
            these@.take(i as int).to_set().finite(),
            count == these@.take(i as int).to_set().intersect(other).len(),
            these@.take(i as int).to_set().difference(other).len() == i - count,
        decreases these@.len() - i,
    {
        let ghost so_far = these@.take(i as int);
        let ghost item = these@[i as int];
        proof {
            assert(these@.take(i + 1) =~= so_far.push(item));
            so_far.lemma_push_to_set_commute(item);
            assert(!so_far.contains(item));
            if other.contains(item) {
                assert(so_far.to_set().insert(item).intersect(other) =~= so_far.to_set().intersect(
                    other,
                ).insert(item));
                assert(so_far.to_set().insert(item).difference(other)
                    =~= so_far.to_set().difference(other));
            } else {
                assert(so_far.to_set().insert(item).intersect(other) =~= so_far.to_set().intersect(
                    other,
                ));
                assert(so_far.to_set().insert(item).difference(other)
                    =~= so_far.to_set().difference(other).insert(item));
            }
        }
        if holds(those, these[i]) {
            count = count + 1;
        }
        i = i + 1;
    }
    assert(these@.take(i as int) =~= these@);
    count
}

/// Scores `now` as the desktop that `was` recorded.
pub fn score(was: &Desktop, now: &Desktop) -> (total: Score)
    ensures
        total == pair_score(was, now),
{
    let before = dedup(was.windows.as_slice());
    let after = dedup(now.windows.as_slice());
    proof {
        lemma_deduped(was.windows@);
        lemma_deduped(now.windows@);
    }
    let shared = count_shared(before.as_slice(), after.as_slice());
    let shared_back = count_shared(after.as_slice(), before.as_slice());
    proof {
        assert(was.content().intersect(now.content()) =~= now.content().intersect(was.content()));
    }
    let missing = before.len() - shared;
    let extra = after.len() - shared_back;
    let mut total: Score = (shared as Score) * PER_SHARED_WINDOW + (missing as Score)
        * PER_MISSING_WINDOW + (extra as Score) * PER_EXTRA_WINDOW;
    proof {
        assert(was.content().is_empty() <==> before@.len() == 0) by {
            if before@.len() == 0 {
                assert(was.content() =~= Set::empty());
            } else {
                assert(was.content().contains(before@[0]));
            }
        }
        assert(now.content().is_empty() <==> after@.len() == 0) by {
            if after@.len() == 0 {
                assert(now.content() =~= Set::empty());
            } else {
                assert(now.content().contains(after@[0]));
            }
        }
    }
    if before.len() == 0 && after.len() == 0 {
        total = total + BOTH_EMPTY;
    }
    if let (Some(a), Some(b)) = (&was.display, &now.display) {
        if *a == *b {
            total = total + SAME_DISPLAY;
            if was.index == now.index {
                total = total + SAME_INDEX;
            }
        }
    }
    if was.space == now.space {
        total = total + SAME_SPACE_ID;
    }
    total
}

/// What the matching concluded about one recorded desktop.
#[derive(Clone, Copy, Debug, PartialEq, Eq, Structural)]
pub enum Match {
    /// It is this desktop now.
    Is(SpaceId),
    /// Nothing the window server lists is this desktop.
    Gone,
}

/// The result of one matching pass.
#[derive(Clone, Debug)]
pub struct Matching {
    /// Every recorded desktop's verdict.
    pub by_recorded: Table<SpaceId, Match>,
    /// Desktops the window server lists that no recorded desktop claimed.
    pub unclaimed: Vec<SpaceId>,
}

impl Matching {
    pub open spec fn wf(&self) -> bool {
        self.by_recorded.wf()
    }

    /// The desktop `recorded` is now, if it is one.
    pub fn get(&self, recorded: SpaceId) -> (now: Option<SpaceId>)
        requires
            self.wf(),
        ensures
            now == match self.by_recorded.at(recorded) {
                Some(Match::Is(space)) => Some(space),
                _ => None,
            },
    {
        match self.by_recorded.get(&recorded) {
            Some(Match::Is(now)) => Some(*now),
            _ => None,
        }
    }
}

/// Which listed desktop each recorded one is, by position in the two lists.
pub type Pairing = Seq<Option<int>>;

/// The pairing of recorded desktop `i` with listed desktop `j` is good enough.
pub open spec fn candidate(was: Seq<Desktop>, now: Seq<Desktop>, i: int, j: int) -> bool {
    0 <= i < was.len() && 0 <= j < now.len() && pair_score(&was[i], &now[j]) >= FLOOR
}

/// The pairing `(i, j)` goes before `(k, l)`: it scores higher, or the same and
/// comes first in the recorded order, then in the listed one.
pub open spec fn goes_before(
    was: Seq<Desktop>,
    now: Seq<Desktop>,
    i: int,
    j: int,
    k: int,
    l: int,
) -> bool {
    let first = pair_score(&was[i], &now[j]);
    let second = pair_score(&was[k], &now[l]);
    first > second || first == second && (i < k || i == k && j < l)
}

/// `(k, l)` is taken, and stands in the way of `(i, j)`.
pub open spec fn blocks(
    was: Seq<Desktop>,
    now: Seq<Desktop>,
    pairs: Pairing,
    k: int,
    i: int,
    j: int,
) -> bool {
    0 <= k < pairs.len() && pairs[k] is Some && (k == i || pairs[k] == Some(j)) && goes_before(
        was,
        now,
        k,
        pairs[k]->0,
        i,
        j,
    )
}

/// No listed desktop is claimed twice.
pub open spec fn claims_once(pairs: Pairing) -> bool {
    forall|i: int, k: int|
        0 <= i < pairs.len() && 0 <= k < pairs.len() && pairs[i] is Some && #[trigger] pairs[i]
            == #[trigger] pairs[k] ==> i == k
}

/// The best pairings are taken first: only candidates are taken, each desktop
/// at most once, and a candidate is left out only for a better one that shares
/// a desktop with it.
pub open spec fn settled(was: Seq<Desktop>, now: Seq<Desktop>, pairs: Pairing) -> bool {
    &&& pairs.len() == was.len()
    &&& claims_once(pairs)
    &&& forall|i: int|
        0 <= i < pairs.len() && (#[trigger] pairs[i]) is Some ==> candidate(
            was,
            now,
            i,
            pairs[i]->0,
        )
    &&& forall|i: int, j: int|
        #![trigger candidate(was, now, i, j)]
        candidate(was, now, i, j) ==> pairs[i] == Some(j) || exists|k: int|
            blocks(was, now, pairs, k, i, j)
}

/// The one pairing of the two lists that is settled.
pub open spec fn pairing(was: Seq<Desktop>, now: Seq<Desktop>) -> Pairing {
    choose|pairs: Pairing| settled(was, now, pairs)
}

/// A bound on every score a recorded desktop can reach.
spec fn score_ceiling(was: Seq<Desktop>) -> nat
    decreases was.len(),
{
    if was.len() == 0 {
        0
    } else {
        score_ceiling(was.drop_last()) + 100 * was.last().windows@.len() + 100
    }
}

proof fn lemma_score_ceiling(was: Seq<Desktop>, i: int, now: &Desktop)
    requires
        0 <= i < was.len(),
    ensures
        pair_score(&was[i], now) <= score_ceiling(was),
    decreases was.len(),
{
    if i < was.len() - 1 {
        lemma_score_ceiling(was.drop_last(), i, now);
    } else {
        let before = was[i].content();
        let after = now.content();
        was[i].windows@.lemma_cardinality_of_set();
        lemma_deduped(was[i].windows@);
        lemma_len_intersect(before, after);
    }
}

/// Of two settled pairings, what one takes the other takes.
proof fn lemma_settled_agree(
    was: Seq<Desktop>,
    now: Seq<Desktop>,
    a: Pairing,
    b: Pairing,
    i: int,
)
    requires
        settled(was, now, a),
        settled(was, now, b),
        0 <= i < was.len(),
        a[i] is Some,
    ensures
        b[i] == a[i],
    decreases score_ceiling(was) - pair_score(&was[i], &now[a[i]->0]), i, a[i]->0,
{
    let j = a[i]->0;
    assert(candidate(was, now, i, j));
    if b[i] != a[i] {
        let k = choose|k: int| blocks(was, now, b, k, i, j);
        let l = b[k]->0;
        assert(candidate(was, now, k, l));
        lemma_score_ceiling(was, k, &now[l]);
        lemma_score_ceiling(was, i, &now[j]);
        lemma_settled_agree(was, now, b, a, k);
        assert(a[k] == Some(l));
        if l == j {
            assert(a[k] == a[i]);
        }
    }
}

/// There is at most one settled pairing of two lists of desktops.
pub proof fn pairing_is_unique(was: Seq<Desktop>, now: Seq<Desktop>, a: Pairing, b: Pairing)
    requires
        settled(was, now, a),
        settled(was, now, b),
    ensures
        a == b,
{
    assert forall|i: int| 0 <= i < was.len() implies a[i] == b[i] by {
        if a[i] is Some {
            lemma_settled_agree(was, now, a, b, i);
        } else if b[i] is Some {
            lemma_settled_agree(was, now, b, a, i);
        }
    }
    assert(a =~= b);
}

/// A pairing good enough to be taken, with its score.
type Candidate = (Score, usize, usize);

spec fn is_candidate(was: Seq<Desktop>, now: Seq<Desktop>, c: Candidate) -> bool {
    candidate(was, now, c.1 as int, c.2 as int) && c.0 == pair_score(
        &was[c.1 as int],
        &now[c.2 as int],
    )
}

/// The order in which candidates are looked at.
spec fn ranks(a: Candidate, b: Candidate) -> bool {
    a.0 > b.0 || a.0 == b.0 && (a.1 < b.1 || a.1 == b.1 && a.2 < b.2)
}

spec fn ranked(list: Seq<Candidate>) -> bool {
    forall|x: int, y: int|
        0 <= x < y < list.len() ==> ranks(#[trigger] list[x], #[trigger] list[y])
}

/// `list` holds the pairing of `i` with `j`.
spec fn holds_pair(list: Seq<Candidate>, i: int, j: int) -> bool {
    exists|x: int| 0 <= x < list.len() && (#[trigger] list[x]).1 == i && list[x].2 == j
}

/// Puts `c` where it belongs in a ranked list that does not hold its pairing.
fn insert_ranked(list: &mut Vec<Candidate>, c: Candidate)
    requires
        ranked(old(list)@),
        !holds_pair(old(list)@, c.1 as int, c.2 as int),
    ensures
        ranked(final(list)@),
        exists|at: int| 0 <= at <= old(list)@.len() && final(list)@ == old(list)@.insert(at, c),
{
    let mut at: usize = list.len();
    while at > 0 && (c.0 > list[at - 1].0 || (c.0 == list[at - 1].0 && (c.1 < list[at - 1].1 || (
    c.1 == list[at - 1].1 && c.2 < list[at - 1].2))))
        invariant
            at <= list@.len(),
            forall|x: int| at <= x < list@.len() ==> ranks(c, #[trigger] list@[x]),
        decreases at,
    {
        at = at - 1;
    }
    proof {
        if at > 0 {
            assert(list@[at - 1].1 != c.1 || list@[at - 1].2 != c.2);
            assert(ranks(list@[at - 1], c));
            assert forall|x: int| 0 <= x < at implies ranks(#[trigger] list@[x], c) by {
                if x < at - 1 {
                    assert(ranks(list@[x], list@[at - 1]));
                }
            }
        }
    }
    let ghost before = list@;
    list.insert(at, c);
    proof {
        let after = before.insert(at as int, c);
        assert(list@ == after);
        assert forall|x: int, y: int| 0 <= x < y < after.len() implies ranks(
            #[trigger] after[x],
            #[trigger] after[y],
        ) by {
            let fx = if x < at { x } else { x - 1 };
            let fy = if y < at { y } else { y - 1 };
            if x != at {
                assert(after[x] == before[fx]);
            }
            if y != at {
                assert(after[y] == before[fy]);
            }
        }
    }
}

/// Every candidate, best first.
fn ranked_candidates(was: &[Desktop], now: &[Desktop]) -> (list: Vec<Candidate>)
    ensures
        ranked(list@),
        forall|x: int| 0 <= x < list@.len() ==> is_candidate(was@, now@, #[trigger] list@[x]),
        forall|i: int, j: int|
            #![trigger candidate(was@, now@, i, j)]
            candidate(was@, now@, i, j) ==> holds_pair(list@, i, j),
{
    let mut list: Vec<Candidate> = Vec::new();
    let mut i: usize = 0;
    while i < was.len()
        invariant
            i <= was@.len(),
            ranked(list@),
            forall|x: int| 0 <= x < list@.len() ==> is_candidate(was@, now@, #[trigger] list@[x]),
            forall|x: int| 0 <= x < list@.len() ==> (#[trigger] list@[x]).1 < i,
            forall|k: int, l: int|
                #![trigger candidate(was@, now@, k, l)]
                candidate(was@, now@, k, l) && k < i ==> holds_pair(list@, k, l),
        decreases was@.len() - i,
    {
        let mut j: usize = 0;
        while j < now.len()
            invariant
                i < was@.len(),
                j <= now@.len(),
                ranked(list@),
                forall|x: int|
                    0 <= x < list@.len() ==> is_candidate(was@, now@, #[trigger] list@[x]),
                forall|x: int|
                    0 <= x < list@.len() ==> (#[trigger] list@[x]).1 < i || list@[x].1 == i
                        && list@[x].2 < j,
                forall|k: int, l: int|
                    #![trigger candidate(was@, now@, k, l)]
                    candidate(was@, now@, k, l) && (k < i || k == i && l < j) ==> holds_pair(
                        list@,
                        k,
                        l,
                    ),
            decreases now@.len() - j,
        {
            let s = score(&was[i], &now[j]);
            if s >= FLOOR {
                let ghost before = list@;
                insert_ranked(&mut list, (s, i, j));
                proof {
                    let at = choose|at: int|
                        0 <= at <= before.len() && list@ == before.insert(at, (s, i, j));
                    assert forall|x: int| 0 <= x < list@.len() implies is_candidate(
                        was@,
                        now@,
                        #[trigger] list@[x],
                    ) && (list@[x].1 < i || list@[x].1 == i && list@[x].2 <= j) by {
                        if x != at {
                            let from = if x < at { x } else { x - 1 };
                            assert(list@[x] == before[from]);
                        }
                    }
                    assert forall|k: int, l: int|
                        #![trigger candidate(was@, now@, k, l)]
                        candidate(was@, now@, k, l) && (k < i || k == i && l <= j) implies holds_pair(
                        list@,
                        k,
                        l,
                    ) by {
                        if k == i && l == j {
                            assert(list@[at].1 == k && list@[at].2 == l);
                        } else {
                            assert(holds_pair(before, k, l));
                            let x = choose|x: int|
                                0 <= x < before.len() && (#[trigger] before[x]).1 == k && before[x].2
                                    == l;
                            let to = if x < at { x } else { x + 1 };
                            assert(list@[to] == before[x]);
                        }
                    }
                }
            }
            j = j + 1;
        }
        i = i + 1;
    }
    list
}

/// Among the recorded desktops numbered `space`, the one at `i` was paired last.
pub open spec fn paired_last(
    was: Seq<Desktop>,
    now: Seq<Desktop>,
    pairs: Pairing,
    space: SpaceId,
    i: int,
) -> bool {
    &&& 0 <= i < was.len()
    &&& was[i].space == space
    &&& pairs[i] is Some
    &&& forall|k: int|
        0 <= k < was.len() && k != i && was[k].space == space && (#[trigger] pairs[k]) is Some
            ==> goes_before(was, now, k, pairs[k]->0, i, pairs[i]->0)
}

/// A recorded desktop numbered `space` was left unpaired.
pub open spec fn left_unpaired(was: Seq<Desktop>, pairs: Pairing, space: SpaceId) -> bool {
    exists|i: int| 0 <= i < was.len() && was[i].space == space && (#[trigger] pairs[i]) is None
}

/// What a pairing says of the recorded desktop numbered `space`.
pub open spec fn verdict(
    was: Seq<Desktop>,
    now: Seq<Desktop>,
    pairs: Pairing,
    space: SpaceId,
) -> Option<Match> {
    if left_unpaired(was, pairs, space) {
        Some(Match::Gone)
    } else if exists|i: int| paired_last(was, now, pairs, space, i) {
        let i = choose|i: int| paired_last(was, now, pairs, space, i);
        Some(Match::Is(now[pairs[i]->0].space))
    } else {
        None
    }
}

/// The listed desktops that no recorded one is paired with, in their order.
pub open spec fn unclaimed_spaces(now: Seq<Desktop>, pairs: Pairing) -> Seq<SpaceId>
    decreases now.len(),
{
    if now.len() == 0 {
        seq![]
    } else {
        let front = unclaimed_spaces(now.drop_last(), pairs);
        if pairs.contains(Some(now.len() - 1)) {
            front
        } else {
            front.push(now.last().space)
        }
    }
}

proof fn lemma_paired_last_unique(
    was: Seq<Desktop>,
    now: Seq<Desktop>,
    pairs: Pairing,
    space: SpaceId,
    i: int,
    k: int,
)
    requires
        paired_last(was, now, pairs, space, i),
        paired_last(was, now, pairs, space, k),
    ensures
        i == k,
{
    if i != k {
        assert(goes_before(was, now, k, pairs[k]->0, i, pairs[i]->0));
        assert(goes_before(was, now, i, pairs[i]->0, k, pairs[k]->0));
    }
}

/// `pairs` as indices, read as a pairing.
spec fn as_pairing(pairs: Seq<Option<usize>>) -> Pairing {
    Seq::new(
        pairs.len(),
        |i: int|
            match pairs[i] {
                Some(j) => Some(j as int),
                None => None,
            },
    )
}

/// How far the best-first pass over `list` has come after `done` candidates.
spec fn settled_up_to(
    was: Seq<Desktop>,
    now: Seq<Desktop>,
    list: Seq<Candidate>,
    done: int,
    pairs: Pairing,
) -> bool {
    &&& pairs.len() == was.len()
    &&& claims_once(pairs)
    &&& forall|i: int|
        0 <= i < pairs.len() && (#[trigger] pairs[i]) is Some ==> exists|x: int|
            0 <= x < done && (#[trigger] list[x]).1 == i && list[x].2 == pairs[i]->0
    &&& forall|x: int|
        0 <= x < done ==> pairs[(#[trigger] list[x]).1 as int] == Some(list[x].2 as int)
            || exists|k: int|
            blocks(was, now, pairs, k, list[x].1 as int, list[x].2 as int)
}

/// The verdicts entered after some of the pairings were made.
spec fn verdicts_of(
    was: Seq<Desktop>,
    now: Seq<Desktop>,
    pairs: Pairing,
    entered: Table<SpaceId, Match>,
) -> bool {
    &&& forall|i: int|
        0 <= i < was.len() && (#[trigger] pairs[i]) is Some ==> entered@.contains_key(was[i].space)
    &&& forall|space: SpaceId| #[trigger]
        entered@.contains_key(space) ==> exists|i: int|
            paired_last(was, now, pairs, space, i) && entered@[space] == Match::Is(
                now[pairs[i]->0].space,
            )
}

/// Pairs recorded desktops with current ones by what is on them, the best
/// pairings first.
pub fn match_desktops(was: &[Desktop], now: &[Desktop]) -> (matching: Matching)
    ensures
        matching.wf(),
        settled(was@, now@, pairing(was@, now@)),
        forall|space: SpaceId| #[trigger]
            matching.by_recorded.at(space) == verdict(was@, now@, pairing(was@, now@), space),
        matching.unclaimed@ == unclaimed_spaces(now@, pairing(was@, now@)),
{
    let list = ranked_candidates(was, now);
    let mut pairs: Vec<Option<usize>> = Vec::new();
    let mut taken_now: Vec<bool> = Vec::new();
    let mut i: usize = 0;
    while i < was.len()
        invariant
            i <= was@.len(),
            pairs@.len() == i,
            forall|k: int| 0 <= k < i ==> (#[trigger] pairs@[k]) is None,
        decreases was@.len() - i,
    {
        pairs.push(None);
        i = i + 1;
    }
    let mut j: usize = 0;
    while j < now.len()
        invariant
            j <= now@.len(),
            taken_now@.len() == j,
            forall|k: int| 0 <= k < j ==> !(#[trigger] taken_now@[k]),
        decreases now@.len() - j,
    {
        taken_now.push(false);
        j = j + 1;
    }
    let mut by_recorded: Table<SpaceId, Match> = Table::new();
    let mut x: usize = 0;
    assert forall|l: int| 0 <= l < now@.len() implies #[trigger] taken_now@[l] == as_pairing(
        pairs@,
    ).contains(Some(l)) by {
        if as_pairing(pairs@).contains(Some(l)) {
            let k = choose|k: int|
                0 <= k < as_pairing(pairs@).len() && as_pairing(pairs@)[k] == Some(l);
            assert(pairs@[k] is None);
        }
    }
    while x < list.len()
        invariant
            x <= list@.len(),
            pairs@.len() == was@.len(),
            taken_now@.len() == now@.len(),
            by_recorded.wf(),
            ranked(list@),
            forall|y: int| 0 <= y < list@.len() ==> is_candidate(was@, now@, #[trigger] list@[y]),
            settled_up_to(was@, now@, list@, x as int, as_pairing(pairs@)),
            verdicts_of(was@, now@, as_pairing(pairs@), by_recorded),
            forall|l: int|
                0 <= l < now@.len() ==> #[trigger] taken_now@[l] == as_pairing(pairs@).contains(
                    Some(l),
                ),
        decreases list@.len() - x,
    {
        let (_, i, j) = list[x];
        assert(is_candidate(was@, now@, list@[x as int]));
        let ghost before = as_pairing(pairs@);
        let ghost entered = by_recorded;
        if pairs[i].is_some() || taken_now[j] {
            proof {
                lemma_step_blocked(was@, now@, list@, x as int, before);
            }
        } else {
            pairs.set(i, Some(j));
            taken_now.set(j, true);
            by_recorded.insert(was[i].space, Match::Is(now[j].space));
            proof {
                let after = as_pairing(pairs@);
                assert(after =~= before.update(i as int, Some(j as int)));
                lemma_step_taken(was@, now@, list@, x as int, before);
                lemma_step_entered(was@, now@, list@, x as int, before, entered, by_recorded);
                assert forall|l: int| 0 <= l < now@.len() implies #[trigger] taken_now@[l]
                    == after.contains(Some(l)) by {
                    if l == j {
                        assert(after[i as int] == Some(l));
                    } else if before.contains(Some(l)) {
                        let k = choose|k: int| 0 <= k < before.len() && before[k] == Some(l);
                        assert(after[k] == Some(l));
                    } else if after.contains(Some(l)) {
                        let k = choose|k: int| 0 <= k < after.len() && after[k] == Some(l);
                        assert(before[k] == Some(l));
                    }
                }
            }
        }
        x = x + 1;
    }
    let ghost made = as_pairing(pairs@);
    proof {
        assert(settled(was@, now@, made)) by {
            assert forall|i: int| 0 <= i < made.len() && (#[trigger] made[i]) is Some implies candidate(
                was@,
                now@,
                i,
                made[i]->0,
            ) by {
                let y = choose|y: int|
                    0 <= y < list@.len() && (#[trigger] list@[y]).1 == i && list@[y].2 == made[i]->0;
                assert(is_candidate(was@, now@, list@[y]));
            }
            assert forall|i: int, j: int|
                #![trigger candidate(was@, now@, i, j)]
                candidate(was@, now@, i, j) implies made[i] == Some(j) || exists|k: int|
                blocks(was@, now@, made, k, i, j) by {
                assert(holds_pair(list@, i, j));
                let y = choose|y: int|
                    0 <= y < list@.len() && (#[trigger] list@[y]).1 == i && list@[y].2 == j;
            }
        }
        pairing_is_unique(was@, now@, made, pairing(was@, now@));
    }
    let ghost paired = by_recorded;
    let mut i: usize = 0;
    while i < was.len()
        invariant
            i <= was@.len(),
            pairs@.len() == was@.len(),
            made == as_pairing(pairs@),
            by_recorded.wf(),
            verdicts_of(was@, now@, made, paired),
            forall|space: SpaceId|
                #![trigger by_recorded@.contains_key(space)]
                if left_unpaired(was@.take(i as int), made, space) {
                    by_recorded@.contains_key(space) && by_recorded@[space] == Match::Gone
                } else {
                    by_recorded.at(space) == paired.at(space)
                },
        decreases was@.len() - i,
    {
        let ghost before = by_recorded;
        if pairs[i].is_none() {
            by_recorded.insert(was[i].space, Match::Gone);
        }
        proof {
            assert forall|space: SpaceId|
                #![trigger by_recorded@.contains_key(space)]
                if left_unpaired(was@.take(i + 1), made, space) {
                    by_recorded@.contains_key(space) && by_recorded@[space] == Match::Gone
                } else {
                    by_recorded.at(space) == paired.at(space)
                } by {
                assert(before@.contains_key(space) == before@.contains_key(space));
                let now_left = left_unpaired(was@.take(i + 1), made, space);
                let was_left = left_unpaired(was@.take(i as int), made, space);
                if was_left {
                    let k = choose|k: int|
                        0 <= k < i && was@.take(i as int)[k].space == space && (
                        #[trigger] made[k]) is None;
                    assert(was@.take(i + 1)[k].space == space && made[k] is None);
                    assert(now_left);
                }
                if now_left && !was_left {
                    let k = choose|k: int|
                        0 <= k < i + 1 && was@.take(i + 1)[k].space == space && (
                        #[trigger] made[k]) is None;
                    if k < i {
                        assert(was@.take(i as int)[k].space == space);
                    }
                    assert(k == i);
                }
                if made[i as int] is None && was@[i as int].space == space {
                    assert(was@.take(i + 1)[i as int].space == space);
                    assert(now_left);
                }
            }
        }
        i = i + 1;
    }
    proof {
        assert(was@.take(was@.len() as int) =~= was@);
        assert forall|space: SpaceId| #[trigger]
            by_recorded.at(space) == verdict(was@, now@, made, space) by {
            assert(by_recorded@.contains_key(space) == by_recorded@.contains_key(space));
            if !left_unpaired(was@, made, space) {
                assert(by_recorded.at(space) == paired.at(space));
                if paired@.contains_key(space) {
                    let k = choose|k: int|
                        paired_last(was@, now@, made, space, k) && paired@[space] == Match::Is(
                            now@[made[k]->0].space,
                        );
                    let l = choose|l: int| paired_last(was@, now@, made, space, l);
                    lemma_paired_last_unique(was@, now@, made, space, k, l);
                } else if exists|k: int| paired_last(was@, now@, made, space, k) {
                    let k = choose|k: int| paired_last(was@, now@, made, space, k);
                    assert(made[k] is Some);
                }
            }
        }
    }
    let mut unclaimed: Vec<SpaceId> = Vec::new();
    let mut j: usize = 0;
    while j < now.len()
        invariant
            j <= now@.len(),
            taken_now@.len() == now@.len(),
            forall|l: int| 0 <= l < now@.len() ==> #[trigger] taken_now@[l] == made.contains(Some(l)),
            unclaimed@ == unclaimed_spaces(now@.take(j as int), made),
        decreases now@.len() - j,
    {
        proof {
            assert(now@.take(j + 1).drop_last() =~= now@.take(j as int));
            assert(now@.take(j + 1).last() == now@[j as int]);
        }
        if !taken_now[j] {
            unclaimed.push(now[j].space);
        }
        j = j + 1;
    }
    assert(now@.take(j as int) =~= now@);
    Matching { by_recorded, unclaimed }
}

/// The next candidate shares a desktop with one that was taken.
proof fn lemma_step_blocked(
    was: Seq<Desktop>,
    now: Seq<Desktop>,
    list: Seq<Candidate>,
    x: int,
    pairs: Pairing,
)
    requires
        ranked(list),
        0 <= x < list.len(),
        forall|y: int| 0 <= y < list.len() ==> is_candidate(was, now, #[trigger] list[y]),
        settled_up_to(was, now, list, x, pairs),
        pairs[list[x].1 as int] is Some || pairs.contains(Some(list[x].2 as int)),
    ensures
        settled_up_to(was, now, list, x + 1, pairs),
{
    let i = list[x].1 as int;
    let j = list[x].2 as int;
    assert(is_candidate(was, now, list[x]));
    let k = if pairs[i] is Some {
        i
    } else {
        choose|k: int| 0 <= k < pairs.len() && pairs[k] == Some(j)
    };
    let y = choose|y: int| 0 <= y < x && (#[trigger] list[y]).1 == k && list[y].2 == pairs[k]->0;
    assert(ranks(list[y], list[x]));
    assert(is_candidate(was, now, list[y]));
    assert(blocks(was, now, pairs, k, i, j));
    assert forall|k: int| 0 <= k < pairs.len() && (#[trigger] pairs[k]) is Some implies exists|y: int|
        0 <= y < x + 1 && (#[trigger] list[y]).1 == k && list[y].2 == pairs[k]->0 by {
        let y = choose|y: int| 0 <= y < x && (#[trigger] list[y]).1 == k && list[y].2 == pairs[k]->0;
        assert(0 <= y < x + 1 && list[y].1 == k);
    }
}

/// The next candidate is taken.
proof fn lemma_step_taken(
    was: Seq<Desktop>,
    now: Seq<Desktop>,
    list: Seq<Candidate>,
    x: int,
    pairs: Pairing,
)
    requires
        ranked(list),
        0 <= x < list.len(),
        forall|y: int| 0 <= y < list.len() ==> is_candidate(was, now, #[trigger] list[y]),
        settled_up_to(was, now, list, x, pairs),
        pairs[list[x].1 as int] is None,
        !pairs.contains(Some(list[x].2 as int)),
    ensures
        settled_up_to(
            was,
            now,
            list,
            x + 1,
            pairs.update(list[x].1 as int, Some(list[x].2 as int)),
        ),
{
    let i = list[x].1 as int;
    let j = list[x].2 as int;
    assert(is_candidate(was, now, list[x]));
    let after = pairs.update(i, Some(j));
    assert forall|a: int, b: int|
        0 <= a < after.len() && 0 <= b < after.len() && after[a] is Some && #[trigger] after[a]
            == #[trigger] after[b] implies a == b by {
        if a != i && b != i {
            assert(pairs[a] == pairs[b]);
        } else if a != i {
            assert(pairs[a] == Some(j));
        } else if b != i {
            assert(pairs[b] == Some(j));
        }
    }
    assert forall|k: int| 0 <= k < after.len() && (#[trigger] after[k]) is Some implies exists|y: int|
        0 <= y < x + 1 && (#[trigger] list[y]).1 == k && list[y].2 == after[k]->0 by {
        if k == i {
            assert(list[x].1 == k && list[x].2 == after[k]->0);
        } else {
            assert(pairs[k] is Some);
            let y = choose|y: int|
                0 <= y < x && (#[trigger] list[y]).1 == k && list[y].2 == pairs[k]->0;
            assert(0 <= y < x + 1 && list[y].1 == k);
        }
    }
    assert forall|y: int| 0 <= y < x + 1 implies after[(#[trigger] list[y]).1 as int] == Some(
        list[y].2 as int,
    ) || exists|k: int| blocks(was, now, after, k, list[y].1 as int, list[y].2 as int) by {
        assert(is_candidate(was, now, list[y]));
        if y < x {
            if pairs[list[y].1 as int] != Some(list[y].2 as int) {
                let k = choose|k: int|
                    blocks(was, now, pairs, k, list[y].1 as int, list[y].2 as int);
                assert(blocks(was, now, after, k, list[y].1 as int, list[y].2 as int));
            }
        }
    }
}

/// The verdict of a taken candidate replaces that of an earlier desktop with
/// the same number.
proof fn lemma_step_entered(
    was: Seq<Desktop>,
    now: Seq<Desktop>,
    list: Seq<Candidate>,
    x: int,
    pairs: Pairing,
    before: Table<SpaceId, Match>,
    after: Table<SpaceId, Match>,
)
    requires
        ranked(list),
        0 <= x < list.len(),
        forall|y: int| 0 <= y < list.len() ==> is_candidate(was, now, #[trigger] list[y]),
        settled_up_to(was, now, list, x, pairs),
        pairs[list[x].1 as int] is None,
        verdicts_of(was, now, pairs, before),
        after@ == before@.insert(
            was[list[x].1 as int].space,
            Match::Is(now[list[x].2 as int].space),
        ),
    ensures
        verdicts_of(
            was,
            now,
            pairs.update(list[x].1 as int, Some(list[x].2 as int)),
            after,
        ),
{
    let i = list[x].1 as int;
    let j = list[x].2 as int;
    assert(is_candidate(was, now, list[x]));
    let next = pairs.update(i, Some(j));
    let space = was[i].space;
    assert(paired_last(was, now, next, space, i)) by {
        assert forall|k: int|
            0 <= k < was.len() && k != i && was[k].space == space
                && (#[trigger] next[k]) is Some implies goes_before(
        was, now, k, next[k]->0, i, next[i]->0) by {
            assert(pairs[k] is Some);
            let y = choose|y: int|
                0 <= y < x && (#[trigger] list[y]).1 == k && list[y].2 == pairs[k]->0;
            assert(ranks(list[y], list[x]));
            assert(is_candidate(was, now, list[y]));
        }
    }
    assert forall|other: SpaceId| #[trigger] after@.contains_key(other) implies exists|k: int|
        paired_last(was, now, next, other, k) && after@[other] == Match::Is(
            now[next[k]->0].space,
        ) by {
        if other != space {
            assert(before@.contains_key(other));
            let k = choose|k: int|
                paired_last(was, now, pairs, other, k) && before@[other] == Match::Is(
                    now[pairs[k]->0].space,
                );
            assert(k != i);
            assert forall|m: int|
                0 <= m < was.len() && m != k && was[m].space == other
                    && (#[trigger] next[m]) is Some implies goes_before(
            was, now, m, next[m]->0, k, next[k]->0) by {
                assert(m != i);
                assert(pairs[m] is Some);
            }
            assert(paired_last(was, now, next, other, k));
        } else {
            assert(paired_last(was, now, next, other, i));
        }
    }
    assert forall|k: int| 0 <= k < was.len()
        && (#[trigger] next[k]) is Some implies after@.contains_key(
        was[k].space,
    ) by {
        if k != i {
            assert(pairs[k] is Some);
        }
    }
}

/// Every recorded desktop gets a verdict, and nothing else does.
pub proof fn every_recorded_desktop_is_judged(
    was: Seq<Desktop>,
    now: Seq<Desktop>,
    pairs: Pairing,
    space: SpaceId,
)
    requires
        settled(was, now, pairs),
    ensures
        verdict(was, now, pairs, space) is Some <==> exists|i: int|
            0 <= i < was.len() && (#[trigger] was[i]).space == space,
{
    if exists|i: int| 0 <= i < was.len() && (#[trigger] was[i]).space == space {
        let i = choose|i: int| 0 <= i < was.len() && (#[trigger] was[i]).space == space;
        if pairs[i] is Some {
            if !left_unpaired(was, pairs, space) {
                lemma_someone_is_last(was, now, pairs, space, i, 0);
            }
        }
    } else {
        if left_unpaired(was, pairs, space) {
            let i = choose|i: int|
                0 <= i < was.len() && was[i].space == space && (#[trigger] pairs[i]) is None;
            assert(was[i].space == space);
        }
        if exists|i: int| paired_last(was, now, pairs, space, i) {
            let i = choose|i: int| paired_last(was, now, pairs, space, i);
            assert(was[i].space == space);
        }
    }
}

/// Of the desktops from `from` on, and `best`, one goes after all others
/// numbered `space`.
proof fn lemma_someone_is_last(
    was: Seq<Desktop>,
    now: Seq<Desktop>,
    pairs: Pairing,
    space: SpaceId,
    best: int,
    from: int,
)
    requires
        pairs.len() == was.len(),
        0 <= from <= was.len(),
        0 <= best < was.len(),
        was[best].space == space,
        pairs[best] is Some,
        forall|k: int|
            0 <= k < from && k != best && was[k].space == space && (#[trigger] pairs[k]) is Some
                ==> goes_before(was, now, k, pairs[k]->0, best, pairs[best]->0),
    ensures
        exists|i: int| paired_last(was, now, pairs, space, i),
    decreases was.len() - from,
{
    if from == was.len() {
        assert(paired_last(was, now, pairs, space, best));
    } else if from != best && was[from].space == space && pairs[from] is Some && !goes_before(
        was,
        now,
        from,
        pairs[from]->0,
        best,
        pairs[best]->0,
    ) {
        lemma_someone_is_last(was, now, pairs, space, from, from + 1);
    } else {
        lemma_someone_is_last(was, now, pairs, space, best, from + 1);
    }
}

/// Two recorded desktops never both claim one: where the listed desktops have
/// different numbers, different recorded desktops that are still there are
/// different desktops now.
pub proof fn two_desktops_do_not_claim_one(
    was: Seq<Desktop>,
    now: Seq<Desktop>,
    pairs: Pairing,
    a: SpaceId,
    b: SpaceId,
)
    requires
        settled(was, now, pairs),
        forall|i: int, j: int|
            0 <= i < j < now.len() ==> (#[trigger] now[i]).space != (#[trigger] now[j]).space,
        verdict(was, now, pairs, a) matches Some(Match::Is(_)),
        verdict(was, now, pairs, a) == verdict(was, now, pairs, b),
    ensures
        a == b,
{
    let i = choose|i: int| paired_last(was, now, pairs, a, i);
    let k = choose|k: int| paired_last(was, now, pairs, b, k);
    assert(candidate(was, now, i, pairs[i]->0));
    assert(candidate(was, now, k, pairs[k]->0));
    let j = pairs[i]->0;
    let l = pairs[k]->0;
    if j < l {
        assert(now[j].space != now[l].space);
    } else if l < j {
        assert(now[l].space != now[j].space);
    }
    assert(pairs[i] == pairs[k]);
}

/// A desktop is never claimed by its place alone: what is paired shares a
/// window, or neither holds any.
pub proof fn place_alone_claims_nothing(was: Seq<Desktop>, now: Seq<Desktop>, i: int, j: int)
    requires
        candidate(was, now, i, j),
    ensures
        !was[i].content().disjoint(now[j].content()) || was[i].content().is_empty()
            && now[j].content().is_empty(),
{
    let before = was[i].content();
    let after = now[j].content();
    lemma_deduped(was[i].windows@);
    lemma_deduped(now[j].windows@);
    if before.disjoint(after) {
        assert(before.intersect(after) =~= Set::empty());
        assert(before.difference(after) =~= before);
        assert(after.difference(before) =~= after);
        if !before.is_empty() {
            before.lemma_len0_is_empty();
        }
        if !after.is_empty() {
            after.lemma_len0_is_empty();
        }
    }
}

/// Content outvotes place: with one window more in common and no more that
/// differ, a desktop scores higher wherever it is.
pub proof fn content_outvotes_place(was: &Desktop, better: &Desktop, other: &Desktop)
    requires
        was.content().intersect(better.content()).len() > was.content().intersect(
            other.content(),
        ).len(),
        better.content().difference(was.content()).len() <= other.content().difference(
            was.content(),
        ).len(),
    ensures
        pair_score(was, better) > pair_score(was, other),
{
    let before = was.content();
    lemma_deduped(was.windows@);
    lemma_deduped(better.windows@);
    lemma_deduped(other.windows@);
    lemma_split(before, better.content());
    lemma_split(before, other.content());
    if before.is_empty() {
        assert(before.intersect(better.content()) =~= Set::empty());
    }
    if better.content().is_empty() {
        assert(before.intersect(better.content()) =~= Set::empty());
    }
}

proof fn lemma_split(a: Set<WindowId>, b: Set<WindowId>)
    requires
        a.finite(),
    ensures
        a.intersect(b).len() + a.difference(b).len() == a.len(),
{
    assert(a.intersect(b) + a.difference(b) =~= a);
    vstd::set_lib::lemma_set_disjoint_lens(a.intersect(b), a.difference(b));
}

/// The two desktops have the same number and place.
pub open spec fn same_place(a: &Desktop, b: &Desktop) -> bool {
    a.space == b.space && a.index == b.index && match (a.display, b.display) {
        (Some(x), Some(y)) => x@ == y@,
        (None, None) => true,
        _ => false,
    }
}

/// Every window that is there and was not costs the same, however many there are.
/// The first window of all also ends the agreement of two empty desktops.
pub proof fn an_extra_window_costs_the_same(
    was: &Desktop,
    now: &Desktop,
    fuller: &Desktop,
    window: WindowId,
)
    requires
        same_place(now, fuller),
        fuller.content() == now.content().insert(window),
        !now.content().contains(window),
        !was.content().contains(window),
    ensures
        !(was.content().is_empty() && now.content().is_empty()) ==> pair_score(was, fuller)
            == pair_score(was, now) + PER_EXTRA_WINDOW,
        was.content().is_empty() && now.content().is_empty() ==> pair_score(was, fuller)
            == pair_score(was, now) + PER_EXTRA_WINDOW - BOTH_EMPTY,
{
    let before = was.content();
    let after = now.content();
    lemma_deduped(was.windows@);
    lemma_deduped(now.windows@);
    lemma_deduped(fuller.windows@);
    assert(before.intersect(after.insert(window)) =~= before.intersect(after));
    assert(before.difference(after.insert(window)) =~= before.difference(after));
    assert(after.insert(window).difference(before) =~= after.difference(before).insert(window));
    assert(!after.difference(before).contains(window));
    assert(fuller.content().contains(window));
}

/// Every window that was there and is not costs the same, however many there are.
pub proof fn a_missing_window_costs_the_same(
    was: &Desktop,
    fuller: &Desktop,
    now: &Desktop,
    window: WindowId,
)
    requires
        same_place(was, fuller),
        fuller.content() == was.content().insert(window),
        !was.content().contains(window),
        !now.content().contains(window),
    ensures
        !(was.content().is_empty() && now.content().is_empty()) ==> pair_score(fuller, now)
            == pair_score(was, now) + PER_MISSING_WINDOW,
        was.content().is_empty() && now.content().is_empty() ==> pair_score(fuller, now)
            == pair_score(was, now) + PER_MISSING_WINDOW - BOTH_EMPTY,
{
    let before = was.content();
    let after = now.content();
    lemma_deduped(was.windows@);
    lemma_deduped(now.windows@);
    lemma_deduped(fuller.windows@);
    assert(before.insert(window).intersect(after) =~= before.intersect(after));
    assert(before.insert(window).difference(after) =~= before.difference(after).insert(window));
    assert(after.difference(before.insert(window)) =~= after.difference(before));
    assert(!before.difference(after).contains(window));
    assert(fuller.content().contains(window));
}

/// Every window that was there and still is gains the same, however many there
/// are: one that was missing and is there again gains its weight and costs nothing
/// any more.
pub proof fn a_shared_window_gains_the_same(
    was: &Desktop,
    now: &Desktop,
    fuller: &Desktop,
    window: WindowId,
)
    requires
        same_place(now, fuller),
        fuller.content() == now.content().insert(window),
        !now.content().contains(window),
        was.content().contains(window),
    ensures
        pair_score(was, fuller) == pair_score(was, now) + PER_SHARED_WINDOW - PER_MISSING_WINDOW,
{
    let before = was.content();
    let after = now.content();
    lemma_deduped(was.windows@);
    lemma_deduped(now.windows@);
    lemma_deduped(fuller.windows@);
    assert(before.intersect(after.insert(window)) =~= before.intersect(after).insert(window));
    assert(before.difference(after.insert(window)) =~= before.difference(after).remove(window));
    assert(after.insert(window).difference(before) =~= after.difference(before));
    assert(!before.intersect(after).contains(window));
    assert(before.difference(after).contains(window));
    assert(fuller.content().contains(window));
}

/// Two desktops without windows that have nothing else in common score what two
/// empty desktops are worth.
pub proof fn two_empty_strangers(was: &Desktop, now: &Desktop)
    requires
        was.windows@.len() == 0,
        now.windows@.len() == 0,
        was.space != now.space,
        was.display is None || now.display is None || was.display->0@ != now.display->0@,
    ensures
        pair_score(was, now) == BOTH_EMPTY,
{
    assert(was.content() =~= Set::empty());
    assert(now.content() =~= Set::empty());
    assert(was.content().intersect(now.content()) =~= Set::empty());
    assert(was.content().difference(now.content()) =~= Set::empty());
    assert(now.content().difference(was.content()) =~= Set::empty());
}

/// What the number is worth, and what the place: the index counts on the same
/// display only, and whatever the windows are the worth is the same.
pub proof fn what_a_place_is_worth(was: &Desktop, here: &Desktop, there: &Desktop)
    requires
        here.content() == there.content(),
    ensures
        was.space == here.space && was.space != there.space && here.index == there.index
            && here.display == there.display ==> pair_score(was, here) == pair_score(was, there)
            + SAME_SPACE_ID,
        here.space == there.space && was.display is Some && here.display is Some
            && was.display->0@ == here.display->0@ && was.index != here.index && (
        there.display is None || there.display->0@ != was.display->0@) ==> pair_score(was, here)
            == pair_score(was, there) + SAME_DISPLAY,
        here.space == there.space && was.display is Some && here.display is Some
            && was.display->0@ == here.display->0@ && was.index == here.index && (
        there.display is None || there.display->0@ != was.display->0@) ==> pair_score(was, here)
            == pair_score(was, there) + SAME_DISPLAY + SAME_INDEX,
{
}

/// The weights, against one another and against what is asked of a pairing.
pub proof fn the_weights()
    ensures
        PER_SHARED_WINDOW == 100,
        PER_MISSING_WINDOW == -30,
        PER_EXTRA_WINDOW == -30,
        SAME_DISPLAY == 40,
        SAME_INDEX == 20,
        SAME_SPACE_ID == 10,
        BOTH_EMPTY == 30,
        FLOOR == 60,
{
}

/// What is taken scores enough, and no listed desktop is taken for two.
pub proof fn what_is_taken(
    was: Seq<Desktop>,
    now: Seq<Desktop>,
    pairs: Pairing,
    i: int,
    k: int,
)
    requires
        settled(was, now, pairs),
        0 <= i < was.len(),
        0 <= k < was.len(),
        pairs[i] is Some,
    ensures
        0 <= pairs[i]->0 < now.len(),
        pair_score(&was[i], &now[pairs[i]->0]) >= FLOOR,
        i != k ==> pairs[k] != pairs[i],
{
    assert(candidate(was, now, i, pairs[i]->0));
    if pairs[k] == pairs[i] {
        assert(pairs[i] == pairs[k]);
    }
}

/// Of the pairings that score enough, one against which no other pairing of its
/// two desktops scores more is taken; between equals the one recorded first, then
/// the one listed first.
pub proof fn the_best_pairing_is_taken(
    was: Seq<Desktop>,
    now: Seq<Desktop>,
    pairs: Pairing,
    i: int,
    j: int,
)
    requires
        settled(was, now, pairs),
        0 <= i < was.len(),
        0 <= j < now.len(),
        pair_score(&was[i], &now[j]) >= FLOOR,
        forall|k: int|
            0 <= k < was.len() && k != i ==> pair_score(&#[trigger] was[k], &now[j]) < pair_score(
                &was[i],
                &now[j],
            ) || (pair_score(&was[k], &now[j]) == pair_score(&was[i], &now[j]) && i < k),
        forall|l: int|
            0 <= l < now.len() && l != j ==> pair_score(&was[i], &#[trigger] now[l]) < pair_score(
                &was[i],
                &now[j],
            ) || (pair_score(&was[i], &now[l]) == pair_score(&was[i], &now[j]) && j < l),
    ensures
        pairs[i] == Some(j),
{
    assert(candidate(was, now, i, j));
    if pairs[i] != Some(j) {
        let k = choose|k: int| blocks(was, now, pairs, k, i, j);
        assert(candidate(was, now, k, pairs[k]->0));
        assert(was[k] == was[k]);
        assert(now[pairs[k]->0] == now[pairs[k]->0]);
    }
}

/// A pairing that scores enough is passed over only for one of its two desktops
/// that scores at least as much.
pub proof fn nothing_better_is_passed_over(
    was: Seq<Desktop>,
    now: Seq<Desktop>,
    pairs: Pairing,
    i: int,
    j: int,
)
    requires
        settled(was, now, pairs),
        0 <= i < was.len(),
        0 <= j < now.len(),
        pair_score(&was[i], &now[j]) >= FLOOR,
        pairs[i] != Some(j),
    ensures
        exists|k: int|
            #![trigger pairs[k]]
            0 <= k < was.len() && pairs[k] is Some && (k == i || pairs[k] == Some(j)) && pair_score(
                &was[k],
                &now[pairs[k]->0],
            ) >= pair_score(&was[i], &now[j]),
{
    assert(candidate(was, now, i, j));
    let k = choose|k: int| blocks(was, now, pairs, k, i, j);
    assert(pairs[k] is Some);
}

/// A recorded desktop is now the one it is paired with, and gone if it is paired
/// with none.
pub proof fn the_verdict_is_the_pairing(
    was: Seq<Desktop>,
    now: Seq<Desktop>,
    pairs: Pairing,
    i: int,
)
    requires
        settled(was, now, pairs),
        0 <= i < was.len(),
        forall|x: int, y: int|
            0 <= x < y < was.len() ==> (#[trigger] was[x]).space != (#[trigger] was[y]).space,
    ensures
        verdict(was, now, pairs, was[i].space) == match pairs[i] {
            Some(j) => Some(Match::Is(now[j].space)),
            None => Some(Match::Gone),
        },
{
    let space = was[i].space;
    assert forall|k: int| 0 <= k < was.len() && (#[trigger] was[k]).space == space implies k == i by {
        if k < i {
            assert(was[k].space != was[i].space);
        } else if i < k {
            assert(was[i].space != was[k].space);
        }
    }
    if pairs[i] is Some {
        if left_unpaired(was, pairs, space) {
            let k = choose|k: int|
                0 <= k < was.len() && was[k].space == space && (#[trigger] pairs[k]) is None;
            assert(was[k].space == space);
        }
        assert(paired_last(was, now, pairs, space, i)) by {
            assert forall|k: int|
                0 <= k < was.len() && k != i && was[k].space == space
                    && (#[trigger] pairs[k]) is Some implies goes_before(
            was, now, k, pairs[k]->0, i, pairs[i]->0) by {
                assert(was[k].space == space);
            }
        }
        let l = choose|l: int| paired_last(was, now, pairs, space, l);
        lemma_paired_last_unique(was, now, pairs, space, i, l);
    } else {
        assert(pairs[i] is None);
    }
}

/// A listed desktop is unclaimed if and only if no recorded one is paired with it.
pub proof fn what_is_unclaimed(was: Seq<Desktop>, now: Seq<Desktop>, pairs: Pairing, space: SpaceId)
    ensures
        unclaimed_spaces(now, pairs).contains(space) <==> exists|j: int|
            0 <= j < now.len() && (#[trigger] now[j]).space == space && forall|i: int|
                0 <= i < pairs.len() ==> #[trigger] pairs[i] != Some(j),
    decreases now.len(),
{
    if now.len() > 0 {
        let front = now.drop_last();
        let last = now.len() - 1;
        what_is_unclaimed(was, front, pairs, space);
        let before = unclaimed_spaces(front, pairs);
        let after = unclaimed_spaces(now, pairs);
        if pairs.contains(Some(last)) {
            let i = pairs.index_of(Some(last));
            assert(pairs[i] == Some(last));
        }
        if after.contains(space) {
            let x = after.index_of(space);
            if x < before.len() {
                assert(before[x] == space);
                let j = choose|j: int|
                    0 <= j < front.len() && (#[trigger] front[j]).space == space && forall|i: int|
                        0 <= i < pairs.len() ==> #[trigger] pairs[i] != Some(j);
                assert(now[j].space == space);
            } else {
                assert(now[last].space == space);
            }
        }
        if exists|j: int|
            0 <= j < now.len() && (#[trigger] now[j]).space == space && forall|i: int|
                0 <= i < pairs.len() ==> #[trigger] pairs[i] != Some(j) {
            let j = choose|j: int|
                0 <= j < now.len() && (#[trigger] now[j]).space == space && forall|i: int|
                    0 <= i < pairs.len() ==> #[trigger] pairs[i] != Some(j);
            if j < last {
                assert(front[j].space == space);
                let x = before.index_of(space);
                assert(after[x] == space);
            } else {
                assert(!pairs.contains(Some(last)));
                assert(after[before.len() as int] == space);
            }
        }
    }
}

/// A pairing that is good enough and not taken gives way to one that was: to one that scores
/// higher, or the same and is of a desktop recorded before it, or of the same one and listed
/// before it.
pub proof fn ties_go_to_the_first(
    was: Seq<Desktop>,
    now: Seq<Desktop>,
    pairs: Pairing,
    i: int,
    j: int,
)
    requires
        settled(was, now, pairs),
        0 <= i < was.len(),
        0 <= j < now.len(),
        pair_score(&was[i], &now[j]) >= FLOOR,
        pairs[i] != Some(j),
    ensures
        exists|k: int|
            #![trigger pairs[k]]
            0 <= k < was.len() && pairs[k] is Some && (k == i || pairs[k] == Some(j)) && {
                let taken = pair_score(&was[k], &now[pairs[k]->0]);
                let passed = pair_score(&was[i], &now[j]);
                taken > passed || (taken == passed && (k < i || (k == i && pairs[k]->0 < j)))
            },
{
    assert(candidate(was, now, i, j));
    let k = choose|k: int| blocks(was, now, pairs, k, i, j);
    assert(pairs[k] is Some);
}

} // verus!
