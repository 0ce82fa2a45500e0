//! The frame writes sent to each window, and which of them is the last.
//!
//! `F` is a window's frame, which is kept and handed back as it is.

use vstd::prelude::*;

use crate::clock::{earlier, elapsed, Nanos};
use crate::ids::WindowServerId;
use crate::table::Table;

verus! {

/// A per-window counter that tracks the last time a request to change the
/// window frame was sent.
#[derive(Debug, Clone, Copy, PartialEq, Eq, Structural)]
pub struct TransactionId(pub u32);

impl Default for TransactionId {
    fn default() -> (first: TransactionId)
        ensures
            first == TransactionId(0),
    {
        TransactionId(0)
    }
}

impl TransactionId {
    /// The id after this one, going round at the end.
    pub open spec fn spec_next(self) -> TransactionId {
        TransactionId(
            if self.0 == u32::MAX {
                0
            } else {
                (self.0 + 1) as u32
            },
        )
    }

    /// The id after this one, going round at the end.
    #[verifier::when_used_as_spec(spec_next)]
    pub fn next(self) -> (id: TransactionId)
        ensures
            id == self.spec_next(),
    {
        TransactionId(self.0.wrapping_add(1))
    }
}

/// The frame a window was last asked to take, and when.
#[derive(Debug, Clone, Copy)]
pub struct TxTarget<F> {
    pub frame: F,
    pub sent: Nanos,
}

/// What was last sent to a window.
#[derive(Debug, Clone, Copy)]
pub struct TxRecord<F> {
    pub txid: TransactionId,
    pub target: Option<TxTarget<F>>,
}

/// What was last sent to each window.
#[derive(Debug)]
pub struct WindowTxStore<F> {
    pub records: Table<WindowServerId, TxRecord<F>>,
}

impl<F> WindowTxStore<F> {
    pub fn new() -> (store: WindowTxStore<F>)
        ensures
            store.records.wf(),
            store.records@ == Map::<WindowServerId, TxRecord<F>>::empty(),
    {
        WindowTxStore { records: Table::new() }
    }
}

/// Manages window transaction ids and their target frames.
#[derive(Debug)]
pub struct TransactionManager<F> {
    pub store: WindowTxStore<F>,
}

/// The last id of a window, or the first there is.
pub open spec fn last_id<F>(record: Option<TxRecord<F>>) -> TransactionId {
    match record {
        Some(record) => record.txid,
        None => TransactionId(0),
    }
}

/// The target of a window, if it has one.
pub open spec fn target_of<F>(record: Option<TxRecord<F>>) -> Option<TxTarget<F>> {
    match record {
        Some(record) => record.target,
        None => None,
    }
}

/// The store once `entries` were sent at `now`, in order.
pub open spec fn with_sent<F>(
    records: Map<WindowServerId, TxRecord<F>>,
    entries: Seq<(WindowServerId, TransactionId, F)>,
    now: Nanos,
) -> Map<WindowServerId, TxRecord<F>>
    decreases entries.len(),
{
    if entries.len() == 0 {
        records
    } else {
        let (wsid, txid, frame) = entries.last();
        with_sent(records, entries.drop_last(), now).insert(
            wsid,
            TxRecord { txid, target: Some(TxTarget { frame, sent: now }) },
        )
    }
}

impl<F> TransactionManager<F> {
    pub open spec fn wf(&self) -> bool {
        self.store.records.wf()
    }

    /// What was last sent to each window.
    pub open spec fn view(&self) -> Map<WindowServerId, TxRecord<F>> {
        self.store.records@
    }

    /// What was last sent to one window.
    pub open spec fn sent_to(&self, wsid: WindowServerId) -> Option<TxRecord<F>> {
        self.store.records.at(wsid)
    }

    pub fn new(store: WindowTxStore<F>) -> (manager: TransactionManager<F>)
        requires
            store.records.wf(),
        ensures
            manager.wf(),
            manager.store == store,
    {
        TransactionManager { store }
    }

    /// Stores a transaction id for a window with its target frame.
    pub fn store_txid(&mut self, wsid: WindowServerId, txid: TransactionId, target: F, now: Nanos)
        requires
            old(self).wf(),
        ensures
            final(self).wf(),
            final(self)@ == old(self)@.insert(
                wsid,
                (TxRecord { txid, target: Some(TxTarget { frame: target, sent: now }) }),
            ),
    {
        self.store.records.insert(
            wsid,
            TxRecord { txid, target: Some(TxTarget { frame: target, sent: now }) },
        );
    }

    /// Stores several transaction ids, in order.
    pub fn update_txid_entries(
        &mut self,
        entries: Vec<(WindowServerId, TransactionId, F)>,
        now: Nanos,
    )
        requires
            old(self).wf(),
        ensures
            final(self).wf(),
            final(self)@ == with_sent(old(self)@, entries@, now),
    {
        let ghost begun = self@;
        let ghost all = entries@;
        let mut rest = entries;
        let mut turned: Vec<(WindowServerId, TransactionId, F)> = Vec::new();
        assert(all.take(rest@.len() as int) =~= all);
        while rest.len() > 0
            invariant
                rest@.len() + turned@.len() == all.len(),
                rest@ == all.take(rest@.len() as int),
                forall|i: int|
                    0 <= i < turned@.len() ==> #[trigger] turned@[i] == all[all.len() - 1 - i],
            decreases rest@.len(),
        {
            let ghost len = rest@.len();
            let entry = rest.pop();
            match entry {
                Some(entry) => {
                    turned.push(entry);
                },
                None => {},
            }
            assert(rest@ =~= all.take(len - 1));
        }
        let ghost mut done: int = 0;
        while turned.len() > 0
            invariant
                self.wf(),
                0 <= done <= all.len(),
                turned@.len() == all.len() - done,
                forall|i: int|
                    0 <= i < turned@.len() ==> #[trigger] turned@[i] == all[all.len() - 1 - i],
                self@ == with_sent(begun, all.take(done), now),
            decreases turned@.len(),
        {
            let entry = turned.pop();
            match entry {
                Some((wsid, txid, frame)) => {
                    proof {
                        assert((wsid, txid, frame) == all[done]);
                        assert(all.take(done + 1).drop_last() =~= all.take(done));
                        assert(all.take(done + 1).last() == all[done]);
                        done = done + 1;
                    }
                    self.store_txid(wsid, txid, frame, now);
                },
                None => {},
            }
        }
        assert(all.take(done) =~= all);
    }

    /// Removes the entry for a window.
    pub fn remove_for_window(&mut self, wsid: WindowServerId)
        requires
            old(self).wf(),
        ensures
            final(self).wf(),
            final(self)@ == old(self)@.remove(wsid),
    {
        let _ = self.store.records.remove(&wsid);
    }

    /// Clears the pending target for a window while preserving its last id.
    pub fn clear_target_for_window(&mut self, wsid: WindowServerId)
        requires
            old(self).wf(),
        ensures
            final(self).wf(),
            final(self)@ == match old(self).sent_to(wsid) {
                Some(record) => old(self)@.insert(
                    wsid,
                    (TxRecord { target: None, ..record }),
                ),
                None => old(self)@,
            },
    {
        let txid = match self.store.records.get(&wsid) {
            Some(record) => record.txid,
            None => {
                return;
            },
        };
        self.store.records.insert(wsid, TxRecord { txid, target: None });
    }

    /// Generates the next transaction id for a window. A pending target stays.
    pub fn generate_next_txid(&mut self, wsid: WindowServerId) -> (txid: TransactionId)
        requires
            old(self).wf(),
        ensures
            final(self).wf(),
            txid == last_id(old(self).sent_to(wsid)).next(),
            final(self)@ == old(self)@.insert(
                wsid,
                (TxRecord { txid, target: target_of(old(self).sent_to(wsid)) }),
            ),
    {
        let txid = self.get_last_sent_txid(wsid).next();
        self.set_last_sent_txid(wsid, txid);
        txid
    }

    /// A frame is written to a window: its id, and the target it is waited for
    /// at. A window that the window server does not know has the first id, and
    /// nothing is waited for.
    pub fn begin_write(&mut self, wsid: Option<WindowServerId>, target: F, now: Nanos) -> (txid:
        TransactionId)
        requires
            old(self).wf(),
        ensures
            final(self).wf(),
            match wsid {
                Some(wsid) => txid == last_id(old(self).sent_to(wsid)).next() && final(self)@
                    == old(self)@.insert(
                    wsid,
                    (TxRecord { txid, target: Some(TxTarget { frame: target, sent: now }) }),
                ),
                None => txid == TransactionId(0) && *final(self) == *old(self),
            },
    {
        match wsid {
            Some(wsid) => {
                let ghost before = self@;
                let txid = self.generate_next_txid(wsid);
                self.store_txid(wsid, txid, target, now);
                proof {
                    let record = TxRecord {
                        txid,
                        target: Some(TxTarget { frame: target, sent: now }),
                    };
                    assert(self@ =~= before.insert(wsid, record));
                }
                txid
            },
            None => TransactionId::default(),
        }
    }

    /// Sets the last sent transaction id for a window. A pending target stays.
    pub fn set_last_sent_txid(&mut self, wsid: WindowServerId, txid: TransactionId)
        requires
            old(self).wf(),
        ensures
            final(self).wf(),
            final(self)@ == old(self)@.insert(
                wsid,
                (TxRecord { txid, target: target_of(old(self).sent_to(wsid)) }),
            ),
    {
        let ghost begun = self@;
        let target = match self.store.records.remove(&wsid) {
            Some(record) => record.target,
            None => None,
        };
        self.store.records.insert(wsid, TxRecord { txid, target });
        assert(self@ =~= begun.insert(wsid, (TxRecord { txid, target })));
    }

    /// Gets the last sent transaction id for a window.
    pub fn get_last_sent_txid(&self, wsid: WindowServerId) -> (txid: TransactionId)
        requires
            self.wf(),
        ensures
            txid == last_id(self.sent_to(wsid)),
    {
        match self.store.records.get(&wsid) {
            Some(record) => record.txid,
            None => TransactionId(0),
        }
    }

    /// Gets the target frame for a window's transaction, if it exists.
    pub fn get_target_frame(&self, wsid: WindowServerId) -> (frame: Option<&F>)
        requires
            self.wf(),
        ensures
            match frame {
                Some(frame) => target_of(self.sent_to(wsid)) matches Some(target) && target.frame
                    == *frame,
                None => target_of(self.sent_to(wsid)) is None,
            },
    {
        match self.store.records.get(&wsid) {
            Some(record) => match &record.target {
                Some(target) => Some(&target.frame),
                None => None,
            },
            None => None,
        }
    }

    /// Makes a window's pending target older than it is.
    pub fn backdate_target(&mut self, wsid: WindowServerId, by: Nanos)
        requires
            old(self).wf(),
        ensures
            final(self).wf(),
            match old(self).sent_to(wsid) {
                Some(record) => match record.target {
                    Some(target) => final(self)@ == old(self)@.insert(
                        wsid,
                        (TxRecord {
                            target: Some(
                                (TxTarget { sent: earlier(target.sent, by), ..target }),
                            ),
                            ..record
                        }),
                    ),
                    None => final(self)@ == old(self)@,
                },
                None => final(self)@ == old(self)@,
            },
    {
        let ghost begun = self@;
        match self.store.records.remove(&wsid) {
            Some(record) => {
                let target = match record.target {
                    Some(target) => Some(
                        TxTarget { sent: earlier(target.sent, by), frame: target.frame },
                    ),
                    None => None,
                };
                self.store.records.insert(wsid, TxRecord { txid: record.txid, target });
                proof {
                    let now = TxRecord { txid: record.txid, target };
                    assert(self@ =~= begun.insert(wsid, now));
                    if record.target is None {
                        assert(begun.insert(wsid, now) =~= begun);
                    }
                }
            },
            None => {},
        }
    }

    /// Whether a target is pending for the window and was sent within `within`:
    /// a write still to be believed over the window server's report.
    pub fn target_sent_within(&self, wsid: WindowServerId, within: Nanos, now: Nanos) -> (recent:
        bool)
        requires
            self.wf(),
        ensures
            recent == (target_of(self.sent_to(wsid)) matches Some(target) && elapsed(
                now,
                target.sent,
            ) <= within),
    {
        match self.store.records.get(&wsid) {
            Some(record) => match &record.target {
                Some(target) => elapsed(now, target.sent) <= within,
                None => false,
            },
            None => false,
        }
    }
}

/// Ids do not repeat until the counter has gone all the way round: `n` steps
/// lead to another id, for every `n` below the number of ids.
pub proof fn ids_do_not_repeat(id: TransactionId, n: nat)
    requires
        0 < n <= u32::MAX,
    ensures
        after_steps(id, n) != id,
{
    lemma_after_steps(id, n);
}

/// The id `n` steps after `id`.
pub open spec fn after_steps(id: TransactionId, n: nat) -> TransactionId
    decreases n,
{
    if n == 0 {
        id
    } else {
        after_steps(id, (n - 1) as nat).next()
    }
}

proof fn lemma_after_steps(id: TransactionId, n: nat)
    requires
        n <= u32::MAX,
    ensures
        after_steps(id, n).0 == if id.0 + n <= u32::MAX {
            id.0 + n
        } else {
            id.0 + n - u32::MAX - 1
        },
    decreases n,
{
    if n > 0 {
        lemma_after_steps(id, (n - 1) as nat);
    }
}

/// The last id of a window is the one sent last, and the first where none was; its target
/// is the one sent last, if that still stands.
pub proof fn what_was_sent_last<F>(record: TxRecord<F>)
    ensures
        last_id(Some(record)) == record.txid,
        last_id::<F>(None) == TransactionId(0),
        target_of(Some(record)) == record.target,
        target_of::<F>(None) is None,
        record.txid.0 < u32::MAX ==> record.txid.next().0 == record.txid.0 + 1,
        TransactionId(u32::MAX).next() == TransactionId(0),
{
}

/// Of several writes the last to each window stands, sent now; windows that none went to
/// keep what they had.
pub proof fn the_last_write_stands<F>(
    records: Map<WindowServerId, TxRecord<F>>,
    entries: Seq<(WindowServerId, TransactionId, F)>,
    now: Nanos,
    at: int,
    other: WindowServerId,
)
    requires
        0 <= at < entries.len(),
        forall|i: int| at < i < entries.len() ==> (#[trigger] entries[i]).0 != entries[at].0,
        forall|i: int| 0 <= i < entries.len() ==> (#[trigger] entries[i]).0 != other,
    ensures
        ({
            let after = with_sent(records, entries, now);
            &&& after.contains_key(entries[at].0)
            &&& after[entries[at].0].txid == entries[at].1
            &&& after[entries[at].0].target matches Some(target) && target.frame == entries[at].2
                && target.sent == now
            &&& after.contains_key(other) == records.contains_key(other)
            &&& records.contains_key(other) ==> after[other] == records[other]
        }),
    decreases entries.len(),
{
    let front = entries.drop_last();
    let last = entries.len() - 1;
    assert(entries[last].0 != other);
    lemma_not_sent_to(records, front, now, other);
    if at < last {
        assert(entries[last].0 != entries[at].0);
        assert forall|i: int| at < i < front.len() implies (#[trigger] front[i]).0 != front[at].0 by {
            assert(entries[i].0 != entries[at].0);
        }
        assert forall|i: int| 0 <= i < front.len() implies (#[trigger] front[i]).0 != other by {
            assert(entries[i].0 != other);
        }
        the_last_write_stands(records, front, now, at, other);
    } else {
        assert forall|i: int| 0 <= i < front.len() implies (#[trigger] front[i]).0 != other by {
            assert(entries[i].0 != other);
        }
    }
}

proof fn lemma_not_sent_to<F>(
    records: Map<WindowServerId, TxRecord<F>>,
    entries: Seq<(WindowServerId, TransactionId, F)>,
    now: Nanos,
    other: WindowServerId,
)
    ensures
        (forall|i: int| 0 <= i < entries.len() ==> (#[trigger] entries[i]).0 != other) ==> with_sent(
            records,
            entries,
            now,
        ).contains_key(other) == records.contains_key(other) && (records.contains_key(other)
            ==> with_sent(records, entries, now)[other] == records[other]),
    decreases entries.len(),
{
    if entries.len() > 0 && (forall|i: int|
        0 <= i < entries.len() ==> (#[trigger] entries[i]).0 != other) {
        let front = entries.drop_last();
        lemma_not_sent_to(records, front, now, other);
        assert(entries[entries.len() - 1].0 != other);
        assert forall|i: int| 0 <= i < front.len() implies (#[trigger] front[i]).0 != other by {
            assert(entries[i].0 != other);
        }
    }
}

} // verus!
