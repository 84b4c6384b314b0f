//! Row versions and their visibility to transactions (multi-version concurrency control).

use vstd::prelude::*;
use crate::catalog::value::Value;

verus! {

/// A transaction's view of which transactions had committed when it was taken.
#[derive(Clone, Debug)]
pub struct Snapshot {
    /// The oldest transaction still running when the snapshot was taken.
    pub xmin: u64,
    /// The newest transaction the snapshot covers.
    pub xmax: u64,
    /// The transactions that were running, so whose effects are not visible.
    pub active_txs: Vec<u64>,
}

impl Snapshot {
    pub fn new(xmin: u64, xmax: u64, active_txs: Vec<u64>) -> (s: Self)
        ensures
            s.xmin == xmin,
            s.xmax == xmax,
            s.active_txs@ == active_txs@,
    {
        Snapshot { xmin, xmax, active_txs }
    }

    /// Whether `tx` was running when the snapshot was taken.
    pub fn is_active(&self, tx: u64) -> (b: bool)
        ensures
            b == self.active_txs@.contains(tx),
    {
        let mut i: usize = 0;
        while i < self.active_txs.len()
            invariant
                i <= self.active_txs@.len(),
                forall|j: int| 0 <= j < i ==> self.active_txs@[j] != tx,
            decreases self.active_txs@.len() - i,
        {
            if self.active_txs[i] == tx {
                return true;
            }
            i = i + 1;
        }
        false
    }
}

/// One version of a row.
#[derive(Clone, Debug)]
pub struct Row {
    pub values: Vec<Value>,
    /// The transaction that created this version.
    pub xmin: u64,
    /// The transaction that deleted this version, if any.
    pub xmax: Option<u64>,
}

/// Read-committed visibility: created at or before `tx`, and not deleted at or before it.
pub open spec fn visible_at(row: Row, tx: u64) -> bool {
    row.xmin <= tx && match row.xmax {
        None => true,
        Some(x) => x > tx,
    }
}

/// Snapshot visibility: the creator had committed within the snapshot, and any
/// deleter had not (it was still running, or came at or after the snapshot's horizon).
pub open spec fn visible_in(row: Row, snap: Snapshot) -> bool {
    &&& !snap.active_txs@.contains(row.xmin)
    &&& row.xmin <= snap.xmax
    &&& match row.xmax {
        None => true,
        Some(x) => snap.active_txs@.contains(x) || x >= snap.xmax,
    }
}

/// Dead: deleted by a transaction no running transaction can still see past.
pub open spec fn dead_at(row: Row, oldest_active_tx: u64) -> bool {
    match row.xmax {
        Some(x) => x <= oldest_active_tx,
        None => false,
    }
}

impl Row {
    /// A live row version whose creator is not yet known (0).
    pub fn new(values: Vec<Value>) -> (r: Self)
        ensures
            r.values == values,
            r.xmin == 0,
            r.xmax.is_none(),
    {
        Row { values, xmin: 0, xmax: None }
    }

    /// A live row version created by `xmin`.
    pub fn new_with_xmin(values: Vec<Value>, xmin: u64) -> (r: Self)
        ensures
            r.values == values,
            r.xmin == xmin,
            r.xmax.is_none(),
    {
        Row { values, xmin, xmax: None }
    }

    /// Whether transaction `current_tx_id` sees this version (read committed).
    pub fn is_visible(&self, current_tx_id: u64) -> (b: bool)
        ensures
            b == visible_at(*self, current_tx_id),
    {
        self.xmin <= current_tx_id && match self.xmax {
            None => true,
            Some(x) => x > current_tx_id,
        }
    }

    /// Whether a transaction working from `snapshot` sees this version.
    pub fn is_visible_to_snapshot(&self, snapshot: &Snapshot) -> (b: bool)
        ensures
            b == visible_in(*self, *snapshot),
    {
        if snapshot.is_active(self.xmin) {
            return false;
        }
        if self.xmin > snapshot.xmax {
            return false;
        }
        match self.xmax {
            Some(x) => {
                if snapshot.is_active(x) {
                    return true;
                }
                if x >= snapshot.xmax {
                    return true;
                }
                false
            },
            None => true,
        }
    }

    /// Whether no running transaction can see this version any more, so it may be removed.
    pub fn is_dead(&self, oldest_active_tx: u64) -> (b: bool)
        ensures
            b == dead_at(*self, oldest_active_tx),
    {
        match self.xmax {
            Some(x) => x <= oldest_active_tx,
            None => false,
        }
    }

    /// Marks the version as deleted by `tx_id`.
    pub fn mark_deleted(&mut self, tx_id: u64)
        ensures
            final(self).xmax == Some(tx_id),
            final(self).xmin == old(self).xmin,
            final(self).values == old(self).values,
    {
        self.xmax = Some(tx_id);
    }
}

/// Once a version is dead for some oldest running transaction, it stays dead as that horizon advances.
pub proof fn law_dead_stays_dead(row: Row, horizon: u64, later: u64)
    requires
        dead_at(row, horizon),
        horizon <= later,
    ensures
        dead_at(row, later),
{
}

/// A version deleted by `tx` is dead exactly for horizons at or after `tx`, and no
/// transaction after `tx` sees it.
pub proof fn law_deleted_version(row: Row, tx: u64, horizon: u64, reader: u64)
    requires
        row.xmax == Some(tx),
    ensures
        dead_at(row, horizon) <==> tx <= horizon,
        reader >= tx ==> !visible_at(row, reader),
{
}

/// A dead version is invisible to every reader at or after the horizon.
pub proof fn law_dead_is_invisible(row: Row, horizon: u64, reader: u64)
    requires
        dead_at(row, horizon),
        reader >= horizon,
    ensures
        !visible_at(row, reader),
{
}

} // verus!
