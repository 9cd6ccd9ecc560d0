use vstd::prelude::*;
use vstd::rwlock::{RwLock, RwLockPredicate};
use crate::ledger::{
    apply_result, result_view, snapshot_of, AccountLedger, LedgerModel, Snapshot,
};
use crate::record::{description_ok, Kind, Rejection};
use crate::registry::{entries_map, ids_unique, AccountRegistry};

verus! {

/// What every ledger held behind an account's lock satisfies: the ledger
/// invariant, with the account's configured limit.
pub struct LedgerPred {
    pub limit: i64,
}

impl RwLockPredicate<AccountLedger> for LedgerPred {
    open spec fn inv(self, v: AccountLedger) -> bool {
        v@.wf() && v@.limit == self.limit as int
    }
}

/// One account's ledger behind its own lock.
pub struct AccountSlot {
    id: i32,
    ledger: RwLock<AccountLedger, LedgerPred>,
}

/// All accounts' ledgers. Each ledger has its own lock, so operations on one
/// account are serialized while different accounts proceed independently.
pub struct LedgerStore {
    slots: Vec<AccountSlot>,
}

/// Whether ledger state `m` may be held for an account with limit `limit`.
pub open spec fn state_for(m: LedgerModel, limit: int) -> bool {
    m.wf() && m.limit == limit
}

impl LedgerStore {
    /// The (id, limit) pair of each account, in store order.
    pub closed spec fn entries_seq(&self) -> Seq<(i32, i64)> {
        self.slots@.map_values(|s: AccountSlot| (s.id, s.ledger.pred().limit))
    }

    /// The configured limit of each account held.
    pub open spec fn accounts(&self) -> Map<int, int> {
        entries_map(self.entries_seq())
    }

    /// Well-formed: each account occurs once.
    pub open spec fn wf(&self) -> bool {
        ids_unique(self.entries_seq())
    }

    /// A store with a fresh ledger (zero balance, empty history) for each
    /// account of the registry.
    pub fn new(registry: &AccountRegistry) -> (r: LedgerStore)
        requires
            registry.wf(),
        ensures
            r.wf(),
            r.accounts() == registry@,
    {
        let entries = registry.entries();
        let mut slots: Vec<AccountSlot> = Vec::new();
        let mut i: usize = 0;
        while i < entries.len()
            invariant
                entries@ == registry.entries_seq(),
                registry.wf(),
                i <= entries@.len(),
                slots@.len() == i,
                slots@.map_values(|s: AccountSlot| (s.id, s.ledger.pred().limit)) =~= entries@.subrange(
                    0,
                    i as int,
                ),
            decreases entries@.len() - i,
        {
            let (id, limit) = entries[i];
            assert(registry.entries_seq()[i as int].1 >= 0);
            let ledger = AccountLedger::new(limit);
            let pred = Ghost(LedgerPred { limit });
            let lock = RwLock::new(ledger, pred);
            let ghost before = slots@;
            slots.push(AccountSlot { id, ledger: lock });
            proof {
                assert(slots@ == before.push(slots@[i as int]));
                assert(slots@[i as int].ledger.pred().limit == limit);
                assert(entries@.subrange(0, i + 1) =~= entries@.subrange(0, i as int).push(entries@[i as int]));
                assert(slots@.map_values(|s: AccountSlot| (s.id, s.ledger.pred().limit)) =~= before.map_values(
                    |s: AccountSlot| (s.id, s.ledger.pred().limit),
                ).push((id, limit)));
            }
            i = i + 1;
        }
        let r = LedgerStore { slots };
        proof {
            assert(r.entries_seq() =~= registry.entries_seq());
        }
        r
    }

    /// Position of account `id`, or `None` when it is not held.
    fn find(&self, id: i32) -> (r: Option<usize>)
        requires
            self.wf(),
        ensures
            r matches Some(i) ==> i < self.slots@.len() && self.slots@[i as int].id == id,
            r is None <==> !self.accounts().contains_key(id as int),
            r matches Some(i) ==> self.accounts()[id as int] == self.slots@[i as int].ledger.pred().limit,
    {
        let ghost e = self.entries_seq();
        proof {
            crate::registry::lemma_entries_map(e);
        }
        let mut i: usize = 0;
        while i < self.slots.len()
            invariant
                e == self.entries_seq(),
                self.wf(),
                i <= self.slots@.len(),
                forall|j: int| 0 <= j < i ==> (#[trigger] self.slots@[j]).id != id,
            decreases self.slots@.len() - i,
        {
            if self.slots[i].id == id {
                proof {
                    crate::registry::lemma_entries_map(e);
                    assert(e[i as int].0 == id);
                }
                return Some(i);
            }
            i = i + 1;
        }
        proof {
            crate::registry::lemma_entries_map(e);
            assert forall|j: int| 0 <= j < e.len() implies (#[trigger] e[j]).0 != id by {
                assert(self.slots@[j].id != id);
            }
        }
        None
    }

    /// Applies a transaction to account `id` under that account's exclusive
    /// lock: `None` when the account is not held; otherwise what applying it
    /// to the account's state at that moment returns (a state that respects
    /// the account's limit).
    pub fn try_apply_at(
        &self,
        id: i32,
        kind: Kind,
        value: i64,
        description: String,
        now: i128,
    ) -> (r: Option<Result<Snapshot, Rejection>>)
        requires
            self.wf(),
            value > 0,
            description_ok(description@),
        ensures
            r is None <==> !self.accounts().contains_key(id as int),
            r matches Some(res) ==> exists|pre: LedgerModel|
                state_for(pre, self.accounts()[id as int])
                    && result_view(res) == apply_result(
                    pre,
                    kind,
                    value as int,
                    description@,
                    now as int,
                ),
    {
        match self.find(id) {
            None => None,
            Some(i) => {
                let (mut ledger, handle) = self.slots[i].ledger.acquire_write();
                let ghost pre = ledger@;
                let res = ledger.try_apply_at(kind, value, description, now);
                handle.release_write(ledger);
                assert(state_for(pre, self.accounts()[id as int]));
                Some(res)
            },
        }
    }

    /// Reads account `id` as of time `as_of` under its lock: `None` when the
    /// account is not held; otherwise the snapshot of one whole state of it.
    pub fn snapshot_at(&self, id: i32, as_of: i128) -> (r: Option<Snapshot>)
        requires
            self.wf(),
        ensures
            r is None <==> !self.accounts().contains_key(id as int),
            r matches Some(s) ==> exists|m: LedgerModel|
                state_for(m, self.accounts()[id as int]) && s@ == snapshot_of(m, as_of as int),
    {
        match self.find(id) {
            None => None,
            Some(i) => {
                let handle = self.slots[i].ledger.acquire_read();
                let ledger = handle.borrow();
                let s = ledger.snapshot_at(as_of);
                let ghost m = ledger@;
                handle.release_read();
                assert(state_for(m, self.accounts()[id as int]));
                Some(s)
            },
        }
    }
}

} // verus!
