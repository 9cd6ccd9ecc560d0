use vstd::prelude::*;
use crate::clock::now_nanos;
use crate::record::{
    description_ok, copy_records, lemma_records_view_prefix, lemma_records_view_prepend, records_view, Kind, RecordModel, Rejection, TransactionRecord,
    HISTORY_LEN,
};

verus! {

/// Mathematical state of one account's ledger.
pub struct LedgerModel {
    pub limit: int,
    pub balance: int,
    /// Most recent admitted transactions, newest first.
    pub history: Seq<RecordModel>,
}

impl LedgerModel {
    /// The ledger's invariant: the limit is respected, the history is
    /// bounded, holds only valid records, and is ordered newest first.
    pub open spec fn wf(self) -> bool {
        &&& 0 <= self.limit <= i64::MAX
        &&& -self.limit <= self.balance <= i64::MAX
        &&& self.history.len() <= HISTORY_LEN
        &&& forall|i: int| 0 <= i < self.history.len() ==> (#[trigger] self.history[i]).valid()
        &&& forall|i: int, j: int|
            0 <= i <= j < self.history.len() ==> (#[trigger] self.history[j]).occurred_at
                <= (#[trigger] self.history[i]).occurred_at
    }
}

/// Mathematical form of a snapshot.
pub struct SnapshotModel {
    pub balance: int,
    pub limit: int,
    pub as_of: int,
    pub history: Seq<RecordModel>,
}

/// The balance that a transaction would produce.
pub open spec fn candidate(balance: int, kind: Kind, value: int) -> int {
    match kind {
        Kind::Credit => balance + value,
        Kind::Debit => balance - value,
    }
}

/// Timestamp given to a transaction admitted at clock reading `now`: never
/// earlier than the newest recorded one, so the history stays ordered.
pub open spec fn stamp(history: Seq<RecordModel>, now: int) -> int {
    if history.len() > 0 && history[0].occurred_at > now {
        history[0].occurred_at
    } else {
        now
    }
}

/// A history with `r` prepended and the oldest entries beyond the bound dropped.
pub open spec fn push_bounded(history: Seq<RecordModel>, r: RecordModel) -> Seq<RecordModel> {
    let s = seq![r] + history;
    if s.len() > HISTORY_LEN {
        s.subrange(0, HISTORY_LEN as int)
    } else {
        s
    }
}

/// The outcome of admitting a transaction against ledger state `pre`.
pub open spec fn apply_outcome(
    pre: LedgerModel,
    kind: Kind,
    value: int,
    description: Seq<char>,
    now: int,
) -> Result<LedgerModel, Rejection> {
    let c = candidate(pre.balance, kind, value);
    if c < -pre.limit {
        Err(Rejection::InsufficientLimit)
    } else if c > i64::MAX {
        Err(Rejection::BalanceOverflow)
    } else {
        Ok(
            LedgerModel {
                limit: pre.limit,
                balance: c,
                history: push_bounded(
                    pre.history,
                    RecordModel { value, kind, description, occurred_at: stamp(pre.history, now) },
                ),
            },
        )
    }
}

/// The snapshot of ledger state `m` as of time `as_of`.
pub open spec fn snapshot_of(m: LedgerModel, as_of: int) -> SnapshotModel {
    SnapshotModel { balance: m.balance, limit: m.limit, as_of, history: m.history }
}

/// What a transaction against `pre` returns: the snapshot after it, or the rejection.
pub open spec fn apply_result(
    pre: LedgerModel,
    kind: Kind,
    value: int,
    description: Seq<char>,
    now: int,
) -> Result<SnapshotModel, Rejection> {
    match apply_outcome(pre, kind, value, description, now) {
        Ok(post) => Ok(snapshot_of(post, stamp(pre.history, now))),
        Err(e) => Err(e),
    }
}

/// An admitted transaction keeps the ledger's invariant.
pub proof fn lemma_apply_preserves_wf(
    pre: LedgerModel,
    kind: Kind,
    value: int,
    description: Seq<char>,
    now: int,
)
    requires
        pre.wf(),
        0 < value <= i64::MAX,
        description_ok(description),
        i128::MIN <= now <= i128::MAX,
    ensures
        apply_outcome(pre, kind, value, description, now) matches Ok(post) ==> post.wf()
            && post.limit == pre.limit,
{
    if let Ok(post) = apply_outcome(pre, kind, value, description, now) {
        let r = RecordModel { value, kind, description, occurred_at: stamp(pre.history, now) };
        let s = seq![r] + pre.history;
        assert(forall|i: int| 0 < i < s.len() ==> s[i] == pre.history[i - 1]);
        assert(s[0] == r);
        if s.len() > HISTORY_LEN {
            assert(post.history =~= s.subrange(0, HISTORY_LEN as int));
        }
        assert forall|i: int, j: int|
            0 <= i <= j < post.history.len() implies (#[trigger] post.history[j]).occurred_at
            <= (#[trigger] post.history[i]).occurred_at by {
            if i > 0 {
                assert(pre.history[j - 1].occurred_at <= pre.history[i - 1].occurred_at);
            } else if j > 0 {
                assert(pre.history[j - 1].occurred_at <= pre.history[0].occurred_at);
            }
        }
        assert forall|i: int| 0 <= i < post.history.len() implies (#[trigger] post.history[i]).valid() by {
            if i > 0 {
                assert(pre.history[i - 1].valid());
            }
        }
    }
}

/// A consistent point-in-time copy of one account's balance and history.
#[derive(Debug)]
pub struct Snapshot {
    pub balance: i64,
    pub limit: i64,
    /// Nanoseconds since the Unix epoch at which the state was observed.
    pub as_of: i128,
    /// Newest first.
    pub recent_history: Vec<TransactionRecord>,
}

impl View for Snapshot {
    type V = SnapshotModel;

    open spec fn view(&self) -> SnapshotModel {
        SnapshotModel {
            balance: self.balance as int,
            limit: self.limit as int,
            as_of: self.as_of as int,
            history: records_view(self.recent_history@),
        }
    }
}

/// The model of a transaction's returned value.
pub open spec fn result_view(r: Result<Snapshot, Rejection>) -> Result<SnapshotModel, Rejection> {
    match r {
        Ok(s) => Ok(s@),
        Err(e) => Err(e),
    }
}

/// One account's balance and recent history; the only place they change.
#[derive(Debug)]
pub struct AccountLedger {
    limit: i64,
    balance: i64,
    history: Vec<TransactionRecord>,
}

impl View for AccountLedger {
    type V = LedgerModel;

    closed spec fn view(&self) -> LedgerModel {
        LedgerModel {
            limit: self.limit as int,
            balance: self.balance as int,
            history: records_view(self.history@),
        }
    }
}

impl AccountLedger {
    /// A fresh ledger: zero balance, empty history.
    pub fn new(limit: i64) -> (r: AccountLedger)
        requires
            limit >= 0,
        ensures
            r@ == (LedgerModel { limit: limit as int, balance: 0, history: Seq::empty() }),
            r@.wf(),
    {
        let r = AccountLedger { limit, balance: 0, history: Vec::new() };
        proof {
            assert(records_view(r.history@) =~= Seq::<RecordModel>::empty());
        }
        r
    }

    /// The configured credit limit.
    pub fn limit(&self) -> (r: i64)
        ensures
            r as int == self@.limit,
    {
        self.limit
    }

    /// The current balance.
    pub fn balance(&self) -> (r: i64)
        ensures
            r as int == self@.balance,
    {
        self.balance
    }

    /// The current state as of time `as_of`, read in one step.
    pub fn snapshot_at(&self, as_of: i128) -> (r: Snapshot)
        ensures
            r@ == snapshot_of(self@, as_of as int),
    {
        Snapshot {
            balance: self.balance,
            limit: self.limit,
            as_of,
            recent_history: copy_records(&self.history),
        }
    }

    /// Admits the transaction if the resulting balance respects the limit,
    /// stamping it at clock reading `now` (or later, to keep the history
    /// ordered); a rejection leaves the ledger unchanged.
    pub fn try_apply_at(&mut self, kind: Kind, value: i64, description: String, now: i128) -> (r:
        Result<Snapshot, Rejection>)
        requires
            old(self)@.wf(),
            value > 0,
            description_ok(description@),
        ensures
            final(self)@.wf(),
            final(self)@.limit == old(self)@.limit,
            result_view(r) == apply_result(old(self)@, kind, value as int, description@, now as int),
            match apply_outcome(old(self)@, kind, value as int, description@, now as int) {
                Ok(post) => final(self)@ == post,
                Err(_) => final(self)@ == old(self)@,
            },
    {
        let ghost pre = self@;
        let candidate: i64 = match kind {
            Kind::Credit => {
                if self.balance > i64::MAX - value {
                    return Err(Rejection::BalanceOverflow);
                }
                self.balance + value
            },
            Kind::Debit => {
                if self.balance < value - self.limit {
                    return Err(Rejection::InsufficientLimit);
                }
                self.balance - value
            },
        };
        let occurred_at: i128 = if self.history.len() > 0 && self.history[0].occurred_at > now {
            self.history[0].occurred_at
        } else {
            now
        };
        let record = TransactionRecord { value, kind, description, occurred_at };
        let ghost rm = record@;
        let ghost old_hist = self.history@;
        self.history.insert(0, record);
        self.history.truncate(HISTORY_LEN);
        self.balance = candidate;
        proof {
            lemma_records_view_prepend(old_hist, record);
            let inserted = old_hist.insert(0, record);
            if inserted.len() > HISTORY_LEN {
                lemma_records_view_prefix(inserted, HISTORY_LEN as int);
            }
            assert(rm.occurred_at == stamp(pre.history, now as int));
            lemma_apply_preserves_wf(pre, kind, value as int, description@, now as int);
            assert(self@.history =~= apply_outcome(pre, kind, value as int, description@, now as int)->Ok_0.history);
        }
        Ok(self.snapshot_at(occurred_at))
    }

    /// The current state, read in one step and stamped with the current time.
    pub fn snapshot(&self) -> (r: Snapshot)
        ensures
            r@ == snapshot_of(self@, r.as_of as int),
    {
        self.snapshot_at(now_nanos())
    }

    /// Admits the transaction as `try_apply_at` does, at the current clock
    /// reading.
    pub fn try_apply(&mut self, kind: Kind, value: i64, description: String) -> (r: Result<
        Snapshot,
        Rejection,
    >)
        requires
            old(self)@.wf(),
            value > 0,
            description_ok(description@),
        ensures
            final(self)@.wf(),
            final(self)@.limit == old(self)@.limit,
            exists|now: int|
                i128::MIN <= now <= i128::MAX && result_view(r) == apply_result(
                    old(self)@,
                    kind,
                    value as int,
                    description@,
                    now,
                ) && match apply_outcome(old(self)@, kind, value as int, description@, now) {
                    Ok(post) => final(self)@ == post,
                    Err(_) => final(self)@ == old(self)@,
                },
    {
        let now = now_nanos();
        self.try_apply_at(kind, value, description, now)
    }
}

} // verus!
