use vstd::prelude::*;
use crate::ledger::{
    apply_outcome, apply_result, candidate, lemma_apply_preserves_wf, push_bounded, stamp,
    LedgerModel,
};
use crate::record::{description_ok, Kind, RecordModel, Rejection, HISTORY_LEN};

verus! {

/// One transaction offered to a ledger: kind, value, description and the
/// clock reading at which it arrives.
pub struct TxModel {
    pub kind: Kind,
    pub value: int,
    pub description: Seq<char>,
    pub now: int,
}

impl TxModel {
    /// A transaction that passed request validation.
    pub open spec fn well_formed(self) -> bool {
        &&& 0 < self.value <= i64::MAX
        &&& description_ok(self.description)
        &&& i128::MIN <= self.now <= i128::MAX
    }
}

/// Whether every transaction of a run passed request validation.
pub open spec fn all_well_formed(txs: Seq<TxModel>) -> bool {
    forall|i: int| 0 <= i < txs.len() ==> (#[trigger] txs[i]).well_formed()
}

/// The ledger state after offering `t` to `m`: the new state if admitted,
/// `m` itself if rejected.
pub open spec fn step(m: LedgerModel, t: TxModel) -> LedgerModel {
    match apply_outcome(m, t.kind, t.value, t.description, t.now) {
        Ok(post) => post,
        Err(_) => m,
    }
}

/// The ledger state after offering the transactions in order.
pub open spec fn run(m: LedgerModel, txs: Seq<TxModel>) -> LedgerModel
    decreases txs.len(),
{
    if txs.len() == 0 {
        m
    } else {
        step(run(m, txs.drop_last()), txs.last())
    }
}

/// The records of the admitted transactions of a run, in admission order.
pub open spec fn admitted(m: LedgerModel, txs: Seq<TxModel>) -> Seq<RecordModel>
    decreases txs.len(),
{
    if txs.len() == 0 {
        Seq::empty()
    } else {
        let pre = run(m, txs.drop_last());
        let t = txs.last();
        match apply_outcome(pre, t.kind, t.value, t.description, t.now) {
            Ok(post) => admitted(m, txs.drop_last()).push(post.history[0]),
            Err(_) => admitted(m, txs.drop_last()),
        }
    }
}

proof fn lemma_prefix_well_formed(txs: Seq<TxModel>)
    requires
        txs.len() > 0,
        all_well_formed(txs),
    ensures
        all_well_formed(txs.drop_last()),
        txs.last().well_formed(),
{
    assert forall|i: int| 0 <= i < txs.drop_last().len() implies (#[trigger] txs.drop_last()[i]).well_formed() by {
        assert(txs.drop_last()[i] == txs[i]);
    }
}

/// Limit invariant: from any valid state, every sequence of well-formed
/// transactions leads to a valid state, so the balance never falls below
/// the negative credit limit, and the limit never changes.
pub proof fn lemma_limit_invariant(m: LedgerModel, txs: Seq<TxModel>)
    requires
        m.wf(),
        all_well_formed(txs),
    ensures
        run(m, txs).wf(),
        run(m, txs).balance >= -run(m, txs).limit,
        run(m, txs).limit == m.limit,
    decreases txs.len(),
{
    if txs.len() > 0 {
        lemma_prefix_well_formed(txs);
        lemma_limit_invariant(m, txs.drop_last());
        let t = txs.last();
        lemma_apply_preserves_wf(run(m, txs.drop_last()), t.kind, t.value, t.description, t.now);
    }
}

/// Atomicity: a rejected transaction leaves balance and history exactly as
/// they were, and the only rejections the ledger itself gives are the limit
/// and the balance's range.
pub proof fn lemma_rejection_leaves_state(m: LedgerModel, t: TxModel)
    requires
        m.wf(),
        t.well_formed(),
    ensures
        apply_outcome(m, t.kind, t.value, t.description, t.now) matches Err(e) ==> step(m, t) == m
            && (e == Rejection::InsufficientLimit || e == Rejection::BalanceOverflow),
        apply_outcome(m, t.kind, t.value, t.description, t.now) matches Err(e)
            ==> (e == Rejection::InsufficientLimit <==> candidate(m.balance, t.kind, t.value)
            < -m.limit),
{
}

/// Whether every transaction of a run is a debit of `v`.
pub open spec fn all_debits_of(txs: Seq<TxModel>, v: int) -> bool {
    forall|i: int| 0 <= i < txs.len() ==> (#[trigger] txs[i]).kind == Kind::Debit && txs[i].value == v
}

/// The smaller of two integers.
pub open spec fn min_int(a: int, b: int) -> int {
    if a <= b {
        a
    } else {
        b
    }
}

/// Debits of a fixed value against a balance `B` with limit `L`: of `n`
/// attempts in any order of arrival, exactly `min(n, (B + L) / V)` are
/// admitted, and the balance drops by `V` for each.
pub proof fn lemma_debit_count(m: LedgerModel, txs: Seq<TxModel>, v: int)
    requires
        m.wf(),
        all_well_formed(txs),
        all_debits_of(txs, v),
        v > 0,
    ensures
        admitted(m, txs).len() == min_int(txs.len() as int, (m.balance + m.limit) / v),
        run(m, txs).balance == m.balance - v * admitted(m, txs).len(),
    decreases txs.len(),
{
    if txs.len() > 0 {
        lemma_prefix_well_formed(txs);
        let w = txs.drop_last();
        assert(all_debits_of(w, v)) by {
            assert forall|i: int| 0 <= i < w.len() implies (#[trigger] w[i]).kind == Kind::Debit
                && w[i].value == v by {
                assert(w[i] == txs[i]);
            }
        }
        lemma_debit_count(m, w, v);
        lemma_limit_invariant(m, w);
        let t = txs.last();
        assert(t == txs[txs.len() - 1]);
        let q = (m.balance + m.limit) / v;
        let k = admitted(m, w).len() as int;
        let b = m.balance;
        let l = m.limit;
        assert(q * v <= b + l < (q + 1) * v) by {
            vstd::arithmetic::div_mod::lemma_fundamental_div_mod(b + l, v);
            vstd::arithmetic::div_mod::lemma_mod_pos_bound(b + l, v);
            vstd::arithmetic::mul::lemma_mul_is_distributive_add_other_way(v, q, 1);
        }
        let pre = run(m, w);
        assert(pre.balance == b - v * k);
        assert(run(m, txs) == step(pre, t));
        if k < q {
            assert(v * (k + 1) <= v * q) by (nonlinear_arith)
                requires
                    k + 1 <= q,
                    v > 0,
            ;
            assert(v * (k + 1) == v * k + v) by (nonlinear_arith);
            assert(q * v == v * q) by (nonlinear_arith);
            assert(candidate(pre.balance, t.kind, t.value) == b - v * (k + 1));
            assert(apply_outcome(pre, t.kind, t.value, t.description, t.now) is Ok);
            assert(admitted(m, txs).len() == k + 1);
        } else {
            assert(k == q);
            assert(v * (k + 1) == v * k + v) by (nonlinear_arith);
            assert((q + 1) * v == v * (k + 1)) by (nonlinear_arith)
                requires
                    k == q,
            ;
            assert(candidate(pre.balance, t.kind, t.value) < -l);
            assert(admitted(m, txs).len() == k);
        }
    } else {
        assert(m.balance + m.limit >= 0);
        assert((m.balance + m.limit) / v >= 0) by {
            vstd::arithmetic::div_mod::lemma_div_pos_is_pos(m.balance + m.limit, v);
        }
        assert(v * 0 == 0);
    }
}

/// History bound and order: after a run from any valid state, the history
/// holds the newest admitted records, newest first, then the newest of the
/// earlier history, up to the bound.
pub proof fn lemma_history_window(m: LedgerModel, txs: Seq<TxModel>)
    requires
        m.wf(),
        all_well_formed(txs),
    ensures
        run(m, txs).history.len() == min_int(
            HISTORY_LEN as int,
            (m.history.len() + admitted(m, txs).len()) as int,
        ),
        forall|i: int|
            0 <= i < run(m, txs).history.len() ==> #[trigger] run(m, txs).history[i] == if i
                < admitted(m, txs).len() {
                admitted(m, txs)[admitted(m, txs).len() - 1 - i]
            } else {
                m.history[i - admitted(m, txs).len()]
            },
    decreases txs.len(),
{
    if txs.len() > 0 {
        lemma_prefix_well_formed(txs);
        let w = txs.drop_last();
        lemma_history_window(m, w);
        lemma_limit_invariant(m, w);
        let pre = run(m, w);
        let t = txs.last();
        if let Ok(post) = apply_outcome(pre, t.kind, t.value, t.description, t.now) {
            let a = admitted(m, w);
            let a2 = admitted(m, txs);
            let r = RecordModel {
                value: t.value,
                kind: t.kind,
                description: t.description,
                occurred_at: stamp(pre.history, t.now),
            };
            let s = seq![r] + pre.history;
            assert(post.history[0] == r);
            assert(a2 == a.push(r));
            assert forall|i: int| 0 <= i < post.history.len() implies #[trigger] post.history[i]
                == if i < a2.len() {
                a2[a2.len() - 1 - i]
            } else {
                m.history[i - a2.len()]
            } by {
                assert(post.history[i] == s[i]);
                if i > 0 {
                    assert(s[i] == pre.history[i - 1]);
                }
            }
        }
    }
}

/// History after at least as many admissions as the bound, from any valid
/// state: exactly the newest admitted records, newest first.
pub proof fn lemma_history_last_admitted(m: LedgerModel, txs: Seq<TxModel>)
    requires
        m.wf(),
        all_well_formed(txs),
        admitted(m, txs).len() >= HISTORY_LEN,
    ensures
        run(m, txs).history.len() == HISTORY_LEN,
        forall|i: int|
            0 <= i < HISTORY_LEN ==> #[trigger] run(m, txs).history[i] == admitted(m, txs)[admitted(
                m,
                txs,
            ).len() - 1 - i],
{
    lemma_history_window(m, txs);
}

/// Snapshot consistency: the snapshot returned by an admitted transaction
/// shows the balance that its newest history entry produced from the state
/// before, and below that entry, the history from before.
pub proof fn lemma_snapshot_consistency(
    pre: LedgerModel,
    kind: Kind,
    value: int,
    description: Seq<char>,
    now: int,
)
    requires
        pre.wf(),
        0 < value <= i64::MAX,
        description_ok(description),
        i128::MIN <= now <= i128::MAX,
    ensures
        apply_result(pre, kind, value, description, now) matches Ok(s) ==> {
            &&& s.history.len() >= 1
            &&& s.history[0] == (RecordModel {
                value,
                kind,
                description,
                occurred_at: s.as_of,
            })
            &&& s.balance == candidate(pre.balance, s.history[0].kind, s.history[0].value)
            &&& s.balance >= -s.limit
            &&& s.limit == pre.limit
            &&& forall|i: int|
                1 <= i < s.history.len() ==> #[trigger] s.history[i] == pre.history[i - 1]
        },
{
    lemma_apply_preserves_wf(pre, kind, value, description, now);
    if let Ok(post) = apply_outcome(pre, kind, value, description, now) {
        let r = RecordModel { value, kind, description, occurred_at: stamp(pre.history, now) };
        let s = seq![r] + pre.history;
        assert(post.history == push_bounded(pre.history, r));
        assert(post.history[0] == s[0]);
        assert forall|i: int| 1 <= i < post.history.len() implies #[trigger] post.history[i]
            == pre.history[i - 1] by {
            assert(post.history[i] == s[i]);
        }
    }
}

} // verus!
