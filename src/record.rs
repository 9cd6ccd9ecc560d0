use vstd::prelude::*;

verus! {

/// Maximum number of transactions kept in an account's recent history.
pub const HISTORY_LEN: usize = 10;

/// Shortest accepted description, in characters.
pub const DESCRIPTION_MIN: usize = 1;

/// Longest accepted description, in characters.
pub const DESCRIPTION_MAX: usize = 10;

/// Direction of a transaction.
#[derive(PartialEq, Eq, Structural, Clone, Copy, Debug)]
pub enum Kind {
    Credit,
    Debit,
}

/// Why a request was not applied.
#[derive(PartialEq, Eq, Structural, Clone, Copy, Debug)]
pub enum Rejection {
    /// The request's shape is invalid (value, kind or description).
    MalformedRequest,
    /// The account id is not configured.
    UnknownAccount,
    /// The resulting balance would fall below the negative credit limit.
    InsufficientLimit,
    /// The resulting balance would not fit in the balance's integer type.
    BalanceOverflow,
}

/// Mathematical form of an admitted transaction.
pub struct RecordModel {
    pub value: int,
    pub kind: Kind,
    pub description: Seq<char>,
    pub occurred_at: int,
}

/// Whether a description has an accepted length.
pub open spec fn description_ok(d: Seq<char>) -> bool {
    DESCRIPTION_MIN <= d.len() <= DESCRIPTION_MAX
}

impl RecordModel {
    /// Every stored record has a positive value, an accepted description
    /// and a timestamp that fits its integer type.
    pub open spec fn valid(self) -> bool {
        &&& 0 < self.value <= i64::MAX
        &&& description_ok(self.description)
        &&& i128::MIN <= self.occurred_at <= i128::MAX
    }
}

/// One admitted credit or debit; `occurred_at` is in nanoseconds since the
/// Unix epoch, assigned by the ledger when the transaction was admitted.
#[derive(Debug)]
pub struct TransactionRecord {
    pub value: i64,
    pub kind: Kind,
    pub description: String,
    pub occurred_at: i128,
}

impl View for TransactionRecord {
    type V = RecordModel;

    open spec fn view(&self) -> RecordModel {
        RecordModel {
            value: self.value as int,
            kind: self.kind,
            description: self.description@,
            occurred_at: self.occurred_at as int,
        }
    }
}

impl TransactionRecord {
    /// An equal, independently owned record.
    pub fn copy(&self) -> (r: TransactionRecord)
        ensures
            r@ == self@,
    {
        TransactionRecord {
            value: self.value,
            kind: self.kind,
            description: self.description.clone(),
            occurred_at: self.occurred_at,
        }
    }
}

/// The models of a sequence of records.
pub open spec fn records_view(v: Seq<TransactionRecord>) -> Seq<RecordModel> {
    v.map_values(|r: TransactionRecord| r@)
}

/// Viewing commutes with prepending a record.
pub proof fn lemma_records_view_prepend(h: Seq<TransactionRecord>, x: TransactionRecord)
    ensures
        records_view(h.insert(0, x)) == seq![x@] + records_view(h),
{
    assert(records_view(h.insert(0, x)) =~= seq![x@] + records_view(h));
}

/// Viewing commutes with keeping a prefix.
pub proof fn lemma_records_view_prefix(h: Seq<TransactionRecord>, n: int)
    requires
        0 <= n <= h.len(),
    ensures
        records_view(h.subrange(0, n)) == records_view(h).subrange(0, n),
{
    assert(records_view(h.subrange(0, n)) =~= records_view(h).subrange(0, n));
}

/// Independent copies of a slice of records, in the same order.
pub fn copy_records(v: &Vec<TransactionRecord>) -> (r: Vec<TransactionRecord>)
    ensures
        records_view(r@) == records_view(v@),
{
    let mut out: Vec<TransactionRecord> = Vec::new();
    let mut i: usize = 0;
    while i < v.len()
        invariant
            i <= v.len(),
            records_view(out@) == records_view(v@.subrange(0, i as int)),
        decreases v.len() - i,
    {
        let ghost before = out@;
        out.push(v[i].copy());
        proof {
            assert(v@.subrange(0, i + 1) =~= v@.subrange(0, i as int).push(v@[i as int]));
            assert(records_view(out@) =~= records_view(before).push(v@[i as int]@));
            assert(records_view(v@.subrange(0, i + 1)) =~= records_view(
                v@.subrange(0, i as int),
            ).push(v@[i as int]@));
        }
        i = i + 1;
    }
    proof {
        assert(v@.subrange(0, v@.len() as int) == v@);
    }
    out
}

} // verus!
