use vstd::prelude::*;
use vstd::string::StrSliceExecFns;
use crate::ledger::{apply_result, snapshot_of, LedgerModel};
use crate::record::records_view;
use crate::record::{
    description_ok, Kind, Rejection, TransactionRecord, DESCRIPTION_MAX, DESCRIPTION_MIN,
};
use crate::clock::now_nanos;
use crate::registry::AccountRegistry;
use crate::store::{state_for, LedgerStore};

verus! {

/// A transaction request as a caller sends it: `tipo` is "c" for a credit
/// or "d" for a debit.
#[derive(Debug)]
pub struct TransacaoDto {
    pub valor: i64,
    pub tipo: String,
    pub descricao: String,
}

/// The kind that a request's kind text names, if any.
pub open spec fn kind_of(t: Seq<char>) -> Option<Kind> {
    if t == seq!['c'] {
        Some(Kind::Credit)
    } else if t == seq!['d'] {
        Some(Kind::Debit)
    } else {
        None
    }
}

/// Whether a request is well formed: positive value, a known kind and a
/// description of accepted length.
pub open spec fn request_valid(value: int, kind: Seq<char>, description: Seq<char>) -> bool {
    value > 0 && kind_of(kind) is Some && description_ok(description)
}

/// The kind named by `t`, or `None`.
pub fn parse_kind(t: &str) -> (r: Option<Kind>)
    ensures
        r == kind_of(t@),
{
    if t.unicode_len() != 1 {
        proof {
            assert(t@ != seq!['c'] && t@ != seq!['d']);
        }
        return None;
    }
    let c = t.get_char(0);
    proof {
        assert(t@ =~= seq![c]);
    }
    if c == 'c' {
        Some(Kind::Credit)
    } else if c == 'd' {
        Some(Kind::Debit)
    } else {
        None
    }
}

/// Whether the request is well formed (see `request_valid`).
pub fn is_transacao_valid(transacao: &TransacaoDto) -> (r: bool)
    ensures
        r == request_valid(transacao.valor as int, transacao.tipo@, transacao.descricao@),
{
    let kind_ok = parse_kind(transacao.tipo.as_str()).is_some();
    let len = transacao.descricao.as_str().unicode_len();
    kind_ok && DESCRIPTION_MIN <= len && len <= DESCRIPTION_MAX && transacao.valor > 0
}

/// The account view returned after an admitted transaction.
#[derive(PartialEq, Eq, Structural, Clone, Copy, Debug)]
pub struct ClientView {
    pub id: i32,
    pub limit: i64,
    pub balance: i64,
}

/// The statement of one account: balance, limit, the instant it was read
/// (and that instant as RFC 3339 text, when it can be written), and the most
/// recent transactions, newest first.
#[derive(Debug)]
pub struct ExtractView {
    pub balance: i64,
    pub limit: i64,
    pub as_of: i128,
    pub as_of_text: Option<String>,
    pub recent_history: Vec<TransactionRecord>,
}

/// The RFC 3339 text of an instant given in nanoseconds since the Unix
/// epoch, or `None` where it has none.
pub uninterp spec fn rfc3339_text(nanos: int) -> Option<Seq<char>>;

/// The view of an optional text.
pub open spec fn text_view(t: Option<String>) -> Option<Seq<char>> {
    match t {
        Some(s) => Some(s@),
        None => None,
    }
}

/// Relies on time's `OffsetDateTime::from_unix_timestamp_nanos` and
/// `OffsetDateTime::format` with `well_known::Rfc3339`: the text depends on
/// the instant alone, and is absent where either call returns an error.
#[verifier::external_body]
fn format_rfc3339(nanos: i128) -> (r: Option<String>)
    ensures
        text_view(r) == rfc3339_text(nanos as int),
{
    match time::OffsetDateTime::from_unix_timestamp_nanos(nanos) {
        Ok(t) => t.format(&time::format_description::well_known::Rfc3339).ok(),
        Err(_) => None,
    }
}

/// Whether `r` is what submitting a well-formed request for account `id`
/// returns when it is applied to ledger state `pre` at clock reading `now`.
pub open spec fn submit_outcome(
    id: i32,
    pre: LedgerModel,
    kind: Kind,
    value: int,
    description: Seq<char>,
    now: int,
    r: Result<ClientView, Rejection>,
) -> bool {
    match apply_result(pre, kind, value, description, now) {
        Ok(s) => r == Ok::<ClientView, Rejection>(
            ClientView { id, limit: s.limit as i64, balance: s.balance as i64 },
        ),
        Err(e) => r == Err::<ClientView, Rejection>(e),
    }
}

/// Whether `v` is the statement of ledger state `m` read at `as_of`.
pub open spec fn extract_of(m: LedgerModel, as_of: int, v: ExtractView) -> bool {
    &&& v.balance as int == m.balance
    &&& v.limit as int == m.limit
    &&& v.as_of as int == as_of
    &&& text_view(v.as_of_text) == rfc3339_text(as_of)
    &&& records_view(v.recent_history@) == m.history
}

/// The entry point for callers: validates requests, consults the registry
/// and hands the work to the store.
pub struct LedgerService {
    registry: AccountRegistry,
    store: LedgerStore,
}

impl LedgerService {
    /// The configured limit of each account.
    pub closed spec fn accounts(&self) -> Map<int, int> {
        self.registry@
    }

    /// Well-formed: the store holds exactly the registry's accounts.
    pub closed spec fn wf(&self) -> bool {
        &&& self.registry.wf()
        &&& self.store.wf()
        &&& self.store.accounts() == self.registry@
    }

    /// A service over the registry's accounts, each with zero balance and
    /// empty history.
    pub fn new(registry: AccountRegistry) -> (r: LedgerService)
        requires
            registry.wf(),
        ensures
            r.wf(),
            r.accounts() == registry@,
    {
        let store = LedgerStore::new(&registry);
        LedgerService { registry, store }
    }

    /// The credit limit of account `id`, or `None` when it is not configured.
    pub fn limit_for(&self, id: i32) -> (r: Option<i64>)
        requires
            self.wf(),
        ensures
            r matches Some(l) ==> self.accounts().contains_key(id as int) && self.accounts()[id
                as int] == l as int,
            r is None ==> !self.accounts().contains_key(id as int),
    {
        self.registry.limit_for(id)
    }

    /// Submits a transaction at clock reading `now`. A malformed request is
    /// refused before anything else, whether or not the account exists; an
    /// unknown account comes next; otherwise the transaction is applied to
    /// the account's state at that moment, under the account's lock.
    pub fn submit_transaction_at(&self, account_id: i32, request: &TransacaoDto, now: i128) -> (r:
        Result<ClientView, Rejection>)
        requires
            self.wf(),
        ensures
            !request_valid(request.valor as int, request.tipo@, request.descricao@) ==> r == Err::<
                ClientView,
                Rejection,
            >(Rejection::MalformedRequest),
            request_valid(request.valor as int, request.tipo@, request.descricao@)
                && !self.accounts().contains_key(account_id as int) ==> r == Err::<
                ClientView,
                Rejection,
            >(Rejection::UnknownAccount),
            request_valid(request.valor as int, request.tipo@, request.descricao@)
                && self.accounts().contains_key(account_id as int) ==> exists|pre: LedgerModel|
                state_for(pre, self.accounts()[account_id as int]) && submit_outcome(
                    account_id,
                    pre,
                    kind_of(request.tipo@)->Some_0,
                    request.valor as int,
                    request.descricao@,
                    now as int,
                    r,
                ),
    {
        if !is_transacao_valid(request) {
            return Err(Rejection::MalformedRequest);
        }
        if self.registry.limit_for(account_id).is_none() {
            return Err(Rejection::UnknownAccount);
        }
        let kind = match parse_kind(request.tipo.as_str()) {
            Some(k) => k,
            None => {
                return Err(Rejection::MalformedRequest);
            },
        };
        match self.store.try_apply_at(account_id, kind, request.valor, request.descricao.clone(), now) {
            None => Err(Rejection::UnknownAccount),
            Some(Ok(s)) => Ok(ClientView { id: account_id, limit: s.limit, balance: s.balance }),
            Some(Err(e)) => Err(e),
        }
    }

    /// Submits a transaction stamped with the current time; the outcome is
    /// that of `submit_transaction_at` at some clock reading.
    pub fn submit_transaction(&self, account_id: i32, request: &TransacaoDto) -> (r: Result<
        ClientView,
        Rejection,
    >)
        requires
            self.wf(),
        ensures
            !request_valid(request.valor as int, request.tipo@, request.descricao@) ==> r == Err::<
                ClientView,
                Rejection,
            >(Rejection::MalformedRequest),
            request_valid(request.valor as int, request.tipo@, request.descricao@)
                && !self.accounts().contains_key(account_id as int) ==> r == Err::<
                ClientView,
                Rejection,
            >(Rejection::UnknownAccount),
            request_valid(request.valor as int, request.tipo@, request.descricao@)
                && self.accounts().contains_key(account_id as int) ==> exists|
                pre: LedgerModel,
                now: int,
            |
                state_for(pre, self.accounts()[account_id as int]) && submit_outcome(
                    account_id,
                    pre,
                    kind_of(request.tipo@)->Some_0,
                    request.valor as int,
                    request.descricao@,
                    now,
                    r,
                ),
    {
        let now = now_nanos();
        self.submit_transaction_at(account_id, request, now)
    }

    /// The statement of account `id` read at `as_of`: `UnknownAccount` when
    /// it is not configured, otherwise one whole state of the account.
    pub fn get_extract_at(&self, account_id: i32, as_of: i128) -> (r: Result<ExtractView, Rejection>)
        requires
            self.wf(),
        ensures
            r is Err <==> !self.accounts().contains_key(account_id as int),
            r matches Err(e) ==> e == Rejection::UnknownAccount,
            r matches Ok(v) ==> exists|m: LedgerModel|
                state_for(m, self.accounts()[account_id as int]) && extract_of(m, as_of as int, v),
    {
        if self.registry.limit_for(account_id).is_none() {
            return Err(Rejection::UnknownAccount);
        }
        match self.store.snapshot_at(account_id, as_of) {
            None => Err(Rejection::UnknownAccount),
            Some(s) => {
                let ghost m = choose|m: LedgerModel|
                    state_for(m, self.accounts()[account_id as int]) && s@ == snapshot_of(
                        m,
                        as_of as int,
                    );
                let as_of_text = format_rfc3339(s.as_of);
                let v = ExtractView {
                    balance: s.balance,
                    limit: s.limit,
                    as_of: s.as_of,
                    as_of_text,
                    recent_history: s.recent_history,
                };
                assert(extract_of(m, as_of as int, v));
                Ok(v)
            },
        }
    }

    /// The statement of account `id` read now; the outcome is that of
    /// `get_extract_at` at some clock reading.
    pub fn get_extract(&self, account_id: i32) -> (r: Result<ExtractView, Rejection>)
        requires
            self.wf(),
        ensures
            r is Err <==> !self.accounts().contains_key(account_id as int),
            r matches Err(e) ==> e == Rejection::UnknownAccount,
            r matches Ok(v) ==> exists|m: LedgerModel|
                state_for(m, self.accounts()[account_id as int]) && extract_of(m, v.as_of as int, v),
    {
        let now = now_nanos();
        self.get_extract_at(account_id, now)
    }
}

} // verus!
