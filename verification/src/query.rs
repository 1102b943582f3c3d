//! Asking one DNS contract for records: the cache of answers, the cache of
//! which contracts exist, the chain's view of the account and the contract
//! call, taken in turn. The server performs each action and hands back what
//! came of it.

use vstd::prelude::*;

use crate::account::valid_account_id;
use crate::record::DnsRecord;
use crate::resolver::missing_contract_message;
use crate::resolver::NearResolver;
use crate::resolver::ResolverError;
use crate::resolver::ResolverErrorView;

verus! {

/// Where a query of one contract stands: what it waits for.
#[derive(Debug)]
pub enum QueryState {
    /// The records cached for the contract, name and type.
    AwaitRecordCache,
    /// Whether the contract is cached as existing.
    AwaitContractCache,
    /// Whether the chain has the contract's account.
    AwaitAccount,
    /// The caching of whether the contract exists (it does when `true`).
    AwaitContractStored(bool),
    /// The contract's answer to `dns_query`.
    AwaitCall,
    /// The caching of the contract's answer, which is then the query's answer.
    AwaitRecordsStored(Option<Vec<DnsRecord>>),
}

/// What came of the last action.
#[derive(Debug)]
pub enum QueryEvent {
    /// The records cached for the query, if any are.
    RecordCache(Option<Vec<DnsRecord>>),
    /// Whether the contract is cached as existing, if it is cached.
    ContractCache(Option<bool>),
    /// Whether the chain has the account.
    AccountViewed(bool),
    /// The cache took what it was given.
    Stored,
    /// The contract's answer, or the error message of the failed call.
    Called(Result<Option<Vec<DnsRecord>>, String>),
}

/// What the server does next.
#[derive(Debug)]
pub enum QueryAction {
    /// Read whether the contract is cached as existing.
    ReadContractCache,
    /// Ask the chain whether the account exists.
    ViewAccount(String),
    /// Cache whether the contract exists.
    StoreContract(bool),
    /// Call `dns_query` on the account.
    CallContract(String),
    /// Cache these records for the query (an empty list for "no records").
    StoreRecords(Vec<DnsRecord>),
}

/// The next step of a query: an action and the state that waits for its
/// outcome, or the query's answer.
#[derive(Debug)]
pub enum QueryStep {
    Next(QueryState, QueryAction),
    Done(Result<Option<Vec<DnsRecord>>, ResolverError>),
}

/// Whether `event` is the outcome that `state` waits for.
pub open spec fn awaits(state: QueryState, event: QueryEvent) -> bool {
    match state {
        QueryState::AwaitRecordCache => event is RecordCache,
        QueryState::AwaitContractCache => event is ContractCache,
        QueryState::AwaitAccount => event is AccountViewed,
        QueryState::AwaitContractStored(_) => event is Stored,
        QueryState::AwaitCall => event is Called,
        QueryState::AwaitRecordsStored(_) => event is Stored,
    }
}

/// The step once the contract is known to exist: call it when its id is a
/// valid account id, else answer `InvalidAccountId`.
pub open spec fn call_step_ok(contract_id: Seq<char>, r: QueryStep) -> bool {
    if valid_account_id(contract_id) {
        r matches QueryStep::Next(QueryState::AwaitCall, QueryAction::CallContract(a)) && a@
            == contract_id
    } else {
        r matches QueryStep::Done(Err(e)) && e@ == ResolverErrorView::InvalidAccountId(contract_id)
    }
}

/// The first state of a query of a contract: it reads the cached records first.
pub fn start_query() -> (r: QueryState)
    ensures
        r is AwaitRecordCache,
{
    QueryState::AwaitRecordCache
}

/// The step once the contract is known to exist.
fn call_step(contract_id: &str) -> (r: QueryStep)
    ensures
        call_step_ok(contract_id@, r),
{
    match NearResolver::contract_account(contract_id) {
        Ok(a) => QueryStep::Next(QueryState::AwaitCall, QueryAction::CallContract(a)),
        Err(e) => QueryStep::Done(Err(e)),
    }
}

/// The step of a query of `contract_id` that `event` brings in `state`:
/// - cached records answer at once (an empty list meaning "no records");
///   without them, the cache of contracts is read;
/// - a contract cached as missing answers "no records"; one cached as existing
///   is called; one not cached is looked up on the chain when its id is a valid
///   account id, else cached as missing;
/// - whether the account exists is cached, then the contract is called, or the
///   query answers "no records";
/// - the contract's answer is cached and then answered; a failed call answers
///   "no records" when its message says that the contract or its method is
///   missing, an RPC error otherwise.
pub fn query_step(contract_id: &str, state: QueryState, event: QueryEvent) -> (r: QueryStep)
    requires
        awaits(state, event),
    ensures
        state is AwaitRecordCache ==> match event {
            QueryEvent::RecordCache(Some(c)) => if c@.len() == 0 {
                r matches QueryStep::Done(Ok(None))
            } else {
                r matches QueryStep::Done(Ok(Some(v))) && v.deep_view() == c.deep_view()
            },
            _ => r matches QueryStep::Next(QueryState::AwaitContractCache, QueryAction::ReadContractCache),
        },
        state is AwaitContractCache ==> match event {
            QueryEvent::ContractCache(Some(true)) => call_step_ok(contract_id@, r),
            QueryEvent::ContractCache(Some(false)) => r matches QueryStep::Done(Ok(None)),
            _ => if valid_account_id(contract_id@) {
                r matches QueryStep::Next(QueryState::AwaitAccount, QueryAction::ViewAccount(a))
                    && a@ == contract_id@
            } else {
                r matches QueryStep::Next(
                    QueryState::AwaitContractStored(false),
                    QueryAction::StoreContract(false),
                )
            },
        },
        state is AwaitAccount ==> match event {
            QueryEvent::AccountViewed(b) => r matches QueryStep::Next(
                QueryState::AwaitContractStored(s),
                QueryAction::StoreContract(t),
            ) && s == b && t == b,
            _ => false,
        },
        state matches QueryState::AwaitContractStored(b) ==> if b {
            call_step_ok(contract_id@, r)
        } else {
            r matches QueryStep::Done(Ok(None))
        },
        state is AwaitCall ==> match event {
            QueryEvent::Called(Ok(answer)) => r matches QueryStep::Next(
                QueryState::AwaitRecordsStored(kept),
                QueryAction::StoreRecords(cached),
            ) && kept.deep_view() == answer.deep_view() && match answer {
                Some(v) => cached.deep_view() == v.deep_view(),
                None => cached@.len() == 0,
            },
            QueryEvent::Called(Err(m)) => if missing_contract_message(m@) {
                r matches QueryStep::Done(Ok(None))
            } else {
                r matches QueryStep::Done(Err(e)) && e@ == ResolverErrorView::RpcError(m@)
            },
            _ => false,
        },
        state matches QueryState::AwaitRecordsStored(answer) ==> (r matches QueryStep::Done(Ok(a))
            && a.deep_view() == answer.deep_view()),
{
    match state {
        QueryState::AwaitRecordCache => match event {
            QueryEvent::RecordCache(Some(c)) => QueryStep::Done(Ok(NearResolver::cached_answer(c))),
            _ => QueryStep::Next(QueryState::AwaitContractCache, QueryAction::ReadContractCache),
        },
        QueryState::AwaitContractCache => match event {
            QueryEvent::ContractCache(Some(true)) => call_step(contract_id),
            QueryEvent::ContractCache(Some(false)) => QueryStep::Done(Ok(None)),
            _ => match NearResolver::contract_account(contract_id) {
                Ok(a) => QueryStep::Next(QueryState::AwaitAccount, QueryAction::ViewAccount(a)),
                Err(_) => QueryStep::Next(
                    QueryState::AwaitContractStored(false),
                    QueryAction::StoreContract(false),
                ),
            },
        },
        QueryState::AwaitAccount => match event {
            QueryEvent::AccountViewed(b) => QueryStep::Next(
                QueryState::AwaitContractStored(b),
                QueryAction::StoreContract(b),
            ),
            _ => QueryStep::Done(Ok(None)),
        },
        QueryState::AwaitContractStored(b) => if b {
            call_step(contract_id)
        } else {
            QueryStep::Done(Ok(None))
        },
        QueryState::AwaitCall => match event {
            QueryEvent::Called(Ok(answer)) => {
                let cached = NearResolver::answer_to_cache(&answer);
                QueryStep::Next(QueryState::AwaitRecordsStored(answer), QueryAction::StoreRecords(cached))
            },
            QueryEvent::Called(Err(m)) => QueryStep::Done(NearResolver::failed_call_answer(m)),
            _ => QueryStep::Done(Ok(None)),
        },
        QueryState::AwaitRecordsStored(answer) => QueryStep::Done(Ok(answer)),
    }
}

} // verus!
