use near_dns::query::query_step;
use near_dns::query::start_query;
use near_dns::query::QueryAction;
use near_dns::query::QueryEvent;
use near_dns::query::QueryState;
use near_dns::query::QueryStep;
use near_dns::record::DnsRecord;
use near_dns::resolver::ResolverError;

fn rec(value: &str) -> DnsRecord {
    DnsRecord { record_type: "A".to_string(), value: value.to_string(), ttl: 300, priority: None }
}

#[test]
fn test_cached_records_answer_at_once() {
    let s = start_query();
    match query_step("dns.alice.near", s, QueryEvent::RecordCache(Some(vec![rec("1.1.1.1")]))) {
        QueryStep::Done(Ok(Some(v))) => assert_eq!(v[0].value, "1.1.1.1"),
        other => panic!("unexpected {:?}", other),
    }
    assert!(matches!(
        query_step("dns.alice.near", QueryState::AwaitRecordCache, QueryEvent::RecordCache(Some(vec![]))),
        QueryStep::Done(Ok(None))
    ));
}

#[test]
fn test_uncached_contract_is_viewed_then_called() {
    let id = "dns.alice.near";
    let step = query_step(id, QueryState::AwaitRecordCache, QueryEvent::RecordCache(None));
    let QueryStep::Next(state, QueryAction::ReadContractCache) = step else { panic!("{:?}", step) };
    let step = query_step(id, state, QueryEvent::ContractCache(None));
    let QueryStep::Next(state, QueryAction::ViewAccount(a)) = step else { panic!("{:?}", step) };
    assert_eq!(a, id);
    let step = query_step(id, state, QueryEvent::AccountViewed(true));
    let QueryStep::Next(state, QueryAction::StoreContract(true)) = step else { panic!("{:?}", step) };
    let step = query_step(id, state, QueryEvent::Stored);
    let QueryStep::Next(state, QueryAction::CallContract(a)) = step else { panic!("{:?}", step) };
    assert_eq!(a, id);
    let step = query_step(id, state, QueryEvent::Called(Ok(None)));
    let QueryStep::Next(state, QueryAction::StoreRecords(cached)) = step else { panic!("{:?}", step) };
    assert!(cached.is_empty());
    assert!(matches!(query_step(id, state, QueryEvent::Stored), QueryStep::Done(Ok(None))));
}

#[test]
fn test_missing_and_invalid_contracts() {
    assert!(matches!(
        query_step("dns.alice.near", QueryState::AwaitContractCache, QueryEvent::ContractCache(Some(false))),
        QueryStep::Done(Ok(None))
    ));
    assert!(matches!(
        query_step("dns.alice.near", QueryState::AwaitContractStored(false), QueryEvent::Stored),
        QueryStep::Done(Ok(None))
    ));
    assert!(matches!(
        query_step("Bad Id", QueryState::AwaitContractCache, QueryEvent::ContractCache(None)),
        QueryStep::Next(QueryState::AwaitContractStored(false), QueryAction::StoreContract(false))
    ));
    assert!(matches!(
        query_step("Bad Id", QueryState::AwaitContractCache, QueryEvent::ContractCache(Some(true))),
        QueryStep::Done(Err(ResolverError::InvalidAccountId(_)))
    ));
}

#[test]
fn test_call_answers() {
    let id = "dns.alice.near";
    match query_step(id, QueryState::AwaitCall, QueryEvent::Called(Ok(Some(vec![rec("2.2.2.2")])))) {
        QueryStep::Next(QueryState::AwaitRecordsStored(Some(kept)), QueryAction::StoreRecords(cached)) => {
            assert_eq!(kept[0].value, "2.2.2.2");
            assert_eq!(cached[0].value, "2.2.2.2");
        }
        other => panic!("unexpected {:?}", other),
    }
    assert!(matches!(
        query_step(id, QueryState::AwaitCall, QueryEvent::Called(Err("MethodNotFound".to_string()))),
        QueryStep::Done(Ok(None))
    ));
    assert!(matches!(
        query_step(id, QueryState::AwaitCall, QueryEvent::Called(Err("timeout".to_string()))),
        QueryStep::Done(Err(ResolverError::RpcError(m))) if m == "timeout"
    ));
}
