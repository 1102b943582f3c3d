use near_dns::record::DnsRecord;
use near_dns::resolver::NearResolver;
use near_dns::resolver::ResolveStep;
use near_dns::resolver::ResolverError;

fn create_test_resolver() -> NearResolver {
    NearResolver::new("https://rpc.testnet.near.org").unwrap()
}

fn pair(a: &str, b: &str) -> (String, String) {
    (a.to_string(), b.to_string())
}

#[test]
fn test_resolution_order_simple() {
    let resolver = create_test_resolver();

    let order = resolver.resolution_order(&["frol"], "near");
    assert_eq!(order, vec![("dns.frol.near".to_string(), "@".to_string())]);
}

#[test]
fn test_resolution_order_subdomain() {
    let resolver = create_test_resolver();

    let order = resolver.resolution_order(&["www", "frol"], "near");

    assert!(order.contains(&("dns.www.frol.near".to_string(), "@".to_string())));
    assert!(order.contains(&("dns.frol.near".to_string(), "www".to_string())));
    assert!(order.contains(&("dns.frol.near".to_string(), "*".to_string())));
}

#[test]
fn test_resolution_order_deep_subdomain() {
    let resolver = create_test_resolver();

    let order = resolver.resolution_order(&["deep", "sub", "frol"], "near");

    assert!(order.contains(&("dns.deep.sub.frol.near".to_string(), "@".to_string())));
    assert!(order.contains(&("dns.sub.frol.near".to_string(), "deep".to_string())));
    assert!(order.contains(&("dns.sub.frol.near".to_string(), "*".to_string())));
    assert!(order.contains(&("dns.frol.near".to_string(), "deep.sub".to_string())));
    assert!(order.contains(&("dns.frol.near".to_string(), "*".to_string())));
}

#[test]
fn test_resolution_order_exact() {
    let resolver = create_test_resolver();
    assert_eq!(
        resolver.resolution_order(&["sub", "example"], "near"),
        vec![
            pair("dns.sub.example.near", "@"),
            pair("dns.example.near", "sub"),
            pair("dns.example.near", "*"),
        ]
    );
    assert_eq!(
        resolver.resolution_order(&["deep", "sub", "frol"], "near"),
        vec![
            pair("dns.deep.sub.frol.near", "@"),
            pair("dns.sub.frol.near", "deep"),
            pair("dns.sub.frol.near", "*"),
            pair("dns.frol.near", "deep.sub"),
            pair("dns.frol.near", "*.sub"),
            pair("dns.frol.near", "*"),
        ]
    );
}

#[test]
fn test_resolution_order_keeps_each_query_once() {
    let resolver = create_test_resolver();
    assert_eq!(
        resolver.resolution_order(&["*", "frol"], "near"),
        vec![pair("dns.*.frol.near", "@"), pair("dns.frol.near", "*")]
    );
}

#[test]
fn test_new_rejects_bad_url() {
    match NearResolver::new("not a url") {
        Err(ResolverError::RpcError(m)) => assert!(m.starts_with("Invalid RPC URL: ")),
        _ => panic!("expected an RPC error"),
    }
    assert_eq!(create_test_resolver().rpc_url(), "https://rpc.testnet.near.org");
}

#[test]
fn test_is_near_tld() {
    let resolver = create_test_resolver();
    for tld in ["near", "testnet", "aurora", "tg", "sweat", "kaiching", "sharddog", "NEAR", "TestNet"] {
        assert!(resolver.is_near_tld(tld), "{}", tld);
    }
    for tld in ["com", "org", "nearx", ""] {
        assert!(!resolver.is_near_tld(tld), "{}", tld);
    }
}

#[test]
fn test_start_resolution() {
    let resolver = create_test_resolver();
    assert!(matches!(resolver.start_resolution("near."), Err(ResolverError::InvalidDomain)));
    assert!(matches!(resolver.start_resolution("google.com."), Err(ResolverError::NotNearTld)));
    let res = resolver.start_resolution("www.frol.near..").unwrap();
    match res.next_step() {
        ResolveStep::Ask { contract_id, dns_name } => {
            assert_eq!(contract_id, "dns.www.frol.near");
            assert_eq!(dns_name, "@");
        }
        other => panic!("unexpected {:?}", other),
    }
}

fn rec(value: &str) -> DnsRecord {
    DnsRecord { record_type: "A".to_string(), value: value.to_string(), ttl: 60, priority: None }
}

#[test]
fn test_resolution_answers() {
    let resolver = create_test_resolver();
    let mut res = resolver.start_resolution("www.frol.near").unwrap();
    assert!(res.record_answer(Ok(None)).is_none());
    assert!(res.record_answer(Err(ResolverError::RpcError("timeout".to_string()))).is_none());
    match res.next_step() {
        ResolveStep::Ask { contract_id, dns_name } => {
            assert_eq!(contract_id, "dns.frol.near");
            assert_eq!(dns_name, "*");
        }
        other => panic!("unexpected {:?}", other),
    }
    assert!(res.record_answer(Ok(Some(vec![]))).is_none());
    assert!(matches!(res.next_step(), ResolveStep::Done(Err(ResolverError::NotFound))));

    let mut res = resolver.start_resolution("www.frol.near").unwrap();
    match res.record_answer(Ok(Some(vec![rec("1.2.3.4")]))) {
        Some(Ok(records)) => assert_eq!(records[0].value, "1.2.3.4"),
        other => panic!("unexpected {:?}", other),
    }
    let mut res = resolver.start_resolution("www.frol.near").unwrap();
    assert!(matches!(
        res.record_answer(Err(ResolverError::InvalidAccountId("x".to_string()))),
        Some(Err(ResolverError::InvalidAccountId(_)))
    ));
}

#[test]
fn test_failed_call_answer() {
    for m in [
        "MethodNotFound",
        "Server error: AccountDoesNotExist",
        "account x does not exist while viewing",
        "CodeDoesNotExist { account_id }",
    ] {
        assert!(matches!(NearResolver::failed_call_answer(m.to_string()), Ok(None)), "{}", m);
    }
    assert!(matches!(
        NearResolver::failed_call_answer("timeout".to_string()),
        Err(ResolverError::RpcError(m)) if m == "timeout"
    ));
}

#[test]
fn test_contract_account_and_cache() {
    assert_eq!(NearResolver::contract_account("dns.frol.near").unwrap(), "dns.frol.near");
    assert!(matches!(
        NearResolver::contract_account("dns..near"),
        Err(ResolverError::InvalidAccountId(a)) if a == "dns..near"
    ));
    assert!(NearResolver::cached_answer(vec![]).is_none());
    assert_eq!(NearResolver::cached_answer(vec![rec("1.1.1.1")]).unwrap().len(), 1);
    assert!(NearResolver::answer_to_cache(&None).is_empty());
    assert_eq!(NearResolver::answer_to_cache(&Some(vec![rec("1.1.1.1")]))[0].value, "1.1.1.1");
}
