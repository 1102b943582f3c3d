use near_dns::contract::ContractError;
use near_dns::contract::DnsContract;
use near_dns::record::DnsRecord;
use near_sdk::test_utils::VMContextBuilder;

fn get_context(predecessor: &str) -> VMContextBuilder {
    let mut builder = VMContextBuilder::new();
    builder.predecessor_account_id(predecessor.parse().unwrap());
    builder.current_account_id("dns.alice.testnet".parse().unwrap());
    builder
}

/// Installs the mocked chain for `context`, keeping the storage written so far.
#[allow(deprecated)]
fn set_context(context: VMContextBuilder) {
    near_sdk::test_utils::testing_env_with_promise_results(
        context.build(),
        near_sdk::PromiseResult::Successful(vec![]),
    );
}

fn record(record_type: &str, value: &str) -> DnsRecord {
    DnsRecord {
        record_type: record_type.to_string(),
        value: value.to_string(),
        ttl: 300,
        priority: None,
    }
}

#[test]
fn test_initialization() {
    let context = get_context("alice.testnet");
    set_context(context);

    let contract = DnsContract::new();
    assert_eq!(contract.get_owner().as_str(), "alice.testnet");
}

#[test]
fn test_dns_update_and_query() {
    let context = get_context("alice.testnet");
    set_context(context);

    let mut contract = DnsContract::new();

    let records = vec![DnsRecord {
        record_type: "A".to_string(),
        value: "192.168.1.1".to_string(),
        ttl: 300,
        priority: None,
    }];
    contract.dns_update("@".to_string(), records).unwrap();

    let result = contract.dns_query("@".to_string(), "A".to_string());
    assert!(result.is_some());
    assert_eq!(result.unwrap().len(), 1);
}

#[test]
fn test_dns_add() {
    let context = get_context("alice.testnet");
    set_context(context);

    let mut contract = DnsContract::new();

    contract
        .dns_add(
            "@".to_string(),
            DnsRecord {
                record_type: "A".to_string(),
                value: "192.168.1.1".to_string(),
                ttl: 300,
                priority: None,
            },
        )
        .unwrap();

    contract
        .dns_add(
            "@".to_string(),
            DnsRecord {
                record_type: "A".to_string(),
                value: "192.168.1.2".to_string(),
                ttl: 300,
                priority: None,
            },
        )
        .unwrap();

    let result = contract.dns_query("@".to_string(), "A".to_string());
    assert_eq!(result.unwrap().len(), 2);
}

#[test]
fn test_dns_delete() {
    let context = get_context("alice.testnet");
    set_context(context);

    let mut contract = DnsContract::new();

    contract
        .dns_add(
            "@".to_string(),
            DnsRecord {
                record_type: "A".to_string(),
                value: "192.168.1.1".to_string(),
                ttl: 300,
                priority: None,
            },
        )
        .unwrap();
    contract
        .dns_add(
            "@".to_string(),
            DnsRecord {
                record_type: "TXT".to_string(),
                value: "Hello".to_string(),
                ttl: 300,
                priority: None,
            },
        )
        .unwrap();

    contract.dns_delete("@".to_string(), Some("A".to_string())).unwrap();

    assert!(contract.dns_query("@".to_string(), "A".to_string()).is_none());
    assert!(contract.dns_query("@".to_string(), "TXT".to_string()).is_some());
}

#[test]
fn test_wildcard_records() {
    let context = get_context("alice.testnet");
    set_context(context);

    let mut contract = DnsContract::new();

    contract
        .dns_add(
            "*".to_string(),
            DnsRecord {
                record_type: "A".to_string(),
                value: "192.168.1.1".to_string(),
                ttl: 300,
                priority: None,
            },
        )
        .unwrap();

    let result = contract.dns_query("*".to_string(), "A".to_string());
    assert!(result.is_some());
}

#[test]
fn test_dns_list_names() {
    let context = get_context("alice.testnet");
    set_context(context);

    let mut contract = DnsContract::new();

    contract
        .dns_add(
            "@".to_string(),
            DnsRecord {
                record_type: "A".to_string(),
                value: "192.168.1.1".to_string(),
                ttl: 300,
                priority: None,
            },
        )
        .unwrap();
    contract
        .dns_add(
            "www".to_string(),
            DnsRecord {
                record_type: "A".to_string(),
                value: "192.168.1.2".to_string(),
                ttl: 300,
                priority: None,
            },
        )
        .unwrap();
    contract
        .dns_add(
            "@".to_string(),
            DnsRecord {
                record_type: "TXT".to_string(),
                value: "test".to_string(),
                ttl: 300,
                priority: None,
            },
        )
        .unwrap();

    let names = contract.dns_list_names();
    assert_eq!(names.len(), 2);
    assert!(names.contains(&"@".to_string()));
    assert!(names.contains(&"www".to_string()));
}

#[test]
fn test_unauthorized_update_is_refused() {
    set_context(get_context("alice.testnet"));
    let mut contract = DnsContract::new();

    set_context(get_context("bob.testnet"));
    let r = contract.dns_update("@".to_string(), vec![record("A", "192.168.1.1")]);
    assert_eq!(r, Err(ContractError::NotOwner));
    assert!(contract.dns_query("@".to_string(), "A".to_string()).is_none());
}

#[test]
fn test_refused_changes_leave_records() {
    set_context(get_context("alice.testnet"));
    let mut contract = DnsContract::new();
    contract.dns_add("www".to_string(), record("A", "10.0.0.1")).unwrap();

    set_context(get_context("bob.testnet"));
    assert_eq!(
        contract.dns_add("www".to_string(), record("A", "10.0.0.2")),
        Err(ContractError::NotOwner)
    );
    assert_eq!(
        contract.dns_delete("www".to_string(), None),
        Err(ContractError::NotOwner)
    );
    assert_eq!(
        contract.transfer_ownership("bob.testnet".to_string()),
        Err(ContractError::NotOwner)
    );
    let kept = contract.dns_query("www".to_string(), "A".to_string()).unwrap();
    assert_eq!(kept.len(), 1);
    assert_eq!(kept[0].value, "10.0.0.1");
    assert_eq!(contract.get_owner(), "alice.testnet");
}

#[test]
fn test_update_replaces_records_of_its_type() {
    let mut contract = DnsContract::with_accounts("dns.alice.near", "alice.near");
    contract
        .dns_add_by("alice.near", "mail".to_string(), record("mx", "mx1.example.com."))
        .unwrap();
    contract
        .dns_update_by(
            "alice.near",
            "mail".to_string(),
            vec![record("MX", "mx2.example.com."), record("Mx", "mx3.example.com.")],
        )
        .unwrap();
    let got = contract.dns_query("MAIL".to_string(), "mx".to_string()).unwrap();
    let values: Vec<&str> = got.iter().map(|r| r.value.as_str()).collect();
    assert_eq!(values, vec!["mx2.example.com.", "mx3.example.com."]);
}

#[test]
fn test_update_refuses_empty_and_mixed_records() {
    let mut contract = DnsContract::with_accounts("dns.alice.near", "alice.near");
    assert_eq!(
        contract.dns_update_by("alice.near", "@".to_string(), vec![]),
        Err(ContractError::EmptyRecords)
    );
    assert_eq!(
        contract.dns_update_by(
            "alice.near",
            "@".to_string(),
            vec![record("A", "1.2.3.4"), record("TXT", "hi")]
        ),
        Err(ContractError::MixedRecordTypes)
    );
    assert!(contract.dns_list_all().is_empty());
}

#[test]
fn test_owner_without_parent_is_the_creator() {
    let contract = DnsContract::with_accounts("near", "creator.near");
    assert_eq!(contract.get_owner(), "creator.near");
    let contract = DnsContract::with_accounts("dns.sub.alice.near", "creator.near");
    assert_eq!(contract.get_owner(), "sub.alice.near");
}

#[test]
fn test_query_all_and_delete_all() {
    let mut contract = DnsContract::with_accounts("dns.alice.near", "alice.near");
    contract.dns_add_by("alice.near", "@".to_string(), record("TXT", "t")).unwrap();
    contract.dns_add_by("alice.near", "@".to_string(), record("A", "1.1.1.1")).unwrap();
    contract.dns_add_by("alice.near", "www".to_string(), record("A", "2.2.2.2")).unwrap();
    let all = contract.dns_query_all("@".to_string());
    let types: Vec<&str> = all.iter().map(|r| r.record_type.as_str()).collect();
    assert_eq!(types, vec!["A", "TXT"]);

    contract.dns_delete_by("alice.near", "@".to_string(), None).unwrap();
    assert!(contract.dns_query_all("@".to_string()).is_empty());
    assert_eq!(contract.dns_query_all("www".to_string()).len(), 1);
    let listed = contract.dns_list_all();
    assert_eq!(listed.len(), 1);
    assert_eq!(listed[0].0, "www:A");
}

#[test]
fn test_transfer_ownership() {
    let mut contract = DnsContract::with_accounts("dns.alice.near", "alice.near");
    assert_eq!(
        contract.transfer_ownership_by("alice.near", "Not An Account".to_string()),
        Err(ContractError::InvalidAccountId)
    );
    contract
        .transfer_ownership_by("alice.near", "bob.near".to_string())
        .unwrap();
    assert_eq!(contract.get_owner(), "bob.near");
    assert_eq!(
        contract.dns_add_by("alice.near", "@".to_string(), record("A", "1.1.1.1")),
        Err(ContractError::NotOwner)
    );
    assert!(contract
        .dns_add_by("bob.near", "@".to_string(), record("A", "1.1.1.1"))
        .is_ok());
}

#[test]
fn test_list_names_once_each() {
    let mut contract = DnsContract::with_accounts("dns.alice.near", "alice.near");
    for (name, rt) in [("@", "A"), ("www", "A"), ("@", "TXT"), ("www", "AAAA"), ("api", "A")] {
        contract.dns_add_by("alice.near", name.to_string(), record(rt, "x")).unwrap();
    }
    assert_eq!(contract.dns_list_names(), vec!["@", "www", "api"]);
}

#[test]
fn test_delete_without_type_removes_every_type_of_the_name() {
    let mut contract = DnsContract::with_accounts("dns.alice.near", "alice.near");
    contract.dns_add_by("alice.near", "@".to_string(), record("HTTPS", "x")).unwrap();
    contract.dns_add_by("alice.near", "@".to_string(), record("A", "1.2.3.4")).unwrap();
    contract.dns_add_by("alice.near", "WWW".to_string(), record("A", "1.2.3.5")).unwrap();
    contract.dns_delete_by("alice.near", "@".to_string(), None).unwrap();
    assert!(contract.dns_query("@".to_string(), "HTTPS".to_string()).is_none());
    assert!(contract.dns_query("@".to_string(), "A".to_string()).is_none());
    let listed = contract.dns_list_all();
    assert_eq!(listed.len(), 1);
    assert_eq!(listed[0].0, "www:A");
    contract.dns_delete_by("alice.near", "Www".to_string(), None).unwrap();
    assert!(contract.dns_list_all().is_empty());
}

#[test]
fn test_names_are_cut_at_the_first_colon() {
    let mut contract = DnsContract::with_accounts("dns.alice.near", "alice.near");
    contract.dns_add_by("alice.near", "n".to_string(), record("x:y", "v")).unwrap();
    assert_eq!(contract.dns_list_names(), vec!["n"]);
    contract.dns_add_by("alice.near", "a:b".to_string(), record("TXT", "x")).unwrap();
    assert_eq!(contract.dns_list_names(), vec!["n", "a"]);
    contract.dns_delete_by("alice.near", "N".to_string(), None).unwrap();
    assert_eq!(contract.dns_list_names(), vec!["a"]);
    contract.dns_delete_by("alice.near", "a:b".to_string(), None).unwrap();
    assert!(contract.dns_list_all().is_empty());
}

#[test]
fn test_delete_of_a_missing_key_changes_nothing() {
    let mut contract = DnsContract::with_accounts("dns.alice.near", "alice.near");
    contract.dns_add_by("alice.near", "@".to_string(), record("A", "1.2.3.4")).unwrap();
    contract.dns_delete_by("alice.near", "@".to_string(), Some("MX".to_string())).unwrap();
    assert_eq!(contract.dns_list_all().len(), 1);
    contract.dns_delete_by("alice.near", "@".to_string(), Some("a".to_string())).unwrap();
    assert!(contract.dns_list_all().is_empty());
}

#[test]
fn test_query_ignores_case() {
    let mut contract = DnsContract::with_accounts("dns.alice.near", "alice.near");
    contract.dns_add_by("alice.near", "WWW".to_string(), record("a", "1.2.3.4")).unwrap();
    let found = contract.dns_query("www".to_string(), "A".to_string()).unwrap();
    assert_eq!(found[0].value, "1.2.3.4");
    assert!(contract.dns_query("Www".to_string(), "a".to_string()).is_some());
}

#[test]
fn test_every_key_carries_its_records_type() {
    let mut contract = DnsContract::with_accounts("dns.alice.near", "alice.near");
    contract.dns_update_by("alice.near", "Mail".to_string(), vec![record("mx", "a."), record("Mx", "b.")]).unwrap();
    contract.dns_add_by("alice.near", "WWW".to_string(), record("cname", "x.")).unwrap();
    for (key, records) in contract.dns_list_all() {
        assert!(!records.is_empty());
        for r in records {
            let suffix = format!(":{}", r.record_type.to_uppercase());
            assert!(key.ends_with(&suffix));
            let name = &key[..key.len() - suffix.len()];
            assert_eq!(name, name.to_lowercase());
        }
    }
}
