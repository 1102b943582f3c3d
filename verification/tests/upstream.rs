use near_dns::cache::CacheConfig;
use near_dns::record::RecordType;
use near_dns::record::RData;
use near_dns::upstream::invalid_domain;
use near_dns::upstream::lookup_kind;
use near_dns::upstream::txt_strings;
use near_dns::upstream::upstream_name;
use near_dns::upstream::upstream_records;
use near_dns::upstream::LookupKind;
use near_dns::upstream::UpstreamError;
use near_dns::upstream::UpstreamItem;

#[test]
fn test_lookup_kind() {
    assert_eq!(lookup_kind(RecordType::A), LookupKind::Ipv4);
    assert_eq!(lookup_kind(RecordType::AAAA), LookupKind::Ipv6);
    assert_eq!(lookup_kind(RecordType::MX), LookupKind::Mx);
    assert_eq!(lookup_kind(RecordType::TXT), LookupKind::Txt);
    assert_eq!(lookup_kind(RecordType::NS), LookupKind::Ns);
    assert_eq!(lookup_kind(RecordType::SOA), LookupKind::Soa);
    assert_eq!(lookup_kind(RecordType::CAA), LookupKind::Other);
}

#[test]
fn test_invalid_domain() {
    assert!(matches!(invalid_domain("bad label"), UpstreamError::ResolutionFailed(m) if m == "Invalid domain: bad label"));
}

#[test]
fn test_upstream_name() {
    assert_eq!(upstream_name("example.com.").unwrap(), "example.com.");
    let long = format!("{}.com", "x".repeat(70));
    match upstream_name(&long) {
        Err(UpstreamError::ResolutionFailed(m)) => {
            let expected = format!("Invalid domain: {}", long.parse::<hickory_proto::rr::Name>().unwrap_err());
            assert_eq!(m, expected);
        }
        other => panic!("unexpected {:?}", other),
    }
}

#[test]
fn test_upstream_records_typed() {
    let answer = vec![UpstreamItem::A(0x0a000001), UpstreamItem::NS("ns.example.".to_string()), UpstreamItem::A(0x0a000002)];
    let records = upstream_records(RecordType::A, "example.com.", answer).unwrap();
    assert_eq!(records.len(), 2);
    assert_eq!(records[0].name, "example.com.");
    assert_eq!(records[0].ttl, 300);
    assert!(matches!(records[0].rdata, RData::A(0x0a000001)));
    assert!(matches!(records[1].rdata, RData::A(0x0a000002)));
    let txt = upstream_records(RecordType::TXT, "t.example.", vec![UpstreamItem::TXT(vec![b"v=spf1".to_vec(), vec![0xff]])]).unwrap();
    assert!(matches!(&txt[0].rdata, RData::TXT(t) if t == &vec!["v=spf1".to_string()]));
    let mx = upstream_records(RecordType::MX, "m.example.", vec![UpstreamItem::MX { preference: 5, exchange: "mail.example.".to_string() }]).unwrap();
    assert!(matches!(&mx[0].rdata, RData::MX { preference: 5, exchange } if exchange == "mail.example."));
}

#[test]
fn test_upstream_records_generic_filter() {
    let answer = vec![
        UpstreamItem::Other { name: "www.example.".to_string(), ttl: 60, code: 5, data: vec![1, 2] },
        UpstreamItem::Other { name: "example.".to_string(), ttl: 120, code: 257, data: vec![0, 5] },
    ];
    let records = upstream_records(RecordType::CAA, "www.example.", answer).unwrap();
    assert_eq!(records.len(), 1);
    assert_eq!(records[0].name, "example.");
    assert_eq!(records[0].ttl, 120);
    assert!(matches!(&records[0].rdata, RData::Other { code: 257, data } if data == &vec![0, 5]));
}

#[test]
fn test_upstream_records_not_found() {
    assert!(matches!(upstream_records(RecordType::A, "e.", vec![]), Err(UpstreamError::NotFound)));
    let only_other = vec![UpstreamItem::Other { name: "e.".to_string(), ttl: 1, code: 5, data: vec![] }];
    assert!(matches!(upstream_records(RecordType::SRV, "e.", only_other), Err(UpstreamError::NotFound)));
}

#[test]
fn test_txt_strings() {
    let out = txt_strings(&vec![b"hello".to_vec(), vec![0xff, 0xfe], "h\u{e9}".as_bytes().to_vec()]);
    assert_eq!(out, vec!["hello".to_string(), "h\u{e9}".to_string()]);
}

#[test]
fn test_cache_config_default() {
    let c = CacheConfig::default();
    assert_eq!((c.contract_ttl, c.default_record_ttl, c.max_entries), (300, 300, 10_000));
}
