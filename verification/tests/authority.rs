use near_dns::authority::convert_records;
use near_dns::authority::extract_tld;
use near_dns::authority::near_answer;
use near_dns::authority::route;
use near_dns::authority::upstream_answer;
use near_dns::authority::LookupAnswer;
use near_dns::authority::Route;
use near_dns::record::DnsRecord;
use near_dns::resolver::NearResolver;
use near_dns::resolver::ResolverError;
use near_dns::upstream::UpstreamError;

fn rec(record_type: &str, value: &str) -> DnsRecord {
    DnsRecord { record_type: record_type.to_string(), value: value.to_string(), ttl: 120, priority: None }
}

#[test]
fn test_extract_tld() {
    assert_eq!(extract_tld("www.example.near.").unwrap(), "near");
    assert_eq!(extract_tld("example.com").unwrap(), "com");
    assert_eq!(extract_tld(".").unwrap(), "");
}

#[test]
fn test_route() {
    let resolver = NearResolver::new("https://rpc.mainnet.near.org").unwrap();
    assert_eq!(route(&resolver, "neardns.near."), Route::Near);
    assert_eq!(route(&resolver, "a.b.TESTNET."), Route::Near);
    assert_eq!(route(&resolver, "google.com."), Route::Upstream);
}

#[test]
fn test_convert_records_skips_bad_ones() {
    let out = convert_records(
        vec![rec("A", "1.2.3.4"), rec("A", "bad"), rec("TXT", "t")],
        "x.near.",
        "x.near.",
    );
    assert_eq!(out.len(), 2);
    assert_eq!(out[0].name, "x.near.");
    assert_eq!(out[1].ttl, 120);
}

#[test]
fn test_near_answer() {
    assert!(matches!(near_answer("x.near.", Ok(vec![rec("A", "1.2.3.4")])), LookupAnswer::Records(r) if r.len() == 1));
    assert!(matches!(near_answer("x.near.", Ok(vec![rec("A", "bad")])), LookupAnswer::NxDomain));
    assert!(matches!(near_answer("x.near.", Err(ResolverError::NotFound)), LookupAnswer::NxDomain));
    assert!(matches!(near_answer("x.near.", Err(ResolverError::NotNearTld)), LookupAnswer::Upstream));
    assert!(matches!(near_answer("x.near.", Err(ResolverError::InvalidDomain)), LookupAnswer::ServFail));
}

#[test]
fn test_upstream_answer() {
    assert!(matches!(upstream_answer(Ok(vec![1, 2])), LookupAnswer::Records(r) if r == vec![1, 2]));
    assert!(matches!(upstream_answer::<u8>(Err(UpstreamError::NotFound)), LookupAnswer::NxDomain));
    assert!(matches!(
        upstream_answer::<u8>(Err(UpstreamError::ResolutionFailed("x".to_string()))),
        LookupAnswer::ServFail
    ));
}
