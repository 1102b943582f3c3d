use near_dns::record::parse_domain_name;
use near_dns::record::record_type_to_string;
use near_dns::record::DnsRecord;
use near_dns::record::RData;
use near_dns::record::RecordConversionError;
use near_dns::record::RecordType;

fn rec(record_type: &str, value: &str, priority: Option<u16>) -> DnsRecord {
    DnsRecord {
        record_type: record_type.to_string(),
        value: value.to_string(),
        ttl: 300,
        priority,
    }
}

#[test]
fn test_a_record_conversion() {
    let record = DnsRecord {
        record_type: "A".to_string(),
        value: "192.168.1.1".to_string(),
        ttl: 300,
        priority: None,
    };
    let origin = "example.near.";
    let rdata = record.to_rdata(origin).unwrap();
    assert!(matches!(rdata, RData::A(_)));
}

#[test]
fn test_txt_record_conversion() {
    let record = DnsRecord {
        record_type: "TXT".to_string(),
        value: "Hello from NEAR!".to_string(),
        ttl: 300,
        priority: None,
    };
    let origin = "example.near.";
    let rdata = record.to_rdata(origin).unwrap();
    assert!(matches!(rdata, RData::TXT(_)));
}

#[test]
fn test_mx_record_conversion() {
    let record = DnsRecord {
        record_type: "MX".to_string(),
        value: "mail.example.com.".to_string(),
        ttl: 300,
        priority: Some(10),
    };
    let origin = "example.near.";
    let rdata = record.to_rdata(origin).unwrap();
    assert!(matches!(rdata, RData::MX { .. }));
}

#[test]
fn test_address_bits() {
    match rec("a", "192.168.1.1", None).to_rdata("example.near.").unwrap() {
        RData::A(bits) => assert_eq!(bits, 0xC0A8_0101),
        other => panic!("unexpected {:?}", other),
    }
    match rec("AAAA", "2001:db8::1", None).to_rdata("example.near.").unwrap() {
        RData::AAAA(bits) => assert_eq!(bits, 0x2001_0db8_0000_0000_0000_0000_0000_0001),
        other => panic!("unexpected {:?}", other),
    }
}

#[test]
fn test_bad_addresses() {
    assert!(matches!(
        rec("A", "300.1.1.1", None).to_rdata("example.near."),
        Err(RecordConversionError::InvalidIpv4(v)) if v == "300.1.1.1"
    ));
    assert!(matches!(
        rec("AAAA", "1.2.3.4", None).to_rdata("example.near."),
        Err(RecordConversionError::InvalidIpv6(v)) if v == "1.2.3.4"
    ));
}

#[test]
fn test_names_relative_to_origin() {
    match rec("CNAME", "www", None).to_rdata("example.near.").unwrap() {
        RData::CNAME(n) => assert_eq!(n, "www.example.near."),
        other => panic!("unexpected {:?}", other),
    }
    match rec("NS", "@", None).to_rdata("example.near.").unwrap() {
        RData::NS(n) => assert_eq!(n, "example.near."),
        other => panic!("unexpected {:?}", other),
    }
    match rec("PTR", "host.example.com.", None).to_rdata("example.near.").unwrap() {
        RData::PTR(n) => assert_eq!(n, "host.example.com."),
        other => panic!("unexpected {:?}", other),
    }
    match rec("MX", "mail", None).to_rdata("example.near.").unwrap() {
        RData::MX { preference, exchange } => {
            assert_eq!(preference, 10);
            assert_eq!(exchange, "mail.example.near.");
        }
        other => panic!("unexpected {:?}", other),
    }
}

#[test]
fn test_parse_domain_name() {
    assert_eq!(parse_domain_name("@", "example.near.").unwrap(), "example.near.");
    assert_eq!(parse_domain_name("a.b.", "example.near.").unwrap(), "a.b.");
    assert_eq!(parse_domain_name("a", "example.near.").unwrap(), "a.example.near.");
    assert!(matches!(
        parse_domain_name("a..b", "example.near."),
        Err(RecordConversionError::InvalidDomainName(n)) if n == "a..b.example.near."
    ));
}

#[test]
fn test_srv_record() {
    match rec("SRV", "5  5060\tsip.example.com.", Some(1)).to_rdata("example.near.").unwrap() {
        RData::SRV { priority, weight, port, target } => {
            assert_eq!((priority, weight, port), (1, 5, 5060));
            assert_eq!(target, "sip.example.com.");
        }
        other => panic!("unexpected {:?}", other),
    }
    let err = |v: &str| rec("SRV", v, None).to_rdata("example.near.");
    assert!(matches!(err("5 5060"),
        Err(RecordConversionError::InvalidFormat(t, m)) if t == "SRV" && m == "expected 'weight port target'"));
    assert!(matches!(err("x 5060 sip"),
        Err(RecordConversionError::InvalidFormat(t, m)) if t == "SRV" && m == "invalid weight"));
    assert!(matches!(err("5 70000 sip"),
        Err(RecordConversionError::InvalidFormat(t, m)) if t == "SRV" && m == "invalid port"));
    match err("+5 0 sip").unwrap() {
        RData::SRV { priority, weight, port, target } => {
            assert_eq!((priority, weight, port), (10, 5, 0));
            assert_eq!(target, "sip.example.near.");
        }
        other => panic!("unexpected {:?}", other),
    }
}

#[test]
fn test_soa_record() {
    let value = "ns1 hostmaster.example.com. 2024010101 7200 -3600 1209600 300";
    match rec("soa", value, None).to_rdata("example.near.").unwrap() {
        RData::SOA { mname, rname, serial, refresh, retry, expire, minimum } => {
            assert_eq!(mname, "ns1.example.near.");
            assert_eq!(rname, "hostmaster.example.com.");
            assert_eq!((serial, refresh, retry, expire, minimum), (2024010101, 7200, -3600, 1209600, 300));
        }
        other => panic!("unexpected {:?}", other),
    }
    let err = |v: &str| rec("SOA", v, None).to_rdata("example.near.");
    assert!(matches!(err("a b c"),
        Err(RecordConversionError::InvalidFormat(t, m)) if t == "SOA" && m == "expected 'mname rname serial refresh retry expire minimum'"));
    assert!(matches!(err("a b 4294967296 1 1 1 1"),
        Err(RecordConversionError::InvalidFormat(_, m)) if m == "invalid serial"));
    assert!(matches!(err("a b 1 2147483648 1 1 1"),
        Err(RecordConversionError::InvalidFormat(_, m)) if m == "invalid refresh"));
    assert!(matches!(err("a b 1 1 x 1 1"),
        Err(RecordConversionError::InvalidFormat(_, m)) if m == "invalid retry"));
    assert!(matches!(err("a b 1 1 1 -2147483649 1"),
        Err(RecordConversionError::InvalidFormat(_, m)) if m == "invalid expire"));
    assert!(matches!(err("a b 1 1 1 -2147483648 -1"),
        Err(RecordConversionError::InvalidFormat(_, m)) if m == "invalid minimum"));
}

#[test]
fn test_unsupported_type() {
    assert!(matches!(
        rec("https", "1 . alpn=h2", None).to_rdata("example.near."),
        Err(RecordConversionError::UnsupportedType(t)) if t == "https"
    ));
}

#[test]
fn test_to_dns_record() {
    let r = rec("TXT", "hello", None).to_dns_record("www.example.near.", "example.near.").unwrap();
    assert_eq!(r.name, "www.example.near.");
    assert_eq!(r.ttl, 300);
    match r.rdata {
        RData::TXT(t) => assert_eq!(t, vec!["hello".to_string()]),
        other => panic!("unexpected {:?}", other),
    }
}

#[test]
fn test_record_type_names() {
    assert_eq!(record_type_to_string(RecordType::from_code(1)), "A");
    assert_eq!(record_type_to_string(RecordType::from_code(28)), "AAAA");
    assert_eq!(record_type_to_string(RecordType::from_code(5)), "CNAME");
    assert_eq!(record_type_to_string(RecordType::from_code(15)), "MX");
    assert_eq!(record_type_to_string(RecordType::from_code(2)), "NS");
    assert_eq!(record_type_to_string(RecordType::from_code(12)), "PTR");
    assert_eq!(record_type_to_string(RecordType::from_code(6)), "SOA");
    assert_eq!(record_type_to_string(RecordType::from_code(33)), "SRV");
    assert_eq!(record_type_to_string(RecordType::from_code(16)), "TXT");
    assert_eq!(record_type_to_string(RecordType::from_code(257)), "CAA");
    assert_eq!(record_type_to_string(RecordType::from_code(65)), "UNKNOWN");
}

#[test]
fn test_record_type_names_round_trip() {
    for code in [1u16, 28, 5, 15, 2, 12, 6, 33, 16, 257] {
        let rt = RecordType::from_code(code);
        assert_eq!(rt.code(), code);
        let parsed: hickory_proto::rr::RecordType = record_type_to_string(rt).parse().unwrap();
        assert_eq!(u16::from(parsed), code);
    }
    assert_eq!(record_type_to_string(RecordType::from_code(65)), "UNKNOWN");
    assert_eq!(record_type_to_string(RecordType::from_code(255)), "UNKNOWN");
}

#[test]
fn test_caa_record_conversion() {
    match rec("CAA", "0 issue \"letsencrypt.org\"", None).to_rdata("example.near.").unwrap() {
        RData::CAA { flags, tag, value } => {
            assert_eq!(flags, 0);
            assert_eq!(tag, "issue");
            assert_eq!(value, "letsencrypt.org");
        }
        other => panic!("unexpected {:?}", other),
    }
    match rec("caa", "128 iodef mailto:security@example.com", None).to_rdata("example.near.").unwrap() {
        RData::CAA { flags, tag, value } => {
            assert_eq!(flags, 128);
            assert_eq!(tag, "iodef");
            assert_eq!(value, "mailto:security@example.com");
        }
        other => panic!("unexpected {:?}", other),
    }
}

#[test]
fn test_caa_record_errors() {
    let bad = |value: &str| rec("CAA", value, None).to_rdata("example.near.").unwrap_err();
    assert!(matches!(bad("0 issue"), RecordConversionError::InvalidFormat(t, m) if t == "CAA" && m == "expected 'flags tag value'"));
    assert!(matches!(bad("256 issue ca.example"), RecordConversionError::InvalidFormat(t, m) if t == "CAA" && m == "invalid flags"));
    assert!(matches!(bad("0 is-sue ca.example"), RecordConversionError::InvalidFormat(t, m) if t == "CAA" && m == "invalid tag"));
}

#[test]
fn test_ipv4_dot_decimal() {
    let bits = |v: &str| match rec("A", v, None).to_rdata("example.near.") {
        Ok(RData::A(b)) => Some(b),
        Err(RecordConversionError::InvalidIpv4(t)) => {
            assert_eq!(t, v);
            None
        }
        other => panic!("unexpected {:?}", other),
    };
    assert_eq!(bits("0.0.0.0"), Some(0));
    assert_eq!(bits("255.255.255.255"), Some(0xffff_ffff));
    assert_eq!(bits("10.0.0.1"), Some(0x0a00_0001));
    for bad in ["192.168.001.1", "256.1.1.1", "1.2.3", "1.2.3.4.", "1..2.3", "+1.2.3.4", "0x1.2.3.4", ""] {
        assert_eq!(bits(bad), None, "{:?}", bad);
    }
}
