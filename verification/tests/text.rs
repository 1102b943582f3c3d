use near_dns::account::is_valid_account_id;
use near_dns::account::parent_account_id;
use near_dns::text::contains_text;
use near_dns::text::parse_i32;
use near_dns::text::parse_u16;
use near_dns::text::parse_u32;
use near_dns::text::split_char;
use near_dns::text::split_words;
use near_dns::text::text_before;
use near_dns::text::trim_end_char;

#[test]
fn test_split() {
    assert_eq!(split_char("a..b", '.'), vec!["a", "", "b"]);
    assert_eq!(split_char("", '.'), vec![""]);
    assert_eq!(split_words("  a \t b\n"), vec!["a", "b"]);
    assert!(split_words(" \u{3000} ").is_empty());
    assert_eq!(trim_end_char("a.b...", '.'), "a.b");
    assert_eq!(text_before("www:A", ':'), "www");
    assert_eq!(text_before("a:b:CNAME", ':'), "a");
    assert_eq!(text_before("plain", ':'), "plain");
    assert_eq!(text_before(":A", ':'), "");
}

#[test]
fn test_numbers_as_std_parses_them() {
    for s in ["0", "65535", "+7", "007", "", "+", "-1", "65536", " 1", "1a"] {
        assert_eq!(parse_u16(s), s.parse::<u16>().ok(), "{:?}", s);
    }
    for s in ["4294967295", "4294967296", "+0", "12"] {
        assert_eq!(parse_u32(s), s.parse::<u32>().ok(), "{:?}", s);
    }
    for s in ["-2147483648", "-2147483649", "2147483647", "2147483648", "-", "-0", "+-1", "--1"] {
        assert_eq!(parse_i32(s), s.parse::<i32>().ok(), "{:?}", s);
    }
}

#[test]
fn test_contains_text() {
    assert!(contains_text("abc does not exist", "does not exist"));
    assert!(!contains_text("abc", "abcd"));
    assert!(contains_text("abc", ""));
}

#[test]
fn test_accounts() {
    assert!(is_valid_account_id("alice.near"));
    assert!(is_valid_account_id("a-b_c.d0"));
    for bad in ["a", "Alice.near", "-a.near", "a..near", "a.near.", "a b"] {
        assert!(!is_valid_account_id(bad), "{}", bad);
    }
    assert_eq!(parent_account_id("dns.alice.near").unwrap(), "alice.near");
    assert!(parent_account_id("near").is_none());
}
