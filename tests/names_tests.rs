use lanpeer::dns::DnsName;
use lanpeer::ipv4::ipv4_text;
use lanpeer::names::{extract_service_type, join_labels, split_labels, str_ends_with, trim_leading_dot, trim_trailing_dot};

#[test]
fn extract_service_type_after_first_dot_underscore() {
    assert_eq!(extract_service_type("MyLaptop.local._myDefault._tcp.local."), "_myDefault._tcp.local.");
}

#[test]
fn extract_service_type_without_marker() {
    assert_eq!(extract_service_type("noUnderscoreHere"), "noUnderscoreHere");
    assert_eq!(extract_service_type(""), "");
    assert_eq!(extract_service_type("a._"), "_");
    assert_eq!(extract_service_type("a_._b"), "_b");
}

#[test]
fn trims() {
    assert_eq!(trim_trailing_dot("host.local..."), "host.local");
    assert_eq!(trim_trailing_dot("..."), "");
    assert_eq!(trim_leading_dot(".._tcp.local."), "_tcp.local.");
    assert_eq!(trim_leading_dot("plain"), "plain");
}

#[test]
fn ends_with_by_characters() {
    assert!(str_ends_with("Svc._http._tcp.local", "_http._tcp.local"));
    assert!(str_ends_with("x", ""));
    assert!(!str_ends_with("local", "x.local"));
    assert!(!str_ends_with("a.local", "b.local"));
}

#[test]
fn split_and_join() {
    let labels = split_labels("..a.bc..d.");
    assert_eq!(labels, vec!["a".to_string(), "bc".to_string(), "d".to_string()]);
    assert_eq!(join_labels(&labels), "a.bc.d");
    assert!(split_labels("...").is_empty());
}

#[test]
fn dns_name_limits() {
    let n = DnsName::new("_testservice._tcp.local.").unwrap();
    assert_eq!(n.labels.len(), 3);
    assert_eq!(n.to_string(), "_testservice._tcp.local");
    let long_label = "a".repeat(64);
    assert!(DnsName::new(&long_label).is_err());
    assert!(DnsName::new(&"a".repeat(63)).is_ok());
    let long_name = vec!["abcdefghi"; 26].join(".");
    assert!(DnsName::new(&long_name).is_err());
    let fits = vec!["abcdefghi"; 25].join(".");
    assert!(DnsName::new(&fits).is_ok());
}

#[test]
fn dotted_decimal() {
    assert_eq!(ipv4_text([192, 168, 1, 100]), "192.168.1.100");
    assert_eq!(ipv4_text([0, 0, 0, 0]), "0.0.0.0");
    assert_eq!(ipv4_text([255, 10, 9, 100]), "255.10.9.100");
}
