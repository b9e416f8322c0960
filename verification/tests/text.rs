use cargo_dyndrv::paths::join_path;
use cargo_dyndrv::text::{dashes_to_underscores, join, to_decimal, to_hexadecimal};

#[test]
fn numbers_are_written_in_decimal() {
    assert_eq!(to_decimal(0), "0");
    assert_eq!(to_decimal(10), "10");
    assert_eq!(to_decimal(u64::MAX), "18446744073709551615");
}

#[test]
fn hashes_have_sixteen_digits() {
    assert_eq!(to_hexadecimal(0xabc, 16), "0000000000000abc");
    assert_eq!(to_hexadecimal(u64::MAX, 16), format!("{:016x}", u64::MAX));
    assert_eq!(to_hexadecimal(0x1234, 2), "34");
}

#[test]
fn numerals_differ_where_numbers_do() {
    for n in 0..300u64 {
        assert_ne!(to_decimal(n), to_decimal(n + 1));
        assert_ne!(to_hexadecimal(n, 16), to_hexadecimal(n + 1, 16));
    }
}

#[test]
fn every_dash_is_replaced() {
    assert_eq!(dashes_to_underscores("a-b--c"), "a_b__c");
    assert_eq!(dashes_to_underscores("plain_é"), "plain_é");
}

#[test]
fn parts_are_joined() {
    let authors = vec!["A <a@x>".to_string(), "B".to_string()];
    assert_eq!(join(&authors, ":"), "A <a@x>:B");
    assert_eq!(join(&Vec::new(), ":"), "");
}

#[test]
fn paths_are_extended() {
    assert_eq!(join_path("/out", "env"), "/out/env");
    assert_eq!(join_path("/out/", "env"), "/out/env");
    assert_eq!(join_path("/out", "/env"), "/env");
    assert_eq!(join_path("", "env"), "env");
    assert_eq!(join_path("/out", ""), "/out/");
}
