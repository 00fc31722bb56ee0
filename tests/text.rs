use ssh_server::text::{join, decimal};

#[test]
fn decimal_text() {
    assert_eq!(decimal(0), "0");
    assert_eq!(decimal(7), "7");
    assert_eq!(decimal(80), "80");
    assert_eq!(decimal(38400), "38400");
    assert_eq!(decimal(u32::MAX), "4294967295");
}

#[test]
fn concatenation() {
    assert_eq!(join("/home/", "demo"), "/home/demo");
    assert_eq!(join("", ""), "");
}
