use smart_follow::identifier::{is_valid_domain, is_valid_local, parse, ParseError};

#[test]
fn parses_local_part_and_domain() {
    let h = parse("x@y.com").unwrap();
    assert_eq!(h.local_part, "x");
    assert_eq!(h.domain, "y.com");
    assert_eq!(h.text(), "x@y.com");
    let h = parse("bob_1.a-b@Sub.Example-1.org").unwrap();
    assert_eq!(h.local_part, "bob_1.a-b");
    assert_eq!(h.domain, "Sub.Example-1.org");
}

#[test]
fn rejects_malformed_identifiers() {
    for s in [
        "not-an-identifier",
        "",
        "@y.com",
        "x@",
        "X@y.com",
        "x@y..com",
        "x@.y.com",
        "x@y.com.",
        "x@-y.com",
        "x@y-.com",
        "x@y_z.com",
        "x@y@z.com",
        " x@y.com",
        "x@y.com ",
        "é@y.com",
    ] {
        assert_eq!(parse(s).err(), Some(ParseError::Malformed), "{}", s);
    }
}

#[test]
fn label_length_limit() {
    let ok = format!("x@{}.com", "a".repeat(63));
    assert!(parse(&ok).is_ok());
    let too_long = format!("x@{}.com", "a".repeat(64));
    assert!(parse(&too_long).is_err());
    assert!(is_valid_domain(&"b".repeat(63)));
    assert!(!is_valid_domain(&"b".repeat(64)));
}

#[test]
fn part_checks() {
    assert!(is_valid_local("a-b_c.9"));
    assert!(!is_valid_local(""));
    assert!(!is_valid_local("aB"));
    assert!(is_valid_domain("a"));
    assert!(is_valid_domain("a-b.c"));
    assert!(!is_valid_domain(""));
    assert!(!is_valid_domain("a.-b"));
}
