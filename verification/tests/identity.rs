use uncontainerizable::error::Error;
use uncontainerizable::identity::{combine, validate, MAX_LENGTH};

#[test]
fn accepts_typical_reverse_dns_prefix() {
    assert!(validate("com.example.my-supervisor").is_ok());
}

#[test]
fn accepts_alnum_dot_underscore_dash_colon() {
    assert!(validate("abc.DEF_123-xyz:sub").is_ok());
}

#[test]
fn rejects_empty() {
    let err = validate("").unwrap_err();
    assert!(matches!(err, Error::InvalidIdentity(_)));
}

#[test]
fn rejects_too_long() {
    let s = "a".repeat(MAX_LENGTH + 1);
    let err = validate(&s).unwrap_err();
    assert!(matches!(err, Error::InvalidIdentity(_)));
}

#[test]
fn accepts_max_length() {
    let s = "a".repeat(MAX_LENGTH);
    assert!(validate(&s).is_ok());
}

#[test]
fn rejects_whitespace() {
    assert!(validate("bad space").is_err());
    assert!(validate("bad\ttab").is_err());
}

#[test]
fn rejects_slashes() {
    assert!(validate("bad/slash").is_err());
    assert!(validate("bad\\backslash").is_err());
}

#[test]
fn accepts_dotdot_intentionally() {
    // `..` passes identity validation; path-traversal-style strings get
    // rejected at the platform sanitization layer once combined.
    assert!(validate("..").is_ok());
}

#[test]
fn rejects_unicode() {
    assert!(validate("unicode–dash").is_err()); // en dash, not ASCII dash
    assert!(validate("ñ").is_err());
}

#[test]
fn combine_uses_colon_separator() {
    assert_eq!(
        combine("com.example.my-supervisor", "browser-main"),
        "com.example.my-supervisor:browser-main"
    );
}

#[test]
fn length_error_reports_the_byte_count() {
    let s = "a".repeat(201);
    match validate(&s) {
        Err(Error::InvalidIdentity(m)) => assert_eq!(m, "must be 1..=200 chars, got 201"),
        other => panic!("unexpected {other:?}"),
    }
    match validate("") {
        Err(Error::InvalidIdentity(m)) => assert_eq!(m, "must be 1..=200 chars, got 0"),
        other => panic!("unexpected {other:?}"),
    }
}

#[test]
fn length_bound_counts_utf8_bytes() {
    // 100 two-byte characters are 200 bytes: within the bound, but refused
    // for their characters; 101 of them exceed the bound.
    let ok_len = "ñ".repeat(100);
    match validate(&ok_len) {
        Err(Error::InvalidIdentity(m)) => assert_eq!(m, "allowed chars: a-z A-Z 0-9 . _ - :"),
        other => panic!("unexpected {other:?}"),
    }
    let too_long = "ñ".repeat(101);
    match validate(&too_long) {
        Err(Error::InvalidIdentity(m)) => assert_eq!(m, "must be 1..=200 chars, got 202"),
        other => panic!("unexpected {other:?}"),
    }
}

#[test]
fn distinct_prefixes_keep_identities_apart() {
    assert_ne!(combine("com.a", "run"), combine("com.b", "run"));
    assert_ne!(combine("com.a", "b.run"), combine("com.a.b", "run"));
}

#[test]
fn prefixes_with_separator_can_collide() {
    assert_eq!(combine("a:b", "c"), combine("a", "b:c"));
}

#[test]
fn combining_valid_identities_within_bound_is_valid() {
    assert!(validate(&combine("com.example.app", "browser-main")).is_ok());
    let prefix = "p".repeat(100);
    let ident = "i".repeat(99);
    assert!(validate(&combine(&prefix, &ident)).is_ok());
}
