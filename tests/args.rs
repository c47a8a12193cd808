use deltactl::{parse_key_val, KeyValError};

#[test]
fn key_val_splits_at_first_equals() {
    assert_eq!(parse_key_val("a=1"), Ok(("a".to_string(), "1".to_string())));
    assert_eq!(parse_key_val("k=v=w"), Ok(("k".to_string(), "v=w".to_string())));
    assert_eq!(parse_key_val("=x"), Ok(("".to_string(), "x".to_string())));
    assert_eq!(parse_key_val("x="), Ok(("x".to_string(), "".to_string())));
}

#[test]
fn key_val_keeps_non_ascii_text() {
    assert_eq!(parse_key_val("clé=été"), Ok(("clé".to_string(), "été".to_string())));
}

#[test]
fn key_val_without_equals() {
    assert_eq!(
        parse_key_val("novalue"),
        Err(KeyValError::MissingEquals("novalue".to_string()))
    );
    let err = parse_key_val("novalue").unwrap_err();
    assert_eq!(err.message(), "invalid KEY=value: no `=` found in `novalue`");
}
