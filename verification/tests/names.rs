use touchdb::names::validate_name;

#[test]
fn test_invalid_names() {
    assert!(!validate_name("*"));
    assert!(!validate_name("csji="));
    assert!(!validate_name("csji122yrd01/"));
    assert!(!validate_name(""));
}

#[test]
fn test_valid_names() {
    assert!(validate_name("coffee_shop"));
    assert!(validate_name("amsterdam"));
    assert!(validate_name("John_Data"));
}
