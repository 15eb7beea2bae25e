use parseargs::parseargs::parse_shell_name;

const NOT_A_NAME: &str = "Not a valid shell variable or function name";

#[test]
fn test_invalid_remainder_name() {
    assert_eq!(Err(NOT_A_NAME.to_string()), parse_shell_name("rest-array"));
    assert_eq!(Err(NOT_A_NAME.to_string()), parse_shell_name("ä_umlaut"));
}

#[test]
fn test_invalid_argument_callback_name() {
    assert_eq!(Err(NOT_A_NAME.to_string()), parse_shell_name("arg-callback"));
}

#[test]
fn test_invalid_error_callback_name() {
    assert_eq!(
        Err(NOT_A_NAME.to_string()),
        parse_shell_name("error-callback")
    );
}

#[test]
fn shell_names_start_with_a_letter() {
    assert_eq!(Ok("rest".to_string()), parse_shell_name("rest"));
    assert_eq!(Ok("a_1".to_string()), parse_shell_name("a_1"));
    assert_eq!(Ok("Z9_".to_string()), parse_shell_name("Z9_"));
    assert_eq!(Ok("".to_string()), parse_shell_name(""));
    assert_eq!(Err(NOT_A_NAME.to_string()), parse_shell_name("_rest"));
    assert_eq!(Err(NOT_A_NAME.to_string()), parse_shell_name("1a"));
    assert_eq!(Err(NOT_A_NAME.to_string()), parse_shell_name("a b"));
    assert_eq!(Err(NOT_A_NAME.to_string()), parse_shell_name("aä"));
}
