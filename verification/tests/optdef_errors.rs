use parseargs::parseargs::{parseargs, CmdLineArgs};

/// Tests the message for a mistake in the tool's own settings.
fn test_parseargs_error_msg(opt_def: &str, error_msg: &str) {
    let args = CmdLineArgs {
        options_list: Some(vec![opt_def.to_string()]),
        name: None,
        arg_callback: None,
        error_callback: None,
        remainder: None,
        posix: false,
        init_vars: false,
        help_opt: false,
        version_opt: false,
        shell: None,
        script_args: vec![],
    };
    let outcome = parseargs(&args, None);
    assert_eq!(format!("{}\n", error_msg), outcome.stderr);
    assert_eq!("exit 1\n", outcome.stdout);
    assert_eq!(11, outcome.exit_code);
}

/// Tests the message for an option definition that cannot be parsed.
///
/// * `opt_def` - the option definition string
/// * `index` - index of the fault in the option definition string
/// * `message` - the expected message
fn test_parser_error_msg(opt_def: &str, index: usize, message: &str) {
    let mut expected_msg = String::new();
    expected_msg.push_str("parseargs: Error parsing option definition:\n");
    expected_msg.push_str(opt_def);
    expected_msg.push('\n');
    expected_msg.push_str(&" ".repeat(index));
    expected_msg.push_str("^\n");
    expected_msg.push_str(&" ".repeat(index));
    expected_msg.push_str(message);

    test_parseargs_error_msg(opt_def, &expected_msg);
}

/// Tests the message for option definitions that do not go together.
fn test_validation_error_msg(opt_def: &str, message: &str) {
    let expected_msg = format!("parseargs: {}", message);
    test_parseargs_error_msg(opt_def, &expected_msg);
}

#[test]
fn test_parser_errors() {
    test_parser_error_msg("d", 0, "Expected #, = or + after this");
    test_parser_error_msg(" #debug", 0, "option char/string expected");
    test_parser_error_msg("x #debug", 0, "Expected #, = or + after this");
    test_parser_error_msg(
        "l#long,-#debug",
        6,
        "option char/string expected after this",
    );
    test_parser_error_msg(":#debug", 0, "option char/string expected");
    test_parser_error_msg(":d#debug", 0, "option char/string expected");
    test_parser_error_msg("d#", 1, "name expected after this");
    test_parser_error_msg("d#debug(", 7, "Unexpected character '('");
    test_parser_error_msg("d#debug)", 7, "Unexpected character ')'");
    test_parser_error_msg("d#debug,d", 8, "Expected #, = or + after this");
    test_parser_error_msg("\\=d#debug", 0, "'=' not allowed here");
    test_parser_error_msg("x\\=d#debug", 2, "'=' not allowed here");
    test_parser_error_msg("x=d#debug", 3, "Unexpected character '#'");
}

#[test]
fn test_validation_errors() {
    test_validation_error_msg("d#debug,d#dancing", "Duplicate definition of option '-d'");
    test_validation_error_msg(
        "debug#debug,debug#dancing",
        "Duplicate definition of option '--debug'",
    );
    test_validation_error_msg(
        "d#debug,x#debug",
        "Duplicate usage of variable/function 'debug'",
    );
    test_validation_error_msg(
        "d#debug,x#debug()",
        "Duplicate usage of variable/function 'debug'",
    );
    test_validation_error_msg(
        "c#mode,m#mode=move",
        "Duplicate usage of variable/function 'mode'",
    );
    test_validation_error_msg(
        "c#mode=copy,m#mode",
        "Duplicate usage of variable/function 'mode'",
    );
    test_validation_error_msg(
        "c#mode=copy,m#mode=copy",
        "Duplicate value 'copy' for mode 'mode'",
    );
}

#[test]
fn validation_finds_a_repeated_value_behind_another_one() {
    test_validation_error_msg(
        "x#mode=move,y#mode=copy,z#mode=copy",
        "Duplicate value 'copy' for mode 'mode'",
    );
}

#[test]
fn validation_keeps_variables_and_functions_of_a_mode_apart() {
    test_validation_error_msg(
        "c#mode=copy,m#mode()=move",
        "Used as variable and function in mod-switch option: 'mode'",
    );
}

#[test]
fn validation_finds_an_option_that_repeats_itself() {
    test_validation_error_msg("d:d#debug", "Duplicate definition of option '-d'");
    test_validation_error_msg(
        "debug:debug#debug",
        "Duplicate definition of option '--debug'",
    );
}
