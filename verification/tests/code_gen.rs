use parseargs::parseargs::{parseargs, CmdLineArgs};

/// The probe for a function in the plain shell.
fn sh_func_check(func_name: &str) -> String {
    format!("LC_ALL=C type {func_name} 2>/dev/null | grep function >/dev/null || (echo >&2 \"ERROR: Function '{func_name}' does not exist.\";exit 1) || exit 127;")
}

/// The settings that the tool's own arguments stand for.
fn settings(pa_args: &[&str], script_args: &[&str]) -> CmdLineArgs {
    let mut args = CmdLineArgs {
        options_list: None,
        name: None,
        arg_callback: None,
        error_callback: None,
        remainder: None,
        posix: false,
        init_vars: false,
        help_opt: false,
        version_opt: false,
        shell: None,
        script_args: script_args.iter().map(|s| s.to_string()).collect(),
    };
    let mut it = pa_args.iter();
    while let Some(arg) = it.next() {
        if let Some(array) = arg.strip_prefix("--remainder=") {
            args.remainder = Some(array.to_string());
        } else if let Some(shell) = arg.strip_prefix("-s") {
            args.shell = Some(shell.to_string());
        } else {
            for flag in arg[1..].chars() {
                match flag {
                    'i' => args.init_vars = true,
                    'p' => args.posix = true,
                    'h' => args.help_opt = true,
                    'v' => args.version_opt = true,
                    'o' => args
                        .options_list
                        .get_or_insert_with(Vec::new)
                        .push(it.next().unwrap().to_string()),
                    'n' => args.name = Some(it.next().unwrap().to_string()),
                    'a' => args.arg_callback = Some(it.next().unwrap().to_string()),
                    'e' => args.error_callback = Some(it.next().unwrap().to_string()),
                    other => panic!("no such flag: {}", other),
                }
            }
        }
    }
    args
}

fn lines(code_lines: &[&str]) -> String {
    let mut text = String::new();
    for line in code_lines {
        text.push_str(line);
        text.push('\n');
    }
    text
}

/// Tests the generated code.
fn test_code_gen(pa_args: &[&str], script_args: &[&str], code_lines: &[&str]) {
    let outcome = parseargs(&settings(pa_args, script_args), None);
    assert_eq!(lines(code_lines), outcome.stdout);
    assert_eq!("", outcome.stderr);
    assert_eq!(0, outcome.exit_code);
}

/// Tests the message for a mistake in the script's arguments, with the
/// code of the options that were matched before it was found.
fn test_error_msg_after(
    pa_args: &[&str],
    script_args: &[&str],
    code_lines: &[&str],
    error_msg: &str,
) {
    let outcome = parseargs(&settings(pa_args, script_args), None);
    assert_eq!(lines(&[error_msg]), outcome.stderr);
    assert_eq!(format!("{}exit 1\n", lines(code_lines)), outcome.stdout);
    assert_eq!(0, outcome.exit_code);
}

/// Tests the message for a mistake in the script's arguments.
fn test_error_msg(pa_args: &[&str], script_args: &[&str], error_msg: &str) {
    test_error_msg_after(pa_args, script_args, &[], error_msg)
}

/// Tests the message for a mistake in the tool's own settings.
fn test_parseargs_error_msg(pa_args: &[&str], error_msg: &str) {
    let outcome = parseargs(&settings(pa_args, &[]), None);
    assert_eq!(lines(&[error_msg]), outcome.stderr);
    assert_eq!("exit 1\n", outcome.stdout);
    assert_eq!(11, outcome.exit_code);
}

#[test]
fn test_argument_quoting() {
    test_code_gen(&[], &["Word"], &["set -- 'Word'"]);
    test_code_gen(&[], &["Word"], &["set -- 'Word'"]);
    test_code_gen(&[], &["Hello World"], &["set -- 'Hello World'"]);
    test_code_gen(&[], &["Won't break"], &["set -- 'Won'\\''t break'"]);

    test_code_gen(
        &[],
        &["Won't break", "this time"],
        &["set -- 'Won'\\''t break' 'this time'"],
    );
}

#[test]
fn test_option_quoting() {
    test_code_gen(
        &["-o", "p=phrase"],
        &["-p", "Word"],
        &["phrase='Word';", "set --"],
    );

    test_code_gen(
        &["-o", "p=phrase"],
        &["-p", "Hello World"],
        &["phrase='Hello World';", "set --"],
    );

    test_code_gen(
        &["-o", "p=phrase"],
        &["-p", "Won't break"],
        &["phrase='Won'\\''t break';", "set --"],
    );

    test_code_gen(
        &["-o", "phrase=phrase"],
        &["--phrase=Won't break"],
        &["phrase='Won'\\''t break';", "set --"],
    );
}

#[test]
fn test_counting_option() {
    test_code_gen(&["-o", "v+verbose"], &[], &["set --"]);

    test_code_gen(&["-o", "v+verbose"], &["-v"], &["verbose=1;", "set --"]);

    test_code_gen(
        &["-o", "v+verbose"],
        &["-vv"],
        &["verbose=1;", "verbose=2;", "set --"],
    );

    test_code_gen(
        &["-o", "v+verbose"],
        &["-vvvvv"],
        &[
            "verbose=1;",
            "verbose=2;",
            "verbose=3;",
            "verbose=4;",
            "verbose=5;",
            "set --",
        ],
    );

    test_code_gen(
        &["-o", "v+verbose,d#debug"],
        &["-vv", "-d", "-vv"],
        &[
            "verbose=1;",
            "verbose=2;",
            "debug='true';",
            "verbose=3;",
            "verbose=4;",
            "set --",
        ],
    );

    test_code_gen(
        &["-o", "v:verbose+verbose,d#debug"],
        &["-v", "--verbose=4", "-d", "-vv"],
        &[
            "verbose=1;",
            "verbose=4;",
            "debug='true';",
            "verbose=5;",
            "verbose=6;",
            "set --",
        ],
    );

    test_code_gen(
        &["-o", "v:verbose+verbose"],
        &["-v", "--verbose=0"],
        &["verbose=1;", "verbose=0;", "set --"],
    );

    test_code_gen(
        &["-o", "v:verbose+verbose"],
        &["-v", "--verbose=65535"],
        &["verbose=1;", "verbose=65535;", "set --"],
    );

    test_code_gen(
        &["-o", "v+verbose(),d#debug"],
        &["-vv", "-d", "-vv"],
        &[
            &sh_func_check("verbose"),
            "verbose 1 || exit $?;",
            "verbose 2 || exit $?;",
            "debug='true';",
            "verbose 3 || exit $?;",
            "verbose 4 || exit $?;",
            "set --",
        ],
    );

    test_error_msg(
        &["-o", "v:verbose+verbose"],
        &["--verbose=-1"],
        "parseargs: Invalid unsigned integer (0-65535): '-1'",
    );

    test_error_msg(
        &["-o", "v:verbose+verbose"],
        &["--verbose=65536"],
        "parseargs: Invalid unsigned integer (0-65535): '65536'",
    );

    test_error_msg(
        &["-o", "v:verbose+verbose"],
        &["--verbose=all"],
        "parseargs: Invalid unsigned integer (0-65535): 'all'",
    );
}

#[test]
fn test_flag_option() {
    test_code_gen(
        &["-o", "d:debug#debug"],
        &["-d"],
        &["debug='true';", "set --"],
    );

    test_code_gen(
        &["-o", "d:debug#debug"],
        &["--debug"],
        &["debug='true';", "set --"],
    );

    test_code_gen(
        &["-o", "d:debug#debug"],
        &["--debug=true"],
        &["debug='true';", "set --"],
    );

    test_code_gen(
        &["-o", "d:debug#debug"],
        &["--debug=yes"],
        &["debug='true';", "set --"],
    );

    test_code_gen(
        &["-o", "d:debug#debug"],
        &["--debug=false"],
        &["debug='';", "set --"],
    );

    test_code_gen(
        &["-o", "d:debug#debug"],
        &["--debug=no"],
        &["debug='';", "set --"],
    );

    test_error_msg(
        &["-o", "d:debug#debug"],
        &["--debug=maybe"],
        "parseargs: Invalid boolean value: 'maybe'",
    );

    test_error_msg(
        &["-o", "d:debug#debug"],
        &["--debug="],
        "parseargs: Invalid boolean value: ''",
    );
}

#[test]
fn test_assignment_option() {
    test_code_gen(
        &["-o", "o:out-file=outfile"],
        &["-o", "out.txt"],
        &["outfile='out.txt';", "set --"],
    );

    test_code_gen(
        &["-o", "o:out-file=outfile"],
        &["-oout.txt"],
        &["outfile='out.txt';", "set --"],
    );

    test_code_gen(
        &["-o", "o:out-file=outfile"],
        &["--out-file", "out.txt"],
        &["outfile='out.txt';", "set --"],
    );

    test_code_gen(
        &["-o", "o:out-file=outfile"],
        &["--out-file=out.txt"],
        &["outfile='out.txt';", "set --"],
    );

    test_code_gen(
        &["-o", "o:out-file=outfile"],
        &["--out-file="],
        &["outfile='';", "set --"],
    );

    test_error_msg(
        &["-o", "o:out-file=outfile"],
        &["--out-file"],
        "parseargs: Missing argument for: --out-file",
    );
}

#[test]
fn test_mode_switch_option() {
    test_code_gen(
        &["-o", "c:copy#mode=copy,m:move#mode=move"],
        &["-c"],
        &["mode='copy';", "set --"],
    );

    test_code_gen(
        &["-o", "c:copy#mode=copy,m:move#mode=move"],
        &["--copy"],
        &["mode='copy';", "set --"],
    );

    test_code_gen(
        &["-o", "c:copy#mode=copy,m:move#mode=move"],
        &["-m"],
        &["mode='move';", "set --"],
    );

    test_code_gen(
        &["-o", "c:copy#mode=copy,m:move#mode=move"],
        &["--move"],
        &["mode='move';", "set --"],
    );

    test_error_msg_after(
        &["-o", "c:copy#mode=copy,m:move#mode=move"],
        &["-cm"],
        &["mode='copy';", "mode='move';"],
        "parseargs: Options are mutually exclusive: -c/--copy, -m/--move",
    );

    test_error_msg_after(
        &["-o", "c:copy#mode=copy,m:move#mode=move"],
        &["-mc"],
        &["mode='move';", "mode='copy';"],
        "parseargs: Options are mutually exclusive: -c/--copy, -m/--move",
    );
}

#[test]
fn test_combined_options() {
    let expected = &[
        "debug='true';",
        "long='true';",
        "verbose=1;",
        "file='file.txt';",
        "set --",
    ];

    test_code_gen(
        &["-o", "d#debug,l#long,v+verbose,f=file"],
        &["-d", "-l", "-v", "-f", "file.txt"],
        expected,
    );

    test_code_gen(
        &["-o", "d#debug,l#long,v+verbose,f=file"],
        &["-dlvf", "file.txt"],
        expected,
    );

    test_code_gen(
        &["-o", "d#debug,l#long,v+verbose,f=file"],
        &["-dlvffile.txt"],
        expected,
    );
}

#[test]
fn test_script_name() {
    // without a name the messages start with the tool's name
    test_error_msg(&["-o", "d#debug"], &["-X"], "parseargs: Unknown option: -X");

    // with a name they start with the given one
    test_error_msg(
        &["-n", "test-script", "-o", "d#debug"],
        &["-X"],
        "test-script: Unknown option: -X",
    );
}

#[test]
fn test_initialize_variables() {
    test_code_gen(
        &["-io", "d#debug,f=file,c#mode=copy,m#mode=move"],
        &[],
        &["debug='';", "file='';", "mode='';", "set --"],
    );

    // No initial value for functions
    test_code_gen(
        &["-io", "d#debug(),f=file(),c#mode()=copy,m#mode()=move"],
        &[],
        &[
            &sh_func_check("debug"),
            &sh_func_check("file"),
            &sh_func_check("mode"),
            "set --",
        ],
    );
}

#[test]
fn test_argument_callback() {
    test_code_gen(
        &["-a", "arg_cb", "-o", "o:out-file=outfile"],
        &["-o", "out.txt", "input1", "input2"],
        &[
            &sh_func_check("arg_cb"),
            "outfile='out.txt';",
            "arg_cb 'input1' || exit $?;",
            "arg_cb 'input2' || exit $?;",
            "set --",
        ],
    );

    test_code_gen(
        &["-a", "arg_cb", "-o", "o:out-file=outfile"],
        &["input1", "-o", "out.txt", "input2"],
        &[
            &sh_func_check("arg_cb"),
            "arg_cb 'input1' || exit $?;",
            "outfile='out.txt';",
            "arg_cb 'input2' || exit $?;",
            "set --",
        ],
    );
}

#[test]
fn test_remainder_array() {
    // Not supported by default
    test_parseargs_error_msg(
        &["--remainder=rest"],
        "parseargs: Shell sh does not support arrays, so option -r/--remainder is not supported",
    );

    // Not supported with shell=sh
    test_parseargs_error_msg(
        &["-ssh", "--remainder=rest"],
        "parseargs: Shell sh does not support arrays, so option -r/--remainder is not supported",
    );

    test_code_gen(
        &["-sbash", "--remainder=rest"],
        &[],
        &["typeset -a rest;", "rest=();", "set --"],
    );

    test_code_gen(
        &["-szsh", "--remainder=rest"],
        &[],
        &["typeset -a rest;", "rest=();", "set --"],
    );

    test_code_gen(
        &["-sksh", "--remainder=rest"],
        &[],
        &["typeset -a rest;", "set -A rest;", "set --"],
    );

    test_code_gen(
        &["-sbash", "--remainder=rest"],
        &["arg", "--", "r1", "r2"],
        &[
            "typeset -a rest;",
            "rest=();",
            "rest+=('r1');",
            "rest+=('r2');",
            "set -- 'arg'",
        ],
    );

    test_code_gen(
        &["-szsh", "--remainder=rest"],
        &["arg", "--", "r1", "r2"],
        &[
            "typeset -a rest;",
            "rest=();",
            "rest+=('r1');",
            "rest+=('r2');",
            "set -- 'arg'",
        ],
    );

    test_code_gen(
        &["-sksh", "--remainder=rest"],
        &["arg", "--", "r1", "r2"],
        &[
            "typeset -a rest;",
            "set -A rest;",
            "rest+=('r1');",
            "rest+=('r2');",
            "set -- 'arg'",
        ],
    );
}

#[test]
fn code_gen_test_dash_dash() {
    test_code_gen(
        &["-o", "d#debug"],
        &["-d", "--", "-d", "--", "test"],
        &["debug='true';", "set -- '-d' '--' 'test'"],
    );
}

#[test]
fn code_gen_test_posix() {
    // without -p arguments and options may be mixed
    test_code_gen(
        &["-o", "d#debug"],
        &["test", "-d", "--", "test2"],
        &["debug='true';", "set -- 'test' 'test2'"],
    );

    // with -p the first argument stops option handling
    test_code_gen(
        &["-po", "d#debug"],
        &["test", "-d", "--", "test2"],
        &["set -- 'test' '-d' '--' 'test2'"],
    );

    test_code_gen(
        &["-po", "d#debug"],
        &["test", "-d", "--", "test2"],
        &["set -- 'test' '-d' '--' 'test2'"],
    );
}

#[test]
fn test_multiple_o_options() {
    test_code_gen(
        &["-o", "d#debug", "-o", "l#long"],
        &["-d", "-l"],
        &["debug='true';", "long='true';", "set --"],
    );

    test_code_gen(
        &["-o", "d#debug,,", "-o", ",,l#long"],
        &["-d", "-l"],
        &["debug='true';", "long='true';", "set --"],
    );

    test_code_gen(
        &["-o", "d#debug", "-o", "l#long", "-o", "\\,#comma"],
        &["-d", "-l", "-,"],
        &["debug='true';", "long='true';", "comma='true';", "set --"],
    );
}

#[test]
fn unknown_option_leaves_only_the_exit() {
    let outcome = parseargs(&settings(&["-o", "d#debug"], &["-x"]), None);
    assert_eq!("exit 1\n", outcome.stdout);
    assert_eq!("parseargs: Unknown option: -x\n", outcome.stderr);
    assert_eq!(0, outcome.exit_code);
}

#[test]
fn unknown_shell_is_an_internal_failure() {
    let mut args = settings(&["-n", "script", "-o", "d#debug"], &["-d"]);
    args.shell = Some("rksh".to_string());
    let outcome = parseargs(&args, None);
    assert_eq!("exit 1\n", outcome.stdout);
    assert_eq!("parseargs: Unknown shell 'rksh'\n", outcome.stderr);
    assert_eq!(11, outcome.exit_code);
}

#[test]
fn shell_comes_from_settings_then_environment_then_default() {
    let args = settings(&["--remainder=rest"], &[]);
    assert_eq!(11, parseargs(&args, None).exit_code);
    assert_eq!(11, parseargs(&args, Some("sh")).exit_code);
    assert_eq!(
        "typeset -a rest;\nset -A rest;\nset --\n",
        parseargs(&args, Some("ksh")).stdout
    );
    let args = settings(&["-sbash", "--remainder=rest"], &[]);
    assert_eq!(
        "typeset -a rest;\nrest=();\nset --\n",
        parseargs(&args, Some("ksh")).stdout
    );
    assert_eq!(
        "parseargs: Unknown shell 'fish'\n",
        parseargs(&settings(&[], &[]), Some("fish")).stderr
    );
}

#[test]
fn error_callback_is_called_before_the_exit() {
    let outcome = parseargs(
        &settings(&["-e", "on_error", "-o", "d#debug,f=file"], &["-d", "-f"]),
        None,
    );
    assert_eq!(
        "debug='true';\non_error  || exit $?;\nexit 1\n",
        outcome.stdout
    );
    assert_eq!("parseargs: Missing argument for: -f\n", outcome.stderr);
    assert_eq!(0, outcome.exit_code);
}

#[test]
fn callbacks_are_checked_first() {
    test_code_gen(
        &["-a", "on_arg", "-e", "on_error", "-o", "x#run()"],
        &[],
        &[
            &sh_func_check("on_arg"),
            &sh_func_check("on_error"),
            &sh_func_check("run"),
            "set --",
        ],
    );
}

#[test]
fn help_and_version_are_singletons() {
    test_code_gen(
        &["-hv", "-o", "d#debug"],
        &["-d", "--help", "-d", "rest"],
        &[
            &sh_func_check("show_help"),
            &sh_func_check("show_version"),
            "show_help 'true' || exit $?;",
            "exit 0",
        ],
    );
    test_code_gen(
        &["-hv", "-o", "d#debug"],
        &["--version"],
        &[
            &sh_func_check("show_help"),
            &sh_func_check("show_version"),
            "show_version 'true' || exit $?;",
            "exit 0",
        ],
    );
    test_error_msg(
        &["-o", "d#debug"],
        &["--help"],
        "parseargs: Unknown option: --help",
    );
}

#[test]
fn help_of_the_script_comes_before_the_one_on_request() {
    test_code_gen(
        &["-h", "-o", "help#usage()"],
        &["--help"],
        &[
            &sh_func_check("usage"),
            &sh_func_check("show_help"),
            "usage 'true' || exit $?;",
            "set --",
        ],
    );
}

#[test]
fn posix_sends_the_first_argument_to_the_remainder() {
    test_code_gen(
        &["-p", "-sbash", "--remainder=rest", "-o", "d#debug"],
        &["-d", "one", "-d"],
        &[
            "typeset -a rest;",
            "rest=();",
            "debug='true';",
            "rest+=('one');",
            "rest+=('-d');",
            "set --",
        ],
    );
}

#[test]
fn counter_is_initialised_with_the_other_variables_only() {
    test_code_gen(
        &["-io", "v+verbose,d#debug"],
        &["-v"],
        &["verbose=0;", "debug='';", "verbose=1;", "set --"],
    );
    test_code_gen(
        &["-o", "v+verbose,d#debug"],
        &["-v"],
        &["verbose=1;", "set --"],
    );
}

#[test]
fn out_file_and_two_verbose_through_the_whole_run() {
    let outcome = parseargs(
        &settings(
            &["-ssh", "-o", "o:out-file*=outfile,v+verbose"],
            &["-o", "out.txt", "-vv"],
        ),
        None,
    );
    assert_eq!(
        "outfile='out.txt';\nverbose=1;\nverbose=2;\nset --\n",
        outcome.stdout
    );
    assert_eq!("", outcome.stderr);
    assert_eq!(0, outcome.exit_code);
}
