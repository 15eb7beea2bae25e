use parseargs::matching::{
    assign_target, optional_str_to_bool, optional_string_to_optional_u16, parse_shell_options,
    text_to_u16, word_to_bool, MatchError,
};
use parseargs::opt_def::{parse, OptConfig, OptTarget};
use parseargs::init_code::shell_init_code;
use parseargs::parseargs::CmdLineArgs;
use parseargs::validation::validate_option_definitions;
use parseargs::shell_code::{get_shell_template, CodeChunk, VarValue};
use parseargs::text::trim;

fn settings(script_args: &[&str]) -> CmdLineArgs {
    CmdLineArgs {
        options_list: None,
        name: None,
        arg_callback: None,
        error_callback: None,
        remainder: None,
        posix: false,
        init_vars: false,
        help_opt: false,
        version_opt: false,
        shell: None,
        script_args: script_args.iter().map(|s| s.to_string()).collect(),
    }
}

fn options(defs: &str) -> Vec<OptConfig> {
    parse(&defs.to_string()).unwrap()
}

fn matched(defs: &str, script_args: &[&str]) -> Result<Vec<CodeChunk>, MatchError> {
    parse_shell_options(&mut options(defs), &settings(script_args))
}

fn assign(name: &str, value: VarValue) -> CodeChunk {
    CodeChunk::AssignVar(name.to_string(), value)
}

fn text(value: &str) -> VarValue {
    VarValue::StringValue(value.to_string())
}

fn failure(message: &str, code: Vec<CodeChunk>) -> Result<Vec<CodeChunk>, MatchError> {
    Err(MatchError {
        message: message.to_string(),
        code,
    })
}

#[test]
fn out_file_and_two_verbose_render_for_sh() {
    let code = matched("o:out-file*=outfile,v+verbose", &["-o", "out.txt", "-vv"]).unwrap();
    let sh = get_shell_template("sh").unwrap();
    assert_eq!(
        "outfile='out.txt';\nverbose=1;\nverbose=2;\nset --",
        sh.format_vector(&code)
    );
}

#[test]
fn combined_short_options_match_as_separate_ones() {
    let defs = "a#alpha,b+beta,c=gamma";
    let combined = matched(defs, &["-abc", "value"]);
    let separate = matched(defs, &["-a", "-b", "-c", "value"]);
    assert_eq!(combined, separate);
    assert_eq!(
        Ok(vec![
            assign("alpha", VarValue::BoolValue(true)),
            assign("beta", VarValue::IntValue(1)),
            assign("gamma", text("value")),
            CodeChunk::SetArgs(vec![]),
        ]),
        combined
    );
}

#[test]
fn counter_writes_every_count() {
    assert_eq!(
        Ok(vec![
            assign("verbose", VarValue::IntValue(1)),
            assign("verbose", VarValue::IntValue(2)),
            assign("verbose", VarValue::IntValue(3)),
            CodeChunk::SetArgs(vec![]),
        ]),
        matched("v+verbose", &["-vvv"])
    );
}

#[test]
fn counter_value_replaces_the_count() {
    let mut list = options("v:verbose+verbose");
    let code = parse_shell_options(&mut list, &settings(&["-vv", "--verbose=7", "-v", "--verbose=+3"]));
    assert_eq!(
        Ok(vec![
            assign("verbose", VarValue::IntValue(1)),
            assign("verbose", VarValue::IntValue(2)),
            assign("verbose", VarValue::IntValue(7)),
            assign("verbose", VarValue::IntValue(8)),
            assign("verbose", VarValue::IntValue(3)),
            CodeChunk::SetArgs(vec![]),
        ]),
        code
    );
    assert!(list[0].assigned);
    assert_eq!(3, list[0].count_value);
}

#[test]
fn counter_stays_at_its_greatest_count() {
    assert_eq!(
        Ok(vec![
            assign("verbose", VarValue::IntValue(65534)),
            assign("verbose", VarValue::IntValue(65535)),
            assign("verbose", VarValue::IntValue(65535)),
            assign("verbose", VarValue::IntValue(65535)),
            CodeChunk::SetArgs(vec![]),
        ]),
        matched("v:verbose+verbose", &["--verbose=65534", "-vvv"])
    );
}

#[test]
fn posix_freezes_at_the_first_argument() {
    let mut args = settings(&["-d", "one", "-d", "--", "--debug"]);
    args.posix = true;
    assert_eq!(
        Ok(vec![
            assign("debug", VarValue::BoolValue(true)),
            CodeChunk::SetArgs(vec![
                "one".to_string(),
                "-d".to_string(),
                "--".to_string(),
                "--debug".to_string(),
            ]),
        ]),
        parse_shell_options(&mut options("d:debug#debug"), &args)
    );
}

#[test]
fn options_and_arguments_mix_until_the_separator() {
    assert_eq!(
        Ok(vec![
            CodeChunk::CallFunction("debug".to_string(), VarValue::BoolValue(true)),
            CodeChunk::CallFunction("debug".to_string(), VarValue::BoolValue(true)),
            CodeChunk::SetArgs(vec![
                "one".to_string(),
                "two".to_string(),
                "-d".to_string(),
            ]),
        ]),
        matched("d#debug()", &["one", "-d", "two", "-d", "--", "-d"])
    );
}

#[test]
fn mode_switches_exclude_each_other() {
    let defs = "c:copy#mode=copy,m:move#*mode=move";
    assert_eq!(
        failure(
            "Options are mutually exclusive: -c/--copy, -m/--move",
            vec![assign("mode", text("move")), assign("mode", text("copy"))]
        ),
        matched(defs, &["-m", "--copy"])
    );
    assert_eq!(
        failure(
            "One of the following options is required: -c/--copy, -m/--move",
            vec![]
        ),
        matched(defs, &[])
    );
    assert_eq!(
        Ok(vec![assign("mode", text("move")), CodeChunk::SetArgs(vec![])]),
        matched(defs, &["--move"])
    );
}

#[test]
fn mode_switch_takes_no_value() {
    assert_eq!(
        failure("-c/--copy: No value supported.", vec![]),
        matched("c:copy#mode=copy", &["--copy=yes"])
    );
}

#[test]
fn required_option_must_be_given() {
    assert_eq!(
        failure(
            "Required option not found: -o/--out",
            vec![assign("debug", VarValue::BoolValue(true))]
        ),
        matched("d#debug,o:out=*file", &["-d"])
    );
    assert_eq!(
        failure("Required option not found: -c", vec![]),
        matched("c#*mode=copy", &[])
    );
}

#[test]
fn option_is_given_once_unless_it_counts_or_calls() {
    assert_eq!(
        failure(
            "Duplicate option: --debug (-d/--debug)",
            vec![assign("debug", VarValue::BoolValue(true))]
        ),
        matched("d:debug#debug", &["-d", "--debug=no"])
    );
    assert_eq!(
        Ok(vec![
            CodeChunk::CallFunction("add".to_string(), text("a")),
            CodeChunk::CallFunction("add".to_string(), text("b")),
            CodeChunk::SetArgs(vec![]),
        ]),
        matched("i=add()", &["-ia", "-i", "b"])
    );
}

#[test]
fn singleton_drops_what_was_collected_and_exits() {
    assert_eq!(
        Ok(vec![
            CodeChunk::CallFunction("usage".to_string(), VarValue::BoolValue(true)),
            CodeChunk::Exit(0),
        ]),
        matched("d#debug,h#?usage(),r=*req", &["-d", "one", "-h", "-x"])
    );
}

#[test]
fn unknown_long_option_is_named_without_its_value() {
    assert_eq!(
        failure("Unknown option: --colour", vec![]),
        matched("d#debug", &["--colour=red"])
    );
}

#[test]
fn arguments_go_to_the_callback_or_the_remainder() {
    let mut args = settings(&["one", "--", "two"]);
    args.arg_callback = Some("on_arg".to_string());
    assert_eq!(
        Ok(vec![
            CodeChunk::CallFunction("on_arg".to_string(), text("one")),
            CodeChunk::CallFunction("on_arg".to_string(), text("two")),
            CodeChunk::SetArgs(vec![]),
        ]),
        parse_shell_options(&mut vec![], &args)
    );
    args.remainder = Some("rest".to_string());
    assert_eq!(
        Ok(vec![
            CodeChunk::CallFunction("on_arg".to_string(), text("one")),
            CodeChunk::AddToArray("rest".to_string(), text("two")),
            CodeChunk::SetArgs(vec![]),
        ]),
        parse_shell_options(&mut vec![], &args)
    );
}

#[test]
fn truth_values_are_read_in_any_case() {
    assert_eq!(Ok(true), optional_str_to_bool(None, true));
    assert_eq!(Ok(false), optional_str_to_bool(None, false));
    assert_eq!(Ok(true), optional_str_to_bool(Some("TRUE"), false));
    assert_eq!(Ok(true), optional_str_to_bool(Some(" Yes\t"), false));
    assert_eq!(Ok(false), optional_str_to_bool(Some("False"), true));
    assert_eq!(Ok(false), optional_str_to_bool(Some("nO"), true));
    assert_eq!(
        Err("Invalid boolean value: ' Maybe '".to_string()),
        optional_str_to_bool(Some(" Maybe "), true)
    );
    assert_eq!(Some(true), word_to_bool("yes"));
    assert_eq!(None, word_to_bool("YES"));
    assert_eq!("a b", trim(" \u{a0}a b\n"));
    assert_eq!("", trim("  "));
}

#[test]
fn counts_are_unsigned_integers_of_sixteen_bits() {
    assert_eq!(Ok(None), optional_string_to_optional_u16(None));
    assert_eq!(Ok(Some(0)), optional_string_to_optional_u16(Some("0")));
    assert_eq!(Ok(Some(65535)), optional_string_to_optional_u16(Some("65535")));
    assert_eq!(
        Err("Invalid unsigned integer (0-65535): '65536'".to_string()),
        optional_string_to_optional_u16(Some("65536"))
    );
    for text in ["0", "7", "+7", "007", "65535", "0000065535", "+0"] {
        assert_eq!(text.parse::<u16>().ok(), text_to_u16(text));
    }
    for text in ["", "+", "-", "-0", "-1", "1 ", " 1", "65536", "99999999999999999999", "1a", "٣"] {
        assert_eq!(None, text_to_u16(text));
        assert!(text.parse::<u16>().is_err());
    }
}

#[test]
fn targets_are_assigned_or_called() {
    assert_eq!(
        assign("name", VarValue::IntValue(3)),
        assign_target(&OptTarget::Variable("name".to_string()), VarValue::IntValue(3))
    );
    assert_eq!(
        CodeChunk::CallFunction("name".to_string(), VarValue::NoValue),
        assign_target(&OptTarget::Function("name".to_string()), VarValue::NoValue)
    );
}

#[test]
fn initial_code_is_ordered_by_kind_then_by_option() {
    let list = options("a#one(),v+count,b#two(),c#one(),d#flag,m#mode=x,n#mode=y");
    let mut args = settings(&[]);
    args.error_callback = Some("on_error".to_string());
    args.remainder = Some("rest".to_string());
    assert_eq!(
        vec![
            CodeChunk::CheckForFunction("on_error".to_string()),
            CodeChunk::CheckForFunction("one".to_string()),
            CodeChunk::CheckForFunction("two".to_string()),
            CodeChunk::DeclareArrayVar("rest".to_string()),
            CodeChunk::AssignEmptyArray("rest".to_string()),
        ],
        shell_init_code(&list, &args, false)
    );
    assert_eq!(
        vec![
            CodeChunk::CheckForFunction("on_error".to_string()),
            CodeChunk::CheckForFunction("one".to_string()),
            CodeChunk::CheckForFunction("two".to_string()),
            assign("count", VarValue::IntValue(0)),
            assign("flag", text("")),
            assign("mode", text("")),
            CodeChunk::DeclareArrayVar("rest".to_string()),
            CodeChunk::AssignEmptyArray("rest".to_string()),
        ],
        shell_init_code(&list, &args, true)
    );
}

#[test]
fn counters_are_not_initialised_unless_asked_for() {
    let list = options("o:out-file*=outfile,v+verbose");
    assert_eq!(
        Vec::<CodeChunk>::new(),
        shell_init_code(&list, &settings(&[]), false)
    );
    assert_eq!(
        vec![assign("outfile", text("")), assign("verbose", VarValue::IntValue(0))],
        shell_init_code(&list, &settings(&[]), true)
    );
}

#[test]
fn valid_definitions_pass_validation() {
    assert_eq!(
        Ok(()),
        validate_option_definitions(&options("c#mode=copy,m#mode=move,d:debug#debug,v+verbose"))
    );
    assert_eq!(
        Err("Duplicate usage of variable/function 'mode'".to_string()),
        validate_option_definitions(&options("c#mode=copy,m=mode"))
    );
}

#[test]
fn matching_changes_only_what_was_seen_of_an_option() {
    let defs = "d:debug#debug,v+verbose,o=out";
    let mut list = options(defs);
    let _ = parse_shell_options(&mut list, &settings(&["-vv", "-d", "-x"]));
    let fresh = options(defs);
    assert_eq!(fresh.len(), list.len());
    for (before, after) in fresh.iter().zip(list.iter()) {
        assert_eq!(before.opt_chars, after.opt_chars);
        assert_eq!(before.opt_strings, after.opt_strings);
        assert_eq!(before.opt_type, after.opt_type);
        assert_eq!(before.required, after.required);
        assert_eq!(before.singleton, after.singleton);
    }
    assert!(list[0].assigned);
    assert!(list[1].assigned);
    assert_eq!(2, list[1].count_value);
    assert!(!list[2].assigned);
}
