use parseargs::arg_parser::CmdLineElement;
use parseargs::opt_def::{
    parse, parse_opt_def, parse_opt_def_list, parse_option, OptConfig, OptTarget, OptType,
    ParserConfig, ParserSource, ParsingError,
};

fn get_od_debug() -> OptConfig {
    OptConfig {
        opt_chars: String::from("d"),
        opt_strings: vec![String::from("debug")],
        opt_type: OptType::Flag(OptTarget::Variable(String::from("debug"))),
        required: false,
        singleton: false,
        assigned: false,
        count_value: 0,
    }
}

fn get_od_mode() -> OptConfig {
    OptConfig {
        opt_chars: String::from("c"),
        opt_strings: vec![String::from("copy")],
        opt_type: OptType::ModeSwitch(
            OptTarget::Variable(String::from("mode")),
            String::from("copy"),
        ),
        required: false,
        singleton: false,
        assigned: false,
        count_value: 0,
    }
}

fn get_od_out_file() -> OptConfig {
    OptConfig {
        opt_chars: String::from("o"),
        opt_strings: vec![String::from("out-file")],
        opt_type: OptType::Assignment(OptTarget::Variable(String::from("output_file"))),
        required: false,
        singleton: false,
        assigned: false,
        count_value: 0,
    }
}

fn get_od_verbosity() -> OptConfig {
    OptConfig {
        opt_chars: String::from("v"),
        opt_strings: vec![String::from("verbose")],
        opt_type: OptType::Counter(OptTarget::Variable(String::from("verbosity"))),
        required: false,
        singleton: false,
        assigned: false,
        count_value: 0,
    }
}

#[test]
fn test_opt_config_flag() {
    let oc = get_od_debug();
    assert!(oc.match_option(&CmdLineElement::ShortOption('d')));
    assert!(oc.match_option(&CmdLineElement::LongOption("debug".to_string())));
    assert!(oc.match_option(&CmdLineElement::LongOptionValue(
        "debug".to_string(),
        "true".to_string()
    )));
    assert!(!oc.match_option(&CmdLineElement::Separator));

    assert!(!oc.is_duplicate_allowed());
    assert!(!oc.is_target_function());
    assert!(oc.is_target_variable());
    assert_eq!("debug", oc.get_target_name());
}

#[test]
fn test_parse_opt_def_flag() {
    let mut ps = ParserSource::new("d:debug#debug");

    match parse_opt_def(&mut ps) {
        Ok(od) => {
            assert_eq!(get_od_debug(), od);
        }
        Err(err) => {
            panic!("Parsing failed: {} {:?}", ps.position(), err)
        }
    }
}

#[test]
fn test_parse_opt_def_mode_switch() {
    let mut ps = ParserSource::new("c:copy#mode=copy");

    match parse_opt_def(&mut ps) {
        Ok(od) => {
            assert_eq!(get_od_mode(), od);
        }
        Err(err) => {
            panic!("Parsing failed: {} {:?}", ps.position(), err)
        }
    }
}

#[test]
fn test_parse_opt_def_assignment() {
    let mut ps = ParserSource::new("o:out-file=output_file");

    match parse_opt_def(&mut ps) {
        Ok(od) => {
            assert_eq!(get_od_out_file(), od);
        }
        Err(err) => {
            panic!("Parsing failed: {} {:?}", ps.position(), err)
        }
    }
}

#[test]
fn test_parse_opt_def_counter() {
    let mut ps = ParserSource::new("v:verbose+verbosity");

    match parse_opt_def(&mut ps) {
        Ok(od) => {
            assert_eq!(get_od_verbosity(), od);
        }
        Err(err) => {
            panic!("Parsing failed: {} {:?}", ps.position(), err)
        }
    }
}

#[test]
fn test_parse_opt_def_list() {
    let mut ps = ParserSource::new("c:copy#mode=copy,o:out-file=output_file,v:verbose+verbosity");

    match parse_opt_def_list(&mut ps) {
        Ok(od_list) => {
            assert_eq!(3, od_list.len())
        }
        Err(pe) => {
            panic!("Parsing error: {:?}", pe)
        }
    }
}

#[test]
fn test_parse_option_short() {
    let mut ps = ParserSource::new("d#debug");
    assert_eq!(Ok("d".to_string()), parse_option(&mut ps));
}

#[test]
fn test_parse_option_long() {
    let mut ps = ParserSource::new("debug#debug");
    assert_eq!(Ok("debug".to_string()), parse_option(&mut ps));
}

#[test]
fn test_parse_option_short_long() {
    let mut ps = ParserSource::new("d:debug#debug");
    assert_eq!(Ok("d".to_string()), parse_option(&mut ps));
    assert_eq!(Some(':'), ps.next());
    assert_eq!(Ok("debug".to_string()), parse_option(&mut ps));
    assert_eq!(Some('#'), ps.next());
}

#[test]
fn test_parse_option_long_short() {
    let mut ps = ParserSource::new("debug:d#debug");
    assert_eq!(Ok("debug".to_string()), parse_option(&mut ps));
    assert_eq!(Some(':'), ps.next());
    assert_eq!(Ok("d".to_string()), parse_option(&mut ps));
    assert_eq!(Some('#'), ps.next());
}

#[test]
fn test_parse_unicode() {
    // The settings are given by hand, to allow characters outside ASCII.
    let mut ps = ParserSource::with_config(
        "😀:d#debug",
        ParserConfig {
            allow_utf8_options: true,
        },
    );

    assert_eq!(Ok("😀".to_string()), parse_option(&mut ps));
    assert_eq!(Some(':'), ps.next());
    assert_eq!(Ok("d".to_string()), parse_option(&mut ps));
    assert_eq!(Some('#'), ps.next());
}

#[test]
fn test_parse_option() {
    let mut ps = ParserSource::new("test-case:debug:d:test\\%case:\\##debug");

    assert_eq!(Ok("test-case".to_string()), parse_option(&mut ps));
    assert_eq!(Some(':'), ps.next());
    assert_eq!(Ok("debug".to_string()), parse_option(&mut ps));
    assert_eq!(Some(':'), ps.next());
    assert_eq!(Ok("d".to_string()), parse_option(&mut ps));
    assert_eq!(Some(':'), ps.next());
    assert_eq!(Ok("test%case".to_string()), parse_option(&mut ps));
    assert_eq!(Some(':'), ps.next());
    assert_eq!(Ok("#".to_string()), parse_option(&mut ps));
    assert_eq!(Some('#'), ps.next());
}

#[test]
fn test_parser_source() {
    let mut ps = ParserSource::new("ABCD");

    assert_eq!(Some('A'), ps.next());
    assert_eq!(Some('B'), ps.next());
    // Push current position
    ps.push_pos();
    assert_eq!(Some('C'), ps.next());
    assert_eq!(Some('D'), ps.next());
    assert_eq!(None, ps.next());
    // Pop saved position
    ps.pop_pos();
    assert_eq!(Some('C'), ps.next());
    assert_eq!(Some('D'), ps.next());
    assert_eq!(None, ps.next());

    ps.reset();
    ps.push_pos();
    assert_eq!(Some('A'), ps.next());
    ps.push_pos();
    assert_eq!(Some('B'), ps.next());
    ps.push_pos();
    assert_eq!(Some('C'), ps.next());
    ps.push_pos();
    assert_eq!(Some('D'), ps.next());

    ps.pop_pos();
    assert_eq!(Some('D'), ps.next());
    ps.pop_pos();
    assert_eq!(Some('C'), ps.next());
    ps.pop_pos();
    assert_eq!(Some('B'), ps.next());
    ps.pop_pos();
    assert_eq!(Some('A'), ps.next());
}

#[test]
#[should_panic]
fn test_parser_source_pos_stack_empty_pop() {
    let mut ps = ParserSource::new("ABCD");

    ps.pop_pos();
}

#[test]
#[should_panic]
fn test_parser_source_pos_stack_empty_drop() {
    let mut ps = ParserSource::new("ABCD");

    ps.drop_pos();
}

/// The diagnostic for a definition that is wrong at `index`.
fn diagnostic(opt_def: &str, index: usize, message: &str) -> String {
    let mut expected_msg = String::new();
    expected_msg.push_str(opt_def);
    expected_msg.push('\n');
    expected_msg.push_str(&" ".repeat(index));
    expected_msg.push_str("^\n");
    expected_msg.push_str(&" ".repeat(index));
    expected_msg.push_str(message);
    expected_msg
}

fn assert_parser_error(opt_def: &str, index: usize, message: &str) {
    assert_eq!(
        Err(diagnostic(opt_def, index, message)),
        parse(&opt_def.to_string())
    );
}

#[test]
fn parse_reports_the_place_of_each_mistake() {
    assert_parser_error("d", 0, "Expected #, = or + after this");
    assert_parser_error(" #debug", 0, "option char/string expected");
    assert_parser_error("x #debug", 0, "Expected #, = or + after this");
    assert_parser_error("l#long,-#debug", 6, "option char/string expected after this");
    assert_parser_error(":#debug", 0, "option char/string expected");
    assert_parser_error(":d#debug", 0, "option char/string expected");
    assert_parser_error("d#", 1, "name expected after this");
    assert_parser_error("d#debug(", 7, "Unexpected character '('");
    assert_parser_error("d#debug)", 7, "Unexpected character ')'");
    assert_parser_error("d#debug,d", 8, "Expected #, = or + after this");
    assert_parser_error("\\=d#debug", 0, "'=' not allowed here");
    assert_parser_error("x\\=d#debug", 2, "'=' not allowed here");
    assert_parser_error("x=d#debug", 3, "Unexpected character '#'");
}

#[test]
fn parse_of_nothing_gives_no_options() {
    assert_eq!(Ok(vec![]), parse(&"".to_string()));
    assert_eq!(Ok(vec![]), parse(&",,".to_string()));
}

#[test]
fn parse_passes_over_empty_fragments() {
    let list = parse(&"d#debug,,,,,l#long,".to_string()).unwrap();
    assert_eq!(2, list.len());
    assert_eq!("d", list[0].opt_chars);
    assert_eq!("l", list[1].opt_chars);
}

#[test]
fn parse_reads_attributes_and_function_targets() {
    let list = parse(&"o:out-file=*outfile,h:help#?show_help(),c#mode()=copy,m#mode()=".to_string())
        .unwrap();
    assert_eq!(4, list.len());
    assert_eq!(vec!["out-file".to_string()], list[0].opt_strings);
    assert!(list[0].required);
    assert!(!list[0].singleton);
    assert_eq!(
        OptType::Assignment(OptTarget::Variable("outfile".to_string())),
        list[0].opt_type
    );
    assert!(list[1].singleton);
    assert!(!list[1].required);
    assert_eq!(
        OptType::Flag(OptTarget::Function("show_help".to_string())),
        list[1].opt_type
    );
    assert_eq!(
        OptType::ModeSwitch(OptTarget::Function("mode".to_string()), "copy".to_string()),
        list[2].opt_type
    );
    assert_eq!(
        OptType::ModeSwitch(OptTarget::Function("mode".to_string()), "".to_string()),
        list[3].opt_type
    );
}

#[test]
fn parse_option_of_nothing_is_empty() {
    let mut ps = ParserSource::new("#debug");
    assert_eq!(Err(ParsingError::Empty), parse_option(&mut ps));
    assert_eq!(0, ps.position());
    let mut ps = ParserSource::new("-x");
    assert_eq!(Err(ParsingError::Empty), parse_option(&mut ps));
    let mut ps = ParserSource::new("é");
    assert_eq!(Err(ParsingError::Empty), parse_option(&mut ps));
}

#[test]
fn options_string_lists_short_options_first() {
    let oc = OptConfig {
        opt_chars: String::from("ab"),
        opt_strings: vec![String::from("alpha"), String::from("beta")],
        opt_type: OptType::Counter(OptTarget::Function(String::from("count"))),
        required: false,
        singleton: false,
        assigned: false,
        count_value: 0,
    };
    assert_eq!("-a/-b/--alpha/--beta", oc.options_string());
    assert!(oc.is_duplicate_allowed());
    assert!(oc.is_target_function());
    assert_eq!(&OptTarget::Function("count".to_string()), oc.get_target());
    assert_eq!("-d/--debug", get_od_debug().options_string());
}

#[test]
fn next_if_reads_only_what_the_predicate_accepts() {
    let mut ps = ParserSource::new("a1");
    assert_eq!(None, ps.next_if(|c| c.is_ascii_digit()));
    assert_eq!(Some('a'), ps.peek());
    assert_eq!(Some('a'), ps.next_if(|c| c.is_alphabetic()));
    assert_eq!(Some('1'), ps.next_if(|c| c.is_ascii_digit()));
    assert_eq!(None, ps.next_if(|_| true));
    ps.back();
    assert_eq!(Some('1'), ps.peek());
    ps.push_pos();
    ps.reset();
    assert_eq!(0, ps.position());
}

#[test]
fn names_are_letters_then_letters_digits_and_underscores() {
    let list = parse(&"d#v2_x,e#ärger,f#straße9".to_string()).unwrap();
    assert_eq!("v2_x", list[0].get_target_name());
    assert_eq!("ärger", list[1].get_target_name());
    assert_eq!("straße9", list[2].get_target_name());
    assert_parser_error("d#1x", 1, "name expected after this");
    assert_parser_error("d#_x", 1, "name expected after this");
    assert_parser_error("d#x-y", 3, "Unexpected character '-'");
    assert_parser_error("d#*", 2, "name expected after this");
}

#[test]
fn white_space_is_no_option_character_in_any_alphabet() {
    let utf8 = ParserConfig {
        allow_utf8_options: true,
    };
    let mut ps = ParserSource::with_config("\u{2003}x", utf8);
    assert_eq!(Err(ParsingError::Empty), parse_option(&mut ps));
    let mut ps = ParserSource::with_config("ä\u{2003}x", utf8);
    assert_eq!(Ok("ä".to_string()), parse_option(&mut ps));
    assert_eq!(Some('\u{2003}'), ps.next());
    let mut ps = ParserSource::with_config("\u{7}x", utf8);
    assert_eq!(Err(ParsingError::Empty), parse_option(&mut ps));
}

#[test]
fn backslash_lets_a_reserved_character_stand_in_an_option() {
    let list = parse(&"\\::\\+:a\\#b#colon".to_string()).unwrap();
    assert_eq!(":+", list[0].opt_chars);
    assert_eq!(vec!["a#b".to_string()], list[0].opt_strings);
    // behind a backslash a character that may not stand in an option is
    // still none, and the backslash is passed over
    let mut ps = ParserSource::new("a\\ b");
    assert_eq!(Ok("a".to_string()), parse_option(&mut ps));
    assert_eq!(2, ps.position());
    // a backslash at the very end stands for itself
    let mut ps = ParserSource::new("a\\");
    assert_eq!(Ok("a\\".to_string()), parse_option(&mut ps));
}
