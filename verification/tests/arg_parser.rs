use parseargs::arg_parser::{CmdLineElement, CmdLineTokenizer};

fn strings(args: &[&str]) -> Vec<String> {
    args.iter().map(|s| s.to_string()).collect()
}

#[test]
fn test_to_string() {
    assert_eq!("-d", CmdLineElement::ShortOption('d').to_string());
    assert_eq!(
        "--debug",
        CmdLineElement::LongOption("debug".to_string()).to_string()
    );
    assert_eq!(
        "--file=output",
        CmdLineElement::LongOptionValue("file".to_string(), "output".to_string()).to_string()
    );
    assert_eq!(
        "'filename'",
        CmdLineElement::Argument("filename".to_string()).to_string()
    );
    assert_eq!("--", CmdLineElement::Separator.to_string());
}

#[test]
fn test_normal() {
    let args = strings(&[
        "-d",
        "-o",
        "outfile",
        "--name=parseargs",
        "--version",
        "1.0",
        "one",
        "two",
    ]);

    let mut pa = CmdLineTokenizer::new(args, false);

    assert_eq!(Some(CmdLineElement::ShortOption('d')), pa.next());
    assert_eq!(Some(CmdLineElement::ShortOption('o')), pa.next());
    assert_eq!(Some("outfile".to_string()), pa.get_option_argument());
    assert_eq!(
        Some(CmdLineElement::LongOptionValue(
            "name".to_string(),
            "parseargs".to_string()
        )),
        pa.next()
    );
    assert_eq!(
        Some(CmdLineElement::LongOption("version".to_string())),
        pa.next()
    );
    assert_eq!(Some("1.0".to_string()), pa.get_option_argument());
    assert_eq!(Some(CmdLineElement::Argument("one".to_string())), pa.next());
    assert_eq!(Some(CmdLineElement::Argument("two".to_string())), pa.next());
    assert_eq!(None, pa.next());
}

#[test]
fn test_mixed() {
    let args = strings(&["one", "-d", "-o", "outfile", "--name=parseargs", "two"]);

    let mut pa = CmdLineTokenizer::new(args, false);

    assert_eq!(Some(CmdLineElement::Argument("one".to_string())), pa.next());
    assert_eq!(Some(CmdLineElement::ShortOption('d')), pa.next());
    assert_eq!(Some(CmdLineElement::ShortOption('o')), pa.next());
    assert_eq!(Some("outfile".to_string()), pa.get_option_argument());
    assert_eq!(
        Some(CmdLineElement::LongOptionValue(
            "name".to_string(),
            "parseargs".to_string()
        )),
        pa.next()
    );
    assert_eq!(Some(CmdLineElement::Argument("two".to_string())), pa.next());
    assert_eq!(None, pa.next());
}

#[test]
fn test_combined() {
    let args = strings(&["-dooutfile", "one"]);

    let mut pa = CmdLineTokenizer::new(args, false);

    assert_eq!(Some(CmdLineElement::ShortOption('d')), pa.next());
    assert_eq!(Some(CmdLineElement::ShortOption('o')), pa.next());
    assert_eq!(Some("outfile".to_string()), pa.get_option_argument());
    assert_eq!(Some(CmdLineElement::Argument("one".to_string())), pa.next());
    assert_eq!(None, pa.next());
}

#[test]
fn arg_parser_test_dash_dash() {
    let args = strings(&["-d", "--", "-o"]);

    let mut pa = CmdLineTokenizer::new(args, false);

    assert_eq!(Some(CmdLineElement::ShortOption('d')), pa.next());
    assert_eq!(Some(CmdLineElement::Separator), pa.next());
    assert_eq!(Some(CmdLineElement::Argument("-o".to_string())), pa.next());
    assert_eq!(None, pa.next());
}

#[test]
fn arg_parser_test_posix() {
    let args = strings(&["-d", "one", "-o", "outfile", "--name=parseargs", "two"]);

    let mut pa = CmdLineTokenizer::new(args, true);

    assert_eq!(Some(CmdLineElement::ShortOption('d')), pa.next());
    assert_eq!(Some(CmdLineElement::Argument("one".to_string())), pa.next());
    assert_eq!(Some(CmdLineElement::Argument("-o".to_string())), pa.next());
    assert_eq!(
        Some(CmdLineElement::Argument("outfile".to_string())),
        pa.next()
    );
    assert_eq!(
        Some(CmdLineElement::Argument("--name=parseargs".to_string())),
        pa.next()
    );
    assert_eq!(Some(CmdLineElement::Argument("two".to_string())), pa.next());
    assert_eq!(None, pa.next());
}

#[test]
fn test_posix_with_dash() {
    let args = strings(&["-d", "-", "-o", "outfile", "--name=parseargs", "two"]);

    let mut pa = CmdLineTokenizer::new(args, true);

    assert_eq!(Some(CmdLineElement::ShortOption('d')), pa.next());
    assert_eq!(Some(CmdLineElement::Argument("-".to_string())), pa.next());
    assert_eq!(Some(CmdLineElement::Argument("-o".to_string())), pa.next());
    assert_eq!(
        Some(CmdLineElement::Argument("outfile".to_string())),
        pa.next()
    );
    assert_eq!(
        Some(CmdLineElement::Argument("--name=parseargs".to_string())),
        pa.next()
    );
    assert_eq!(Some(CmdLineElement::Argument("two".to_string())), pa.next());
    assert_eq!(None, pa.next());
}

#[test]
fn lone_dash_is_an_argument_without_posix() {
    let mut pa = CmdLineTokenizer::new(strings(&["-", "-d"]), false);
    assert_eq!(Some(CmdLineElement::Argument("-".to_string())), pa.next());
    assert!(!pa.is_args_only());
    assert_eq!(Some(CmdLineElement::ShortOption('d')), pa.next());
    assert_eq!(None, pa.next());
}

#[test]
fn long_option_splits_at_first_equals_sign() {
    let mut pa = CmdLineTokenizer::new(strings(&["--a=b=c", "--empty=", "--=x"]), false);
    assert_eq!(
        Some(CmdLineElement::LongOptionValue(
            "a".to_string(),
            "b=c".to_string()
        )),
        pa.next()
    );
    assert_eq!(
        Some(CmdLineElement::LongOptionValue(
            "empty".to_string(),
            "".to_string()
        )),
        pa.next()
    );
    assert_eq!(
        Some(CmdLineElement::LongOptionValue(
            "".to_string(),
            "x".to_string()
        )),
        pa.next()
    );
    assert_eq!(None, pa.next());
}

#[test]
fn option_argument_at_end_of_arguments_is_none() {
    let mut pa = CmdLineTokenizer::new(strings(&["-o"]), false);
    assert_eq!(Some(CmdLineElement::ShortOption('o')), pa.next());
    assert_eq!(None, pa.get_option_argument());
    assert_eq!(None, pa.next());
}

#[test]
fn separator_ends_option_processing_for_good() {
    let mut pa = CmdLineTokenizer::new(strings(&["--", "--", "-x", "--y=z"]), false);
    assert_eq!(Some(CmdLineElement::Separator), pa.next());
    assert!(pa.is_args_only());
    assert_eq!(Some(CmdLineElement::Argument("--".to_string())), pa.next());
    assert_eq!(Some(CmdLineElement::Argument("-x".to_string())), pa.next());
    assert_eq!(
        Some(CmdLineElement::Argument("--y=z".to_string())),
        pa.next()
    );
    assert!(pa.is_args_only());
    assert_eq!(None, pa.next());
}
