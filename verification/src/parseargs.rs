//! The whole run: from the settings of one call to the text for the
//! calling script.

use vstd::prelude::*;
use crate::init_code::{init_code, lemma_init_code_array_free, shell_init_code};
use crate::matching::{MatchState, parse_shell_options, rules_of};
use crate::opt_def::{OptConfig, OptConfigView, OptTarget, OptTargetView, OptType, OptTypeView,
    config_views, definitions, parse};
use crate::shell_code::{CodeChunk, CodeChunkView, CodeTemplates, VarValue, VarValueView,
    chunk_views, get_shell_template, shell_template};
use crate::text::{chars_of, is_ascii_digit_char, is_ascii_letter, join, joined, message_about,
    views_of};
use crate::validation::{validate_option_definitions, validation_fault};

verus! {

/// The settings of one call: what the calling script asks for, and its
/// own arguments.
#[derive(Debug, PartialEq, Eq)]
pub struct CmdLineArgs {
    /// The option definitions. Several are joined with commas.
    pub options_list: Option<Vec<String>>,
    /// The name of the calling script, the prefix of messages to its user.
    pub name: Option<String>,
    /// The shell function that is called with each program argument.
    pub arg_callback: Option<String>,
    /// The shell function that is called before the script is left on an
    /// error.
    pub error_callback: Option<String>,
    /// The shell array that collects the arguments behind `--`.
    pub remainder: Option<String>,
    /// Whether option processing stops at the first argument that is no
    /// option.
    pub posix: bool,
    /// Whether every variable is initialised.
    pub init_vars: bool,
    /// Whether the script supports `--help`.
    pub help_opt: bool,
    /// Whether the script supports `--version`.
    pub version_opt: bool,
    /// The shell to write code for.
    pub shell: Option<String>,
    /// The arguments of the calling script.
    pub script_args: Vec<String>,
}

/// The view of a string that may be missing.
pub open spec fn name_view(s: Option<String>) -> Option<Seq<char>> {
    match s {
        Some(s) => Some(s@),
        None => None,
    }
}

/// The mathematical content of a `CmdLineArgs`.
pub struct CmdLineArgsView {
    pub options_list: Option<Seq<Seq<char>>>,
    pub name: Option<Seq<char>>,
    pub arg_callback: Option<Seq<char>>,
    pub error_callback: Option<Seq<char>>,
    pub remainder: Option<Seq<char>>,
    pub posix: bool,
    pub init_vars: bool,
    pub help_opt: bool,
    pub version_opt: bool,
    pub shell: Option<Seq<char>>,
    pub script_args: Seq<Seq<char>>,
}

impl View for CmdLineArgs {
    type V = CmdLineArgsView;

    open spec fn view(&self) -> CmdLineArgsView {
        CmdLineArgsView {
            options_list: match self.options_list {
                Some(list) => Some(views_of(list@)),
                None => None,
            },
            name: name_view(self.name),
            arg_callback: name_view(self.arg_callback),
            error_callback: name_view(self.error_callback),
            remainder: name_view(self.remainder),
            posix: self.posix,
            init_vars: self.init_vars,
            help_opt: self.help_opt,
            version_opt: self.version_opt,
            shell: name_view(self.shell),
            script_args: views_of(self.script_args@),
        }
    }
}

/// What one call gives: the text for the calling script to evaluate, the
/// text for its user, and the exit status of the tool itself.
#[derive(Debug, PartialEq, Eq)]
pub struct Outcome {
    /// The shell code, for standard output.
    pub stdout: String,
    /// The messages, for standard error.
    pub stderr: String,
    /// The exit status of the tool.
    pub exit_code: i32,
}

/// The mathematical content of an `Outcome`.
pub struct OutcomeView {
    pub stdout: Seq<char>,
    pub stderr: Seq<char>,
    pub exit_code: int,
}

impl View for Outcome {
    type V = OutcomeView;

    open spec fn view(&self) -> OutcomeView {
        OutcomeView {
            stdout: self.stdout@,
            stderr: self.stderr@,
            exit_code: self.exit_code as int,
        }
    }
}

/// The outcome of a call that was set up wrongly: the calling script is
/// told to exit, the message names the tool, and the tool exits with the
/// status that it keeps for this.
pub open spec fn internal_failure(message: Seq<char>) -> OutcomeView {
    OutcomeView {
        stdout: "exit 1\n"@,
        stderr: "parseargs: "@ + message + "\n"@,
        exit_code: 11,
    }
}

/// The option that a script gets on request: a singleton flag with one
/// long name that calls a function.
pub open spec fn synthetic_option(long: Seq<char>, function: Seq<char>) -> OptConfigView {
    OptConfigView {
        opt_chars: Seq::empty(),
        opt_strings: seq![long],
        opt_type: OptTypeView::Flag(OptTargetView::Function(function)),
        required: false,
        singleton: true,
        assigned: false,
        count_value: 0,
    }
}

/// The options of the script with `--help` and `--version` behind them
/// where they were asked for. An option of the same name that the script
/// defines itself comes first and so is the one that is found.
pub open spec fn with_synthetic(specs: Seq<OptConfigView>, args: CmdLineArgsView) -> Seq<
    OptConfigView,
> {
    specs + (if args.help_opt {
        seq![synthetic_option("help"@, "show_help"@)]
    } else {
        Seq::empty()
    }) + (if args.version_opt {
        seq![synthetic_option("version"@, "show_version"@)]
    } else {
        Seq::empty()
    })
}

/// The name of the shell to write for: the one that was asked for, else
/// the default of the environment, else `sh`.
pub open spec fn chosen_shell(args: CmdLineArgsView, env_shell: Option<Seq<char>>) -> Seq<char> {
    match args.shell {
        Some(shell) => shell,
        None => match env_shell {
            Some(shell) => shell,
            None => "sh"@,
        },
    }
}

/// The options that the settings define.
pub open spec fn defined_options(args: CmdLineArgsView) -> Result<Seq<OptConfigView>, Seq<char>> {
    match args.options_list {
        Some(list) => definitions(joined(list, ","@)),
        None => Ok(Seq::empty()),
    }
}

/// The code for a user's mistake: what had been collected, the call of
/// the error callback if there is one, and the exit of the script.
pub open spec fn failure_code(collected: Seq<CodeChunkView>, error_callback: Option<Seq<char>>)
    -> Seq<CodeChunkView> {
    collected + (match error_callback {
        Some(func) => seq![CodeChunkView::CallFunction(func, VarValueView::NoValue)],
        None => Seq::empty(),
    }) + seq![CodeChunkView::Exit(1)]
}

/// The outcome of matching the arguments of the script against `specs`
/// and writing the code for the shell `shell`.
///
/// Where all went well, the code is the initial code and the code of the
/// options. After a user's mistake the message is for the user and names
/// the script, and the code makes the script exit; the tool itself has
/// done its work and exits with zero.
pub open spec fn matched_outcome(
    specs: Seq<OptConfigView>,
    args: CmdLineArgsView,
    shell: CodeTemplates,
) -> OutcomeView {
    let end = MatchState::start(specs, args.script_args, args.posix).run(rules_of(args));
    match end.result {
        Ok(code) => OutcomeView {
            stdout: shell.script_text(init_code(specs, args, args.init_vars) + code) + "\n"@,
            stderr: Seq::empty(),
            exit_code: 0,
        },
        Err(e) => OutcomeView {
            stdout: shell.script_text(failure_code(e.code, args.error_callback)) + "\n"@,
            stderr: (match args.name {
                Some(name) => name,
                None => "parseargs"@,
            }) + ": "@ + e.message + "\n"@,
            exit_code: 0,
        },
    }
}

/// The outcome of a call with the given settings, `env_shell` being the
/// default shell of the environment.
///
/// A call that is set up wrongly fails: with definitions that cannot be
/// parsed or do not go together, with a shell that is not known, or with
/// a remainder array for a shell without arrays. Else the arguments are
/// matched.
pub open spec fn outcome_of(args: CmdLineArgsView, env_shell: Option<Seq<char>>) -> OutcomeView {
    match prepared_options(args) {
        Err(outcome) => outcome,
        Ok(specs) => {
            let name = chosen_shell(args, env_shell);
            match shell_template(name) {
                None => internal_failure("Unknown shell '"@ + name + "'"@),
                Some(shell) => if !shell.supports_arrays && args.remainder is Some {
                    internal_failure("Shell "@ + name + no_arrays_text())
                } else {
                    matched_outcome(specs, args, shell)
                },
            }
        },
    }
}

/// The outcome of a call that was set up wrongly.
pub fn die_internal(msg: String) -> (outcome: Outcome)
    ensures
        outcome@ == internal_failure(msg@),
{
    let mut stderr = String::from_str("parseargs: ");
    stderr.append(msg.as_str());
    stderr.append("\n");
    Outcome { stdout: String::from_str("exit 1\n"), stderr, exit_code: 11 }
}

/// An option that a script gets on request.
fn synthetic(long: &str, function: &str) -> (oc: OptConfig)
    ensures
        oc@ == synthetic_option(long@, function@),
{
    let mut opt_strings: Vec<String> = Vec::new();
    opt_strings.push(String::from_str(long));
    let oc = OptConfig {
        opt_chars: String::new(),
        opt_strings,
        opt_type: OptType::Flag(OptTarget::Function(String::from_str(function))),
        required: false,
        singleton: true,
        assigned: false,
        count_value: 0,
    };
    assert(oc@.opt_strings =~= seq![long@]);
    oc
}

/// What is said of a shell without arrays when a remainder array is asked
/// for.
pub open spec fn no_arrays_text() -> Seq<char> {
    " does not support arrays, so option -r/--remainder is not supported"@
}

/// The options that the call works with, or the outcome of a call whose
/// definitions are wrong.
pub open spec fn prepared_options(args: CmdLineArgsView) -> Result<
    Seq<OptConfigView>,
    OutcomeView,
> {
    match defined_options(args) {
        Err(error) => Err(internal_failure("Error parsing option definition:\n"@ + error)),
        Ok(defs) => match validation_fault(defs) {
            Some(message) => Err(internal_failure(message)),
            None => Ok(with_synthetic(defs, args)),
        },
    }
}

/// Parses and validates the definitions, and adds `--help` and
/// `--version` where they were asked for.
pub fn prepare_options(cmd_line_args: &CmdLineArgs) -> (r: Result<Vec<OptConfig>, Outcome>)
    ensures
        match r {
            Ok(list) => prepared_options(cmd_line_args@) == Ok::<
                Seq<OptConfigView>,
                OutcomeView,
            >(config_views(list@)),
            Err(outcome) => prepared_options(cmd_line_args@) == Err::<
                Seq<OptConfigView>,
                OutcomeView,
            >(outcome@),
        },
{
    let ghost args = cmd_line_args@;
    // parse the option definition string
    let result = match &cmd_line_args.options_list {
        Some(list) => {
            let text = join(list, ",");
            parse(&text)
        },
        None => Ok(Vec::new()),
    };
    let mut opt_cfg_list = match result {
        Ok(list) => list,
        Err(error) => {
            let mut message = String::from_str("Error parsing option definition:\n");
            message.append(error.as_str());
            return Err(die_internal(message));
        },
    };
    let ghost defs = config_views(opt_cfg_list@);
    assert(defined_options(args) == Ok::<Seq<OptConfigView>, Seq<char>>(defs)) by {
        if args.options_list is None {
            assert(defs =~= Seq::empty());
        }
    }
    match validate_option_definitions(&opt_cfg_list) {
        Err(message) => {
            return Err(die_internal(message));
        },
        Ok(_) => {},
    }

    // `--help` and `--version` come last, so that an option of the script
    // with the same name is found first.
    if cmd_line_args.help_opt {
        opt_cfg_list.push(synthetic("help", "show_help"));
    }
    if cmd_line_args.version_opt {
        opt_cfg_list.push(synthetic("version", "show_version"));
    }
    assert(config_views(opt_cfg_list@) =~= with_synthetic(defs, args));
    Ok(opt_cfg_list)
}

/// Matches the arguments of the script against the options and writes
/// the code for the given shell.
fn match_and_render(
    opt_cfg_list: Vec<OptConfig>,
    cmd_line_args: &CmdLineArgs,
    shell_tmpl: &CodeTemplates,
) -> (outcome: Outcome)
    requires
        shell_tmpl.supports_arrays || cmd_line_args@.remainder is None,
    ensures
        outcome@ == matched_outcome(config_views(opt_cfg_list@), cmd_line_args@, *shell_tmpl),
{
    let ghost args = cmd_line_args@;
    let ghost specs = config_views(opt_cfg_list@);
    let mut opt_cfg_list = opt_cfg_list;
    // the initial code: checks for functions, and initial values of
    // variables where they were asked for
    let mut init = shell_init_code(&opt_cfg_list, cmd_line_args, cmd_line_args.init_vars);
    let ghost initial = chunk_views(init@);
    proof {
        if args.remainder is None {
            lemma_init_code_array_free(specs, args, args.init_vars);
        }
    }
    match parse_shell_options(&mut opt_cfg_list, cmd_line_args) {
        Ok(mut code) => {
            let ghost matched = chunk_views(code@);
            init.append(&mut code);
            assert(chunk_views(init@) =~= initial + matched);
            let mut stdout = shell_tmpl.format_vector(&init);
            stdout.append("\n");
            Outcome { stdout, stderr: String::new(), exit_code: 0 }
        },
        Err(e) => {
            let mut code = e.code;
            let ghost collected = chunk_views(code@);
            match &cmd_line_args.error_callback {
                Some(func) => {
                    code.push(CodeChunk::CallFunction(func.clone(), VarValue::NoValue));
                },
                None => {},
            }
            code.push(CodeChunk::Exit(1));
            assert(chunk_views(code@) =~= failure_code(collected, args.error_callback));
            let mut stdout = shell_tmpl.format_vector(&code);
            stdout.append("\n");
            let mut stderr = match &cmd_line_args.name {
                Some(name) => name.clone(),
                None => String::from_str("parseargs"),
            };
            stderr.append(": ");
            stderr.append(e.message.as_str());
            stderr.append("\n");
            Outcome { stdout, stderr, exit_code: 0 }
        },
    }
}

/// The name of the shell to write for: from the settings, from the
/// environment, or the default.
pub fn choose_shell(cmd_line_args: &CmdLineArgs, env_shell: Option<&str>) -> (shell: String)
    ensures
        shell@ == chosen_shell(cmd_line_args@, crate::matching::str_view(env_shell)),
{
    match &cmd_line_args.shell {
        Some(shell) => shell.clone(),
        None => match env_shell {
            Some(shell) => String::from_str(shell),
            None => String::from_str("sh"),
        },
    }
}

/// The whole work of one call, `env_shell` being the default shell that
/// the environment names.
pub fn parseargs(cmd_line_args: &CmdLineArgs, env_shell: Option<&str>) -> (outcome: Outcome)
    ensures
        outcome@ == outcome_of(cmd_line_args@, crate::matching::str_view(env_shell)),
{
    let opt_cfg_list = match prepare_options(cmd_line_args) {
        Ok(list) => list,
        Err(outcome) => {
            return outcome;
        },
    };
    let shell = choose_shell(cmd_line_args, env_shell);
    let shell_tmpl = match get_shell_template(shell.as_str()) {
        Some(tmpl) => tmpl,
        None => {
            return die_internal(message_about("Unknown shell '", shell.as_str(), "'"));
        },
    };
    if !shell_tmpl.supports_arrays && cmd_line_args.remainder.is_some() {
        return die_internal(
            message_about(
                "Shell ",
                shell.as_str(),
                " does not support arrays, so option -r/--remainder is not supported",
            ),
        );
    }
    match_and_render(opt_cfg_list, cmd_line_args, &shell_tmpl)
}

/// Whether a text may be the name of a shell variable or function: an
/// ASCII letter, then ASCII letters, digits and underscores. The empty
/// text passes.
pub open spec fn is_shell_name(s: Seq<char>) -> bool {
    forall|i: int|
        0 <= i < s.len() ==> if i == 0 {
            is_ascii_letter(#[trigger] s[i])
        } else {
            is_ascii_letter(s[i]) || is_ascii_digit_char(s[i]) || s[i] == '_'
        }
}

/// Takes a text as the name of a shell variable or function, or says that
/// it is none.
pub fn parse_shell_name(arg: &str) -> (r: Result<String, String>)
    ensures
        match r {
            Ok(name) => is_shell_name(arg@) && name@ == arg@,
            Err(message) => !is_shell_name(arg@) && message@
                == "Not a valid shell variable or function name"@,
        },
{
    let chars = chars_of(arg);
    let mut idx: usize = 0;
    while idx < chars.len()
        invariant
            idx <= chars.len(),
            chars@ == arg@,
            is_shell_name(chars@.take(idx as int)),
        decreases chars.len() - idx,
    {
        let chr = chars[idx];
        let letter = ('a' <= chr && chr <= 'z') || ('A' <= chr && chr <= 'Z');
        let digit = '0' <= chr && chr <= '9';
        if (idx == 0 && !letter) || (idx > 0 && !letter && !digit && chr != '_') {
            assert(!is_shell_name(arg@)) by {
                assert(arg@[idx as int] == chr);
            }
            return Err(String::from_str("Not a valid shell variable or function name"));
        }
        assert(is_shell_name(chars@.take(idx + 1))) by {
            assert forall|i: int| 0 <= i < idx + 1 implies if i == 0 {
                is_ascii_letter(#[trigger] chars@.take(idx + 1)[i])
            } else {
                is_ascii_letter(chars@.take(idx + 1)[i]) || is_ascii_digit_char(
                    chars@.take(idx + 1)[i],
                ) || chars@.take(idx + 1)[i] == '_'
            } by {
                if i < idx {
                    assert(chars@.take(idx + 1)[i] == chars@.take(idx as int)[i]);
                }
            }
        }
        idx += 1;
    }
    assert(chars@.take(idx as int) == chars@);
    Ok(String::from_str(arg))
}

} // verus!
