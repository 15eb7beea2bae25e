//! The matching engine: it drives the tokenizer over a script's arguments,
//! finds the option that each element names, and collects the shell code
//! that carries the options out.

use vstd::prelude::*;
use crate::arg_parser::{CmdLineElement, CmdLineElementView, CmdLineTokenizer, TokenizerView};
use crate::opt_def::{OptConfig, OptConfigView, OptTarget, OptTargetView, OptType, OptTypeView,
    config_views};
use crate::parseargs::{CmdLineArgs, CmdLineArgsView};
use crate::shell_code::{CodeChunk, CodeChunkView, VarValue, VarValueView, array_free,
    chunk_views};
use crate::text::{chars_of, joined, lowercase, lowercased, str_eq, trim, trimmed, views_of};

verus! {

/// The truth value that a word stands for: `true` and `yes` for true,
/// `false` and `no` for false.
pub open spec fn bool_of_word(word: Seq<char>) -> Option<bool> {
    if word == "true"@ || word == "yes"@ {
        Some(true)
    } else if word == "false"@ || word == "no"@ {
        Some(false)
    } else {
        None
    }
}

/// The truth value of a flag: `default` without a value; else what the
/// value stands for, in any case of letters and with white space around
/// it, or the message that says that it stands for none.
pub open spec fn flag_value(value: Option<Seq<char>>, default: bool) -> Result<bool, Seq<char>> {
    match value {
        None => Ok(default),
        Some(v) => match bool_of_word(trimmed(lowercased(v))) {
            Some(b) => Ok(b),
            None => Err("Invalid boolean value: '"@ + v + "'"@),
        },
    }
}

/// The value of a decimal digit, or `None` for any other character.
pub open spec fn digit_value(c: char) -> Option<nat> {
    if '0' <= c <= '9' {
        Some((c as u32 - '0' as u32) as nat)
    } else {
        None
    }
}

/// Whether every character is a decimal digit.
pub open spec fn all_digits(s: Seq<char>) -> bool {
    forall|i: int| 0 <= i < s.len() ==> digit_value(#[trigger] s[i]) is Some
}

/// The number that a run of decimal digits stands for.
pub open spec fn digits_number(s: Seq<char>) -> nat
    decreases s.len(),
{
    if s.len() == 0 {
        0
    } else {
        digits_number(s.drop_last()) * 10 + match digit_value(s.last()) {
            Some(d) => d,
            None => 0,
        }
    }
}

/// The number that a text stands for as an unsigned integer of 16 bits: a
/// run of one or more decimal digits, with or without `+` before it,
/// whose number is at most 65535.
pub open spec fn u16_of_text(s: Seq<char>) -> Option<nat> {
    let digits = if s.len() > 0 && s[0] == '+' {
        s.drop_first()
    } else {
        s
    };
    if digits.len() > 0 && all_digits(digits) && digits_number(digits) <= 65535 {
        Some(digits_number(digits))
    } else {
        None
    }
}

/// The count that an option hands to a counter: none without a value;
/// else the number that the value stands for, or the message that says
/// that it stands for none.
pub open spec fn counter_value(value: Option<Seq<char>>) -> Result<Option<nat>, Seq<char>> {
    match value {
        None => Ok(None),
        Some(v) => match u16_of_text(v) {
            Some(n) => Ok(Some(n)),
            None => Err("Invalid unsigned integer (0-65535): '"@ + v + "'"@),
        },
    }
}

/// The truth value that a word stands for.
pub fn word_to_bool(word: &str) -> (r: Option<bool>)
    ensures
        r == bool_of_word(word@),
{
    if str_eq(word, "true") || str_eq(word, "yes") {
        Some(true)
    } else if str_eq(word, "false") || str_eq(word, "no") {
        Some(false)
    } else {
        None
    }
}

/// The truth value of an optional text.
///
/// `true` and `yes` give true, `false` and `no` give false, in any case of
/// letters. No text gives `default`.
pub fn optional_str_to_bool(ostr: Option<&str>, default: bool) -> (r: Result<bool, String>)
    ensures
        match r {
            Ok(b) => flag_value(str_view(ostr), default) == Ok::<bool, Seq<char>>(b),
            Err(msg) => flag_value(str_view(ostr), default) == Err::<bool, Seq<char>>(msg@),
        },
{
    match ostr {
        Some(v) => {
            let lower = lowercase(v);
            let word = trim(lower.as_str());
            match word_to_bool(word.as_str()) {
                Some(b) => Ok(b),
                None => {
                    let mut msg = String::from_str("Invalid boolean value: '");
                    msg.append(v);
                    msg.append("'");
                    Err(msg)
                },
            }
        },
        None => Ok(default),
    }
}

/// The view of a borrowed text that may be missing.
pub open spec fn str_view(s: Option<&str>) -> Option<Seq<char>> {
    match s {
        Some(s) => Some(s@),
        None => None,
    }
}

proof fn lemma_digits_number_grows(s: Seq<char>, k: int)
    requires
        0 <= k <= s.len(),
    ensures
        digits_number(s.take(k)) <= digits_number(s),
    decreases s.len() - k,
{
    if k < s.len() {
        lemma_digits_number_grows(s, k + 1);
        assert(s.take(k + 1).drop_last() == s.take(k));
        assert(digits_number(s.take(k)) <= digits_number(s.take(k + 1))) by (nonlinear_arith)
            requires
                digits_number(s.take(k + 1)) == digits_number(s.take(k)) * 10 + match digit_value(
                    s.take(k + 1).last(),
                ) {
                    Some(d) => d,
                    None => 0,
                },
        ;
    } else {
        assert(s.take(k) == s);
    }
}

/// The number that a text stands for as an unsigned integer of 16 bits.
pub fn text_to_u16(text: &str) -> (r: Option<u16>)
    ensures
        match r {
            Some(n) => u16_of_text(text@) == Some(n as nat),
            None => u16_of_text(text@) is None,
        },
{
    let chars = chars_of(text);
    let n = chars.len();
    let start: usize = if n > 0 && chars[0] == '+' {
        1
    } else {
        0
    };
    let ghost digits = chars@.skip(start as int);
    assert(start == 1 ==> digits == text@.drop_first());
    assert(start == 0 ==> digits == text@);
    if start == n {
        return None;
    }
    let mut number: u32 = 0;
    let mut i: usize = start;
    assert(digits.take(0) == Seq::<char>::empty());
    while i < n
        invariant
            start <= i <= n,
            n == chars.len(),
            digits == chars@.skip(start as int),
            digits == if text@.len() > 0 && text@[0] == '+' {
                text@.drop_first()
            } else {
                text@
            },
            all_digits(digits.take(i - start)),
            number == digits_number(digits.take(i - start)),
            number <= 65535,
        decreases n - i,
    {
        let c = chars[i];
        let ghost upto = digits.take(i - start + 1);
        assert(upto.drop_last() == digits.take(i - start));
        assert(upto.last() == c);
        if c < '0' || c > '9' {
            assert(digits[i - start] == c);
            assert(digit_value(digits[i - start]) is None);
            assert(!all_digits(digits));
            return None;
        }
        let d: u32 = c as u32 - '0' as u32;
        number = number * 10 + d;
        assert(number == digits_number(upto));
        if number > 65535 {
            proof {
                lemma_digits_number_grows(digits, i - start + 1);
                assert(digits_number(digits) > 65535);
            }
            return None;
        }
        assert forall|j: int| 0 <= j < upto.len() implies digit_value(#[trigger] upto[j])
            is Some by {
            if j < i - start {
                assert(upto[j] == digits.take(i - start)[j]);
            }
        }
        i += 1;
    }
    assert(digits.take(n - start) == digits);
    Some(number as u16)
}

/// The count of an optional text.
///
/// No text gives no count. A text that is no unsigned integer of 16 bits
/// gives a message.
pub fn optional_string_to_optional_u16(value: Option<&str>) -> (r: Result<Option<u16>, String>)
    ensures
        match r {
            Ok(Some(n)) => counter_value(str_view(value)) == Ok::<Option<nat>, Seq<char>>(
                Some(n as nat),
            ),
            Ok(None) => counter_value(str_view(value)) == Ok::<Option<nat>, Seq<char>>(None),
            Err(msg) => counter_value(str_view(value)) == Err::<Option<nat>, Seq<char>>(msg@),
        },
{
    match value {
        Some(v) => {
            match text_to_u16(v) {
                Some(n) => Ok(Some(n)),
                None => {
                    let mut msg = String::from_str("Invalid unsigned integer (0-65535): '");
                    msg.append(v);
                    msg.append("'");
                    Err(msg)
                },
            }
        },
        None => Ok(None),
    }
}

/// What matching depends on besides the options and the arguments.
pub struct MatchRules {
    /// Whether the first argument that is no option ends option processing.
    pub posix: bool,
    /// The shell function that is called with each program argument.
    pub arg_callback: Option<Seq<char>>,
    /// The shell array that collects the arguments behind `--`.
    pub remainder: Option<Seq<char>>,
}

/// The rules that a call's settings give.
pub open spec fn rules_of(args: CmdLineArgsView) -> MatchRules {
    MatchRules { posix: args.posix, arg_callback: args.arg_callback, remainder: args.remainder }
}

/// The user's mistake that ended matching, with the code that had been
/// collected when it was found.
#[derive(Debug, PartialEq, Eq)]
pub struct MatchError {
    /// The message for the user of the script.
    pub message: String,
    /// The code of the options that had been matched before.
    pub code: Vec<CodeChunk>,
}

/// The mathematical content of a `MatchError`.
pub struct MatchErrorView {
    pub message: Seq<char>,
    pub code: Seq<CodeChunkView>,
}

impl View for MatchError {
    type V = MatchErrorView;

    open spec fn view(&self) -> MatchErrorView {
        MatchErrorView { message: self.message@, code: chunk_views(self.code@) }
    }
}

/// The view of what matching returns.
pub open spec fn result_view(r: Result<Vec<CodeChunk>, MatchError>) -> Result<
    Seq<CodeChunkView>,
    MatchErrorView,
> {
    match r {
        Ok(code) => Ok(chunk_views(code@)),
        Err(e) => Err(e@),
    }
}

/// The code that matching returns: that of the whole command line, or
/// what had been collected when the user's mistake was found.
pub open spec fn end_code_of(r: Result<Vec<CodeChunk>, MatchError>) -> Seq<CodeChunkView> {
    match r {
        Ok(code) => chunk_views(code@),
        Err(e) => chunk_views(e.code@),
    }
}

/// The chunk that hands `value` to `target`: an assignment for a
/// variable, a call for a function.
pub open spec fn assignment(target: OptTargetView, value: VarValueView) -> CodeChunkView {
    match target {
        OptTargetView::Variable(name) => CodeChunkView::AssignVar(name, value),
        OptTargetView::Function(name) => CodeChunkView::CallFunction(name, value),
    }
}

/// The index of the first option that the element names, or the number
/// of options if it names none.
pub open spec fn first_match(specs: Seq<OptConfigView>, el: CmdLineElementView) -> int
    decreases specs.len(),
{
    if specs.len() == 0 {
        0
    } else if specs[0].matches(el) {
        0
    } else {
        1 + first_match(specs.drop_first(), el)
    }
}

/// The option as the user wrote it, without a value: `-c` or `--name`.
pub open spec fn option_name_text(el: CmdLineElementView) -> Seq<char> {
    match el {
        CmdLineElementView::LongOptionValue(name, _) => seq!['-', '-'] + name,
        _ => el.text(),
    }
}

/// The value that is attached to an option with `=`.
pub open spec fn attached_value(el: CmdLineElementView) -> Option<Seq<char>> {
    match el {
        CmdLineElementView::LongOptionValue(_, value) => Some(value),
        _ => None,
    }
}

/// The count after one more occurrence of a counter: one more, but for
/// the greatest count, 65535, at which a counter stays.
pub open spec fn next_count(count: nat) -> nat {
    if count >= 65535 {
        65535
    } else {
        count + 1
    }
}

/// What carrying out the option `oc` for the element `el` gives: the
/// chunk and the count that the option has from then on, or a message for
/// the user; and the tokenizer afterwards.
///
/// A flag takes the truth value of its attached value, or true. A mode
/// switch takes no value and hands on its fixed one. An assignment takes
/// its attached value, else the next argument. A counter takes its
/// attached value as its count, else counts one up; every occurrence
/// hands on the count.
pub open spec fn carried_out(oc: OptConfigView, tokens: TokenizerView, el: CmdLineElementView) -> (
    Result<(CodeChunkView, nat), Seq<char>>,
    TokenizerView,
) {
    match oc.opt_type {
        OptTypeView::Flag(target) => (
            match flag_value(attached_value(el), true) {
                Ok(b) => Ok((assignment(target, VarValueView::BoolValue(b)), oc.count_value)),
                Err(message) => Err(message),
            },
            tokens,
        ),
        OptTypeView::ModeSwitch(target, value) => (
            if attached_value(el) is Some {
                Err(oc.options_text() + ": No value supported."@)
            } else {
                Ok((assignment(target, VarValueView::StringValue(value)), oc.count_value))
            },
            tokens,
        ),
        OptTypeView::Assignment(target) => match attached_value(el) {
            Some(value) => (
                Ok((assignment(target, VarValueView::StringValue(value)), oc.count_value)),
                tokens,
            ),
            None => {
                let (argument, after) = tokens.option_argument();
                (
                    match argument {
                        Some(value) => Ok(
                            (
                                assignment(target, VarValueView::StringValue(value)),
                                oc.count_value,
                            ),
                        ),
                        None => Err("Missing argument for: "@ + option_name_text(el)),
                    },
                    after,
                )
            },
        },
        OptTypeView::Counter(target) => (
            match counter_value(attached_value(el)) {
                Ok(given) => {
                    let count = match given {
                        Some(n) => n,
                        None => next_count(oc.count_value),
                    };
                    Ok((assignment(target, VarValueView::IntValue(count as int)), count))
                },
                Err(message) => Err(message),
            },
            tokens,
        ),
    }
}

/// What is known while the arguments are matched.
pub struct MatchState {
    /// The options, with what was seen of each.
    pub specs: Seq<OptConfigView>,
    /// The tokenizer.
    pub tokens: TokenizerView,
    /// The code collected so far.
    pub code: Seq<CodeChunkView>,
    /// The program arguments collected so far.
    pub arguments: Seq<Seq<char>>,
    /// Whether option processing has ended.
    pub after_separator: bool,
}

/// How matching ends: the options as they are then, and the code of the
/// whole command line or the user's mistake.
pub struct MatchEnd {
    pub specs: Seq<OptConfigView>,
    pub result: Result<Seq<CodeChunkView>, MatchErrorView>,
}

/// What one element of the command line leads to.
pub enum Step {
    /// Matching goes on in this state.
    Continue(MatchState),
    /// Matching is over.
    Halt(MatchEnd),
}

impl MatchState {
    /// The state before any argument was read.
    pub open spec fn start(specs: Seq<OptConfigView>, args: Seq<Seq<char>>, posix: bool)
        -> MatchState {
        MatchState {
            specs,
            tokens: TokenizerView::start(args, posix),
            code: Seq::empty(),
            arguments: Seq::empty(),
            after_separator: false,
        }
    }

    /// What an element that names an option leads to, `self` being the
    /// state after the element was read.
    ///
    /// The first option that the element names is taken. An option that
    /// was given before may only be given again if it is a counter or
    /// calls a function. A singleton drops the code collected so far.
    /// Then the option is carried out according to its kind. After a
    /// singleton the script is told to exit and matching ends.
    pub open spec fn option_step(self, el: CmdLineElementView) -> Step {
        let at = first_match(self.specs, el);
        if at >= self.specs.len() {
            Step::Halt(
                MatchEnd {
                    specs: self.specs,
                    result: Err(
                        MatchErrorView {
                            message: "Unknown option: "@ + option_name_text(el),
                            code: self.code,
                        },
                    ),
                },
            )
        } else {
            let oc = self.specs[at];
            if oc.assigned && !oc.is_duplicate_allowed() {
                Step::Halt(
                    MatchEnd {
                        specs: self.specs,
                        result: Err(
                            MatchErrorView {
                                message: "Duplicate option: "@ + option_name_text(el) + " ("@
                                    + oc.options_text() + ")"@,
                                code: self.code,
                            },
                        ),
                    },
                )
            } else {
                let (outcome, tokens) = carried_out(oc, self.tokens, el);
                let kept = if oc.singleton {
                    Seq::empty()
                } else {
                    self.code
                };
                match outcome {
                    Err(message) => Step::Halt(
                        MatchEnd {
                            specs: self.specs.update(at, OptConfigView { assigned: true, ..oc }),
                            result: Err(MatchErrorView { message, code: kept }),
                        },
                    ),
                    Ok((chunk, count)) => {
                        let specs = self.specs.update(
                            at,
                            OptConfigView { assigned: true, count_value: count, ..oc },
                        );
                        let code = kept.push(chunk);
                        if oc.singleton {
                            Step::Halt(
                                MatchEnd { specs, result: Ok(code.push(CodeChunkView::Exit(0))) },
                            )
                        } else {
                            Step::Continue(MatchState { specs, tokens, code, ..self })
                        }
                    },
                }
            }
        }
    }

    /// What a program argument leads to.
    ///
    /// Under `posix` it ends option processing. Once option processing has
    /// ended it goes to the remainder array, if there is one. Else it is
    /// handed to the argument callback, if there is one. Else it becomes a
    /// positional argument.
    pub open spec fn argument_step(self, rules: MatchRules, value: Seq<char>) -> MatchState {
        let after_separator = self.after_separator || rules.posix;
        if after_separator && rules.remainder is Some {
            MatchState {
                code: self.code.push(
                    CodeChunkView::AddToArray(
                        rules.remainder->0,
                        VarValueView::StringValue(value),
                    ),
                ),
                after_separator,
                ..self
            }
        } else if rules.arg_callback is Some {
            MatchState {
                code: self.code.push(
                    CodeChunkView::CallFunction(
                        rules.arg_callback->0,
                        VarValueView::StringValue(value),
                    ),
                ),
                after_separator,
                ..self
            }
        } else {
            MatchState { arguments: self.arguments.push(value), after_separator, ..self }
        }
    }

    /// What one element of the command line leads to, `self` being the
    /// state after the element was read.
    pub open spec fn step(self, rules: MatchRules, el: CmdLineElementView) -> Step {
        match el {
            CmdLineElementView::Separator => Step::Continue(
                MatchState { after_separator: true, ..self },
            ),
            CmdLineElementView::Argument(value) => Step::Continue(
                self.argument_step(rules, value),
            ),
            _ => self.option_step(el),
        }
    }

    /// How matching ends at the end of the command line: with the first
    /// fault of the options as a whole, or with the code collected and
    /// the positional arguments set.
    pub open spec fn finish(self) -> MatchEnd {
        match end_fault(self.specs) {
            Some(message) => MatchEnd {
                specs: self.specs,
                result: Err(MatchErrorView { message, code: self.code }),
            },
            None => MatchEnd {
                specs: self.specs,
                result: Ok(self.code.push(CodeChunkView::SetArgs(self.arguments))),
            },
        }
    }

    /// How matching ends when it starts in this state: the elements of
    /// the command line are taken one by one until one of them ends
    /// matching or none is left.
    pub open spec fn run(self, rules: MatchRules) -> MatchEnd
        decreases self.tokens.remaining().0, self.tokens.remaining().1,
    {
        match self.tokens.next() {
            (None, _) => self.finish(),
            (Some(el), tokens) => match (MatchState { tokens, ..self }).step(rules, el) {
                Step::Halt(end) => end,
                Step::Continue(next) => next.run(rules),
            },
        }
    }
}

/// The options among `specs` whose target has the given name.
pub open spec fn members(specs: Seq<OptConfigView>, name: Seq<char>) -> Seq<OptConfigView>
    decreases specs.len(),
{
    if specs.len() == 0 {
        Seq::empty()
    } else if specs.last().target_name() == name {
        members(specs.drop_last(), name).push(specs.last())
    } else {
        members(specs.drop_last(), name)
    }
}

/// The options among `group` that were given.
pub open spec fn assigned_ones(group: Seq<OptConfigView>) -> Seq<OptConfigView>
    decreases group.len(),
{
    if group.len() == 0 {
        Seq::empty()
    } else if group.last().assigned {
        assigned_ones(group.drop_last()).push(group.last())
    } else {
        assigned_ones(group.drop_last())
    }
}

/// Whether one of the options must be given.
pub open spec fn any_required(group: Seq<OptConfigView>) -> bool
    decreases group.len(),
{
    group.len() > 0 && (group.last().required || any_required(group.drop_last()))
}

/// The options as they are shown to a user.
pub open spec fn options_texts(group: Seq<OptConfigView>) -> Seq<Seq<char>> {
    group.map_values(|c: OptConfigView| c.options_text())
}

/// What is wrong with the options that share one target, if anything:
/// more than one of them was given, or none although one must be.
pub open spec fn group_fault(group: Seq<OptConfigView>) -> Option<Seq<char>> {
    let used = assigned_ones(group);
    if group.len() > 1 && used.len() > 1 {
        Some("Options are mutually exclusive: "@ + joined(options_texts(used), ", "@))
    } else if group.len() > 1 && used.len() == 0 && any_required(group) {
        Some("One of the following options is required: "@ + joined(options_texts(group), ", "@))
    } else {
        None
    }
}

/// The fault of the first option from `from` on whose target is shared
/// and whose group has one.
pub open spec fn first_group_fault(specs: Seq<OptConfigView>, from: int) -> Option<Seq<char>>
    decreases specs.len() - from,
{
    if from < 0 || from >= specs.len() {
        None
    } else {
        match group_fault(members(specs, specs[from].target_name())) {
            Some(message) => Some(message),
            None => first_group_fault(specs, from + 1),
        }
    }
}

/// Whether the option at `at` shares its target with no other, must be
/// given and was not.
pub open spec fn is_missing(specs: Seq<OptConfigView>, at: int) -> bool {
    members(specs, specs[at].target_name()).len() <= 1 && specs[at].required
        && !specs[at].assigned
}

/// The message for the first option from `from` on that is missing.
pub open spec fn first_missing(specs: Seq<OptConfigView>, from: int) -> Option<Seq<char>>
    decreases specs.len() - from,
{
    if from < 0 || from >= specs.len() {
        None
    } else if is_missing(specs, from) {
        Some("Required option not found: "@ + specs[from].options_text())
    } else {
        first_missing(specs, from + 1)
    }
}

/// What is wrong with the options as a whole at the end of the command
/// line, if anything. The groups of options that share a target are
/// looked at first, in the order of the options; then every other
/// option, in that order.
pub open spec fn end_fault(specs: Seq<OptConfigView>) -> Option<Seq<char>> {
    match first_group_fault(specs, 0) {
        Some(message) => Some(message),
        None => first_missing(specs, 0),
    }
}

/// The chunk that hands a value to an option's target: an assignment for a
/// variable, a call for a function.
pub fn assign_target(target: &OptTarget, value: VarValue) -> (chunk: CodeChunk)
    ensures
        chunk@ == assignment(target@, value@),
{
    match target {
        OptTarget::Variable(name) => CodeChunk::AssignVar(name.clone(), value),
        OptTarget::Function(name) => CodeChunk::CallFunction(name.clone(), value),
    }
}

/// The index of the first option that the element names, or the number of
/// options if it names none.
fn find_option(list: &Vec<OptConfig>, el: &CmdLineElement) -> (at: usize)
    ensures
        at == first_match(config_views(list@), el@),
        at <= list.len(),
{
    let ghost specs = config_views(list@);
    let mut at: usize = 0;
    assert(specs.skip(0) == specs);
    while at < list.len()
        invariant
            at <= list.len(),
            specs == config_views(list@),
            first_match(specs, el@) == at + first_match(specs.skip(at as int), el@),
        decreases list.len() - at,
    {
        assert(specs.skip(at as int)[0] == list@[at as int]@);
        if list[at].match_option(el) {
            return at;
        }
        assert(specs.skip(at as int).drop_first() == specs.skip(at + 1));
        at += 1;
    }
    at
}

/// The option as the user wrote it, without a value: `-c` or `--name`.
fn option_name(el: &CmdLineElement) -> (name: String)
    ensures
        name@ == option_name_text(el@),
{
    match el {
        CmdLineElement::LongOptionValue(long, _) => {
            let mut name = String::from_str("--");
            name.append(long.as_str());
            proof {
                reveal_strlit("--");
                assert("--"@ =~= seq!['-', '-']);
            }
            name
        },
        _ => el.to_string(),
    }
}

/// The view of what carrying out an option gives.
spec fn carried_view(r: Result<(CodeChunk, u16), String>) -> Result<
    (CodeChunkView, nat),
    Seq<char>,
> {
    match r {
        Ok((chunk, count)) => Ok((chunk@, count as nat)),
        Err(message) => Err(message@),
    }
}

/// Carries out the option `oc` for the element `el`: gives the chunk and
/// the count that the option has from then on, or a message for the user.
fn carry_out(oc: &OptConfig, tokenizer: &mut CmdLineTokenizer, el: &CmdLineElement) -> (r: Result<
    (CodeChunk, u16),
    String,
>)
    ensures
        carried_view(r) == carried_out(oc@, old(tokenizer)@, el@).0,
        final(tokenizer)@ == carried_out(oc@, old(tokenizer)@, el@).1,
{
    let attached: Option<&str> = match el {
        CmdLineElement::LongOptionValue(_, value) => Some(value.as_str()),
        _ => None,
    };
    assert(str_view(attached) == attached_value(el@));
    match &oc.opt_type {
        OptType::Flag(target) => {
            match optional_str_to_bool(attached, true) {
                Ok(b) => Ok((assign_target(target, VarValue::BoolValue(b)), oc.count_value)),
                Err(message) => Err(message),
            }
        },
        OptType::ModeSwitch(target, mode_value) => {
            if attached.is_some() {
                let mut message = oc.options_string();
                message.append(": No value supported.");
                Err(message)
            } else {
                // Whether another switch of the same mode was given shows at
                // the end of the command line.
                Ok(
                    (
                        assign_target(target, VarValue::StringValue(mode_value.clone())),
                        oc.count_value,
                    ),
                )
            }
        },
        OptType::Assignment(target) => {
            let opt_arg = match attached {
                Some(value) => Some(String::from_str(value)),
                None => tokenizer.get_option_argument(),
            };
            match opt_arg {
                Some(value) => Ok(
                    (assign_target(target, VarValue::StringValue(value)), oc.count_value),
                ),
                None => {
                    let mut message = String::from_str("Missing argument for: ");
                    let name = option_name(el);
                    message.append(name.as_str());
                    Err(message)
                },
            }
        },
        OptType::Counter(target) => {
            match optional_string_to_optional_u16(attached) {
                Ok(given) => {
                    let count: u16 = match given {
                        Some(n) => n,
                        None => if oc.count_value == u16::MAX {
                            u16::MAX
                        } else {
                            oc.count_value + 1
                        },
                    };
                    Ok((assign_target(target, VarValue::IntValue(count as i32)), count))
                },
                Err(message) => Err(message),
            }
        },
    }
}

/// What the handling of one element tells the loop over the elements.
enum Flow {
    /// Go on with the next element.
    Continue,
    /// A singleton was carried out: the code is complete.
    Exit,
    /// The user made a mistake.
    Fail(String),
}

/// The step that a flow stands for, with the state that was left.
spec fn flow_step(
    flow: Flow,
    before: MatchState,
    specs: Seq<OptConfigView>,
    tokens: TokenizerView,
    code: Seq<CodeChunkView>,
) -> Step {
    match flow {
        Flow::Continue => Step::Continue(MatchState { specs, tokens, code, ..before }),
        Flow::Exit => Step::Halt(MatchEnd { specs, result: Ok(code) }),
        Flow::Fail(message) => Step::Halt(
            MatchEnd { specs, result: Err(MatchErrorView { message: message@, code }) },
        ),
    }
}

/// Handles an element that names an option.
fn handle_option(
    list: &mut Vec<OptConfig>,
    tokenizer: &mut CmdLineTokenizer,
    shell_code: &mut Vec<CodeChunk>,
    el: &CmdLineElement,
    Ghost(before): Ghost<MatchState>,
) -> (flow: Flow)
    requires
        before.specs == config_views(old(list)@),
        before.tokens == old(tokenizer)@,
        before.code == chunk_views(old(shell_code)@),
    ensures
        before.option_step(el@) == flow_step(
            flow,
            before,
            config_views(final(list)@),
            final(tokenizer)@,
            chunk_views(final(shell_code)@),
        ),
{
    let at = find_option(list, el);
    if at >= list.len() {
        let mut message = String::from_str("Unknown option: ");
        let name = option_name(el);
        message.append(name.as_str());
        return Flow::Fail(message);
    }
    let ghost oc = before.specs[at as int];
    assert(oc == list@[at as int]@);
    // A counter and an option that calls a function may be given again.
    if list[at].assigned && !list[at].is_duplicate_allowed() {
        let mut message = String::from_str("Duplicate option: ");
        let name = option_name(el);
        message.append(name.as_str());
        message.append(" (");
        let shown = list[at].options_string();
        message.append(shown.as_str());
        message.append(")");
        return Flow::Fail(message);
    }
    let singleton = list[at].singleton;
    if singleton {
        shell_code.clear();
    }
    let ghost kept = chunk_views(shell_code@);
    assert(kept =~= if oc.singleton {
        Seq::empty()
    } else {
        before.code
    });
    match carry_out(&list[at], tokenizer, el) {
        Err(message) => {
            list[at].assigned = true;
            assert(config_views(list@) =~= before.specs.update(
                at as int,
                OptConfigView { assigned: true, ..oc },
            ));
            Flow::Fail(message)
        },
        Ok((chunk, count)) => {
            list[at].assigned = true;
            list[at].count_value = count;
            assert(config_views(list@) =~= before.specs.update(
                at as int,
                OptConfigView { assigned: true, count_value: count as nat, ..oc },
            ));
            shell_code.push(chunk);
            assert(chunk_views(shell_code@) =~= kept.push(chunk@));
            if singleton {
                shell_code.push(CodeChunk::Exit(0));
                assert(chunk_views(shell_code@) =~= kept.push(chunk@).push(CodeChunkView::Exit(0)));
                Flow::Exit
            } else {
                Flow::Continue
            }
        },
    }
}

/// Handles a program argument.
fn handle_argument(
    cmd_line_args: &CmdLineArgs,
    shell_code: &mut Vec<CodeChunk>,
    arguments: &mut Vec<String>,
    after_separator: &mut bool,
    value: String,
    Ghost(before): Ghost<MatchState>,
)
    requires
        before.code == chunk_views(old(shell_code)@),
        before.arguments == views_of(old(arguments)@),
        before.after_separator == *old(after_separator),
    ensures
        before.argument_step(rules_of(cmd_line_args@), value@) == (MatchState {
            code: chunk_views(final(shell_code)@),
            arguments: views_of(final(arguments)@),
            after_separator: *final(after_separator),
            ..before
        }),
{
    if cmd_line_args.posix {
        *after_separator = true;
    }
    if *after_separator && cmd_line_args.remainder.is_some() {
        match &cmd_line_args.remainder {
            Some(array) => {
                let chunk = CodeChunk::AddToArray(array.clone(), VarValue::StringValue(value));
                shell_code.push(chunk);
                assert(chunk_views(shell_code@) =~= before.code.push(chunk@));
            },
            None => {},
        }
    } else {
        match &cmd_line_args.arg_callback {
            Some(func) => {
                let chunk = CodeChunk::CallFunction(func.clone(), VarValue::StringValue(value));
                shell_code.push(chunk);
                assert(chunk_views(shell_code@) =~= before.code.push(chunk@));
            },
            None => {
                arguments.push(value);
                assert(views_of(arguments@) =~= before.arguments.push(value@));
            },
        }
    }
}

/// What a walk over the options that share one target has found.
struct GroupScan {
    /// How many they are.
    size: usize,
    /// Those that were given, as they are shown to a user.
    used: Vec<String>,
    /// All of them, as they are shown to a user.
    all: Vec<String>,
    /// Whether one of them must be given.
    required: bool,
}

/// Walks over the options whose target has the given name.
fn scan_group(list: &Vec<OptConfig>, name: &str) -> (scan: GroupScan)
    ensures
        scan.size == members(config_views(list@), name@).len(),
        views_of(scan.used@) == options_texts(
            assigned_ones(members(config_views(list@), name@)),
        ),
        views_of(scan.all@) == options_texts(members(config_views(list@), name@)),
        scan.required == any_required(members(config_views(list@), name@)),
{
    let ghost specs = config_views(list@);
    let mut scan = GroupScan { size: 0, used: Vec::new(), all: Vec::new(), required: false };
    let mut j: usize = 0;
    while j < list.len()
        invariant
            j <= list.len(),
            specs == config_views(list@),
            scan.size <= j,
            scan.size == members(specs.take(j as int), name@).len(),
            views_of(scan.used@) == options_texts(
                assigned_ones(members(specs.take(j as int), name@)),
            ),
            views_of(scan.all@) == options_texts(members(specs.take(j as int), name@)),
            scan.required == any_required(members(specs.take(j as int), name@)),
        decreases list.len() - j,
    {
        let ghost group = members(specs.take(j as int), name@);
        let ghost oc = specs[j as int];
        assert(oc == list@[j as int]@);
        assert(specs.take(j + 1).drop_last() == specs.take(j as int));
        assert(specs.take(j + 1).last() == oc);
        let target_name = list[j].get_target_name();
        if str_eq(target_name.as_str(), name) {
            let ghost grown = group.push(oc);
            assert(members(specs.take(j + 1), name@) == grown);
            assert(grown.drop_last() == group);
            let shown = list[j].options_string();
            if list[j].assigned {
                let ghost before = views_of(scan.used@);
                let again = shown.clone();
                scan.used.push(again);
                assert(views_of(scan.used@) =~= before.push(oc.options_text()));
                assert(options_texts(assigned_ones(grown)) =~= options_texts(
                    assigned_ones(group),
                ).push(oc.options_text()));
            }
            let ghost before = views_of(scan.all@);
            scan.all.push(shown);
            assert(views_of(scan.all@) =~= before.push(oc.options_text()));
            assert(options_texts(grown) =~= options_texts(group).push(oc.options_text()));
            if list[j].required {
                scan.required = true;
            }
            scan.size += 1;
        }
        j += 1;
    }
    assert(specs.take(j as int) == specs);
    scan
}

/// The view of a message that may be missing.
spec fn message_view(message: Option<String>) -> Option<Seq<char>> {
    match message {
        Some(message) => Some(message@),
        None => None,
    }
}

/// Looks for what is wrong with the options as a whole at the end of the
/// command line.
fn check_end(list: &Vec<OptConfig>) -> (fault: Option<String>)
    ensures
        message_view(fault) == end_fault(config_views(list@)),
{
    let ghost specs = config_views(list@);
    let mut i: usize = 0;
    while i < list.len()
        invariant
            i <= list.len(),
            specs == config_views(list@),
            first_group_fault(specs, 0) == first_group_fault(specs, i as int),
        decreases list.len() - i,
    {
        assert(specs[i as int] == list@[i as int]@);
        let name = list[i].get_target_name();
        let scan = scan_group(list, name.as_str());
        let ghost group = members(specs, specs[i as int].target_name());
        assert(views_of(scan.used@).len() == scan.used.len());
        assert(options_texts(assigned_ones(group)).len() == assigned_ones(group).len());
        if scan.size > 1 && scan.used.len() > 1 {
            let mut message = String::from_str("Options are mutually exclusive: ");
            let shown = crate::text::join(&scan.used, ", ");
            message.append(shown.as_str());
            assert(group_fault(group) == Some(message@));
            return Some(message);
        }
        if scan.size > 1 && scan.used.len() == 0 && scan.required {
            let mut message = String::from_str("One of the following options is required: ");
            let shown = crate::text::join(&scan.all, ", ");
            message.append(shown.as_str());
            assert(group_fault(group) == Some(message@));
            return Some(message);
        }
        assert(group_fault(group) is None);
        i += 1;
    }
    let mut k: usize = 0;
    while k < list.len()
        invariant
            k <= list.len(),
            specs == config_views(list@),
            first_group_fault(specs, 0) is None,
            first_missing(specs, 0) == first_missing(specs, k as int),
        decreases list.len() - k,
    {
        assert(specs[k as int] == list@[k as int]@);
        if list[k].required && !list[k].assigned {
            let name = list[k].get_target_name();
            let scan = scan_group(list, name.as_str());
            if scan.size <= 1 {
                let mut message = String::from_str("Required option not found: ");
                let shown = list[k].options_string();
                message.append(shown.as_str());
                assert(is_missing(specs, k as int));
                return Some(message);
            }
        }
        assert(!is_missing(specs, k as int));
        k += 1;
    }
    None
}

/// A copy of a list of strings.
fn copy_strings(items: &Vec<String>) -> (copy: Vec<String>)
    ensures
        views_of(copy@) == views_of(items@),
{
    let mut copy: Vec<String> = Vec::new();
    let mut i: usize = 0;
    while i < items.len()
        invariant
            i <= items.len(),
            views_of(copy@) == views_of(items@).take(i as int),
        decreases items.len() - i,
    {
        let ghost before = views_of(copy@);
        let item = items[i].clone();
        copy.push(item);
        assert(views_of(copy@) =~= before.push(items@[i as int]@));
        assert(views_of(items@).take(i + 1) =~= views_of(items@).take(i as int).push(
            items@[i as int]@,
        ));
        i += 1;
    }
    assert(views_of(items@).take(i as int) == views_of(items@));
    copy
}

/// Matches the arguments of the calling script against its options.
///
/// Gives the code that carries the options out, or the user's mistake
/// with the code collected until it was found. What was seen of each
/// option is written into the list.
pub fn parse_shell_options(opt_cfg_list: &mut Vec<OptConfig>, cmd_line_args: &CmdLineArgs) -> (r:
    Result<Vec<CodeChunk>, MatchError>)
    ensures
        result_view(r) == MatchState::start(
            config_views(old(opt_cfg_list)@),
            cmd_line_args@.script_args,
            cmd_line_args@.posix,
        ).run(rules_of(cmd_line_args@)).result,
        config_views(final(opt_cfg_list)@) == MatchState::start(
            config_views(old(opt_cfg_list)@),
            cmd_line_args@.script_args,
            cmd_line_args@.posix,
        ).run(rules_of(cmd_line_args@)).specs,
        same_definitions(config_views(old(opt_cfg_list)@), config_views(final(opt_cfg_list)@)),
        cmd_line_args@.remainder is None ==> array_free(end_code_of(r)),
{
    proof {
        let start = MatchState::start(
            config_views(opt_cfg_list@),
            cmd_line_args@.script_args,
            cmd_line_args@.posix,
        );
        lemma_matching_keeps_definitions(start, rules_of(cmd_line_args@));
        if cmd_line_args@.remainder is None {
            assert(array_free(start.code));
            lemma_arrays_only_for_remainder(start, rules_of(cmd_line_args@));
        }
    }
    match_arguments(opt_cfg_list, cmd_line_args)
}

/// Takes the elements of the command line one by one until one of them
/// ends matching or none is left.
fn match_arguments(opt_cfg_list: &mut Vec<OptConfig>, cmd_line_args: &CmdLineArgs) -> (r: Result<
    Vec<CodeChunk>,
    MatchError,
>)
    ensures
        result_view(r) == MatchState::start(
            config_views(old(opt_cfg_list)@),
            cmd_line_args@.script_args,
            cmd_line_args@.posix,
        ).run(rules_of(cmd_line_args@)).result,
        config_views(final(opt_cfg_list)@) == MatchState::start(
            config_views(old(opt_cfg_list)@),
            cmd_line_args@.script_args,
            cmd_line_args@.posix,
        ).run(rules_of(cmd_line_args@)).specs,
{
    let ghost rules = rules_of(cmd_line_args@);
    let ghost start = MatchState::start(
        config_views(opt_cfg_list@),
        cmd_line_args@.script_args,
        cmd_line_args@.posix,
    );
    let mut shell_code: Vec<CodeChunk> = Vec::new();
    let mut arguments: Vec<String> = Vec::new();
    let mut tokenizer = CmdLineTokenizer::new(
        copy_strings(&cmd_line_args.script_args),
        cmd_line_args.posix,
    );
    let mut after_separator = false;
    assert(chunk_views(shell_code@) =~= Seq::empty());
    assert(views_of(arguments@) =~= Seq::empty());
    loop
        invariant
            rules == rules_of(cmd_line_args@),
            start == MatchState::start(
                config_views(old(opt_cfg_list)@),
                cmd_line_args@.script_args,
                cmd_line_args@.posix,
            ),
            start.run(rules) == (MatchState {
                specs: config_views(opt_cfg_list@),
                tokens: tokenizer@,
                code: chunk_views(shell_code@),
                arguments: views_of(arguments@),
                after_separator,
            }).run(rules),
        decreases tokenizer@.remaining().0, tokenizer@.remaining().1,
    {
        let ghost now = MatchState {
            specs: config_views(opt_cfg_list@),
            tokens: tokenizer@,
            code: chunk_views(shell_code@),
            arguments: views_of(arguments@),
            after_separator,
        };
        match tokenizer.next() {
            None => {
                assert(now.run(rules) == now.finish());
                match check_end(opt_cfg_list) {
                    Some(message) => {
                        return Err(MatchError { message, code: shell_code });
                    },
                    None => {
                        shell_code.push(CodeChunk::SetArgs(arguments));
                        assert(chunk_views(shell_code@) =~= now.code.push(
                            CodeChunkView::SetArgs(now.arguments),
                        ));
                        return Ok(shell_code);
                    },
                }
            },
            Some(el) => {
                let ghost read = MatchState { tokens: tokenizer@, ..now };
                assert(now.tokens.next() == (Some(el@), read.tokens));
                assert(now.run(rules) == match read.step(rules, el@) {
                    Step::Halt(end) => end,
                    Step::Continue(next) => next.run(rules),
                });
                match el {
                    CmdLineElement::Separator => {
                        after_separator = true;
                    },
                    CmdLineElement::Argument(value) => {
                        handle_argument(
                            cmd_line_args,
                            &mut shell_code,
                            &mut arguments,
                            &mut after_separator,
                            value,
                            Ghost(read),
                        );
                    },
                    _ => {
                        match handle_option(
                            opt_cfg_list,
                            &mut tokenizer,
                            &mut shell_code,
                            &el,
                            Ghost(read),
                        ) {
                            Flow::Continue => {},
                            Flow::Exit => {
                                return Ok(shell_code);
                            },
                            Flow::Fail(message) => {
                                return Err(MatchError { message, code: shell_code });
                            },
                        }
                    },
                }
            },
        }
    }
}

/// The code that matching ends with: that of the whole command line, or
/// what had been collected when the user's mistake was found.
pub open spec fn end_code(end: MatchEnd) -> Seq<CodeChunkView> {
    match end.result {
        Ok(code) => code,
        Err(e) => e.code,
    }
}

/// Matching writes code that needs arrays only for a remainder array:
/// without one, code that is free of arrays stays so to the end.
pub proof fn lemma_arrays_only_for_remainder(st: MatchState, rules: MatchRules)
    requires
        rules.remainder is None,
        array_free(st.code),
    ensures
        array_free(end_code(st.run(rules))),
    decreases st.tokens.remaining().0, st.tokens.remaining().1,
{
    match st.tokens.next() {
        (None, _) => {},
        (Some(el), tokens) => {
            let read = MatchState { tokens, ..st };
            match read.step(rules, el) {
                Step::Halt(end) => {},
                Step::Continue(next) => {
                    lemma_arrays_only_for_remainder(next, rules);
                },
            }
        },
    }
}

/// Whether two options differ at most in what was seen of them while
/// arguments were matched.
pub open spec fn same_definition(a: OptConfigView, b: OptConfigView) -> bool {
    a == (OptConfigView { assigned: a.assigned, count_value: a.count_value, ..b })
}

/// Whether `after` holds the options of `before`, each with its
/// definition unchanged, and every option that was given still given.
pub open spec fn same_definitions(before: Seq<OptConfigView>, after: Seq<OptConfigView>) -> bool {
    &&& after.len() == before.len()
    &&& forall|i: int|
        0 <= i < before.len() ==> same_definition(#[trigger] after[i], before[i]) && (
        before[i].assigned ==> after[i].assigned)
}

proof fn lemma_step_keeps_definitions(st: MatchState, rules: MatchRules, el: CmdLineElementView)
    ensures
        match st.step(rules, el) {
            Step::Halt(end) => same_definitions(st.specs, end.specs),
            Step::Continue(next) => same_definitions(st.specs, next.specs),
        },
{
    lemma_first_match_in_range(st.specs, el);
}

/// The first option that an element names lies within the options or
/// right behind them.
pub proof fn lemma_first_match_in_range(specs: Seq<OptConfigView>, el: CmdLineElementView)
    ensures
        0 <= first_match(specs, el) <= specs.len(),
        first_match(specs, el) < specs.len() ==> specs[first_match(specs, el)].matches(el),
    decreases specs.len(),
{
    if specs.len() > 0 && !specs[0].matches(el) {
        lemma_first_match_in_range(specs.drop_first(), el);
    }
}

/// Matching changes of an option only what was seen of it: no option is
/// added, dropped or redefined, and an option that was given stays given.
pub proof fn lemma_matching_keeps_definitions(st: MatchState, rules: MatchRules)
    ensures
        same_definitions(st.specs, st.run(rules).specs),
    decreases st.tokens.remaining().0, st.tokens.remaining().1,
{
    match st.tokens.next() {
        (None, _) => {},
        (Some(el), tokens) => {
            let read = MatchState { tokens, ..st };
            lemma_step_keeps_definitions(read, rules, el);
            match read.step(rules, el) {
                Step::Halt(end) => {},
                Step::Continue(next) => {
                    lemma_matching_keeps_definitions(next, rules);
                    let end = next.run(rules);
                    assert forall|i: int| 0 <= i < st.specs.len() implies same_definition(
                        #[trigger] end.specs[i],
                        st.specs[i],
                    ) && (st.specs[i].assigned ==> end.specs[i].assigned) by {
                        assert(same_definition(next.specs[i], st.specs[i]));
                    }
                },
            }
        },
    }
}

} // verus!
