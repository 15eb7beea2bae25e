//! Option definitions: what an option is, and the parser for the
//! definition language.

use vstd::prelude::*;
use crate::arg_parser::{CmdLineElement, CmdLineElementView};
use crate::text::{chars_of, has_char, has_string, is_ascii, is_ascii_char, is_ascii_control,
    is_ascii_control_char, is_ascii_space, is_ascii_whitespace, is_letter, is_letter_char,
    is_letter_or_digit, is_letter_or_digit_char, is_space, is_space_char, join, joined,
    push_char, space_run, spaces, views_of};

verus! {

/// What an option acts on: a shell variable that is assigned, or a shell
/// function that is called.
#[derive(Debug, PartialEq, Eq)]
pub enum OptTarget {
    Variable(String),
    Function(String),
}

/// The mathematical content of an `OptTarget`.
pub enum OptTargetView {
    Variable(Seq<char>),
    Function(Seq<char>),
}

impl View for OptTarget {
    type V = OptTargetView;

    open spec fn view(&self) -> OptTargetView {
        match self {
            OptTarget::Variable(name) => OptTargetView::Variable(name@),
            OptTarget::Function(name) => OptTargetView::Function(name@),
        }
    }
}

impl OptTargetView {
    /// The name of the variable or function.
    pub open spec fn name(self) -> Seq<char> {
        match self {
            OptTargetView::Variable(name) => name,
            OptTargetView::Function(name) => name,
        }
    }
}

/// The attribute before the target of an option: `*` or `?`.
#[derive(Debug, PartialEq, Eq, Clone, Copy)]
pub enum OptAttribute {
    Required,
    Singleton,
}

/// The kind of an option.
#[derive(Debug, PartialEq, Eq)]
pub enum OptType {
    /// Sets the target to true.
    Flag(OptTarget),
    /// Sets the target to a fixed value. Several mode switches share one
    /// target, each with a value of its own.
    ModeSwitch(OptTarget, String),
    /// Takes an argument, like `-o outfile`.
    Assignment(OptTarget),
    /// Counts how often it occurs, like `-v`, `-vvv`.
    Counter(OptTarget),
}

/// The mathematical content of an `OptType`.
pub enum OptTypeView {
    Flag(OptTargetView),
    ModeSwitch(OptTargetView, Seq<char>),
    Assignment(OptTargetView),
    Counter(OptTargetView),
}

impl View for OptType {
    type V = OptTypeView;

    open spec fn view(&self) -> OptTypeView {
        match self {
            OptType::Flag(target) => OptTypeView::Flag(target@),
            OptType::ModeSwitch(target, value) => OptTypeView::ModeSwitch(target@, value@),
            OptType::Assignment(target) => OptTypeView::Assignment(target@),
            OptType::Counter(target) => OptTypeView::Counter(target@),
        }
    }
}

impl OptTypeView {
    /// The target of the option.
    pub open spec fn target(self) -> OptTargetView {
        match self {
            OptTypeView::Flag(target) => target,
            OptTypeView::ModeSwitch(target, _) => target,
            OptTypeView::Assignment(target) => target,
            OptTypeView::Counter(target) => target,
        }
    }
}

/// One supported option.
#[derive(Debug, PartialEq, Eq)]
pub struct OptConfig {
    /// Every character of this string is a short option.
    pub opt_chars: String,
    /// Every string of this vector is a long option.
    pub opt_strings: Vec<String>,
    /// The kind of the option, with its target.
    pub opt_type: OptType,
    /// Whether the option must be given.
    pub required: bool,
    /// Whether the option is a singleton: where one is found, only its own
    /// action is carried out, as for `--help`.
    pub singleton: bool,
    /// While arguments are matched: whether the option was given.
    pub assigned: bool,
    /// While arguments are matched: the count of a counting option.
    pub count_value: u16,
}

/// The mathematical content of an `OptConfig`.
pub struct OptConfigView {
    pub opt_chars: Seq<char>,
    pub opt_strings: Seq<Seq<char>>,
    pub opt_type: OptTypeView,
    pub required: bool,
    pub singleton: bool,
    pub assigned: bool,
    pub count_value: nat,
}

impl View for OptConfig {
    type V = OptConfigView;

    open spec fn view(&self) -> OptConfigView {
        OptConfigView {
            opt_chars: self.opt_chars@,
            opt_strings: views_of(self.opt_strings@),
            opt_type: self.opt_type@,
            required: self.required,
            singleton: self.singleton,
            assigned: self.assigned,
            count_value: self.count_value as nat,
        }
    }
}

/// The views of a sequence of options.
pub open spec fn config_views(list: Seq<OptConfig>) -> Seq<OptConfigView> {
    list.map_values(|c: OptConfig| c@)
}

/// Each character as a short option with its dash.
pub open spec fn short_texts(chars: Seq<char>) -> Seq<Seq<char>> {
    chars.map_values(|c: char| seq!['-', c])
}

/// Each name as a long option with its dashes.
pub open spec fn long_texts(names: Seq<Seq<char>>) -> Seq<Seq<char>> {
    names.map_values(|s: Seq<char>| seq!['-', '-'] + s)
}

impl OptConfigView {
    /// Whether the element names this option.
    pub open spec fn matches(self, el: CmdLineElementView) -> bool {
        match el {
            CmdLineElementView::ShortOption(c) => self.opt_chars.contains(c),
            CmdLineElementView::LongOption(name) => self.opt_strings.contains(name),
            CmdLineElementView::LongOptionValue(name, _) => self.opt_strings.contains(name),
            _ => false,
        }
    }

    /// The target of the option.
    pub open spec fn target(self) -> OptTargetView {
        self.opt_type.target()
    }

    /// The name of the target of the option.
    pub open spec fn target_name(self) -> Seq<char> {
        self.target().name()
    }

    /// Whether the target is a shell function.
    pub open spec fn is_target_function(self) -> bool {
        self.target() is Function
    }

    /// Whether the option may be given more than once: a counter may, and
    /// so may every option that calls a function.
    pub open spec fn is_duplicate_allowed(self) -> bool {
        self.opt_type is Counter || self.is_target_function()
    }

    /// All spellings of the option, short ones first, with `/` between
    /// them: `-l/--long`.
    pub open spec fn options_text(self) -> Seq<char> {
        joined(short_texts(self.opt_chars) + long_texts(self.opt_strings), seq!['/'])
    }

    /// The option as it was before any argument was matched.
    pub open spec fn is_fresh(self) -> bool {
        !self.assigned && self.count_value == 0
    }
}

impl OptConfig {
    /// Whether the given command line element names this option.
    pub fn match_option(&self, el: &CmdLineElement) -> (r: bool)
        ensures
            r == self@.matches(el@),
    {
        match el {
            CmdLineElement::ShortOption(c) => has_char(self.opt_chars.as_str(), *c),
            CmdLineElement::LongOption(s) => has_string(&self.opt_strings, s.as_str()),
            CmdLineElement::LongOptionValue(s, _) => has_string(&self.opt_strings, s.as_str()),
            _ => false,
        }
    }

    /// Whether the option may be given more than once.
    pub fn is_duplicate_allowed(&self) -> (r: bool)
        ensures
            r == self@.is_duplicate_allowed(),
    {
        match &self.opt_type {
            OptType::Counter(_) => true,
            _ => self.is_target_function(),
        }
    }

    /// The name of the variable or function that the option acts on.
    pub fn get_target_name(&self) -> (name: String)
        ensures
            name@ == self@.target_name(),
    {
        match self.get_target() {
            OptTarget::Variable(name) => name.clone(),
            OptTarget::Function(name) => name.clone(),
        }
    }

    /// The target of the option.
    pub fn get_target(&self) -> (target: &OptTarget)
        ensures
            target@ == self@.target(),
    {
        match &self.opt_type {
            OptType::Flag(ot) => ot,
            OptType::Assignment(ot) => ot,
            OptType::Counter(ot) => ot,
            OptType::ModeSwitch(ot, _) => ot,
        }
    }

    /// Whether the target of the option is a function.
    pub fn is_target_function(&self) -> (r: bool)
        ensures
            r == self@.is_target_function(),
    {
        match self.get_target() {
            OptTarget::Function(_) => true,
            OptTarget::Variable(_) => false,
        }
    }

    /// Whether the target of the option is a variable.
    pub fn is_target_variable(&self) -> (r: bool)
        ensures
            r == !self@.is_target_function(),
    {
        !self.is_target_function()
    }

    /// The option as it is shown to a user, most likely in an error
    /// message: `-l/--long` for the short option `l` and the long option
    /// `long`.
    pub fn options_string(&self) -> (text: String)
        ensures
            text@ == self@.options_text(),
    {
        let mut items: Vec<String> = Vec::new();
        let chars = chars_of(self.opt_chars.as_str());
        let mut i: usize = 0;
        while i < chars.len()
            invariant
                i <= chars.len(),
                chars@ == self.opt_chars@,
                views_of(items@) == short_texts(chars@.take(i as int)),
            decreases chars.len() - i,
        {
            let mut item = String::new();
            push_char(&mut item, '-');
            push_char(&mut item, chars[i]);
            assert(item@ == seq!['-', chars@[i as int]]);
            let ghost before = views_of(items@);
            items.push(item);
            assert(views_of(items@) =~= before.push(item@));
            assert(short_texts(chars@.take(i + 1)) =~= short_texts(chars@.take(i as int)).push(
                seq!['-', chars@[i as int]],
            ));
            i += 1;
        }
        assert(chars@.take(i as int) == chars@);
        let mut k: usize = 0;
        while k < self.opt_strings.len()
            invariant
                k <= self.opt_strings.len(),
                views_of(items@) == short_texts(self.opt_chars@) + long_texts(
                    views_of(self.opt_strings@).take(k as int),
                ),
            decreases self.opt_strings.len() - k,
        {
            let mut item = String::new();
            push_char(&mut item, '-');
            push_char(&mut item, '-');
            assert(item@ == seq!['-', '-']);
            item.append(self.opt_strings[k].as_str());
            let ghost before = views_of(items@);
            items.push(item);
            assert(views_of(items@) =~= before.push(item@));
            assert(long_texts(views_of(self.opt_strings@).take(k + 1)) =~= long_texts(
                views_of(self.opt_strings@).take(k as int),
            ).push(seq!['-', '-'] + self.opt_strings@[k as int]@));
            k += 1;
        }
        assert(views_of(self.opt_strings@).take(k as int) == views_of(self.opt_strings@));
        let text = join(&items, "/");
        proof {
            reveal_strlit("/");
            assert("/"@ =~= seq!['/']);
        }
        text
    }
}

/// The settings of the parser for option definitions.
#[derive(Debug, Clone, Copy, PartialEq, Eq)]
pub struct ParserConfig {
    /// Whether characters outside ASCII may be option characters.
    pub allow_utf8_options: bool,
}

/// The text that the parser reads, with the position it has reached and
/// the positions it may go back to.
pub struct ParserSource {
    /// The characters to parse.
    chars: Vec<char>,
    /// The index of the next character to read.
    index: usize,
    /// The positions that were pushed and not yet popped or dropped.
    position_stack: Vec<usize>,
    /// The settings of the parser.
    config: ParserConfig,
}

/// The mathematical content of a `ParserSource`.
pub struct ParserSourceView {
    pub chars: Seq<char>,
    pub index: nat,
    pub stack: Seq<nat>,
    pub allow_utf8: bool,
}

impl ParserSourceView {
    /// The character at the current position, if there is one.
    pub open spec fn peek(self) -> Option<char> {
        if self.index < self.chars.len() {
            Some(self.chars[self.index as int])
        } else {
            None
        }
    }

    /// The source one character further on, or as it is at the end.
    pub open spec fn advanced(self) -> ParserSourceView {
        if self.index < self.chars.len() {
            ParserSourceView { index: self.index + 1, ..self }
        } else {
            self
        }
    }

    /// The same source at another position.
    pub open spec fn at(self, index: nat) -> ParserSourceView {
        ParserSourceView { index, ..self }
    }
}

impl View for ParserSource {
    type V = ParserSourceView;

    closed spec fn view(&self) -> ParserSourceView {
        ParserSourceView {
            chars: self.chars@,
            index: self.index as nat,
            stack: self.position_stack@.map_values(|i: usize| i as nat),
            allow_utf8: self.config.allow_utf8_options,
        }
    }
}

impl ParserSource {
    /// A source at the start of `string`. Only ASCII characters are taken
    /// as option characters: others are likely not to be portable.
    pub fn new(string: &str) -> (ps: ParserSource)
        ensures
            ps@ == (ParserSourceView {
                chars: string@,
                index: 0,
                stack: Seq::empty(),
                allow_utf8: false,
            }),
    {
        ParserSource::with_config(string, ParserConfig { allow_utf8_options: false })
    }

    /// A source at the start of `string`, with the given settings.
    pub fn with_config(string: &str, config: ParserConfig) -> (ps: ParserSource)
        ensures
            ps@ == (ParserSourceView {
                chars: string@,
                index: 0,
                stack: Seq::empty(),
                allow_utf8: config.allow_utf8_options,
            }),
    {
        let ps = ParserSource {
            chars: chars_of(string),
            index: 0,
            position_stack: Vec::new(),
            config,
        };
        assert(ps@.stack =~= Seq::empty());
        ps
    }

    /// The index of the next character to read.
    pub fn position(&self) -> (index: usize)
        ensures
            index == self@.index,
    {
        self.index
    }

    /// Reads the next character.
    pub fn next(&mut self) -> (c: Option<char>)
        ensures
            c == old(self)@.peek(),
            final(self)@ == old(self)@.advanced(),
    {
        if self.index < self.chars.len() {
            let res = Some(self.chars[self.index]);
            self.index += 1;
            res
        } else {
            None
        }
    }

    /// Reads the next character if the predicate holds of it.
    pub fn next_if<P: FnOnce(char) -> bool>(&mut self, predicate: P) -> (c: Option<char>)
        requires
            forall|c: char| call_requires(predicate, (c,)),
        ensures
            match c {
                Some(c) => old(self)@.peek() == Some(c) && call_ensures(predicate, (c,), true)
                    && final(self)@ == old(self)@.advanced(),
                None => final(self)@ == old(self)@ && match old(self)@.peek() {
                    Some(c) => call_ensures(predicate, (c,), false),
                    None => true,
                },
            },
    {
        match self.peek() {
            Some(c) => {
                if predicate(c) {
                    self.next()
                } else {
                    None
                }
            },
            None => None,
        }
    }

    /// Reads the next character if it is `expected`.
    fn next_if_char(&mut self, expected: char) -> (found: bool)
        ensures
            found == (old(self)@.peek() == Some(expected)),
            final(self)@ == if found {
                old(self)@.advanced()
            } else {
                old(self)@
            },
    {
        if self.index < self.chars.len() && self.chars[self.index] == expected {
            self.index += 1;
            true
        } else {
            false
        }
    }

    /// The next character, which stays unread.
    pub fn peek(&self) -> (c: Option<char>)
        ensures
            c == self@.peek(),
    {
        if self.index < self.chars.len() {
            Some(self.chars[self.index])
        } else {
            None
        }
    }

    /// Steps back one character, unless the source is at its start.
    pub fn back(&mut self)
        ensures
            final(self)@ == old(self)@.at(
                if old(self)@.index > 0 {
                    (old(self)@.index - 1) as nat
                } else {
                    0
                },
            ),
    {
        if self.index > 0 {
            self.index -= 1;
        }
    }

    /// Pushes the current position on the position stack.
    pub fn push_pos(&mut self)
        ensures
            final(self)@ == (ParserSourceView {
                stack: old(self)@.stack.push(old(self)@.index),
                ..old(self)@
            }),
    {
        self.position_stack.push(self.index);
        assert(self@.stack =~= old(self)@.stack.push(old(self)@.index));
    }

    /// Pops the top of the position stack and goes to that position.
    pub fn pop_pos(&mut self)
        requires
            old(self)@.stack.len() > 0,
        ensures
            final(self)@ == (ParserSourceView {
                stack: old(self)@.stack.drop_last(),
                index: old(self)@.stack.last(),
                ..old(self)@
            }),
    {
        let idx = self.position_stack.pop().unwrap();
        self.index = idx;
        assert(self@.stack =~= old(self)@.stack.drop_last());
    }

    /// Goes to the position on top of the position stack, which stays
    /// there.
    pub fn reset_pos(&mut self)
        requires
            old(self)@.stack.len() > 0,
        ensures
            final(self)@ == old(self)@.at(old(self)@.stack.last()),
    {
        let top = self.position_stack.len() - 1;
        self.index = self.position_stack[top];
    }

    /// Drops the top of the position stack.
    pub fn drop_pos(&mut self)
        requires
            old(self)@.stack.len() > 0,
        ensures
            final(self)@ == (ParserSourceView {
                stack: old(self)@.stack.drop_last(),
                ..old(self)@
            }),
    {
        let _ = self.position_stack.pop().unwrap();
        assert(self@.stack =~= old(self)@.stack.drop_last());
    }

    /// Goes back to the start and forgets all pushed positions.
    pub fn reset(&mut self)
        ensures
            final(self)@ == (ParserSourceView {
                stack: Seq::empty(),
                index: 0,
                ..old(self)@
            }),
    {
        self.index = 0;
        self.position_stack.clear();
        assert(self@.stack =~= Seq::empty());
    }
}

/// Why the parser gave up.
#[derive(Debug, PartialEq, Eq)]
pub enum ParsingError {
    /// Nothing of what was looked for stands at the position.
    Empty,
    /// The text is wrong, with the message that says how.
    Error(String),
}

/// The mathematical content of a `ParsingError`.
pub enum ParsingErrorView {
    Empty,
    Error(Seq<char>),
}

impl View for ParsingError {
    type V = ParsingErrorView;

    open spec fn view(&self) -> ParsingErrorView {
        match self {
            ParsingError::Empty => ParsingErrorView::Empty,
            ParsingError::Error(message) => ParsingErrorView::Error(message@),
        }
    }
}

/// The character at `pos`, if the text reaches that far.
pub open spec fn char_at(chars: Seq<char>, pos: nat) -> Option<char> {
    if pos < chars.len() {
        Some(chars[pos as int])
    } else {
        None
    }
}

/// Whether `c` may stand in an option. White space and control characters
/// may not, nor may a dash at the start of an option. Characters outside
/// ASCII may only where the settings allow them.
pub open spec fn is_option_char(c: char, first: bool, allow_utf8: bool) -> bool {
    &&& first ==> c != '-'
    &&& !is_ascii_control_char(c)
    &&& if allow_utf8 {
        !is_space_char(c)
    } else {
        is_ascii_char(c) && !is_ascii_space(c)
    }
}

/// Whether `c` has a meaning of its own in a definition, so that it stands
/// in an option only behind a backslash.
pub open spec fn is_reserved_char(c: char) -> bool {
    c == ':' || c == '#' || c == '=' || c == '+' || c == '%'
}

/// The option character at `pos` and the position behind it.
///
/// A backslash lets the character behind it stand for itself, where that
/// one may stand in an option at all; where it may not, only the backslash
/// is passed over and no character is found. A backslash at the very end
/// stands for itself. Without a backslash a character is found where it
/// may stand in an option and is not reserved; else the position stays.
pub open spec fn option_char_at(chars: Seq<char>, utf8: bool, pos: nat, first: bool) -> (
    Option<char>,
    nat,
) {
    if pos >= chars.len() {
        (None, pos)
    } else if chars[pos as int] == '\\' {
        if pos + 1 >= chars.len() {
            (Some('\\'), pos + 1)
        } else if is_option_char(chars[pos as int + 1], first, utf8) {
            (Some(chars[pos as int + 1]), pos + 2)
        } else {
            (None, pos + 1)
        }
    } else if is_option_char(chars[pos as int], first, utf8) && !is_reserved_char(
        chars[pos as int],
    ) {
        (Some(chars[pos as int]), pos + 1)
    } else {
        (None, pos)
    }
}

/// The option characters from `pos` on, up to the first place where none
/// is found or an escaped `=` is met; the position reached; and whether it
/// was an `=` that ended them.
pub open spec fn option_tail_at(chars: Seq<char>, utf8: bool, pos: nat) -> (Seq<char>, nat, bool)
    decreases chars.len() - pos,
{
    match option_char_at(chars, utf8, pos, false) {
        (None, end) => (Seq::empty(), end, false),
        (Some(c), end) => if c == '=' {
            (Seq::empty(), end, true)
        } else {
            let (rest, last, equals) = option_tail_at(chars, utf8, end);
            (seq![c] + rest, last, equals)
        },
    }
}

/// The option at `pos` with the position behind it, or why there is none
/// and the position that was reached.
///
/// An option is one option character or more. An `=` may not stand in an
/// option of several characters, even behind a backslash.
pub open spec fn option_at(chars: Seq<char>, utf8: bool, pos: nat) -> Result<
    (Seq<char>, nat),
    (ParsingErrorView, nat),
> {
    match option_char_at(chars, utf8, pos, true) {
        (None, end) => Err((ParsingErrorView::Empty, end)),
        (Some(c), after) => {
            let (rest, end, equals) = option_tail_at(chars, utf8, after);
            if equals {
                Err((ParsingErrorView::Error("'=' not allowed here"@), end))
            } else if rest.len() > 0 && c == '=' {
                Err((ParsingErrorView::Error("'=' not allowed here"@), pos))
            } else {
                Ok((seq![c] + rest, end))
            }
        },
    }
}

/// Whether `c` may stand in a name behind its first character.
pub open spec fn is_name_char(c: char) -> bool {
    is_letter_or_digit_char(c) || c == '_'
}

/// The characters of a name from `pos` on, and the position behind them.
pub open spec fn name_tail_at(chars: Seq<char>, pos: nat) -> (Seq<char>, nat)
    decreases chars.len() - pos,
{
    if pos < chars.len() && is_name_char(chars[pos as int]) {
        let (rest, end) = name_tail_at(chars, pos + 1);
        (seq![chars[pos as int]] + rest, end)
    } else {
        (Seq::empty(), pos)
    }
}

/// The name at `pos` with the position behind it, if one stands there: a
/// letter, then letters, digits and underscores.
pub open spec fn name_at(chars: Seq<char>, pos: nat) -> Option<(Seq<char>, nat)> {
    if pos < chars.len() && is_letter_char(chars[pos as int]) {
        let (rest, end) = name_tail_at(chars, pos + 1);
        Some((seq![chars[pos as int]] + rest, end))
    } else {
        None
    }
}

/// The attribute at `pos`, if one stands there, and the position behind
/// it: `*` for a required option, `?` for a singleton.
pub open spec fn attribute_at(chars: Seq<char>, pos: nat) -> (Option<OptAttribute>, nat) {
    if char_at(chars, pos) == Some('*') {
        (Some(OptAttribute::Required), pos + 1)
    } else if char_at(chars, pos) == Some('?') {
        (Some(OptAttribute::Singleton), pos + 1)
    } else {
        (None, pos)
    }
}

/// What is said where something is missing: that it was expected, and
/// behind what, unless the position is the very start.
pub open spec fn expected(what: Seq<char>, pos: nat) -> Seq<char> {
    if pos > 0 {
        what + " after this"@
    } else {
        what
    }
}

/// The target at `pos`, with the attribute before it and the position
/// behind it: an attribute or none, a name, and `()` where the name is
/// that of a function.
pub open spec fn target_at(chars: Seq<char>, pos: nat) -> Result<
    (OptTargetView, Option<OptAttribute>, nat),
    (ParsingErrorView, nat),
> {
    let (attribute, named) = attribute_at(chars, pos);
    match name_at(chars, named) {
        None => Err((ParsingErrorView::Error(expected("name expected"@, named)), named)),
        Some((name, end)) => if char_at(chars, end) == Some('(') && char_at(chars, end + 1) == Some(
            ')',
        ) {
            Ok((OptTargetView::Function(name), attribute, end + 2))
        } else {
            Ok((OptTargetView::Variable(name), attribute, end))
        },
    }
}

/// The kind of a flag or a mode switch at `pos`: `#`, a target, and for a
/// mode switch `=` and its value, which may be empty.
pub open spec fn flag_mode_at(chars: Seq<char>, pos: nat) -> Result<
    (OptTypeView, Option<OptAttribute>, nat),
    (ParsingErrorView, nat),
> {
    if char_at(chars, pos) != Some('#') {
        Err((ParsingErrorView::Empty, pos))
    } else {
        match target_at(chars, pos + 1) {
            Err(e) => Err(e),
            Ok((target, attribute, end)) => if char_at(chars, end) == Some('=') {
                match name_at(chars, end + 1) {
                    Some((value, last)) => Ok(
                        (OptTypeView::ModeSwitch(target, value), attribute, last),
                    ),
                    None => Ok(
                        (OptTypeView::ModeSwitch(target, Seq::empty()), attribute, end + 1),
                    ),
                }
            } else {
                Ok((OptTypeView::Flag(target), attribute, end))
            },
        }
    }
}

/// The kind of an assignment at `pos`: `=` and a target.
pub open spec fn assignment_at(chars: Seq<char>, pos: nat) -> Result<
    (OptTypeView, Option<OptAttribute>, nat),
    (ParsingErrorView, nat),
> {
    if char_at(chars, pos) != Some('=') {
        Err((ParsingErrorView::Empty, pos))
    } else {
        match target_at(chars, pos + 1) {
            Err(e) => Err(e),
            Ok((target, attribute, end)) => Ok((OptTypeView::Assignment(target), attribute, end)),
        }
    }
}

/// The kind of a counter at `pos`: `+` and a target.
pub open spec fn counter_at(chars: Seq<char>, pos: nat) -> Result<
    (OptTypeView, Option<OptAttribute>, nat),
    (ParsingErrorView, nat),
> {
    if char_at(chars, pos) != Some('+') {
        Err((ParsingErrorView::Empty, pos))
    } else {
        match target_at(chars, pos + 1) {
            Err(e) => Err(e),
            Ok((target, attribute, end)) => Ok((OptTypeView::Counter(target), attribute, end)),
        }
    }
}

/// The kind at `pos`, which its first character selects: `#`, `=` or `+`.
pub open spec fn kind_at(chars: Seq<char>, pos: nat) -> Result<
    (OptTypeView, Option<OptAttribute>, nat),
    (ParsingErrorView, nat),
> {
    if char_at(chars, pos) == Some('#') {
        flag_mode_at(chars, pos)
    } else if char_at(chars, pos) == Some('=') {
        assignment_at(chars, pos)
    } else if char_at(chars, pos) == Some('+') {
        counter_at(chars, pos)
    } else {
        Err((ParsingErrorView::Error(expected("Expected #, = or +"@, pos)), pos))
    }
}

proof fn lemma_option_tail_advances(chars: Seq<char>, utf8: bool, pos: nat)
    ensures
        option_tail_at(chars, utf8, pos).1 >= pos,
    decreases chars.len() - pos,
{
    match option_char_at(chars, utf8, pos, false) {
        (None, end) => {},
        (Some(c), end) => {
            if c != '=' {
                lemma_option_tail_advances(chars, utf8, end);
            }
        },
    }
}

/// An option takes up at least one character, and a failed attempt never
/// moves backwards.
pub proof fn lemma_option_advances(chars: Seq<char>, utf8: bool, pos: nat)
    ensures
        match option_at(chars, utf8, pos) {
            Ok((option, end)) => end > pos && option.len() >= 1,
            Err((_, end)) => end >= pos,
        },
{
    match option_char_at(chars, utf8, pos, true) {
        (None, end) => {},
        (Some(c), after) => {
            lemma_option_tail_advances(chars, utf8, after);
        },
    }
}

proof fn lemma_name_tail_advances(chars: Seq<char>, pos: nat)
    ensures
        name_tail_at(chars, pos).1 >= pos,
    decreases chars.len() - pos,
{
    if pos < chars.len() && is_name_char(chars[pos as int]) {
        lemma_name_tail_advances(chars, pos + 1);
    }
}

proof fn lemma_name_advances(chars: Seq<char>, pos: nat)
    ensures
        match name_at(chars, pos) {
            Some((_, end)) => end > pos,
            None => true,
        },
{
    lemma_name_tail_advances(chars, pos + 1);
}

proof fn lemma_target_advances(chars: Seq<char>, pos: nat)
    ensures
        match target_at(chars, pos) {
            Ok((_, _, end)) => end > pos,
            Err((_, end)) => end >= pos,
        },
{
    let (attribute, named) = attribute_at(chars, pos);
    lemma_name_advances(chars, named);
}

proof fn lemma_kind_advances(chars: Seq<char>, pos: nat)
    ensures
        match kind_at(chars, pos) {
            Ok((_, _, end)) => end > pos,
            Err((_, end)) => end >= pos,
        },
{
    lemma_target_advances(chars, pos + 1);
    match target_at(chars, pos + 1) {
        Ok((_, _, end)) => {
            lemma_name_advances(chars, end + 1);
        },
        Err(_) => {},
    }
}

/// The options that stand at `pos` with `:` between them, the short ones
/// as characters and the long ones as names, and the position behind
/// them.
pub open spec fn options_at(chars: Seq<char>, utf8: bool, pos: nat) -> Result<
    (Seq<char>, Seq<Seq<char>>, nat),
    (ParsingErrorView, nat),
>
    decreases chars.len() - pos,
{
    match option_at(chars, utf8, pos) {
        Err((ParsingErrorView::Empty, at)) => Err(
            (ParsingErrorView::Error(expected("option char/string expected"@, at)), at),
        ),
        Err(e) => Err(e),
        Ok((option, end)) => {
            let short = if option.len() == 1 {
                seq![option[0]]
            } else {
                Seq::empty()
            };
            let long = if option.len() == 1 {
                Seq::empty()
            } else {
                seq![option]
            };
            if char_at(chars, end) == Some(':') {
                proof {
                    lemma_option_advances(chars, utf8, pos);
                }
                match options_at(chars, utf8, end + 1) {
                    Err(e) => Err(e),
                    Ok((more_short, more_long, last)) => Ok(
                        (short + more_short, long + more_long, last),
                    ),
                }
            } else {
                Ok((short, long, end))
            }
        },
    }
}

/// The definition at `pos` with the position behind it: its options, then
/// its kind with the target.
pub open spec fn opt_def_at(chars: Seq<char>, utf8: bool, pos: nat) -> Result<
    (OptConfigView, nat),
    (ParsingErrorView, nat),
> {
    match options_at(chars, utf8, pos) {
        Err(e) => Err(e),
        Ok((opt_chars, opt_strings, typed)) => match kind_at(chars, typed) {
            Err(e) => Err(e),
            Ok((opt_type, attribute, end)) => Ok(
                (
                    OptConfigView {
                        opt_chars,
                        opt_strings,
                        opt_type,
                        required: attribute == Some(OptAttribute::Required),
                        singleton: attribute == Some(OptAttribute::Singleton),
                        assigned: false,
                        count_value: 0,
                    },
                    end,
                ),
            ),
        },
    }
}

proof fn lemma_options_advance(chars: Seq<char>, utf8: bool, pos: nat)
    ensures
        match options_at(chars, utf8, pos) {
            Ok((_, _, end)) => end > pos,
            Err((_, end)) => end >= pos,
        },
    decreases chars.len() - pos,
{
    lemma_option_advances(chars, utf8, pos);
    match option_at(chars, utf8, pos) {
        Ok((option, end)) => {
            if char_at(chars, end) == Some(':') {
                lemma_options_advance(chars, utf8, end + 1);
            }
        },
        Err(_) => {},
    }
}

/// A definition takes up at least one character, and a failed attempt
/// never moves backwards.
pub proof fn lemma_opt_def_advances(chars: Seq<char>, utf8: bool, pos: nat)
    ensures
        match opt_def_at(chars, utf8, pos) {
            Ok((_, end)) => end > pos,
            Err((_, end)) => end >= pos,
        },
{
    lemma_options_advance(chars, utf8, pos);
    match options_at(chars, utf8, pos) {
        Ok((_, _, typed)) => {
            lemma_kind_advances(chars, typed);
        },
        Err(_) => {},
    }
}

/// Passing over commas never moves backwards, and ends at a character
/// that is no comma or at the end of the text.
pub proof fn lemma_commas_advance(chars: Seq<char>, pos: nat)
    ensures
        commas_passed(chars, pos) >= pos,
        commas_passed(chars, pos) < chars.len() ==> chars[commas_passed(chars, pos) as int] != ',',
    decreases chars.len() - pos,
{
    if pos < chars.len() && chars[pos as int] == ',' {
        lemma_commas_advance(chars, pos + 1);
    }
}

/// The position of the first character from `pos` on that is no comma.
pub open spec fn commas_passed(chars: Seq<char>, pos: nat) -> nat
    decreases chars.len() - pos,
{
    if pos < chars.len() && chars[pos as int] == ',' {
        commas_passed(chars, pos + 1)
    } else {
        pos
    }
}

/// The definitions from `pos` on, where the first of them starts, to the
/// end of the text, with commas between them. Where several commas follow
/// each other or end the text, nothing stands between them and nothing is
/// missed.
pub open spec fn opt_defs_at(chars: Seq<char>, utf8: bool, pos: nat) -> Result<
    (Seq<OptConfigView>, nat),
    (ParsingErrorView, nat),
>
    decreases chars.len() - pos,
{
    match opt_def_at(chars, utf8, pos) {
        Err(e) => Err(e),
        Ok((def, end)) => {
            let next = commas_passed(chars, end);
            if next >= chars.len() {
                Ok((seq![def], next))
            } else if next == end {
                Err(
                    (
                        ParsingErrorView::Error(
                            "Unexpected character '"@ + seq![chars[end as int]] + "'"@,
                        ),
                        end + 1,
                    ),
                )
            } else {
                proof {
                    lemma_opt_def_advances(chars, utf8, pos);
                    lemma_commas_advance(chars, end);
                }
                match opt_defs_at(chars, utf8, next) {
                    Err(e) => Err(e),
                    Ok((rest, last)) => Ok((seq![def] + rest, last)),
                }
            }
        },
    }
}

/// The definitions from `pos` on to the end of the text, which may be
/// none, with commas before, between and behind them.
pub open spec fn opt_def_list_at(chars: Seq<char>, utf8: bool, pos: nat) -> Result<
    (Seq<OptConfigView>, nat),
    (ParsingErrorView, nat),
> {
    let start = commas_passed(chars, pos);
    if start >= chars.len() {
        Ok((Seq::empty(), start))
    } else {
        opt_defs_at(chars, utf8, start)
    }
}

/// The three lines that show where a definition is wrong: the definition,
/// a caret below the character before `index`, and the message below the
/// caret.
pub open spec fn diagnostic(text: Seq<char>, index: nat, message: Seq<char>) -> Seq<char> {
    let pre = if index > 0 {
        spaces((index - 1) as nat)
    } else {
        Seq::empty()
    };
    text + seq!['\n'] + pre + seq!['^', '\n'] + pre + message
}

/// What a text of definitions stands for: the options it defines, in its
/// order, or the diagnostic for the first place where it is wrong.
pub open spec fn definitions(text: Seq<char>) -> Result<Seq<OptConfigView>, Seq<char>> {
    match opt_def_list_at(text, false, 0) {
        Ok((list, _)) => Ok(list),
        Err((ParsingErrorView::Error(message), index)) => Err(diagnostic(text, index, message)),
        Err((ParsingErrorView::Empty, index)) => Err(diagnostic(text, index, "Can't parse"@)),
    }
}

/// Whether `chr` may stand in an option.
///
/// * `first` - whether it is the first character of the option
/// * `allow_utf8` - whether characters outside ASCII are allowed
pub fn is_valid_opt_char(chr: char, first: bool, allow_utf8: bool) -> (r: bool)
    ensures
        r == is_option_char(chr, first, allow_utf8),
{
    if allow_utf8 {
        if first {
            chr != '-' && !is_space(chr) && !is_ascii_control(chr)
        } else {
            !is_space(chr) && !is_ascii_control(chr)
        }
    } else if first {
        chr != '-' && is_ascii(chr) && !is_ascii_whitespace(chr) && !is_ascii_control(chr)
    } else {
        is_ascii(chr) && !is_ascii_whitespace(chr) && !is_ascii_control(chr)
    }
}

/// Reads the next character of an option, with a backslash before it
/// where it needs one.
pub fn get_option_char(ps: &mut ParserSource, first: bool) -> (c: Option<char>)
    ensures
        c == option_char_at(old(ps)@.chars, old(ps)@.allow_utf8, old(ps)@.index, first).0,
        final(ps)@ == old(ps)@.at(
            option_char_at(old(ps)@.chars, old(ps)@.allow_utf8, old(ps)@.index, first).1,
        ),
{
    match ps.next() {
        Some(c) => {
            if c == '\\' {
                match ps.next() {
                    Some(c2) => {
                        if is_valid_opt_char(c2, first, ps.config.allow_utf8_options) {
                            Some(c2)
                        } else {
                            ps.back();
                            None
                        }
                    },
                    None => Some(c),
                }
            } else if is_valid_opt_char(c, first, ps.config.allow_utf8_options) && !(c == ':'
                || c == '#' || c == '=' || c == '+' || c == '%') {
                Some(c)
            } else {
                ps.back();
                None
            }
        },
        None => None,
    }
}

/// Reads an option: one character for a short option, several for a long
/// one.
pub fn parse_option(ps: &mut ParserSource) -> (r: Result<String, ParsingError>)
    ensures
        match r {
            Ok(option) => option_at(old(ps)@.chars, old(ps)@.allow_utf8, old(ps)@.index) == Ok::<
                (Seq<char>, nat),
                (ParsingErrorView, nat),
            >((option@, final(ps)@.index)),
            Err(e) => option_at(old(ps)@.chars, old(ps)@.allow_utf8, old(ps)@.index) == Err::<
                (Seq<char>, nat),
                (ParsingErrorView, nat),
            >((e@, final(ps)@.index)),
        },
        final(ps)@ == old(ps)@.at(final(ps)@.index),
{
    let ghost s = ps@;
    let ghost chars = s.chars;
    let ghost utf8 = s.allow_utf8;
    let mut option = String::new();
    ps.push_pos();
    let first = match get_option_char(ps, true) {
        Some(c) => c,
        None => {
            ps.drop_pos();
            assert(ps@.stack =~= s.stack);
            return Err(ParsingError::Empty);
        },
    };
    push_char(&mut option, first);
    let ghost after = ps@.index;
    let mut is_long = false;
    let ghost mut rest: Seq<char> = Seq::empty();
    assert(option@ =~= seq![first] + rest);
    loop
        invariant
            s == old(ps)@,
            chars == s.chars,
            utf8 == s.allow_utf8,
            ps@ == (ParserSourceView {
                index: ps@.index,
                stack: s.stack.push(s.index),
                ..s
            }),
            option_char_at(chars, utf8, s.index, true) == (Some(first), after),
            option@ == seq![first] + rest,
            is_long == (rest.len() > 0),
            option_tail_at(chars, utf8, after) == (
                rest + option_tail_at(chars, utf8, ps@.index).0,
                option_tail_at(chars, utf8, ps@.index).1,
                option_tail_at(chars, utf8, ps@.index).2,
            ),
        decreases chars.len() - ps@.index,
    {
        match get_option_char(ps, false) {
            Some(c) => {
                if c == '=' {
                    ps.drop_pos();
                    assert(ps@.stack =~= s.stack);
                    assert(rest + Seq::<char>::empty() =~= rest);
                    return Err(ParsingError::Error(String::from_str("'=' not allowed here")));
                }
                push_char(&mut option, c);
                is_long = true;
                proof {
                    let (more, last, equals) = option_tail_at(chars, utf8, ps@.index);
                    assert(rest + (seq![c] + more) =~= rest.push(c) + more);
                    rest = rest.push(c);
                    assert(option@ =~= seq![first] + rest);
                }
            },
            None => {
                assert(rest + Seq::<char>::empty() =~= rest);
                if is_long && first == '=' {
                    ps.reset_pos();
                    ps.drop_pos();
                    assert(ps@.stack =~= s.stack);
                    return Err(ParsingError::Error(String::from_str("'=' not allowed here")));
                }
                ps.drop_pos();
                assert(ps@.stack =~= s.stack);
                return Ok(option);
            },
        }
    }
}

/// Reads a name: what a shell variable or function may be called.
pub fn parse_name(ps: &mut ParserSource) -> (r: Result<String, ParsingError>)
    ensures
        match r {
            Ok(name) => name_at(old(ps)@.chars, old(ps)@.index) == Some((name@, final(ps)@.index)),
            Err(e) => e@ == ParsingErrorView::Empty && name_at(
                old(ps)@.chars,
                old(ps)@.index,
            ) is None && final(ps)@.index == old(ps)@.index,
        },
        final(ps)@ == old(ps)@.at(final(ps)@.index),
{
    let ghost s = ps@;
    let ghost chars = s.chars;
    let mut name = String::new();
    match ps.peek() {
        Some(c) => {
            if is_letter(c) {
                let _ = ps.next();
                push_char(&mut name, c);
            } else {
                return Err(ParsingError::Empty);
            }
        },
        None => {
            return Err(ParsingError::Empty);
        },
    }
    let ghost first = chars[s.index as int];
    let ghost mut rest: Seq<char> = Seq::empty();
    assert(name@ =~= seq![first] + rest);
    loop
        invariant
            s == old(ps)@,
            chars == s.chars,
            ps@ == s.at(ps@.index),
            s.index < chars.len(),
            ps@.index <= chars.len(),
            first == chars[s.index as int],
            is_letter_char(first),
            name@ == seq![first] + rest,
            name_tail_at(chars, s.index + 1) == (
                rest + name_tail_at(chars, ps@.index).0,
                name_tail_at(chars, ps@.index).1,
            ),
        decreases chars.len() - ps@.index,
    {
        match ps.peek() {
            Some(c) => {
                if is_letter_or_digit(c) || c == '_' {
                    proof {
                        let (more, last) = name_tail_at(chars, ps@.index + 1);
                        assert(rest + (seq![c] + more) =~= rest.push(c) + more);
                        rest = rest.push(c);
                    }
                    let _ = ps.next();
                    push_char(&mut name, c);
                    assert(name@ =~= seq![first] + rest);
                } else {
                    assert(rest + Seq::<char>::empty() =~= rest);
                    return Ok(name);
                }
            },
            None => {
                assert(rest + Seq::<char>::empty() =~= rest);
                return Ok(name);
            },
        }
    }
}

/// Reads a value. A value is written as a name is.
pub fn parse_value(ps: &mut ParserSource) -> (r: Result<String, ParsingError>)
    ensures
        match r {
            Ok(name) => name_at(old(ps)@.chars, old(ps)@.index) == Some((name@, final(ps)@.index)),
            Err(e) => e@ == ParsingErrorView::Empty && name_at(
                old(ps)@.chars,
                old(ps)@.index,
            ) is None && final(ps)@.index == old(ps)@.index,
        },
        final(ps)@ == old(ps)@.at(final(ps)@.index),
{
    parse_name(ps)
}

/// Reads the attribute of an option, if one stands there: `*` for a
/// required option, `?` for a singleton.
pub fn parse_option_attribute(ps: &mut ParserSource) -> (attribute: Option<OptAttribute>)
    ensures
        attribute == attribute_at(old(ps)@.chars, old(ps)@.index).0,
        final(ps)@ == old(ps)@.at(attribute_at(old(ps)@.chars, old(ps)@.index).1),
{
    if ps.next_if_char('*') {
        Some(OptAttribute::Required)
    } else if ps.next_if_char('?') {
        Some(OptAttribute::Singleton)
    } else {
        None
    }
}

/// The message that says that something was expected, and behind what.
fn expected_message(what: &str, index: usize) -> (message: String)
    ensures
        message@ == expected(what@, index as nat),
{
    let mut message = String::from_str(what);
    if index > 0 {
        message.append(" after this");
    }
    message
}

/// Reads the target of an option with the attribute before it.
///
/// Whether `()` follows the name is found by trying: the position is
/// pushed, the two characters are read, and the position is popped again
/// if they are not there.
pub fn parse_target(ps: &mut ParserSource) -> (r: Result<
    (OptTarget, Option<OptAttribute>),
    ParsingError,
>)
    ensures
        match r {
            Ok((target, attribute)) => target_at(old(ps)@.chars, old(ps)@.index) == Ok::<
                (OptTargetView, Option<OptAttribute>, nat),
                (ParsingErrorView, nat),
            >((target@, attribute, final(ps)@.index)),
            Err(e) => target_at(old(ps)@.chars, old(ps)@.index) == Err::<
                (OptTargetView, Option<OptAttribute>, nat),
                (ParsingErrorView, nat),
            >((e@, final(ps)@.index)),
        },
        final(ps)@ == old(ps)@.at(final(ps)@.index),
{
    let ghost s = ps@;
    let attr = parse_option_attribute(ps);
    let target_name = match parse_name(ps) {
        Ok(name) => name,
        Err(_) => {
            return Err(ParsingError::Error(expected_message("name expected", ps.position())));
        },
    };
    ps.push_pos();
    let open = ps.next();
    let close = ps.next();
    let target = if open == Some('(') && close == Some(')') {
        ps.drop_pos();
        OptTarget::Function(target_name)
    } else {
        ps.pop_pos();
        OptTarget::Variable(target_name)
    };
    assert(ps@.stack =~= s.stack);
    Ok((target, attr))
}

/// Reads the kind of a flag or of a mode switch.
pub fn parse_flag_mode(ps: &mut ParserSource) -> (r: Result<
    (OptType, Option<OptAttribute>),
    ParsingError,
>)
    ensures
        match r {
            Ok((opt_type, attribute)) => flag_mode_at(old(ps)@.chars, old(ps)@.index) == Ok::<
                (OptTypeView, Option<OptAttribute>, nat),
                (ParsingErrorView, nat),
            >((opt_type@, attribute, final(ps)@.index)),
            Err(e) => flag_mode_at(old(ps)@.chars, old(ps)@.index) == Err::<
                (OptTypeView, Option<OptAttribute>, nat),
                (ParsingErrorView, nat),
            >((e@, final(ps)@.index)),
        },
        final(ps)@ == old(ps)@.at(final(ps)@.index),
{
    // must start with `#`
    if !ps.next_if_char('#') {
        return Err(ParsingError::Empty);
    }
    let (target, attr) = match parse_target(ps) {
        Ok(found) => found,
        Err(e) => {
            return Err(e);
        },
    };
    if !ps.next_if_char('=') {
        Ok((OptType::Flag(target), attr))
    } else {
        match parse_value(ps) {
            Ok(value) => Ok((OptType::ModeSwitch(target, value), attr)),
            Err(_) => Ok((OptType::ModeSwitch(target, String::new()), attr)),
        }
    }
}

/// Reads the kind of an assignment.
pub fn parse_assignment(ps: &mut ParserSource) -> (r: Result<
    (OptType, Option<OptAttribute>),
    ParsingError,
>)
    ensures
        match r {
            Ok((opt_type, attribute)) => assignment_at(old(ps)@.chars, old(ps)@.index) == Ok::<
                (OptTypeView, Option<OptAttribute>, nat),
                (ParsingErrorView, nat),
            >((opt_type@, attribute, final(ps)@.index)),
            Err(e) => assignment_at(old(ps)@.chars, old(ps)@.index) == Err::<
                (OptTypeView, Option<OptAttribute>, nat),
                (ParsingErrorView, nat),
            >((e@, final(ps)@.index)),
        },
        final(ps)@ == old(ps)@.at(final(ps)@.index),
{
    if !ps.next_if_char('=') {
        return Err(ParsingError::Empty);
    }
    match parse_target(ps) {
        Ok((target, attr)) => Ok((OptType::Assignment(target), attr)),
        Err(e) => Err(e),
    }
}

/// Reads the kind of a counting option.
pub fn parse_counter(ps: &mut ParserSource) -> (r: Result<
    (OptType, Option<OptAttribute>),
    ParsingError,
>)
    ensures
        match r {
            Ok((opt_type, attribute)) => counter_at(old(ps)@.chars, old(ps)@.index) == Ok::<
                (OptTypeView, Option<OptAttribute>, nat),
                (ParsingErrorView, nat),
            >((opt_type@, attribute, final(ps)@.index)),
            Err(e) => counter_at(old(ps)@.chars, old(ps)@.index) == Err::<
                (OptTypeView, Option<OptAttribute>, nat),
                (ParsingErrorView, nat),
            >((e@, final(ps)@.index)),
        },
        final(ps)@ == old(ps)@.at(final(ps)@.index),
{
    if !ps.next_if_char('+') {
        return Err(ParsingError::Empty);
    }
    match parse_target(ps) {
        Ok((target, attr)) => Ok((OptType::Counter(target), attr)),
        Err(e) => Err(e),
    }
}

/// The options read so far put before what the rest of the options gives.
spec fn options_with(
    short: Seq<char>,
    long: Seq<Seq<char>>,
    rest: Result<(Seq<char>, Seq<Seq<char>>, nat), (ParsingErrorView, nat)>,
) -> Result<(Seq<char>, Seq<Seq<char>>, nat), (ParsingErrorView, nat)> {
    match rest {
        Err(e) => Err(e),
        Ok((more_short, more_long, last)) => Ok((short + more_short, long + more_long, last)),
    }
}

/// Reads the kind of an option, which its first character selects.
fn parse_kind(ps: &mut ParserSource) -> (r: Result<(OptType, Option<OptAttribute>), ParsingError>)
    ensures
        match r {
            Ok((opt_type, attribute)) => kind_at(old(ps)@.chars, old(ps)@.index) == Ok::<
                (OptTypeView, Option<OptAttribute>, nat),
                (ParsingErrorView, nat),
            >((opt_type@, attribute, final(ps)@.index)),
            Err(e) => kind_at(old(ps)@.chars, old(ps)@.index) == Err::<
                (OptTypeView, Option<OptAttribute>, nat),
                (ParsingErrorView, nat),
            >((e@, final(ps)@.index)),
        },
        final(ps)@ == old(ps)@.at(final(ps)@.index),
{
    match ps.peek() {
        Some('#') => parse_flag_mode(ps),
        Some('=') => parse_assignment(ps),
        Some('+') => parse_counter(ps),
        _ => Err(ParsingError::Error(expected_message("Expected #, = or +", ps.position()))),
    }
}

/// Reads one option definition: the options with `:` between them, then
/// the kind with the target.
pub fn parse_opt_def(ps: &mut ParserSource) -> (r: Result<OptConfig, ParsingError>)
    ensures
        match r {
            Ok(def) => opt_def_at(old(ps)@.chars, old(ps)@.allow_utf8, old(ps)@.index) == Ok::<
                (OptConfigView, nat),
                (ParsingErrorView, nat),
            >((def@, final(ps)@.index)),
            Err(e) => opt_def_at(old(ps)@.chars, old(ps)@.allow_utf8, old(ps)@.index) == Err::<
                (OptConfigView, nat),
                (ParsingErrorView, nat),
            >((e@, final(ps)@.index)),
        },
        final(ps)@ == old(ps)@.at(final(ps)@.index),
{
    let ghost s = ps@;
    let ghost chars = s.chars;
    let ghost utf8 = s.allow_utf8;
    let mut short = String::new();
    let mut long: Vec<String> = Vec::new();
    assert(views_of(long@) =~= Seq::empty());
    loop
        invariant
            s == old(ps)@,
            chars == s.chars,
            utf8 == s.allow_utf8,
            ps@ == s.at(ps@.index),
            options_at(chars, utf8, s.index) == options_with(
                short@,
                views_of(long@),
                options_at(chars, utf8, ps@.index),
            ),
        decreases chars.len() - ps@.index,
    {
        let ghost here = ps@.index;
        proof {
            lemma_option_advances(chars, utf8, here);
        }
        match parse_option(ps) {
            Ok(o) => {
                let cs = chars_of(o.as_str());
                let ghost before_short = short@;
                let ghost before_long = views_of(long@);
                if cs.len() == 1 {
                    push_char(&mut short, cs[0]);
                    assert(short@ =~= before_short + seq![o@[0]]);
                    assert(views_of(long@) =~= before_long + Seq::<Seq<char>>::empty());
                } else {
                    long.push(o);
                    assert(views_of(long@) =~= before_long + seq![o@]);
                    assert(short@ =~= before_short + Seq::<char>::empty());
                }
                let ghost end = ps@.index;
                if !ps.next_if_char(':') {
                    assert(options_at(chars, utf8, s.index) == Ok::<
                        (Seq<char>, Seq<Seq<char>>, nat),
                        (ParsingErrorView, nat),
                    >((short@, views_of(long@), end))) by {
                        assert(short@ =~= before_short + (short@.skip(before_short.len() as int)));
                        assert(views_of(long@) =~= before_long + (views_of(long@).skip(
                            before_long.len() as int,
                        )));
                    }
                    return match parse_kind(ps) {
                        Ok((opt_type, attribute)) => {
                            let required = match attribute {
                                Some(OptAttribute::Required) => true,
                                _ => false,
                            };
                            let singleton = match attribute {
                                Some(OptAttribute::Singleton) => true,
                                _ => false,
                            };
                            Ok(
                                OptConfig {
                                    opt_chars: short,
                                    opt_strings: long,
                                    opt_type,
                                    required,
                                    singleton,
                                    assigned: false,
                                    count_value: 0,
                                },
                            )
                        },
                        Err(e) => Err(e),
                    };
                }
                proof {
                    let rest = options_at(chars, utf8, ps@.index);
                    match rest {
                        Ok((more_short, more_long, last)) => {
                            assert(before_short + (seq![o@[0]] + more_short) =~= (before_short
                                + seq![o@[0]]) + more_short);
                            assert(before_short + (Seq::<char>::empty() + more_short) =~= (
                            before_short + Seq::<char>::empty()) + more_short);
                            assert(before_long + (seq![o@] + more_long) =~= (before_long + seq![
                                o@,
                            ]) + more_long);
                            assert(before_long + (Seq::<Seq<char>>::empty() + more_long) =~= (
                            before_long + Seq::<Seq<char>>::empty()) + more_long);
                        },
                        Err(_) => {},
                    }
                }
            },
            Err(ParsingError::Empty) => {
                return Err(
                    ParsingError::Error(
                        expected_message("option char/string expected", ps.position()),
                    ),
                );
            },
            Err(ParsingError::Error(msg)) => {
                return Err(ParsingError::Error(msg));
            },
        }
    }
}

/// Passes over the commas at the current position.
fn skip_commas(ps: &mut ParserSource)
    ensures
        final(ps)@ == old(ps)@.at(commas_passed(old(ps)@.chars, old(ps)@.index)),
{
    let ghost s = ps@;
    let mut more = ps.next_if_char(',');
    while more
        invariant
            s == old(ps)@,
            ps@ == s.at(ps@.index),
            more ==> ps@.index <= s.chars.len(),
            commas_passed(s.chars, s.index) == if more {
                commas_passed(s.chars, ps@.index)
            } else {
                ps@.index
            },
        decreases
                s.chars.len() - ps@.index + if more {
                    1int
                } else {
                    0int
                },
    {
        more = ps.next_if_char(',');
    }
}

/// The definitions read so far put before what the rest of the text gives.
spec fn defs_with(
    list: Seq<OptConfigView>,
    rest: Result<(Seq<OptConfigView>, nat), (ParsingErrorView, nat)>,
) -> Result<(Seq<OptConfigView>, nat), (ParsingErrorView, nat)> {
    match rest {
        Err(e) => Err(e),
        Ok((more, last)) => Ok((list + more, last)),
    }
}

/// Reads a list of option definitions with commas between them, up to
/// the end of the text. Commas with nothing between them are passed over.
pub fn parse_opt_def_list(ps: &mut ParserSource) -> (r: Result<Vec<OptConfig>, ParsingError>)
    ensures
        match r {
            Ok(list) => opt_def_list_at(old(ps)@.chars, old(ps)@.allow_utf8, old(ps)@.index)
                == Ok::<(Seq<OptConfigView>, nat), (ParsingErrorView, nat)>(
                (config_views(list@), final(ps)@.index),
            ),
            Err(e) => opt_def_list_at(old(ps)@.chars, old(ps)@.allow_utf8, old(ps)@.index)
                == Err::<(Seq<OptConfigView>, nat), (ParsingErrorView, nat)>(
                (e@, final(ps)@.index),
            ),
        },
        final(ps)@ == old(ps)@.at(final(ps)@.index),
{
    let ghost s = ps@;
    let ghost chars = s.chars;
    let ghost utf8 = s.allow_utf8;
    let mut opt_def_list: Vec<OptConfig> = Vec::new();
    assert(config_views(opt_def_list@) =~= Seq::empty());
    skip_commas(ps);
    if ps.peek().is_none() {
        return Ok(opt_def_list);
    }
    let ghost start = ps@.index;
    loop
        invariant
            s == old(ps)@,
            chars == s.chars,
            utf8 == s.allow_utf8,
            ps@ == s.at(ps@.index),
            ps@.index < chars.len(),
            opt_defs_at(chars, utf8, start) == defs_with(
                config_views(opt_def_list@),
                opt_defs_at(chars, utf8, ps@.index),
            ),
            opt_def_list_at(chars, utf8, s.index) == opt_defs_at(chars, utf8, start),
        decreases chars.len() - ps@.index,
    {
        let ghost here = ps@.index;
        let ghost before = config_views(opt_def_list@);
        proof {
            lemma_opt_def_advances(chars, utf8, here);
        }
        match parse_opt_def(ps) {
            Ok(od) => {
                opt_def_list.push(od);
                assert(config_views(opt_def_list@) =~= before + seq![od@]);
            },
            Err(pe) => {
                return Err(pe);
            },
        }
        let end = ps.position();
        proof {
            lemma_commas_advance(chars, end as nat);
        }
        skip_commas(ps);
        match ps.peek() {
            None => {
                assert(before + seq![opt_def_list@.last()@] =~= config_views(opt_def_list@));
                return Ok(opt_def_list);
            },
            Some(c) => {
                if ps.position() == end {
                    let _ = ps.next();
                    let mut message = String::from_str("Unexpected character '");
                    push_char(&mut message, c);
                    message.append("'");
                    proof {
                        assert(message@ =~= "Unexpected character '"@ + seq![c] + "'"@);
                    }
                    return Err(ParsingError::Error(message));
                }
                proof {
                    match opt_defs_at(chars, utf8, ps@.index) {
                        Ok((more, last)) => {
                            assert(before + (seq![opt_def_list@.last()@] + more) =~= (before
                                + seq![opt_def_list@.last()@]) + more);
                        },
                        Err(_) => {},
                    }
                }
            },
        }
    }
}

/// Shows where a definition is wrong, in three lines: the definition, a
/// caret below the character before `index`, and the message below the
/// caret.
pub fn format_parsing_error(opt_def_str: &str, index: usize, msg: &str) -> (text: String)
    ensures
        text@ == diagnostic(opt_def_str@, index as nat, msg@),
{
    let pre = if index > 0 {
        space_run(index - 1)
    } else {
        String::new()
    };
    let mut text = String::from_str(opt_def_str);
    push_char(&mut text, '\n');
    text.append(pre.as_str());
    push_char(&mut text, '^');
    push_char(&mut text, '\n');
    text.append(pre.as_str());
    text.append(msg);
    proof {
        let p = pre@;
        assert(text@ =~= opt_def_str@ + seq!['\n'] + p + seq!['^', '\n'] + p + msg@);
    }
    text
}

/// Whether every option has a spelling and is as it is before any
/// argument was matched.
pub open spec fn all_fresh(list: Seq<OptConfigView>) -> bool {
    forall|i: int|
        0 <= i < list.len() ==> (#[trigger] list[i]).is_fresh() && list[i].opt_chars.len()
            + list[i].opt_strings.len() > 0
}

proof fn lemma_options_are_some(chars: Seq<char>, utf8: bool, pos: nat)
    ensures
        match options_at(chars, utf8, pos) {
            Ok((short, long, _)) => short.len() + long.len() > 0,
            Err(_) => true,
        },
    decreases chars.len() - pos,
{
    lemma_option_advances(chars, utf8, pos);
    match option_at(chars, utf8, pos) {
        Ok((option, end)) => {
            if char_at(chars, end) == Some(':') {
                lemma_options_are_some(chars, utf8, end + 1);
            }
        },
        Err(_) => {},
    }
}

proof fn lemma_parsed_are_fresh(chars: Seq<char>, utf8: bool, pos: nat)
    ensures
        match opt_defs_at(chars, utf8, pos) {
            Ok((list, _)) => all_fresh(list),
            Err(_) => true,
        },
    decreases chars.len() - pos,
{
    lemma_options_are_some(chars, utf8, pos);
    match opt_def_at(chars, utf8, pos) {
        Ok((def, end)) => {
            let next = commas_passed(chars, end);
            if next < chars.len() && next != end {
                lemma_opt_def_advances(chars, utf8, pos);
                lemma_commas_advance(chars, end);
                lemma_parsed_are_fresh(chars, utf8, next);
            }
        },
        Err(_) => {},
    }
}

/// Parses a list of option definitions with commas between them.
///
/// Gives the options in the order of the text, none for an empty text,
/// or the diagnostic for the first place where the text is wrong. Every
/// option that is given has a spelling and has not been matched yet.
pub fn parse(opt_def_str: &String) -> (r: Result<Vec<OptConfig>, String>)
    ensures
        match r {
            Ok(list) => definitions(opt_def_str@) == Ok::<Seq<OptConfigView>, Seq<char>>(
                config_views(list@),
            ) && all_fresh(config_views(list@)),
            Err(message) => definitions(opt_def_str@) == Err::<Seq<OptConfigView>, Seq<char>>(
                message@,
            ),
        },
{
    proof {
        lemma_parsed_are_fresh(opt_def_str@, false, commas_passed(opt_def_str@, 0));
    }
    let mut ps = ParserSource::new(opt_def_str.as_str());
    match parse_opt_def_list(&mut ps) {
        Ok(vec) => Ok(vec),
        Err(ParsingError::Error(msg)) => Err(
            format_parsing_error(opt_def_str.as_str(), ps.position(), msg.as_str()),
        ),
        Err(ParsingError::Empty) => Err(
            format_parsing_error(opt_def_str.as_str(), ps.position(), "Can't parse"),
        ),
    }
}

} // verus!
