//! The tokenizer for a script's raw arguments.
//!
//! It knows combined short options (`-abc`), values attached to a short
//! option (`-ooutfile`), long options with and without `=value`, the
//! separator `--`, and the POSIX rule that the first argument that is no
//! option ends option processing.

use vstd::prelude::*;
use crate::text::{chars_of, push_char, string_of, views_of};

verus! {

/// An element taken from the command line.
#[derive(Debug, PartialEq, Eq)]
pub enum CmdLineElement {
    /// A short option like `-l`, without the dash.
    ShortOption(char),
    /// A long option like `--long`, without the dashes.
    LongOption(String),
    /// A long option with a value, from `--option=value`.
    LongOptionValue(String, String),
    /// A program argument.
    Argument(String),
    /// The separator `--` between options and arguments.
    Separator,
}

/// The mathematical content of a `CmdLineElement`.
pub enum CmdLineElementView {
    ShortOption(char),
    LongOption(Seq<char>),
    LongOptionValue(Seq<char>, Seq<char>),
    Argument(Seq<char>),
    Separator,
}

impl View for CmdLineElement {
    type V = CmdLineElementView;

    open spec fn view(&self) -> CmdLineElementView {
        match self {
            CmdLineElement::ShortOption(c) => CmdLineElementView::ShortOption(*c),
            CmdLineElement::LongOption(name) => CmdLineElementView::LongOption(name@),
            CmdLineElement::LongOptionValue(name, value) => CmdLineElementView::LongOptionValue(
                name@,
                value@,
            ),
            CmdLineElement::Argument(text) => CmdLineElementView::Argument(text@),
            CmdLineElement::Separator => CmdLineElementView::Separator,
        }
    }
}

/// The view of an element that may be missing.
pub open spec fn element_view(e: Option<CmdLineElement>) -> Option<CmdLineElementView> {
    match e {
        Some(e) => Some(e@),
        None => None,
    }
}

/// The view of a string that may be missing.
pub open spec fn text_view(s: Option<String>) -> Option<Seq<char>> {
    match s {
        Some(s) => Some(s@),
        None => None,
    }
}

impl CmdLineElementView {
    /// The element as it is shown to a user: an option with its dashes, an
    /// argument between single quotes.
    pub open spec fn text(self) -> Seq<char> {
        match self {
            CmdLineElementView::ShortOption(c) => seq!['-', c],
            CmdLineElementView::LongOption(name) => seq!['-', '-'] + name,
            CmdLineElementView::LongOptionValue(name, value) => seq!['-', '-'] + name + seq!['=']
                + value,
            CmdLineElementView::Argument(text) => seq!['\''] + text + seq!['\''],
            CmdLineElementView::Separator => seq!['-', '-'],
        }
    }
}

impl CmdLineElement {
    /// The element as it is shown to a user.
    pub fn to_string(&self) -> (s: String)
        ensures
            s@ == self@.text(),
    {
        let mut s = String::new();
        match self {
            CmdLineElement::ShortOption(c) => {
                push_char(&mut s, '-');
                push_char(&mut s, *c);
                assert(s@ == seq!['-', *c]);
            },
            CmdLineElement::LongOption(name) => {
                push_char(&mut s, '-');
                push_char(&mut s, '-');
                assert(s@ == seq!['-', '-']);
                s.append(name.as_str());
            },
            CmdLineElement::LongOptionValue(name, value) => {
                push_char(&mut s, '-');
                push_char(&mut s, '-');
                assert(s@ == seq!['-', '-']);
                s.append(name.as_str());
                push_char(&mut s, '=');
                assert(s@ == seq!['-', '-'] + name@ + seq!['=']);
                s.append(value.as_str());
            },
            CmdLineElement::Argument(text) => {
                push_char(&mut s, '\'');
                assert(s@ == seq!['\'']);
                s.append(text.as_str());
                push_char(&mut s, '\'');
                assert(s@ == seq!['\''] + text@ + seq!['\'']);
            },
            CmdLineElement::Separator => {
                push_char(&mut s, '-');
                push_char(&mut s, '-');
                assert(s@ == seq!['-', '-']);
            },
        }
        s
    }
}

/// Whether a raw argument is the separator `--`.
pub open spec fn is_separator(s: Seq<char>) -> bool {
    s == seq!['-', '-']
}

/// Whether a raw argument has the shape of a long option: two dashes and
/// at least one more character.
pub open spec fn is_long_shaped(s: Seq<char>) -> bool {
    s.len() > 2 && s[0] == '-' && s[1] == '-'
}

/// Whether a raw argument has the shape of a group of short options: one
/// dash, then a character that is no dash.
pub open spec fn is_short_shaped(s: Seq<char>) -> bool {
    s.len() >= 2 && s[0] == '-' && s[1] != '-'
}

/// Whether a raw argument has the shape of an option or is the separator.
pub open spec fn is_option_shaped(s: Seq<char>) -> bool {
    is_separator(s) || is_long_shaped(s) || is_short_shaped(s)
}

/// The index of the first `c` in `s`, or the length of `s` if there is none.
pub open spec fn first_index(s: Seq<char>, c: char) -> int
    decreases s.len(),
{
    if s.len() == 0 {
        0
    } else if s[0] == c {
        0
    } else {
        1 + first_index(s.drop_first(), c)
    }
}

/// What a long option `--body` is read as: it is split at its first `=`, if
/// it has one.
pub open spec fn long_element(body: Seq<char>) -> CmdLineElementView {
    let at = first_index(body, '=');
    if at < body.len() {
        CmdLineElementView::LongOptionValue(body.take(at), body.skip(at + 1))
    } else {
        CmdLineElementView::LongOption(body)
    }
}

/// The state of a tokenizer.
pub struct TokenizerView {
    /// The raw arguments.
    pub args: Seq<Seq<char>>,
    /// How many of them have been read.
    pub idx: nat,
    /// Whether the first argument that is no option ends option processing.
    pub posix: bool,
    /// Whether option processing has ended.
    pub args_only: bool,
    /// The unread rest of a group of combined short options.
    pub left_over: Seq<char>,
}

impl TokenizerView {
    /// The state before anything was read.
    pub open spec fn start(args: Seq<Seq<char>>, posix: bool) -> TokenizerView {
        TokenizerView { args, idx: 0, posix, args_only: false, left_over: Seq::empty() }
    }

    /// The raw arguments that have not been read yet.
    pub open spec fn unread(self) -> Seq<Seq<char>> {
        if self.idx <= self.args.len() {
            self.args.skip(self.idx as int)
        } else {
            Seq::empty()
        }
    }

    /// The state after one more raw argument was read.
    pub open spec fn advanced(self) -> TokenizerView {
        TokenizerView { idx: self.idx + 1, ..self }
    }

    /// What `next_part` returns and the state it leaves: the next raw
    /// argument, if one is left.
    pub open spec fn next_part(self) -> (Option<Seq<char>>, TokenizerView) {
        if self.idx >= self.args.len() {
            (None, self)
        } else {
            (Some(self.args[self.idx as int]), self.advanced())
        }
    }

    /// What a raw argument is read as while options are still processed,
    /// and the state after it, `self` being the state in which it was
    /// taken off the arguments.
    ///
    /// The separator ends option processing. A long option is split at its
    /// first `=`. Of a group of short options the first is returned and
    /// the others are left over. Anything else, a dash alone too, is an
    /// argument, and under `posix` ends option processing.
    pub open spec fn classified(self, s: Seq<char>) -> (CmdLineElementView, TokenizerView) {
        if is_separator(s) {
            (CmdLineElementView::Separator, TokenizerView { args_only: true, ..self })
        } else if is_long_shaped(s) {
            (long_element(s.skip(2)), self)
        } else if is_short_shaped(s) {
            (CmdLineElementView::ShortOption(s[1]), TokenizerView { left_over: s.skip(2), ..self })
        } else {
            (CmdLineElementView::Argument(s), TokenizerView { args_only: self.posix, ..self })
        }
    }

    /// What `next` returns and the state it leaves.
    ///
    /// A left-over short option comes first. Once option processing has
    /// ended every raw argument is an argument. Otherwise the next raw
    /// argument is classified by its shape.
    pub open spec fn next(self) -> (Option<CmdLineElementView>, TokenizerView) {
        if self.left_over.len() > 0 {
            (
                Some(CmdLineElementView::ShortOption(self.left_over[0])),
                TokenizerView { left_over: self.left_over.drop_first(), ..self },
            )
        } else if self.idx >= self.args.len() {
            (None, self)
        } else if self.args_only {
            (Some(CmdLineElementView::Argument(self.args[self.idx as int])), self.advanced())
        } else {
            let (element, after) = self.advanced().classified(self.args[self.idx as int]);
            (Some(element), after)
        }
    }

    /// What `get_option_argument` returns and the state it leaves: the rest
    /// of a group of combined short options if there is one, else the next
    /// raw argument, if one is left.
    pub open spec fn option_argument(self) -> (Option<Seq<char>>, TokenizerView) {
        if self.left_over.len() > 0 {
            (Some(self.left_over), TokenizerView { left_over: Seq::empty(), ..self })
        } else {
            self.next_part()
        }
    }

    /// How much is left to read: the raw arguments, then the left-over
    /// characters. Every element that `next` returns makes it smaller.
    pub open spec fn remaining(self) -> (nat, nat) {
        (
            if self.idx <= self.args.len() {
                (self.args.len() - self.idx) as nat
            } else {
                0
            },
            self.left_over.len(),
        )
    }

    /// What holds of every state that a tokenizer reaches: once option
    /// processing has ended, no short options are left over.
    pub open spec fn consistent(self) -> bool {
        self.args_only ==> self.left_over.len() == 0
    }

    /// All elements that `next` returns from this state on, if nothing
    /// else reads from the tokenizer.
    pub open spec fn elements(self) -> Seq<CmdLineElementView>
        decreases self.remaining().0, self.remaining().1,
    {
        match self.next() {
            (Some(e), after) => seq![e] + after.elements(),
            (None, _) => Seq::empty(),
        }
    }
}

/// Each of `raw` as an argument.
pub open spec fn as_arguments(raw: Seq<Seq<char>>) -> Seq<CmdLineElementView> {
    raw.map_values(|s: Seq<char>| CmdLineElementView::Argument(s))
}

/// A tokenizer over a script's raw arguments.
pub struct CmdLineTokenizer {
    /// The raw arguments.
    cmd_line_args: Vec<String>,
    /// The index of the next raw argument.
    cmd_line_args_idx: usize,
    /// Whether to stop option processing at the first argument that is no
    /// option.
    posix: bool,
    /// Whether only arguments are returned from now on: set by `--`, and
    /// under `posix` by the first argument that is no option.
    args_only: bool,
    /// The characters left over from combined short options: after `a` of
    /// `-abc` these are `b` and `c`.
    left_over: Vec<char>,
}

impl View for CmdLineTokenizer {
    type V = TokenizerView;

    closed spec fn view(&self) -> TokenizerView {
        TokenizerView {
            args: views_of(self.cmd_line_args@),
            idx: self.cmd_line_args_idx as nat,
            posix: self.posix,
            args_only: self.args_only,
            left_over: self.left_over@,
        }
    }
}

impl CmdLineTokenizer {
    /// A tokenizer at the start of `args`.
    pub fn new(args: Vec<String>, posix: bool) -> (tokenizer: CmdLineTokenizer)
        ensures
            tokenizer@ == TokenizerView::start(views_of(args@), posix),
    {
        CmdLineTokenizer {
            cmd_line_args: args,
            cmd_line_args_idx: 0,
            posix,
            args_only: false,
            left_over: Vec::new(),
        }
    }

    /// Whether option processing has ended.
    pub fn is_args_only(&self) -> (r: bool)
        ensures
            r == self@.args_only,
    {
        self.args_only
    }

    /// The next raw argument, if one is left.
    fn next_part(&mut self) -> (part: Option<String>)
        ensures
            text_view(part) == old(self)@.next_part().0,
            final(self)@ == old(self)@.next_part().1,
    {
        if self.cmd_line_args_idx >= self.cmd_line_args.len() {
            None
        } else {
            let r = self.cmd_line_args[self.cmd_line_args_idx].clone();
            self.cmd_line_args_idx += 1;
            Some(r)
        }
    }

    /// The next element of the command line, or `None` at its end.
    pub fn next(&mut self) -> (element: Option<CmdLineElement>)
        ensures
            element_view(element) == old(self)@.next().0,
            final(self)@ == old(self)@.next().1,
    {
        if self.left_over.len() > 0 {
            let chr = self.left_over.remove(0);
            assert(self.left_over@ == old(self).left_over@.drop_first());
            Some(CmdLineElement::ShortOption(chr))
        } else if self.args_only {
            match self.next_part() {
                None => None,
                Some(s) => Some(CmdLineElement::Argument(s)),
            }
        } else {
            match self.next_part() {
                None => None,
                Some(s) => {
                    let chars = chars_of(s.as_str());
                    let n = chars.len();
                    if n == 2 && chars[0] == '-' && chars[1] == '-' {
                        assert(chars@ == seq!['-', '-']);
                        self.args_only = true;
                        Some(CmdLineElement::Separator)
                    } else if n == 1 && chars[0] == '-' {
                        if self.posix {
                            self.args_only = true;
                        }
                        Some(CmdLineElement::Argument(s))
                    } else if n >= 2 && chars[0] == '-' && chars[1] == '-' {
                        Some(long_option(&chars))
                    } else if n >= 1 && chars[0] == '-' {
                        let chr = chars[1];
                        let mut i: usize = 2;
                        while i < n
                            invariant
                                2 <= i <= n,
                                n == chars.len(),
                                self@.args == old(self)@.args,
                                self@.idx == old(self)@.idx + 1,
                                self@.posix == old(self)@.posix,
                                self@.args_only == old(self)@.args_only,
                                self@.left_over =~= chars@.subrange(2, i as int),
                            decreases n - i,
                        {
                            self.left_over.push(chars[i]);
                            i += 1;
                        }
                        assert(chars@.subrange(2, n as int) == chars@.skip(2));
                        Some(CmdLineElement::ShortOption(chr))
                    } else {
                        if self.posix {
                            self.args_only = true;
                        }
                        Some(CmdLineElement::Argument(s))
                    }
                },
            }
        }
    }

    /// The argument of the option that was returned last: the rest of a
    /// group of combined short options (`outfile` of `-ooutfile`), else the
    /// next raw argument.
    pub fn get_option_argument(&mut self) -> (argument: Option<String>)
        ensures
            text_view(argument) == old(self)@.option_argument().0,
            final(self)@ == old(self)@.option_argument().1,
    {
        if self.left_over.len() > 0 {
            let ret = string_of(&self.left_over, 0, self.left_over.len());
            assert(self.left_over@.subrange(0, self.left_over@.len() as int) == self.left_over@);
            self.left_over.clear();
            Some(ret)
        } else {
            self.next_part()
        }
    }
}

/// Reads a raw argument that starts with two dashes as a long option.
fn long_option(chars: &Vec<char>) -> (element: CmdLineElement)
    requires
        chars.len() >= 2,
    ensures
        element@ == long_element(chars@.skip(2)),
{
    let ghost body = chars@.skip(2);
    let n = chars.len();
    let mut i: usize = 2;
    assert(body.skip(0) == body);
    while i < n && chars[i] != '='
        invariant
            2 <= i <= n,
            n == chars.len(),
            body == chars@.skip(2),
            first_index(body, '=') == (i - 2) + first_index(body.skip(i - 2), '='),
        decreases n - i,
    {
        assert(body.skip(i - 2).drop_first() == body.skip(i - 2 + 1));
        i += 1;
    }
    if i < n {
        let name = string_of(chars, 2, i);
        let value = string_of(chars, i + 1, n);
        assert(body.skip(i - 2)[0] == '=');
        assert(chars@.subrange(2, i as int) == body.take(i - 2));
        assert(chars@.subrange(i + 1, n as int) == body.skip(i - 2 + 1));
        CmdLineElement::LongOptionValue(name, value)
    } else {
        let name = string_of(chars, 2, n);
        assert(body.skip(n - 2).len() == 0);
        assert(chars@.subrange(2, n as int) == body);
        CmdLineElement::LongOption(name)
    }
}

/// Once option processing has ended, it stays ended, and every raw
/// argument that is left comes out as an argument, whatever it looks like.
pub proof fn lemma_args_only_yields_arguments(t: TokenizerView)
    requires
        t.args_only,
        t.consistent(),
    ensures
        t.elements() == as_arguments(t.unread()),
        t.next().1.args_only,
    decreases t.remaining().0,
{
    if t.idx < t.args.len() {
        let after = t.next().1;
        lemma_args_only_yields_arguments(after);
        assert(t.unread().drop_first() == after.unread());
        assert(as_arguments(t.unread()) == seq![
            CmdLineElementView::Argument(t.args[t.idx as int]),
        ] + as_arguments(after.unread()));
    } else {
        assert(as_arguments(t.unread()) == Seq::<CmdLineElementView>::empty());
    }
}

/// Under `posix`, the first raw argument that has not the shape of an
/// option is returned as an argument and ends option processing: all that
/// follows comes out as arguments.
pub proof fn lemma_posix_positional_freezes(t: TokenizerView)
    requires
        t.posix,
        !t.args_only,
        t.left_over.len() == 0,
        t.idx < t.args.len(),
        !is_option_shaped(t.args[t.idx as int]),
    ensures
        t.next().0 == Some(CmdLineElementView::Argument(t.args[t.idx as int])),
        t.next().1.args_only,
        t.elements() == as_arguments(t.unread()),
{
    let s = t.args[t.idx as int];
    let after = t.next().1;
    lemma_args_only_yields_arguments(after);
    assert(t.unread().drop_first() == after.unread());
    assert(as_arguments(t.unread()) == seq![CmdLineElementView::Argument(s)] + as_arguments(
        after.unread(),
    ));
}

/// Without `posix`, only the separator `--` ends option processing:
/// options and arguments may come in any order before it.
pub proof fn lemma_only_separator_ends_options(t: TokenizerView)
    requires
        !t.posix,
        !t.args_only,
    ensures
        t.next().1.args_only <==> t.next().0 == Some(CmdLineElementView::Separator),
        t.option_argument().1.args_only == false,
{
    if t.left_over.len() == 0 && t.idx < t.args.len() {
        let s = t.args[t.idx as int];
        if is_long_shaped(s) {
            assert(long_element(s.skip(2)) != CmdLineElementView::Separator);
        }
    }
}

/// Every state that a tokenizer reaches is consistent: its first state
/// is, and reading from a consistent state leaves one.
pub proof fn lemma_consistent_is_kept(t: TokenizerView)
    requires
        t.consistent(),
    ensures
        t.next().1.consistent(),
        t.option_argument().1.consistent(),
        TokenizerView::start(t.args, t.posix).consistent(),
{
}

} // verus!
