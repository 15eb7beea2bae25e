//! Shell code as data, and its rendering for the supported shells.
//!
//! A `CodeChunk` is one statement of the generated script, still free of any
//! shell's spelling. A `CodeTemplates` value describes one shell and turns
//! chunks into text.

use vstd::prelude::*;
use crate::text::{int_text, int_to_text, joined, push_char, views_of, chars_of};

verus! {

/// A value that is assigned to a shell variable or handed to a shell function.
#[derive(Debug, PartialEq, Eq)]
pub enum VarValue {
    StringValue(String),
    IntValue(i32),
    BoolValue(bool),
    /// No value at all.
    NoValue,
}

/// The mathematical content of a `VarValue`.
pub enum VarValueView {
    StringValue(Seq<char>),
    IntValue(int),
    BoolValue(bool),
    /// No value at all.
    NoValue,
}

impl View for VarValue {
    type V = VarValueView;

    open spec fn view(&self) -> VarValueView {
        match self {
            VarValue::StringValue(s) => VarValueView::StringValue(s@),
            VarValue::IntValue(i) => VarValueView::IntValue(*i as int),
            VarValue::BoolValue(b) => VarValueView::BoolValue(*b),
            VarValue::NoValue => VarValueView::NoValue,
        }
    }
}

/// What a single quote inside a quoted literal is written as: the literal is
/// closed, an escaped quote follows, and the literal is opened again.
pub open spec fn quote_escape() -> Seq<char> {
    seq!['\'', '\\', '\'', '\'']
}

/// The body of the single-quoted literal for `value`.
pub open spec fn escaped(value: Seq<char>) -> Seq<char>
    decreases value.len(),
{
    if value.len() == 0 {
        Seq::empty()
    } else if value[0] == '\'' {
        quote_escape() + escaped(value.drop_first())
    } else {
        seq![value[0]] + escaped(value.drop_first())
    }
}

/// The single-quoted shell literal for `value`.
pub open spec fn quoted(value: Seq<char>) -> Seq<char> {
    seq!['\''] + escaped(value) + seq!['\'']
}

/// What a POSIX shell makes of a word that is read outside of quotes and is
/// built from single-quoted parts and backslash escapes only. `None` where
/// the word is not of that form.
pub open spec fn unquoted(word: Seq<char>) -> Option<Seq<char>>
    decreases word.len(), 0nat,
{
    if word.len() == 0 {
        Some(Seq::empty())
    } else if word[0] == '\'' {
        unquoted_inside(word.drop_first())
    } else if word[0] == '\\' && word.len() >= 2 {
        match unquoted(word.skip(2)) {
            Some(rest) => Some(seq![word[1]] + rest),
            None => None,
        }
    } else {
        None
    }
}

/// What a POSIX shell makes of the rest of a word when it is read inside
/// single quotes: everything up to the closing quote stands for itself.
pub open spec fn unquoted_inside(word: Seq<char>) -> Option<Seq<char>>
    decreases word.len(), 1nat,
{
    if word.len() == 0 {
        None
    } else if word[0] == '\'' {
        unquoted(word.drop_first())
    } else {
        match unquoted_inside(word.drop_first()) {
            Some(rest) => Some(seq![word[0]] + rest),
            None => None,
        }
    }
}

proof fn lemma_unquoted_inside_escaped(value: Seq<char>)
    ensures
        unquoted_inside(escaped(value) + seq!['\'']) == Some(value),
    decreases value.len(),
{
    let tail = seq!['\''];
    if value.len() == 0 {
        let w = escaped(value) + tail;
        assert(w == tail);
        assert(w.drop_first() == Seq::<char>::empty());
        assert(unquoted(w.drop_first()) == Some(Seq::<char>::empty()));
    } else {
        let rest = value.drop_first();
        lemma_unquoted_inside_escaped(rest);
        let done = escaped(rest) + tail;
        if value[0] == '\'' {
            let w = escaped(value) + tail;
            assert(w == quote_escape() + done);
            let w1 = w.drop_first();
            assert(w1 == seq!['\\', '\'', '\''] + done);
            assert(unquoted_inside(w) == unquoted(w1));
            assert(w1.skip(2) == seq!['\''] + done);
            assert(w1[1] == '\'');
            let w2 = w1.skip(2);
            assert(w2.drop_first() == done);
            assert(unquoted(w2) == unquoted_inside(done));
            assert(seq!['\''] + rest == value);
        } else {
            let w = escaped(value) + tail;
            assert(w == seq![value[0]] + done);
            assert(w.drop_first() == done);
            assert(seq![value[0]] + rest == value);
        }
    }
}

/// A POSIX shell that reads the quoted literal of a text gets that text
/// back, whatever the text holds: quotes, nothing at all, or quotes only.
pub proof fn lemma_quoting_round_trip(value: Seq<char>)
    ensures
        unquoted(quoted(value)) == Some(value),
{
    lemma_unquoted_inside_escaped(value);
    let w = quoted(value);
    assert(w.drop_first() == escaped(value) + seq!['\'']);
}

impl VarValueView {
    /// The shell text of the value: a quoted literal for a string, the
    /// decimal numeral for an integer, `'true'` or `''` for a boolean, and
    /// nothing for no value.
    pub open spec fn text(self) -> Seq<char> {
        match self {
            VarValueView::StringValue(s) => quoted(s),
            VarValueView::IntValue(i) => int_text(i),
            VarValueView::BoolValue(b) => if b {
                "'true'"@
            } else {
                "''"@
            },
            VarValueView::NoValue => Seq::empty(),
        }
    }
}

impl VarValue {
    /// Writes `value` as a single-quoted shell literal; a single quote in it
    /// becomes `'\''`.
    pub fn escape_string(value: &str) -> (esc: String)
        ensures
            esc@ == quoted(value@),
    {
        let chars = chars_of(value);
        let mut esc = String::new();
        push_char(&mut esc, '\'');
        assert(esc@ == seq!['\'']);
        assert(chars@.skip(0) == chars@);
        let mut i: usize = 0;
        while i < chars.len()
            invariant
                i <= chars.len(),
                chars@ == value@,
                esc@ + escaped(chars@.skip(i as int)) == seq!['\''] + escaped(value@),
            decreases chars.len() - i,
        {
            let ghost before = esc@;
            let ghost rest = chars@.skip(i as int);
            assert(rest.drop_first() == chars@.skip(i + 1));
            let c = chars[i];
            if c == '\'' {
                push_char(&mut esc, '\'');
                push_char(&mut esc, '\\');
                push_char(&mut esc, '\'');
                push_char(&mut esc, '\'');
                assert(esc@ == before + quote_escape());
            } else {
                push_char(&mut esc, c);
                assert(esc@ == before + seq![c]);
            }
            assert(esc@ + escaped(chars@.skip(i + 1)) == before + escaped(rest));
            i += 1;
        }
        assert(escaped(chars@.skip(i as int)) == Seq::<char>::empty());
        assert(esc@ == seq!['\''] + escaped(value@));
        push_char(&mut esc, '\'');
        esc
    }

    /// The shell text of the value.
    pub fn to_string(&self) -> (s: String)
        ensures
            s@ == self@.text(),
    {
        match self {
            VarValue::StringValue(s) => VarValue::escape_string(s.as_str()),
            VarValue::IntValue(i) => int_to_text(*i),
            VarValue::BoolValue(b) => {
                if *b {
                    String::from_str("'true'")
                } else {
                    String::from_str("''")
                }
            },
            VarValue::NoValue => String::new(),
        }
    }
}

/// One statement of the generated script.
#[derive(Debug, PartialEq, Eq)]
pub enum CodeChunk {
    /// What stands between two statements.
    Separator,
    DeclareArrayVar(String),
    AssignVar(String, VarValue),
    AssignEmptyArray(String),
    AddToArray(String, VarValue),
    CheckForFunction(String),
    CallFunction(String, VarValue),
    /// Sets the positional parameters `$1`, `$2` and so on.
    SetArgs(Vec<String>),
    /// Leaves the calling script with the given exit code.
    Exit(i32),
    FalseReturn,
}

/// The mathematical content of a `CodeChunk`.
pub enum CodeChunkView {
    Separator,
    DeclareArrayVar(Seq<char>),
    AssignVar(Seq<char>, VarValueView),
    AssignEmptyArray(Seq<char>),
    AddToArray(Seq<char>, VarValueView),
    CheckForFunction(Seq<char>),
    CallFunction(Seq<char>, VarValueView),
    SetArgs(Seq<Seq<char>>),
    Exit(int),
    FalseReturn,
}

impl View for CodeChunk {
    type V = CodeChunkView;

    open spec fn view(&self) -> CodeChunkView {
        match self {
            CodeChunk::Separator => CodeChunkView::Separator,
            CodeChunk::DeclareArrayVar(n) => CodeChunkView::DeclareArrayVar(n@),
            CodeChunk::AssignVar(n, v) => CodeChunkView::AssignVar(n@, v@),
            CodeChunk::AssignEmptyArray(n) => CodeChunkView::AssignEmptyArray(n@),
            CodeChunk::AddToArray(n, v) => CodeChunkView::AddToArray(n@, v@),
            CodeChunk::CheckForFunction(n) => CodeChunkView::CheckForFunction(n@),
            CodeChunk::CallFunction(n, v) => CodeChunkView::CallFunction(n@, v@),
            CodeChunk::SetArgs(args) => CodeChunkView::SetArgs(views_of(args@)),
            CodeChunk::Exit(code) => CodeChunkView::Exit(*code as int),
            CodeChunk::FalseReturn => CodeChunkView::FalseReturn,
        }
    }
}

/// The views of a sequence of chunks.
pub open spec fn chunk_views(chunks: Seq<CodeChunk>) -> Seq<CodeChunkView> {
    chunks.map_values(|c: CodeChunk| c@)
}

impl CodeChunkView {
    /// Whether the chunk needs a shell with arrays.
    pub open spec fn uses_arrays(self) -> bool {
        self is DeclareArrayVar || self is AssignEmptyArray || self is AddToArray
    }
}

/// Whether none of the chunks needs a shell with arrays.
pub open spec fn array_free(chunks: Seq<CodeChunkView>) -> bool {
    forall|i: int| 0 <= i < chunks.len() ==> !(#[trigger] chunks[i]).uses_arrays()
}

/// The words of a `set --` statement after `set --` itself: each argument
/// as a quoted literal with a space before it.
pub open spec fn args_text(args: Seq<Seq<char>>) -> Seq<char>
    decreases args.len(),
{
    if args.len() == 0 {
        Seq::empty()
    } else {
        args_text(args.drop_last()) + seq![' '] + quoted(args.last())
    }
}

/// How a shell is asked whether a function exists.
#[derive(Debug, Clone, Copy, PartialEq, Eq)]
pub enum FunctionProbe {
    /// `type` piped into `grep function`.
    TypeGrep,
    /// `typeset -f`.
    TypesetF,
}

/// How a shell spells the assignment of an empty array.
#[derive(Debug, Clone, Copy, PartialEq, Eq)]
pub enum EmptyArraySpelling {
    /// `name=()`.
    Parentheses,
    /// `set -A name`.
    SetA,
}

/// What the code generator knows of one shell.
#[derive(Debug, Clone, Copy, PartialEq, Eq)]
pub struct CodeTemplates {
    /// Whether the shell supports arrays.
    pub supports_arrays: bool,
    /// The probe that makes the script fail if a function is missing.
    pub function_probe: FunctionProbe,
    /// The spelling of an empty array, for a shell that supports arrays.
    pub empty_array: EmptyArraySpelling,
}

/// The plain POSIX shell.
pub open spec fn sh_templates() -> CodeTemplates {
    CodeTemplates {
        supports_arrays: false,
        function_probe: FunctionProbe::TypeGrep,
        empty_array: EmptyArraySpelling::Parentheses,
    }
}

/// bash, and zsh with it.
pub open spec fn bash_templates() -> CodeTemplates {
    CodeTemplates {
        supports_arrays: true,
        function_probe: FunctionProbe::TypesetF,
        empty_array: EmptyArraySpelling::Parentheses,
    }
}

/// ksh: as bash, but for the spelling of an empty array.
pub open spec fn ksh_templates() -> CodeTemplates {
    CodeTemplates {
        supports_arrays: true,
        function_probe: FunctionProbe::TypesetF,
        empty_array: EmptyArraySpelling::SetA,
    }
}

/// The table of the shells: the description that goes by the name
/// `shell`, if there is one. A shell that is written as another is one
/// more name for that row.
pub open spec fn shell_template(shell: Seq<char>) -> Option<CodeTemplates> {
    if shell == "bash"@ || shell == "zsh"@ {
        Some(bash_templates())
    } else if shell == "ksh"@ {
        Some(ksh_templates())
    } else if shell == "sh"@ {
        Some(sh_templates())
    } else {
        None
    }
}

impl CodeTemplates {
    /// What stands between two statements.
    pub open spec fn separator_text() -> Seq<char> {
        ";\n"@
    }

    /// The probe for the function `name`.
    pub open spec fn probe_text(self, name: Seq<char>) -> Seq<char> {
        match self.function_probe {
            FunctionProbe::TypeGrep => "LC_ALL=C type "@ + name
                + " 2>/dev/null | grep function >/dev/null || (echo >&2 \"ERROR: Function '"@
                + name + "' does not exist.\";exit 1) || exit 127"@,
            FunctionProbe::TypesetF => "typeset -f "@ + name
                + " >/dev/null 2>&1 || { echo >&2 \"ERROR: Function '"@ + name
                + "' does not exist.\";exit 127; }"@,
        }
    }

    /// The text of one chunk in this shell.
    pub open spec fn chunk_text(self, chunk: CodeChunkView) -> Seq<char> {
        match chunk {
            CodeChunkView::Separator => Self::separator_text(),
            CodeChunkView::DeclareArrayVar(name) => "typeset -a "@ + name,
            CodeChunkView::AssignVar(name, value) => name + "="@ + value.text(),
            CodeChunkView::AssignEmptyArray(name) => match self.empty_array {
                EmptyArraySpelling::Parentheses => name + "=()"@,
                EmptyArraySpelling::SetA => "set -A "@ + name,
            },
            CodeChunkView::AddToArray(name, value) => name + "+=("@ + value.text() + ")"@,
            CodeChunkView::CheckForFunction(name) => self.probe_text(name),
            CodeChunkView::CallFunction(name, value) => name + " "@ + value.text()
                + " || exit $?"@,
            CodeChunkView::SetArgs(args) => "set --"@ + args_text(args),
            CodeChunkView::Exit(code) => "exit "@ + int_text(code),
            CodeChunkView::FalseReturn => "false"@,
        }
    }

    /// The texts of the chunks, in order.
    pub open spec fn chunk_texts(self, chunks: Seq<CodeChunkView>) -> Seq<Seq<char>> {
        chunks.map_values(|c: CodeChunkView| self.chunk_text(c))
    }

    /// The text of a whole script: the chunks with the separator between them.
    pub open spec fn script_text(self, chunks: Seq<CodeChunkView>) -> Seq<char> {
        joined(self.chunk_texts(chunks), Self::separator_text())
    }

    /// Renders a list of chunks as shell code, with the statement separator
    /// between neighbours.
    pub fn format_vector(&self, chunks: &Vec<CodeChunk>) -> (code: String)
        requires
            self.supports_arrays || array_free(chunk_views(chunks@)),
        ensures
            code@ == self.script_text(chunk_views(chunks@)),
    {
        let mut code = String::new();
        let separator = CodeChunk::Separator;
        let mut i: usize = 0;
        while i < chunks.len()
            invariant
                i <= chunks.len(),
                separator@ == CodeChunkView::Separator,
                self.supports_arrays || array_free(chunk_views(chunks@)),
                code@ == self.script_text(chunk_views(chunks@).take(i as int)),
            decreases chunks.len() - i,
        {
            proof {
                let all = self.chunk_texts(chunk_views(chunks@));
                let now = self.chunk_texts(chunk_views(chunks@).take(i + 1));
                let before = self.chunk_texts(chunk_views(chunks@).take(i as int));
                assert(now.drop_last() == before);
                assert(now.last() == self.chunk_text(chunks@[i as int]@));
                assert(chunk_views(chunks@)[i as int] == chunks@[i as int]@);
            }
            if i > 0 {
                let sep = self.format(&separator);
                code.append(sep.as_str());
            }
            let text = self.format(&chunks[i]);
            code.append(text.as_str());
            i += 1;
        }
        assert(chunk_views(chunks@).take(i as int) == chunk_views(chunks@));
        code
    }

    /// Renders one chunk as shell code.
    ///
    /// The three array chunks have no text in a shell without arrays: the
    /// caller asks `supports_arrays` before it builds one.
    pub fn format(&self, chunk: &CodeChunk) -> (code: String)
        requires
            chunk@.uses_arrays() ==> self.supports_arrays,
        ensures
            code@ == self.chunk_text(chunk@),
    {
        match chunk {
            CodeChunk::DeclareArrayVar(name) => {
                let mut code = String::from_str("typeset -a ");
                code.append(name.as_str());
                code
            },
            CodeChunk::AssignVar(name, value) => {
                let code = self.format_code_name_value(name.as_str(), "=", value, "");
                proof {
                    reveal_strlit("");
                    assert(code@ == name@ + "="@ + value@.text());
                }
                code
            },
            CodeChunk::AssignEmptyArray(name) => {
                match self.empty_array {
                    EmptyArraySpelling::Parentheses => {
                        let mut code = name.clone();
                        code.append("=()");
                        code
                    },
                    EmptyArraySpelling::SetA => {
                        let mut code = String::from_str("set -A ");
                        code.append(name.as_str());
                        code
                    },
                }
            },
            CodeChunk::AddToArray(name, value) => {
                self.format_code_name_value(name.as_str(), "+=(", value, ")")
            },
            CodeChunk::CheckForFunction(name) => self.format_function_probe(name.as_str()),
            CodeChunk::CallFunction(name, value) => {
                self.format_code_name_value(name.as_str(), " ", value, " || exit $?")
            },
            CodeChunk::Exit(exit_value) => {
                let mut code = String::from_str("exit ");
                let number = int_to_text(*exit_value);
                code.append(number.as_str());
                code
            },
            CodeChunk::FalseReturn => String::from_str("false"),
            CodeChunk::SetArgs(args) => self.format_code_args(args),
            CodeChunk::Separator => String::from_str(";\n"),
        }
    }

    /// The probe that makes the script fail if the function `name` is missing.
    fn format_function_probe(&self, name: &str) -> (code: String)
        ensures
            code@ == self.probe_text(name@),
    {
        match self.function_probe {
            FunctionProbe::TypeGrep => {
                let mut code = String::from_str("LC_ALL=C type ");
                code.append(name);
                code.append(
                    " 2>/dev/null | grep function >/dev/null || (echo >&2 \"ERROR: Function '",
                );
                code.append(name);
                code.append("' does not exist.\";exit 1) || exit 127");
                code
            },
            FunctionProbe::TypesetF => {
                let mut code = String::from_str("typeset -f ");
                code.append(name);
                code.append(" >/dev/null 2>&1 || { echo >&2 \"ERROR: Function '");
                code.append(name);
                code.append("' does not exist.\";exit 127; }");
                code
            },
        }
    }

    /// A name and a value with fixed text between and after them.
    fn format_code_name_value(
        &self,
        name: &str,
        between: &str,
        value: &VarValue,
        after: &str,
    ) -> (code: String)
        ensures
            code@ == name@ + between@ + value@.text() + after@,
    {
        let mut code = String::from_str(name);
        code.append(between);
        let text = value.to_string();
        code.append(text.as_str());
        code.append(after);
        code
    }

    /// The statement that sets the positional parameters to `args`.
    fn format_code_args(&self, args: &Vec<String>) -> (code: String)
        ensures
            code@ == "set --"@ + args_text(views_of(args@)),
    {
        let mut code = String::from_str("set --");
        let mut i: usize = 0;
        while i < args.len()
            invariant
                i <= args.len(),
                code@ == "set --"@ + args_text(views_of(args@).take(i as int)),
            decreases args.len() - i,
        {
            proof {
                let now = views_of(args@).take(i + 1);
                assert(now.drop_last() == views_of(args@).take(i as int));
                assert(now.last() == args@[i as int]@);
            }
            push_char(&mut code, ' ');
            let word = VarValue::escape_string(args[i].as_str());
            code.append(word.as_str());
            i += 1;
        }
        assert(views_of(args@).take(i as int) == views_of(args@));
        code
    }
}

/// Looks up the description of the shell with the given name.
pub fn get_shell_template(shell: &str) -> (found: Option<CodeTemplates>)
    ensures
        found == shell_template(shell@),
{
    if crate::text::str_eq(shell, "bash") || crate::text::str_eq(shell, "zsh") {
        Some(
            CodeTemplates {
                supports_arrays: true,
                function_probe: FunctionProbe::TypesetF,
                empty_array: EmptyArraySpelling::Parentheses,
            },
        )
    } else if crate::text::str_eq(shell, "ksh") {
        Some(
            CodeTemplates {
                supports_arrays: true,
                function_probe: FunctionProbe::TypesetF,
                empty_array: EmptyArraySpelling::SetA,
            },
        )
    } else if crate::text::str_eq(shell, "sh") {
        Some(
            CodeTemplates {
                supports_arrays: false,
                function_probe: FunctionProbe::TypeGrep,
                empty_array: EmptyArraySpelling::Parentheses,
            },
        )
    } else {
        None
    }
}

} // verus!
