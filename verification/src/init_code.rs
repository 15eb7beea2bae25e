//! The code that stands before the code of the options: the checks that
//! the functions exist, and the initial values of the variables where they
//! were asked for.

use vstd::prelude::*;
use crate::opt_def::{OptConfig, OptConfigView, OptType, config_views};
use crate::parseargs::{CmdLineArgs, CmdLineArgsView};
use crate::shell_code::{CodeChunk, CodeChunkView, VarValue, VarValueView, array_free,
    chunk_views};
use crate::text::str_eq;

verus! {

/// Whether an option before the one at `k` has a target of the same name
/// and of the same sort: a function if `function` holds, else a variable.
pub open spec fn has_earlier_target(specs: Seq<OptConfigView>, k: int, function: bool) -> bool {
    exists|i: int|
        0 <= i < k && (#[trigger] specs[i]).is_target_function() == function
            && specs[i].target_name() == specs[k].target_name()
}

/// The check for the function that the option at `k` calls, unless an
/// earlier option calls it too.
pub open spec fn function_check_at(specs: Seq<OptConfigView>, k: int) -> Seq<CodeChunkView> {
    if specs[k].is_target_function() && !has_earlier_target(specs, k, true) {
        seq![CodeChunkView::CheckForFunction(specs[k].target_name())]
    } else {
        Seq::empty()
    }
}

/// The checks for the functions of the first `upto` options.
pub open spec fn function_checks(specs: Seq<OptConfigView>, upto: int) -> Seq<CodeChunkView>
    decreases upto,
{
    if upto <= 0 {
        Seq::empty()
    } else {
        function_checks(specs, upto - 1) + function_check_at(specs, upto - 1)
    }
}

/// The value that a variable starts with: zero for a counter, the empty
/// text for every other option.
pub open spec fn initial_value(oc: OptConfigView) -> VarValueView {
    if oc.opt_type is Counter {
        VarValueView::IntValue(0)
    } else {
        VarValueView::StringValue(Seq::empty())
    }
}

/// The initialisation of the variable of the option at `k`. Variables are
/// initialised only where that was asked for, and then each of them
/// once.
pub open spec fn variable_init_at(specs: Seq<OptConfigView>, k: int, init_vars: bool) -> Seq<
    CodeChunkView,
> {
    if init_vars && !specs[k].is_target_function() && !has_earlier_target(specs, k, false) {
        seq![CodeChunkView::AssignVar(specs[k].target_name(), initial_value(specs[k]))]
    } else {
        Seq::empty()
    }
}

/// The initialisations of the variables of the first `upto` options.
pub open spec fn variable_inits(specs: Seq<OptConfigView>, upto: int, init_vars: bool) -> Seq<
    CodeChunkView,
>
    decreases upto,
{
    if upto <= 0 {
        Seq::empty()
    } else {
        variable_inits(specs, upto - 1, init_vars) + variable_init_at(specs, upto - 1, init_vars)
    }
}

/// The check for a callback, if there is one.
pub open spec fn callback_check(callback: Option<Seq<char>>) -> Seq<CodeChunkView> {
    match callback {
        Some(name) => seq![CodeChunkView::CheckForFunction(name)],
        None => Seq::empty(),
    }
}

/// The declaration of the remainder array as an empty array, if there is
/// one.
pub open spec fn remainder_init(remainder: Option<Seq<char>>) -> Seq<CodeChunkView> {
    match remainder {
        Some(name) => seq![
            CodeChunkView::DeclareArrayVar(name),
            CodeChunkView::AssignEmptyArray(name),
        ],
        None => Seq::empty(),
    }
}

/// The code that stands before the code of the options: the checks for
/// the callbacks and for the functions of the options, in the order of
/// the options; then, where `init_vars` asks for them, the initial values
/// of the variables, in that order; then the remainder array. Without
/// `init_vars` no variable is set before an option sets it, a counter
/// neither.
pub open spec fn init_code(specs: Seq<OptConfigView>, args: CmdLineArgsView, init_vars: bool)
    -> Seq<CodeChunkView> {
    callback_check(args.arg_callback) + callback_check(args.error_callback) + function_checks(
        specs,
        specs.len() as int,
    ) + variable_inits(specs, specs.len() as int, init_vars) + remainder_init(args.remainder)
}

/// Whether an option before the one at `k` has a target of the same name
/// and of the same sort.
fn find_earlier_target(list: &Vec<OptConfig>, k: usize, function: bool) -> (found: bool)
    requires
        k < list.len(),
    ensures
        found == has_earlier_target(config_views(list@), k as int, function),
{
    let ghost specs = config_views(list@);
    let name = list[k].get_target_name();
    assert(specs[k as int] == list@[k as int]@);
    let mut i: usize = 0;
    while i < k
        invariant
            i <= k < list.len(),
            specs == config_views(list@),
            name@ == specs[k as int].target_name(),
            forall|j: int|
                0 <= j < i ==> !((#[trigger] specs[j]).is_target_function() == function
                    && specs[j].target_name() == specs[k as int].target_name()),
        decreases k - i,
    {
        assert(specs[i as int] == list@[i as int]@);
        if list[i].is_target_function() == function {
            let other = list[i].get_target_name();
            if str_eq(other.as_str(), name.as_str()) {
                return true;
            }
        }
        i += 1;
    }
    false
}

/// Writes the code that stands before the code of the options: the checks
/// that the functions exist, and under `init_vars` the initial values of
/// the variables.
pub fn shell_init_code(
    opt_cfg_list: &Vec<OptConfig>,
    cmd_line_args: &CmdLineArgs,
    init_vars: bool,
) -> (code: Vec<CodeChunk>)
    ensures
        chunk_views(code@) == init_code(config_views(opt_cfg_list@), cmd_line_args@, init_vars),
{
    let ghost specs = config_views(opt_cfg_list@);
    let ghost args = cmd_line_args@;
    let mut init_code: Vec<CodeChunk> = Vec::new();
    assert(chunk_views(init_code@) =~= Seq::empty());

    // First the checks for functions ...
    match &cmd_line_args.arg_callback {
        Some(func) => {
            init_code.push(CodeChunk::CheckForFunction(func.clone()));
        },
        None => {},
    }
    assert(chunk_views(init_code@) =~= callback_check(args.arg_callback));
    match &cmd_line_args.error_callback {
        Some(func) => {
            init_code.push(CodeChunk::CheckForFunction(func.clone()));
        },
        None => {},
    }
    assert(chunk_views(init_code@) =~= callback_check(args.arg_callback) + callback_check(
        args.error_callback,
    ));
    let ghost callbacks = chunk_views(init_code@);

    // The list is walked twice, for the order of the code. A function
    // that several mode switches call is checked once.
    let mut k: usize = 0;
    while k < opt_cfg_list.len()
        invariant
            k <= opt_cfg_list.len(),
            specs == config_views(opt_cfg_list@),
            chunk_views(init_code@) == callbacks + function_checks(specs, k as int),
        decreases opt_cfg_list.len() - k,
    {
        assert(specs[k as int] == opt_cfg_list@[k as int]@);
        let ghost before = chunk_views(init_code@);
        if opt_cfg_list[k].is_target_function() && !find_earlier_target(opt_cfg_list, k, true) {
            let name = opt_cfg_list[k].get_target_name();
            init_code.push(CodeChunk::CheckForFunction(name));
        }
        assert(chunk_views(init_code@) =~= before + function_check_at(specs, k as int));
        assert(chunk_views(init_code@) =~= callbacks + function_checks(specs, k + 1));
        k += 1;
    }
    let ghost checks = chunk_views(init_code@);

    // ... then the variables.
    let mut k: usize = 0;
    while k < opt_cfg_list.len()
        invariant
            k <= opt_cfg_list.len(),
            specs == config_views(opt_cfg_list@),
            chunk_views(init_code@) == checks + variable_inits(specs, k as int, init_vars),
        decreases opt_cfg_list.len() - k,
    {
        assert(specs[k as int] == opt_cfg_list@[k as int]@);
        let ghost before = chunk_views(init_code@);
        let opt_cfg = &opt_cfg_list[k];
        if init_vars && opt_cfg.is_target_variable() && !find_earlier_target(
            opt_cfg_list,
            k,
            false,
        ) {
            let name = opt_cfg.get_target_name();
            match &opt_cfg.opt_type {
                OptType::Counter(_) => {
                    init_code.push(CodeChunk::AssignVar(name, VarValue::IntValue(0)));
                },
                _ => {
                    init_code.push(
                        CodeChunk::AssignVar(name, VarValue::StringValue(String::new())),
                    );
                },
            }
        }
        assert(chunk_views(init_code@) =~= before + variable_init_at(specs, k as int, init_vars));
        assert(chunk_views(init_code@) =~= checks + variable_inits(specs, k + 1, init_vars));
        k += 1;
    }
    let ghost inits = chunk_views(init_code@);
    match &cmd_line_args.remainder {
        Some(array) => {
            init_code.push(CodeChunk::DeclareArrayVar(array.clone()));
            init_code.push(CodeChunk::AssignEmptyArray(array.clone()));
        },
        None => {},
    }
    assert(chunk_views(init_code@) =~= inits + remainder_init(args.remainder));
    init_code
}

/// The initial code needs arrays only for a remainder array.
pub proof fn lemma_init_code_array_free(
    specs: Seq<OptConfigView>,
    args: CmdLineArgsView,
    init_vars: bool,
)
    requires
        args.remainder is None,
    ensures
        array_free(init_code(specs, args, init_vars)),
{
    lemma_checks_and_inits_array_free(specs, specs.len() as int, init_vars);
}

proof fn lemma_checks_and_inits_array_free(specs: Seq<OptConfigView>, upto: int, init_vars: bool)
    ensures
        array_free(function_checks(specs, upto)),
        array_free(variable_inits(specs, upto, init_vars)),
    decreases upto,
{
    if upto > 0 {
        lemma_checks_and_inits_array_free(specs, upto - 1, init_vars);
    }
}

} // verus!
