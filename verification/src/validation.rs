//! The validation of option definitions: what must hold of the options
//! of a script before any argument is matched against them.

use vstd::prelude::*;
use crate::opt_def::{OptConfig, OptConfigView, OptType, OptTypeView, config_views};
use crate::text::{chars_of, has_string, message_about, push_char, str_eq, views_of};

verus! {

/// The short options of all the given options, in their order.
pub open spec fn all_shorts(specs: Seq<OptConfigView>) -> Seq<char>
    decreases specs.len(),
{
    if specs.len() == 0 {
        Seq::empty()
    } else {
        all_shorts(specs.drop_last()) + specs.last().opt_chars
    }
}

/// The long options of all the given options, in their order.
pub open spec fn all_longs(specs: Seq<OptConfigView>) -> Seq<Seq<char>>
    decreases specs.len(),
{
    if specs.len() == 0 {
        Seq::empty()
    } else {
        all_longs(specs.drop_last()) + specs.last().opt_strings
    }
}

/// The first item from `from` on that stands in `seen` or earlier among
/// `items`.
pub open spec fn first_repeat<T>(seen: Seq<T>, items: Seq<T>, from: int) -> Option<T>
    decreases items.len() - from,
{
    if from < 0 || from >= items.len() {
        None
    } else if (seen + items.take(from)).contains(items[from]) {
        Some(items[from])
    } else {
        first_repeat(seen, items, from + 1)
    }
}

/// The index of the first option whose target has the given name, or the
/// number of options if there is none.
pub open spec fn first_with_target(specs: Seq<OptConfigView>, name: Seq<char>) -> int
    decreases specs.len(),
{
    if specs.len() == 0 {
        0
    } else if specs[0].target_name() == name {
        0
    } else {
        1 + first_with_target(specs.drop_first(), name)
    }
}

/// What is wrong with the target of `oc` after the options `earlier`, if
/// anything. Only mode switches may share a target, and then all of them
/// assign a variable or all of them call a function.
pub open spec fn target_fault(earlier: Seq<OptConfigView>, oc: OptConfigView) -> Option<
    Seq<char>,
> {
    let at = first_with_target(earlier, oc.target_name());
    if at >= earlier.len() {
        None
    } else if !(oc.opt_type is ModeSwitch) || !(earlier[at].opt_type is ModeSwitch) {
        Some("Duplicate usage of variable/function '"@ + oc.target_name() + "'"@)
    } else if oc.is_target_function() != earlier[at].is_target_function() {
        Some(
            "Used as variable and function in mod-switch option: '"@ + oc.target_name() + "'"@,
        )
    } else {
        None
    }
}

/// Whether `other` is a mode switch of the same target and the same value
/// as the mode switch `oc`.
pub open spec fn same_mode_value(other: OptConfigView, oc: OptConfigView) -> bool {
    match (other.opt_type, oc.opt_type) {
        (OptTypeView::ModeSwitch(t1, v1), OptTypeView::ModeSwitch(t2, v2)) => t1.name()
            == t2.name() && v1 == v2,
        _ => false,
    }
}

/// What is wrong with the value of the mode switch `oc` after the options
/// `earlier`, if anything: no two switches of one mode have the same
/// value.
pub open spec fn mode_value_fault(earlier: Seq<OptConfigView>, oc: OptConfigView) -> Option<
    Seq<char>,
> {
    match oc.opt_type {
        OptTypeView::ModeSwitch(target, value) => if exists|i: int|
            0 <= i < earlier.len() && same_mode_value(#[trigger] earlier[i], oc) {
            Some("Duplicate value '"@ + value + "' for mode '"@ + target.name() + "'"@)
        } else {
            None
        },
        _ => None,
    }
}

/// What is wrong with the option `oc` after the options `earlier`, if
/// anything: a short option that was defined before, then a long option
/// that was, then its target, then its mode value.
pub open spec fn option_fault(earlier: Seq<OptConfigView>, oc: OptConfigView) -> Option<
    Seq<char>,
> {
    match first_repeat(all_shorts(earlier), oc.opt_chars, 0) {
        Some(c) => Some("Duplicate definition of option '-"@ + seq![c] + "'"@),
        None => match first_repeat(all_longs(earlier), oc.opt_strings, 0) {
            Some(name) => Some("Duplicate definition of option '--"@ + name + "'"@),
            None => match target_fault(earlier, oc) {
                Some(message) => Some(message),
                None => mode_value_fault(earlier, oc),
            },
        },
    }
}

/// The fault of the first option from `from` on that has one.
pub open spec fn first_fault(specs: Seq<OptConfigView>, from: int) -> Option<Seq<char>>
    decreases specs.len() - from,
{
    if from < 0 || from >= specs.len() {
        None
    } else {
        match option_fault(specs.take(from), specs[from]) {
            Some(message) => Some(message),
            None => first_fault(specs, from + 1),
        }
    }
}

/// What is wrong with the definitions as a whole, if anything.
pub open spec fn validation_fault(specs: Seq<OptConfigView>) -> Option<Seq<char>> {
    first_fault(specs, 0)
}

/// The view of a message that may be missing.
pub open spec fn fault_view(r: Result<(), String>) -> Option<Seq<char>> {
    match r {
        Ok(_) => None,
        Err(message) => Some(message@),
    }
}

/// The index of the first option before `upto` whose target has the given
/// name, or `upto` if there is none.
fn find_target(list: &Vec<OptConfig>, upto: usize, name: &str) -> (at: usize)
    requires
        upto <= list.len(),
    ensures
        at == first_with_target(config_views(list@).take(upto as int), name@),
        at <= upto,
{
    let ghost earlier = config_views(list@).take(upto as int);
    let mut at: usize = 0;
    assert(earlier.skip(0) == earlier);
    while at < upto
        invariant
            at <= upto <= list.len(),
            earlier == config_views(list@).take(upto as int),
            first_with_target(earlier, name@) == at + first_with_target(
                earlier.skip(at as int),
                name@,
            ),
        decreases upto - at,
    {
        assert(earlier.skip(at as int)[0] == list@[at as int]@);
        let target_name = list[at].get_target_name();
        if str_eq(target_name.as_str(), name) {
            return at;
        }
        assert(earlier.skip(at as int).drop_first() == earlier.skip(at + 1));
        at += 1;
    }
    at
}

/// Whether the option is a mode switch.
fn is_mode_switch(oc: &OptConfig) -> (r: bool)
    ensures
        r == (oc@.opt_type is ModeSwitch),
{
    match &oc.opt_type {
        OptType::ModeSwitch(_, _) => true,
        _ => false,
    }
}

/// Looks at the target of the option at `k` after the options before it.
fn check_target(list: &Vec<OptConfig>, k: usize) -> (r: Result<(), String>)
    requires
        k < list.len(),
    ensures
        fault_view(r) == target_fault(config_views(list@).take(k as int), list@[k as int]@),
{
    let ghost earlier = config_views(list@).take(k as int);
    let name = list[k].get_target_name();
    let at = find_target(list, k, name.as_str());
    if at >= k {
        return Ok(());
    }
    assert(earlier[at as int] == list@[at as int]@);
    if !is_mode_switch(&list[k]) || !is_mode_switch(&list[at]) {
        Err(message_about("Duplicate usage of variable/function '", name.as_str(), "'"))
    } else if list[k].is_target_function() != list[at].is_target_function() {
        Err(
            message_about(
                "Used as variable and function in mod-switch option: '",
                name.as_str(),
                "'",
            ),
        )
    } else {
        Ok(())
    }
}

/// Looks at the value of the option at `k`, if it is a mode switch, after
/// the options before it.
fn check_mode_value(list: &Vec<OptConfig>, k: usize) -> (r: Result<(), String>)
    requires
        k < list.len(),
    ensures
        fault_view(r) == mode_value_fault(config_views(list@).take(k as int), list@[k as int]@),
{
    let ghost earlier = config_views(list@).take(k as int);
    let ghost oc = list@[k as int]@;
    match &list[k].opt_type {
        OptType::ModeSwitch(target, value) => {
            let name = list[k].get_target_name();
            let mut i: usize = 0;
            while i < k
                invariant
                    i <= k < list.len(),
                    earlier == config_views(list@).take(k as int),
                    oc == list@[k as int]@,
                    oc.opt_type == OptTypeView::ModeSwitch(target@, value@),
                    name@ == target@.name(),
                    forall|j: int| 0 <= j < i ==> !same_mode_value(#[trigger] earlier[j], oc),
                decreases k - i,
            {
                assert(earlier[i as int] == list@[i as int]@);
                let same = match &list[i].opt_type {
                    OptType::ModeSwitch(_, other_value) => {
                        let other_name = list[i].get_target_name();
                        str_eq(other_name.as_str(), name.as_str()) && str_eq(
                            other_value.as_str(),
                            value.as_str(),
                        )
                    },
                    _ => false,
                };
                if same {
                    assert(same_mode_value(earlier[i as int], oc));
                    let mut message = String::from_str("Duplicate value '");
                    message.append(value.as_str());
                    message.append("' for mode '");
                    message.append(name.as_str());
                    message.append("'");
                    return Err(message);
                }
                i += 1;
            }
            Ok(())
        },
        _ => Ok(()),
    }
}

/// Validates the option definitions.
///
/// Looks for:
///
/// * options that are defined twice
/// * variables and functions that are used twice, which only mode
///   switches may
/// * mode switches of one mode with the same value
///
/// A function and a variable of the same name are not accepted: a shell
/// would take them, but here they are most likely a mistake.
///
/// The definitions pass if and only if they are well formed; else the
/// message names the first fault of the first option that has one.
pub fn validate_option_definitions(opt_def_list: &Vec<OptConfig>) -> (r: Result<(), String>)
    ensures
        fault_view(r) == validation_fault(config_views(opt_def_list@)),
        r is Ok <==> well_formed(config_views(opt_def_list@)),
{
    let r = find_fault(opt_def_list);
    proof {
        lemma_validation_is_well_formedness(config_views(opt_def_list@));
    }
    r
}

/// Looks for the first fault of the first option that has one.
fn find_fault(opt_def_list: &Vec<OptConfig>) -> (r: Result<(), String>)
    ensures
        fault_view(r) == validation_fault(config_views(opt_def_list@)),
{
    let ghost specs = config_views(opt_def_list@);
    let mut all_short_options: Vec<char> = Vec::new();
    let mut all_long_options: Vec<String> = Vec::new();
    assert(views_of(all_long_options@) =~= Seq::empty());
    assert(specs.take(0) =~= Seq::empty());
    let mut k: usize = 0;
    while k < opt_def_list.len()
        invariant
            k <= opt_def_list.len(),
            specs == config_views(opt_def_list@),
            all_short_options@ == all_shorts(specs.take(k as int)),
            views_of(all_long_options@) == all_longs(specs.take(k as int)),
            first_fault(specs, 0) == first_fault(specs, k as int),
        decreases opt_def_list.len() - k,
    {
        let ghost earlier = specs.take(k as int);
        let ghost oc = specs[k as int];
        assert(oc == opt_def_list@[k as int]@);
        assert(specs.take(k + 1).drop_last() == earlier);
        assert(specs.take(k + 1).last() == oc);
        let oc_exec = &opt_def_list[k];
        let chars = chars_of(oc_exec.opt_chars.as_str());
        let ghost seen_shorts = all_short_options@;
        let mut j: usize = 0;
        assert(chars@.take(0) =~= Seq::empty());
        while j < chars.len()
            invariant
                j <= chars.len(),
                k < opt_def_list.len(),
                specs == config_views(opt_def_list@),
                earlier == specs.take(k as int),
                oc == specs[k as int],
                first_fault(specs, 0) == first_fault(specs, k as int),
                chars@ == oc.opt_chars,
                seen_shorts == all_shorts(earlier),
                all_short_options@ == seen_shorts + chars@.take(j as int),
                first_repeat(seen_shorts, chars@, 0) == first_repeat(seen_shorts, chars@, j as int),
            decreases chars.len() - j,
        {
            let chr = chars[j];
            if vec_has_char(&all_short_options, chr) {
                let mut message = String::from_str("Duplicate definition of option '-");
                push_char(&mut message, chr);
                message.append("'");
                proof {
                    assert(message@ =~= "Duplicate definition of option '-"@ + seq![chr] + "'"@);
                    assert(first_repeat(seen_shorts, chars@, j as int) == Some(chr));
                    assert(option_fault(earlier, oc) == Some(message@));
                }
                return Err(message);
            }
            all_short_options.push(chr);
            assert(all_short_options@ =~= seen_shorts + chars@.take(j + 1));
            j += 1;
        }
        assert(chars@.take(j as int) == chars@);
        let ghost seen_longs = views_of(all_long_options@);
        let ghost names = oc.opt_strings;
        let mut n: usize = 0;
        assert(names.take(0) =~= Seq::empty());
        while n < oc_exec.opt_strings.len()
            invariant
                n <= oc_exec.opt_strings.len(),
                k < opt_def_list.len(),
                specs == config_views(opt_def_list@),
                earlier == specs.take(k as int),
                oc == specs[k as int],
                first_fault(specs, 0) == first_fault(specs, k as int),
                first_repeat(all_shorts(earlier), oc.opt_chars, 0) is None,
                names == oc.opt_strings,
                names == views_of(oc_exec.opt_strings@),
                seen_longs == all_longs(earlier),
                views_of(all_long_options@) == seen_longs + names.take(n as int),
                first_repeat(seen_longs, names, 0) == first_repeat(seen_longs, names, n as int),
            decreases oc_exec.opt_strings.len() - n,
        {
            let lng = &oc_exec.opt_strings[n];
            assert(names[n as int] == lng@);
            if has_string(&all_long_options, lng.as_str()) {
                let message = message_about(
                    "Duplicate definition of option '--",
                    lng.as_str(),
                    "'",
                );
                proof {
                    assert(first_repeat(seen_longs, names, n as int) == Some(lng@));
                    assert(option_fault(earlier, oc) == Some(message@));
                }
                return Err(message);
            }
            let ghost before = views_of(all_long_options@);
            all_long_options.push(lng.clone());
            assert(views_of(all_long_options@) =~= before.push(lng@));
            assert(views_of(all_long_options@) =~= seen_longs + names.take(n + 1));
            n += 1;
        }
        assert(names.take(n as int) == names);
        match check_target(opt_def_list, k) {
            Err(message) => {
                return Err(message);
            },
            Ok(_) => {},
        }
        match check_mode_value(opt_def_list, k) {
            Err(message) => {
                return Err(message);
            },
            Ok(_) => {},
        }
        assert(option_fault(earlier, oc) is None);
        k += 1;
    }
    Ok(())
}

/// Whether `c` occurs in `chars`.
fn vec_has_char(chars: &Vec<char>, c: char) -> (r: bool)
    ensures
        r == chars@.contains(c),
{
    let mut i: usize = 0;
    while i < chars.len()
        invariant
            i <= chars.len(),
            forall|j: int| 0 <= j < i ==> chars@[j] != c,
        decreases chars.len() - i,
    {
        if chars[i] == c {
            return true;
        }
        i += 1;
    }
    false
}

/// Whether two options may share their target: both are mode switches,
/// both assign a variable or both call a function, and their values
/// differ.
pub open spec fn may_share_target(a: OptConfigView, b: OptConfigView) -> bool {
    &&& a.opt_type is ModeSwitch
    &&& b.opt_type is ModeSwitch
    &&& a.is_target_function() == b.is_target_function()
    &&& !same_mode_value(a, b)
}

/// What holds of the options of a script: no short option and no long
/// option is defined twice, and two options share a target only where
/// they may.
pub open spec fn well_formed(specs: Seq<OptConfigView>) -> bool {
    &&& all_shorts(specs).no_duplicates()
    &&& all_longs(specs).no_duplicates()
    &&& forall|i: int, j: int|
        0 <= i < j < specs.len() && (#[trigger] specs[i]).target_name() == (
        #[trigger] specs[j]).target_name() ==> may_share_target(specs[i], specs[j])
}

proof fn lemma_no_repeat_among<T>(seen: Seq<T>, items: Seq<T>, from: int)
    requires
        0 <= from <= items.len(),
        first_repeat(seen, items, from) is None,
    ensures
        forall|j: int|
            from <= j < items.len() ==> !(seen + items.take(j)).contains(#[trigger] items[j]),
    decreases items.len() - from,
{
    if from < items.len() {
        lemma_no_repeat_among(seen, items, from + 1);
    }
}

proof fn lemma_no_repeat_keeps_distinct<T>(seen: Seq<T>, items: Seq<T>)
    requires
        seen.no_duplicates(),
        first_repeat(seen, items, 0) is None,
    ensures
        (seen + items).no_duplicates(),
{
    lemma_no_repeat_among(seen, items, 0);
    let all = seen + items;
    assert forall|i: int, j: int| 0 <= i < j < all.len() implies all[i] != all[j] by {
        if j >= seen.len() {
            let k = j - seen.len();
            let before = seen + items.take(k);
            assert(!before.contains(items[k]));
            assert(before[i] == all[i]);
        }
    }
}

proof fn lemma_fault_free_from(specs: Seq<OptConfigView>, from: int, k: int)
    requires
        0 <= from <= k < specs.len(),
        first_fault(specs, from) is None,
    ensures
        option_fault(specs.take(k), specs[k]) is None,
    decreases k - from,
{
    if from < k {
        lemma_fault_free_from(specs, from + 1, k);
    }
}

proof fn lemma_first_with_target(specs: Seq<OptConfigView>, name: Seq<char>)
    ensures
        0 <= first_with_target(specs, name) <= specs.len(),
        first_with_target(specs, name) < specs.len() ==> specs[first_with_target(
            specs,
            name,
        )].target_name() == name,
        forall|i: int|
            0 <= i < first_with_target(specs, name) ==> (#[trigger] specs[i]).target_name()
                != name,
    decreases specs.len(),
{
    if specs.len() > 0 && specs[0].target_name() != name {
        let rest = specs.drop_first();
        lemma_first_with_target(rest, name);
        assert forall|i: int| 0 <= i < first_with_target(specs, name) implies (
        #[trigger] specs[i]).target_name() != name by {
            if i > 0 {
                assert(specs[i] == rest[i - 1]);
            }
        }
    }
}

proof fn lemma_distinct_prefixes(specs: Seq<OptConfigView>, k: int)
    requires
        0 <= k <= specs.len(),
        first_fault(specs, 0) is None,
    ensures
        all_shorts(specs.take(k)).no_duplicates(),
        all_longs(specs.take(k)).no_duplicates(),
    decreases k,
{
    if k > 0 {
        lemma_distinct_prefixes(specs, k - 1);
        lemma_fault_free_from(specs, 0, k - 1);
        let earlier = specs.take(k - 1);
        let oc = specs[k - 1];
        assert(specs.take(k).drop_last() == earlier);
        assert(specs.take(k).last() == oc);
        lemma_no_repeat_keeps_distinct(all_shorts(earlier), oc.opt_chars);
        lemma_no_repeat_keeps_distinct(all_longs(earlier), oc.opt_strings);
    }
}

proof fn lemma_validated_is_well_formed(specs: Seq<OptConfigView>)
    requires
        validation_fault(specs) is None,
    ensures
        well_formed(specs),
{
    lemma_distinct_prefixes(specs, specs.len() as int);
    assert(specs.take(specs.len() as int) == specs);
    assert forall|i: int, j: int|
        0 <= i < j < specs.len() && (#[trigger] specs[i]).target_name() == (
        #[trigger] specs[j]).target_name() implies may_share_target(specs[i], specs[j]) by {
        let name = specs[i].target_name();
        // the later option against the first of that target
        lemma_fault_free_from(specs, 0, j);
        let before_j = specs.take(j);
        lemma_first_with_target(before_j, name);
        let first = first_with_target(before_j, name);
        assert(before_j[i] == specs[i]);
        assert(first <= i);
        assert(before_j[first] == specs[first]);
        assert(target_fault(before_j, specs[j]) is None);
        assert(mode_value_fault(before_j, specs[j]) is None);
        assert(!same_mode_value(before_j[i], specs[j]));
        // the earlier option against the first of that target
        if first < i {
            lemma_fault_free_from(specs, 0, i);
            let before_i = specs.take(i);
            lemma_first_with_target(before_i, name);
            let first_i = first_with_target(before_i, name);
            assert(before_i[first] == specs[first]);
            assert(first_i <= first);
            assert(before_i[first_i] == specs[first_i]);
            assert(before_j[first_i] == specs[first_i]);
            assert(first_i == first);
            assert(target_fault(before_i, specs[i]) is None);
        }
    }
}

proof fn lemma_distinct_has_no_repeat<T>(seen: Seq<T>, items: Seq<T>, from: int)
    requires
        0 <= from <= items.len(),
        (seen + items).no_duplicates(),
    ensures
        first_repeat(seen, items, from) is None,
    decreases items.len() - from,
{
    if from < items.len() {
        let all = seen + items;
        let before = seen + items.take(from);
        if before.contains(items[from]) {
            let i = choose|i: int| 0 <= i < before.len() && before[i] == items[from];
            assert(all[i] == before[i]);
            assert(all[seen.len() + from] == items[from]);
            assert(false);
        }
        lemma_distinct_has_no_repeat(seen, items, from + 1);
    }
}

proof fn lemma_well_formed_prefixes(specs: Seq<OptConfigView>, k: int)
    requires
        0 <= k <= specs.len(),
        well_formed(specs),
    ensures
        all_shorts(specs.take(k)).no_duplicates(),
        all_longs(specs.take(k)).no_duplicates(),
    decreases specs.len() - k,
{
    if k < specs.len() {
        lemma_well_formed_prefixes(specs, k + 1);
        let longer = specs.take(k + 1);
        assert(longer.drop_last() == specs.take(k));
        let shorts = all_shorts(specs.take(k));
        let more_shorts = all_shorts(longer);
        assert forall|i: int, j: int| 0 <= i < j < shorts.len() implies shorts[i]
            != shorts[j] by {
            assert(more_shorts[i] == shorts[i]);
            assert(more_shorts[j] == shorts[j]);
        }
        let longs = all_longs(specs.take(k));
        let more_longs = all_longs(longer);
        assert forall|i: int, j: int| 0 <= i < j < longs.len() implies longs[i] != longs[j] by {
            assert(more_longs[i] == longs[i]);
            assert(more_longs[j] == longs[j]);
        }
    } else {
        assert(specs.take(k) == specs);
    }
}

proof fn lemma_well_formed_has_no_fault(specs: Seq<OptConfigView>, from: int)
    requires
        0 <= from <= specs.len(),
        well_formed(specs),
    ensures
        first_fault(specs, from) is None,
    decreases specs.len() - from,
{
    if from < specs.len() {
        let earlier = specs.take(from);
        let oc = specs[from];
        lemma_well_formed_prefixes(specs, from + 1);
        assert(specs.take(from + 1).drop_last() == earlier);
        assert(specs.take(from + 1).last() == oc);
        lemma_distinct_has_no_repeat(all_shorts(earlier), oc.opt_chars, 0);
        lemma_distinct_has_no_repeat(all_longs(earlier), oc.opt_strings, 0);
        lemma_first_with_target(earlier, oc.target_name());
        let first = first_with_target(earlier, oc.target_name());
        if first < earlier.len() {
            assert(earlier[first] == specs[first]);
            assert(may_share_target(specs[first], specs[from]));
        }
        assert(target_fault(earlier, oc) is None);
        assert(mode_value_fault(earlier, oc) is None) by {
            if exists|i: int| 0 <= i < earlier.len() && same_mode_value(#[trigger] earlier[i], oc) {
                let i = choose|i: int|
                    0 <= i < earlier.len() && same_mode_value(#[trigger] earlier[i], oc);
                assert(earlier[i] == specs[i]);
                assert(may_share_target(specs[i], specs[from]));
            }
        }
        lemma_well_formed_has_no_fault(specs, from + 1);
    }
}

/// Validation finds a fault in every list of options that is not well
/// formed: it passes the well-formed lists and no others.
pub proof fn lemma_validation_is_well_formedness(specs: Seq<OptConfigView>)
    ensures
        validation_fault(specs) is None <==> well_formed(specs),
{
    if validation_fault(specs) is None {
        lemma_validated_is_well_formed(specs);
    }
    if well_formed(specs) {
        lemma_well_formed_has_no_fault(specs, 0);
    }
}

} // verus!
