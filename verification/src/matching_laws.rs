//! What holds of matching whatever the options and the arguments are.

use vstd::prelude::*;
use crate::arg_parser::{CmdLineElementView, TokenizerView};
use crate::matching::{MatchRules, MatchState, Step, any_required, assigned_ones, assignment,
    attached_value, carried_out, first_group_fault, first_match, group_fault,
    lemma_first_match_in_range, members, next_count, options_texts, u16_of_text};
use crate::opt_def::OptConfigView;
use crate::shell_code::VarValueView;
use crate::text::joined;

verus! {

/// Whether two tokenizers have the same left to read, in the same mode.
pub open spec fn same_rest(t1: TokenizerView, t2: TokenizerView) -> bool {
    &&& t1.posix == t2.posix
    &&& t1.args_only == t2.args_only
    &&& t1.left_over == t2.left_over
    &&& t1.unread() == t2.unread()
}

/// Whether two states differ at most in what their tokenizers have read
/// already.
pub open spec fn same_but_read(s1: MatchState, s2: MatchState) -> bool {
    &&& s1.specs == s2.specs
    &&& s1.code == s2.code
    &&& s1.arguments == s2.arguments
    &&& s1.after_separator == s2.after_separator
    &&& same_rest(s1.tokens, s2.tokens)
}

proof fn lemma_unread_first(t: TokenizerView)
    ensures
        t.idx < t.args.len() <==> t.unread().len() > 0,
        t.idx < t.args.len() ==> t.unread()[0] == t.args[t.idx as int]
            && t.advanced().unread() == t.unread().drop_first(),
{
    if t.idx < t.args.len() {
        assert(t.advanced().unread() =~= t.unread().drop_first());
    }
}

proof fn lemma_next_same_rest(t1: TokenizerView, t2: TokenizerView)
    requires
        same_rest(t1, t2),
    ensures
        t1.next().0 == t2.next().0,
        same_rest(t1.next().1, t2.next().1),
        t1.option_argument().0 == t2.option_argument().0,
        same_rest(t1.option_argument().1, t2.option_argument().1),
{
    lemma_unread_first(t1);
    lemma_unread_first(t2);
}

proof fn lemma_step_same_but_read(
    s1: MatchState,
    s2: MatchState,
    rules: MatchRules,
    el: CmdLineElementView,
)
    requires
        same_but_read(s1, s2),
    ensures
        match (s1.step(rules, el), s2.step(rules, el)) {
            (Step::Halt(e1), Step::Halt(e2)) => e1 == e2,
            (Step::Continue(n1), Step::Continue(n2)) => same_but_read(n1, n2),
            _ => false,
        },
{
    lemma_next_same_rest(s1.tokens, s2.tokens);
}

/// How matching ends depends only on what is left to read, not on what
/// was read before.
pub proof fn lemma_run_same_but_read(s1: MatchState, s2: MatchState, rules: MatchRules)
    requires
        same_but_read(s1, s2),
    ensures
        s1.run(rules) == s2.run(rules),
    decreases s1.tokens.remaining().0, s1.tokens.remaining().1,
{
    lemma_next_same_rest(s1.tokens, s2.tokens);
    match s1.tokens.next() {
        (None, _) => {},
        (Some(el), tokens1) => {
            let tokens2 = s2.tokens.next().1;
            let r1 = MatchState { tokens: tokens1, ..s1 };
            let r2 = MatchState { tokens: tokens2, ..s2 };
            lemma_step_same_but_read(r1, r2, rules, el);
            match (r1.step(rules, el), r2.step(rules, el)) {
                (Step::Continue(n1), Step::Continue(n2)) => {
                    lemma_run_same_but_read(n1, n2, rules);
                },
                _ => {},
            }
        },
    }
}

/// The arguments with the one at `at`, a group of short options, written
/// as two: its first option alone, and the rest as a group of its own.
pub open spec fn split_group(args: Seq<Seq<char>>, at: int) -> Seq<Seq<char>> {
    args.take(at) + seq![args[at].take(2), seq!['-'] + args[at].skip(2)] + args.skip(at + 1)
}

/// Whether the short option `c` takes an argument: whether the option
/// that it names is an assignment.
pub open spec fn takes_argument(specs: Seq<OptConfigView>, c: char) -> bool {
    let at = first_match(specs, CmdLineElementView::ShortOption(c));
    at < specs.len() && specs[at].opt_type is Assignment
}

/// Short options may be combined: a group `-abc` is matched as `-a -bc`
/// is, and so, one step after the other, as `-a -b -c` is, as long as the
/// option that is split off takes no argument. The last option of a
/// group may take one: it finds it in the next argument either way.
pub proof fn lemma_combined_as_separate(st: MatchState, rules: MatchRules)
    requires
        !st.tokens.args_only,
        st.tokens.left_over.len() == 0,
        st.tokens.idx < st.tokens.args.len(),
        st.tokens.args[st.tokens.idx as int].len() > 2,
        st.tokens.args[st.tokens.idx as int][0] == '-',
        st.tokens.args[st.tokens.idx as int][1] != '-',
        st.tokens.args[st.tokens.idx as int][2] != '-',
        !takes_argument(st.specs, st.tokens.args[st.tokens.idx as int][1]),
    ensures
        st.run(rules) == (MatchState {
            tokens: TokenizerView {
                args: split_group(st.tokens.args, st.tokens.idx as int),
                ..st.tokens
            },
            ..st
        }).run(rules),
{
    let t = st.tokens;
    let at = t.idx as int;
    let group = t.args[at];
    let c = group[1];
    let el = CmdLineElementView::ShortOption(c);
    let split = split_group(t.args, at);
    let t2 = TokenizerView { args: split, ..t };
    let st2 = MatchState { tokens: t2, ..st };
    assert(split[at] == group.take(2));
    assert(split[at + 1] == seq!['-'] + group.skip(2));
    assert(group.take(2).skip(2) =~= Seq::<char>::empty());
    // the first option of the group, read from either form
    let a1 = t.next().1;
    let a2 = t2.next().1;
    assert(t.next().0 == Some(el));
    assert(t2.next().0 == Some(el));
    assert(a1 == TokenizerView { idx: t.idx + 1, left_over: group.skip(2), ..t });
    assert(a2 == TokenizerView { idx: t.idx + 1, left_over: Seq::<char>::empty(), ..t2 });
    let r1 = MatchState { tokens: a1, ..st };
    let r2 = MatchState { tokens: a2, ..st2 };
    assert(st.run(rules) == match r1.step(rules, el) {
        Step::Halt(end) => end,
        Step::Continue(next) => next.run(rules),
    });
    assert(st2.run(rules) == match r2.step(rules, el) {
        Step::Halt(end) => end,
        Step::Continue(next) => next.run(rules),
    });
    let found = first_match(st.specs, el);
    if found < st.specs.len() {
        let oc = st.specs[found];
        assert(carried_out(oc, a1, el).0 == carried_out(oc, a2, el).0);
        assert(carried_out(oc, a1, el).1 == a1);
        assert(carried_out(oc, a2, el).1 == a2);
    }
    match (r1.step(rules, el), r2.step(rules, el)) {
        (Step::Halt(e1), Step::Halt(e2)) => {
            assert(e1 == e2);
        },
        (Step::Continue(n1), Step::Continue(n2)) => {
            assert(n1.tokens == a1);
            assert(n2.tokens == a2);
            assert(n1 == MatchState { tokens: a1, ..n2 });
            // the second option of the group, read from either form
            let second = CmdLineElementView::ShortOption(group[2]);
            let rest = seq!['-'] + group.skip(2);
            assert(rest[1] == group[2]);
            assert(rest.skip(2) =~= group.skip(2).drop_first());
            let b1 = a1.next().1;
            let b2 = a2.next().1;
            assert(a1.next().0 == Some(second));
            assert(a2.next().0 == Some(second));
            assert(b1.unread() =~= b2.unread()) by {
                assert(t.args.skip(at + 1) =~= split.skip(at + 2));
            }
            let m1 = MatchState { tokens: b1, ..n1 };
            let m2 = MatchState { tokens: b2, ..n2 };
            assert(n1.run(rules) == match m1.step(rules, second) {
                Step::Halt(end) => end,
                Step::Continue(next) => next.run(rules),
            });
            assert(n2.run(rules) == match m2.step(rules, second) {
                Step::Halt(end) => end,
                Step::Continue(next) => next.run(rules),
            });
            lemma_step_same_but_read(m1, m2, rules, second);
            match (m1.step(rules, second), m2.step(rules, second)) {
                (Step::Continue(k1), Step::Continue(k2)) => {
                    lemma_run_same_but_read(k1, k2, rules);
                },
                _ => {},
            }
        },
        _ => {
            assert(false);
        },
    }
}

/// A counter writes its count at every occurrence: an occurrence without
/// a value counts one up and hands the new count on at once, so that
/// `-vvv` writes three counts, each one more than the one before. Only at
/// 65535, the greatest count, a counter stays where it is.
pub proof fn lemma_counter_writes_every_occurrence(st: MatchState, el: CmdLineElementView)
    requires
        first_match(st.specs, el) < st.specs.len(),
        st.specs[first_match(st.specs, el)].opt_type is Counter,
        !st.specs[first_match(st.specs, el)].singleton,
        attached_value(el) is None,
    ensures
        ({
            let at = first_match(st.specs, el);
            let oc = st.specs[at];
            let count = next_count(oc.count_value);
            st.option_step(el) == Step::Continue(
                MatchState {
                    specs: st.specs.update(
                        at,
                        OptConfigView { assigned: true, count_value: count, ..oc },
                    ),
                    code: st.code.push(
                        assignment(oc.target(), VarValueView::IntValue(count as int)),
                    ),
                    ..st
                },
            )
        }),
{
    lemma_first_match_in_range(st.specs, el);
}

/// A value that is attached to a counter replaces its count: the count
/// that is written, and that later occurrences count on from, is the
/// number that the value stands for.
pub proof fn lemma_counter_value_replaces_count(st: MatchState, el: CmdLineElementView, n: nat)
    requires
        first_match(st.specs, el) < st.specs.len(),
        st.specs[first_match(st.specs, el)].opt_type is Counter,
        !st.specs[first_match(st.specs, el)].singleton,
        attached_value(el) is Some,
        u16_of_text(attached_value(el)->0) == Some(n),
    ensures
        ({
            let at = first_match(st.specs, el);
            let oc = st.specs[at];
            st.option_step(el) == Step::Continue(
                MatchState {
                    specs: st.specs.update(
                        at,
                        OptConfigView { assigned: true, count_value: n, ..oc },
                    ),
                    code: st.code.push(assignment(oc.target(), VarValueView::IntValue(n as int))),
                    ..st
                },
            )
        }),
{
    lemma_first_match_in_range(st.specs, el);
}

/// A mode switch that is given writes exactly one assignment: that of its
/// fixed value to its target.
pub proof fn lemma_mode_switch_writes_one_assignment(st: MatchState, el: CmdLineElementView)
    requires
        first_match(st.specs, el) < st.specs.len(),
        st.specs[first_match(st.specs, el)].opt_type is ModeSwitch,
        !st.specs[first_match(st.specs, el)].singleton,
        !st.specs[first_match(st.specs, el)].assigned,
        attached_value(el) is None,
    ensures
        ({
            let at = first_match(st.specs, el);
            let oc = st.specs[at];
            st.option_step(el) == Step::Continue(
                MatchState {
                    specs: st.specs.update(at, OptConfigView { assigned: true, ..oc }),
                    code: st.code.push(
                        assignment(
                            oc.target(),
                            VarValueView::StringValue(oc.opt_type->ModeSwitch_1),
                        ),
                    ),
                    ..st
                },
            )
        }),
{
    lemma_first_match_in_range(st.specs, el);
}

proof fn lemma_member_is_held(specs: Seq<OptConfigView>, name: Seq<char>, i: int)
    requires
        0 <= i < specs.len(),
        specs[i].target_name() == name,
    ensures
        members(specs, name).len() >= 1,
        specs[i].assigned ==> assigned_ones(members(specs, name)).len() >= 1,
        specs[i].required ==> any_required(members(specs, name)),
    decreases specs.len(),
{
    let front = specs.drop_last();
    if i < specs.len() - 1 {
        lemma_member_is_held(front, name, i);
    }
    if specs.last().target_name() == name {
        assert(members(front, name).push(specs.last()).drop_last() == members(front, name));
    }
}

proof fn lemma_two_members_are_held(specs: Seq<OptConfigView>, name: Seq<char>, i: int, j: int)
    requires
        0 <= i < j < specs.len(),
        specs[i].target_name() == name,
        specs[j].target_name() == name,
    ensures
        members(specs, name).len() >= 2,
        specs[i].assigned && specs[j].assigned ==> assigned_ones(members(specs, name)).len()
            >= 2,
    decreases specs.len(),
{
    let front = specs.drop_last();
    if j < specs.len() - 1 {
        lemma_two_members_are_held(front, name, i, j);
    } else {
        lemma_member_is_held(front, name, i);
    }
    if specs.last().target_name() == name {
        assert(members(front, name).push(specs.last()).drop_last() == members(front, name));
    }
}

proof fn lemma_none_assigned(specs: Seq<OptConfigView>, name: Seq<char>)
    requires
        forall|k: int|
            0 <= k < specs.len() && (#[trigger] specs[k]).target_name() == name
                ==> !specs[k].assigned,
    ensures
        assigned_ones(members(specs, name)).len() == 0,
    decreases specs.len(),
{
    if specs.len() > 0 {
        let front = specs.drop_last();
        assert forall|k: int|
            0 <= k < front.len() && (#[trigger] front[k]).target_name() == name
                implies !front[k].assigned by {
            assert(front[k] == specs[k]);
        }
        lemma_none_assigned(front, name);
        if specs.last().target_name() == name {
            assert(members(front, name).push(specs.last()).drop_last() == members(front, name));
        }
    }
}

proof fn lemma_one_assigned(specs: Seq<OptConfigView>, name: Seq<char>, i: int)
    requires
        0 <= i < specs.len(),
        specs[i].target_name() == name,
        specs[i].assigned,
        forall|k: int|
            0 <= k < specs.len() && k != i && (#[trigger] specs[k]).target_name() == name
                ==> !specs[k].assigned,
    ensures
        assigned_ones(members(specs, name)).len() == 1,
    decreases specs.len(),
{
    let front = specs.drop_last();
    if i == specs.len() - 1 {
        assert forall|k: int|
            0 <= k < front.len() && (#[trigger] front[k]).target_name() == name
                implies !front[k].assigned by {
            assert(front[k] == specs[k]);
        }
        lemma_none_assigned(front, name);
    } else {
        assert forall|k: int|
            0 <= k < front.len() && k != i && (#[trigger] front[k]).target_name() == name
                implies !front[k].assigned by {
            assert(front[k] == specs[k]);
        }
        lemma_one_assigned(front, name, i);
        assert(specs.last() == specs[specs.len() - 1]);
    }
    if specs.last().target_name() == name {
        assert(members(front, name).push(specs.last()).drop_last() == members(front, name));
    }
}

proof fn lemma_group_fault_is_found(specs: Seq<OptConfigView>, from: int, i: int)
    requires
        0 <= from <= i < specs.len(),
        group_fault(members(specs, specs[i].target_name())) is Some,
    ensures
        first_group_fault(specs, from) is Some,
    decreases i - from,
{
    if from < i && group_fault(members(specs, specs[from].target_name())) is None {
        lemma_group_fault_is_found(specs, from + 1, i);
    }
}

/// Two options that share a target exclude each other: where both were
/// given, matching fails at the end of the command line, and the fault
/// of their group is that its options are mutually exclusive.
pub proof fn lemma_shared_target_excludes(st: MatchState, i: int, j: int)
    requires
        0 <= i < j < st.specs.len(),
        st.specs[i].target_name() == st.specs[j].target_name(),
        st.specs[i].assigned,
        st.specs[j].assigned,
    ensures
        st.finish().result is Err,
        ({
            let group = members(st.specs, st.specs[i].target_name());
            group_fault(group) == Some(
                "Options are mutually exclusive: "@ + joined(
                    options_texts(assigned_ones(group)),
                    ", "@,
                ),
            )
        }),
{
    lemma_two_members_are_held(st.specs, st.specs[i].target_name(), i, j);
    lemma_group_fault_is_found(st.specs, 0, i);
}

/// Of two options that share a target one must be given if either is
/// required: where none of their group was given, matching fails at the
/// end of the command line, and the fault of their group is that one of
/// its options is required.
pub proof fn lemma_shared_target_requires_one(st: MatchState, i: int, j: int)
    requires
        0 <= i < j < st.specs.len(),
        st.specs[i].target_name() == st.specs[j].target_name(),
        st.specs[i].required || st.specs[j].required,
        forall|k: int|
            0 <= k < st.specs.len() && (#[trigger] st.specs[k]).target_name()
                == st.specs[i].target_name() ==> !st.specs[k].assigned,
    ensures
        st.finish().result is Err,
        ({
            let group = members(st.specs, st.specs[i].target_name());
            group_fault(group) == Some(
                "One of the following options is required: "@ + joined(
                    options_texts(group),
                    ", "@,
                ),
            )
        }),
{
    let name = st.specs[i].target_name();
    lemma_two_members_are_held(st.specs, name, i, j);
    lemma_none_assigned(st.specs, name);
    lemma_member_is_held(st.specs, name, i);
    lemma_member_is_held(st.specs, name, j);
    lemma_group_fault_is_found(st.specs, 0, i);
}

/// Where exactly one of the options that share a target was given, their
/// group has no fault.
pub proof fn lemma_shared_target_accepts_one(specs: Seq<OptConfigView>, i: int)
    requires
        0 <= i < specs.len(),
        specs[i].assigned,
        forall|k: int|
            0 <= k < specs.len() && k != i && (#[trigger] specs[k]).target_name()
                == specs[i].target_name() ==> !specs[k].assigned,
    ensures
        group_fault(members(specs, specs[i].target_name())) is None,
{
    lemma_one_assigned(specs, specs[i].target_name(), i);
}

} // verus!
