//! The completion engine: descends the matched subcommand chain and decides
//! which candidates apply at the deepest node.
use vstd::prelude::*;
use crate::model::{
    has_raw_with_prefix, is_set, long_form, names_match, short_form, takes_value, ArgKind, ArgSpec,
    ArgState, CommandSpec, ParseResult,
};
use crate::suggest::Suggester;
use crate::text::{has_prefix, is_flag_like, push_char, same_text, starts_like_flag, views};

verus! {

/// The first argument from index `i` on whose name is `prev` and which takes
/// a value.
pub open spec fn pending_value_from(args: Seq<ArgSpec>, prev: Seq<char>, i: int) -> Option<int>
    decreases args.len() - i,
{
    if i < 0 || i >= args.len() {
        None
    } else if names_match(args[i], prev) && takes_value(args[i].kind) {
        Some(i)
    } else {
        pending_value_from(args, prev, i + 1)
    }
}

/// The flag forms that `a` declares: `--long`, then `-s`.
pub open spec fn flag_forms(a: ArgSpec) -> Seq<Seq<char>> {
    (match a.long_name {
        Some(l) => seq![long_form(l@)],
        None => seq![],
    }) + (match a.short_name {
        Some(c) => seq![short_form(c)],
        None => seq![],
    })
}

/// The flag forms of every argument that was not given yet, in declaration
/// order.
pub open spec fn flag_candidates(args: Seq<ArgSpec>, states: Seq<ArgState>) -> Seq<Seq<char>>
    decreases args.len(),
{
    if args.len() == 0 {
        seq![]
    } else {
        flag_candidates(args.drop_last(), states) + if is_set(states, args.last().id@) {
            seq![]
        } else {
            flag_forms(args.last())
        }
    }
}

/// A positional argument that is still open, or that the user is retyping:
/// one of its values starts with a non-empty `tc`.
pub open spec fn positional_active(a: ArgSpec, states: Seq<ArgState>, tc: Seq<char>) -> bool {
    a.kind is Positional && (!is_set(states, a.id@) || (tc.len() > 0 && has_raw_with_prefix(
        states,
        a.id@,
        tc,
    )))
}

/// The first active positional argument from index `i` on.
pub open spec fn first_active_from(args: Seq<ArgSpec>, states: Seq<ArgState>, tc: Seq<char>, i: int) -> Option<int>
    decreases args.len() - i,
{
    if i < 0 || i >= args.len() {
        None
    } else if positional_active(args[i], states, tc) {
        Some(i)
    } else {
        first_active_from(args, states, tc, i + 1)
    }
}

/// The first child named `name` from index `i` on.
pub open spec fn child_from(children: Seq<CommandSpec>, name: Seq<char>, i: int) -> Option<int>
    decreases children.len() - i,
{
    if i < 0 || i >= children.len() {
        None
    } else if children[i].name@ == name {
        Some(i)
    } else {
        child_from(children, name, i + 1)
    }
}

/// The names of the child subcommands, in declaration order.
pub open spec fn subcommand_names(children: Seq<CommandSpec>) -> Seq<Seq<char>> {
    children.map_values(|c: CommandSpec| c.name@)
}

/// What the positional step offers for the argument at index `p`: nothing
/// when `tc` looks like a flag, else the suggester's candidates.
pub open spec fn positional_values<S: Suggester>(s: S, node: CommandSpec, p: int, tc: Seq<char>) -> Seq<Seq<char>> {
    if is_flag_like(tc) {
        seq![]
    } else {
        s.suggestions(node.name@, node.arguments@[p].id@, tc)
    }
}

/// The candidates produced at `node` itself, before filtering.
pub open spec fn node_completions<S: Suggester>(
    prev: Seq<char>,
    tc: Seq<char>,
    node: CommandSpec,
    states: Seq<ArgState>,
    s: S,
) -> Seq<Seq<char>> {
    let args = node.arguments@;
    match pending_value_from(args, prev, 0) {
        Some(i) => s.suggestions(node.name@, args[i].id@, tc),
        None => flag_candidates(args, states) + match first_active_from(args, states, tc, 0) {
            Some(p) => positional_values(s, node, p, tc),
            None => subcommand_names(node.subcommands@),
        },
    }
}

/// The candidates produced for a request, before filtering: those of the
/// deepest node of the matched subcommand chain. A matched subcommand that
/// the node does not declare makes the node a leaf with an empty parse.
pub open spec fn completions<S: Suggester>(
    prev: Seq<char>,
    tc: Seq<char>,
    node: CommandSpec,
    parse: ParseResult,
    s: S,
) -> Seq<Seq<char>>
    decreases parse,
{
    match parse.subcommand {
        Some((name, sub)) => match child_from(node.subcommands@, name@, 0) {
            Some(k) => completions(prev, tc, node.subcommands@[k], *sub, s),
            None => node_completions(prev, tc, node, seq![], s),
        },
        None => node_completions(prev, tc, node, parse.args@, s),
    }
}

proof fn lemma_pending_found(args: Seq<ArgSpec>, prev: Seq<char>, k: int, i: int)
    requires
        0 <= k <= i < args.len(),
        names_match(args[i], prev),
        takes_value(args[i].kind),
    ensures
        pending_value_from(args, prev, k) matches Some(j) && k <= j <= i && names_match(args[j], prev)
            && takes_value(args[j].kind),
    decreases i - k,
{
    if k < i && !(names_match(args[k], prev) && takes_value(args[k].kind)) {
        lemma_pending_found(args, prev, k + 1, i);
    }
}

proof fn lemma_active_found(args: Seq<ArgSpec>, states: Seq<ArgState>, tc: Seq<char>, k: int, q: int)
    requires
        0 <= k <= q < args.len(),
        positional_active(args[q], states, tc),
    ensures
        first_active_from(args, states, tc, k) matches Some(p) && k <= p <= q && args[p].kind is Positional,
    decreases q - k,
{
    if k < q && !positional_active(args[k], states, tc) {
        lemma_active_found(args, states, tc, k + 1, q);
    }
}

/// When `prev` is the long or short form of an argument of `node` that takes
/// a value, `node` offers exactly what the suggester gives for such an
/// argument (the first one declared), and no flag or subcommand name besides.
pub proof fn lemma_pending_value_exclusive<S: Suggester>(
    prev: Seq<char>,
    tc: Seq<char>,
    node: CommandSpec,
    states: Seq<ArgState>,
    s: S,
    i: int,
)
    requires
        0 <= i < node.arguments@.len(),
        names_match(node.arguments@[i], prev),
        takes_value(node.arguments@[i].kind),
    ensures
        exists|j: int|
            0 <= j <= i && names_match(#[trigger] node.arguments@[j], prev) && takes_value(
                node.arguments@[j].kind,
            ) && node_completions(prev, tc, node, states, s) == s.suggestions(
                node.name@,
                node.arguments@[j].id@,
                tc,
            ),
{
    lemma_pending_found(node.arguments@, prev, 0, i);
    let j = pending_value_from(node.arguments@, prev, 0)->Some_0;
    assert(names_match(node.arguments@[j], prev));
}

/// While a positional argument `q` of `node` is unfilled, no subcommand
/// name is offered: unless a pending flag value takes over, `node` offers its
/// flags followed by what the positional step yields for `q` or for an
/// earlier positional argument.
pub proof fn lemma_positional_blocks_subcommands<S: Suggester>(
    prev: Seq<char>,
    tc: Seq<char>,
    node: CommandSpec,
    states: Seq<ArgState>,
    s: S,
    q: int,
)
    requires
        0 <= q < node.arguments@.len(),
        node.arguments@[q].kind is Positional,
        !is_set(states, node.arguments@[q].id@),
    ensures
        pending_value_from(node.arguments@, prev, 0) is None ==> exists|p: int|
            0 <= p <= q && (#[trigger] node.arguments@[p]).kind is Positional && node_completions(
                prev,
                tc,
                node,
                states,
                s,
            ) == flag_candidates(node.arguments@, states) + positional_values(s, node, p, tc),
{
    lemma_active_found(node.arguments@, states, tc, 0, q);
    let p = first_active_from(node.arguments@, states, tc, 0)->Some_0;
    assert(node.arguments@[p].kind is Positional);
}

fn long_flag(l: &String) -> (r: String)
    ensures
        r@ == long_form(l@),
{
    let mut s = String::new();
    push_char(&mut s, '-');
    push_char(&mut s, '-');
    s.append(l.as_str());
    assert(s@ =~= long_form(l@));
    s
}

fn short_flag(c: char) -> (r: String)
    ensures
        r@ == short_form(c),
{
    let mut s = String::new();
    push_char(&mut s, '-');
    push_char(&mut s, c);
    assert(s@ =~= short_form(c));
    s
}

fn names_match_exec(a: &ArgSpec, prev: &str) -> (r: bool)
    ensures
        r == names_match(*a, prev@),
{
    let long_hit = match &a.long_name {
        Some(l) => {
            let f = long_flag(l);
            same_text(f.as_str(), prev)
        },
        None => false,
    };
    let short_hit = match a.short_name {
        Some(c) => {
            let f = short_flag(c);
            same_text(f.as_str(), prev)
        },
        None => false,
    };
    long_hit || short_hit
}

fn is_set_exec(states: &Vec<ArgState>, id: &str) -> (r: bool)
    ensures
        r == is_set(states@, id@),
{
    let mut k: usize = 0;
    while k < states.len()
        invariant
            k <= states.len(),
            forall|j: int|
                0 <= j < k ==> !((#[trigger] states@[j]).id@ == id@ && states@[j].explicitly_set),
        decreases states.len() - k,
    {
        if states[k].explicitly_set && same_text(states[k].id.as_str(), id) {
            return true;
        }
        k = k + 1;
    }
    false
}

fn has_raw_with_prefix_exec(states: &Vec<ArgState>, id: &str, p: &str) -> (r: bool)
    ensures
        r == has_raw_with_prefix(states@, id@, p@),
{
    let mut k: usize = 0;
    while k < states.len()
        invariant
            k <= states.len(),
            forall|a: int, j: int|
                0 <= a < k && (#[trigger] states@[a]).id@ == id@ && 0 <= j
                    < states@[a].raw_values@.len() ==> !p@.is_prefix_of(
                    #[trigger] states@[a].raw_values@[j]@,
                ),
        decreases states.len() - k,
    {
        if same_text(states[k].id.as_str(), id) {
            let vals = &states[k].raw_values;
            let mut j: usize = 0;
            while j < vals.len()
                invariant
                    j <= vals.len(),
                    k < states.len(),
                    states@[k as int].id@ == id@,
                    vals@ == states@[k as int].raw_values@,
                    forall|b: int| 0 <= b < j ==> !p@.is_prefix_of(#[trigger] vals@[b]@),
                decreases vals.len() - j,
            {
                if has_prefix(vals[j].as_str(), p) {
                    assert(states@[k as int].raw_values@[j as int]@ == vals@[j as int]@);
                    assert(p@.is_prefix_of(states@[k as int].raw_values@[j as int]@));
                    return true;
                }
                j = j + 1;
            }
        }
        k = k + 1;
    }
    false
}

fn flag_candidates_exec(args: &Vec<ArgSpec>, states: &Vec<ArgState>) -> (r: Vec<String>)
    ensures
        views(r@) == flag_candidates(args@, states@),
{
    let mut out: Vec<String> = Vec::new();
    let mut i: usize = 0;
    while i < args.len()
        invariant
            i <= args.len(),
            views(out@) == flag_candidates(args@.take(i as int), states@),
        decreases args.len() - i,
    {
        let a = &args[i];
        proof {
            let taken = args@.take(i as int + 1);
            assert(taken.drop_last() =~= args@.take(i as int));
            assert(taken.last() == *a);
        }
        if !is_set_exec(states, a.id.as_str()) {
            let ghost before = out@;
            if let Some(l) = &a.long_name {
                out.push(long_flag(l));
            }
            let ghost mid = out@;
            if let Some(c) = a.short_name {
                out.push(short_flag(c));
            }
            assert(views(out@) =~= views(before) + flag_forms(*a)) by {
                assert(views(mid) =~= views(before) + match a.long_name {
                    Some(l) => seq![long_form(l@)],
                    None => seq![],
                });
            }
        } else {
            assert(views(out@) =~= views(out@) + seq![]);
        }
        i = i + 1;
    }
    assert(args@.take(args.len() as int) =~= args@);
    out
}

fn find_child(children: &Vec<CommandSpec>, name: &String) -> (r: Option<usize>)
    ensures
        r matches Some(k) ==> k < children@.len() && child_from(children@, name@, 0) == Some(
            k as int,
        ),
        r is None ==> child_from(children@, name@, 0) is None,
{
    let mut i: usize = 0;
    while i < children.len()
        invariant
            i <= children.len(),
            child_from(children@, name@, 0) == child_from(children@, name@, i as int),
        decreases children.len() - i,
    {
        if same_text(children[i].name.as_str(), name.as_str()) {
            return Some(i);
        }
        i = i + 1;
    }
    None
}

/// The candidates produced at `command` itself, given what was parsed there.
fn node_candidates<S: Suggester>(
    prev: &str,
    to_complete: &str,
    command: &CommandSpec,
    states: &Vec<ArgState>,
    suggester: &S,
) -> (r: Vec<String>)
    ensures
        views(r@) == node_completions(prev@, to_complete@, *command, states@, *suggester),
{
    let args = &command.arguments;
    // a flag that takes a value was just typed: only its values apply
    let mut i: usize = 0;
    while i < args.len()
        invariant
            i <= args.len(),
            args@ == command.arguments@,
            pending_value_from(args@, prev@, 0) == pending_value_from(args@, prev@, i as int),
        decreases args.len() - i,
    {
        let a = &args[i];
        if names_match_exec(a, prev) && (a.kind == ArgKind::ValueFlag || a.kind == ArgKind::AppendFlag) {
            return suggester.suggest(command.name.as_str(), a.id.as_str(), to_complete);
        }
        i = i + 1;
    }
    let mut completions = flag_candidates_exec(args, states);
    let ghost flags = completions@;
    // the first open positional blocks later positionals and subcommands
    let mut p: usize = 0;
    while p < args.len()
        invariant
            p <= args.len(),
            args@ == command.arguments@,
            completions@ == flags,
            views(flags) == flag_candidates(args@, states@),
            pending_value_from(args@, prev@, 0) is None,
            first_active_from(args@, states@, to_complete@, 0) == first_active_from(
                args@,
                states@,
                to_complete@,
                p as int,
            ),
        decreases args.len() - p,
    {
        let a = &args[p];
        let active = a.kind == ArgKind::Positional && (!is_set_exec(states, a.id.as_str()) || (
        to_complete.unicode_len() > 0 && has_raw_with_prefix_exec(
            states,
            a.id.as_str(),
            to_complete,
        )));
        if active {
            if !starts_like_flag(to_complete) {
                let mut values = suggester.suggest(command.name.as_str(), a.id.as_str(), to_complete);
                let ghost vs = values@;
                completions.append(&mut values);
                assert(views(completions@) =~= views(flags) + views(vs));
            } else {
                assert(views(completions@) =~= views(flags) + seq![]);
            }
            return completions;
        }
        p = p + 1;
    }
    let subs = &command.subcommands;
    let mut k: usize = 0;
    while k < subs.len()
        invariant
            k <= subs.len(),
            subs@ == command.subcommands@,
            args@ == command.arguments@,
            pending_value_from(args@, prev@, 0) is None,
            first_active_from(args@, states@, to_complete@, 0) is None,
            views(flags) == flag_candidates(args@, states@),
            views(completions@) =~= views(flags) + subcommand_names(subs@).take(k as int),
        decreases subs.len() - k,
    {
        let ghost before = completions@;
        let name = subs[k].name.clone();
        completions.push(name);
        assert(views(completions@) =~= views(before).push(name@));
        assert(subcommand_names(subs@).take(k as int + 1) =~= subcommand_names(subs@).take(
            k as int,
        ).push(name@));
        k = k + 1;
    }
    assert(subcommand_names(subs@).take(subs.len() as int) =~= subcommand_names(subs@));
    completions
}

/// Descends through every matched subcommand to the deepest node, and there
/// produces the completion candidates for `to_complete`, with `prev` the
/// token before it.
pub fn recurse_completions<S: Suggester>(
    prev: &str,
    to_complete: &str,
    command: &CommandSpec,
    parse: &ParseResult,
    suggester: &S,
) -> (r: Vec<String>)
    ensures
        views(r@) == completions(prev@, to_complete@, *command, *parse, *suggester),
    decreases parse,
{
    match &parse.subcommand {
        Some((name, sub)) => match find_child(&command.subcommands, name) {
            Some(k) => recurse_completions(prev, to_complete, &command.subcommands[k], &**sub, suggester),
            None => {
                let empty: Vec<ArgState> = Vec::new();
                node_candidates(prev, to_complete, command, &empty, suggester)
            },
        },
        None => node_candidates(prev, to_complete, command, &parse.args, suggester),
    }
}

} // verus!
