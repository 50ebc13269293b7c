//! The command specification tree and the parse result that the completion
//! engine reads.
use vstd::prelude::*;

verus! {

/// How an argument takes its values.
#[derive(Clone, Copy, Debug, PartialEq, Eq, Structural)]
pub enum ArgKind {
    /// Identified by position; has neither a long nor a short name.
    Positional,
    /// A toggle that never takes a following value.
    BooleanFlag,
    /// A flag that consumes the following token as its value.
    ValueFlag,
    /// Like `ValueFlag`, but may be given several times.
    AppendFlag,
}

/// One declared argument of a command.
#[derive(Debug)]
pub struct ArgSpec {
    /// Unique within the owning command.
    pub id: String,
    /// Long name, without the leading `--`.
    pub long_name: Option<String>,
    /// Short name, without the leading `-`.
    pub short_name: Option<char>,
    pub kind: ArgKind,
}

/// A node of the command tree: the tool itself or one of its subcommands.
pub struct CommandSpec {
    pub name: String,
    pub arguments: Vec<ArgSpec>,
    pub subcommands: Vec<CommandSpec>,
}

/// What the parser recorded for one argument.
#[derive(Debug)]
pub struct ArgState {
    pub id: String,
    /// The argument was given on the command line (for a toggle: its state
    /// differs from the default).
    pub explicitly_set: bool,
    /// The raw values that were given for it.
    pub raw_values: Vec<String>,
}

/// The parse of the tokens typed so far, at one node of the command tree.
pub struct ParseResult {
    pub args: Vec<ArgState>,
    /// The subcommand that was recognized below this node, with its own
    /// parse, if any.
    pub subcommand: Option<(String, Box<ParseResult>)>,
}

impl ParseResult {
    /// A parse in which nothing was given.
    pub fn empty() -> (r: ParseResult)
        ensures
            r.args@.len() == 0,
            r.subcommand is None,
    {
        ParseResult { args: Vec::new(), subcommand: None }
    }
}

/// `--name`.
pub open spec fn long_form(l: Seq<char>) -> Seq<char> {
    seq!['-', '-'] + l
}

/// `-c`.
pub open spec fn short_form(c: char) -> Seq<char> {
    seq!['-', c]
}

/// The token `prev` is the long or the short form of `a`.
pub open spec fn names_match(a: ArgSpec, prev: Seq<char>) -> bool {
    (a.long_name matches Some(l) && prev == long_form(l@)) || (a.short_name matches Some(c)
        && prev == short_form(c))
}

/// The argument consumes a following value.
pub open spec fn takes_value(k: ArgKind) -> bool {
    k is ValueFlag || k is AppendFlag
}

/// The argument `id` was given explicitly.
pub open spec fn is_set(states: Seq<ArgState>, id: Seq<char>) -> bool {
    exists|k: int| 0 <= k < states.len() && (#[trigger] states[k]).id@ == id && states[k].explicitly_set
}

/// One of the raw values recorded for `id` starts with `p`.
pub open spec fn has_raw_with_prefix(states: Seq<ArgState>, id: Seq<char>, p: Seq<char>) -> bool {
    exists|k: int, j: int|
        0 <= k < states.len() && (#[trigger] states[k]).id@ == id && 0 <= j
            < states[k].raw_values@.len() && p.is_prefix_of(#[trigger] states[k].raw_values@[j]@)
}

} // verus!
