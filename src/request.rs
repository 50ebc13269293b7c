//! One completion request, from the raw input to the ranked candidates.
use vstd::prelude::*;
use crate::cursor::{line_bytes, resolution, resolve};
use crate::engine::{completions, recurse_completions};
use crate::model::{CommandSpec, ParseResult};
use crate::rank::{is_ranked, keep_prefixed, rank};
use crate::suggest::Suggester;
use crate::text::{is_flag_like, views};

verus! {

/// Answers a completion request: resolves the cursor, produces the
/// candidates at the deepest matched node of `command` under `parse`, keeps
/// those that start with the completed token and ranks them.
pub fn complete_request<S: Suggester>(
    position: Option<usize>,
    raw_line: Option<&str>,
    tokens: &Vec<String>,
    command: &CommandSpec,
    parse: &ParseResult,
    suggester: &S,
) -> (r: Vec<String>)
    ensures
        is_ranked(views(r@)),
        views(r@).to_multiset() == keep_prefixed(
            completions(
                resolution(position, line_bytes(raw_line), views(tokens@)).0,
                resolution(position, line_bytes(raw_line), views(tokens@)).1,
                *command,
                *parse,
                *suggester,
            ),
            resolution(position, line_bytes(raw_line), views(tokens@)).1,
        ).to_multiset(),
        forall|i: int|
            0 <= i < r@.len() ==> resolution(position, line_bytes(raw_line), views(tokens@)).1.is_prefix_of(
                #[trigger] r@[i]@,
            ),
        forall|i: int, j: int|
            0 <= i < j < r@.len() && is_flag_like(#[trigger] r@[i]@) ==> is_flag_like(
                #[trigger] r@[j]@,
            ),
{
    let (prev, to_complete) = resolve(position, raw_line, tokens);
    let candidates = recurse_completions(prev.as_str(), to_complete.as_str(), command, parse, suggester);
    rank(candidates, to_complete.as_str())
}

} // verus!
