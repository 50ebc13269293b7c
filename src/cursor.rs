//! Cursor resolution: which token precedes the completion point and which
//! one is being completed.
use vstd::prelude::*;
use vstd::string::*;
use vstd::utf8::*;
use crate::text::views;

verus! {

/// The index of the last space in `s`.
pub open spec fn last_space(s: Seq<char>) -> Option<int>
    decreases s.len(),
{
    if s.len() == 0 {
        None
    } else if s.last() == ' ' {
        Some(s.len() - 1)
    } else {
        last_space(s.drop_last())
    }
}

/// What follows the last space of `s`; all of `s` when it holds none.
pub open spec fn after_last_space(s: Seq<char>) -> Seq<char> {
    match last_space(s) {
        Some(k) => s.subrange(k + 1, s.len() as int),
        None => s,
    }
}

/// Token-list mode: the last two tokens, the completed one last.
pub open spec fn from_tokens(tokens: Seq<Seq<char>>) -> (Seq<char>, Seq<char>) {
    if tokens.len() == 0 {
        (seq![], seq![])
    } else if tokens.len() == 1 {
        (seq![], tokens[0])
    } else {
        (tokens[tokens.len() - 2], tokens.last())
    }
}

/// When the raw line cannot be used: the last token precedes an empty
/// completion.
pub open spec fn fallback(tokens: Seq<Seq<char>>) -> (Seq<char>, Seq<char>) {
    (if tokens.len() == 0 {
        seq![]
    } else {
        tokens.last()
    }, seq![])
}

/// The UTF-8 bytes of an optional line.
pub open spec fn line_bytes(raw_line: Option<&str>) -> Option<Seq<u8>> {
    match raw_line {
        Some(s) => Some(s.spec_bytes()),
        None => None,
    }
}

/// `(prev_token, to_complete)` for a cursor at byte offset `position` of the
/// line whose bytes are `raw`, or for the token list alone.
pub open spec fn resolution(position: Option<usize>, raw: Option<Seq<u8>>, tokens: Seq<Seq<char>>) -> (
    Seq<char>,
    Seq<char>,
) {
    match (position, raw) {
        (Some(p), Some(b)) => if p <= b.len() && is_char_boundary(b, p as int) {
            let head = decode_utf8(b.subrange(0, p as int));
            match last_space(head) {
                Some(k) => (after_last_space(head.subrange(0, k)), head.subrange(k + 1, head.len() as int)),
                None => fallback(tokens),
            }
        } else {
            fallback(tokens)
        },
        _ => from_tokens(tokens),
    }
}

fn last_space_index(s: &str) -> (r: Option<usize>)
    ensures
        r matches Some(k) ==> last_space(s@) == Some(k as int) && k < s@.len(),
        r is None ==> last_space(s@) is None,
{
    let n = s.unicode_len();
    let mut i: usize = n;
    assert(s@.subrange(0, n as int) =~= s@);
    while i > 0
        invariant
            i <= n,
            n == s@.len(),
            last_space(s@) == last_space(s@.subrange(0, i as int)),
        decreases i,
    {
        assert(s@.subrange(0, i as int).drop_last() =~= s@.subrange(0, i - 1));
        if s.get_char(i - 1) == ' ' {
            return Some(i - 1);
        }
        i = i - 1;
    }
    None
}

fn fallback_exec(tokens: &Vec<String>) -> (r: (String, String))
    ensures
        (r.0@, r.1@) == fallback(views(tokens@)),
{
    let prev = if tokens.len() == 0 {
        String::new()
    } else {
        tokens[tokens.len() - 1].clone()
    };
    (prev, String::new())
}

/// Finds `(prev_token, to_complete)`. With a cursor offset (in bytes) and
/// the raw line, the line is cut at the cursor: the completed token follows
/// the last space before it, and the previous token follows the space before
/// that. An offset past the line, off a character boundary, or with no space
/// before it falls back to the last token and an empty completion. Without
/// them, the last two tokens are used.
pub fn resolve(position: Option<usize>, raw_line: Option<&str>, tokens: &Vec<String>) -> (r: (
    String,
    String,
))
    ensures
        (r.0@, r.1@) == resolution(position, line_bytes(raw_line), views(tokens@)),
{
    match (position, raw_line) {
        (Some(pos), Some(raw)) => {
            proof {
                encode_utf8_valid_utf8(raw@);
            }
            // `is_char_boundary` is false past the end of the line
            if raw.is_char_boundary(pos) {
                let (before, _) = raw.split_at(pos);
                proof {
                    encode_utf8_decode_utf8(before@);
                }
                match last_space_index(before) {
                    Some(k) => {
                        let n = before.unicode_len();
                        let to_complete = before.substring_char(k + 1, n);
                        let rest = before.substring_char(0, k);
                        let prev = match last_space_index(rest) {
                            Some(j) => rest.substring_char(j + 1, rest.unicode_len()),
                            None => rest,
                        };
                        (prev.to_owned(), to_complete.to_owned())
                    },
                    None => fallback_exec(tokens),
                }
            } else {
                fallback_exec(tokens)
            }
        },
        _ => {
            let n = tokens.len();
            if n == 0 {
                (String::new(), String::new())
            } else if n == 1 {
                (String::new(), tokens[0].clone())
            } else {
                (tokens[n - 2].clone(), tokens[n - 1].clone())
            }
        },
    }
}

} // verus!
