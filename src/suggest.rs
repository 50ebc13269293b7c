//! Custom value suggesters: domain-specific candidates for an argument.
use vstd::prelude::*;
use crate::text::{push_char, same_text, views};

verus! {

/// Produces free-form candidates for the value of one argument.
pub trait Suggester {
    /// The candidates offered for `arg_id` of `subcommand` under `prefix`.
    spec fn suggestions(&self, subcommand: Seq<char>, arg_id: Seq<char>, prefix: Seq<char>) -> Seq<
        Seq<char>,
    >;

    fn suggest(&self, subcommand: &str, arg_id: &str, prefix: &str) -> (r: Vec<String>)
        ensures
            views(r@) == self.suggestions(subcommand@, arg_id@, prefix@),
    ;
}

/// The decimal digit of `i`, for `0 <= i < 10`.
pub open spec fn digit(i: int) -> char {
    if i == 0 {
        '0'
    } else if i == 1 {
        '1'
    } else if i == 2 {
        '2'
    } else if i == 3 {
        '3'
    } else if i == 4 {
        '4'
    } else if i == 5 {
        '5'
    } else if i == 6 {
        '6'
    } else if i == 7 {
        '7'
    } else if i == 8 {
        '8'
    } else {
        '9'
    }
}

fn digit_char(i: usize) -> (c: char)
    requires
        i < 10,
    ensures
        c == digit(i as int),
{
    if i == 0 {
        '0'
    } else if i == 1 {
        '1'
    } else if i == 2 {
        '2'
    } else if i == 3 {
        '3'
    } else if i == 4 {
        '4'
    } else if i == 5 {
        '5'
    } else if i == 6 {
        '6'
    } else if i == 7 {
        '7'
    } else if i == 8 {
        '8'
    } else {
        '9'
    }
}

/// `<prefix>/<i>-<subcommand>-<arg>`.
pub open spec fn demo_entry(subcommand: Seq<char>, arg: Seq<char>, prefix: Seq<char>, i: int) -> Seq<
    char,
> {
    prefix + seq!['/', digit(i), '-'] + subcommand + seq!['-'] + arg
}

/// The five demonstration candidates, numbered 0 to 4.
pub open spec fn demo_suggestions(subcommand: Seq<char>, arg: Seq<char>, prefix: Seq<char>) -> Seq<
    Seq<char>,
> {
    Seq::new(5, |i: int| demo_entry(subcommand, arg, prefix, i))
}

/// A demonstration suggester: five numbered candidates that extend the
/// prefix and name the subcommand and the argument.
pub fn my_custom_suggest(subcommand: &str, arg: &str, to_complete: &str) -> (r: Vec<String>)
    ensures
        views(r@) == demo_suggestions(subcommand@, arg@, to_complete@),
{
    let mut completions: Vec<String> = Vec::new();
    let mut i: usize = 0;
    while i < 5
        invariant
            i <= 5,
            views(completions@) =~= demo_suggestions(subcommand@, arg@, to_complete@).take(
                i as int,
            ),
        decreases 5 - i,
    {
        let mut s = String::from_str(to_complete);
        push_char(&mut s, '/');
        push_char(&mut s, digit_char(i));
        push_char(&mut s, '-');
        s.append(subcommand);
        push_char(&mut s, '-');
        s.append(arg);
        assert(s@ =~= demo_entry(subcommand@, arg@, to_complete@, i as int));
        let ghost before = completions@;
        completions.push(s);
        assert(views(completions@) =~= views(before).push(s@));
        i = i + 1;
    }
    completions
}

/// The suggester backed by `my_custom_suggest`.
pub struct DemoSuggester;

impl Suggester for DemoSuggester {
    open spec fn suggestions(&self, subcommand: Seq<char>, arg_id: Seq<char>, prefix: Seq<char>) -> Seq<
        Seq<char>,
    > {
        demo_suggestions(subcommand, arg_id, prefix)
    }

    fn suggest(&self, subcommand: &str, arg_id: &str, prefix: &str) -> (r: Vec<String>) {
        my_custom_suggest(subcommand, arg_id, prefix)
    }
}

/// Fixed candidates for one argument of one subcommand.
pub struct ValueEntry {
    pub subcommand: String,
    pub arg_id: String,
    pub values: Vec<String>,
}

/// A suggester that offers fixed candidates per argument; the first entry
/// for an argument wins, and an argument without an entry gets none.
pub struct ValueTable {
    pub entries: Vec<ValueEntry>,
}

/// The index of the first entry for `arg_id` of `subcommand`, from `i` on.
pub open spec fn entry_from(entries: Seq<ValueEntry>, subcommand: Seq<char>, arg_id: Seq<char>, i: int) -> Option<int>
    decreases entries.len() - i,
{
    if i < 0 || i >= entries.len() {
        None
    } else if entries[i].subcommand@ == subcommand && entries[i].arg_id@ == arg_id {
        Some(i)
    } else {
        entry_from(entries, subcommand, arg_id, i + 1)
    }
}

impl Suggester for ValueTable {
    open spec fn suggestions(&self, subcommand: Seq<char>, arg_id: Seq<char>, prefix: Seq<char>) -> Seq<
        Seq<char>,
    > {
        match entry_from(self.entries@, subcommand, arg_id, 0) {
            Some(k) => views(self.entries@[k].values@),
            None => seq![],
        }
    }

    fn suggest(&self, subcommand: &str, arg_id: &str, prefix: &str) -> (r: Vec<String>) {
        let mut k: usize = 0;
        while k < self.entries.len()
            invariant
                k <= self.entries.len(),
                entry_from(self.entries@, subcommand@, arg_id@, 0) == entry_from(
                    self.entries@,
                    subcommand@,
                    arg_id@,
                    k as int,
                ),
            decreases self.entries.len() - k,
        {
            let e = &self.entries[k];
            if same_text(e.subcommand.as_str(), subcommand) && same_text(e.arg_id.as_str(), arg_id) {
                return e.values.clone();
            }
            k = k + 1;
        }
        Vec::new()
    }
}

} // verus!
