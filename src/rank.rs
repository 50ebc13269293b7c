//! Filter & rank: keep the candidates that extend the completion prefix and
//! order plain words before flag-like candidates.
use vstd::prelude::*;
use vstd::seq_lib::*;
use crate::text::{
    has_prefix, is_flag_like, lemma_lex_lt_irreflexive, lemma_lex_lt_transitive, lex_less, lex_lt,
    starts_like_flag, views,
};

verus! {

broadcast use group_to_multiset_ensures;

/// The candidates of `cs` that start with `p`, in their original order.
pub open spec fn keep_prefixed(cs: Seq<Seq<char>>, p: Seq<char>) -> Seq<Seq<char>>
    decreases cs.len(),
{
    if cs.len() == 0 {
        seq![]
    } else {
        let rest = keep_prefixed(cs.drop_last(), p);
        if p.is_prefix_of(cs.last()) {
            rest.push(cs.last())
        } else {
            rest
        }
    }
}

/// Strict ranking order: plain words before flag-like candidates, then
/// lexicographic order within a category.
pub open spec fn ranks_before(a: Seq<char>, b: Seq<char>) -> bool {
    (!is_flag_like(a) && is_flag_like(b)) || (is_flag_like(a) == is_flag_like(b) && lex_lt(a, b))
}

/// No candidate ranks strictly before one that precedes it.
pub open spec fn is_ranked(s: Seq<Seq<char>>) -> bool {
    forall|i: int, j: int| 0 <= i < j < s.len() ==> !ranks_before(#[trigger] s[j], #[trigger] s[i])
}

proof fn lemma_ranks_before_transitive(a: Seq<char>, b: Seq<char>, c: Seq<char>)
    requires
        ranks_before(a, b),
        ranks_before(b, c),
    ensures
        ranks_before(a, c),
{
    if is_flag_like(a) == is_flag_like(b) && is_flag_like(b) == is_flag_like(c) {
        lemma_lex_lt_transitive(a, b, c);
    }
}

proof fn lemma_keep_prefixed_all(cs: Seq<Seq<char>>, p: Seq<char>)
    ensures
        forall|i: int|
            0 <= i < keep_prefixed(cs, p).len() ==> p.is_prefix_of(#[trigger] keep_prefixed(cs, p)[i]),
    decreases cs.len(),
{
    if cs.len() > 0 {
        lemma_keep_prefixed_all(cs.drop_last(), p);
        let rest = keep_prefixed(cs.drop_last(), p);
        if p.is_prefix_of(cs.last()) {
            assert forall|i: int| 0 <= i < rest.len() + 1 implies p.is_prefix_of(
                #[trigger] rest.push(cs.last())[i],
            ) by {
                if i < rest.len() {
                    assert(rest.push(cs.last())[i] == rest[i]);
                }
            }
        }
    }
}

/// Filtering by a prefix twice keeps exactly what filtering once keeps.
pub proof fn lemma_filter_idempotent(cs: Seq<Seq<char>>, p: Seq<char>)
    ensures
        keep_prefixed(keep_prefixed(cs, p), p) == keep_prefixed(cs, p),
    decreases cs.len(),
{
    if cs.len() > 0 {
        let rest = keep_prefixed(cs.drop_last(), p);
        lemma_filter_idempotent(cs.drop_last(), p);
        if p.is_prefix_of(cs.last()) {
            assert(rest.push(cs.last()).drop_last() =~= rest);
        }
    }
}

/// In a ranked sequence no flag-like candidate precedes a plain word.
pub proof fn lemma_ranked_words_first(s: Seq<Seq<char>>)
    requires
        is_ranked(s),
    ensures
        forall|i: int, j: int|
            0 <= i < j < s.len() && is_flag_like(#[trigger] s[i]) ==> is_flag_like(#[trigger] s[j]),
{
    assert forall|i: int, j: int|
        0 <= i < j < s.len() && is_flag_like(#[trigger] s[i]) implies is_flag_like(
        #[trigger] s[j],
    ) by {
        assert(!ranks_before(s[j], s[i]));
    }
}

/// Keeps the candidates that start with `prefix`, in their original order.
pub fn filter_prefixed(candidates: Vec<String>, prefix: &str) -> (r: Vec<String>)
    ensures
        views(r@) == keep_prefixed(views(candidates@), prefix@),
{
    let mut out: Vec<String> = Vec::new();
    let mut i: usize = 0;
    while i < candidates.len()
        invariant
            i <= candidates.len(),
            views(out@) == keep_prefixed(views(candidates@).take(i as int), prefix@),
        decreases candidates.len() - i,
    {
        let c = candidates[i].clone();
        proof {
            let taken = views(candidates@).take(i as int + 1);
            assert(taken.drop_last() =~= views(candidates@).take(i as int));
            assert(taken.last() == c@);
        }
        if has_prefix(c.as_str(), prefix) {
            let ghost before = out@;
            out.push(c);
            assert(views(out@) =~= views(before).push(c@));
        }
        i = i + 1;
    }
    assert(views(candidates@).take(candidates.len() as int) =~= views(candidates@));
    out
}

/// Whether `a` ranks strictly before `b`.
fn ranks_before_exec(a: &String, b: &String) -> (r: bool)
    ensures
        r == ranks_before(a@, b@),
{
    let fa = starts_like_flag(a.as_str());
    let fb = starts_like_flag(b.as_str());
    if fa != fb {
        fb
    } else {
        lex_less(a.as_str(), b.as_str())
    }
}

/// Puts the candidates in ranking order, keeping each of them.
pub fn sort_candidates(v: Vec<String>) -> (r: Vec<String>)
    ensures
        is_ranked(views(r@)),
        views(r@).to_multiset() == views(v@).to_multiset(),
{
    let mut out: Vec<String> = Vec::new();
    let mut i: usize = 0;
    while i < v.len()
        invariant
            i <= v.len(),
            is_ranked(views(out@)),
            views(out@).to_multiset() == views(v@).take(i as int).to_multiset(),
        decreases v.len() - i,
    {
        let x = v[i].clone();
        let mut pos: usize = 0;
        while pos < out.len() && !ranks_before_exec(&x, &out[pos])
            invariant
                pos <= out.len(),
                forall|k: int| 0 <= k < pos ==> !ranks_before(x@, #[trigger] out@[k]@),
            decreases out.len() - pos,
        {
            pos = pos + 1;
        }
        let ghost before = views(out@);
        out.insert(pos, x);
        proof {
            let after = views(out@);
            assert(after =~= before.insert(pos as int, x@));
            assert(after.remove(pos as int) =~= before);
            assert(after[pos as int] == x@);
            assert(after.to_multiset() =~= before.to_multiset().insert(x@));
            let taken = views(v@).take(i as int + 1);
            assert(taken =~= views(v@).take(i as int).push(x@));
            assert forall|a: int, b: int| 0 <= a < b < after.len() implies !ranks_before(
                #[trigger] after[b],
                #[trigger] after[a],
            ) by {
                if b < pos {
                } else if b == pos {
                } else if a > pos {
                    assert(after[a] == before[a - 1]);
                    assert(after[b] == before[b - 1]);
                } else if a == pos {
                    assert(after[b] == before[b - 1]);
                    if ranks_before(after[b], x@) {
                        lemma_ranks_before_transitive(before[b - 1], x@, before[pos as int]);
                        if b - 1 == pos {
                            lemma_lex_lt_irreflexive(before[pos as int]);
                        }
                    }
                } else {
                    assert(after[a] == before[a]);
                    assert(after[b] == before[b - 1]);
                }
            }
        }
        i = i + 1;
    }
    assert(views(v@).take(v.len() as int) =~= views(v@));
    out
}

/// Keeps the candidates that start with `to_complete` and puts them in
/// ranking order: plain words first, flags after, each group in
/// lexicographic order.
pub fn rank(candidates: Vec<String>, to_complete: &str) -> (r: Vec<String>)
    ensures
        is_ranked(views(r@)),
        views(r@).to_multiset() == keep_prefixed(views(candidates@), to_complete@).to_multiset(),
        forall|i: int| 0 <= i < r@.len() ==> to_complete@.is_prefix_of(#[trigger] r@[i]@),
        forall|i: int, j: int|
            0 <= i < j < r@.len() && is_flag_like(#[trigger] r@[i]@) ==> is_flag_like(
                #[trigger] r@[j]@,
            ),
{
    let kept = filter_prefixed(candidates, to_complete);
    let r = sort_candidates(kept);
    proof {
        let kp = keep_prefixed(views(candidates@), to_complete@);
        lemma_keep_prefixed_all(views(candidates@), to_complete@);
        assert forall|i: int| 0 <= i < r@.len() implies to_complete@.is_prefix_of(
            #[trigger] r@[i]@,
        ) by {
            assert(views(r@)[i] == r@[i]@);
            assert(views(r@).contains(r@[i]@));
            assert(views(r@).to_multiset().count(r@[i]@) > 0);
            assert(kp.contains(r@[i]@));
        }
        lemma_ranked_words_first(views(r@));
        assert forall|i: int, j: int|
            0 <= i < j < r@.len() && is_flag_like(#[trigger] r@[i]@) implies is_flag_like(
            #[trigger] r@[j]@,
        ) by {
            assert(views(r@)[i] == r@[i]@);
            assert(views(r@)[j] == r@[j]@);
        }
    }
    r
}

} // verus!
