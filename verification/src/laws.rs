//! The laws of the matcher, stated over the same spec functions that the
//! executable search functions are proved against.

use vstd::prelude::*;
use crate::casefold::{fold, lemma_fold_idempotent};
use crate::lines::lines_of;
use crate::matcher::{
    contains_at, fold_if, is_substring, lemma_filter_push, line_matches, match_pred, search_spec,
};

verus! {

/// The positions, in the sequence of lines, of the lines that satisfy
/// the predicate, in increasing order.
pub open spec fn match_positions(
    lines: Seq<Seq<char>>,
    pred: spec_fn(Seq<char>) -> bool,
) -> Seq<int>
    decreases lines.len(),
{
    if lines.len() == 0 {
        seq![]
    } else {
        let prior = match_positions(lines.drop_last(), pred);
        if pred(lines.last()) {
            prior.push(lines.len() - 1)
        } else {
            prior
        }
    }
}

/// `match_positions` indexes the filtered sequence back into the
/// original one: the positions are strictly increasing, and the `i`th
/// kept element is the original element at the `i`th position.
proof fn lemma_match_positions(lines: Seq<Seq<char>>, pred: spec_fn(Seq<char>) -> bool)
    ensures
        match_positions(lines, pred).len() == lines.filter(pred).len(),
        forall|i: int|
            0 <= i < match_positions(lines, pred).len() ==> 0 <= #[trigger] match_positions(
                lines,
                pred,
            )[i] < lines.len(),
        forall|i: int|
            0 <= i < match_positions(lines, pred).len() ==> lines.filter(pred)[i] == lines[
                #[trigger] match_positions(lines, pred)[i]
            ],
        forall|i: int, j: int|
            0 <= i < j < match_positions(lines, pred).len() ==> #[trigger] match_positions(
                lines,
                pred,
            )[i] < #[trigger] match_positions(lines, pred)[j],
    decreases lines.len(),
{
    if lines.len() == 0 {
    } else {
        let dl = lines.drop_last();
        lemma_match_positions(dl, pred);
        assert(lines =~= dl.push(lines.last()));
        assert(forall|i: int| 0 <= i < dl.len() ==> dl[i] == lines[i]);
        lemma_filter_push(dl, pred, lines.last());
        assert(lines.filter(pred) == (if pred(lines.last()) {
            dl.filter(pred).push(lines.last())
        } else {
            dl.filter(pred)
        }));
    }
}

/// Output order equals file order: the emitted lines are the lines of
/// the contents at a strictly increasing sequence of positions.
pub proof fn lemma_output_order(query: Seq<char>, contents: Seq<char>, case_sensitive: bool)
    ensures
        ({
            let lines = lines_of(contents);
            let out = search_spec(query, contents, case_sensitive);
            let idx = match_positions(lines, match_pred(query, case_sensitive));
            &&& idx.len() == out.len()
            &&& forall|i: int| 0 <= i < idx.len() ==> 0 <= #[trigger] idx[i] < lines.len()
            &&& forall|i: int| 0 <= i < idx.len() ==> out[i] == lines[#[trigger] idx[i]]
            &&& forall|i: int, j: int|
                0 <= i < j < idx.len() ==> #[trigger] idx[i] < #[trigger] idx[j]
        }),
{
    lemma_match_positions(lines_of(contents), match_pred(query, case_sensitive));
}

/// Every emitted line satisfies the match predicate; every line of the
/// contents that satisfies it is emitted, and one that does not is not.
pub proof fn lemma_match_predicate(query: Seq<char>, contents: Seq<char>, case_sensitive: bool)
    ensures
        forall|i: int|
            0 <= i < search_spec(query, contents, case_sensitive).len() ==> line_matches(
                query,
                #[trigger] search_spec(query, contents, case_sensitive)[i],
                case_sensitive,
            ),
        forall|j: int|
            0 <= j < lines_of(contents).len() && line_matches(
                query,
                #[trigger] lines_of(contents)[j],
                case_sensitive,
            ) ==> search_spec(query, contents, case_sensitive).contains(lines_of(contents)[j]),
        forall|j: int|
            0 <= j < lines_of(contents).len() && !line_matches(
                query,
                #[trigger] lines_of(contents)[j],
                case_sensitive,
            ) ==> !search_spec(query, contents, case_sensitive).contains(lines_of(contents)[j]),
{
    let lines = lines_of(contents);
    let pred = match_pred(query, case_sensitive);
    let out = search_spec(query, contents, case_sensitive);
    assert forall|i: int| 0 <= i < out.len() implies line_matches(
        query,
        #[trigger] out[i],
        case_sensitive,
    ) by {
        lines.lemma_filter_pred(pred, i);
    }
    assert forall|j: int|
        0 <= j < lines.len() && line_matches(
            query,
            #[trigger] lines[j],
            case_sensitive,
        ) implies out.contains(lines[j]) by {
        lines.lemma_filter_contains(pred, j);
    }
    assert forall|j: int|
        0 <= j < lines.len() && !line_matches(
            query,
            #[trigger] lines[j],
            case_sensitive,
        ) implies !out.contains(lines[j]) by {
        if out.contains(lines[j]) {
            let i = choose|i: int| 0 <= i < out.len() && out[i] == lines[j];
            lines.lemma_filter_pred(pred, i);
        }
    }
}

/// Case-sensitive search emits no line beyond those containing the
/// query verbatim.
pub proof fn lemma_sensitive_emits_only_verbatim(query: Seq<char>, contents: Seq<char>)
    ensures
        forall|i: int|
            0 <= i < search_spec(query, contents, true).len() ==> is_substring(
                query,
                #[trigger] search_spec(query, contents, true)[i],
            ),
{
    lemma_match_predicate(query, contents, true);
}

/// Filtering with pointwise equal predicates gives equal results.
proof fn lemma_filter_congruent<A>(s: Seq<A>, p1: spec_fn(A) -> bool, p2: spec_fn(A) -> bool)
    requires
        forall|i: int| 0 <= i < s.len() ==> #[trigger] p1(s[i]) == p2(s[i]),
    ensures
        s.filter(p1) == s.filter(p2),
    decreases s.len(),
{
    if s.len() > 0 {
        let dl = s.drop_last();
        assert forall|i: int| 0 <= i < dl.len() implies #[trigger] p1(dl[i]) == p2(dl[i]) by {
            assert(dl[i] == s[i]);
        }
        lemma_filter_congruent(dl, p1, p2);
        assert(p1(s.last()) == p2(s.last()));
        assert(s =~= dl.push(s.last()));
        lemma_filter_push(dl, p1, s.last());
        lemma_filter_push(dl, p2, s.last());
    }
}

/// Case-insensitive search is closed under case-folding the query:
/// folding the query does not change the result.
pub proof fn lemma_fold_query_preserves_search(query: Seq<char>, contents: Seq<char>)
    ensures
        search_spec(fold(query), contents, false) == search_spec(query, contents, false),
{
    lemma_fold_idempotent(query);
    let p1 = match_pred(fold(query), false);
    let p2 = match_pred(query, false);
    let lines = lines_of(contents);
    assert forall|i: int| 0 <= i < lines.len() implies #[trigger] p1(lines[i]) == p2(lines[i]) by {
        assert(fold_if(fold(query), false) == fold_if(query, false));
    }
    lemma_filter_congruent(lines, p1, p2);
}

/// Case-insensitive matching is closed under case-folding the line:
/// folding a line does not change whether it matches. (The emitted
/// content is the original line, so only the match decision is at
/// stake.)
pub proof fn lemma_fold_line_preserves_match(query: Seq<char>, line: Seq<char>)
    ensures
        line_matches(query, fold(line), false) == line_matches(query, line, false),
{
    lemma_fold_idempotent(line);
}

/// The matcher is pure: the result is a function of the query, the
/// contents and the case policy alone, so two results of the same
/// search are equal.
pub proof fn lemma_matcher_deterministic(
    query: Seq<char>,
    contents: Seq<char>,
    case_sensitive: bool,
    r1: Seq<Seq<char>>,
    r2: Seq<Seq<char>>,
)
    requires
        r1 == search_spec(query, contents, case_sensitive),
        r2 == search_spec(query, contents, case_sensitive),
    ensures
        r1 == r2,
{
}

/// Filtering with a predicate that holds of every element keeps the
/// sequence unchanged.
proof fn lemma_filter_true<A>(s: Seq<A>, pred: spec_fn(A) -> bool)
    requires
        forall|i: int| 0 <= i < s.len() ==> #[trigger] pred(s[i]),
    ensures
        s.filter(pred) == s,
    decreases s.len(),
{
    if s.len() > 0 {
        let dl = s.drop_last();
        assert forall|i: int| 0 <= i < dl.len() implies #[trigger] pred(dl[i]) by {
            assert(dl[i] == s[i]);
        }
        lemma_filter_true(dl, pred);
        assert(pred(s.last()));
        assert(s =~= dl.push(s.last()));
        lemma_filter_push(dl, pred, s.last());
        assert(s.filter(pred) =~= s);
    }
}

/// Filtering with a predicate that holds of no element gives the empty
/// sequence.
proof fn lemma_filter_false<A>(s: Seq<A>, pred: spec_fn(A) -> bool)
    requires
        forall|i: int| 0 <= i < s.len() ==> !(#[trigger] pred(s[i])),
    ensures
        s.filter(pred) == Seq::<A>::empty(),
    decreases s.len(),
{
    if s.len() > 0 {
        let dl = s.drop_last();
        assert forall|i: int| 0 <= i < dl.len() implies !(#[trigger] pred(dl[i])) by {
            assert(dl[i] == s[i]);
        }
        lemma_filter_false(dl, pred);
        assert(!pred(s.last()));
        assert(s =~= dl.push(s.last()));
        lemma_filter_push(dl, pred, s.last());
    }
}

/// The empty query matches every line, so searching for it returns all
/// lines of the contents, whatever the case policy.
pub proof fn lemma_empty_query_matches_all(contents: Seq<char>, case_sensitive: bool)
    ensures
        search_spec(Seq::<char>::empty(), contents, case_sensitive) == lines_of(contents),
{
    let q = Seq::<char>::empty();
    let pred = match_pred(q, case_sensitive);
    let lines = lines_of(contents);
    assert(fold_if(q, case_sensitive) =~= Seq::<char>::empty());
    assert forall|i: int| 0 <= i < lines.len() implies #[trigger] pred(lines[i]) by {
        let fl = fold_if(lines[i], case_sensitive);
        assert(fl.subrange(0, 0) =~= fold_if(q, case_sensitive));
        assert(contains_at(fl, fold_if(q, case_sensitive), 0));
    }
    lemma_filter_true(lines, pred);
}

/// A query that no line contains gives an empty result.
pub proof fn lemma_absent_query_empty_result(
    query: Seq<char>,
    contents: Seq<char>,
    case_sensitive: bool,
)
    requires
        forall|j: int|
            0 <= j < lines_of(contents).len() ==> !line_matches(
                query,
                #[trigger] lines_of(contents)[j],
                case_sensitive,
            ),
    ensures
        search_spec(query, contents, case_sensitive) == Seq::<Seq<char>>::empty(),
{
    lemma_filter_false(lines_of(contents), match_pred(query, case_sensitive));
}

} // verus!
