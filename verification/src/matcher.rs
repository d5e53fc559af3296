//! The matcher: selecting the lines of a text that contain a query.
//!
//! A line matches when the query occurs in it as a contiguous substring,
//! either verbatim (case-sensitive) or after folding both the query and
//! the line with the ASCII case fold of [`crate::casefold`]. The matched
//! lines come out exactly in file order, with their original (unfolded)
//! content.

use vstd::prelude::*;
use crate::casefold::{fold, lower_char, lower_char_exec};
use crate::lines::{lines_of, lemma_line_step};
use vstd::string::StrSliceExecFns;

verus! {

/// `needle` occurs in `hay` starting at position `i`.
pub open spec fn contains_at(hay: Seq<char>, needle: Seq<char>, i: int) -> bool {
    &&& 0 <= i
    &&& i + needle.len() <= hay.len()
    &&& hay.subrange(i, i + needle.len()) == needle
}

/// `needle` occurs somewhere in `hay` as a contiguous substring. The
/// empty needle occurs in every haystack.
pub open spec fn is_substring(needle: Seq<char>, hay: Seq<char>) -> bool {
    exists|i: int| contains_at(hay, needle, i)
}

/// The sequence compared during matching: the text itself when matching
/// case-sensitively, its case fold otherwise.
pub open spec fn fold_if(s: Seq<char>, case_sensitive: bool) -> Seq<char> {
    if case_sensitive {
        s
    } else {
        fold(s)
    }
}

/// The match predicate: the line contains the query, verbatim or up to
/// the case fold.
pub open spec fn line_matches(query: Seq<char>, line: Seq<char>, case_sensitive: bool) -> bool {
    is_substring(fold_if(query, case_sensitive), fold_if(line, case_sensitive))
}

/// [`line_matches`] for a fixed query and case policy, as a predicate on
/// lines.
pub open spec fn match_pred(query: Seq<char>, case_sensitive: bool) -> spec_fn(Seq<char>) -> bool {
    |line: Seq<char>| line_matches(query, line, case_sensitive)
}

/// What a search returns: the lines of the contents that match the
/// query, kept in file order with their original content.
pub open spec fn search_spec(query: Seq<char>, contents: Seq<char>, case_sensitive: bool) -> Seq<
    Seq<char>,
> {
    lines_of(contents).filter(match_pred(query, case_sensitive))
}

/// The character compared during matching: `c` itself, or its fold.
fn fold_char_if(c: char, case_sensitive: bool) -> (r: char)
    ensures
        r == (if case_sensitive {
            c
        } else {
            lower_char(c)
        }),
{
    if case_sensitive {
        c
    } else {
        lower_char_exec(c)
    }
}

/// Does the query occur in `line` at position `i` (after folding both
/// sides when case-insensitive)?
fn match_at(query: &str, line: &str, i: usize, case_sensitive: bool) -> (r: bool)
    requires
        i + query@.len() <= line@.len(),
    ensures
        r == contains_at(
            fold_if(line@, case_sensitive),
            fold_if(query@, case_sensitive),
            i as int,
        ),
{
    let ghost fq = fold_if(query@, case_sensitive);
    let ghost fl = fold_if(line@, case_sensitive);
    proof {
        assert(fq.len() == query@.len());
        assert(fl.len() == line@.len());
    }
    let qlen = query.unicode_len();
    let llen = line.unicode_len();
    let mut k: usize = 0;
    while k < qlen
        invariant
            qlen == query@.len(),
            llen == line@.len(),
            i + qlen <= llen,
            k <= qlen,
            fq == fold_if(query@, case_sensitive),
            fl == fold_if(line@, case_sensitive),
            fq.len() == qlen,
            fl.len() == line@.len(),
            forall|m: int| 0 <= m < k ==> fq[m] == fl[i + m],
        decreases qlen - k,
    {
        let qc = fold_char_if(query.get_char(k), case_sensitive);
        let lc = fold_char_if(line.get_char(i + k), case_sensitive);
        proof {
            assert(fq[k as int] == qc);
            assert(fl[i + k as int] == lc);
        }
        if qc != lc {
            proof {
                if contains_at(fl, fq, i as int) {
                    assert(fl.subrange(i as int, i + fq.len())[k as int] == fq[k as int]);
                }
            }
            return false;
        }
        k += 1;
    }
    proof {
        assert(fl.subrange(i as int, i + fq.len()) =~= fq);
    }
    true
}

/// Does the line contain the query under the chosen case policy?
pub fn line_contains(query: &str, line: &str, case_sensitive: bool) -> (r: bool)
    ensures
        r == line_matches(query@, line@, case_sensitive),
{
    let ghost fq = fold_if(query@, case_sensitive);
    let ghost fl = fold_if(line@, case_sensitive);
    proof {
        assert(fq.len() == query@.len());
        assert(fl.len() == line@.len());
    }
    let qlen = query.unicode_len();
    let llen = line.unicode_len();
    if qlen == 0 {
        proof {
            assert(fl.subrange(0, 0) =~= fq);
            assert(contains_at(fl, fq, 0));
        }
        return true;
    }
    if qlen > llen {
        proof {
            assert(forall|j: int| !contains_at(fl, fq, j));
        }
        return false;
    }
    let mut i: usize = 0;
    while i <= llen - qlen
        invariant
            qlen == query@.len(),
            llen == line@.len(),
            1 <= qlen <= llen,
            i <= llen - qlen + 1,
            fq == fold_if(query@, case_sensitive),
            fl == fold_if(line@, case_sensitive),
            fq.len() == qlen,
            fl.len() == llen,
            forall|j: int| 0 <= j < i ==> !contains_at(fl, fq, j),
        decreases llen - qlen - i + 1,
    {
        if match_at(query, line, i, case_sensitive) {
            proof {
                assert(contains_at(fl, fq, i as int));
            }
            return true;
        }
        i += 1;
    }
    proof {
        assert forall|j: int| !contains_at(fl, fq, j) by {
            if 0 <= j && j + fq.len() <= fl.len() {
                assert(j <= llen - qlen < i);
            }
        }
    }
    false
}

/// Filtering a sequence extended by one element: the element is appended
/// to the filtered sequence exactly when it satisfies the predicate.
pub(crate) proof fn lemma_filter_push<A>(s: Seq<A>, pred: spec_fn(A) -> bool, x: A)
    ensures
        s.push(x).filter(pred) == (if pred(x) {
            s.filter(pred).push(x)
        } else {
            s.filter(pred)
        }),
{
    assert(s.push(x).drop_last() =~= s);
    assert(s.push(x).last() == x);
    assert(s.push(x).len() == s.len() + 1);
    reveal_with_fuel(Seq::filter, 1);
    assert(s.push(x).filter(pred) == (if pred(x) {
        s.filter(pred).push(x)
    } else {
        s.filter(pred)
    }));
}

/// The shared search loop: split the contents into lines, keep the lines
/// that match the query under the chosen case policy, in file order.
pub(crate) fn search_lines<'a>(query: &str, contents: &'a str, case_sensitive: bool) -> (r: Vec<
    &'a str,
>)
    ensures
        r.deep_view() == search_spec(query@, contents@, case_sensitive),
{
    let ghost pred = match_pred(query@, case_sensitive);
    let n = contents.unicode_len();
    let mut results: Vec<&'a str> = Vec::new();
    let mut pos: usize = 0;
    proof {
        assert(contents@.take(0) =~= Seq::<char>::empty());
        assert(lines_of(contents@.take(0)).filter(pred) =~= Seq::<Seq<char>>::empty());
        assert(results.deep_view() =~= Seq::<Seq<char>>::empty());
    }
    while pos < n
        invariant
            n == contents@.len(),
            pos <= n,
            pos == 0 || pos == n || contents@[pos as int - 1] == '\n',
            pred == match_pred(query@, case_sensitive),
            results.deep_view() == lines_of(contents@.take(pos as int)).filter(pred),
        decreases n - pos,
    {
        let mut j = pos;
        while j < n && contents.get_char(j) != '\n'
            invariant
                n == contents@.len(),
                pos <= j <= n,
                forall|k: int| pos <= k < j ==> contents@[k] != '\n',
            decreases n - j,
        {
            j += 1;
        }
        let e = if j < n && pos < j && contents.get_char(j - 1) == '\r' {
            j - 1
        } else {
            j
        };
        let line = contents.substring_char(pos, e);
        let ghost content = contents@.subrange(pos as int, e as int);
        let ghost old_lines = lines_of(contents@.take(pos as int));
        let ghost old_results = results.deep_view();
        let next = if j < n {
            j + 1
        } else {
            j
        };
        proof {
            lemma_line_step(contents@, pos as int, j as int, e as int, next as int);
            lemma_filter_push(old_lines, pred, content);
        }
        if line_contains(query, line, case_sensitive) {
            results.push(line);
            proof {
                assert(results.deep_view() =~= old_results.push(content));
            }
        }
        proof {
            assert(results.deep_view() == lines_of(contents@.take(next as int)).filter(pred));
        }
        pos = next;
    }
    proof {
        assert(contents@.take(pos as int) =~= contents@);
    }
    results
}

/// Case-sensitive search: the lines of `contents` that contain `query`
/// verbatim, in file order.
pub fn search<'a>(query: &str, contents: &'a str) -> (r: Vec<&'a str>)
    ensures
        r.deep_view() == search_spec(query@, contents@, true),
{
    search_lines(query, contents, true)
}

/// Case-insensitive search: the lines of `contents` that contain `query`
/// up to the ASCII case fold, in file order. The lines keep their
/// original, unfolded content.
pub fn search_case_insensitive<'a>(query: &str, contents: &'a str) -> (r: Vec<&'a str>)
    ensures
        r.deep_view() == search_spec(query@, contents@, false),
{
    search_lines(query, contents, false)
}

} // verus!
