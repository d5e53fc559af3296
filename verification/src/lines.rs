//! The line model: how a text splits into lines.
//!
//! A line ends at a line feed; a carriage return immediately before that
//! line feed is not part of the line. The final line needs no terminator,
//! and a terminator on the last line does not add an empty line after it.
//! An empty text has no lines.

use vstd::prelude::*;

verus! {

/// The lines of a text, in order of appearance.
pub open spec fn lines_of(s: Seq<char>) -> Seq<Seq<char>>
    decreases s.len(),
{
    if s.len() == 0 {
        seq![]
    } else if s[0] == '\n' {
        seq![Seq::<char>::empty()] + lines_of(s.skip(1))
    } else if s[0] == '\r' && s.len() >= 2 && s[1] == '\n' {
        seq![Seq::<char>::empty()] + lines_of(s.skip(2))
    } else {
        let rest = lines_of(s.skip(1));
        if rest.len() == 0 {
            seq![seq![s[0]]]
        } else {
            seq![seq![s[0]] + rest[0]] + rest.skip(1)
        }
    }
}

/// A terminated line's content: a carriage return just before the line
/// feed is dropped, anything else is kept.
pub open spec fn strip_cr(l: Seq<char>) -> Seq<char> {
    if l.len() > 0 && l.last() == '\r' {
        l.drop_last()
    } else {
        l
    }
}

/// A non-empty text has at least one line.
pub proof fn lemma_lines_nonempty(s: Seq<char>)
    requires
        s.len() > 0,
    ensures
        lines_of(s).len() >= 1,
    decreases s.len(),
{
    if s[0] == '\n' || (s[0] == '\r' && s.len() >= 2 && s[1] == '\n') {
    } else {
        if s.len() > 1 {
            lemma_lines_nonempty(s.skip(1));
        }
    }
}

/// Splitting distributes over concatenation at a line-feed boundary: the
/// lines of `s1 + s2` are the lines of `s1` followed by the lines of `s2`,
/// whenever `s1` ends with a line feed.
pub proof fn lemma_lines_append(s1: Seq<char>, s2: Seq<char>)
    requires
        s1.len() > 0,
        s1.last() == '\n',
    ensures
        lines_of(s1 + s2) == lines_of(s1) + lines_of(s2),
    decreases s1.len(),
{
    let s = s1 + s2;
    assert(s[0] == s1[0]);
    if s1[0] == '\n' {
        if s1.len() == 1 {
            assert(s.skip(1) =~= s2);
            assert(lines_of(s1) =~= seq![Seq::<char>::empty()]);
            assert(lines_of(s) =~= lines_of(s1) + lines_of(s2));
        } else {
            assert(s.skip(1) =~= s1.skip(1) + s2);
            lemma_lines_append(s1.skip(1), s2);
            assert(lines_of(s) =~= lines_of(s1) + lines_of(s2));
        }
    } else if s1[0] == '\r' && s1.len() >= 2 && s1[1] == '\n' {
        assert(s.len() >= 2 && s[1] == '\n');
        if s1.len() == 2 {
            assert(s.skip(2) =~= s2);
            assert(s1.skip(2) =~= Seq::<char>::empty());
            assert(lines_of(s1.skip(2)) =~= Seq::<Seq<char>>::empty());
            assert(lines_of(s1) =~= seq![Seq::<char>::empty()]);
            assert(lines_of(s) =~= lines_of(s1) + lines_of(s2));
        } else {
            assert(s.skip(2) =~= s1.skip(2) + s2);
            lemma_lines_append(s1.skip(2), s2);
            assert(lines_of(s) =~= lines_of(s1) + lines_of(s2));
        }
    } else {
        // s1[0] is an ordinary character, so s1 has at least two
        // characters, and s takes the same branch as s1 does.
        assert(s1.len() >= 2);
        assert(s[1] == s1[1]);
        assert(!(s[0] == '\r' && s.len() >= 2 && s[1] == '\n'));
        assert(s.skip(1) =~= s1.skip(1) + s2);
        lemma_lines_append(s1.skip(1), s2);
        lemma_lines_nonempty(s1.skip(1));
        let rest1 = lines_of(s1.skip(1));
        let rest = lines_of(s.skip(1));
        assert(rest == rest1 + lines_of(s2));
        assert(rest[0] == rest1[0]);
        assert(rest.skip(1) =~= rest1.skip(1) + lines_of(s2));
        assert(lines_of(s) =~= lines_of(s1) + lines_of(s2));
    }
}

/// A text without line feeds is a single, unterminated line.
pub proof fn lemma_lines_single(t: Seq<char>)
    requires
        t.len() > 0,
        forall|k: int| 0 <= k < t.len() ==> t[k] != '\n',
    ensures
        lines_of(t) == seq![t],
    decreases t.len(),
{
    if t.len() == 1 {
        assert(t.skip(1) =~= Seq::<char>::empty());
        assert(lines_of(t.skip(1)) =~= Seq::<Seq<char>>::empty());
        assert(seq![t[0]] =~= t);
        assert(lines_of(t) =~= seq![t]);
    } else {
        assert(t[1] != '\n');
        lemma_lines_single(t.skip(1));
        assert(seq![t[0]] + t.skip(1) =~= t);
        assert(lines_of(t) =~= seq![t]);
    }
}

/// A single terminated line: appending a line feed to a text `t` without
/// line feeds yields exactly one line, `t` with a trailing carriage
/// return dropped.
pub proof fn lemma_lines_terminated(t: Seq<char>)
    requires
        forall|k: int| 0 <= k < t.len() ==> t[k] != '\n',
    ensures
        lines_of(t + seq!['\n']) == seq![strip_cr(t)],
    decreases t.len(),
{
    let s = t + seq!['\n'];
    if t.len() == 0 {
        assert(s[0] == '\n');
        assert(s.skip(1) =~= Seq::<char>::empty());
        assert(lines_of(s.skip(1)) =~= Seq::<Seq<char>>::empty());
        assert(strip_cr(t) =~= Seq::<char>::empty());
        assert(lines_of(s) =~= seq![strip_cr(t)]);
    } else if t.len() == 1 && t[0] == '\r' {
        assert(s[0] == '\r' && s.len() == 2 && s[1] == '\n');
        assert(s.skip(2) =~= Seq::<char>::empty());
        assert(lines_of(s.skip(2)) =~= Seq::<Seq<char>>::empty());
        assert(strip_cr(t) =~= Seq::<char>::empty());
        assert(lines_of(s) =~= seq![strip_cr(t)]);
    } else {
        // t[0] is ordinary: it is not '\n', and it is not a '\r' directly
        // followed by the final line feed.
        assert(s[0] == t[0] && t[0] != '\n');
        assert(s[1] == (if t.len() >= 2 { t[1] } else { '\n' }));
        assert(!(s[0] == '\r' && s[1] == '\n'));
        assert(s.skip(1) =~= t.skip(1) + seq!['\n']);
        lemma_lines_terminated(t.skip(1));
        let rest = lines_of(s.skip(1));
        assert(rest == seq![strip_cr(t.skip(1))]);
        if t.len() >= 2 && t.last() == '\r' {
            assert(strip_cr(t.skip(1)) == t.skip(1).drop_last());
            assert(seq![t[0]] + t.skip(1).drop_last() =~= t.drop_last());
            assert(strip_cr(t) == t.drop_last());
        } else {
            assert(strip_cr(t.skip(1)) == t.skip(1));
            assert(seq![t[0]] + t.skip(1) =~= t);
            assert(strip_cr(t) == t);
        }
        assert(lines_of(s) =~= seq![strip_cr(t)]);
    }
}

/// One step of a left-to-right line scan. `pos` is the start of the next
/// unread line, `j` the position of the next line feed at or after `pos`
/// (or the end of the text when there is none), `e` the end of the line's
/// content, and `next` where the scan resumes. Reading that one line
/// extends the lines seen so far by exactly its content.
pub proof fn lemma_line_step(s: Seq<char>, pos: int, j: int, e: int, next: int)
    requires
        0 <= pos <= j <= s.len(),
        pos < s.len(),
        pos == 0 || s[pos - 1] == '\n',
        forall|k: int| pos <= k < j ==> s[k] != '\n',
        j < s.len() ==> s[j] == '\n' && next == j + 1,
        j == s.len() ==> next == j,
        e == (if j < s.len() && pos < j && s[j - 1] == '\r' {
            j - 1
        } else {
            j
        }),
    ensures
        lines_of(s.take(next)) == lines_of(s.take(pos)).push(s.subrange(pos, e)),
{
    let done = s.take(pos);
    let t = s.subrange(pos, j);
    let content = s.subrange(pos, e);
    if j < s.len() {
        let seg = s.subrange(pos, next);
        assert(seg =~= t + seq!['\n']);
        lemma_lines_terminated(t);
        if pos < j && s[j - 1] == '\r' {
            assert(t.len() > 0 && t.last() == '\r');
            assert(strip_cr(t) == t.drop_last());
            assert(t.drop_last() =~= content);
        } else {
            assert(t.len() == 0 || t.last() != '\r');
            assert(t =~= content);
        }
        assert(lines_of(seg) == seq![content]);
        if pos == 0 {
            assert(s.take(next) =~= seg);
            assert(lines_of(done) =~= Seq::<Seq<char>>::empty());
            assert(lines_of(s.take(next)) =~= lines_of(done).push(content));
        } else {
            assert(s.take(next) =~= done + seg);
            assert(done.len() > 0 && done.last() == '\n');
            lemma_lines_append(done, seg);
            assert(lines_of(s.take(next)) =~= lines_of(done).push(content));
        }
    } else {
        assert(e == j && next == j);
        assert(t.len() > 0);
        lemma_lines_single(t);
        assert(t == content);
        if pos == 0 {
            assert(s.take(next) =~= t);
            assert(lines_of(done) =~= Seq::<Seq<char>>::empty());
            assert(lines_of(s.take(next)) =~= lines_of(done).push(content));
        } else {
            assert(s.take(next) =~= done + t);
            assert(done.len() > 0 && done.last() == '\n');
            lemma_lines_append(done, t);
            assert(lines_of(s.take(next)) =~= lines_of(done).push(content));
        }
    }
}

} // verus!
