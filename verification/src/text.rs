//! Text content as a sequence of lines.

use vstd::prelude::*;
use crate::unicode::push_char;

verus! {

/// The lines of a text: the pieces between line feeds. A text with `n`
/// line feeds has `n + 1` lines, some of which may be empty.
pub open spec fn lines_of(s: Seq<char>) -> Seq<Seq<char>>
    decreases s.len(),
{
    if s.len() == 0 {
        seq![Seq::<char>::empty()]
    } else {
        let before = lines_of(s.drop_last());
        if s.last() == '\n' {
            before.push(Seq::<char>::empty())
        } else {
            before.drop_last().push(before.last().push(s.last()))
        }
    }
}

/// Splits a text at its line feeds.
pub fn split_lines(content: &str) -> (lines: Vec<String>)
    ensures
        lines.deep_view() == lines_of(content@),
{
    let mut lines: Vec<String> = Vec::new();
    let mut current = String::new();
    for c in it: content.chars()
        invariant
            it.seq() == content@,
            lines.deep_view().push(current@) == lines_of(content@.take(it.index() as int)),
    {
        proof {
            let n = it.index() as int;
            assert(content@.take(n + 1).drop_last() == content@.take(n));
            assert(content@.take(n + 1).last() == c);
        }
        if c == '\n' {
            lines.push(current);
            current = String::new();
        } else {
            push_char(&mut current, c);
        }
    }
    proof {
        assert(content@.take(content@.len() as int) == content@);
    }
    lines.push(current);
    lines
}

/// Lines put together again, with a line feed between each two.
pub open spec fn joined(lines: Seq<Seq<char>>) -> Seq<char>
    decreases lines.len(),
{
    if lines.len() == 0 {
        Seq::empty()
    } else if lines.len() == 1 {
        lines[0]
    } else {
        joined(lines.drop_last()) + seq!['\n'] + lines.last()
    }
}

/// Every text has at least one line, and its lines joined by line feeds
/// give the text back.
pub proof fn lemma_lines_join_to_the_text(s: Seq<char>)
    ensures
        lines_of(s).len() >= 1,
        joined(lines_of(s)) == s,
    decreases s.len(),
{
    if s.len() == 0 {
        assert(joined(lines_of(s)) =~= s);
    } else {
        let before = lines_of(s.drop_last());
        let lines = lines_of(s);
        lemma_lines_join_to_the_text(s.drop_last());
        assert(s.drop_last().push(s.last()) =~= s);
        if s.last() == '\n' {
            assert(lines.drop_last() =~= before);
            assert(joined(lines) =~= joined(before).push('\n'));
        } else if before.len() == 1 {
            assert(joined(lines) =~= joined(before).push(s.last()));
        } else {
            assert(lines.drop_last() =~= before.drop_last());
            assert(joined(lines) =~= joined(before).push(s.last()));
        }
    }
}

/// No line holds a line feed.
pub proof fn lemma_lines_hold_no_line_feed(s: Seq<char>)
    ensures
        forall|i: int, j: int|
            0 <= i < lines_of(s).len() && 0 <= j < lines_of(s)[i].len() ==> lines_of(s)[i][j]
                != '\n',
    decreases s.len(),
{
    if s.len() > 0 {
        lemma_lines_hold_no_line_feed(s.drop_last());
        lemma_lines_join_to_the_text(s.drop_last());
    }
}

} // verus!
