//! The Unicode facts this library relies on but does not prove: how a line
//! breaks into grapheme clusters and how many columns a cluster occupies.
//! Both come from outside crates and are believed as stated here.

use vstd::prelude::*;
use unicode_segmentation::UnicodeSegmentation;
use unicode_width::UnicodeWidthStr;

verus! {

/// The extended grapheme clusters of a string, in order, as
/// `unicode_segmentation` breaks it.
pub uninterp spec fn extended_graphemes(s: Seq<char>) -> Seq<Seq<char>>;

/// The number of display columns of a string, as `unicode_width` counts
/// them outside an East Asian context.
pub uninterp spec fn display_width(s: Seq<char>) -> nat;

/// Calls `UnicodeSegmentation::graphemes` with `is_extended` set, and
/// copies each cluster into a `String`. Believed, not proved: that the
/// clusters are those that `extended_graphemes` names, and that joined they
/// give the line back, since the iterator hands out consecutive slices of
/// the line until none of it is left.
#[verifier::external_body]
pub(crate) fn split_graphemes(line: &str) -> (clusters: Vec<String>)
    ensures
        clusters.deep_view() == extended_graphemes(line@),
        clusters.deep_view().flatten() == line@,
{
    line.graphemes(true).map(String::from).collect()
}

/// Calls `UnicodeWidthStr::width` on the string. Believed, not proved:
/// that the result is the width that `display_width` names.
#[verifier::external_body]
pub(crate) fn measure_width(text: &str) -> (width: usize)
    ensures
        width == display_width(text@),
{
    text.width()
}

/// Calls `String::push`. Believed, not proved: that it appends the
/// character at the end and changes nothing else.
#[verifier::external_body]
pub(crate) fn push_char(s: &mut String, c: char)
    ensures
        final(s)@ == old(s)@.push(c),
{
    s.push(c)
}

} // verus!
