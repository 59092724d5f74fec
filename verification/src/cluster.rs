//! Grapheme clusters and the display cells they occupy.

use vstd::prelude::*;
use crate::unicode::{display_width, extended_graphemes, measure_width, split_graphemes};

verus! {

/// One grapheme cluster of a line together with its display width in
/// columns. A width of zero (a lone combining mark) is allowed.
#[derive(Debug, PartialEq, Eq)]
pub struct Cluster {
    pub text: String,
    pub width: usize,
}

/// What a [`Cluster`] stands for: its characters and its width.
pub struct ClusterView {
    pub text: Seq<char>,
    pub width: nat,
}

impl View for Cluster {
    type V = ClusterView;

    open spec fn view(&self) -> ClusterView {
        ClusterView { text: self.text@, width: self.width as nat }
    }
}

impl DeepView for Cluster {
    type V = ClusterView;

    open spec fn deep_view(&self) -> ClusterView {
        self@
    }
}

impl Clone for Cluster {
    fn clone(&self) -> (copy: Self)
        ensures
            copy@ == self@,
    {
        Cluster { text: self.text.clone(), width: self.width }
    }
}

/// The number of display cells a cluster advances the cell counter by: its
/// width, but never less than one, so that every cluster makes progress.
pub open spec fn cell_width(cluster: ClusterView) -> nat {
    if cluster.width == 0 {
        1
    } else {
        cluster.width
    }
}

/// The number of display cells a sequence of clusters occupies.
pub open spec fn cells_of(clusters: Seq<ClusterView>) -> nat
    decreases clusters.len(),
{
    if clusters.len() == 0 {
        0
    } else {
        cells_of(clusters.drop_last()) + cell_width(clusters.last())
    }
}

/// The characters of a sequence of clusters, one after the other.
pub open spec fn text_of(clusters: Seq<ClusterView>) -> Seq<char> {
    clusters.map_values(|c: ClusterView| c.text).flatten()
}

/// One more cluster adds its characters at the end of the text.
pub proof fn lemma_text_of_push(clusters: Seq<ClusterView>, cluster: ClusterView)
    ensures
        text_of(clusters.push(cluster)) == text_of(clusters) + cluster.text,
{
    let texts = clusters.map_values(|c: ClusterView| c.text);
    assert(clusters.push(cluster).map_values(|c: ClusterView| c.text) =~= texts.push(
        cluster.text,
    ));
    texts.lemma_flatten_push(cluster.text);
}

/// The synthetic one-cell blank that closes every line, so that a caret or
/// selection at the end of a line has a cell to show in.
pub open spec fn trailing_cell() -> ClusterView {
    ClusterView { text: seq![' '], width: 1 }
}

/// A string as one cluster of the width that `display_width` gives it.
pub open spec fn measured_cluster(text: Seq<char>) -> ClusterView {
    ClusterView { text, width: display_width(text) }
}

/// A line broken into its extended grapheme clusters, each measured.
pub open spec fn measured(line: Seq<char>) -> Seq<ClusterView> {
    extended_graphemes(line).map_values(|g: Seq<char>| measured_cluster(g))
}

impl Cluster {
    /// A cluster with the given text and width.
    pub fn new(text: &str, width: usize) -> (cluster: Self)
        ensures
            cluster@ == (ClusterView { text: text@, width: width as nat }),
    {
        Cluster { text: String::from_str(text), width }
    }

    /// The blank cell that closes a line.
    pub fn trailing() -> (cluster: Self)
        ensures
            cluster@ == trailing_cell(),
    {
        proof {
            reveal_strlit(" ");
            assert(" "@ =~= seq![' ']);
        }
        Cluster { text: String::from_str(" "), width: 1 }
    }

    /// The number of cells this cluster advances the counter by.
    pub fn cells(&self) -> (cells: usize)
        ensures
            cells == cell_width(self@),
    {
        if self.width == 0 {
            1
        } else {
            self.width
        }
    }
}

/// Breaks a line into grapheme clusters and measures each of them.
pub fn measure_line(line: &str) -> (clusters: Vec<Cluster>)
    ensures
        clusters.deep_view() == measured(line@),
        text_of(clusters.deep_view()) == line@,
{
    let pieces = split_graphemes(line);
    let mut clusters: Vec<Cluster> = Vec::new();
    let mut i: usize = 0;
    while i < pieces.len()
        invariant
            i <= pieces.len(),
            pieces.deep_view() == extended_graphemes(line@),
            clusters.deep_view() == measured(line@).take(i as int),
        decreases pieces.len() - i,
    {
        let text = pieces[i].clone();
        let width = measure_width(text.as_str());
        let ghost before = clusters.deep_view();
        clusters.push(Cluster { text, width });
        proof {
            assert(pieces.deep_view()[i as int] == pieces[i as int]@);
            assert(clusters.deep_view() =~= before.push(measured_cluster(text@)));
            assert(clusters.deep_view() =~= measured(line@).take(i + 1));
        }
        i += 1;
    }
    assert(clusters.deep_view() =~= measured(line@));
    assert(clusters.deep_view().map_values(|c: ClusterView| c.text) =~= pieces.deep_view());
    clusters
}

} // verus!
