//! Rendering lines of clusters into runs of normal and reverse-video text.
//!
//! A line is a sequence of clusters followed by one trailing blank cell.
//! Each of them begins at a cell of the text; it is highlighted if that
//! cell lies in the selection. Neighbours that agree share a run.

use vstd::prelude::*;
use vstd::string::StringExecFns;
use crate::cluster::{
    cell_width, cells_of, lemma_text_of_push, measure_line, measured, text_of, trailing_cell,
    Cluster, ClusterView,
};
use crate::run_facts::{cells_in, clusters_in, lemma_line_width, lemma_runs_keep_the_clusters};
use crate::selection::SelectionRange;
use crate::text::{lines_of, split_lines};

verus! {

/// A stretch of consecutive clusters of one line that share a style.
#[derive(Debug, PartialEq, Eq)]
pub struct StyledRun {
    pub clusters: Vec<Cluster>,
    /// Whether the run is shown in reverse video.
    pub reversed: bool,
}

/// What a [`StyledRun`] stands for.
pub struct RunView {
    pub clusters: Seq<ClusterView>,
    pub reversed: bool,
}

impl View for StyledRun {
    type V = RunView;

    open spec fn view(&self) -> RunView {
        RunView { clusters: self.clusters.deep_view(), reversed: self.reversed }
    }
}

impl DeepView for StyledRun {
    type V = RunView;

    open spec fn deep_view(&self) -> RunView {
        self@
    }
}

impl StyledRun {
    /// The characters of the run.
    pub fn text(&self) -> (text: String)
        ensures
            text@ == text_of(self@.clusters),
    {
        let ghost clusters = self@.clusters;
        let mut text = String::new();
        let mut i: usize = 0;
        proof {
            assert(clusters.take(0).map_values(|c: ClusterView| c.text) =~= Seq::<
                Seq<char>,
            >::empty());
        }
        while i < self.clusters.len()
            invariant
                i <= self.clusters.len(),
                clusters == self@.clusters,
                text@ == text_of(clusters.take(i as int)),
            decreases self.clusters.len() - i,
        {
            text.append(self.clusters[i].text.as_str());
            proof {
                assert(clusters.take(i + 1) =~= clusters.take(i as int).push(clusters[i as int]));
                lemma_text_of_push(clusters.take(i as int), clusters[i as int]);
            }
            i += 1;
        }
        proof {
            assert(clusters.take(i as int) =~= clusters);
        }
        text
    }
}

/// One line of the text as the runs it is painted with, left to right.
#[derive(Debug, PartialEq, Eq)]
pub struct StyledLine {
    pub runs: Vec<StyledRun>,
}

impl View for StyledLine {
    type V = Seq<RunView>;

    open spec fn view(&self) -> Seq<RunView> {
        self.runs.deep_view()
    }
}

impl DeepView for StyledLine {
    type V = Seq<RunView>;

    open spec fn deep_view(&self) -> Seq<RunView> {
        self@
    }
}

/// Whether the cell at `offset` lies in the half-open range from `lo` to `hi`.
pub open spec fn highlighted(offset: nat, lo: nat, hi: nat) -> bool {
    lo <= offset < hi
}

/// The runs after one more cluster: it joins the last run if it is styled
/// like it, and opens a new run otherwise.
pub open spec fn place(runs: Seq<RunView>, cluster: ClusterView, inside: bool) -> Seq<RunView>
    recommends
        runs.len() > 0,
{
    if inside == runs.last().reversed {
        runs.drop_last().push(
            RunView { clusters: runs.last().clusters.push(cluster), reversed: inside },
        )
    } else {
        runs.push(RunView { clusters: seq![cluster], reversed: inside })
    }
}

/// The runs into which a sequence of cells falls when the first of them
/// stands at cell `start` of the text and `carried` is the style that was
/// in force before it. Neighbours with the same membership in the
/// highlighted range share a run. Before any cell there is one empty run
/// in the carried style; it stays in front if the first cell is styled
/// otherwise.
pub open spec fn coalesced(
    cells: Seq<ClusterView>,
    start: nat,
    lo: nat,
    hi: nat,
    carried: bool,
) -> Seq<RunView>
    decreases cells.len(),
{
    if cells.len() == 0 {
        seq![RunView { clusters: Seq::empty(), reversed: carried }]
    } else {
        place(
            coalesced(cells.drop_last(), start, lo, hi, carried),
            cells.last(),
            highlighted(start + cells_of(cells.drop_last()), lo, hi),
        )
    }
}

/// The runs of one line: those of its clusters followed by the trailing cell.
pub open spec fn line_runs(
    line: Seq<ClusterView>,
    start: nat,
    lo: nat,
    hi: nat,
    carried: bool,
) -> Seq<RunView> {
    coalesced(line.push(trailing_cell()), start, lo, hi, carried)
}

/// The cell at which line `i` of a text begins: every line before it takes
/// up its own cells and one trailing cell.
pub open spec fn line_start(lines: Seq<Seq<ClusterView>>, i: int) -> nat
    decreases i,
{
    if i <= 0 {
        0
    } else {
        line_start(lines, i - 1) + cells_of(lines[i - 1]) + 1
    }
}

/// The style in force when line `i` begins: that of the trailing cell of
/// the line before it, and normal at the start of the text.
pub open spec fn carried_into(lines: Seq<Seq<ClusterView>>, i: int, lo: nat, hi: nat) -> bool {
    i > 0 && highlighted((line_start(lines, i) - 1) as nat, lo, hi)
}

/// The runs of line `i` of a text under a selection.
pub open spec fn rendered_line(
    lines: Seq<Seq<ClusterView>>,
    i: int,
    selection: SelectionRange,
) -> Seq<RunView> {
    line_runs(
        lines[i],
        line_start(lines, i),
        selection.lo(),
        selection.hi(),
        carried_into(lines, i, selection.lo(), selection.hi()),
    )
}

/// A whole text under a selection: one sequence of runs for each line.
pub open spec fn rendered(lines: Seq<Seq<ClusterView>>, selection: SelectionRange) -> Seq<
    Seq<RunView>,
> {
    Seq::new(lines.len(), |i: int| rendered_line(lines, i, selection))
}

/// A text split into lines, each broken into measured clusters.
pub open spec fn measured_text(content: Seq<char>) -> Seq<Seq<ClusterView>> {
    lines_of(content).map_values(|line: Seq<char>| measured(line))
}

/// The runs closed so far together with the one still being filled.
spec fn open_runs(runs: Vec<StyledRun>, current: Vec<Cluster>, highlight: bool) -> Seq<RunView> {
    runs.deep_view().push(RunView { clusters: current.deep_view(), reversed: highlight })
}

/// Renders a text line by line, carrying the running cell count and the
/// style in force from each line to the next.
pub struct LineRenderer {
    lo: u64,
    hi: u64,
    /// The cells consumed so far, held at the largest `u64` once they exceed it.
    counter: u64,
    highlight: bool,
    consumed: Ghost<nat>,
}

impl LineRenderer {
    #[verifier::type_invariant]
    spec fn counter_tracks_consumed(self) -> bool {
        self.counter as nat == if self.consumed@ > u64::MAX {
            u64::MAX as nat
        } else {
            self.consumed@
        }
    }

    /// The first highlighted cell.
    pub closed spec fn lo(self) -> nat {
        self.lo as nat
    }

    /// One past the last highlighted cell.
    pub closed spec fn hi(self) -> nat {
        self.hi as nat
    }

    /// The cell of the text at which the next line begins.
    pub closed spec fn offset(self) -> nat {
        self.consumed@
    }

    /// The style in force where the next line begins.
    pub closed spec fn carried(self) -> bool {
        self.highlight
    }

    /// A renderer at the start of a text.
    pub fn new(selection: SelectionRange) -> (renderer: Self)
        ensures
            renderer.lo() == selection.lo(),
            renderer.hi() == selection.hi(),
            renderer.offset() == 0,
            !renderer.carried(),
    {
        LineRenderer {
            lo: selection.low(),
            hi: selection.high(),
            counter: 0,
            highlight: false,
            consumed: Ghost(0),
        }
    }

    /// Takes one cluster: closes the open run if the style changes with it,
    /// adds the cluster to the open run and advances the cell count.
    fn take(&mut self, cluster: Cluster, runs: &mut Vec<StyledRun>, current: &mut Vec<Cluster>)
        ensures
            final(self).lo == old(self).lo,
            final(self).hi == old(self).hi,
            final(self).consumed@ == old(self).consumed@ + cell_width(cluster@),
            final(self).highlight == highlighted(
                old(self).consumed@,
                old(self).lo as nat,
                old(self).hi as nat,
            ),
            open_runs(*final(runs), *final(current), final(self).highlight) == place(
                open_runs(*old(runs), *old(current), old(self).highlight),
                cluster@,
                final(self).highlight,
            ),
    {
        proof {
            use_type_invariant(&*self);
        }
        let inside = self.counter >= self.lo && self.counter < self.hi;
        let ghost closed_before = runs.deep_view();
        let ghost open_before = current.deep_view();
        if inside != self.highlight {
            let mut closed: Vec<Cluster> = Vec::new();
            std::mem::swap(current, &mut closed);
            runs.push(StyledRun { clusters: closed, reversed: self.highlight });
            proof {
                assert(current.deep_view() =~= Seq::<ClusterView>::empty());
                assert(runs.deep_view() =~= closed_before.push(
                    RunView { clusters: open_before, reversed: self.highlight },
                ));
            }
        }
        let ghost open_now = current.deep_view();
        let cells = cluster.cells() as u64;
        current.push(cluster);
        proof {
            assert(current.deep_view() =~= open_now.push(cluster@));
        }
        *self = LineRenderer {
            lo: self.lo,
            hi: self.hi,
            counter: self.counter.saturating_add(cells),
            highlight: inside,
            consumed: Ghost(self.consumed@ + cells as nat),
        };
        proof {
            let before = closed_before.push(
                RunView { clusters: open_before, reversed: old(self).highlight },
            );
            assert(before.drop_last() =~= closed_before);
            assert(open_runs(*runs, *current, inside) =~= place(before, cluster@, inside));
        }
    }

    /// Renders the next line of the text. The runs take up as many cells
    /// as the line's clusters and one more, for the trailing cell.
    pub fn render_line(&mut self, clusters: &Vec<Cluster>) -> (line: StyledLine)
        ensures
            line@ == line_runs(
                clusters.deep_view(),
                old(self).offset(),
                old(self).lo(),
                old(self).hi(),
                old(self).carried(),
            ),
            cells_in(line@) == cells_of(clusters.deep_view()) + 1,
            final(self).lo() == old(self).lo(),
            final(self).hi() == old(self).hi(),
            final(self).offset() == old(self).offset() + cells_of(clusters.deep_view()) + 1,
            final(self).carried() == highlighted(
                old(self).offset() + cells_of(clusters.deep_view()),
                old(self).lo(),
                old(self).hi(),
            ),
    {
        let ghost line = clusters.deep_view();
        let ghost start = self.consumed@;
        let ghost carried = self.highlight;
        let mut runs: Vec<StyledRun> = Vec::new();
        let mut current: Vec<Cluster> = Vec::new();
        let mut i: usize = 0;
        proof {
            assert(runs.deep_view() =~= Seq::<RunView>::empty());
            assert(current.deep_view() =~= Seq::<ClusterView>::empty());
            assert(open_runs(runs, current, carried) =~= coalesced(
                line.take(0),
                start,
                self.lo as nat,
                self.hi as nat,
                carried,
            ));
        }
        while i < clusters.len()
            invariant
                i <= clusters.len(),
                line == clusters.deep_view(),
                self.lo == old(self).lo,
                self.hi == old(self).hi,
                self.consumed@ == start + cells_of(line.take(i as int)),
                open_runs(runs, current, self.highlight) == coalesced(
                    line.take(i as int),
                    start,
                    self.lo as nat,
                    self.hi as nat,
                    carried,
                ),
            decreases clusters.len() - i,
        {
            proof {
                assert(line.take(i + 1).drop_last() == line.take(i as int));
            }
            self.take(clusters[i].clone(), &mut runs, &mut current);
            i += 1;
        }
        proof {
            assert(line.take(i as int) == line);
            assert(line.push(trailing_cell()).drop_last() == line);
        }
        self.take(Cluster::trailing(), &mut runs, &mut current);
        let ghost closed = runs.deep_view();
        let ghost open = current.deep_view();
        runs.push(StyledRun { clusters: current, reversed: self.highlight });
        proof {
            assert(runs.deep_view() =~= closed.push(
                RunView { clusters: open, reversed: self.highlight },
            ));
            lemma_line_width(line, start, self.lo as nat, self.hi as nat, carried);
        }
        StyledLine { runs }
    }
}

/// Breaks a text into lines and each line into measured clusters. The
/// clusters of a line spell that line.
pub fn measure_text(content: &str) -> (lines: Vec<Vec<Cluster>>)
    ensures
        lines.deep_view() == measured_text(content@),
        forall|i: int|
            0 <= i < lines.len() ==> text_of(#[trigger] lines.deep_view()[i]) == lines_of(
                content@,
            )[i],
{
    let texts = split_lines(content);
    let mut lines: Vec<Vec<Cluster>> = Vec::new();
    let mut i: usize = 0;
    while i < texts.len()
        invariant
            i <= texts.len(),
            texts.deep_view() == lines_of(content@),
            lines.deep_view() == measured_text(content@).take(i as int),
            forall|k: int|
                0 <= k < i ==> text_of(#[trigger] lines.deep_view()[k]) == lines_of(content@)[k],
        decreases texts.len() - i,
    {
        let ghost before = lines.deep_view();
        let clusters = measure_line(texts[i].as_str());
        lines.push(clusters);
        proof {
            assert(texts.deep_view()[i as int] == texts[i as int]@);
            assert(lines.deep_view() =~= before.push(clusters.deep_view()));
            assert(lines.deep_view() =~= measured_text(content@).take(i + 1));
        }
        i += 1;
    }
    proof {
        assert(lines.deep_view() =~= measured_text(content@));
    }
    lines
}

/// Renders lines of clusters under a selection: one styled line for each.
pub fn render_lines(lines: &Vec<Vec<Cluster>>, selection: SelectionRange) -> (styled: Vec<
    StyledLine,
>)
    ensures
        styled.deep_view() == rendered(lines.deep_view(), selection),
        styled.len() == lines.len(),
{
    let ghost text = lines.deep_view();
    let mut renderer = LineRenderer::new(selection);
    let mut styled: Vec<StyledLine> = Vec::new();
    let mut i: usize = 0;
    while i < lines.len()
        invariant
            i <= lines.len(),
            text == lines.deep_view(),
            renderer.lo() == selection.lo(),
            renderer.hi() == selection.hi(),
            renderer.offset() == line_start(text, i as int),
            renderer.carried() == carried_into(text, i as int, selection.lo(), selection.hi()),
            styled.deep_view() == rendered(text, selection).take(i as int),
            styled.len() == i,
        decreases lines.len() - i,
    {
        let ghost before = styled.deep_view();
        let line = renderer.render_line(&lines[i]);
        styled.push(line);
        proof {
            assert(text[i as int] == lines[i as int].deep_view());
            assert(styled.deep_view() =~= before.push(line@));
            assert(styled.deep_view() =~= rendered(text, selection).take(i + 1));
        }
        i += 1;
    }
    proof {
        assert(styled.deep_view() =~= rendered(text, selection));
    }
    styled
}

/// Renders a text under a selection: the text is split at its line feeds,
/// each line is broken into grapheme clusters, and the clusters that begin
/// in a cell that the selection covers are put into reversed runs. Cells
/// are counted through the whole text, each line taking one more than its
/// clusters occupy, so a selection past the last line's trailing cell shows
/// nowhere. There is one styled line for each line of the text, and its
/// runs spell the line and one blank.
pub fn render(content: &str, selection: SelectionRange) -> (styled: Vec<StyledLine>)
    ensures
        styled.deep_view() == rendered(measured_text(content@), selection),
        styled.len() == lines_of(content@).len(),
        forall|i: int|
            0 <= i < styled.len() ==> text_of(clusters_in(#[trigger] styled.deep_view()[i]))
                == lines_of(content@)[i].push(' '),
{
    let lines = measure_text(content);
    let styled = render_lines(&lines, selection);
    proof {
        let text = lines.deep_view();
        assert(styled.deep_view().len() == styled.len());
        assert(text.len() == lines.len());
        assert(rendered(text, selection).len() == text.len());
        assert(measured_text(content@).len() == lines_of(content@).len());
        assert forall|i: int| 0 <= i < styled.len() implies text_of(
            clusters_in(#[trigger] styled.deep_view()[i]),
        ) == lines_of(content@)[i].push(' ') by {
            lemma_runs_keep_the_clusters(
                text[i].push(trailing_cell()),
                line_start(text, i),
                selection.lo(),
                selection.hi(),
                carried_into(text, i, selection.lo(), selection.hi()),
            );
            lemma_text_of_push(text[i], trailing_cell());
            assert(text_of(text[i]) + seq![' '] =~= lines_of(content@)[i].push(' '));
        }
    }
    styled
}

} // verus!
