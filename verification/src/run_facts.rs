//! What holds of the runs of every line, whatever the text and the selection.

use vstd::prelude::*;
use crate::cluster::{cell_width, cells_of, trailing_cell, ClusterView};
use crate::render::{
    carried_into, coalesced, highlighted, line_runs, line_start, place, rendered, RunView,
};
use crate::selection::SelectionRange;

verus! {

/// The number of display cells that a sequence of runs occupies.
pub open spec fn cells_in(runs: Seq<RunView>) -> nat
    decreases runs.len(),
{
    if runs.len() == 0 {
        0
    } else {
        cells_in(runs.drop_last()) + cells_of(runs.last().clusters)
    }
}

/// The clusters of a sequence of runs, one run after the other.
pub open spec fn clusters_in(runs: Seq<RunView>) -> Seq<ClusterView>
    decreases runs.len(),
{
    if runs.len() == 0 {
        Seq::empty()
    } else {
        clusters_in(runs.drop_last()) + runs.last().clusters
    }
}

/// The runs after a whole segment of clusters of one style: an empty
/// segment changes nothing, one styled like the last run joins it, and any
/// other forms a new run.
pub open spec fn place_all(runs: Seq<RunView>, segment: Seq<ClusterView>, inside: bool) -> Seq<
    RunView,
>
    recommends
        runs.len() > 0,
{
    if segment.len() == 0 {
        runs
    } else if inside == runs.last().reversed {
        runs.drop_last().push(
            RunView { clusters: runs.last().clusters + segment, reversed: inside },
        )
    } else {
        runs.push(RunView { clusters: segment, reversed: inside })
    }
}

/// How many of the cells, the first of which stands at cell `start`, begin
/// before the cell `bound`. They are the first so many, since each cell
/// begins after the one before it.
pub open spec fn starting_before(cells: Seq<ClusterView>, start: nat, bound: nat) -> int
    decreases cells.len(),
{
    if cells.len() == 0 {
        0
    } else if start + cells_of(cells.drop_last()) < bound {
        cells.len() as int
    } else {
        starting_before(cells.drop_last(), start, bound)
    }
}

/// One more cluster adds its cell width to the cells of a sequence.
pub proof fn lemma_cells_of_push(clusters: Seq<ClusterView>, cluster: ClusterView)
    ensures
        cells_of(clusters.push(cluster)) == cells_of(clusters) + cell_width(cluster),
{
    assert(clusters.push(cluster).drop_last() =~= clusters);
}

/// Every cluster takes up at least one cell, so a longer prefix of a line
/// occupies more cells than a shorter one.
pub proof fn lemma_cells_grow(cells: Seq<ClusterView>, i: int, j: int)
    requires
        0 <= i < j <= cells.len(),
    ensures
        cells_of(cells.take(i)) < cells_of(cells.take(j)),
    decreases j - i,
{
    assert(cells.take(j).drop_last() =~= cells.take(j - 1));
    if i < j - 1 {
        lemma_cells_grow(cells, i, j - 1);
    }
}

/// A cell begins before `bound` exactly if it is among the first
/// `starting_before` cells.
pub proof fn lemma_starting_before(cells: Seq<ClusterView>, start: nat, bound: nat)
    ensures
        0 <= starting_before(cells, start, bound) <= cells.len(),
        forall|j: int|
            0 <= j < cells.len() ==> ((start + cells_of(#[trigger] cells.take(j)) < bound) == (j
                < starting_before(cells, start, bound))),
    decreases cells.len(),
{
    if cells.len() > 0 {
        let last = cells.len() - 1;
        let earlier = cells.drop_last();
        assert(cells.take(last) =~= earlier);
        lemma_starting_before(earlier, start, bound);
        assert forall|j: int| 0 <= j < cells.len() implies ((start + cells_of(
            #[trigger] cells.take(j),
        ) < bound) == (j < starting_before(cells, start, bound))) by {
            if j < last {
                assert(earlier.take(j) =~= cells.take(j));
                lemma_cells_grow(cells, j, last);
            }
        }
    }
}

/// There is always a last run.
pub proof fn lemma_coalesced_is_not_empty(
    cells: Seq<ClusterView>,
    start: nat,
    lo: nat,
    hi: nat,
    carried: bool,
)
    ensures
        coalesced(cells, start, lo, hi, carried).len() > 0,
    decreases cells.len(),
{
    if cells.len() > 0 {
        lemma_coalesced_is_not_empty(cells.drop_last(), start, lo, hi, carried);
    }
}

/// Placing a segment and then one more cluster of the same style is
/// placing the segment with that cluster at its end.
proof fn lemma_place_after_place_all(
    runs: Seq<RunView>,
    segment: Seq<ClusterView>,
    cluster: ClusterView,
    inside: bool,
)
    requires
        runs.len() > 0,
    ensures
        place(place_all(runs, segment, inside), cluster, inside) == place_all(
            runs,
            segment.push(cluster),
            inside,
        ),
{
    let placed = place_all(runs, segment, inside);
    if segment.len() == 0 {
        assert(segment.push(cluster) =~= seq![cluster]);
        if inside == runs.last().reversed {
            assert(runs.last().clusters.push(cluster) =~= runs.last().clusters + seq![cluster]);
        }
    } else if inside == runs.last().reversed {
        assert(placed.drop_last() =~= runs.drop_last());
        assert((runs.last().clusters + segment).push(cluster) =~= runs.last().clusters
            + segment.push(cluster));
    } else {
        assert(placed.drop_last() =~= runs);
    }
}

/// Cells `p` up to `q` of a line, if they are all inside the highlighted
/// range or all outside it, are placed as one segment.
pub proof fn lemma_uniform_segment(
    cells: Seq<ClusterView>,
    start: nat,
    lo: nat,
    hi: nat,
    carried: bool,
    p: int,
    q: int,
    inside: bool,
)
    requires
        0 <= p <= q <= cells.len(),
        forall|j: int|
            p <= j < q ==> highlighted(start + cells_of(#[trigger] cells.take(j)), lo, hi)
                == inside,
    ensures
        coalesced(cells.take(q), start, lo, hi, carried) == place_all(
            coalesced(cells.take(p), start, lo, hi, carried),
            cells.subrange(p, q),
            inside,
        ),
    decreases q - p,
{
    if p == q {
        assert(cells.subrange(p, q) =~= Seq::<ClusterView>::empty());
    } else {
        lemma_uniform_segment(cells, start, lo, hi, carried, p, q - 1, inside);
        lemma_coalesced_is_not_empty(cells.take(p), start, lo, hi, carried);
        assert(cells.take(q).drop_last() =~= cells.take(q - 1));
        assert(cells.subrange(p, q) =~= cells.subrange(p, q - 1).push(cells[q - 1]));
        lemma_place_after_place_all(
            coalesced(cells.take(p), start, lo, hi, carried),
            cells.subrange(p, q - 1),
            cells[q - 1],
            inside,
        );
    }
}

/// A line falls into at most three runs that hold a cluster: the clusters
/// that begin before the highlighted range, in normal style; those that
/// begin inside it, reversed; and those that begin at or after its end, in
/// normal style again. An empty run in the carried style stays in front if
/// the first of them is styled otherwise.
pub proof fn lemma_three_segments(
    cells: Seq<ClusterView>,
    start: nat,
    lo: nat,
    hi: nat,
    carried: bool,
)
    requires
        lo <= hi,
    ensures
        0 <= starting_before(cells, start, lo) <= starting_before(cells, start, hi) <= cells.len(),
        coalesced(cells, start, lo, hi, carried) == place_all(
            place_all(
                place_all(
                    seq![RunView { clusters: Seq::empty(), reversed: carried }],
                    cells.take(starting_before(cells, start, lo)),
                    false,
                ),
                cells.subrange(
                    starting_before(cells, start, lo),
                    starting_before(cells, start, hi),
                ),
                true,
            ),
            cells.skip(starting_before(cells, start, hi)),
            false,
        ),
{
    let a = starting_before(cells, start, lo);
    let b = starting_before(cells, start, hi);
    let n = cells.len() as int;
    lemma_starting_before(cells, start, lo);
    lemma_starting_before(cells, start, hi);
    if b < a {
        assert(start + cells_of(cells.take(b)) < lo);
    }
    lemma_uniform_segment(cells, start, lo, hi, carried, 0, a, false);
    lemma_uniform_segment(cells, start, lo, hi, carried, a, b, true);
    lemma_uniform_segment(cells, start, lo, hi, carried, b, n, false);
    assert(cells.take(0) =~= Seq::<ClusterView>::empty());
    assert(cells.take(n) =~= cells);
    assert(cells.subrange(0, a) =~= cells.take(a));
    assert(cells.subrange(b, n) =~= cells.skip(b));
}

/// The runs of a line hold its clusters and the trailing cell, each once
/// and in order: rendering loses nothing and adds nothing else.
pub proof fn lemma_runs_keep_the_clusters(
    cells: Seq<ClusterView>,
    start: nat,
    lo: nat,
    hi: nat,
    carried: bool,
)
    ensures
        clusters_in(coalesced(cells, start, lo, hi, carried)) == cells,
    decreases cells.len(),
{
    let runs = coalesced(cells, start, lo, hi, carried);
    if cells.len() == 0 {
        assert(runs.drop_last() =~= Seq::<RunView>::empty());
        assert(clusters_in(runs.drop_last()) =~= Seq::<ClusterView>::empty());
        assert(clusters_in(runs) =~= cells);
    } else {
        let earlier = coalesced(cells.drop_last(), start, lo, hi, carried);
        lemma_runs_keep_the_clusters(cells.drop_last(), start, lo, hi, carried);
        lemma_coalesced_is_not_empty(cells.drop_last(), start, lo, hi, carried);
        let inside = highlighted(start + cells_of(cells.drop_last()), lo, hi);
        if inside == earlier.last().reversed {
            assert(runs.drop_last() =~= earlier.drop_last());
        } else {
            assert(runs.drop_last() =~= earlier);
        }
        assert(clusters_in(runs) =~= clusters_in(earlier).push(cells.last()));
        assert(cells.drop_last().push(cells.last()) =~= cells);
    }
}

/// Every cluster sits in a run of its own style: cluster `k` of run `r`
/// is the cluster of the line that the clusters of the runs before it and
/// the `k` clusters before it in its run lead up to, and the run is
/// reversed exactly if that cluster begins inside the highlighted range.
pub proof fn lemma_runs_are_styled_by_membership(
    cells: Seq<ClusterView>,
    start: nat,
    lo: nat,
    hi: nat,
    carried: bool,
    r: int,
    k: int,
)
    requires
        0 <= r < coalesced(cells, start, lo, hi, carried).len(),
        0 <= k < coalesced(cells, start, lo, hi, carried)[r].clusters.len(),
    ensures
        ({
            let runs = coalesced(cells, start, lo, hi, carried);
            let at = clusters_in(runs.take(r)).len() + k;
            &&& at < cells.len()
            &&& runs[r].clusters[k] == cells[at]
            &&& runs[r].reversed == highlighted(start + cells_of(cells.take(at)), lo, hi)
        }),
    decreases cells.len(),
{
    let runs = coalesced(cells, start, lo, hi, carried);
    if cells.len() > 0 {
        let before = cells.drop_last();
        let earlier = coalesced(before, start, lo, hi, carried);
        let inside = highlighted(start + cells_of(before), lo, hi);
        let last = runs.len() - 1;
        lemma_coalesced_is_not_empty(before, start, lo, hi, carried);
        lemma_runs_keep_the_clusters(before, start, lo, hi, carried);
        assert(cells.take(cells.len() - 1) =~= before);
        if r < last {
            assert(runs.take(r) =~= earlier.take(r));
            assert(runs[r] == earlier[r]);
            lemma_runs_are_styled_by_membership(before, start, lo, hi, carried, r, k);
            let at = clusters_in(runs.take(r)).len() + k;
            assert(before.take(at) =~= cells.take(at));
        } else if inside == earlier.last().reversed {
            assert(runs.take(r) =~= earlier.drop_last());
            assert(earlier.take(earlier.len() as int) =~= earlier);
            assert(earlier.take(r + 1).drop_last() =~= earlier.take(r));
            if k < earlier.last().clusters.len() {
                lemma_runs_are_styled_by_membership(before, start, lo, hi, carried, r, k);
                let at = clusters_in(runs.take(r)).len() + k;
                assert(before.take(at) =~= cells.take(at));
            }
        } else {
            assert(runs.take(r) =~= earlier);
        }
    }
}

/// Runs alternate: each run is styled otherwise than the one before it.
/// And every run but the first holds a cluster.
pub proof fn lemma_runs_alternate(
    cells: Seq<ClusterView>,
    start: nat,
    lo: nat,
    hi: nat,
    carried: bool,
    r: int,
)
    requires
        0 < r < coalesced(cells, start, lo, hi, carried).len(),
    ensures
        coalesced(cells, start, lo, hi, carried)[r].reversed != coalesced(
            cells,
            start,
            lo,
            hi,
            carried,
        )[r - 1].reversed,
        coalesced(cells, start, lo, hi, carried)[r].clusters.len() > 0,
    decreases cells.len(),
{
    let runs = coalesced(cells, start, lo, hi, carried);
    if cells.len() > 0 {
        let before = cells.drop_last();
        let earlier = coalesced(before, start, lo, hi, carried);
        lemma_coalesced_is_not_empty(before, start, lo, hi, carried);
        if r < earlier.len() {
            lemma_runs_alternate(before, start, lo, hi, carried, r);
        }
    }
}

/// The first run is empty exactly if the first cell of the line is styled
/// otherwise than the style carried in; it is then in the carried style.
pub proof fn lemma_first_run(
    cells: Seq<ClusterView>,
    start: nat,
    lo: nat,
    hi: nat,
    carried: bool,
)
    requires
        cells.len() > 0,
    ensures
        (coalesced(cells, start, lo, hi, carried)[0].clusters.len() == 0) == (highlighted(
            start,
            lo,
            hi,
        ) != carried),
        coalesced(cells, start, lo, hi, carried)[0].clusters.len() == 0 ==> coalesced(
            cells,
            start,
            lo,
            hi,
            carried,
        )[0].reversed == carried,
    decreases cells.len(),
{
    let before = cells.drop_last();
    lemma_coalesced_is_not_empty(before, start, lo, hi, carried);
    if before.len() > 0 {
        lemma_first_run(before, start, lo, hi, carried);
    } else {
        assert(cells_of(before) == 0);
    }
}

/// Where in its line cluster `k` of run `r` stands: after the clusters of
/// the runs before it and the `k` clusters before it in its own run.
pub open spec fn position(runs: Seq<RunView>, r: int, k: int) -> int {
    clusters_in(runs.take(r)).len() + k
}

/// Whether the runs are the line cut where the style changes, and only
/// there: they hold the cells of the line in order; each run is reversed
/// exactly if its clusters begin inside the highlighted range; each run
/// after the first holds a cluster and is styled otherwise than the run
/// before it; and the first run is empty exactly if the first cell is
/// styled otherwise than the style carried in, which is then its own.
pub open spec fn cut_at_style_changes(
    runs: Seq<RunView>,
    cells: Seq<ClusterView>,
    start: nat,
    lo: nat,
    hi: nat,
    carried: bool,
) -> bool {
    &&& runs.len() > 0
    &&& clusters_in(runs) == cells
    &&& forall|r: int, k: int|
        0 <= r < runs.len() && 0 <= k < runs[r].clusters.len() ==> runs[r].reversed
            == highlighted(start + cells_of(cells.take(#[trigger] position(runs, r, k))), lo, hi)
    &&& forall|r: int|
        0 < r < runs.len() ==> (#[trigger] runs[r]).reversed != runs[r - 1].reversed
            && runs[r].clusters.len() > 0
    &&& runs[0].clusters.len() == 0 ==> runs[0].reversed == carried
    &&& cells.len() > 0 ==> ((runs[0].clusters.len() == 0) == (highlighted(start, lo, hi)
        != carried))
}

/// The runs of a line are the line cut where the style changes.
pub proof fn lemma_runs_are_cut_at_style_changes(
    cells: Seq<ClusterView>,
    start: nat,
    lo: nat,
    hi: nat,
    carried: bool,
)
    ensures
        cut_at_style_changes(
            coalesced(cells, start, lo, hi, carried),
            cells,
            start,
            lo,
            hi,
            carried,
        ),
{
    let runs = coalesced(cells, start, lo, hi, carried);
    lemma_coalesced_is_not_empty(cells, start, lo, hi, carried);
    lemma_runs_keep_the_clusters(cells, start, lo, hi, carried);
    assert forall|r: int, k: int|
        0 <= r < runs.len() && 0 <= k < runs[r].clusters.len() implies runs[r].reversed
        == highlighted(start + cells_of(cells.take(#[trigger] position(runs, r, k))), lo, hi) by {
        lemma_runs_are_styled_by_membership(cells, start, lo, hi, carried, r, k);
    }
    assert forall|r: int| 0 < r < runs.len() implies (#[trigger] runs[r]).reversed != runs[r
        - 1].reversed && runs[r].clusters.len() > 0 by {
        lemma_runs_alternate(cells, start, lo, hi, carried, r);
    }
    if cells.len() > 0 {
        lemma_first_run(cells, start, lo, hi, carried);
    }
}

/// The clusters of the runs up to run `r` and the first `k` of its own are
/// clusters of the line: a cluster's position lies within the line.
proof fn lemma_position_is_in_the_line(runs: Seq<RunView>, r: int, k: int)
    requires
        0 <= r < runs.len(),
        0 <= k < runs[r].clusters.len(),
    ensures
        0 <= position(runs, r, k) < clusters_in(runs).len(),
        r < runs.len() - 1 ==> position(runs, r, k) < clusters_in(runs.drop_last()).len(),
    decreases runs.len(),
{
    let last = runs.len() - 1;
    if r == last {
        assert(runs.take(r) =~= runs.drop_last());
    } else {
        lemma_position_is_in_the_line(runs.drop_last(), r, k);
        assert(runs.drop_last().take(r) =~= runs.take(r));
    }
}

/// One more run adds its clusters at the end.
proof fn lemma_clusters_in_push(runs: Seq<RunView>, run: RunView)
    ensures
        clusters_in(runs.push(run)) == clusters_in(runs) + run.clusters,
{
    assert(runs.push(run).drop_last() =~= runs);
}

/// A line can be cut where the style changes in one way only: any runs
/// that are such a cut are the runs of the line.
pub proof fn lemma_cut_at_style_changes_is_unique(
    runs: Seq<RunView>,
    cells: Seq<ClusterView>,
    start: nat,
    lo: nat,
    hi: nat,
    carried: bool,
)
    requires
        cut_at_style_changes(runs, cells, start, lo, hi, carried),
    ensures
        runs == coalesced(cells, start, lo, hi, carried),
    decreases cells.len(),
{
    let last = runs.len() - 1;
    let tail = runs[last];
    assert(runs.take(last) =~= runs.drop_last());
    assert(runs.drop_last().push(tail) =~= runs);
    if cells.len() == 0 {
        assert(tail.clusters.len() == 0);
        if last > 0 {
            assert(runs[last].clusters.len() > 0);
        }
        assert(runs =~= seq![RunView { clusters: Seq::empty(), reversed: carried }]);
    } else {
        let n = cells.len() as int;
        let before = cells.drop_last();
        let inside = highlighted(start + cells_of(before), lo, hi);
        assert(cells.take(n - 1) =~= before);
        if last == 0 {
            assert(clusters_in(runs.drop_last()) =~= Seq::<ClusterView>::empty());
        } else {
            assert(runs[last].clusters.len() > 0);
        }
        let m = tail.clusters.len() as int;
        assert(m > 0);
        assert(clusters_in(runs.drop_last()).len() + m == n);
        assert(tail.clusters[m - 1] == cells[n - 1]);
        assert(position(runs, last, m - 1) == n - 1);
        assert(tail.reversed == inside);
        if m >= 2 || last == 0 {
            let shorter = RunView { clusters: tail.clusters.drop_last(), reversed: tail.reversed };
            let earlier = runs.drop_last().push(shorter);
            lemma_clusters_in_push(runs.drop_last(), shorter);
            assert(clusters_in(earlier) =~= before);
            assert forall|r: int, k: int|
                0 <= r < earlier.len() && 0 <= k < earlier[r].clusters.len() implies earlier[r].reversed
                == highlighted(
                start + cells_of(before.take(#[trigger] position(earlier, r, k))),
                lo,
                hi,
            ) by {
                assert(earlier.take(r) =~= runs.take(r));
                assert(position(runs, r, k) == position(earlier, r, k));
                lemma_position_is_in_the_line(runs, r, k);
                assert(before.take(position(earlier, r, k)) =~= cells.take(
                    position(earlier, r, k),
                ));
            }
            assert forall|r: int| 0 < r < earlier.len() implies (#[trigger] earlier[r]).reversed
                != earlier[r - 1].reversed && earlier[r].clusters.len() > 0 by {
                assert(runs[r].clusters.len() > 0);
            }
            if last == 0 && m == 1 {
                assert(before =~= Seq::<ClusterView>::empty());
                assert(cells_of(before) == 0);
            }
            lemma_cut_at_style_changes_is_unique(earlier, before, start, lo, hi, carried);
            assert(earlier.drop_last() =~= runs.drop_last());
            assert(shorter.clusters.push(cells[n - 1]) =~= tail.clusters);
        } else {
            let earlier = runs.drop_last();
            lemma_clusters_in_push(earlier, tail);
            assert(clusters_in(earlier) =~= before);
            assert(tail.clusters =~= seq![cells[n - 1]]);
            assert forall|r: int, k: int|
                0 <= r < earlier.len() && 0 <= k < earlier[r].clusters.len() implies earlier[r].reversed
                == highlighted(
                start + cells_of(before.take(#[trigger] position(earlier, r, k))),
                lo,
                hi,
            ) by {
                assert(earlier.take(r) =~= runs.take(r));
                assert(position(runs, r, k) == position(earlier, r, k));
                lemma_position_is_in_the_line(runs, r, k);
                assert(before.take(position(earlier, r, k)) =~= cells.take(
                    position(earlier, r, k),
                ));
            }
            assert forall|r: int| 0 < r < earlier.len() implies (#[trigger] earlier[r]).reversed
                != earlier[r - 1].reversed && earlier[r].clusters.len() > 0 by {
                assert(runs[r].clusters.len() > 0);
            }
            if before.len() == 0 {
                assert(earlier[0] == runs[0]);
            }
            lemma_cut_at_style_changes_is_unique(earlier, before, start, lo, hi, carried);
            assert(runs[last].reversed != runs[last - 1].reversed);
        }
    }
}

/// The cells of the runs of a sequence of cells add up to its cells.
pub proof fn lemma_runs_keep_the_cells(
    cells: Seq<ClusterView>,
    start: nat,
    lo: nat,
    hi: nat,
    carried: bool,
)
    ensures
        cells_in(coalesced(cells, start, lo, hi, carried)) == cells_of(cells),
    decreases cells.len(),
{
    let runs = coalesced(cells, start, lo, hi, carried);
    if cells.len() == 0 {
        assert(runs.drop_last() =~= Seq::<RunView>::empty());
        assert(cells_in(runs.drop_last()) == 0);
    } else {
        let earlier = coalesced(cells.drop_last(), start, lo, hi, carried);
        lemma_runs_keep_the_cells(cells.drop_last(), start, lo, hi, carried);
        lemma_coalesced_is_not_empty(cells.drop_last(), start, lo, hi, carried);
        let inside = highlighted(start + cells_of(cells.drop_last()), lo, hi);
        if inside == earlier.last().reversed {
            assert(runs.drop_last() =~= earlier.drop_last());
            lemma_cells_of_push(earlier.last().clusters, cells.last());
        } else {
            assert(runs.drop_last() =~= earlier);
            lemma_cells_of_push(Seq::empty(), cells.last());
            assert(Seq::<ClusterView>::empty().push(cells.last()) =~= seq![cells.last()]);
        }
    }
}

/// The cell widths of the runs of a line add up to the cells of the
/// line's clusters and one more, for the trailing cell.
pub proof fn lemma_line_width(line: Seq<ClusterView>, start: nat, lo: nat, hi: nat, carried: bool)
    ensures
        cells_in(line_runs(line, start, lo, hi, carried)) == cells_of(line) + 1,
{
    lemma_runs_keep_the_cells(line.push(trailing_cell()), start, lo, hi, carried);
    lemma_cells_of_push(line, trailing_cell());
}

/// The display columns of a sequence of clusters: their widths added up,
/// a cluster of no width counting for nothing.
pub open spec fn widths_of(clusters: Seq<ClusterView>) -> nat
    decreases clusters.len(),
{
    if clusters.len() == 0 {
        0
    } else {
        widths_of(clusters.drop_last()) + clusters.last().width
    }
}

/// Clusters of which none is of width zero occupy as many cells as they
/// are wide in columns.
pub proof fn lemma_cells_are_columns(clusters: Seq<ClusterView>)
    requires
        forall|j: int| 0 <= j < clusters.len() ==> (#[trigger] clusters[j]).width > 0,
    ensures
        cells_of(clusters) == widths_of(clusters),
    decreases clusters.len(),
{
    if clusters.len() > 0 {
        lemma_cells_are_columns(clusters.drop_last());
    }
}

/// On a line without a cluster of width zero, the cell widths of the runs
/// add up to the display width of the line and one more.
pub proof fn lemma_line_width_in_columns(
    line: Seq<ClusterView>,
    start: nat,
    lo: nat,
    hi: nat,
    carried: bool,
)
    requires
        forall|j: int| 0 <= j < line.len() ==> (#[trigger] line[j]).width > 0,
    ensures
        cells_in(line_runs(line, start, lo, hi, carried)) == widths_of(line) + 1,
{
    lemma_line_width(line, start, lo, hi, carried);
    lemma_cells_are_columns(line);
}

/// The cell widths of the runs of each line of a text add up to the cells
/// of the line's clusters and one more, for the trailing cell.
pub proof fn lemma_rendered_line_width(
    lines: Seq<Seq<ClusterView>>,
    selection: SelectionRange,
    i: int,
)
    requires
        0 <= i < lines.len(),
    ensures
        cells_in(rendered(lines, selection)[i]) == cells_of(lines[i]) + 1,
{
    lemma_line_width(
        lines[i],
        line_start(lines, i),
        selection.lo(),
        selection.hi(),
        carried_into(lines, i, selection.lo(), selection.hi()),
    );
}

} // verus!
