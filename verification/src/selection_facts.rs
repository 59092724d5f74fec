//! What a caret or a selection shows in the lines of a text.

use vstd::prelude::*;
use crate::cluster::{cell_width, cells_of, trailing_cell, ClusterView};
use crate::render::{
    carried_into, coalesced, highlighted, line_runs, line_start, measured_text, rendered, RunView,
};
use crate::run_facts::{
    lemma_cells_grow, lemma_cells_of_push, lemma_starting_before, lemma_three_segments,
    lemma_uniform_segment, place_all, starting_before,
};
use crate::selection::SelectionRange;

verus! {

/// Whether run `r` is reversed and no other run is.
pub open spec fn only_reversed_run(runs: Seq<RunView>, r: int) -> bool {
    &&& 0 <= r < runs.len()
    &&& runs[r].reversed
    &&& forall|j: int| 0 <= j < runs.len() && j != r ==> !(#[trigger] runs[j]).reversed
}

/// With a caret at the cell where cell `n` of a line begins, and normal
/// style carried in, the line falls into the cells before it, the cell
/// itself as the one reversed run, and the cells after it, if there are any.
pub proof fn lemma_caret_runs(cells: Seq<ClusterView>, start: nat, caret: nat, n: int)
    requires
        0 <= n < cells.len(),
        caret == start + cells_of(cells.take(n)),
    ensures
        coalesced(cells, start, caret, caret + 1, false) == seq![
            RunView { clusters: cells.take(n), reversed: false },
            RunView { clusters: seq![cells[n]], reversed: true },
        ] + if n + 1 < cells.len() {
            seq![RunView { clusters: cells.skip(n + 1), reversed: false }]
        } else {
            Seq::empty()
        },
{
    let lo = caret;
    let hi = caret + 1;
    let a = starting_before(cells, start, lo);
    let b = starting_before(cells, start, hi);
    lemma_three_segments(cells, start, lo, hi, false);
    lemma_starting_before(cells, start, lo);
    lemma_starting_before(cells, start, hi);
    assert(a == n) by {
        if a < n {
            lemma_cells_grow(cells, a, n);
            assert(!(start + cells_of(cells.take(a)) < lo));
        }
        assert(!(start + cells_of(cells.take(n)) < lo));
    }
    assert(b == n + 1) by {
        assert(start + cells_of(cells.take(n)) < hi);
        if n + 1 < b {
            lemma_cells_grow(cells, n, n + 1);
            assert(start + cells_of(cells.take(n + 1)) < hi);
        }
    }
    let front = seq![RunView { clusters: Seq::<ClusterView>::empty(), reversed: false }];
    let before = place_all(front, cells.take(n), false);
    assert(before =~= seq![RunView { clusters: cells.take(n), reversed: false }]) by {
        if n > 0 {
            assert(front.last().clusters + cells.take(n) =~= cells.take(n));
        } else {
            assert(cells.take(n) =~= Seq::<ClusterView>::empty());
        }
    }
    assert(cells.subrange(n, n + 1) =~= seq![cells[n]]);
    let upto = place_all(before, cells.subrange(n, n + 1), true);
    assert(upto =~= seq![
        RunView { clusters: cells.take(n), reversed: false },
        RunView { clusters: seq![cells[n]], reversed: true },
    ]);
    let all = place_all(upto, cells.skip(n + 1), false);
    assert(all =~= upto + if n + 1 < cells.len() {
        seq![RunView { clusters: cells.skip(n + 1), reversed: false }]
    } else {
        Seq::empty()
    });
}

/// A caret that stands where a cluster of the line, or its trailing cell,
/// begins shows as exactly one reversed run, which holds that cluster and
/// nothing else. The line begins at cell `start` in normal style; cluster
/// `n` is the one at the caret, the trailing cell if `n` is the number of
/// clusters.
pub proof fn lemma_caret_is_one_run(
    line: Seq<ClusterView>,
    start: nat,
    selection: SelectionRange,
    n: int,
)
    requires
        selection.start == selection.end,
        0 <= n <= line.len(),
        selection.lo() == start + cells_of(line.take(n)),
    ensures
        only_reversed_run(line_runs(line, start, selection.lo(), selection.hi(), false), 1),
        line_runs(line, start, selection.lo(), selection.hi(), false)[1].clusters
            == seq![line.push(trailing_cell())[n]],
{
    let cells = line.push(trailing_cell());
    assert(cells.take(n) =~= line.take(n));
    lemma_caret_runs(cells, start, selection.lo(), n);
}

/// A caret that stands where a cluster one cell wide begins, or at the end
/// of the line, shows as exactly one reversed run of exactly one cell.
pub proof fn lemma_caret_is_one_cell(
    line: Seq<ClusterView>,
    start: nat,
    selection: SelectionRange,
    n: int,
)
    requires
        selection.start == selection.end,
        0 <= n <= line.len(),
        selection.lo() == start + cells_of(line.take(n)),
        cell_width(line.push(trailing_cell())[n]) == 1,
    ensures
        only_reversed_run(line_runs(line, start, selection.lo(), selection.hi(), false), 1),
        cells_of(line_runs(line, start, selection.lo(), selection.hi(), false)[1].clusters) == 1,
{
    lemma_caret_is_one_run(line, start, selection, n);
    let cluster = line.push(trailing_cell())[n];
    lemma_cells_of_push(Seq::empty(), cluster);
    assert(Seq::<ClusterView>::empty().push(cluster) =~= seq![cluster]);
}

/// In a text of any number of lines, a caret that stands where a cluster
/// one cell wide of some line begins, or at the end of that line, shows in
/// that line as exactly one reversed run of exactly one cell.
pub proof fn lemma_caret_in_text_is_one_cell(
    lines: Seq<Seq<ClusterView>>,
    selection: SelectionRange,
    i: int,
    n: int,
)
    requires
        selection.start == selection.end,
        0 <= i < lines.len(),
        0 <= n <= lines[i].len(),
        selection.lo() == line_start(lines, i) + cells_of(lines[i].take(n)),
        cell_width(lines[i].push(trailing_cell())[n]) == 1,
    ensures
        only_reversed_run(rendered(lines, selection)[i], 1),
        cells_of(rendered(lines, selection)[i][1].clusters) == 1,
{
    assert(!carried_into(lines, i, selection.lo(), selection.hi()));
    lemma_caret_is_one_cell(lines[i], line_start(lines, i), selection, n);
}

/// A line whose clusters are each one cell wide holds as many cells as
/// clusters.
pub proof fn lemma_narrow_line_cells(line: Seq<ClusterView>)
    requires
        forall|j: int| 0 <= j < line.len() ==> cell_width(#[trigger] line[j]) == 1,
    ensures
        cells_of(line) == line.len(),
    decreases line.len(),
{
    if line.len() > 0 {
        lemma_narrow_line_cells(line.drop_last());
    }
}

/// On a line whose clusters are each one cell wide, a caret at any cell
/// from the first of the line to its trailing cell shows as exactly one
/// reversed run of exactly one cell. The line begins at cell `start` in
/// normal style.
pub proof fn lemma_caret_on_a_narrow_line_is_one_cell(
    line: Seq<ClusterView>,
    start: nat,
    selection: SelectionRange,
)
    requires
        forall|j: int| 0 <= j < line.len() ==> cell_width(#[trigger] line[j]) == 1,
        selection.start == selection.end,
        start <= selection.lo() <= start + cells_of(line),
    ensures
        only_reversed_run(line_runs(line, start, selection.lo(), selection.hi(), false), 1),
        cells_of(line_runs(line, start, selection.lo(), selection.hi(), false)[1].clusters) == 1,
{
    let n = selection.lo() - start;
    lemma_narrow_line_cells(line);
    lemma_narrow_line_cells(line.take(n));
    lemma_caret_is_one_cell(line, start, selection, n);
}

/// Rendering keeps no state: two renderings of the same text under the
/// same selection are the same.
pub proof fn lemma_rendering_twice_is_the_same(
    content: Seq<char>,
    selection: SelectionRange,
    first: Seq<Seq<RunView>>,
    second: Seq<Seq<RunView>>,
)
    requires
        first == rendered(measured_text(content), selection),
        second == rendered(measured_text(content), selection),
    ensures
        first == second,
{
}

/// The order in which the two ends of a selection are given does not
/// matter to what is rendered.
pub proof fn lemma_selection_ends_may_be_swapped(
    lines: Seq<Seq<ClusterView>>,
    selection: SelectionRange,
)
    ensures
        rendered(lines, selection) == rendered(
            lines,
            SelectionRange { start: selection.end, end: selection.start },
        ),
{
    let swapped = SelectionRange { start: selection.end, end: selection.start };
    assert(swapped.lo() == selection.lo());
    assert(swapped.hi() == selection.hi());
    assert(rendered(lines, selection) =~= rendered(lines, swapped));
}

/// A line of a text, with its trailing cell, ends at or before the cell
/// where any later line begins.
pub proof fn lemma_line_starts_grow(lines: Seq<Seq<ClusterView>>, i: int, j: int)
    requires
        0 <= i < j,
    ensures
        line_start(lines, i) + cells_of(lines[i]) < line_start(lines, j),
    decreases j - i,
{
    if i < j - 1 {
        lemma_line_starts_grow(lines, i, j - 1);
    }
}

/// A line none of whose cells begins inside the highlighted range, and
/// into which normal style is carried, is a single run in normal style.
pub proof fn lemma_line_without_highlight(
    cells: Seq<ClusterView>,
    start: nat,
    lo: nat,
    hi: nat,
)
    requires
        cells.len() > 0,
        forall|j: int|
            0 <= j < cells.len() ==> !highlighted(
                start + cells_of(#[trigger] cells.take(j)),
                lo,
                hi,
            ),
    ensures
        coalesced(cells, start, lo, hi, false) == seq![
            RunView { clusters: cells, reversed: false },
        ],
{
    let n = cells.len() as int;
    lemma_uniform_segment(cells, start, lo, hi, false, 0, n, false);
    assert(cells.take(0) =~= Seq::<ClusterView>::empty());
    assert(cells.take(n) =~= cells);
    assert(cells.subrange(0, n) =~= cells);
    let front = seq![RunView { clusters: Seq::<ClusterView>::empty(), reversed: false }];
    assert(front.last().clusters + cells =~= cells);
    assert(place_all(front, cells, false) =~= seq![RunView { clusters: cells, reversed: false }]);
}

/// A caret that stands where no cluster of the line begins, nor its
/// trailing cell, is not shown in the line: it lies in the second cell of
/// a wide cluster, or outside the line. The line begins at cell `start` in
/// normal style.
pub proof fn lemma_caret_between_cluster_starts_is_not_shown(
    line: Seq<ClusterView>,
    start: nat,
    selection: SelectionRange,
)
    requires
        selection.start == selection.end,
        forall|n: int|
            0 <= n <= line.len() ==> selection.lo() != start + cells_of(#[trigger] line.take(n)),
    ensures
        line_runs(line, start, selection.lo(), selection.hi(), false) == seq![
            RunView { clusters: line.push(trailing_cell()), reversed: false },
        ],
{
    let cells = line.push(trailing_cell());
    assert forall|j: int| 0 <= j < cells.len() implies !highlighted(
        start + cells_of(#[trigger] cells.take(j)),
        selection.lo(),
        selection.hi(),
    ) by {
        assert(cells.take(j) =~= line.take(j));
    }
    lemma_line_without_highlight(cells, start, selection.lo(), selection.hi());
}

/// A selection that begins at or after the end of the text, that is past
/// the trailing cell of the last line, highlights nothing: every line is a
/// single run in normal style.
pub proof fn lemma_selection_past_the_text_shows_nothing(
    lines: Seq<Seq<ClusterView>>,
    selection: SelectionRange,
    i: int,
)
    requires
        0 <= i < lines.len(),
        selection.lo() >= line_start(lines, lines.len() as int),
    ensures
        rendered(lines, selection)[i] == seq![
            RunView { clusters: lines[i].push(trailing_cell()), reversed: false },
        ],
{
    let cells = lines[i].push(trailing_cell());
    let start = line_start(lines, i);
    let lo = selection.lo();
    let hi = selection.hi();
    let n = cells.len() as int;
    lemma_line_starts_grow(lines, i, lines.len() as int);
    if i > 0 {
        lemma_line_starts_grow(lines, i - 1, i);
    }
    assert(!carried_into(lines, i, lo, hi));
    assert forall|j: int| 0 <= j < n implies !highlighted(
        start + cells_of(#[trigger] cells.take(j)),
        lo,
        hi,
    ) by {
        assert(cells.take(n - 1) =~= lines[i]);
        if j < n - 1 {
            lemma_cells_grow(cells, j, n - 1);
        }
    }
    lemma_line_without_highlight(cells, start, lo, hi);
}

} // verus!
