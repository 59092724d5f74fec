use canvas_editor::cluster::{measure_line, Cluster};
use canvas_editor::render::{
    measure_text, render, render_lines, LineRenderer, StyledLine, StyledRun,
};
use canvas_editor::selection::SelectionRange;
use canvas_editor::text::split_lines;

fn shape(line: &StyledLine) -> Vec<(String, bool)> {
    line.runs.iter().map(|run| (run.text(), run.reversed)).collect()
}

fn run(text: &str, reversed: bool) -> (String, bool) {
    (text.to_string(), reversed)
}

fn cells(run: &StyledRun) -> usize {
    run.clusters.iter().map(|cluster| cluster.cells()).sum()
}

#[test]
fn caret_inside_a_word_reverses_one_letter() {
    let lines = render("abc", SelectionRange::new(1, 1));
    assert_eq!(lines.len(), 1);
    assert_eq!(shape(&lines[0]), vec![run("a", false), run("b", true), run("c ", false)]);
}

#[test]
fn selection_across_a_line_break_uses_one_counter() {
    let lines = render("ab\ncd", SelectionRange::new(2, 4));
    assert_eq!(lines.len(), 2);
    assert_eq!(shape(&lines[0]), vec![run("ab", false), run(" ", true)]);
    assert_eq!(shape(&lines[1]), vec![run("c", true), run("d ", false)]);
}

#[test]
fn inverted_selection_is_put_in_order() {
    let forward = render("ab\ncd", SelectionRange::new(2, 4));
    let backward = render("ab\ncd", SelectionRange::new(4, 2));
    assert_eq!(forward, backward);
}

#[test]
fn empty_text_shows_the_caret_in_the_trailing_cell() {
    let lines = render("", SelectionRange::new(0, 0));
    assert_eq!(lines.len(), 1);
    assert_eq!(shape(&lines[0]), vec![run("", false), run(" ", true)]);
}

#[test]
fn empty_text_without_highlight_is_one_blank_run() {
    let lines = render("", SelectionRange::new(5, 9));
    assert_eq!(lines.len(), 1);
    assert_eq!(shape(&lines[0]), vec![run(" ", false)]);
}

#[test]
fn caret_at_the_start_leaves_an_empty_normal_run_in_front() {
    let lines = render("abc", SelectionRange::new(0, 0));
    assert_eq!(shape(&lines[0]), vec![run("", false), run("a", true), run("bc ", false)]);
}

#[test]
fn caret_at_the_end_of_a_line_reverses_the_trailing_cell() {
    let lines = render("abc", SelectionRange::new(3, 3));
    assert_eq!(shape(&lines[0]), vec![run("abc", false), run(" ", true)]);
}

#[test]
fn fully_selected_line_is_one_reversed_run() {
    let lines = render("abc", SelectionRange::new(0, 4));
    assert_eq!(shape(&lines[0]), vec![run("", false), run("abc ", true)]);
}

#[test]
fn selection_past_the_end_of_the_text_highlights_nothing() {
    let lines = render("ab\ncd", SelectionRange::new(10, 20));
    assert_eq!(shape(&lines[0]), vec![run("ab ", false)]);
    assert_eq!(shape(&lines[1]), vec![run("cd ", false)]);
}

#[test]
fn selection_running_past_the_end_reverses_the_rest() {
    let lines = render("ab\ncd", SelectionRange::new(4, 100));
    assert_eq!(shape(&lines[0]), vec![run("ab ", false)]);
    assert_eq!(shape(&lines[1]), vec![run("c", false), run("d ", true)]);
}

#[test]
fn style_in_force_is_carried_into_the_next_line() {
    let lines = render("a\nb", SelectionRange::new(1, 1));
    assert_eq!(shape(&lines[0]), vec![run("a", false), run(" ", true)]);
    assert_eq!(shape(&lines[1]), vec![run("", true), run("b ", false)]);
}

#[test]
fn selection_over_whole_lines_keeps_one_run_per_line() {
    let lines = render("a\n\nb", SelectionRange::new(0, 5));
    assert_eq!(lines.len(), 3);
    assert_eq!(shape(&lines[0]), vec![run("", false), run("a ", true)]);
    assert_eq!(shape(&lines[1]), vec![run(" ", true)]);
    assert_eq!(shape(&lines[2]), vec![run("b ", true)]);
}

#[test]
fn wide_glyph_takes_two_cells() {
    let lines = render("😊a", SelectionRange::new(2, 2));
    assert_eq!(shape(&lines[0]), vec![run("😊", false), run("a", true), run(" ", false)]);
}

#[test]
fn caret_on_a_wide_glyph_reverses_both_of_its_cells() {
    let lines = render("😊a", SelectionRange::new(0, 0));
    assert_eq!(shape(&lines[0]), vec![run("", false), run("😊", true), run("a ", false)]);
    assert_eq!(cells(&lines[0].runs[1]), 2);
}

#[test]
fn caret_in_the_middle_of_a_wide_glyph_is_not_shown() {
    let lines = render("😊a", SelectionRange::new(1, 1));
    assert_eq!(shape(&lines[0]), vec![run("😊a ", false)]);
}

#[test]
fn combining_mark_stays_with_its_base() {
    let lines = render("e\u{301}x", SelectionRange::new(0, 0));
    assert_eq!(shape(&lines[0]), vec![run("", false), run("e\u{301}", true), run("x ", false)]);
    assert_eq!(lines[0].runs[1].clusters.len(), 1);
}

#[test]
fn zero_width_cluster_still_advances_one_cell() {
    let lines = render("\u{301}a", SelectionRange::new(1, 1));
    assert_eq!(lines[0].runs[0].clusters[0].width, 0);
    assert_eq!(lines[0].runs[0].clusters[0].cells(), 1);
    assert_eq!(shape(&lines[0]), vec![run("\u{301}", false), run("a", true), run(" ", false)]);
}

#[test]
fn emoji_sample_text_renders_line_by_line() {
    let content = "It even supports emojis! 😊🦀🐁\nsecond";
    let lines = render(content, SelectionRange::new(27, 29));
    assert_eq!(lines.len(), 2);
    assert_eq!(
        shape(&lines[0]),
        vec![run("It even supports emojis! 😊", false), run("🦀", true), run("🐁 ", false)]
    );
    assert_eq!(shape(&lines[1]), vec![run("second ", false)]);
}

#[test]
fn rendering_twice_gives_the_same_lines() {
    let content = "This is a simple text editor.\n\nIt even supports emojis! 😊🦀🐁";
    let selection = SelectionRange::new(7, 40);
    assert_eq!(render(content, selection), render(content, selection));
}

#[test]
fn run_widths_add_up_to_the_line_and_one_more() {
    let content = "wide 😊🦀\n\ne\u{301}\u{301}x";
    let measured = measure_text(content);
    let lines = render(content, SelectionRange::new(3, 9));
    assert_eq!(lines.len(), measured.len());
    for (line, clusters) in lines.iter().zip(measured.iter()) {
        let of_runs: usize = line.runs.iter().map(cells).sum();
        let of_line: usize = clusters.iter().map(|cluster| cluster.cells()).sum();
        assert_eq!(of_runs, of_line + 1);
    }
    let first: usize = lines[0].runs.iter().map(cells).sum();
    assert_eq!(first, 10);
}

#[test]
fn runs_spell_the_line_and_a_blank() {
    let content = "ab😊\n\ncd";
    let lines = render(content, SelectionRange::new(1, 6));
    let spelled: Vec<String> = lines
        .iter()
        .map(|line| line.runs.iter().map(|run| run.text()).collect::<String>())
        .collect();
    assert_eq!(spelled, vec!["ab😊 ".to_string(), " ".to_string(), "cd ".to_string()]);
}

#[test]
fn every_caret_on_a_narrow_line_is_one_reversed_cell() {
    for k in 0..=5u32 {
        let lines = render("hello", SelectionRange::new(k, k));
        let reversed: Vec<&StyledRun> = lines[0].runs.iter().filter(|run| run.reversed).collect();
        assert_eq!(reversed.len(), 1);
        assert_eq!(cells(reversed[0]), 1);
        assert_eq!(reversed[0].clusters.len(), 1);
        assert!(lines[0].runs[1].reversed);
    }
}

#[test]
fn render_lines_works_on_given_clusters() {
    let lines = vec![
        vec![Cluster::new("x", 1), Cluster::new("WW", 2), Cluster::new("m", 0)],
        vec![Cluster::new("y", 1)],
    ];
    let styled = render_lines(&lines, SelectionRange::new(3, 5));
    assert_eq!(shape(&styled[0]), vec![run("xWW", false), run("m ", true)]);
    assert_eq!(shape(&styled[1]), vec![run("", true), run("y ", false)]);
    assert_eq!(cells(&styled[0].runs[0]), 3);
    assert_eq!(cells(&styled[0].runs[1]), 2);
}

#[test]
fn cell_counter_does_not_overflow() {
    let lines = vec![
        vec![Cluster::new("a", usize::MAX), Cluster::new("b", usize::MAX)],
        vec![Cluster::new("c", usize::MAX)],
    ];
    let styled = render_lines(&lines, SelectionRange::new(u32::MAX, u32::MAX));
    assert_eq!(shape(&styled[0]), vec![run("ab ", false)]);
    assert_eq!(shape(&styled[1]), vec![run("c ", false)]);
}

#[test]
fn caret_at_the_largest_offset_is_accepted() {
    let selection = SelectionRange::new(u32::MAX, u32::MAX);
    assert_eq!(selection.low(), 4294967295);
    assert_eq!(selection.high(), 4294967296);
    let lines = vec![vec![Cluster::new("a", 4294967295), Cluster::new("b", 1)]];
    let styled = render_lines(&lines, selection);
    assert_eq!(shape(&styled[0]), vec![run("a", false), run("b", true), run(" ", false)]);
}

#[test]
fn selection_bounds_are_normalised() {
    assert_eq!(SelectionRange::new(3, 3).low(), 3);
    assert_eq!(SelectionRange::new(3, 3).high(), 4);
    assert_eq!(SelectionRange::new(5, 2).low(), 2);
    assert_eq!(SelectionRange::new(5, 2).high(), 5);
    assert_eq!(SelectionRange::new(2, 5).low(), 2);
    assert_eq!(SelectionRange::new(2, 5).high(), 5);
    assert_eq!(SelectionRange::new(0, 0).high(), 1);
}

#[test]
fn line_renderer_carries_the_count_between_lines() {
    let mut renderer = LineRenderer::new(SelectionRange::new(4, 4));
    let first = renderer.render_line(&vec![Cluster::new("a", 1), Cluster::new("b", 1)]);
    let second = renderer.render_line(&vec![Cluster::new("c", 1), Cluster::new("d", 1)]);
    assert_eq!(shape(&first), vec![run("ab ", false)]);
    assert_eq!(shape(&second), vec![run("c", false), run("d", true), run(" ", false)]);
}

#[test]
fn text_splits_at_line_feeds() {
    assert_eq!(split_lines("ab\ncd"), vec!["ab".to_string(), "cd".to_string()]);
    assert_eq!(split_lines(""), vec![String::new()]);
    assert_eq!(split_lines("a\n"), vec!["a".to_string(), String::new()]);
    assert_eq!(split_lines("\n\n"), vec![String::new(), String::new(), String::new()]);
    assert_eq!(split_lines("a\r\nb"), vec!["a\r".to_string(), "b".to_string()]);
}

#[test]
fn split_lines_agrees_with_the_standard_split() {
    let content = "one\n\ntwo 😊\nthree\n";
    let expected: Vec<String> = content.split('\n').map(String::from).collect();
    assert_eq!(split_lines(content), expected);
}

#[test]
fn line_is_measured_cluster_by_cluster() {
    let clusters = measure_line("a😊e\u{301}");
    assert_eq!(
        clusters,
        vec![Cluster::new("a", 1), Cluster::new("😊", 2), Cluster::new("e\u{301}", 1)]
    );
    assert_eq!(measure_line(""), Vec::<Cluster>::new());
}

#[test]
fn flag_is_one_cluster() {
    let clusters = measure_line("🇷🇺🇸🇹");
    assert_eq!(clusters.len(), 2);
    assert_eq!(clusters[0].text, "🇷🇺");
    assert_eq!(clusters[1].text, "🇸🇹");
}

#[test]
fn trailing_cell_is_one_blank() {
    let cell = Cluster::trailing();
    assert_eq!(cell, Cluster::new(" ", 1));
    assert_eq!(cell.cells(), 1);
    assert_eq!(cell.clone(), cell);
}

#[test]
fn run_text_joins_its_clusters() {
    let run = StyledRun {
        clusters: vec![Cluster::new("a", 1), Cluster::new("😊", 2), Cluster::new("", 0)],
        reversed: true,
    };
    assert_eq!(run.text(), "a😊");
    let empty = StyledRun { clusters: vec![], reversed: false };
    assert_eq!(empty.text(), "");
}

#[test]
fn reported_selection_falls_back_to_the_whole_text() {
    assert_eq!(SelectionRange::reported(Some(2), Some(7), 10), SelectionRange::new(2, 7));
    assert_eq!(SelectionRange::reported(None, Some(7), 10), SelectionRange::new(0, 7));
    assert_eq!(SelectionRange::reported(Some(2), None, 10), SelectionRange::new(2, 10));
    assert_eq!(SelectionRange::reported(None, None, 10), SelectionRange::new(0, 10));
    assert_eq!(SelectionRange::reported(None, None, 0), SelectionRange::new(0, 0));
    assert_eq!(SelectionRange::reported(Some(9), Some(3), 10), SelectionRange::new(9, 3));
}

#[test]
fn reported_selection_in_a_sample_text() {
    let content = "ab\ncd";
    let lines = render(content, SelectionRange::reported(Some(4), None, content.len()));
    assert_eq!(shape(&lines[0]), vec![run("ab ", false)]);
    assert_eq!(shape(&lines[1]), vec![run("c", false), run("d", true), run(" ", false)]);
}
