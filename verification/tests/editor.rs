use std::sync::Arc;

use markview::editor::{
    char_to_byte, line_col_of, line_top_row, logical_line_rows, set_heading, toggle_line_prefix,
    wrap_selection,
};

#[test]
fn line_col_of_counts_chars_not_bytes() {
    let text = "中文abc\n第二行";
    assert_eq!(line_col_of(text, 0), (0, 0));
    assert_eq!(line_col_of(text, 5), (0, 5));
    assert_eq!(line_col_of(text, 6), (1, 0));
    assert_eq!(line_col_of(text, 8), (1, 2));
}

#[test]
fn char_to_byte_handles_multibyte_and_overflow() {
    assert_eq!(char_to_byte("中文abc", 0), 0);
    assert_eq!(char_to_byte("中文abc", 2), 6);
    assert_eq!(char_to_byte("中文abc", 99), 9);
}

#[test]
fn wrap_selection_adds_then_removes() {
    let e = wrap_selection("say hello now", 4, 9, "**", "**");
    assert_eq!(e.text, "say **hello** now");
    assert_eq!(e.selection, (6, 11));
    let back = wrap_selection(&e.text, 6, 11, "**", "**");
    assert_eq!(back.text, "say hello now");
    assert_eq!(back.selection, (4, 9));
}

#[test]
fn wrap_selection_link() {
    let e = wrap_selection("中文", 0, 2, "[", "](url)");
    assert_eq!(e.text, "[中文](url)");
    assert_eq!(e.selection, (1, 3));
}

#[test]
fn toggle_line_prefix_adds_to_every_nonblank_line() {
    let text = "a\n\nb\nc";
    let e = toggle_line_prefix(text, 0, 4, "- ");
    assert_eq!(e.text, "- a\n\n- b\nc");
    // The blank line has no marker, so the block counts as unmarked again.
    let again = toggle_line_prefix(&e.text, 0, 8, "- ");
    assert_eq!(again.text, "- - a\n\n- - b\nc");
}

#[test]
fn toggle_line_prefix_removes_when_all_have_it() {
    let e = toggle_line_prefix("> a\n> b\nc", 0, 5, "> ");
    assert_eq!(e.text, "a\nb\nc");
    assert_eq!(e.selection, (0, 3));
}

#[test]
fn set_heading_sets_and_toggles() {
    let e = set_heading("title\nbody", 2, 2);
    assert_eq!(e.text, "## title\nbody");
    assert_eq!(e.selection, (8, 8));
    let back = set_heading(&e.text, 3, 2);
    assert_eq!(back.text, "title\nbody");
    let other = set_heading("### x", 0, 1);
    assert_eq!(other.text, "# x");
}

/// Lays `text` out with the toolkit's own text layout, as the editor does.
fn layout(text: &str, max_width: f32) -> Arc<egui::Galley> {
    let ctx = egui::Context::default();
    let mut result: Option<Arc<egui::Galley>> = None;
    let mut output = ctx.run_ui(Default::default(), |ui| {
        let mut job = egui::text::LayoutJob::default();
        job.append(
            text,
            0.0,
            egui::TextFormat {
                font_id: egui::FontId::monospace(14.0),
                ..Default::default()
            },
        );
        job.wrap.max_width = max_width;
        result = Some(ui.ctx().fonts_mut(|fonts| fonts.layout_job(job)));
    });
    output.textures_delta.clear();
    result.expect("a galley")
}

fn ends(galley: &egui::Galley) -> Vec<bool> {
    galley.rows.iter().map(|row| row.ends_with_newline).collect()
}

fn logical_lines(galley: &egui::Galley) -> Vec<usize> {
    (0..logical_line_rows(&ends(galley)).len()).collect()
}

fn line_top(galley: &egui::Galley, target: usize) -> Option<f32> {
    line_top_row(&ends(galley), target).map(|row| galley.rows[row].pos.y)
}

#[test]
fn soft_wrapped_continuation_does_not_start_a_new_line() {
    let text = format!("first\n{}\nthird", "x".repeat(400));
    let galley = layout(&text, 120.0);
    assert!(galley.rows.len() > 3);
    assert_eq!(logical_lines(&galley), vec![0, 1, 2]);
}

#[test]
fn line_number_positions_increase() {
    let galley = layout(&format!("a\n{}\nb\nc", "y".repeat(300)), 100.0);
    let tops: Vec<f32> = logical_line_rows(&ends(&galley))
        .iter()
        .map(|row| galley.rows[*row].pos.y)
        .collect();
    assert_eq!(tops.len(), 4);
    for pair in tops.windows(2) {
        assert!(pair[0] < pair[1], "tops should increase: {tops:?}");
    }
}

#[test]
fn trailing_newline_yields_an_extra_line() {
    assert_eq!(logical_lines(&layout("a\n", 400.0)), vec![0, 1]);
}

#[test]
fn single_line_without_newline_has_one_number() {
    assert_eq!(logical_lines(&layout("only one line", 400.0)), vec![0]);
}

#[test]
fn line_top_returns_row_y_and_none_when_out_of_range() {
    let galley = layout("aaa\nbbb\nccc", 400.0);
    assert_eq!(line_top(&galley, 0), Some(galley.rows[0].pos.y));
    assert_eq!(line_top(&galley, 1), Some(galley.rows[1].pos.y));
    assert_eq!(line_top(&galley, 99), None);
}

#[test]
fn wrapped_rows_are_skipped_by_line_numbers() {
    let ends = [true, false, false, true, false];
    assert_eq!(logical_line_rows(&ends), vec![0, 1, 4]);
    assert_eq!(line_top_row(&ends, 2), Some(4));
    assert_eq!(logical_line_rows(&[]), Vec::<usize>::new());
}

#[test]
fn prefix_twice_restores_a_block_without_blank_lines() {
    let text = "intro\na\nb\nend";
    let first = toggle_line_prefix(text, 7, 8, "> ");
    assert_eq!(first.text, "intro\n> a\n> b\nend");
    let second = toggle_line_prefix(&first.text, first.selection.0, first.selection.1, "> ");
    assert_eq!(second.text, text);
}
