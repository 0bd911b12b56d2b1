use suji::guides::{
    buffer_indent_style, effective_shiftwidth, guide_col, guide_marks, refresh_marks, GuideMark,
    HL_INDENT, HL_SCOPE,
};
use suji::indent::{IndentStyle, Scope};

fn mark(line: usize, col: usize, in_scope: bool) -> GuideMark {
    GuideMark { line, col, in_scope }
}

#[test]
fn guide_col_spaces_and_tabs() {
    assert_eq!(guide_col(0, IndentStyle::Spaces(4)), 0);
    assert_eq!(guide_col(3, IndentStyle::Spaces(4)), 12);
    assert_eq!(guide_col(3, IndentStyle::Tabs), 3);
    assert_eq!(guide_col(5, IndentStyle::Spaces(0)), 0);
}

#[test]
fn guide_col_is_level_times_width() {
    for level in 0..10usize {
        for style in [IndentStyle::Tabs, IndentStyle::Spaces(2), IndentStyle::Spaces(8)] {
            assert_eq!(guide_col(level, style), level * style.width());
        }
    }
}

#[test]
fn highlight_groups() {
    assert_eq!(mark(0, 0, true).highlight_group(), "SujiScope");
    assert_eq!(mark(0, 0, false).highlight_group(), "SujiIndent");
    assert_eq!(HL_SCOPE, "SujiScope");
    assert_eq!(HL_INDENT, "SujiIndent");
}

#[test]
fn guide_marks_one_per_level_with_scope() {
    let levels = vec![0, 2, 1, 0];
    let scope = Some(Scope { start: 1, end: 2, level: 1 });
    let marks = guide_marks(&levels, IndentStyle::Spaces(4), scope);
    assert_eq!(
        marks,
        vec![mark(1, 0, true), mark(1, 4, false), mark(2, 0, true)]
    );
}

#[test]
fn guide_marks_inner_scope_highlights_deeper_guide() {
    let levels = vec![0, 1, 2, 1, 0];
    let scope = Some(Scope { start: 2, end: 2, level: 2 });
    let marks = guide_marks(&levels, IndentStyle::Tabs, scope);
    assert_eq!(
        marks,
        vec![mark(1, 0, false), mark(2, 0, false), mark(2, 1, true), mark(3, 0, false)]
    );
}

#[test]
fn guide_marks_without_scope() {
    let levels = vec![1, 0, 3];
    let marks = guide_marks(&levels, IndentStyle::Spaces(2), None);
    assert_eq!(
        marks,
        vec![mark(0, 0, false), mark(2, 0, false), mark(2, 2, false), mark(2, 4, false)]
    );
    assert!(guide_marks(&[], IndentStyle::Tabs, None).is_empty());
}

#[test]
fn guide_marks_count_is_sum_of_levels() {
    let levels = vec![3, 0, 2, 5, 1];
    let marks = guide_marks(&levels, IndentStyle::Spaces(4), None);
    assert_eq!(marks.len(), levels.iter().sum::<usize>());
}

#[test]
fn shiftwidth_positive_wins() {
    assert_eq!(effective_shiftwidth(4, 8), 4);
    assert_eq!(effective_shiftwidth(2, 0), 2);
}

#[test]
fn shiftwidth_falls_back_to_tabstop() {
    assert_eq!(effective_shiftwidth(0, 8), 8);
    assert_eq!(effective_shiftwidth(-3, 3), 3);
}

#[test]
fn shiftwidth_at_least_one() {
    assert_eq!(effective_shiftwidth(0, 0), 1);
    assert_eq!(effective_shiftwidth(0, -7), 1);
    assert_eq!(effective_shiftwidth(0, 1), 1);
}

#[test]
fn buffer_style_of_empty_buffer_follows_options() {
    assert_eq!(buffer_indent_style(&[], 3, true), IndentStyle::Spaces(3));
    assert_eq!(buffer_indent_style(&[], 3, false), IndentStyle::Tabs);
}

#[test]
fn buffer_style_detected_from_content() {
    let lines = ["\tx", "y"];
    assert_eq!(buffer_indent_style(&lines, 4, true), IndentStyle::Tabs);
    let lines = ["  x", "    y"];
    assert_eq!(buffer_indent_style(&lines, 4, false), IndentStyle::Spaces(2));
    let lines = ["x", ""];
    assert_eq!(buffer_indent_style(&lines, 6, false), IndentStyle::Spaces(6));
}

#[test]
fn refresh_highlights_scope_at_cursor() {
    let lines = ["fn f() {", "    a();", "", "    b();", "}"];
    // Cursor rows are 1-indexed: row 2 is line 1.
    let marks = refresh_marks(&lines, 4, true, 2);
    assert_eq!(
        marks,
        vec![mark(1, 0, true), mark(2, 0, true), mark(3, 0, true)]
    );
}

#[test]
fn refresh_without_scope_at_top_level() {
    let lines = ["fn f() {", "    a();", "}"];
    let marks = refresh_marks(&lines, 4, true, 1);
    assert_eq!(marks, vec![mark(1, 0, false)]);
    // Row 0 is taken as line 0 too.
    let marks = refresh_marks(&lines, 4, true, 0);
    assert_eq!(marks, vec![mark(1, 0, false)]);
}

#[test]
fn refresh_nested_tabs() {
    let lines = ["a", "\tb", "\t\tc", "\td"];
    let marks = refresh_marks(&lines, 8, false, 3);
    assert_eq!(
        marks,
        vec![mark(1, 0, false), mark(2, 0, false), mark(2, 1, true), mark(3, 0, false)]
    );
}

#[test]
fn refresh_empty_buffer_has_no_guides() {
    assert!(refresh_marks(&[], 4, true, 1).is_empty());
}

#[test]
fn refresh_cursor_past_end() {
    let lines = ["a", "  b"];
    let marks = refresh_marks(&lines, 2, true, 99);
    assert_eq!(marks, vec![mark(1, 0, false)]);
}
