use suji::indent::{
    compute_levels, detect_style, find_scope, gcd, indent_level, is_blank, leading_whitespace,
    leading_ws_chars, IndentStyle, Scope,
};
use suji::scope::detect_scope;

const SAMPLES: [&str; 9] = ["", "x", "  x", "\t\tx", " \t x", "    ", "\t", "é  x", "  é"];

#[test]
fn unit_tab_width_counts_characters() {
    for line in SAMPLES {
        assert_eq!(leading_whitespace(line, 1), leading_ws_chars(line));
    }
}

#[test]
fn blank_iff_all_leading_whitespace() {
    for line in SAMPLES {
        assert_eq!(is_blank(line), leading_ws_chars(line) == line.chars().count());
    }
}

#[test]
fn non_ascii_characters() {
    assert_eq!(leading_ws_chars("  é"), 2);
    assert_eq!(leading_whitespace("\té", 3), 3);
    assert_eq!(indent_level("    ñ", IndentStyle::Spaces(2)), 2);
    assert!(!is_blank("\u{a0}"));
}

#[test]
fn spaces_level_counts_tabs_as_one_column() {
    assert_eq!(indent_level("\t\t\tx", IndentStyle::Spaces(2)), 1);
    assert_eq!(indent_level(" \tx", IndentStyle::Tabs), 0);
    assert_eq!(indent_level("\t x", IndentStyle::Tabs), 1);
}

#[test]
fn level_never_exceeds_leading_characters() {
    for line in SAMPLES {
        for style in [IndentStyle::Tabs, IndentStyle::Spaces(1), IndentStyle::Spaces(3)] {
            assert!(indent_level(line, style) <= leading_ws_chars(line));
        }
    }
}

#[test]
fn blank_line_takes_shallower_neighbour() {
    let lines = ["a", "\t\tb", "", "  ", "\tc", "", "d"];
    let levels = compute_levels(&lines, IndentStyle::Tabs);
    assert_eq!(levels, vec![0, 2, 1, 1, 1, 0, 0]);
}

#[test]
fn leading_and_trailing_blank_lines_are_level_zero() {
    let lines = ["", "    a", "    b", ""];
    let levels = compute_levels(&lines, IndentStyle::Spaces(4));
    assert_eq!(levels, vec![0, 1, 1, 0]);
}

#[test]
fn compute_levels_keeps_non_blank_levels() {
    let lines = ["x", "      y", "   z", "\t\tw"];
    let style = IndentStyle::Spaces(3);
    let levels = compute_levels(&lines, style);
    for (i, line) in lines.iter().enumerate() {
        assert_eq!(levels[i], indent_level(line, style));
    }
}

#[test]
fn gcd_divides_and_is_greatest() {
    for a in 0..30usize {
        for b in 0..30usize {
            let g = gcd(a, b);
            assert_eq!(g, gcd(b, a));
            if a == 0 && b == 0 {
                assert_eq!(g, 0);
                continue;
            }
            assert!(g > 0 && a % g == 0 && b % g == 0);
            for d in 1..30usize {
                if a % d == 0 && b % d == 0 {
                    assert_eq!(g % d, 0);
                }
            }
        }
    }
}

#[test]
fn detect_width_is_clamped() {
    assert_eq!(detect_style(&[" x"], 4), IndentStyle::Spaces(2));
    assert_eq!(detect_style(&["                x"], 4), IndentStyle::Spaces(8));
    assert_eq!(detect_style(&["   x", "      y"], 4), IndentStyle::Spaces(3));
    assert_eq!(detect_style(&["      x", "    y"], 4), IndentStyle::Spaces(2));
}

#[test]
fn detect_tabs_win_ties() {
    assert_eq!(detect_style(&["\tx", "  y"], 4), IndentStyle::Tabs);
    assert_eq!(detect_style(&["\tx", "  y", "    z"], 4), IndentStyle::Spaces(2));
}

#[test]
fn detect_ignores_unindented_lines() {
    assert_eq!(detect_style(&["a", "b", "c"], 5), IndentStyle::Spaces(5));
    assert_eq!(detect_style(&["a", "  ", "\t"], 3), IndentStyle::Spaces(3));
}

#[test]
fn scope_is_maximal_and_contains_cursor() {
    let levels = vec![0, 1, 2, 2, 1, 3, 0];
    for cursor in 0..levels.len() {
        match find_scope(&levels, cursor) {
            None => assert_eq!(levels[cursor], 0),
            Some(s) => {
                assert!(s.start <= cursor && cursor <= s.end);
                assert_eq!(s.level, levels[cursor]);
                for j in s.start..=s.end {
                    assert!(levels[j] >= s.level);
                }
                assert!(s.start == 0 || levels[s.start - 1] < s.level);
                assert!(s.end + 1 == levels.len() || levels[s.end + 1] < s.level);
            }
        }
    }
}

#[test]
fn scopes_nest() {
    let levels = vec![0, 1, 2, 2, 1, 3, 0];
    let outer = find_scope(&levels, 1).unwrap();
    assert_eq!(outer, Scope { start: 1, end: 5, level: 1 });
    for j in outer.start..=outer.end {
        let inner = find_scope(&levels, j).unwrap();
        assert!(outer.start <= inner.start && inner.end <= outer.end);
        assert!(outer.level <= inner.level);
    }
}

#[test]
fn scope_stable_on_its_level() {
    let levels = vec![0, 1, 2, 2, 1, 3, 0];
    assert_eq!(find_scope(&levels, 1), find_scope(&levels, 4));
    assert_eq!(find_scope(&levels, 2), find_scope(&levels, 3));
    assert_eq!(find_scope(&levels, 5), Some(Scope { start: 5, end: 5, level: 3 }));
}

#[test]
fn detect_scope_matches_find_scope_on_levels() {
    let lines = ["a", "  b", "    c", "", "  d", "e"];
    let style = IndentStyle::Spaces(2);
    let levels = compute_levels(&lines, style);
    for cursor in 0..8 {
        assert_eq!(detect_scope(&lines, cursor, style), find_scope(&levels, cursor));
    }
    assert_eq!(detect_scope(&lines, 3, style), Some(Scope { start: 1, end: 4, level: 1 }));
}
