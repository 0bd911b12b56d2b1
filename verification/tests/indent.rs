use suji::indent::{
    compute_levels, detect_style, find_scope, gcd, indent_level, is_blank, leading_whitespace,
    leading_ws_chars, IndentStyle, Scope,
};

// ── leading_whitespace ────────────────────────────────────────────

#[test]
fn leading_whitespace_empty() {
    assert_eq!(leading_whitespace("", 4), 0);
}

#[test]
fn leading_whitespace_no_indent() {
    assert_eq!(leading_whitespace("hello", 4), 0);
}

#[test]
fn leading_whitespace_spaces() {
    assert_eq!(leading_whitespace("    hello", 4), 4);
}

#[test]
fn leading_whitespace_tabs() {
    assert_eq!(leading_whitespace("\t\thello", 4), 8);
}

#[test]
fn leading_whitespace_mixed() {
    assert_eq!(leading_whitespace("\t  hello", 4), 6);
}

// ── leading_ws_chars ──────────────────────────────────────────────

#[test]
fn ws_chars_empty() {
    assert_eq!(leading_ws_chars(""), 0);
}

#[test]
fn ws_chars_tabs_and_spaces() {
    assert_eq!(leading_ws_chars("\t  x"), 3);
}

// ── indent_level ──────────────────────────────────────────────────

#[test]
fn indent_level_spaces_basic() {
    let style = IndentStyle::Spaces(4);
    assert_eq!(indent_level("", style), 0);
    assert_eq!(indent_level("x", style), 0);
    assert_eq!(indent_level("    x", style), 1);
    assert_eq!(indent_level("        x", style), 2);
    assert_eq!(indent_level("      x", style), 1); // 6/4 = 1
}

#[test]
fn indent_level_spaces_two() {
    let style = IndentStyle::Spaces(2);
    assert_eq!(indent_level("  x", style), 1);
    assert_eq!(indent_level("    x", style), 2);
    assert_eq!(indent_level("   x", style), 1); // 3/2 = 1
}

#[test]
fn indent_level_tabs() {
    let style = IndentStyle::Tabs;
    assert_eq!(indent_level("", style), 0);
    assert_eq!(indent_level("x", style), 0);
    assert_eq!(indent_level("\tx", style), 1);
    assert_eq!(indent_level("\t\tx", style), 2);
}

#[test]
fn indent_level_zero_width_spaces() {
    // Edge case: width = 0 should not panic.
    assert_eq!(indent_level("    x", IndentStyle::Spaces(0)), 0);
}

// ── is_blank ──────────────────────────────────────────────────────

#[test]
fn blank_lines() {
    assert!(is_blank(""));
    assert!(is_blank("   "));
    assert!(is_blank("\t\t"));
    assert!(is_blank(" \t "));
    assert!(!is_blank("  x"));
}

// ── compute_levels ────────────────────────────────────────────────

#[test]
fn compute_levels_empty() {
    assert_eq!(compute_levels(&[], IndentStyle::Spaces(4)), Vec::<usize>::new());
}

#[test]
fn compute_levels_simple() {
    let lines = ["fn main() {", "    let x = 1;", "    let y = 2;", "}"];
    let refs: Vec<&str> = lines.iter().copied().collect();
    let levels = compute_levels(&refs, IndentStyle::Spaces(4));
    assert_eq!(levels, vec![0, 1, 1, 0]);
}

#[test]
fn compute_levels_blank_inherits() {
    let lines = [
        "fn main() {",
        "    let x = 1;",
        "",
        "    let y = 2;",
        "}",
    ];
    let refs: Vec<&str> = lines.iter().copied().collect();
    let levels = compute_levels(&refs, IndentStyle::Spaces(4));
    // The blank line between two level-1 lines should be level 1.
    assert_eq!(levels, vec![0, 1, 1, 1, 0]);
}

#[test]
fn compute_levels_blank_at_boundary() {
    let lines = [
        "fn main() {",
        "    if true {",
        "        deep();",
        "",
        "    }",
        "}",
    ];
    let refs: Vec<&str> = lines.iter().copied().collect();
    let levels = compute_levels(&refs, IndentStyle::Spaces(4));
    // Blank line at index 3: forward=2, backward=1 → min=1.
    assert_eq!(levels, vec![0, 1, 2, 1, 1, 0]);
}

#[test]
fn compute_levels_all_blank() {
    let lines = ["", "  ", "\t"];
    let refs: Vec<&str> = lines.iter().copied().collect();
    let levels = compute_levels(&refs, IndentStyle::Spaces(4));
    assert_eq!(levels, vec![0, 0, 0]);
}

#[test]
fn compute_levels_tabs() {
    let lines = ["fn f() {", "\tlet x = 1;", "\t\tdeep();", "\t}", ""];
    let refs: Vec<&str> = lines.iter().copied().collect();
    let levels = compute_levels(&refs, IndentStyle::Tabs);
    assert_eq!(levels, vec![0, 1, 2, 1, 0]);
}

// ── detect_style ──────────────────────────────────────────────────

#[test]
fn detect_empty_fallback() {
    assert_eq!(detect_style(&[], 4), IndentStyle::Spaces(4));
}

#[test]
fn detect_tabs() {
    let lines = ["\tlet x;", "\t\ty();", "end"];
    let refs: Vec<&str> = lines.iter().copied().collect();
    assert_eq!(detect_style(&refs, 4), IndentStyle::Tabs);
}

#[test]
fn detect_spaces_four() {
    let lines = ["    let x;", "        y();", "end"];
    let refs: Vec<&str> = lines.iter().copied().collect();
    assert_eq!(detect_style(&refs, 4), IndentStyle::Spaces(4));
}

#[test]
fn detect_spaces_two() {
    let lines = ["  let x;", "    y();", "end"];
    let refs: Vec<&str> = lines.iter().copied().collect();
    assert_eq!(detect_style(&refs, 4), IndentStyle::Spaces(2));
}

#[test]
fn detect_mixed_tabs_win() {
    let lines = ["\tx", "\ty", "  z"];
    let refs: Vec<&str> = lines.iter().copied().collect();
    assert_eq!(detect_style(&refs, 4), IndentStyle::Tabs);
}

#[test]
fn detect_all_blank_lines() {
    let lines = ["", "   ", "\t"];
    let refs: Vec<&str> = lines.iter().copied().collect();
    assert_eq!(detect_style(&refs, 2), IndentStyle::Spaces(2));
}

// ── find_scope ────────────────────────────────────────────────────

#[test]
fn scope_none_at_level_zero() {
    let levels = vec![0, 1, 1, 0];
    assert_eq!(find_scope(&levels, 0), None);
    assert_eq!(find_scope(&levels, 3), None);
}

#[test]
fn scope_simple() {
    let levels = vec![0, 1, 1, 0];
    assert_eq!(
        find_scope(&levels, 1),
        Some(Scope {
            start: 1,
            end: 2,
            level: 1,
        })
    );
}

#[test]
fn scope_nested() {
    // 0: fn main() {
    // 1:     if true {
    // 2:         deep();
    // 3:     }
    // 4: }
    let levels = vec![0, 1, 2, 1, 0];
    assert_eq!(
        find_scope(&levels, 2),
        Some(Scope {
            start: 2,
            end: 2,
            level: 2,
        })
    );
    assert_eq!(
        find_scope(&levels, 1),
        Some(Scope {
            start: 1,
            end: 3,
            level: 1,
        })
    );
}

#[test]
fn scope_out_of_bounds() {
    let levels = vec![0, 1, 0];
    assert_eq!(find_scope(&levels, 99), None);
}

#[test]
fn scope_empty_levels() {
    assert_eq!(find_scope(&[], 0), None);
}

#[test]
fn scope_continuous_block() {
    let levels = vec![0, 2, 2, 2, 0];
    assert_eq!(
        find_scope(&levels, 2),
        Some(Scope {
            start: 1,
            end: 3,
            level: 2,
        })
    );
}

#[test]
fn scope_at_boundary_between_blocks() {
    let levels = vec![0, 1, 0, 1, 0];
    assert_eq!(
        find_scope(&levels, 1),
        Some(Scope {
            start: 1,
            end: 1,
            level: 1,
        })
    );
    assert_eq!(
        find_scope(&levels, 3),
        Some(Scope {
            start: 3,
            end: 3,
            level: 1,
        })
    );
}

// ── gcd ───────────────────────────────────────────────────────────

#[test]
fn gcd_basic() {
    assert_eq!(gcd(0, 0), 0);
    assert_eq!(gcd(4, 0), 4);
    assert_eq!(gcd(0, 4), 4);
    assert_eq!(gcd(4, 8), 4);
    assert_eq!(gcd(6, 4), 2);
    assert_eq!(gcd(12, 8), 4);
}

// ── IndentStyle::width ────────────────────────────────────────────

#[test]
fn style_width() {
    assert_eq!(IndentStyle::Tabs.width(), 1);
    assert_eq!(IndentStyle::Spaces(4).width(), 4);
    assert_eq!(IndentStyle::Spaces(2).width(), 2);
}
