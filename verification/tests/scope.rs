use suji::indent::{IndentStyle, Scope};
use suji::scope::detect_scope;

#[test]
fn detect_scope_basic() {
    let lines = ["fn f() {", "    body();", "    more();", "}"];
    let refs: Vec<&str> = lines.iter().copied().collect();
    let scope = detect_scope(&refs, 1, IndentStyle::Spaces(4));
    assert_eq!(
        scope,
        Some(Scope {
            start: 1,
            end: 2,
            level: 1,
        })
    );
}

#[test]
fn detect_scope_no_scope_at_top() {
    let lines = ["top_level();", "another();"];
    let refs: Vec<&str> = lines.iter().copied().collect();
    assert_eq!(detect_scope(&refs, 0, IndentStyle::Spaces(4)), None);
}

#[test]
fn detect_scope_with_blank_line() {
    let lines = [
        "fn f() {",
        "    a();",
        "",
        "    b();",
        "}",
    ];
    let refs: Vec<&str> = lines.iter().copied().collect();
    let scope = detect_scope(&refs, 2, IndentStyle::Spaces(4));
    assert_eq!(
        scope,
        Some(Scope {
            start: 1,
            end: 3,
            level: 1,
        })
    );
}

#[test]
fn detect_scope_tabs() {
    let lines = ["fn f() {", "\tbody();", "\tmore();", "}"];
    let refs: Vec<&str> = lines.iter().copied().collect();
    let scope = detect_scope(&refs, 1, IndentStyle::Tabs);
    assert_eq!(
        scope,
        Some(Scope {
            start: 1,
            end: 2,
            level: 1,
        })
    );
}
