//! Scope detection for indent-aware highlighting.
//!
//! Wraps the analysis in [`crate::indent`] in a single function that gives
//! the scope boundaries around a cursor line.

use vstd::prelude::*;

use crate::indent::{
    compute_levels, find_scope, guide_levels, has_scope, is_scope_of, line_views, scope_at, lines_fit,
    IndentStyle, Scope,
};

verus! {

/// Detect the scope surrounding `cursor_line` in the given lines: the
/// innermost scope around it in the lines' guide levels.
///
/// Returns `None` when the cursor sits at indent level 0 (no enclosing
/// scope) or past the last line.
pub fn detect_scope(lines: &[&str], cursor_line: usize, style: IndentStyle) -> (scope: Option<
    Scope,
>)
    requires
        lines_fit(lines@),
    ensures
        scope is None <==> !has_scope(
            guide_levels(line_views(lines@), style),
            cursor_line as int,
        ),
        scope matches Some(s) ==> is_scope_of(
            guide_levels(line_views(lines@), style),
            cursor_line as int,
            s,
        ),
        scope == scope_at(guide_levels(line_views(lines@), style), cursor_line as int),
{
    let levels = compute_levels(lines, style);
    find_scope(levels.as_slice(), cursor_line)
}

} // verus!
