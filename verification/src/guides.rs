//! Indent guides: where each guide goes and how it is highlighted.
//!
//! Each indent level on each line gets a thin vertical guide placed at the
//! column where that level starts. The guides of the current scope use a
//! distinct highlight group so users can visually track the active block.
//! This module decides the guides; drawing them is the editor's part.

use vstd::prelude::*;

use crate::indent::{
    compute_levels, count_space_lines, count_tab_lines, detect_style, detected_style, find_scope,
    guide_levels, has_scope, is_scope_of, lemma_guide_level_columns, line_views, lines_fit,
    scope_at, style_width, IndentStyle, Scope, lemma_counts_positive, lemma_detects_common_space_width,
    lemma_space_level_is_floor_of_columns, lemma_leading_run_counts, line_level, guide_level,
    is_blank_line, is_tab_indented, is_space_indented, is_indent_char,
};

verus! {

/// Highlight group of the guides outside the current scope.
pub const HL_INDENT: &'static str = "SujiIndent";

/// Highlight group of the guides of the current scope.
pub const HL_SCOPE: &'static str = "SujiScope";

/// One guide to draw: on `line`, at column `col`, highlighted as part of the
/// current scope when `in_scope`.
#[derive(Debug, Clone, Copy, PartialEq, Eq, Structural)]
pub struct GuideMark {
    /// Line of the guide (0-indexed).
    pub line: usize,
    /// Column of the guide (0-indexed).
    pub col: usize,
    /// Whether the guide belongs to the current scope.
    pub in_scope: bool,
}

impl GuideMark {
    /// The highlight group the guide is drawn with.
    pub fn highlight_group(&self) -> (group: &'static str)
        ensures
            group == (if self.in_scope {
                HL_SCOPE
            } else {
                HL_INDENT
            }),
    {
        if self.in_scope {
            HL_SCOPE
        } else {
            HL_INDENT
        }
    }
}

/// Compute the column offset for a given indent level.
///
/// For spaces: `level * width`. For tabs: `level` (each tab is one
/// character).
pub fn guide_col(level: usize, style: IndentStyle) -> (col: usize)
    requires
        level * style_width(style) <= usize::MAX,
    ensures
        col == level * style_width(style),
{
    match style {
        IndentStyle::Tabs => level,
        IndentStyle::Spaces(w) => level * w,
    }
}


/// Whether the guide of level `g` (0-based) on line `line` belongs to
/// `scope`: the line lies in the scope and the guide is the scope's own,
/// the one of level `scope.level - 1`.
pub open spec fn guide_in_scope(scope: Option<Scope>, line: int, g: int) -> bool {
    match scope {
        Some(s) => s.start <= line <= s.end && g == s.level - 1,
        None => false,
    }
}

/// The guides of line `i`: one per indent level `g` in `0..levels[i]`, at
/// column `g * width`.
pub open spec fn line_guides(
    levels: Seq<usize>,
    style: IndentStyle,
    scope: Option<Scope>,
    i: int,
) -> Seq<GuideMark> {
    Seq::new(
        levels[i] as nat,
        |g: int|
            GuideMark {
                line: i as usize,
                col: (g * style_width(style)) as usize,
                in_scope: guide_in_scope(scope, i, g),
            },
    )
}

/// The guides of the first `n` lines, line by line, and within a line by
/// level.
pub open spec fn guides_upto(
    levels: Seq<usize>,
    style: IndentStyle,
    scope: Option<Scope>,
    n: int,
) -> Seq<GuideMark>
    decreases n,
{
    if n <= 0 {
        Seq::empty()
    } else {
        guides_upto(levels, style, scope, n - 1) + line_guides(levels, style, scope, n - 1)
    }
}

/// All guides of `levels`.
pub open spec fn all_guides(levels: Seq<usize>, style: IndentStyle, scope: Option<Scope>) -> Seq<
    GuideMark,
> {
    guides_upto(levels, style, scope, levels.len() as int)
}

/// Every guide column fits in a `usize`: on a line of level `l > 0` the
/// last guide sits at column `(l - 1) * width`.
pub open spec fn guide_columns_fit(levels: Seq<usize>, style: IndentStyle) -> bool {
    forall|i: int|
        0 <= i < levels.len() && #[trigger] levels[i] > 0 ==> (levels[i] - 1) * style_width(style)
            <= usize::MAX
}

/// The scope's own guide level, `level - 1`, is defined wherever it is
/// looked at: a scope of level 0 holds no line that has a guide.
pub open spec fn scope_level_defined(levels: Seq<usize>, scope: Option<Scope>) -> bool {
    match scope {
        Some(s) => s.level == 0 ==> forall|i: int|
            s.start <= i <= s.end && 0 <= i < levels.len() ==> #[trigger] levels[i] == 0,
        None => true,
    }
}

/// The guides to draw for the given levels: on every line one guide per
/// indent level, at the level's column, those of `scope`'s own level inside
/// `scope` marked as in scope.
pub fn guide_marks(levels: &[usize], style: IndentStyle, scope: Option<Scope>) -> (marks: Vec<
    GuideMark,
>)
    requires
        guide_columns_fit(levels@, style),
        scope_level_defined(levels@, scope),
    ensures
        marks@ == all_guides(levels@, style, scope),
{
    let mut marks: Vec<GuideMark> = Vec::new();
    for line_idx in 0..levels.len()
        invariant
            guide_columns_fit(levels@, style),
            scope_level_defined(levels@, scope),
            marks@ == guides_upto(levels@, style, scope, line_idx as int),
    {
        let level = levels[line_idx];
        let ghost before = marks@;
        for g in 0..level
            invariant
                guide_columns_fit(levels@, style),
                scope_level_defined(levels@, scope),
                level == levels@[line_idx as int],
                line_idx < levels@.len(),
                before == guides_upto(levels@, style, scope, line_idx as int),
                marks@ == before + line_guides(levels@, style, scope, line_idx as int).take(g as int),
        {
            proof {
                assert(levels@[line_idx as int] > 0);
                vstd::arithmetic::mul::lemma_mul_inequality(
                    g as int,
                    level - 1,
                    style_width(style) as int,
                );
            }
            let col = guide_col(g, style);
            let in_scope = match scope {
                Some(s) => line_idx >= s.start && line_idx <= s.end && g == s.level - 1,
                None => false,
            };
            marks.push(GuideMark { line: line_idx, col, in_scope });
            assert(line_guides(levels@, style, scope, line_idx as int).take(g + 1) =~= line_guides(
                levels@,
                style,
                scope,
                line_idx as int,
            ).take(g as int).push(GuideMark { line: line_idx, col, in_scope }));
        }
        assert(line_guides(levels@, style, scope, line_idx as int).take(level as int)
            =~= line_guides(levels@, style, scope, line_idx as int));
    }
    marks
}


/// Sum of the first `n` levels.
pub open spec fn total_levels(levels: Seq<usize>, n: int) -> nat
    decreases n,
{
    if n <= 0 {
        0
    } else {
        total_levels(levels, n - 1) + levels[n - 1] as nat
    }
}

/// One guide per indent level: the guides of the first `n` lines number the
/// sum of their levels, and line `i`'s guides are its `levels[i]` guides at
/// columns `0, width, 2 * width, ...`, in that order, the `g`-th of them
/// in scope exactly when line `i` lies in the scope and `g` is the scope's
/// own level minus one.
pub proof fn lemma_one_guide_per_level(
    levels: Seq<usize>,
    style: IndentStyle,
    scope: Option<Scope>,
    n: int,
)
    requires
        0 <= n <= levels.len(),
    ensures
        guides_upto(levels, style, scope, n).len() == total_levels(levels, n),
        forall|i: int, g: int|
            0 <= i < n && 0 <= g < levels[i] ==> (#[trigger] guides_upto(
                levels,
                style,
                scope,
                n,
            )[total_levels(levels, i) + g]) == line_guides(levels, style, scope, i)[g],
        forall|i: int, g: int|
            0 <= i < n && 0 <= g < levels[i] ==> {
                let m = #[trigger] guides_upto(levels, style, scope, n)[total_levels(levels, i) + g];
                &&& m.line == i as usize
                &&& m.col == (g * style_width(style)) as usize
                &&& m.in_scope == guide_in_scope(scope, i, g)
            },
    decreases n,
{
    if n > 0 {
        lemma_one_guide_per_level(levels, style, scope, n - 1);
        let prev = guides_upto(levels, style, scope, n - 1);
        let all = guides_upto(levels, style, scope, n);
        assert forall|i: int, g: int| 0 <= i < n && 0 <= g < levels[i] implies (#[trigger] guides_upto(
            levels,
            style,
            scope,
            n,
        )[total_levels(levels, i) + g]) == line_guides(levels, style, scope, i)[g] by {
            if i < n - 1 {
                lemma_total_levels_monotone(levels, i + 1, n - 1);
                assert(all[total_levels(levels, i) + g] == prev[total_levels(levels, i) + g]);
            }
        }
    }
    assert forall|i: int, g: int| 0 <= i < n && 0 <= g < levels[i] implies {
        let m = #[trigger] guides_upto(levels, style, scope, n)[total_levels(levels, i) + g];
        &&& m.line == i as usize
        &&& m.col == (g * style_width(style)) as usize
        &&& m.in_scope == guide_in_scope(scope, i, g)
    } by {
        assert(guides_upto(levels, style, scope, n)[total_levels(levels, i) + g] == line_guides(
            levels,
            style,
            scope,
            i,
        )[g]);
    }
}

proof fn lemma_total_levels_monotone(levels: Seq<usize>, a: int, b: int)
    requires
        0 <= a <= b <= levels.len(),
    ensures
        total_levels(levels, a) <= total_levels(levels, b),
    decreases b - a,
{
    if a < b {
        lemma_total_levels_monotone(levels, a, b - 1);
    }
}

/// The current scope's guides: on every line of the scope exactly one guide
/// is highlighted, the one of the scope's own level `s.level - 1`, at column
/// `(s.level - 1) * width`; no guide outside the scope is highlighted.
pub proof fn lemma_scope_highlights_one_guide_per_line(
    levels: Seq<usize>,
    style: IndentStyle,
    cursor: int,
    s: Scope,
    i: int,
)
    requires
        is_scope_of(levels, cursor, s),
        has_scope(levels, cursor),
        0 <= i < levels.len(),
    ensures
        ({
            let guides = line_guides(levels, style, Some(s), i);
            &&& s.start <= i <= s.end ==> {
                &&& s.level <= guides.len()
                &&& guides[s.level - 1].in_scope
                &&& guides[s.level - 1].col == ((s.level - 1) * style_width(style)) as usize
                &&& forall|g: int| 0 <= g < guides.len() && g != s.level - 1 ==> !(
                #[trigger] guides[g]).in_scope
            }
            &&& !(s.start <= i <= s.end) ==> forall|g: int|
                0 <= g < guides.len() ==> !(#[trigger] guides[g]).in_scope
        }),
{
    if s.start <= i <= s.end {
        assert(levels[i] >= s.level);
    }
}

/// The indent width of a buffer from its `shiftwidth` and `tabstop`
/// options: `shiftwidth` when it is positive, else `tabstop`, at least 1
/// (Neovim's own rule).
pub fn effective_shiftwidth(shiftwidth: i64, tabstop: i64) -> (width: usize)
    ensures
        width == (if shiftwidth > 0 {
            shiftwidth as usize
        } else if tabstop > 1 {
            tabstop as usize
        } else {
            1usize
        }),
{
    if shiftwidth > 0 {
        return shiftwidth as usize;
    }
    let ts = if tabstop > 1 {
        tabstop
    } else {
        1
    };
    ts as usize
}

/// The indent style of a buffer: detected from its lines when it has any;
/// for an empty buffer, spaces of `shiftwidth` when `expandtab` is set, hard
/// tabs otherwise.
pub open spec fn buffer_style(lines: Seq<Seq<char>>, shiftwidth: usize, expandtab: bool) -> IndentStyle {
    if lines.len() > 0 {
        detected_style(lines, shiftwidth)
    } else if expandtab {
        IndentStyle::Spaces(shiftwidth)
    } else {
        IndentStyle::Tabs
    }
}

/// Determine the indent style for a buffer from its lines and its
/// `shiftwidth` and `expandtab` options: auto-detected (with `shiftwidth`
/// as the fallback width) when the buffer has content, else as the options
/// say.
pub fn buffer_indent_style(lines: &[&str], shiftwidth: usize, expandtab: bool) -> (style:
    IndentStyle)
    requires
        lines_fit(lines@),
        count_tab_lines(line_views(lines@)) <= u32::MAX,
        count_space_lines(line_views(lines@)) <= u32::MAX,
    ensures
        style == buffer_style(line_views(lines@), shiftwidth, expandtab),
{
    if lines.len() != 0 {
        return detect_style(lines, shiftwidth);
    }
    if expandtab {
        IndentStyle::Spaces(shiftwidth)
    } else {
        IndentStyle::Tabs
    }
}


/// The 0-indexed cursor line of a 1-indexed cursor row (row 0 counts as
/// line 0).
pub open spec fn cursor_line_of(cursor_row: usize) -> int {
    if cursor_row == 0 {
        0
    } else {
        cursor_row - 1
    }
}

/// The guides of a whole buffer: none for an empty buffer; otherwise those
/// of the buffer's guide levels in its indent style, with the scope around
/// the cursor line highlighted.
pub open spec fn buffer_guides(
    lines: Seq<Seq<char>>,
    shiftwidth: usize,
    expandtab: bool,
    cursor_row: usize,
) -> Seq<GuideMark> {
    if lines.len() == 0 {
        Seq::empty()
    } else {
        let style = buffer_style(lines, shiftwidth, expandtab);
        let levels = guide_levels(lines, style);
        all_guides(levels, style, scope_at(levels, cursor_line_of(cursor_row)))
    }
}

/// Full refresh: analyse the buffer's lines and give every guide to draw.
///
/// The style comes from [`buffer_indent_style`], the levels from
/// [`compute_levels`], the highlighted scope from [`find_scope`] at the
/// cursor (`cursor_row` is 1-indexed, as the editor reports it), and the
/// guides from [`guide_marks`]. An empty buffer gets no guides.
pub fn refresh_marks(lines: &[&str], shiftwidth: usize, expandtab: bool, cursor_row: usize) -> (marks:
    Vec<GuideMark>)
    requires
        lines_fit(lines@),
        count_tab_lines(line_views(lines@)) <= u32::MAX,
        count_space_lines(line_views(lines@)) <= u32::MAX,
    ensures
        marks@ == buffer_guides(line_views(lines@), shiftwidth, expandtab, cursor_row),
{
    if lines.len() == 0 {
        return Vec::new();
    }
    let style = buffer_indent_style(lines, shiftwidth, expandtab);
    let levels = compute_levels(lines, style);
    let cursor_line = cursor_row.saturating_sub(1);
    let scope = find_scope(levels.as_slice(), cursor_line);
    proof {
        assert forall|i: int|
            0 <= i < levels@.len() && #[trigger] levels@[i] > 0 implies (levels@[i] - 1)
            * style_width(style) <= usize::MAX by {
            lemma_guide_level_columns(lines@, style, i);
            vstd::arithmetic::mul::lemma_mul_inequality(
                levels@[i] - 1,
                levels@[i] as int,
                style_width(style) as int,
            );
        }
    }
    guide_marks(levels.as_slice(), style, scope)
}


/// For a buffer with content, the options only give the fallback width:
/// the style is the one detected from the lines with `shiftwidth` as the
/// fallback, whatever `expandtab` says; and when some non-blank line starts
/// with a space or a tab, neither option matters at all.
pub proof fn lemma_buffer_style_ignores_options(
    lines: Seq<Seq<char>>,
    shiftwidth: usize,
    expandtab: bool,
    shiftwidth2: usize,
    expandtab2: bool,
)
    requires
        lines.len() > 0,
    ensures
        buffer_style(lines, shiftwidth, expandtab) == detected_style(lines, shiftwidth),
        buffer_style(lines, shiftwidth, true) == buffer_style(lines, shiftwidth, false),
        (exists|i: int, j: int|
            0 <= i < lines.len() && 0 <= j < lines[i].len() && #[trigger] lines[i][j] != ' '
                && lines[i][j] != '\t' && (lines[i][0] == ' ' || lines[i][0] == '\t'))
            ==> buffer_style(lines, shiftwidth, expandtab) == buffer_style(
            lines,
            shiftwidth2,
            expandtab2,
        ),
{
    lemma_counts_positive(lines);
    if exists|i: int, j: int|
        0 <= i < lines.len() && 0 <= j < lines[i].len() && #[trigger] lines[i][j] != ' '
            && lines[i][j] != '\t' && (lines[i][0] == ' ' || lines[i][0] == '\t') {
        let (i, j) = choose|i: int, j: int|
            0 <= i < lines.len() && 0 <= j < lines[i].len() && #[trigger] lines[i][j] != ' '
                && lines[i][j] != '\t' && (lines[i][0] == ' ' || lines[i][0] == '\t');
        assert(!is_indent_char(lines[i][j]));
        assert(!is_blank_line(lines[i]));
        if lines[i][0] == ' ' {
            assert(is_space_indented(lines[i]));
        } else {
            assert(is_tab_indented(lines[i]));
        }
    }
}

/// For a buffer with content, the guides are those of the style detected
/// from its lines: `expandtab` never changes them, and when some non-blank
/// line starts with a space or a tab, `shiftwidth` does not either.
pub proof fn lemma_buffer_guides_use_detected_style(
    lines: Seq<Seq<char>>,
    shiftwidth: usize,
    expandtab: bool,
    shiftwidth2: usize,
    expandtab2: bool,
    cursor_row: usize,
)
    requires
        lines.len() > 0,
    ensures
        ({
            let style = detected_style(lines, shiftwidth);
            let levels = guide_levels(lines, style);
            buffer_guides(lines, shiftwidth, expandtab, cursor_row) == all_guides(
                levels,
                style,
                scope_at(levels, cursor_line_of(cursor_row)),
            )
        }),
        buffer_guides(lines, shiftwidth, true, cursor_row) == buffer_guides(
            lines,
            shiftwidth,
            false,
            cursor_row,
        ),
        (exists|i: int, j: int|
            0 <= i < lines.len() && 0 <= j < lines[i].len() && #[trigger] lines[i][j] != ' '
                && lines[i][j] != '\t' && (lines[i][0] == ' ' || lines[i][0] == '\t'))
            ==> buffer_guides(lines, shiftwidth, expandtab, cursor_row) == buffer_guides(
            lines,
            shiftwidth2,
            expandtab2,
            cursor_row,
        ),
{
    lemma_buffer_style_ignores_options(lines, shiftwidth, expandtab, shiftwidth2, expandtab2);
    lemma_buffer_style_ignores_options(lines, shiftwidth, true, shiftwidth2, expandtab2);
}

/// In a buffer indented with spaces of width `w` (no non-blank line starts
/// with a tab, every leading-space run is a multiple of `w`, one of them is
/// exactly `w`), whatever the options: a line whose first `m` characters
/// are spaces, followed by a character that is neither a space nor a tab,
/// is at level `m / w` and gets exactly that many guides, on that line, at
/// columns `0, w, 2w, ...`.
pub proof fn lemma_space_indented_buffer_guides(
    lines: Seq<Seq<char>>,
    w: nat,
    first: int,
    i: int,
    m: int,
    shiftwidth: usize,
    expandtab: bool,
    cursor_row: usize,
)
    requires
        2 <= w <= 8,
        lines.len() <= usize::MAX,
        forall|k: int| 0 <= k < lines.len() ==> (#[trigger] lines[k]).len() <= usize::MAX,
        forall|a: int|
            0 <= a < lines.len() ==> (forall|j: int|
                0 <= j < lines[a].len() ==> (#[trigger] lines[a][j] == ' ' || lines[a][j] == '\t'))
                || lines[a][0] != '\t',
        forall|a: int, k: int|
            #![trigger lines[a][k]]
            0 <= a < lines.len() && 0 <= k < lines[a].len() && lines[a][0] == ' ' && (forall|j: int|
                0 <= j < k ==> #[trigger] lines[a][j] == ' ') && lines[a][k] != ' ' ==> k % (
            w as int) == 0,
        0 <= first < lines.len(),
        w < lines[first].len(),
        forall|j: int| 0 <= j < w ==> #[trigger] lines[first][j] == ' ',
        lines[first][w as int] != ' ',
        lines[first][w as int] != '\t',
        0 <= i < lines.len(),
        0 <= m < lines[i].len(),
        forall|j: int| 0 <= j < m ==> #[trigger] lines[i][j] == ' ',
        lines[i][m] != ' ',
        lines[i][m] != '\t',
    ensures
        ({
            let style = IndentStyle::Spaces(w as usize);
            let levels = guide_levels(lines, style);
            let guides = buffer_guides(lines, shiftwidth, expandtab, cursor_row);
            &&& detected_style(lines, shiftwidth) == style
            &&& levels[i] == m / (w as int)
            &&& forall|g: int|
                0 <= g < m / (w as int) ==> {
                    let mark = #[trigger] guides[total_levels(levels, i) + g];
                    &&& mark.line == i
                    &&& mark.col == g * w
                }
        }),
{
    let style = IndentStyle::Spaces(w as usize);
    lemma_detects_common_space_width(lines, shiftwidth, w, first);
    lemma_buffer_guides_use_detected_style(lines, shiftwidth, expandtab, shiftwidth, expandtab, cursor_row);
    let li = lines[i];
    assert(!is_indent_char(li[m]));
    assert(!is_blank_line(li));
    lemma_leading_run_counts(li, m);
    let lvl = line_level(li, style);
    assert(lvl == m / (w as int));
    vstd::arithmetic::div_mod::lemma_div_is_ordered_by_denominator(m, 1, w as int);
    assert(guide_level(lines, style, i) == lvl);
    let levels = guide_levels(lines, style);
    assert(levels[i] == lvl);
    let scope = scope_at(levels, cursor_line_of(cursor_row));
    lemma_one_guide_per_level(levels, style, scope, levels.len() as int);
    assert forall|g: int| 0 <= g < m / (w as int) implies {
        let mark = #[trigger] buffer_guides(lines, shiftwidth, expandtab, cursor_row)[total_levels(
            levels,
            i,
        ) + g];
        &&& mark.line == i
        &&& mark.col == g * w
    } by {
        vstd::arithmetic::mul::lemma_mul_inequality(g, lvl as int, w as int);
        vstd::arithmetic::div_mod::lemma_fundamental_div_mod(m, w as int);
        vstd::arithmetic::div_mod::lemma_mod_pos_bound(m, w as int);
        vstd::arithmetic::mul::lemma_mul_is_commutative(w as int, lvl as int);
        assert(g * w <= m);
    }
}

} // verus!
