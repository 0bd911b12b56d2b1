//! Indent levels, blank-line handling, style detection and scope finding.

use vstd::prelude::*;

verus! {

/// Describes how a buffer is indented.
#[derive(Debug, Clone, Copy, PartialEq, Eq, Structural)]
pub enum IndentStyle {
    /// Hard tabs: each `\t` counts as one indent level.
    Tabs,
    /// Spaces: every `width` consecutive leading columns count as one level.
    Spaces(usize),
}

/// The column width consumed by one indent level.
pub open spec fn style_width(style: IndentStyle) -> nat {
    match style {
        IndentStyle::Tabs => 1,
        IndentStyle::Spaces(w) => w as nat,
    }
}

impl IndentStyle {
    /// The column width consumed by one indent level (one tab character for
    /// hard tabs, `w` for `Spaces(w)`).
    pub fn width(self) -> (w: usize)
        ensures
            w == style_width(self),
    {
        match self {
            IndentStyle::Tabs => 1,
            IndentStyle::Spaces(w) => w,
        }
    }
}


/// Whether `c` is one of the two indent characters, space and tab.
pub open spec fn is_indent_char(c: char) -> bool {
    c == ' ' || c == '\t'
}

/// Columns taken by the leading run of spaces and tabs of `s`: a space
/// counts one column, a tab `tab_width` columns.
pub open spec fn leading_columns(s: Seq<char>, tab_width: nat) -> nat
    decreases s.len(),
{
    if s.len() == 0 {
        0
    } else if s[0] == '\t' {
        tab_width + leading_columns(s.drop_first(), tab_width)
    } else if s[0] == ' ' {
        1 + leading_columns(s.drop_first(), tab_width)
    } else {
        0
    }
}

/// Returns the number of leading whitespace columns in `line`.
///
/// Tabs are counted as `tab_width` columns; spaces as 1.
pub fn leading_whitespace(line: &str, tab_width: usize) -> (cols: usize)
    requires
        leading_columns(line@, tab_width as nat) <= usize::MAX,
    ensures
        cols == leading_columns(line@, tab_width as nat),
{
    broadcast use vstd::string::group_string_axioms;
    let ghost tw = tab_width as nat;
    let mut cols: usize = 0;
    assert(line@.skip(0) == line@);
    for ch in it: line.chars()
        invariant_except_break
            cols + leading_columns(line@.skip(it.index() as int), tw) == leading_columns(line@, tw),
        invariant
            leading_columns(line@, tw) <= usize::MAX,
            tw == tab_width,
            it.seq() == line@,
        ensures
            cols == leading_columns(line@, tw),
    {
        assert(line@.skip(it.index() as int).drop_first() == line@.skip(it.index() + 1));
        if ch == '\t' {
            cols += tab_width;
        } else if ch == ' ' {
            cols += 1;
        } else {
            break;
        }
    }
    cols
}


/// Number of characters in the leading run of spaces and tabs of `s`.
pub open spec fn leading_indent_chars(s: Seq<char>) -> nat
    decreases s.len(),
{
    if s.len() > 0 && is_indent_char(s[0]) {
        1 + leading_indent_chars(s.drop_first())
    } else {
        0
    }
}

/// Number of characters in the leading run of tabs of `s`.
pub open spec fn leading_tabs(s: Seq<char>) -> nat
    decreases s.len(),
{
    if s.len() > 0 && s[0] == '\t' {
        1 + leading_tabs(s.drop_first())
    } else {
        0
    }
}

/// A line is blank when it holds nothing but spaces and tabs (or nothing).
pub open spec fn is_blank_line(s: Seq<char>) -> bool {
    forall|i: int| 0 <= i < s.len() ==> is_indent_char(#[trigger] s[i])
}

/// The indent level of a line: its number of leading tabs for hard tabs;
/// its leading columns (every space or tab one column) divided by the width
/// for spaces, and 0 for a width of 0.
pub open spec fn line_level(s: Seq<char>, style: IndentStyle) -> nat {
    match style {
        IndentStyle::Tabs => leading_tabs(s),
        IndentStyle::Spaces(w) => if w == 0 {
            0
        } else {
            leading_columns(s, 1) / (w as nat)
        },
    }
}

/// The leading run of indent characters is no longer than the line.
pub proof fn lemma_leading_indent_chars_bound(s: Seq<char>)
    ensures
        leading_indent_chars(s) <= s.len(),
        leading_indent_chars(s) == s.len() <==> is_blank_line(s),
    decreases s.len(),
{
    if s.len() > 0 {
        lemma_leading_indent_chars_bound(s.drop_first());
        if is_indent_char(s[0]) {
            if is_blank_line(s.drop_first()) {
                assert forall|i: int| 0 <= i < s.len() implies is_indent_char(#[trigger] s[i]) by {
                    if i > 0 {
                        assert(s[i] == s.drop_first()[i - 1]);
                    }
                }
            }
            if is_blank_line(s) {
                assert forall|i: int| 0 <= i < s.drop_first().len() implies is_indent_char(
                    #[trigger] s.drop_first()[i],
                ) by {
                    assert(s.drop_first()[i] == s[i + 1]);
                }
            }
        } else {
            assert(!is_indent_char(s[0]));
        }
    }
}

/// The leading run of tabs is no longer than the line.
pub proof fn lemma_leading_tabs_bound(s: Seq<char>)
    ensures
        leading_tabs(s) <= leading_indent_chars(s),
    decreases s.len(),
{
    if s.len() > 0 {
        lemma_leading_tabs_bound(s.drop_first());
    }
}

/// Counting every space and every tab as one column gives the number of
/// leading indent characters.
pub proof fn lemma_unit_columns_are_chars(s: Seq<char>)
    ensures
        leading_columns(s, 1) == leading_indent_chars(s),
    decreases s.len(),
{
    if s.len() > 0 {
        lemma_unit_columns_are_chars(s.drop_first());
    }
}

/// Returns the raw number of leading whitespace characters (spaces and tabs)
/// in `line`.
pub fn leading_ws_chars(line: &str) -> (n: usize)
    requires
        line@.len() <= usize::MAX,
    ensures
        n == leading_indent_chars(line@),
{
    broadcast use vstd::string::group_string_axioms;
    proof {
        lemma_leading_indent_chars_bound(line@);
    }
    let mut n: usize = 0;
    assert(line@.skip(0) == line@);
    for ch in it: line.chars()
        invariant_except_break
            n + leading_indent_chars(line@.skip(it.index() as int)) == leading_indent_chars(line@),
        invariant
            leading_indent_chars(line@) <= usize::MAX,
            it.seq() == line@,
        ensures
            n == leading_indent_chars(line@),
    {
        assert(line@.skip(it.index() as int).drop_first() == line@.skip(it.index() + 1));
        if ch == ' ' || ch == '\t' {
            n += 1;
        } else {
            break;
        }
    }
    n
}

/// Number of leading tab characters of `line`.
fn leading_tab_count(line: &str) -> (n: usize)
    requires
        line@.len() <= usize::MAX,
    ensures
        n == leading_tabs(line@),
{
    broadcast use vstd::string::group_string_axioms;
    proof {
        lemma_leading_indent_chars_bound(line@);
        lemma_leading_tabs_bound(line@);
    }
    let mut n: usize = 0;
    assert(line@.skip(0) == line@);
    for ch in it: line.chars()
        invariant_except_break
            n + leading_tabs(line@.skip(it.index() as int)) == leading_tabs(line@),
        invariant
            leading_tabs(line@) <= usize::MAX,
            it.seq() == line@,
        ensures
            n == leading_tabs(line@),
    {
        assert(line@.skip(it.index() as int).drop_first() == line@.skip(it.index() + 1));
        if ch == '\t' {
            n += 1;
        } else {
            break;
        }
    }
    n
}

/// Calculates the indent level of a single line given an [`IndentStyle`].
///
/// For spaces the level is `leading_columns / width` (integer division),
/// every leading space or tab counting one column, and 0 for a width of 0.
/// For tabs the level equals the number of leading tab characters.
pub fn indent_level(line: &str, style: IndentStyle) -> (level: usize)
    requires
        line@.len() <= usize::MAX,
    ensures
        level == line_level(line@, style),
{
    match style {
        IndentStyle::Tabs => leading_tab_count(line),
        IndentStyle::Spaces(w) => {
            if w == 0 {
                return 0;
            }
            proof {
                lemma_unit_columns_are_chars(line@);
                lemma_leading_indent_chars_bound(line@);
            }
            leading_whitespace(line, 1) / w
        },
    }
}

/// Returns `true` when a line consists solely of spaces and tabs (or is
/// empty).
pub fn is_blank(line: &str) -> (blank: bool)
    ensures
        blank == is_blank_line(line@),
{
    broadcast use vstd::string::group_string_axioms;
    for ch in it: line.chars()
        invariant
            it.seq() == line@,
            forall|i: int| 0 <= i < it.index() ==> is_indent_char(#[trigger] line@[i]),
    {
        if !(ch == ' ' || ch == '\t') {
            return false;
        }
    }
    true
}


/// Greatest common divisor, by Euclid's recurrence (`gcd(a, 0) == a`).
pub open spec fn spec_gcd(a: nat, b: nat) -> nat
    decreases b,
{
    if b == 0 {
        a
    } else {
        spec_gcd(b, a % b)
    }
}

/// Adding a multiple of a multiple of `m` does not change a remainder mod `m`.
proof fn lemma_mod_add_multiple(m: int, y: int, k: int, z: int)
    requires
        m > 0,
        y % m == 0,
    ensures
        (y * k + z) % m == z % m,
{
    vstd::arithmetic::div_mod::lemma_fundamental_div_mod(y, m);
    let c = y / m;
    assert(y * k == m * (c * k)) by (nonlinear_arith)
        requires
            y == m * c + 0,
    ;
    vstd::arithmetic::div_mod::lemma_mod_multiples_vanish(c * k, z, m);
}

/// `spec_gcd(a, b)` is the greatest common divisor of `a` and `b`: it is 0
/// only for `a == b == 0`; otherwise it divides both, and every common
/// divisor of `a` and `b` divides it.
pub proof fn lemma_gcd_is_greatest_common_divisor(a: nat, b: nat)
    ensures
        spec_gcd(a, b) == 0 <==> (a == 0 && b == 0),
        spec_gcd(a, b) > 0 ==> a % spec_gcd(a, b) == 0 && b % spec_gcd(a, b) == 0,
        forall|d: nat|
            d > 0 && #[trigger] (a % d) == 0 && b % d == 0 ==> spec_gcd(a, b) % d == 0,
    decreases b,
{
    if b == 0 {
        if a > 0 {
            vstd::arithmetic::div_mod::lemma_mod_self_0(a as int);
        }
        assert forall|d: nat| d > 0 && #[trigger] (a % d) == 0 && b % d == 0 implies spec_gcd(a, b)
            % d == 0 by {}
    } else {
        let r = a % b;
        let q = a / b;
        vstd::arithmetic::div_mod::lemma_fundamental_div_mod(a as int, b as int);
        vstd::arithmetic::div_mod::lemma_mod_pos_bound(a as int, b as int);
        lemma_gcd_is_greatest_common_divisor(b, r);
        let g = spec_gcd(b, r);
        assert(a == b * q + r);
        assert(g > 0);
        // g divides a = b * q + r
        lemma_mod_add_multiple(g as int, b as int, q as int, r as int);
        assert(a % g == 0) by {
            vstd::arithmetic::mul::lemma_mul_is_commutative(b as int, q as int);
        }
        assert forall|d: nat| d > 0 && #[trigger] (a % d) == 0 && b % d == 0 implies spec_gcd(a, b)
            % d == 0 by {
            lemma_mod_add_multiple(d as int, b as int, q as int, r as int);
            assert(r % d == 0);
        }
    }
}

/// Euclid's recurrence is symmetric in its arguments.
pub proof fn lemma_gcd_commutative(a: nat, b: nat)
    ensures
        spec_gcd(a, b) == spec_gcd(b, a),
{
    lemma_gcd_is_greatest_common_divisor(a, b);
    lemma_gcd_is_greatest_common_divisor(b, a);
    let g1 = spec_gcd(a, b);
    let g2 = spec_gcd(b, a);
    if g1 > 0 {
        assert(g2 % g1 == 0);
        assert(g1 % g2 == 0);
        lemma_mutual_divisors_equal(g1, g2);
    }
}

/// Two positive numbers that divide each other are equal.
proof fn lemma_mutual_divisors_equal(x: nat, y: nat)
    requires
        x > 0,
        y > 0,
        x % y == 0,
        y % x == 0,
    ensures
        x == y,
{
    vstd::arithmetic::div_mod::lemma_fundamental_div_mod(x as int, y as int);
    vstd::arithmetic::div_mod::lemma_fundamental_div_mod(y as int, x as int);
    let p = x / y;
    let q = y / x;
    assert(x == y) by (nonlinear_arith)
        requires
            x == y * p + 0,
            y == x * q + 0,
            x > 0,
            y > 0,
    ;
}

/// Greatest common divisor (Euclidean algorithm); `gcd(0, 0) == 0`.
pub fn gcd(a: usize, b: usize) -> (g: usize)
    ensures
        g == spec_gcd(a as nat, b as nat),
{
    let mut x = a;
    let mut y = b;
    while y != 0
        invariant
            spec_gcd(x as nat, y as nat) == spec_gcd(a as nat, b as nat),
        decreases y,
    {
        let t = y;
        y = x % y;
        x = t;
    }
    x
}


/// The character views of a slice of lines.
pub open spec fn line_views(lines: Seq<&str>) -> Seq<Seq<char>> {
    lines.map_values(|l: &str| l@)
}

/// Every line's length (in characters) fits in a `usize`, as it does for
/// any string held in memory.
pub open spec fn lines_fit(lines: Seq<&str>) -> bool {
    forall|i: int| 0 <= i < lines.len() ==> (#[trigger] lines[i])@.len() <= usize::MAX
}

/// Number of characters in the leading run of spaces (tabs excluded) of `s`.
pub open spec fn leading_spaces(s: Seq<char>) -> nat
    decreases s.len(),
{
    if s.len() > 0 && s[0] == ' ' {
        1 + leading_spaces(s.drop_first())
    } else {
        0
    }
}

/// A non-blank line whose first character is a tab.
pub open spec fn is_tab_indented(s: Seq<char>) -> bool {
    !is_blank_line(s) && s[0] == '\t'
}

/// A non-blank line whose first character is a space.
pub open spec fn is_space_indented(s: Seq<char>) -> bool {
    !is_blank_line(s) && s[0] == ' '
}

/// Number of tab-indented lines.
pub open spec fn count_tab_lines(lines: Seq<Seq<char>>) -> nat
    decreases lines.len(),
{
    if lines.len() == 0 {
        0
    } else {
        count_tab_lines(lines.drop_last()) + if is_tab_indented(lines.last()) {
            1nat
        } else {
            0nat
        }
    }
}

/// Number of space-indented lines.
pub open spec fn count_space_lines(lines: Seq<Seq<char>>) -> nat
    decreases lines.len(),
{
    if lines.len() == 0 {
        0
    } else {
        count_space_lines(lines.drop_last()) + if is_space_indented(lines.last()) {
            1nat
        } else {
            0nat
        }
    }
}

/// The greatest common divisor of the leading-space counts of all
/// space-indented lines (0 when there is none).
pub open spec fn space_gcd(lines: Seq<Seq<char>>) -> nat
    decreases lines.len(),
{
    if lines.len() == 0 {
        0
    } else if is_space_indented(lines.last()) {
        spec_gcd(space_gcd(lines.drop_last()), leading_spaces(lines.last()))
    } else {
        space_gcd(lines.drop_last())
    }
}

/// `n` clamped to the range `[lo, hi]`.
pub open spec fn clamp_nat(n: nat, lo: nat, hi: nat) -> nat {
    if n < lo {
        lo
    } else if n > hi {
        hi
    } else {
        n
    }
}

/// The dominant indent style of `lines`: the fallback width when no line is
/// indented; hard tabs when at least as many lines start with a tab as with
/// a space; otherwise spaces, of the greatest common divisor of the
/// leading-space counts, clamped to `[2, 8]`.
pub open spec fn detected_style(lines: Seq<Seq<char>>, fallback_width: usize) -> IndentStyle {
    let tabs = count_tab_lines(lines);
    let spaces = count_space_lines(lines);
    if tabs == 0 && spaces == 0 {
        IndentStyle::Spaces(fallback_width)
    } else if tabs >= spaces {
        IndentStyle::Tabs
    } else {
        IndentStyle::Spaces(clamp_nat(space_gcd(lines), 2, 8) as usize)
    }
}

/// The detected space width before clamping, `space_gcd`, is the greatest
/// common divisor of the leading-space counts of the space-indented lines:
/// it divides each of them, every common divisor of them divides it, and it
/// is 0 exactly when no line is space-indented.
pub proof fn lemma_space_gcd_divides_space_lines(lines: Seq<Seq<char>>)
    ensures
        space_gcd(lines) > 0 <==> exists|i: int|
            0 <= i < lines.len() && is_space_indented(#[trigger] lines[i]),
        forall|i: int|
            0 <= i < lines.len() && is_space_indented(#[trigger] lines[i]) ==> leading_spaces(
                lines[i],
            ) % space_gcd(lines) == 0,
        forall|d: nat|
            d > 0 && (forall|i: int|
                0 <= i < lines.len() && is_space_indented(#[trigger] lines[i]) ==> leading_spaces(
                    lines[i],
                ) % d == 0) ==> #[trigger] (space_gcd(lines) % d) == 0,
    decreases lines.len(),
{
    if lines.len() > 0 {
        let init = lines.drop_last();
        let last = lines.last();
        lemma_space_gcd_divides_space_lines(init);
        let g0 = space_gcd(init);
        if is_space_indented(last) {
            let n = leading_spaces(last);
            assert(n >= 1) by {
                assert(last.len() > 0);
            }
            lemma_gcd_is_greatest_common_divisor(g0, n);
            let g = spec_gcd(g0, n);
            assert forall|i: int|
                0 <= i < lines.len() && is_space_indented(#[trigger] lines[i]) implies leading_spaces(
                lines[i],
            ) % g == 0 by {
                if i < lines.len() - 1 {
                    assert(lines[i] == init[i]);
                    assert(g0 > 0);
                    // n_i is a multiple of g0, which is a multiple of g
                    let ni = leading_spaces(lines[i]);
                    vstd::arithmetic::div_mod::lemma_fundamental_div_mod(ni as int, g0 as int);
                    lemma_mod_add_multiple(g as int, g0 as int, (ni / g0) as int, 0);
                    vstd::arithmetic::mul::lemma_mul_is_commutative(g0 as int, (ni / g0) as int);
                }
            }
            assert forall|d: nat|
                d > 0 && (forall|i: int|
                    0 <= i < lines.len() && is_space_indented(#[trigger] lines[i])
                        ==> leading_spaces(lines[i]) % d == 0) implies #[trigger] (space_gcd(lines)
                % d) == 0 by {
                assert forall|i: int|
                    0 <= i < init.len() && is_space_indented(#[trigger] init[i]) implies leading_spaces(
                    init[i],
                ) % d == 0 by {
                    assert(init[i] == lines[i]);
                }
                assert(g0 % d == 0);
                assert(lines[lines.len() - 1] == last);
                assert(leading_spaces(lines[lines.len() - 1]) % d == 0);
                assert(n % d == 0);
            }
            assert(lines[lines.len() - 1] == last);
            assert(spec_gcd(g0, n) > 0);
        } else {
            assert forall|i: int|
                0 <= i < lines.len() && is_space_indented(#[trigger] lines[i]) implies leading_spaces(
                lines[i],
            ) % space_gcd(lines) == 0 by {
                assert(lines[i] == init[i]);
            }
            if space_gcd(lines) > 0 {
                let i = choose|i: int| 0 <= i < init.len() && is_space_indented(#[trigger] init[i]);
                assert(lines[i] == init[i]);
            }
            if exists|i: int| 0 <= i < lines.len() && is_space_indented(#[trigger] lines[i]) {
                let i = choose|i: int| 0 <= i < lines.len() && is_space_indented(#[trigger] lines[i]);
                assert(lines[i] == init[i]);
            }
            assert forall|d: nat|
                d > 0 && (forall|i: int|
                    0 <= i < lines.len() && is_space_indented(#[trigger] lines[i])
                        ==> leading_spaces(lines[i]) % d == 0) implies #[trigger] (space_gcd(lines)
                % d) == 0 by {
                assert forall|i: int|
                    0 <= i < init.len() && is_space_indented(#[trigger] init[i]) implies leading_spaces(
                    init[i],
                ) % d == 0 by {
                    assert(init[i] == lines[i]);
                }
            }
        }
    }
}

/// The leading spaces are among the leading indent characters.
pub proof fn lemma_leading_spaces_bound(s: Seq<char>)
    ensures
        leading_spaces(s) <= leading_indent_chars(s),
    decreases s.len(),
{
    if s.len() > 0 {
        lemma_leading_spaces_bound(s.drop_first());
    }
}

/// Number of leading space characters of `line`.
fn leading_space_count(line: &str) -> (n: usize)
    requires
        line@.len() <= usize::MAX,
    ensures
        n == leading_spaces(line@),
{
    broadcast use vstd::string::group_string_axioms;
    proof {
        lemma_leading_indent_chars_bound(line@);
        lemma_leading_spaces_bound(line@);
    }
    let mut n: usize = 0;
    assert(line@.skip(0) == line@);
    for ch in it: line.chars()
        invariant_except_break
            n + leading_spaces(line@.skip(it.index() as int)) == leading_spaces(line@),
        invariant
            leading_spaces(line@) <= usize::MAX,
            it.seq() == line@,
        ensures
            n == leading_spaces(line@),
    {
        assert(line@.skip(it.index() as int).drop_first() == line@.skip(it.index() + 1));
        if ch == ' ' {
            n += 1;
        } else {
            break;
        }
    }
    n
}

/// Detect the dominant indent style by scanning the lines.
///
/// Blank lines are ignored. Lines that start with a tab are counted against
/// lines that start with a space; tabs win ties. When spaces win, the
/// indent width is the GCD of all leading-space counts, clamped to `[2, 8]`.
/// When no line is indented (an empty buffer among them), the result is
/// `Spaces(fallback_width)`.
pub fn detect_style(lines: &[&str], fallback_width: usize) -> (style: IndentStyle)
    requires
        lines_fit(lines@),
        count_tab_lines(line_views(lines@)) <= u32::MAX,
        count_space_lines(line_views(lines@)) <= u32::MAX,
    ensures
        style == detected_style(line_views(lines@), fallback_width),
{
    let ghost views = line_views(lines@);
    let mut tab_lines: u32 = 0;
    let mut space_lines: u32 = 0;
    let mut space_gcd_acc: usize = 0;
    for i in 0..lines.len()
        invariant
            views == line_views(lines@),
            lines_fit(lines@),
            count_tab_lines(views) <= u32::MAX,
            count_space_lines(views) <= u32::MAX,
            tab_lines == count_tab_lines(views.take(i as int)),
            space_lines == count_space_lines(views.take(i as int)),
            space_gcd_acc == space_gcd(views.take(i as int)),
    {
        let line = lines[i];
        assert(views.take(i + 1).drop_last() == views.take(i as int));
        assert(views.take(i + 1).last() == line@);
        proof {
            lemma_counts_monotone(views, i + 1);
        }
        // Blank lines carry no indent information.
        if !is_blank(line) {
            let first = line.get_char(0);
            if first == '\t' {
                tab_lines += 1;
            } else if first == ' ' {
                let count = leading_space_count(line);
                space_lines += 1;
                space_gcd_acc = gcd(space_gcd_acc, count);
            }
        }
    }
    assert(views.take(lines.len() as int) == views);
    if tab_lines == 0 && space_lines == 0 {
        return IndentStyle::Spaces(fallback_width);
    }
    if tab_lines >= space_lines {
        IndentStyle::Tabs
    } else {
        let width = if space_gcd_acc < 2 {
            2
        } else if space_gcd_acc > 8 {
            8
        } else {
            space_gcd_acc
        };
        IndentStyle::Spaces(width)
    }
}

/// The line counts over a prefix of the lines never exceed those over all of them.
proof fn lemma_counts_monotone(views: Seq<Seq<char>>, n: int)
    requires
        0 <= n <= views.len(),
    ensures
        count_tab_lines(views.take(n)) <= count_tab_lines(views),
        count_space_lines(views.take(n)) <= count_space_lines(views),
    decreases views.len() - n,
{
    if n < views.len() {
        lemma_counts_monotone(views, n + 1);
        assert(views.take(n + 1).drop_last() == views.take(n));
    } else {
        assert(views.take(n) == views);
    }
}


/// Level of the nearest non-blank line at index `i` or above it; 0 when
/// there is none.
pub open spec fn level_at_or_above(lines: Seq<Seq<char>>, style: IndentStyle, i: int) -> nat
    decreases i + 1,
{
    if i < 0 || i >= lines.len() {
        0
    } else if !is_blank_line(lines[i]) {
        line_level(lines[i], style)
    } else {
        level_at_or_above(lines, style, i - 1)
    }
}

/// Level of the nearest non-blank line at index `i` or below it; 0 when
/// there is none.
pub open spec fn level_at_or_below(lines: Seq<Seq<char>>, style: IndentStyle, i: int) -> nat
    decreases lines.len() - i,
{
    if i < 0 || i >= lines.len() {
        0
    } else if !is_blank_line(lines[i]) {
        line_level(lines[i], style)
    } else {
        level_at_or_below(lines, style, i + 1)
    }
}

/// The guide level of line `i`: its own indent level when it is not blank;
/// for a blank line, the smaller of the levels of the nearest non-blank
/// lines above and below it (0 where there is none), so that it belongs to
/// the shallower enclosing scope.
pub open spec fn guide_level(lines: Seq<Seq<char>>, style: IndentStyle, i: int) -> nat {
    if !is_blank_line(lines[i]) {
        line_level(lines[i], style)
    } else {
        let up = level_at_or_above(lines, style, i);
        let down = level_at_or_below(lines, style, i);
        if up <= down {
            up
        } else {
            down
        }
    }
}

/// `level_at_or_above` is the level of the nearest non-blank line at or
/// above `i`: when line `j <= i` is non-blank and every line after it up to
/// `i` is blank, it is line `j`'s level; when every line up to `i` is blank,
/// it is 0.
pub proof fn lemma_level_above_is_nearest(lines: Seq<Seq<char>>, style: IndentStyle, j: int, i: int)
    requires
        -1 <= j <= i < lines.len(),
        j >= 0 ==> !is_blank_line(lines[j]),
        forall|k: int| j < k <= i ==> is_blank_line(#[trigger] lines[k]),
    ensures
        level_at_or_above(lines, style, i) == if j >= 0 {
            line_level(lines[j], style)
        } else {
            0
        },
    decreases i - j,
{
    if i > j {
        assert(is_blank_line(lines[i]));
        lemma_level_above_is_nearest(lines, style, j, i - 1);
    }
}

/// `level_at_or_below` is the level of the nearest non-blank line at or
/// below `i`: when line `j >= i` is non-blank and every line from `i` up to
/// it is blank, it is line `j`'s level; when every line from `i` on is
/// blank, it is 0.
pub proof fn lemma_level_below_is_nearest(lines: Seq<Seq<char>>, style: IndentStyle, i: int, j: int)
    requires
        0 <= i <= j <= lines.len(),
        j < lines.len() ==> !is_blank_line(lines[j]),
        forall|k: int| i <= k < j ==> is_blank_line(#[trigger] lines[k]),
    ensures
        level_at_or_below(lines, style, i) == if j < lines.len() {
            line_level(lines[j], style)
        } else {
            0
        },
    decreases j - i,
{
    if i < j {
        assert(is_blank_line(lines[i]));
        lemma_level_below_is_nearest(lines, style, i + 1, j);
    }
}

/// A blank line takes the shallower of its surroundings: with line `above`
/// the nearest non-blank line above it (or -1 when there is none) and line
/// `below` the nearest non-blank line below it (or the line count when
/// there is none), its guide level is the smaller of their levels, a
/// missing neighbour counting as level 0. So a blank line inside a block
/// whose neighbours are both at level `L` or deeper is at level `L` or
/// deeper, and never deeper than either neighbour.
pub proof fn lemma_blank_line_takes_shallower_neighbour(
    lines: Seq<Seq<char>>,
    style: IndentStyle,
    above: int,
    i: int,
    below: int,
)
    requires
        -1 <= above < i < below <= lines.len(),
        above >= 0 ==> !is_blank_line(lines[above]),
        below < lines.len() ==> !is_blank_line(lines[below]),
        forall|k: int| above < k < below ==> is_blank_line(#[trigger] lines[k]),
    ensures
        ({
            let up = if above >= 0 {
                line_level(lines[above], style)
            } else {
                0
            };
            let down = if below < lines.len() {
                line_level(lines[below], style)
            } else {
                0
            };
            guide_level(lines, style, i) == if up <= down {
                up
            } else {
                down
            }
        }),
{
    assert(is_blank_line(lines[i]));
    lemma_level_above_is_nearest(lines, style, above, i);
    lemma_level_below_is_nearest(lines, style, i, below);
}

/// When every line is blank, every guide level is 0.
pub proof fn lemma_all_blank_levels_zero(lines: Seq<Seq<char>>, style: IndentStyle)
    requires
        forall|k: int| 0 <= k < lines.len() ==> is_blank_line(#[trigger] lines[k]),
    ensures
        forall|i: int| 0 <= i < lines.len() ==> #[trigger] guide_level(lines, style, i) == 0,
{
    assert forall|i: int| 0 <= i < lines.len() implies #[trigger] guide_level(lines, style, i)
        == 0 by {
        lemma_blank_line_takes_shallower_neighbour(lines, style, -1, i, lines.len() as int);
    }
}

/// The indent level of a line is at most its number of leading indent
/// characters, so a non-blank line's level is below its length.
pub proof fn lemma_line_level_bound(s: Seq<char>, style: IndentStyle)
    ensures
        line_level(s, style) <= leading_indent_chars(s),
        !is_blank_line(s) ==> line_level(s, style) < s.len(),
{
    lemma_leading_indent_chars_bound(s);
    lemma_leading_tabs_bound(s);
    lemma_unit_columns_are_chars(s);
    vstd::arithmetic::mul::lemma_mul_basics(line_level(s, style) as int);
    match style {
        IndentStyle::Tabs => {},
        IndentStyle::Spaces(w) => {
            if w != 0 {
                vstd::arithmetic::div_mod::lemma_div_is_ordered_by_denominator(
                    leading_columns(s, 1) as int,
                    1,
                    w as int,
                );
            }
        },
    }
}

/// Computes indent levels for every line in a set of lines.
///
/// Blank lines inherit the *minimum* level of their surrounding non-blank
/// neighbours so that indent guides are drawn continuously through empty
/// lines inside a block.
pub fn compute_levels(lines: &[&str], style: IndentStyle) -> (levels: Vec<usize>)
    requires
        lines_fit(lines@),
    ensures
        levels@.len() == lines@.len(),
        forall|i: int|
            0 <= i < lines@.len() ==> #[trigger] levels@[i] == guide_level(
                line_views(lines@),
                style,
                i,
            ),
        levels@ == guide_levels(line_views(lines@), style),
{
    let n = lines.len();
    let ghost views = line_views(lines@);
    if n == 0 {
        return Vec::new();
    }
    // First pass: raw levels; blank lines get `usize::MAX` as sentinel.

    let mut levels: Vec<usize> = Vec::new();
    for i in 0..n
        invariant
            n == lines@.len(),
            views == line_views(lines@),
            lines_fit(lines@),
            levels@.len() == i,
            forall|j: int|
                0 <= j < i ==> #[trigger] levels@[j] == if is_blank_line(views[j]) {
                    usize::MAX as nat
                } else {
                    line_level(views[j], style)
                },
    {
        let line = lines[i];
        if is_blank(line) {
            levels.push(usize::MAX);
        } else {
            proof {
                lemma_line_level_bound(line@, style);
            }
            levels.push(indent_level(line, style));
        }
    }
    // Second pass: forward, blank lines inherit the level of the previous
    // non-blank line.

    let mut prev: usize = 0;
    let mut forward: Vec<usize> = Vec::new();
    for i in 0..n
        invariant
            n == lines@.len(),
            views == line_views(lines@),
            lines_fit(lines@),
            levels@.len() == n,
            forall|j: int|
                0 <= j < n ==> #[trigger] levels@[j] == if is_blank_line(views[j]) {
                    usize::MAX as nat
                } else {
                    line_level(views[j], style)
                },
            forward@.len() == i,
            prev == level_at_or_above(views, style, i - 1),
            forall|j: int| 0 <= j < i ==> #[trigger] forward@[j] == level_at_or_above(views, style, j),
    {
        let lvl = levels[i];
        proof {
            lemma_line_level_bound(views[i as int], style);
        }
        if lvl == usize::MAX {
            forward.push(prev);
        } else {
            prev = lvl;
            forward.push(lvl);
        }
    }
    // Backward pass.

    let mut next: usize = 0;
    let mut backward: Vec<usize> = Vec::new();
    for i in 0..n
        invariant
            backward@.len() == i,
    {
        backward.push(0);
    }
    let mut k: usize = n;
    while k > 0
        invariant
            n == lines@.len(),
            views == line_views(lines@),
            lines_fit(lines@),
            k <= n,
            levels@.len() == n,
            forall|j: int|
                0 <= j < n ==> #[trigger] levels@[j] == if is_blank_line(views[j]) {
                    usize::MAX as nat
                } else {
                    line_level(views[j], style)
                },
            backward@.len() == n,
            next == level_at_or_below(views, style, k as int),
            forall|j: int| k <= j < n ==> #[trigger] backward@[j] == level_at_or_below(views, style, j),
        decreases k,
    {
        let i = k - 1;
        proof {
            lemma_line_level_bound(views[i as int], style);
        }
        if levels[i] == usize::MAX {
            backward.set(i, next);
        } else {
            next = levels[i];
            backward.set(i, levels[i]);
        }
        k = i;
    }
    // Merge: blank lines take the minimum of forward/backward so they belong
    // to the shallower enclosing scope.

    for i in 0..n
        invariant
            n == lines@.len(),
            views == line_views(lines@),
            lines_fit(lines@),
            levels@.len() == n,
            forward@.len() == n,
            backward@.len() == n,
            forall|j: int| 0 <= j < n ==> #[trigger] forward@[j] == level_at_or_above(views, style, j),
            forall|j: int| 0 <= j < n ==> #[trigger] backward@[j] == level_at_or_below(views, style, j),
            forall|j: int|
                0 <= j < i ==> #[trigger] levels@[j] == guide_level(views, style, j),
            forall|j: int|
                i <= j < n ==> #[trigger] levels@[j] == if is_blank_line(views[j]) {
                    usize::MAX as nat
                } else {
                    line_level(views[j], style)
                },
    {
        proof {
            lemma_line_level_bound(views[i as int], style);
        }
        if levels[i] == usize::MAX {
            let m = if forward[i] <= backward[i] {
                forward[i]
            } else {
                backward[i]
            };
            levels.set(i, m);
        }
    }
    assert(levels@ =~= guide_levels(views, style));
    levels
}

/// The guide levels of all lines, as computed by [`compute_levels`].
pub open spec fn guide_levels(lines: Seq<Seq<char>>, style: IndentStyle) -> Seq<usize> {
    Seq::new(lines.len(), |i: int| guide_level(lines, style, i) as usize)
}

/// A line's indent level, counted in columns, stays within its leading
/// indent characters.
pub proof fn lemma_line_level_columns(s: Seq<char>, style: IndentStyle)
    ensures
        line_level(s, style) * style_width(style) <= leading_indent_chars(s),
{
    lemma_leading_tabs_bound(s);
    lemma_unit_columns_are_chars(s);
    vstd::arithmetic::mul::lemma_mul_basics(line_level(s, style) as int);
    match style {
        IndentStyle::Tabs => {},
        IndentStyle::Spaces(w) => {
            if w != 0 {
                let c = leading_columns(s, 1) as int;
                vstd::arithmetic::div_mod::lemma_fundamental_div_mod(c, w as int);
                vstd::arithmetic::div_mod::lemma_mod_pos_bound(c, w as int);
                vstd::arithmetic::mul::lemma_mul_is_commutative(w as int, c / (w as int));
            }
        },
    }
}

/// Every guide level, counted in columns, fits in a `usize`.
pub proof fn lemma_guide_level_columns(lines: Seq<&str>, style: IndentStyle, i: int)
    requires
        lines_fit(lines),
        0 <= i < lines.len(),
    ensures
        guide_level(line_views(lines), style, i) * style_width(style) <= usize::MAX,
{
    let views = line_views(lines);
    lemma_level_at_or_above_columns(lines, style, i);
    lemma_level_at_or_below_columns(lines, style, i);
    lemma_line_level_columns(views[i], style);
    lemma_leading_indent_chars_bound(views[i]);
    let up = level_at_or_above(views, style, i);
    let down = level_at_or_below(views, style, i);
    if up > down {
        vstd::arithmetic::mul::lemma_mul_inequality(down as int, up as int, style_width(style) as int);
    }
}

proof fn lemma_level_at_or_above_columns(lines: Seq<&str>, style: IndentStyle, i: int)
    requires
        lines_fit(lines),
    ensures
        level_at_or_above(line_views(lines), style, i) * style_width(style) <= usize::MAX,
    decreases i + 1,
{
    let views = line_views(lines);
    vstd::arithmetic::mul::lemma_mul_basics(style_width(style) as int);
    if 0 <= i < lines.len() {
        if !is_blank_line(views[i]) {
            lemma_line_level_columns(views[i], style);
            lemma_leading_indent_chars_bound(views[i]);
            assert(views[i] == lines[i]@);
        } else {
            lemma_level_at_or_above_columns(lines, style, i - 1);
        }
    }
}

proof fn lemma_level_at_or_below_columns(lines: Seq<&str>, style: IndentStyle, i: int)
    requires
        lines_fit(lines),
    ensures
        level_at_or_below(line_views(lines), style, i) * style_width(style) <= usize::MAX,
    decreases lines.len() - i,
{
    let views = line_views(lines);
    vstd::arithmetic::mul::lemma_mul_basics(style_width(style) as int);
    if 0 <= i < lines.len() {
        if !is_blank_line(views[i]) {
            lemma_line_level_columns(views[i], style);
            lemma_leading_indent_chars_bound(views[i]);
            assert(views[i] == lines[i]@);
        } else {
            lemma_level_at_or_below_columns(lines, style, i + 1);
        }
    }
}

/// A contiguous scope defined by a range of lines that share a common indent
/// level greater than or equal to a threshold.
#[derive(Debug, Clone, Copy, PartialEq, Eq, Structural)]
pub struct Scope {
    /// First line of the scope (0-indexed, inclusive).
    pub start: usize,
    /// Last line of the scope (0-indexed, inclusive).
    pub end: usize,
    /// The indent level that defines this scope.
    pub level: usize,
}

/// Line `cursor` lies inside some scope: it exists and its level is not 0.
pub open spec fn has_scope(levels: Seq<usize>, cursor: int) -> bool {
    0 <= cursor < levels.len() && levels[cursor] > 0
}

/// `scope` is the innermost scope around line `cursor`: the maximal run of
/// lines around the cursor whose levels are all at least the cursor's level,
/// with that level.
pub open spec fn is_scope_of(levels: Seq<usize>, cursor: int, scope: Scope) -> bool {
    &&& 0 <= cursor < levels.len()
    &&& scope.level == levels[cursor]
    &&& scope.start <= cursor <= scope.end
    &&& scope.end < levels.len()
    &&& forall|j: int| scope.start <= j <= scope.end ==> #[trigger] levels[j] >= scope.level
    &&& scope.start == 0 || levels[scope.start - 1] < scope.level
    &&& scope.end + 1 == levels.len() || levels[scope.end + 1] < scope.level
}

/// The innermost scope around line `cursor`, if it has one.
pub open spec fn scope_at(levels: Seq<usize>, cursor: int) -> Option<Scope> {
    if has_scope(levels, cursor) {
        Some(choose|s: Scope| is_scope_of(levels, cursor, s))
    } else {
        None
    }
}

/// A line has at most one innermost scope: the scope's boundaries are fixed
/// by the levels around it.
pub proof fn lemma_scope_unique(levels: Seq<usize>, cursor: int, s1: Scope, s2: Scope)
    requires
        is_scope_of(levels, cursor, s1),
        is_scope_of(levels, cursor, s2),
    ensures
        s1 == s2,
{
    if s1.start < s2.start {
        assert(levels[s2.start - 1] >= s1.level);
    }
    if s2.start < s1.start {
        assert(levels[s1.start - 1] >= s2.level);
    }
    if s1.end < s2.end {
        assert(levels[s1.end + 1] >= s2.level);
    }
    if s2.end < s1.end {
        assert(levels[s2.end + 1] >= s1.level);
    }
}

/// Find the innermost scope surrounding `cursor_line`.
///
/// A scope is a maximal contiguous block of lines whose indent level is at
/// least the cursor line's level; the lines just above and below it (where
/// they exist) have a strictly lower level. Returns `None` when `levels` is
/// empty, the cursor is past the last line, or the cursor line is at level 0.
pub fn find_scope(levels: &[usize], cursor_line: usize) -> (scope: Option<Scope>)
    ensures
        scope is None <==> !has_scope(levels@, cursor_line as int),
        scope matches Some(s) ==> is_scope_of(levels@, cursor_line as int, s),
        scope == scope_at(levels@, cursor_line as int),
{
    if levels.len() == 0 || cursor_line >= levels.len() {
        return None;
    }
    let cursor_level = levels[cursor_line];
    if cursor_level == 0 {
        return None;
    }
    // Walk upward to find a line with a strictly lower level.

    let mut start = cursor_line;
    while start > 0 && levels[start - 1] >= cursor_level
        invariant
            start <= cursor_line < levels@.len(),
            cursor_level == levels@[cursor_line as int],
            forall|j: int| start <= j <= cursor_line ==> #[trigger] levels@[j] >= cursor_level,
        decreases start,
    {
        start -= 1;
    }
    // Walk downward.

    let n = levels.len();
    let mut end = cursor_line;
    while end + 1 < n && levels[end + 1] >= cursor_level
        invariant
            n == levels@.len(),
            cursor_line <= end < levels@.len(),
            cursor_level == levels@[cursor_line as int],
            forall|j: int| cursor_line <= j <= end ==> #[trigger] levels@[j] >= cursor_level,
        decreases levels@.len() - end,
    {
        end += 1;
    }
    let scope = Scope { start, end, level: cursor_level };
    proof {
        assert(is_scope_of(levels@, cursor_line as int, scope));
        let chosen = choose|s: Scope| is_scope_of(levels@, cursor_line as int, s);
        lemma_scope_unique(levels@, cursor_line as int, scope, chosen);
    }
    Some(scope)
}

/// Scopes nest: the scope of any line inside a scope lies within that
/// scope, at the same or a deeper level.
pub proof fn lemma_scopes_nest(levels: Seq<usize>, cursor: int, outer: Scope, j: int, inner: Scope)
    requires
        is_scope_of(levels, cursor, outer),
        outer.start <= j <= outer.end,
        is_scope_of(levels, j, inner),
    ensures
        outer.start <= inner.start,
        inner.end <= outer.end,
        outer.level <= inner.level,
{
    assert(levels[j] >= outer.level);
    if inner.start < outer.start {
        assert(levels[outer.start - 1] >= inner.level);
    }
    if inner.end > outer.end {
        assert(levels[outer.end + 1] >= inner.level);
    }
}

/// Every line of a scope that sits at the scope's own level has that same
/// scope: moving the cursor along the block's own lines keeps the scope.
pub proof fn lemma_scope_stable_on_its_level(levels: Seq<usize>, cursor: int, s: Scope, j: int)
    requires
        is_scope_of(levels, cursor, s),
        s.start <= j <= s.end,
        levels[j] == s.level,
    ensures
        is_scope_of(levels, j, s),
        scope_at(levels, j) == scope_at(levels, cursor),
{
    assert(is_scope_of(levels, j, s));
    if s.level > 0 {
        let a = choose|t: Scope| is_scope_of(levels, j, t);
        lemma_scope_unique(levels, j, s, a);
        let b = choose|t: Scope| is_scope_of(levels, cursor, t);
        lemma_scope_unique(levels, cursor, s, b);
    }
}


/// A line whose first `k` characters are tabs, followed by a character
/// that is not a tab (or by nothing), is at tab level exactly `k`.
pub proof fn lemma_tab_level_counts_leading_tabs(s: Seq<char>, k: int)
    requires
        0 <= k <= s.len(),
        forall|i: int| 0 <= i < k ==> s[i] == '\t',
        k < s.len() ==> s[k] != '\t',
    ensures
        line_level(s, IndentStyle::Tabs) == k,
    decreases k,
{
    if k > 0 {
        let t = s.drop_first();
        assert forall|i: int| 0 <= i < k - 1 implies t[i] == '\t' by {
            assert(t[i] == s[i + 1]);
        }
        if k - 1 < t.len() {
            assert(t[k - 1] == s[k]);
        }
        lemma_tab_level_counts_leading_tabs(t, k - 1);
    } else if s.len() > 0 {
        assert(s[0] != '\t');
    }
}

/// A line whose first `k` characters are spaces or tabs, followed by a
/// character that is neither (or by nothing), has exactly `k` leading
/// whitespace characters, and `k` leading columns when a tab counts one.
pub proof fn lemma_leading_run_counts(s: Seq<char>, k: int)
    requires
        0 <= k <= s.len(),
        forall|i: int| 0 <= i < k ==> s[i] == ' ' || s[i] == '\t',
        k < s.len() ==> s[k] != ' ' && s[k] != '\t',
    ensures
        leading_indent_chars(s) == k,
        leading_columns(s, 1) == k,
    decreases k,
{
    lemma_unit_columns_are_chars(s);
    if k > 0 {
        let t = s.drop_first();
        assert forall|i: int| 0 <= i < k - 1 implies t[i] == ' ' || t[i] == '\t' by {
            assert(t[i] == s[i + 1]);
        }
        if k - 1 < t.len() {
            assert(t[k - 1] == s[k]);
        }
        lemma_leading_run_counts(t, k - 1);
        assert(s[0] == ' ' || s[0] == '\t');
    } else if s.len() > 0 {
        assert(s[0] != ' ' && s[0] != '\t');
    }
}

/// A line whose first `k` characters are spaces, followed by a character
/// that is not a space (or by nothing), has exactly `k` leading spaces.
pub proof fn lemma_leading_space_run_counts(s: Seq<char>, k: int)
    requires
        0 <= k <= s.len(),
        forall|i: int| 0 <= i < k ==> s[i] == ' ',
        k < s.len() ==> s[k] != ' ',
    ensures
        leading_spaces(s) == k,
    decreases k,
{
    if k > 0 {
        let t = s.drop_first();
        assert forall|i: int| 0 <= i < k - 1 implies t[i] == ' ' by {
            assert(t[i] == s[i + 1]);
        }
        if k - 1 < t.len() {
            assert(t[k - 1] == s[k]);
        }
        lemma_leading_space_run_counts(t, k - 1);
    } else if s.len() > 0 {
        assert(s[0] != ' ');
    }
}

/// With spaces of width `w > 0`, a line whose leading run of spaces and
/// tabs is `k` characters long is at level `floor(k / w)`:
/// `level * w <= k < (level + 1) * w`. With width 0 every line is at level 0.
pub proof fn lemma_space_level_is_floor_of_columns(s: Seq<char>, w: usize, k: int)
    requires
        0 <= k <= s.len(),
        forall|i: int| 0 <= i < k ==> s[i] == ' ' || s[i] == '\t',
        k < s.len() ==> s[k] != ' ' && s[k] != '\t',
    ensures
        w == 0 ==> line_level(s, IndentStyle::Spaces(w)) == 0,
        w > 0 ==> line_level(s, IndentStyle::Spaces(w)) * w <= k,
        w > 0 ==> k < (line_level(s, IndentStyle::Spaces(w)) + 1) * w,
{
    lemma_leading_run_counts(s, k);
    if w > 0 {
        let l = line_level(s, IndentStyle::Spaces(w));
        assert(l == k / (w as int));
        vstd::arithmetic::div_mod::lemma_fundamental_div_mod(k, w as int);
        vstd::arithmetic::div_mod::lemma_mod_pos_bound(k, w as int);
        assert(l * w <= k && k < (l + 1) * w) by (nonlinear_arith)
            requires
                k == (w as int) * l + k % (w as int),
                0 <= k % (w as int) < w,
        ;
    }
}

/// The number of lines that start with a tab (and are not blank) and the
/// number that start with a space (and are not blank), as counted by
/// [`detect_style`], are the sizes of those subsequences of the lines.
pub proof fn lemma_line_counts_are_filters(lines: Seq<Seq<char>>)
    ensures
        count_tab_lines(lines) == lines.filter(
            |l: Seq<char>|
                (exists|j: int| 0 <= j < l.len() && l[j] != ' ' && l[j] != '\t') && l[0] == '\t',
        ).len(),
        count_space_lines(lines) == lines.filter(
            |l: Seq<char>|
                (exists|j: int| 0 <= j < l.len() && l[j] != ' ' && l[j] != '\t') && l[0] == ' ',
        ).len(),
    decreases lines.len(),
{
    reveal(Seq::filter);
    let pt = |l: Seq<char>|
        (exists|j: int| 0 <= j < l.len() && l[j] != ' ' && l[j] != '\t') && l[0] == '\t';
    let ps = |l: Seq<char>|
        (exists|j: int| 0 <= j < l.len() && l[j] != ' ' && l[j] != '\t') && l[0] == ' ';
    if lines.len() > 0 {
        lemma_line_counts_are_filters(lines.drop_last());
        let l = lines.last();
        assert(pt(l) == is_tab_indented(l));
        assert(ps(l) == is_space_indented(l));
    }
}

/// With no non-blank line starting with a space or a tab, both line counts
/// are 0.
proof fn lemma_no_indented_lines_counts(lines: Seq<Seq<char>>)
    requires
        forall|i: int|
            0 <= i < lines.len() ==> is_blank_line(#[trigger] lines[i]) || (lines[i][0] != ' '
                && lines[i][0] != '\t'),
    ensures
        count_tab_lines(lines) == 0,
        count_space_lines(lines) == 0,
    decreases lines.len(),
{
    if lines.len() > 0 {
        let init = lines.drop_last();
        assert forall|i: int| 0 <= i < init.len() implies is_blank_line(#[trigger] init[i]) || (
        init[i][0] != ' ' && init[i][0] != '\t') by {
            assert(init[i] == lines[i]);
        }
        lemma_no_indented_lines_counts(init);
        assert(lines[lines.len() - 1] == lines.last());
    }
}

/// Counts are positive exactly when some line is of the counted kind.
pub proof fn lemma_counts_positive(lines: Seq<Seq<char>>)
    ensures
        count_tab_lines(lines) > 0 <==> exists|i: int|
            0 <= i < lines.len() && is_tab_indented(#[trigger] lines[i]),
        count_space_lines(lines) > 0 <==> exists|i: int|
            0 <= i < lines.len() && is_space_indented(#[trigger] lines[i]),
    decreases lines.len(),
{
    if lines.len() > 0 {
        let init = lines.drop_last();
        lemma_counts_positive(init);
        assert(lines[lines.len() - 1] == lines.last());
        if exists|i: int| 0 <= i < init.len() && is_tab_indented(#[trigger] init[i]) {
            let i = choose|i: int| 0 <= i < init.len() && is_tab_indented(#[trigger] init[i]);
            assert(lines[i] == init[i]);
        }
        if exists|i: int| 0 <= i < init.len() && is_space_indented(#[trigger] init[i]) {
            let i = choose|i: int| 0 <= i < init.len() && is_space_indented(#[trigger] init[i]);
            assert(lines[i] == init[i]);
        }
        if exists|i: int| 0 <= i < lines.len() && is_tab_indented(#[trigger] lines[i]) {
            let i = choose|i: int| 0 <= i < lines.len() && is_tab_indented(#[trigger] lines[i]);
            if i < lines.len() - 1 {
                assert(lines[i] == init[i]);
            }
        }
        if exists|i: int| 0 <= i < lines.len() && is_space_indented(#[trigger] lines[i]) {
            let i = choose|i: int| 0 <= i < lines.len() && is_space_indented(#[trigger] lines[i]);
            if i < lines.len() - 1 {
                assert(lines[i] == init[i]);
            }
        }
    }
}

/// Style detection in the plain cases:
/// - when no non-blank line starts with a space or a tab, the result is
///   spaces of the fallback width;
/// - when some non-blank line starts with a tab and none with a space, the
///   result is hard tabs;
/// - when there are at least as many tab-started lines as space-started
///   ones (and some), hard tabs; when fewer, spaces of a width in `[2, 8]`.
pub proof fn lemma_detected_style_cases(lines: Seq<Seq<char>>, fallback_width: usize)
    ensures
        (forall|i: int|
            0 <= i < lines.len() ==> (forall|j: int|
                0 <= j < lines[i].len() ==> (#[trigger] lines[i][j] == ' ' || lines[i][j] == '\t'))
                || (lines[i][0] != ' ' && lines[i][0] != '\t')) ==> detected_style(
            lines,
            fallback_width,
        ) == IndentStyle::Spaces(fallback_width),
        ((exists|i: int|
            0 <= i < lines.len() && (exists|j: int|
                0 <= j < lines[i].len() && #[trigger] lines[i][j] != ' ' && lines[i][j] != '\t')
                && lines[i][0] == '\t') && (forall|i: int|
            0 <= i < lines.len() ==> (forall|j: int|
                0 <= j < lines[i].len() ==> (#[trigger] lines[i][j] == ' ' || lines[i][j] == '\t'))
                || lines[i][0] != ' ')) ==> detected_style(lines, fallback_width)
            == IndentStyle::Tabs,
        ({
            let nt = lines.filter(
                |l: Seq<char>|
                    (exists|j: int| 0 <= j < l.len() && l[j] != ' ' && l[j] != '\t') && l[0]
                        == '\t',
            ).len();
            let ns = lines.filter(
                |l: Seq<char>|
                    (exists|j: int| 0 <= j < l.len() && l[j] != ' ' && l[j] != '\t') && l[0]
                        == ' ',
            ).len();
            &&& (nt > 0 && nt >= ns) ==> detected_style(lines, fallback_width) == IndentStyle::Tabs
            &&& nt < ns ==> (detected_style(lines, fallback_width) matches IndentStyle::Spaces(w)
                && 2 <= w <= 8)
        }),
{
    lemma_line_counts_are_filters(lines);
    lemma_counts_positive(lines);
    if forall|i: int|
        0 <= i < lines.len() ==> (forall|j: int|
            0 <= j < lines[i].len() ==> (#[trigger] lines[i][j] == ' ' || lines[i][j] == '\t')) || (
        lines[i][0] != ' ' && lines[i][0] != '\t') {
        assert forall|i: int|
            0 <= i < lines.len() implies is_blank_line(#[trigger] lines[i]) || (lines[i][0] != ' '
            && lines[i][0] != '\t') by {
            if !(lines[i][0] != ' ' && lines[i][0] != '\t') {
                assert forall|j: int| 0 <= j < lines[i].len() implies is_indent_char(
                    #[trigger] lines[i][j],
                ) by {}
            }
        }
        lemma_no_indented_lines_counts(lines);
    }
    if (exists|i: int|
        0 <= i < lines.len() && (exists|j: int|
            0 <= j < lines[i].len() && #[trigger] lines[i][j] != ' ' && lines[i][j] != '\t')
            && lines[i][0] == '\t') && (forall|i: int|
        0 <= i < lines.len() ==> (forall|j: int|
            0 <= j < lines[i].len() ==> (#[trigger] lines[i][j] == ' ' || lines[i][j] == '\t'))
            || lines[i][0] != ' ') {
        let i = choose|i: int|
            0 <= i < lines.len() && (exists|j: int|
                0 <= j < lines[i].len() && #[trigger] lines[i][j] != ' ' && lines[i][j] != '\t')
                && lines[i][0] == '\t';
        let j = choose|j: int|
            0 <= j < lines[i].len() && #[trigger] lines[i][j] != ' ' && lines[i][j] != '\t';
        assert(!is_indent_char(lines[i][j]));
        assert(is_tab_indented(lines[i]));
        if count_space_lines(lines) > 0 {
            let k = choose|k: int| 0 <= k < lines.len() && is_space_indented(#[trigger] lines[k]);
            assert(!is_blank_line(lines[k]));
            let m = choose|m: int| 0 <= m < lines[k].len() && !is_indent_char(#[trigger] lines[k][m]);
            assert(lines[k][m] != ' ' && lines[k][m] != '\t');
            assert(false);
        }
    }
}

/// When no non-blank line starts with a tab, every non-blank line that
/// starts with a space has a leading-space run (its first `k` characters
/// spaces, the next one not) whose length is a multiple of `w` in `[2, 8]`,
/// and one such run is exactly `w` long, the detected style is spaces of
/// width `w`.
pub proof fn lemma_detects_common_space_width(
    lines: Seq<Seq<char>>,
    fallback_width: usize,
    w: nat,
    first: int,
)
    requires
        2 <= w <= 8,
        forall|i: int|
            0 <= i < lines.len() ==> (forall|j: int|
                0 <= j < lines[i].len() ==> (#[trigger] lines[i][j] == ' ' || lines[i][j] == '\t'))
                || lines[i][0] != '\t',
        forall|i: int, k: int|
            #![trigger lines[i][k]]
            0 <= i < lines.len() && 0 <= k < lines[i].len() && lines[i][0] == ' ' && (forall|j: int|
                0 <= j < k ==> #[trigger] lines[i][j] == ' ') && lines[i][k] != ' ' ==> k % (
            w as int) == 0,
        0 <= first < lines.len(),
        w < lines[first].len(),
        forall|j: int| 0 <= j < w ==> #[trigger] lines[first][j] == ' ',
        lines[first][w as int] != ' ',
        lines[first][w as int] != '\t',
    ensures
        detected_style(lines, fallback_width) == IndentStyle::Spaces(w as usize),
{
    lemma_counts_positive(lines);
    lemma_space_gcd_divides_space_lines(lines);
    let l0 = lines[first];
    assert(!is_indent_char(l0[w as int]));
    assert(is_space_indented(l0));
    lemma_leading_space_run_counts(l0, w as int);
    // no line is tab-indented
    if count_tab_lines(lines) > 0 {
        let k = choose|k: int| 0 <= k < lines.len() && is_tab_indented(#[trigger] lines[k]);
        let m = choose|m: int| 0 <= m < lines[k].len() && !is_indent_char(#[trigger] lines[k][m]);
        assert(lines[k][m] != ' ' && lines[k][m] != '\t');
        assert(false);
    }
    let g = space_gcd(lines);
    // w divides every space line's leading-space count
    assert forall|i: int|
        0 <= i < lines.len() && is_space_indented(#[trigger] lines[i]) implies leading_spaces(
        lines[i],
    ) % w == 0 by {
        let li = lines[i];
        let k = leading_spaces(li) as int;
        lemma_leading_spaces_run(li);
        let m = choose|m: int| 0 <= m < li.len() && !is_indent_char(#[trigger] li[m]);
        assert(k < li.len()) by {
            if k >= li.len() {
                assert(li[m] == ' ');
            }
        }
        assert(lines[i][k] != ' ');
    }
    assert(g % w == 0);
    assert(w % g == 0);
    assert(g > 0);
    lemma_mutual_divisors_equal(g, w);
}

/// The first `leading_spaces(s)` characters are spaces and the next one,
/// if any, is not.
proof fn lemma_leading_spaces_run(s: Seq<char>)
    ensures
        leading_spaces(s) <= s.len(),
        forall|j: int| 0 <= j < leading_spaces(s) ==> #[trigger] s[j] == ' ',
        leading_spaces(s) < s.len() ==> s[leading_spaces(s) as int] != ' ',
    decreases s.len(),
{
    if s.len() > 0 && s[0] == ' ' {
        let t = s.drop_first();
        lemma_leading_spaces_run(t);
        assert forall|j: int| 0 <= j < leading_spaces(s) implies #[trigger] s[j] == ' ' by {
            if j > 0 {
                assert(s[j] == t[j - 1]);
            }
        }
        if leading_spaces(s) < s.len() {
            assert(s[leading_spaces(s) as int] == t[leading_spaces(t) as int]);
        }
    }
}

/// Leading columns: when the first `k` characters of a line are spaces and
/// tabs and the next one (if any) is neither, its leading columns are its
/// spaces counted once and its tabs counted `tab_width` times each.
pub proof fn lemma_leading_columns_count(s: Seq<char>, tab_width: nat, k: int)
    requires
        0 <= k <= s.len(),
        forall|i: int| 0 <= i < k ==> s[i] == ' ' || s[i] == '\t',
        k < s.len() ==> s[k] != ' ' && s[k] != '\t',
    ensures
        ({
            let tabs = s.take(k).filter(|c: char| c == '\t').len();
            leading_columns(s, tab_width) == (k - tabs) + tabs * tab_width
        }),
    decreases k,
{
    let p = |c: char| c == '\t';
    if k > 0 {
        let t = s.drop_first();
        assert forall|i: int| 0 <= i < k - 1 implies t[i] == ' ' || t[i] == '\t' by {
            assert(t[i] == s[i + 1]);
        }
        if k - 1 < t.len() {
            assert(t[k - 1] == s[k]);
        }
        lemma_leading_columns_count(t, tab_width, k - 1);
        assert(s.take(k) == seq![s[0]] + t.take(k - 1));
        Seq::filter_distributes_over_add(seq![s[0]], t.take(k - 1), p);
        reveal_with_fuel(Seq::filter, 2);
        assert(seq![s[0]].drop_last() == Seq::<char>::empty());
        let rest_tabs = t.take(k - 1).filter(p).len();
        assert(s.take(k).filter(p) == seq![s[0]].filter(p) + t.take(k - 1).filter(p));
        assert(s.take(k).filter(p).len() == seq![s[0]].filter(p).len() + rest_tabs);
        if s[0] == '\t' {
            assert(seq![s[0]].filter(p).len() == 1);
            assert(leading_columns(s, tab_width) == tab_width + leading_columns(t, tab_width));
            assert(leading_columns(t, tab_width) == (k - 1 - rest_tabs) + rest_tabs * tab_width);
            assert((k - (rest_tabs + 1)) + (rest_tabs + 1) * tab_width == tab_width + ((k - 1
                - rest_tabs) + rest_tabs * tab_width)) by (nonlinear_arith);
        } else {
            assert(s[0] == ' ');
            assert(seq![s[0]].filter(p).len() == 0);
            assert(leading_columns(s, tab_width) == 1 + leading_columns(t, tab_width));
        }
    } else {
        reveal(Seq::filter);
        assert(s.take(0).len() == 0);
        assert(s.take(0).filter(p).len() == 0);
        assert(leading_columns(s, tab_width) == 0);
        if s.len() > 0 {
            assert(s[0] != ' ' && s[0] != '\t');
        }
    }
}

} // verus!
