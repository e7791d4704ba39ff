//! The slanted "NeMo Relay" banner: when a terminal can show it, and the
//! bordered, optionally colored frame with a version tag docked at the
//! bottom-right.

use vstd::prelude::*;
use vstd::string::StringExecFns;
use crate::decimal::{parse_usize, parsed_usize};
use crate::text::{push_char, str_is};

verus! {

/// Figlet rows of the banner art.
pub const FIGLET_ROWS: usize = 6;
/// Row index of the blank rail below the art, where the tag docks.
pub const BOTTOM_RAIL: usize = 7;
/// Rows of the grid: a blank rail, the art, a blank rail.
pub const TOTAL_ROWS: usize = 8;
/// Column where the docked version tag starts.
pub const COL_END: usize = 92;
/// Narrowest terminal that shows the banner.
pub const MIN_WIDTH: usize = 105;
/// Terminal width assumed when `COLUMNS` is unset or unreadable.
pub const DEFAULT_TERMINAL_WIDTH: usize = 120;

pub const NVIDIA_GREEN: &'static str = "\x1b[38;5;112m";
pub const DOCK_TAG: &'static str = "\x1b[2;38;5;112m";
pub const RESET: &'static str = "\x1b[0m";

pub const BORDER_TL: char = '╭';
pub const BORDER_TR: char = '╮';
pub const BORDER_BL: char = '╰';
pub const BORDER_BR: char = '╯';
pub const BORDER_H: char = '─';
pub const BORDER_V: char = '│';

pub open spec fn opt_text(o: Option<&str>) -> Option<Seq<char>> {
    match o {
        Some(s) => Some(s@),
        None => None,
    }
}

/// The banner shows only on a color-capable terminal at least
/// `MIN_WIDTH` columns wide, outside CI.
pub open spec fn supports_banner_spec(
    stdout_is_terminal: bool,
    no_color: bool,
    ci: Option<Seq<char>>,
    term: Option<Seq<char>>,
    width: Option<usize>,
) -> bool {
    stdout_is_terminal && !no_color && ci != Some("true"@) && ci != Some("1"@) && term != Some("dumb"@)
        && (width matches Some(w) && w >= MIN_WIDTH)
}

/// The banner is shown only on a terminal, without `NO_COLOR`, outside CI
/// (`CI` set to `true` or `1`), on a terminal that is not `dumb`, and only
/// when the width is known and at least 105 columns; when all of these
/// hold it is shown.
pub proof fn lemma_banner_conditions(
    stdout_is_terminal: bool,
    no_color: bool,
    ci: Option<Seq<char>>,
    term: Option<Seq<char>>,
    width: Option<usize>,
)
    ensures
        supports_banner_spec(stdout_is_terminal, no_color, ci, term, width) <==> {
            &&& stdout_is_terminal && !no_color
            &&& ci != Some("true"@) && ci != Some("1"@)
            &&& term != Some("dumb"@)
            &&& width is Some && width->0 >= 105
        },
{
}

pub fn supports_banner_for(
    stdout_is_terminal: bool,
    no_color: bool,
    ci: Option<&str>,
    term: Option<&str>,
    width: Option<usize>,
) -> (supported: bool)
    ensures
        supported == supports_banner_spec(stdout_is_terminal, no_color, opt_text(ci), opt_text(term), width),
{
    if !stdout_is_terminal {
        return false;
    }
    if no_color {
        return false;
    }
    if let Some(c) = ci {
        if str_is(c, "true") || str_is(c, "1") {
            return false;
        }
    }
    if let Some(t) = term {
        if str_is(t, "dumb") {
            return false;
        }
    }
    match width {
        Some(w) => w >= MIN_WIDTH,
        None => false,
    }
}

/// The terminal width: none off a terminal; else `COLUMNS` when it parses,
/// otherwise the default.
pub fn terminal_width_for(stdout_is_terminal: bool, columns: Option<&str>) -> (width: Option<usize>)
    ensures
        !stdout_is_terminal ==> width is None,
        stdout_is_terminal ==> width == Some(match columns {
            Some(c) => match parsed_usize(c@) {
                Some(n) => n,
                None => DEFAULT_TERMINAL_WIDTH,
            },
            None => DEFAULT_TERMINAL_WIDTH,
        }),
{
    if !stdout_is_terminal {
        return None;
    }
    match columns {
        Some(c) => match parse_usize(c) {
            Some(n) => Some(n),
            None => Some(DEFAULT_TERMINAL_WIDTH),
        },
        None => Some(DEFAULT_TERMINAL_WIDTH),
    }
}

// ---------------------------------------------------------------------
// The art.

pub open spec fn banner_line_spec(i: int) -> Seq<char> {
    if i == 0 {
        "███╗   ██╗███████╗███╗   ███╗ ██████╗     ██████╗ ███████╗██╗      █████╗ ██╗   ██╗"@
    } else if i == 1 {
        "████╗  ██║██╔════╝████╗ ████║██╔═══██╗    ██╔══██╗██╔════╝██║     ██╔══██╗╚██╗ ██╔╝"@
    } else if i == 2 {
        "██╔██╗ ██║█████╗  ██╔████╔██║██║   ██║    ██████╔╝█████╗  ██║     ███████║ ╚████╔╝"@
    } else if i == 3 {
        "██║╚██╗██║██╔══╝  ██║╚██╔╝██║██║   ██║    ██╔══██╗██╔══╝  ██║     ██╔══██║  ╚██╔╝"@
    } else if i == 4 {
        "██║ ╚████║███████╗██║ ╚═╝ ██║╚██████╔╝    ██║  ██║███████╗███████╗██║  ██║   ██║"@
    } else {
        "╚═╝  ╚═══╝╚══════╝╚═╝     ╚═╝ ╚═════╝     ╚═╝  ╚═╝╚══════╝╚══════╝╚═╝  ╚═╝   ╚═╝"@
    }
}

/// One figlet row of the art.
pub fn banner_line(i: usize) -> (line: &'static str)
    requires
        i < FIGLET_ROWS,
    ensures
        line@ == banner_line_spec(i as int),
{
    if i == 0 {
        "███╗   ██╗███████╗███╗   ███╗ ██████╗     ██████╗ ███████╗██╗      █████╗ ██╗   ██╗"
    } else if i == 1 {
        "████╗  ██║██╔════╝████╗ ████║██╔═══██╗    ██╔══██╗██╔════╝██║     ██╔══██╗╚██╗ ██╔╝"
    } else if i == 2 {
        "██╔██╗ ██║█████╗  ██╔████╔██║██║   ██║    ██████╔╝█████╗  ██║     ███████║ ╚████╔╝"
    } else if i == 3 {
        "██║╚██╗██║██╔══╝  ██║╚██╔╝██║██║   ██║    ██╔══██╗██╔══╝  ██║     ██╔══██║  ╚██╔╝"
    } else if i == 4 {
        "██║ ╚████║███████╗██║ ╚═╝ ██║╚██████╔╝    ██║  ██║███████╗███████╗██║  ██║   ██║"
    } else {
        "╚═╝  ╚═══╝╚══════╝╚═╝     ╚═╝ ╚═════╝     ╚═╝  ╚═╝╚══════╝╚══════╝╚═╝  ╚═╝   ╚═╝"
    }
}

/// The widest of the first `n` art rows.
pub open spec fn art_width_upto(n: int) -> nat
    decreases n,
{
    if n <= 0 {
        0
    } else {
        let rest = art_width_upto(n - 1);
        if banner_line_spec(n - 1).len() > rest { banner_line_spec(n - 1).len() } else { rest }
    }
}

/// The width of the art: its widest row.
pub open spec fn art_width() -> nat {
    art_width_upto(FIGLET_ROWS as int)
}

pub fn banner_art_width() -> (w: usize)
    ensures
        w == art_width(),
{
    let mut w: usize = 0;
    let mut i: usize = 0;
    while i < FIGLET_ROWS
        invariant
            i <= FIGLET_ROWS,
            w == art_width_upto(i as int),
        decreases FIGLET_ROWS - i,
    {
        let n = banner_line(i).unicode_len();
        if n > w {
            w = n;
        }
        i = i + 1;
    }
    w
}

/// The frame's inner width: wide enough for the art and for the tag docked
/// at `COL_END` with two columns to spare.
pub open spec fn frame_width_spec(tag_len: nat) -> nat {
    let dock = (COL_END + tag_len + 2) as nat;
    if art_width() > dock { art_width() } else { dock }
}

pub fn frame_width(dock_tag: &str) -> (w: usize)
    requires
        dock_tag@.len() + COL_END + 2 <= usize::MAX,
    ensures
        w == frame_width_spec(dock_tag@.len()),
{
    let dock = COL_END + dock_tag.unicode_len() + 2;
    let art = banner_art_width();
    if art > dock { art } else { dock }
}

/// A row of `width` cells holding `line` from column `start`, blank
/// elsewhere (art past the last column is cut).
pub open spec fn padded_row_spec(line: Seq<char>, width: nat, start: nat) -> Seq<char> {
    Seq::new(width, |j: int| if start <= j < start + line.len() { line[j - start] } else { ' ' })
}

pub fn blank_row(width: usize) -> (row: Vec<char>)
    ensures
        row@ == Seq::new(width as nat, |j: int| ' '),
{
    let mut row: Vec<char> = Vec::new();
    let mut i: usize = 0;
    while i < width
        invariant
            i <= width,
            row@ == Seq::new(i as nat, |j: int| ' '),
        decreases width - i,
    {
        row.push(' ');
        assert(row@ =~= Seq::new((i + 1) as nat, |j: int| ' '));
        i = i + 1;
    }
    row
}

pub fn padded_row(line: &str, width: usize, start_col: usize) -> (row: Vec<char>)
    ensures
        row@ == padded_row_spec(line@, width as nat, start_col as nat),
{
    let chars = crate::text::to_chars(line);
    let mut row: Vec<char> = Vec::new();
    let mut j: usize = 0;
    while j < width
        invariant
            j <= width,
            chars@ == line@,
            row@ == padded_row_spec(line@, width as nat, start_col as nat).take(j as int),
        decreases width - j,
    {
        let c = if j >= start_col && j - start_col < chars.len() { chars[j - start_col] } else { ' ' };
        row.push(c);
        assert(row@ =~= padded_row_spec(line@, width as nat, start_col as nat).take(j + 1));
        j = j + 1;
    }
    assert(padded_row_spec(line@, width as nat, start_col as nat).take(width as int)
        =~= padded_row_spec(line@, width as nat, start_col as nat));
    row
}

/// Where the art starts: centred in the frame.
pub open spec fn art_start(width: nat) -> nat {
    if width >= art_width() { ((width - art_width()) / 2) as nat } else { 0 }
}

/// The banner grid: a blank rail, the art rows, a blank rail. The first
/// art row starts where centred art would; each later row starts one column
/// right of the row above, for an italic lean.
pub open spec fn grid_spec(width: nat) -> Seq<Seq<char>> {
    Seq::new(TOTAL_ROWS as nat, |r: int|
        if r == 0 || r == BOTTOM_RAIL { Seq::new(width, |j: int| ' ') }
        else { padded_row_spec(banner_line_spec(r - 1), width, (art_start(width) + (r - 1)) as nat) })
}

pub open spec fn rows_view(grid: Seq<Vec<char>>) -> Seq<Seq<char>> {
    grid.map_values(|r: Vec<char>| r@)
}

pub fn build_grid(width: usize) -> (grid: Vec<Vec<char>>)
    ensures
        rows_view(grid@) == grid_spec(width as nat),
{
    let art = banner_art_width();
    let start_col = width.saturating_sub(art) / 2;
    let mut grid: Vec<Vec<char>> = Vec::new();
    grid.push(blank_row(width));
    let mut i: usize = 0;
    while i < FIGLET_ROWS
        invariant
            i <= FIGLET_ROWS,
            art == art_width(),
            start_col == art_start(width as nat),
            grid@.len() == i + 1,
            forall|r: int| 0 <= r <= i ==> #[trigger] grid@[r]@ == grid_spec(width as nat)[r],
        decreases FIGLET_ROWS - i,
    {
        grid.push(padded_row(banner_line(i), width, start_col + i));
        i = i + 1;
    }
    grid.push(blank_row(width));
    assert(rows_view(grid@) =~= grid_spec(width as nat));
    grid
}

/// Where the docked tag sits.
#[derive(Clone, Copy, Debug, PartialEq, Eq, Structural)]
pub struct DockTagSpan {
    pub row: usize,
    pub start: usize,
    pub end: usize,
}

/// The grid with `tag` written into the bottom rail from `COL_END`.
pub open spec fn docked_grid(grid: Seq<Seq<char>>, tag: Seq<char>) -> Seq<Seq<char>> {
    grid.update(BOTTOM_RAIL as int, Seq::new(grid[BOTTOM_RAIL as int].len(), |j: int|
        if COL_END <= j < COL_END + tag.len() { tag[j - COL_END] } else { grid[BOTTOM_RAIL as int][j] }))
}

/// Writes `dock_tag` into the bottom rail and returns where it sits.
pub fn overlay_dock_tag(grid: &mut Vec<Vec<char>>, dock_tag: &str) -> (span: DockTagSpan)
    requires
        old(grid)@.len() == TOTAL_ROWS,
        COL_END + dock_tag@.len() <= old(grid)@[BOTTOM_RAIL as int]@.len(),
        old(grid)@[BOTTOM_RAIL as int]@.len() <= usize::MAX,
    ensures
        rows_view(final(grid)@) == docked_grid(rows_view(old(grid)@), dock_tag@),
        span == (DockTagSpan { row: BOTTOM_RAIL, start: COL_END, end: (COL_END + dock_tag@.len()) as usize }),
{
    let tag = crate::text::to_chars(dock_tag);
    let ghost before = rows_view(grid@);
    let mut row = grid.remove(BOTTOM_RAIL);
    let ghost initial_row = row@;
    let mut k: usize = 0;
    while k < tag.len()
        invariant
            k <= tag@.len(),
            tag@ == dock_tag@,
            COL_END + tag@.len() <= initial_row.len(),
            initial_row.len() <= usize::MAX,
            row@.len() == initial_row.len(),
            forall|j: int| 0 <= j < initial_row.len() ==> #[trigger] row@[j] == if COL_END <= j < COL_END + k { tag@[j - COL_END] } else { initial_row[j] },
        decreases tag.len() - k,
    {
        assert(COL_END + k < initial_row.len());
        row.set(COL_END + k, tag[k]);
        k = k + 1;
    }
    grid.insert(BOTTOM_RAIL, row);
    assert(rows_view(grid@) =~= docked_grid(before, dock_tag@)) by {
        assert forall|r: int| 0 <= r < TOTAL_ROWS implies #[trigger] rows_view(grid@)[r] == docked_grid(before, dock_tag@)[r] by {
            if r == BOTTOM_RAIL {
                assert(rows_view(grid@)[r] =~= docked_grid(before, dock_tag@)[r]);
            }
        }
    }
    DockTagSpan { row: BOTTOM_RAIL, start: COL_END, end: COL_END + tag.len() }
}

// ---------------------------------------------------------------------
// Painting.

/// How one cell is painted.
#[derive(Clone, Copy, Debug, PartialEq, Eq, Structural)]
pub enum CellStyle {
    DockTag,
    Figlet,
    Plain,
}

/// The art's block and box-drawing glyphs.
pub open spec fn figlet_glyph(c: char) -> bool {
    c == '█' || c == '╗' || c == '╔' || c == '╝' || c == '╚' || c == '═' || c == '║'
}

pub fn is_figlet_glyph(c: char) -> (g: bool)
    ensures
        g == figlet_glyph(c),
{
    c == '█' || c == '╗' || c == '╔' || c == '╝' || c == '╚' || c == '═' || c == '║'
}

/// A cell's style: a non-blank cell of the docked tag, an art glyph, or
/// plain.
pub open spec fn cell_style_spec(c: char, row: usize, col: usize, span: Option<DockTagSpan>) -> CellStyle {
    if (span matches Some(s) && row == s.row && col >= s.start && col < s.end && c != ' ') {
        CellStyle::DockTag
    } else if figlet_glyph(c) {
        CellStyle::Figlet
    } else {
        CellStyle::Plain
    }
}

pub fn cell_style(c: char, row: usize, col: usize, span: Option<DockTagSpan>) -> (style: CellStyle)
    ensures
        style == cell_style_spec(c, row, col, span),
{
    let in_tag = match span {
        Some(s) => row == s.row && col >= s.start && col < s.end && c != ' ',
        None => false,
    };
    if in_tag {
        CellStyle::DockTag
    } else if is_figlet_glyph(c) {
        CellStyle::Figlet
    } else {
        CellStyle::Plain
    }
}

/// A character in an optional style: wrapped in the style's escape and a
/// reset when colored, bare otherwise.
pub open spec fn styled(c: char, style: Option<Seq<char>>, color: bool) -> Seq<char> {
    if color && style is Some { style->0 + seq![c] + RESET@ } else { seq![c] }
}

pub open spec fn cell_text(c: char, style: CellStyle, color: bool) -> Seq<char> {
    match style {
        CellStyle::DockTag => styled(c, Some(DOCK_TAG@), color),
        CellStyle::Figlet => styled(c, Some(NVIDIA_GREEN@), color),
        CellStyle::Plain => seq![c],
    }
}

pub fn push_styled_char(out: &mut String, c: char, style: Option<&str>, color: bool)
    ensures
        final(out)@ == old(out)@ + styled(c, opt_text(style), color),
{
    match style {
        Some(s) if color => {
            out.append(s);
            push_char(out, c);
            out.append(RESET);
        },
        _ => push_char(out, c),
    }
}

pub fn push_cell(out: &mut String, c: char, style: CellStyle, color: bool)
    ensures
        final(out)@ == old(out)@ + cell_text(c, style, color),
{
    match style {
        CellStyle::DockTag => push_styled_char(out, c, Some(DOCK_TAG), color),
        CellStyle::Figlet => push_styled_char(out, c, Some(NVIDIA_GREEN), color),
        CellStyle::Plain => push_char(out, c),
    }
}

pub open spec fn vertical_border(color: bool) -> Seq<char> {
    styled(BORDER_V, Some(NVIDIA_GREEN@), color)
}

pub fn push_vertical_border(out: &mut String, color: bool)
    ensures
        final(out)@ == old(out)@ + vertical_border(color),
{
    push_styled_char(out, BORDER_V, Some(NVIDIA_GREEN), color);
}

/// The painted cells of the first `n` columns of a row.
pub open spec fn cells_text(row_idx: usize, row: Seq<char>, span: Option<DockTagSpan>, color: bool, n: int) -> Seq<char>
    decreases n,
{
    if n <= 0 {
        Seq::empty()
    } else {
        cells_text(row_idx, row, span, color, n - 1)
            + cell_text(row[n - 1], cell_style_spec(row[n - 1], row_idx, (n - 1) as usize, span), color)
    }
}

/// A painted grid row between vertical borders.
pub open spec fn row_text(row_idx: usize, row: Seq<char>, span: Option<DockTagSpan>, color: bool) -> Seq<char> {
    vertical_border(color) + cells_text(row_idx, row, span, color, row.len() as int) + vertical_border(color)
}

pub fn push_grid_row(out: &mut String, row_idx: usize, row: &Vec<char>, span: Option<DockTagSpan>, color: bool)
    ensures
        final(out)@ == old(out)@ + row_text(row_idx, row@, span, color),
{
    push_vertical_border(out, color);
    let ghost start = out@;
    let mut col: usize = 0;
    while col < row.len()
        invariant
            col <= row@.len(),
            out@ == start + cells_text(row_idx, row@, span, color, col as int),
        decreases row.len() - col,
    {
        let c = row[col];
        push_cell(out, c, cell_style(c, row_idx, col, span), color);
        col = col + 1;
    }
    push_vertical_border(out, color);
    assert(out@ =~= old(out)@ + row_text(row_idx, row@, span, color));
}

/// `n` horizontal border glyphs.
pub open spec fn horizontal(n: nat) -> Seq<char> {
    Seq::new(n, |i: int| BORDER_H)
}

/// A border line between corner glyphs, green when colored.
pub open spec fn border_line(left: char, right: char, inner_width: nat, color: bool) -> Seq<char> {
    if color {
        NVIDIA_GREEN@ + seq![left] + horizontal(inner_width) + seq![right] + RESET@ + seq!['\n']
    } else {
        seq![left] + horizontal(inner_width) + seq![right] + seq!['\n']
    }
}

pub fn push_border_line(out: &mut String, left: char, right: char, inner_width: usize, color: bool)
    ensures
        final(out)@ == old(out)@ + border_line(left, right, inner_width as nat, color),
{
    if color {
        out.append(NVIDIA_GREEN);
    }
    let ghost start = out@;
    push_char(out, left);
    let mut i: usize = 0;
    while i < inner_width
        invariant
            i <= inner_width,
            out@ == start + seq![left] + horizontal(i as nat),
        decreases inner_width - i,
    {
        push_char(out, BORDER_H);
        assert(horizontal((i + 1) as nat) =~= horizontal(i as nat).push(BORDER_H));
        i = i + 1;
    }
    push_char(out, right);
    if color {
        out.append(RESET);
    }
    push_char(out, '\n');
    assert(out@ =~= old(out)@ + border_line(left, right, inner_width as nat, color));
}

/// The painted rows of the first `n` grid rows, each ending a line.
pub open spec fn grid_text(grid: Seq<Seq<char>>, span: Option<DockTagSpan>, color: bool, n: int) -> Seq<char>
    decreases n,
{
    if n <= 0 {
        Seq::empty()
    } else {
        grid_text(grid, span, color, n - 1) + row_text((n - 1) as usize, grid[n - 1], span, color) + seq!['\n']
    }
}

/// The whole frame: a leading newline, the top border, the painted grid,
/// the bottom border.
pub open spec fn frame_text(grid: Seq<Seq<char>>, span: Option<DockTagSpan>, width: nat, color: bool) -> Seq<char> {
    seq!['\n'] + border_line(BORDER_TL, BORDER_TR, width, color) + grid_text(grid, span, color, grid.len() as int)
        + border_line(BORDER_BL, BORDER_BR, width, color)
}

/// The version tag: a space, `v`, and the version.
pub open spec fn dock_tag_text(version: Seq<char>) -> Seq<char> {
    " v"@ + version
}

/// The frame's grid, tag span and width for a version, docked or not.
pub open spec fn frame_layout(version: Seq<char>, docked: bool) -> (Seq<Seq<char>>, Option<DockTagSpan>, nat) {
    let tag = dock_tag_text(version);
    let width = frame_width_spec(tag.len());
    if docked {
        (docked_grid(grid_spec(width), tag),
         Some(DockTagSpan { row: BOTTOM_RAIL, start: COL_END, end: (COL_END + tag.len()) as usize }), width)
    } else {
        (grid_spec(width), None, width)
    }
}

/// Renders the banner frame for `version`, colored or plain, with the
/// version tag docked or not.
pub fn render_frame_inner(color: bool, docked: bool, version: &str) -> (text: String)
    requires
        version@.len() + COL_END + 4 <= usize::MAX,
    ensures
        ({
            let (grid, span, width) = frame_layout(version@, docked);
            text@ == frame_text(grid, span, width, color)
        }),
{
    let mut out = String::new();
    push_char(&mut out, '\n');
    let mut tag = " v".to_owned();
    tag.append(version);
    proof { reveal_strlit(" v"); }
    let max_width = frame_width(tag.as_str());
    let mut grid = build_grid(max_width);
    proof {
        assert(grid@.len() == rows_view(grid@).len());
        assert(rows_view(grid@)[BOTTOM_RAIL as int] == grid@[BOTTOM_RAIL as int]@);
        assert(grid_spec(max_width as nat)[BOTTOM_RAIL as int].len() == max_width);
    }
    let span = if docked {
        Some(overlay_dock_tag(&mut grid, tag.as_str()))
    } else {
        None
    };
    let ghost layout = frame_layout(version@, docked);
    assert(rows_view(grid@) == layout.0);
    push_border_line(&mut out, BORDER_TL, BORDER_TR, max_width, color);
    let ghost head = out@;
    let mut r: usize = 0;
    while r < grid.len()
        invariant
            r <= grid@.len(),
            grid@.len() == TOTAL_ROWS,
            rows_view(grid@) == layout.0,
            out@ == head + grid_text(layout.0, span, color, r as int),
        decreases grid.len() - r,
    {
        push_grid_row(&mut out, r, &grid[r], span, color);
        push_char(&mut out, '\n');
        assert(grid@[r as int]@ == layout.0[r as int]);
        r = r + 1;
    }
    push_border_line(&mut out, BORDER_BL, BORDER_BR, max_width, color);
    assert(out@ =~= frame_text(layout.0, layout.1, layout.2, color));
    out
}

/// The settled frame with the version tag docked.
pub fn render_docked_frame(color: bool, version: &str) -> (text: String)
    requires
        version@.len() + COL_END + 4 <= usize::MAX,
    ensures
        ({
            let (grid, span, width) = frame_layout(version@, true);
            text@ == frame_text(grid, span, width, color)
        }),
{
    render_frame_inner(color, true, version)
}

/// The frame without the version tag.
pub fn render_frame(color: bool, version: &str) -> (text: String)
    requires
        version@.len() + COL_END + 4 <= usize::MAX,
    ensures
        ({
            let (grid, span, width) = frame_layout(version@, false);
            text@ == frame_text(grid, span, width, color)
        }),
{
    render_frame_inner(color, false, version)
}

/// The header printed when the banner cannot show.
pub open spec fn plain_header_text(version: Seq<char>) -> Seq<char> {
    "\n  NeMo Relay v"@ + version + "\n\n"@
}

pub fn plain_header(version: &str) -> (text: String)
    ensures
        text@ == plain_header_text(version@),
{
    let mut t = "\n  NeMo Relay v".to_owned();
    t.append(version);
    t.append("\n\n");
    t
}


// ---------------------------------------------------------------------
// The plain frame carries no escape sequences.

/// No escape character occurs in `s`.
pub open spec fn no_escape(s: Seq<char>) -> bool {
    forall|i: int| 0 <= i < s.len() ==> s[i] != '\x1b'
}

proof fn lemma_no_escape_concat(a: Seq<char>, b: Seq<char>)
    requires
        no_escape(a),
        no_escape(b),
    ensures
        no_escape(a + b),
{
    assert forall|i: int| 0 <= i < (a + b).len() implies (a + b)[i] != '\x1b' by {
        if i < a.len() {
            assert((a + b)[i] == a[i]);
        } else {
            assert((a + b)[i] == b[i - a.len()]);
        }
    }
}

proof fn lemma_art_has_no_escape(i: int)
    ensures
        no_escape(banner_line_spec(i)),
{
    reveal_strlit("███╗   ██╗███████╗███╗   ███╗ ██████╗     ██████╗ ███████╗██╗      █████╗ ██╗   ██╗");
    reveal_strlit("████╗  ██║██╔════╝████╗ ████║██╔═══██╗    ██╔══██╗██╔════╝██║     ██╔══██╗╚██╗ ██╔╝");
    reveal_strlit("██╔██╗ ██║█████╗  ██╔████╔██║██║   ██║    ██████╔╝█████╗  ██║     ███████║ ╚████╔╝");
    reveal_strlit("██║╚██╗██║██╔══╝  ██║╚██╔╝██║██║   ██║    ██╔══██╗██╔══╝  ██║     ██╔══██║  ╚██╔╝");
    reveal_strlit("██║ ╚████║███████╗██║ ╚═╝ ██║╚██████╔╝    ██║  ██║███████╗███████╗██║  ██║   ██║");
    reveal_strlit("╚═╝  ╚═══╝╚══════╝╚═╝     ╚═╝ ╚═════╝     ╚═╝  ╚═╝╚══════╝╚══════╝╚═╝  ╚═╝   ╚═╝");
}

proof fn lemma_plain_cells(row_idx: usize, row: Seq<char>, span: Option<DockTagSpan>, n: int)
    requires
        no_escape(row),
        n <= row.len(),
    ensures
        no_escape(cells_text(row_idx, row, span, false, n)),
    decreases n,
{
    if n > 0 {
        lemma_plain_cells(row_idx, row, span, n - 1);
        assert(no_escape(cell_text(row[n - 1], cell_style_spec(row[n - 1], row_idx, (n - 1) as usize, span), false)));
        lemma_no_escape_concat(cells_text(row_idx, row, span, false, n - 1),
            cell_text(row[n - 1], cell_style_spec(row[n - 1], row_idx, (n - 1) as usize, span), false));
    }
}

proof fn lemma_plain_grid(grid: Seq<Seq<char>>, span: Option<DockTagSpan>, n: int)
    requires
        forall|r: int| 0 <= r < grid.len() ==> no_escape(#[trigger] grid[r]),
        n <= grid.len(),
    ensures
        no_escape(grid_text(grid, span, false, n)),
    decreases n,
{
    if n > 0 {
        lemma_plain_grid(grid, span, n - 1);
        let row = grid[n - 1];
        lemma_plain_cells((n - 1) as usize, row, span, row.len() as int);
        let cells = cells_text((n - 1) as usize, row, span, false, row.len() as int);
        lemma_no_escape_concat(vertical_border(false), cells);
        lemma_no_escape_concat(vertical_border(false) + cells, vertical_border(false));
        lemma_no_escape_concat(grid_text(grid, span, false, n - 1), row_text((n - 1) as usize, row, span, false));
        lemma_no_escape_concat(grid_text(grid, span, false, n - 1) + row_text((n - 1) as usize, row, span, false), seq!['\n']);
    }
}

proof fn lemma_plain_border(left: char, right: char, width: nat)
    requires
        left != '\x1b',
        right != '\x1b',
    ensures
        no_escape(border_line(left, right, width, false)),
{
    let h = horizontal(width);
    assert(no_escape(h));
    lemma_no_escape_concat(seq![left], h);
    lemma_no_escape_concat(seq![left] + h, seq![right]);
    lemma_no_escape_concat(seq![left] + h + seq![right], seq!['\n']);
}

/// A plain (uncolored) frame holds no escape character, so no ANSI
/// sequence, for any version tag without one.
pub proof fn lemma_plain_frame_has_no_escapes(version: Seq<char>, docked: bool)
    requires
        no_escape(version),
    ensures
        ({
            let (grid, span, width) = frame_layout(version, docked);
            no_escape(frame_text(grid, span, width, false))
        }),
{
    let (grid, span, width) = frame_layout(version, docked);
    let tag = dock_tag_text(version);
    reveal_strlit(" v");
    assert(no_escape(tag)) by {
        assert forall|i: int| 0 <= i < tag.len() implies tag[i] != '\x1b' by {
            if i >= 2 {
                assert(tag[i] == version[i - 2]);
            }
        }
    }
    let base = grid_spec(width);
    assert forall|r: int| 0 <= r < base.len() implies no_escape(#[trigger] base[r]) by {
        if r != 0 && r != BOTTOM_RAIL {
            lemma_art_has_no_escape(r - 1);
        }
    }
    assert forall|r: int| 0 <= r < grid.len() implies no_escape(#[trigger] grid[r]) by {
        if docked && r == BOTTOM_RAIL {
            assert(no_escape(base[r]));
        } else {
            assert(grid[r] == base[r]);
        }
    }
    lemma_plain_grid(grid, span, grid.len() as int);
    lemma_plain_border(BORDER_TL, BORDER_TR, width);
    lemma_plain_border(BORDER_BL, BORDER_BR, width);
    let top = seq!['\n'] + border_line(BORDER_TL, BORDER_TR, width, false);
    lemma_no_escape_concat(seq!['\n'], border_line(BORDER_TL, BORDER_TR, width, false));
    lemma_no_escape_concat(top, grid_text(grid, span, false, grid.len() as int));
    lemma_no_escape_concat(top + grid_text(grid, span, false, grid.len() as int), border_line(BORDER_BL, BORDER_BR, width, false));
}

} // verus!
