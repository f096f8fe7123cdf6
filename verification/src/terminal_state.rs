//! A terminal screen driven by escape sequences: a grid of cells with a
//! cursor, a scroll region, and the lines scrolled off the top.
//!
//! The decoding of the byte stream into characters, controls and
//! sequences happens outside; the handlers here (`print`, `execute`,
//! `csi_dispatch`, `esc_dispatch`) take their decoded arguments, each
//! parameter of a control sequence as its list of sub-parameters.

use vstd::prelude::*;
use std::collections::VecDeque;

verus! {

/// An RGBA color.
#[derive(Debug, Clone, Copy, PartialEq, Eq, Structural)]
pub struct Color {
    pub r: u8,
    pub g: u8,
    pub b: u8,
    pub a: u8,
}

/// An opaque color.
pub open spec fn rgb(r: u8, g: u8, b: u8) -> Color {
    Color { r, g, b, a: 255 }
}

impl Color {
    /// An opaque color.
    pub fn from_rgb(r: u8, g: u8, b: u8) -> (c: Color)
        ensures
            c == rgb(r, g, b),
    {
        Color { r, g, b, a: 255 }
    }

    /// The fully transparent color.
    pub fn transparent() -> (c: Color)
        ensures
            c == (Color { r: 0, g: 0, b: 0, a: 0 }),
    {
        Color { r: 0, g: 0, b: 0, a: 0 }
    }
}

/// The sixteen basic colors: the eight normal ones, then their bright
/// variants (black, red, green, yellow, blue, magenta, cyan, white).
pub open spec fn ansi(i: int) -> Color {
    if i == 0 { rgb(0, 0, 0) }
    else if i == 1 { rgb(205, 49, 49) }
    else if i == 2 { rgb(13, 188, 121) }
    else if i == 3 { rgb(229, 229, 16) }
    else if i == 4 { rgb(36, 114, 200) }
    else if i == 5 { rgb(188, 63, 188) }
    else if i == 6 { rgb(17, 168, 205) }
    else if i == 7 { rgb(229, 229, 229) }
    else if i == 8 { rgb(102, 102, 102) }
    else if i == 9 { rgb(241, 76, 76) }
    else if i == 10 { rgb(35, 209, 139) }
    else if i == 11 { rgb(245, 245, 67) }
    else if i == 12 { rgb(59, 142, 234) }
    else if i == 13 { rgb(214, 112, 214) }
    else if i == 14 { rgb(41, 184, 219) }
    else { rgb(255, 255, 255) }
}

/// One of the sixteen basic colors.
pub fn ansi_color(i: usize) -> (c: Color)
    requires
        i < 16,
    ensures
        c == ansi(i as int),
{
    let (r, g, b): (u8, u8, u8) = if i == 0 { (0, 0, 0) }
        else if i == 1 { (205, 49, 49) }
        else if i == 2 { (13, 188, 121) }
        else if i == 3 { (229, 229, 16) }
        else if i == 4 { (36, 114, 200) }
        else if i == 5 { (188, 63, 188) }
        else if i == 6 { (17, 168, 205) }
        else if i == 7 { (229, 229, 229) }
        else if i == 8 { (102, 102, 102) }
        else if i == 9 { (241, 76, 76) }
        else if i == 10 { (35, 209, 139) }
        else if i == 11 { (245, 245, 67) }
        else if i == 12 { (59, 142, 234) }
        else if i == 13 { (214, 112, 214) }
        else if i == 14 { (41, 184, 219) }
        else { (255, 255, 255) };
    Color::from_rgb(r, g, b)
}

/// The intensity of a step (0 to 5) of the color cube.
pub open spec fn cube_level(step: int) -> int {
    if step > 0 { step * 40 + 55 } else { 0 }
}

/// The color with index `idx` of the 256-color palette: the basic colors,
/// a 6x6x6 cube, then 24 shades of gray (whose intensity is kept to its
/// low byte for indices past the palette).
pub open spec fn color_256(idx: int) -> Color {
    if idx < 16 {
        ansi(idx)
    } else if idx < 232 {
        let i = idx - 16;
        rgb(cube_level((i / 36) % 6) as u8, cube_level((i / 6) % 6) as u8, cube_level(i % 6) as u8)
    } else {
        let gray = (((idx - 232) * 10 + 8) % 256) as u8;
        rgb(gray, gray, gray)
    }
}

/// The intensity of a step of the color cube.
fn cube_value(step: usize) -> (v: u8)
    requires
        step < 6,
    ensures
        v as int == cube_level(step as int),
{
    if step > 0 { (step * 40 + 55) as u8 } else { 0 }
}

/// The color with index `idx` of the 256-color palette.
pub fn color_from_256(idx: usize) -> (c: Color)
    requires
        idx >= 232 ==> (idx - 232) * 10 + 8 <= usize::MAX,
    ensures
        c == color_256(idx as int),
{
    if idx < 16 {
        ansi_color(idx)
    } else if idx < 232 {
        let i = idx - 16;
        Color::from_rgb(cube_value((i / 36) % 6), cube_value((i / 6) % 6), cube_value(i % 6))
    } else {
        let gray = (((idx - 232) * 10 + 8) % 256) as u8;
        Color::from_rgb(gray, gray, gray)
    }
}

/// How a cell is drawn.
#[derive(Debug, Clone, Copy, PartialEq, Eq, Structural)]
pub struct CellAttrs {
    pub fg: Color,
    pub bg: Color,
    pub bold: bool,
    pub italic: bool,
    pub underline: bool,
    pub inverse: bool,
}

/// The attributes text starts with: light gray on a transparent background.
pub open spec fn default_attrs() -> CellAttrs {
    CellAttrs {
        fg: rgb(229, 229, 229),
        bg: Color { r: 0, g: 0, b: 0, a: 0 },
        bold: false,
        italic: false,
        underline: false,
        inverse: false,
    }
}

impl Default for CellAttrs {
    fn default() -> (a: CellAttrs)
        ensures
            a == default_attrs(),
    {
        CellAttrs {
            fg: Color::from_rgb(229, 229, 229),
            bg: Color::transparent(),
            bold: false,
            italic: false,
            underline: false,
            inverse: false,
        }
    }
}

/// One cell of the screen.
#[derive(Debug, Clone, Copy, PartialEq, Eq, Structural)]
pub struct Cell {
    pub c: char,
    pub attrs: CellAttrs,
}

/// An empty cell: a space with the default attributes.
pub open spec fn blank() -> Cell {
    Cell { c: ' ', attrs: default_attrs() }
}

impl Default for Cell {
    fn default() -> (c: Cell)
        ensures
            c == blank(),
    {
        Cell { c: ' ', attrs: CellAttrs::default() }
    }
}

/// Where text is written next.
#[derive(Debug, Clone, Copy, PartialEq, Eq, Structural)]
pub struct Cursor {
    pub row: usize,
    pub col: usize,
    pub visible: bool,
}

impl Default for Cursor {
    fn default() -> (c: Cursor)
        ensures
            c == (Cursor { row: 0, col: 0, visible: true }),
    {
        Cursor { row: 0, col: 0, visible: true }
    }
}

/// A row of `cols` empty cells.
pub open spec fn blank_row(cols: nat) -> Seq<Cell> {
    Seq::new(cols, |c: int| blank())
}

/// A row of empty cells.
fn new_row(cols: usize) -> (row: Vec<Cell>)
    ensures
        row@ == blank_row(cols as nat),
{
    let mut row: Vec<Cell> = Vec::new();
    let mut i: usize = 0;
    while i < cols
        invariant
            i <= cols,
            row@ == blank_row(i as nat),
        decreases cols - i,
    {
        row.push(Cell::default());
        i += 1;
        assert(row@ =~= blank_row(i as nat));
    }
    row
}

/// The screen as values.
#[verifier::ext_equal]
pub struct TermView {
    pub grid: Seq<Seq<Cell>>,
    pub scrollback: Seq<Seq<Cell>>,
    pub max_scrollback: nat,
    pub rows: nat,
    pub cols: nat,
    pub cursor: Cursor,
    pub attrs: CellAttrs,
    pub saved: Option<Cursor>,
    pub top: nat,
    pub bottom: nat,
    pub scroll_offset: nat,
}

/// The cells of a list of rows.
pub open spec fn rows_of(v: Seq<Vec<Cell>>) -> Seq<Seq<Cell>> {
    Seq::new(v.len(), |i: int| v[i]@)
}

/// How many lines scrolled off the top are kept.
pub const MAX_SCROLLBACK: usize = 10000;

/// A terminal screen.
pub struct TerminalState {
    /// The visible rows.
    pub grid: Vec<Vec<Cell>>,
    /// The lines scrolled off the top, oldest first.
    scrollback: VecDeque<Vec<Cell>>,
    /// How many of those are kept.
    max_scrollback: usize,
    pub rows: usize,
    pub cols: usize,
    pub cursor: Cursor,
    /// The attributes of text written next.
    current_attrs: CellAttrs,
    /// The cursor put aside by a save.
    saved_cursor: Option<Cursor>,
    /// The first and last row that scroll (0-based).
    scroll_region: (usize, usize),
    /// How many lines of the scrollback the view is moved up.
    pub scroll_offset: usize,
}

impl View for TerminalState {
    type V = TermView;

    closed spec fn view(&self) -> TermView {
        TermView {
            grid: rows_of(self.grid@),
            scrollback: rows_of(self.scrollback@),
            max_scrollback: self.max_scrollback as nat,
            rows: self.rows as nat,
            cols: self.cols as nat,
            cursor: self.cursor,
            attrs: self.current_attrs,
            saved: self.saved_cursor,
            top: self.scroll_region.0 as nat,
            bottom: self.scroll_region.1 as nat,
            scroll_offset: self.scroll_offset as nat,
        }
    }
}

/// A cursor position that arithmetic on it cannot overflow.
pub open spec fn cursor_ok(c: Cursor) -> bool {
    c.row <= isize::MAX && c.col <= isize::MAX
}

/// What every screen keeps: the grid has `rows` rows of `cols` cells, the
/// scroll region lies in it (it is the first row of an empty screen), the
/// scrollback holds at most its limit and the view is moved up by no more
/// than it holds.
pub open spec fn view_wf(m: TermView) -> bool {
    &&& m.grid.len() == m.rows
    &&& forall|r: int| 0 <= r < m.rows ==> (#[trigger] m.grid[r]).len() == m.cols
    &&& m.rows <= isize::MAX
    &&& m.cols <= isize::MAX
    &&& m.top <= m.bottom
    &&& m.rows > 0 ==> m.bottom < m.rows
    &&& m.rows == 0 ==> m.bottom == 0
    &&& cursor_ok(m.cursor)
    &&& (m.saved matches Some(s) ==> cursor_ok(s))
    &&& m.max_scrollback == MAX_SCROLLBACK
    &&& m.scrollback.len() <= m.max_scrollback
    &&& m.scroll_offset <= m.scrollback.len()
}

/// The screen a terminal of `rows` by `cols` starts with.
pub open spec fn initial(rows: nat, cols: nat) -> TermView {
    TermView {
        grid: Seq::new(rows, |r: int| blank_row(cols)),
        scrollback: Seq::empty(),
        max_scrollback: MAX_SCROLLBACK as nat,
        rows,
        cols,
        cursor: Cursor { row: 0, col: 0, visible: true },
        attrs: default_attrs(),
        saved: None,
        top: 0,
        bottom: if rows > 0 { (rows - 1) as nat } else { 0 },
        scroll_offset: 0,
    }
}

/// Rows `top..bottom` moved up by one, `fill` put at `bottom`.
pub open spec fn shift_up(g: Seq<Seq<Cell>>, top: int, bottom: int, fill: Seq<Cell>) -> Seq<Seq<Cell>> {
    Seq::new(g.len(), |r: int| if top <= r < bottom { g[r + 1] } else if r == bottom { fill } else { g[r] })
}

/// Rows `top..bottom` moved down by one, `fill` put at `top`.
pub open spec fn shift_down(g: Seq<Seq<Cell>>, top: int, bottom: int, fill: Seq<Cell>) -> Seq<Seq<Cell>> {
    Seq::new(g.len(), |r: int| if top < r <= bottom { g[r - 1] } else if r == top { fill } else { g[r] })
}

/// The scrollback after a line is added: the newest lines, at most `max`.
pub open spec fn keep_last(sb: Seq<Seq<Cell>>, max: nat) -> Seq<Seq<Cell>> {
    if sb.len() > max { sb.skip(sb.len() - max) } else { sb }
}

/// Scrolling the region up by a line: its first row goes to the scrollback
/// and an empty row comes in at its bottom.
pub open spec fn scroll_up_m(m: TermView) -> TermView {
    if m.top <= m.bottom && m.bottom < m.grid.len() {
        TermView {
            scrollback: keep_last(m.scrollback.push(m.grid[m.top as int]), m.max_scrollback),
            grid: shift_up(m.grid, m.top as int, m.bottom as int, blank_row(m.cols)),
            ..m
        }
    } else {
        m
    }
}

/// Scrolling the region down by a line: its last row is dropped and an
/// empty row comes in at its top.
pub open spec fn scroll_down_m(m: TermView) -> TermView {
    if m.top <= m.bottom && m.bottom < m.grid.len() {
        TermView { grid: shift_down(m.grid, m.top as int, m.bottom as int, blank_row(m.cols)), ..m }
    } else {
        m
    }
}

/// `m` with the cursor at `row`, `col`.
pub open spec fn move_to(m: TermView, row: int, col: int) -> TermView {
    TermView { cursor: Cursor { row: row as usize, col: col as usize, visible: m.cursor.visible }, ..m }
}

/// A line down: past the bottom of the scroll region the region scrolls
/// and the cursor stays on its last row.
pub open spec fn newline_m(m: TermView) -> TermView {
    if m.cursor.row + 1 > m.bottom {
        scroll_up_m(move_to(m, m.bottom as int, m.cursor.col as int))
    } else {
        move_to(m, m.cursor.row + 1, m.cursor.col as int)
    }
}

/// `c` written at the cursor (when it is on the screen) with the current
/// attributes, the cursor moved right, and to the start of the next line
/// past the last column.
pub open spec fn put_char_m(m: TermView, c: char) -> TermView {
    let row = m.cursor.row as int;
    let col = m.cursor.col as int;
    let written = if row < m.rows && col < m.cols {
        TermView { grid: m.grid.update(row, m.grid[row].update(col, Cell { c, attrs: m.attrs })), ..m }
    } else {
        m
    };
    if col + 1 >= m.cols {
        newline_m(move_to(written, row, 0))
    } else {
        move_to(written, row, col + 1)
    }
}

/// `line` with the cells at columns `from..to` emptied.
pub open spec fn clear_cells(line: Seq<Cell>, from: int, to: int) -> Seq<Cell> {
    Seq::new(line.len(), |c: int| if from <= c < to { blank() } else { line[c] })
}

/// `line` with `n` cells deleted at `col`: the rest moves left and empty
/// cells come in at the end.
pub open spec fn delete_cells(line: Seq<Cell>, col: int, n: int) -> Seq<Cell> {
    Seq::new(line.len(), |i: int| if i >= col { if i + n < line.len() { line[i + n] } else { blank() } } else { line[i] })
}

/// `line` with `n` empty cells inserted at `col`: the rest moves right and
/// what passes the end is lost.
pub open spec fn insert_cells(line: Seq<Cell>, col: int, n: int) -> Seq<Cell> {
    Seq::new(line.len(), |i: int| if i >= col + n { line[i - n] } else if i >= col { blank() } else { line[i] })
}

/// The cursor at the start of its line.
pub open spec fn carriage_return_m(m: TermView) -> TermView {
    move_to(m, m.cursor.row as int, 0)
}

/// The cursor a column left, unless at the first.
pub open spec fn backspace_m(m: TermView) -> TermView {
    if m.cursor.col > 0 { move_to(m, m.cursor.row as int, m.cursor.col - 1) } else { m }
}

/// The cursor at the next multiple of eight columns, at most the last column.
pub open spec fn tab_m(m: TermView) -> TermView {
    let next = (m.cursor.col / 8 + 1) * 8;
    move_to(m, m.cursor.row as int, if next < m.cols - 1 { next } else { m.cols - 1 })
}

/// `m` with another grid.
pub open spec fn with_grid(m: TermView, g: Seq<Seq<Cell>>) -> TermView {
    TermView { grid: g, ..m }
}

/// The cursor's line emptied from the cursor on.
pub open spec fn clear_to_eol_m(m: TermView) -> TermView {
    let row = m.cursor.row as int;
    if row < m.rows {
        with_grid(m, m.grid.update(row, clear_cells(m.grid[row], m.cursor.col as int, m.cols as int)))
    } else {
        m
    }
}

/// The screen emptied from the cursor on.
pub open spec fn clear_to_eos_m(m: TermView) -> TermView {
    let e = clear_to_eol_m(m);
    with_grid(e, Seq::new(m.rows, |r: int| if r > m.cursor.row { blank_row(m.cols) } else { e.grid[r] }))
}

/// The whole screen emptied.
pub open spec fn clear_screen_m(m: TermView) -> TermView {
    with_grid(m, Seq::new(m.rows, |r: int| blank_row(m.cols)))
}

/// The screen emptied up to and including the cursor.
pub open spec fn clear_to_bos_m(m: TermView) -> TermView {
    let row = m.cursor.row as int;
    let last = if m.cursor.col < m.cols - 1 { m.cursor.col as int } else { m.cols - 1 };
    with_grid(m, Seq::new(m.rows, |r: int|
        if r < row { blank_row(m.cols) } else if r == row { clear_cells(m.grid[r], 0, last + 1) } else { m.grid[r] }))
}

/// The cursor's line emptied from the cursor to the start.
pub open spec fn clear_line_start_m(m: TermView) -> TermView {
    let row = m.cursor.row as int;
    let last = if m.cursor.col < m.cols - 1 { m.cursor.col as int } else { m.cols - 1 };
    with_grid(m, m.grid.update(row, clear_cells(m.grid[row], 0, last + 1)))
}

/// The cursor's line emptied.
pub open spec fn clear_line_m(m: TermView) -> TermView {
    let row = m.cursor.row as int;
    if m.cols > 0 {
        with_grid(m, m.grid.update(row, clear_cells(m.grid[row], 0, m.cols as int)))
    } else {
        m
    }
}

/// `n` cells from the cursor emptied.
pub open spec fn erase_chars_m(m: TermView, n: int) -> TermView {
    let row = m.cursor.row as int;
    let col = m.cursor.col as int;
    if row < m.rows { with_grid(m, m.grid.update(row, clear_cells(m.grid[row], col, col + n))) } else { m }
}

/// `n` cells deleted at the cursor.
pub open spec fn delete_chars_m(m: TermView, n: int) -> TermView {
    let row = m.cursor.row as int;
    if row < m.rows { with_grid(m, m.grid.update(row, delete_cells(m.grid[row], m.cursor.col as int, n))) } else { m }
}

/// `n` empty cells inserted at the cursor.
pub open spec fn insert_chars_m(m: TermView, n: int) -> TermView {
    let row = m.cursor.row as int;
    if row < m.rows { with_grid(m, m.grid.update(row, insert_cells(m.grid[row], m.cursor.col as int, n))) } else { m }
}

/// `shift_up` done `n` times.
pub open spec fn shift_up_n(g: Seq<Seq<Cell>>, top: int, bottom: int, fill: Seq<Cell>, n: nat) -> Seq<Seq<Cell>>
    decreases n,
{
    if n == 0 { g } else { shift_up(shift_up_n(g, top, bottom, fill, (n - 1) as nat), top, bottom, fill) }
}

/// `shift_down` done `n` times.
pub open spec fn shift_down_n(g: Seq<Seq<Cell>>, top: int, bottom: int, fill: Seq<Cell>, n: nat) -> Seq<Seq<Cell>>
    decreases n,
{
    if n == 0 { g } else { shift_down(shift_down_n(g, top, bottom, fill, (n - 1) as nat), top, bottom, fill) }
}

/// `n` lines deleted at the cursor's row, inside the scroll region.
pub open spec fn delete_lines_m(m: TermView, n: nat) -> TermView {
    if m.cursor.row <= m.bottom {
        with_grid(m, shift_up_n(m.grid, m.cursor.row as int, m.bottom as int, blank_row(m.cols), n))
    } else {
        m
    }
}

/// `n` empty lines inserted at the cursor's row, inside the scroll region.
pub open spec fn insert_lines_m(m: TermView, n: nat) -> TermView {
    if m.cursor.row <= m.bottom {
        with_grid(m, shift_down_n(m.grid, m.cursor.row as int, m.bottom as int, blank_row(m.cols), n))
    } else {
        m
    }
}

/// Shifting rows keeps their number, and rows of `cols` cells stay so.
pub proof fn lemma_shift_n_shape(g: Seq<Seq<Cell>>, top: int, bottom: int, cols: nat, n: nat)
    requires
        0 <= top <= bottom < g.len(),
        forall|r: int| 0 <= r < g.len() ==> (#[trigger] g[r]).len() == cols,
    ensures
        shift_up_n(g, top, bottom, blank_row(cols), n).len() == g.len(),
        forall|r: int| 0 <= r < g.len() ==> (#[trigger] shift_up_n(g, top, bottom, blank_row(cols), n)[r]).len() == cols,
        shift_down_n(g, top, bottom, blank_row(cols), n).len() == g.len(),
        forall|r: int| 0 <= r < g.len() ==> (#[trigger] shift_down_n(g, top, bottom, blank_row(cols), n)[r]).len() == cols,
    decreases n,
{
    if n > 0 {
        lemma_shift_n_shape(g, top, bottom, cols, (n - 1) as nat);
    }
}

/// `scroll_up_m` done `n` times.
pub open spec fn scroll_up_times(m: TermView, n: nat) -> TermView
    decreases n,
{
    if n == 0 { m } else { scroll_up_m(scroll_up_times(m, (n - 1) as nat)) }
}

/// `scroll_down_m` done `n` times.
pub open spec fn scroll_down_times(m: TermView, n: nat) -> TermView
    decreases n,
{
    if n == 0 { m } else { scroll_down_m(scroll_down_times(m, (n - 1) as nat)) }
}

/// The grid resized: what fits is kept, the rest is empty.
pub open spec fn resized_grid(g: Seq<Seq<Cell>>, rows: nat, cols: nat) -> Seq<Seq<Cell>> {
    Seq::new(rows, |r: int| Seq::new(cols, |c: int| if r < g.len() && c < g[r].len() { g[r][c] } else { blank() }))
}

/// The last index below `n`, or 0.
pub open spec fn last_index(n: nat) -> nat {
    if n > 0 { (n - 1) as nat } else { 0 }
}

/// The smaller of two numbers.
pub open spec fn min_of(a: int, b: int) -> int {
    if a < b { a } else { b }
}

/// `a - b`, or 0 below it.
pub open spec fn sat_sub(a: int, b: int) -> int {
    if a > b { a - b } else { 0 }
}

/// The screen resized to `rows` by `cols`: the cells that fit are kept,
/// the scroll region becomes the whole screen and the cursor is brought
/// inside it. Nothing changes when the size is the same.
pub open spec fn resize_m(m: TermView, rows: nat, cols: nat) -> TermView {
    if rows == m.rows && cols == m.cols {
        m
    } else {
        TermView {
            grid: resized_grid(m.grid, rows, cols),
            rows,
            cols,
            top: 0,
            bottom: last_index(rows),
            cursor: Cursor {
                row: min_of(m.cursor.row as int, last_index(rows) as int) as usize,
                col: min_of(m.cursor.col as int, last_index(cols) as int) as usize,
                visible: m.cursor.visible,
            },
            ..m
        }
    }
}

/// The view moved into the scrollback by `delta` lines (down when
/// negative), within what it holds.
pub open spec fn scroll_view_m(m: TermView, delta: int) -> TermView {
    TermView {
        scroll_offset: if delta > 0 {
            min_of(m.scroll_offset + delta, m.scrollback.len() as int) as nat
        } else {
            sat_sub(m.scroll_offset as int, -delta) as nat
        },
        ..m
    }
}

/// The sub-parameters of each parameter.
pub open spec fn param_views(p: Seq<Vec<u16>>) -> Seq<Seq<u16>> {
    Seq::new(p.len(), |i: int| p[i]@)
}

/// The first sub-parameter, or 0.
pub open spec fn first_or_zero(p: Seq<u16>) -> u16 {
    if p.len() > 0 { p[0] } else { 0 }
}

/// Parameter `idx`, with `default` when it is missing or 0.
pub open spec fn param_m(ps: Seq<Seq<u16>>, idx: int, default: int) -> int {
    if idx < ps.len() && ps[idx].len() > 0 && ps[idx][0] != 0 { ps[idx][0] as int } else { default }
}

/// The attributes after one graphic rendition code.
pub open spec fn sgr_code(a: CellAttrs, code: u16) -> CellAttrs {
    if code == 0 { default_attrs() }
    else if code == 1 { CellAttrs { bold: true, ..a } }
    else if code == 3 { CellAttrs { italic: true, ..a } }
    else if code == 4 { CellAttrs { underline: true, ..a } }
    else if code == 7 { CellAttrs { inverse: true, ..a } }
    else if code == 22 { CellAttrs { bold: false, ..a } }
    else if code == 23 { CellAttrs { italic: false, ..a } }
    else if code == 24 { CellAttrs { underline: false, ..a } }
    else if code == 27 { CellAttrs { inverse: false, ..a } }
    else if 30 <= code <= 37 { CellAttrs { fg: ansi(code - 30), ..a } }
    else if code == 39 { CellAttrs { fg: default_attrs().fg, ..a } }
    else if 40 <= code <= 47 { CellAttrs { bg: ansi(code - 40), ..a } }
    else if code == 49 { CellAttrs { bg: default_attrs().bg, ..a } }
    else if 90 <= code <= 97 { CellAttrs { fg: ansi(code - 90 + 8), ..a } }
    else if 100 <= code <= 107 { CellAttrs { bg: ansi(code - 100 + 8), ..a } }
    else { a }
}

/// A color component given as parameter `k`: its low byte, 0 when missing.
pub open spec fn component(ps: Seq<Seq<u16>>, k: int) -> u8 {
    if k < ps.len() { (first_or_zero(ps[k]) % 256) as u8 } else { 0 }
}

/// The extended color whose kind is parameter `j` (5: a palette index
/// follows; 2: red, green and blue follow), and where the codes go on.
pub open spec fn extended_color(ps: Seq<Seq<u16>>, j: int) -> (Option<Color>, int) {
    if j >= ps.len() {
        (None, j)
    } else if first_or_zero(ps[j]) == 5 {
        if j + 1 < ps.len() { (Some(color_256(first_or_zero(ps[j + 1]) as int)), j + 2) } else { (None, j + 1) }
    } else if first_or_zero(ps[j]) == 2 {
        (Some(rgb(component(ps, j + 1), component(ps, j + 2), component(ps, j + 3))), min_of(j + 4, ps.len() as int))
    } else {
        (None, j + 1)
    }
}

/// The attributes after the graphic rendition codes from parameter `i` on.
pub open spec fn sgr_m(ps: Seq<Seq<u16>>, i: int, a: CellAttrs) -> CellAttrs
    decreases ps.len() - i,
{
    if i < 0 || i >= ps.len() {
        a
    } else {
        let code = first_or_zero(ps[i]);
        if code == 38 || code == 48 {
            let (c, next) = extended_color(ps, i + 1);
            let a2 = match c {
                Some(col) => if code == 38 { CellAttrs { fg: col, ..a } } else { CellAttrs { bg: col, ..a } },
                None => a,
            };
            sgr_m(ps, next, a2)
        } else {
            sgr_m(ps, i + 1, sgr_code(a, code))
        }
    }
}

/// When a control sequence can be carried out: the moves to the last row
/// or column need one, and the erasures that index the cursor's row need
/// it on the screen.
pub open spec fn csi_ok(m: TermView, ps: Seq<Seq<u16>>, action: char) -> bool {
    let p = param_m(ps, 0, 0);
    if action == 'B' || action == 'E' || action == 'd' {
        m.rows > 0
    } else if action == 'C' || action == 'G' {
        m.cols > 0
    } else if action == 'H' || action == 'f' {
        m.rows > 0 && m.cols > 0
    } else if action == 'J' {
        p == 1 ==> (m.cursor.row < m.rows && m.cols > 0)
    } else if action == 'K' {
        &&& p == 1 ==> (m.cursor.row < m.rows && m.cols > 0)
        &&& p == 2 ==> (m.cols > 0 ==> m.cursor.row < m.rows)
    } else if action == 'L' || action == 'M' {
        m.rows > 0 || m.cursor.row > m.bottom
    } else {
        true
    }
}

/// The screen after a control sequence with parameters `ps` and final
/// character `action`.
pub open spec fn csi_m(m: TermView, ps: Seq<Seq<u16>>, action: char) -> TermView {
    let n = param_m(ps, 0, 1);
    let row = m.cursor.row as int;
    let col = m.cursor.col as int;
    let last_row = m.rows - 1;
    let last_col = m.cols - 1;
    if action == 'A' {
        move_to(m, sat_sub(row, n), col)
    } else if action == 'B' {
        move_to(m, min_of(row + n, last_row), col)
    } else if action == 'C' {
        move_to(m, row, min_of(col + n, last_col))
    } else if action == 'D' {
        move_to(m, row, sat_sub(col, n))
    } else if action == 'E' {
        move_to(m, min_of(row + n, last_row), 0)
    } else if action == 'F' {
        move_to(m, sat_sub(row, n), 0)
    } else if action == 'G' {
        move_to(m, row, min_of(n - 1, last_col))
    } else if action == 'H' || action == 'f' {
        move_to(m, min_of(sat_sub(param_m(ps, 0, 1), 1), last_row), min_of(sat_sub(param_m(ps, 1, 1), 1), last_col))
    } else if action == 'J' {
        let p = param_m(ps, 0, 0);
        if p == 0 { clear_to_eos_m(m) } else if p == 1 { clear_to_bos_m(m) } else if p == 2 || p == 3 { clear_screen_m(m) } else { m }
    } else if action == 'K' {
        let p = param_m(ps, 0, 0);
        if p == 0 { clear_to_eol_m(m) } else if p == 1 { clear_line_start_m(m) } else if p == 2 { clear_line_m(m) } else { m }
    } else if action == 'L' {
        insert_lines_m(m, n as nat)
    } else if action == 'M' {
        delete_lines_m(m, n as nat)
    } else if action == 'P' {
        delete_chars_m(m, n)
    } else if action == 'X' {
        erase_chars_m(m, n)
    } else if action == 'd' {
        move_to(m, min_of(n - 1, last_row), col)
    } else if action == 'm' {
        TermView { attrs: sgr_m(ps, 0, m.attrs), ..m }
    } else if action == 'r' {
        let top = sat_sub(param_m(ps, 0, 1), 1);
        let bottom = sat_sub(param_m(ps, 1, m.rows as int), 1);
        if top < bottom && bottom < m.rows {
            TermView { top: top as nat, bottom: bottom as nat, ..move_to(m, 0, 0) }
        } else {
            m
        }
    } else if action == 's' {
        TermView { saved: Some(m.cursor), ..m }
    } else if action == 'u' {
        match m.saved {
            Some(c) => TermView { cursor: c, ..m },
            None => m,
        }
    } else if action == 'S' {
        scroll_up_times(m, n as nat)
    } else if action == 'T' {
        scroll_down_times(m, n as nat)
    } else if action == '@' {
        insert_chars_m(m, n)
    } else {
        m
    }
}

/// The screen after an escape sequence with final byte `byte`: save and
/// restore the cursor, index, next line, reverse index, full reset.
pub open spec fn esc_m(m: TermView, byte: u8) -> TermView {
    let row = m.cursor.row as int;
    if byte == 0x37 {
        TermView { saved: Some(m.cursor), ..m }
    } else if byte == 0x38 {
        match m.saved {
            Some(c) => TermView { cursor: c, ..m },
            None => m,
        }
    } else if byte == 0x44 {
        if row >= m.bottom { scroll_up_m(m) } else { move_to(m, row + 1, m.cursor.col as int) }
    } else if byte == 0x45 {
        if row >= m.bottom { scroll_up_m(move_to(m, row, 0)) } else { move_to(m, row + 1, 0) }
    } else if byte == 0x4d {
        if row <= m.top { scroll_down_m(m) } else { move_to(m, row - 1, m.cursor.col as int) }
    } else if byte == 0x63 {
        initial(m.rows, m.cols)
    } else {
        m
    }
}

/// The screen after a control character: backspace, tab, line feed (and
/// vertical tab, form feed), carriage return; others change nothing.
pub open spec fn execute_m(m: TermView, byte: u8) -> TermView {
    if byte == 0x08 {
        backspace_m(m)
    } else if byte == 0x09 {
        tab_m(m)
    } else if byte == 0x0a || byte == 0x0b || byte == 0x0c {
        newline_m(m)
    } else if byte == 0x0d {
        carriage_return_m(m)
    } else {
        m
    }
}

/// Scrolling the region changes neither the cursor nor the saved cursor.
pub proof fn lemma_scrolling_keeps_cursors(m: TermView, n: nat)
    ensures
        scroll_up_times(m, n).cursor == m.cursor,
        scroll_up_times(m, n).saved == m.saved,
        scroll_down_times(m, n).cursor == m.cursor,
        scroll_down_times(m, n).saved == m.saved,
    decreases n,
{
    if n > 0 {
        lemma_scrolling_keeps_cursors(m, (n - 1) as nat);
    }
}

/// A graphic rendition sequence (`ESC [ code m`) of one attribute code turns
/// that attribute on (1 bold, 3 italic, 4 underline, 7 inverse) or off (22,
/// 23, 24, 27), keeping the colors and the other attributes; 0 restores the
/// default attributes. Only the current attributes change, so the next
/// character printed carries them.
pub proof fn lemma_sgr_attribute_codes(m: TermView, code: u16)
    ensures
        ({
            let r = csi_m(m, seq![seq![code]], 'm');
            let a = m.attrs;
            &&& r == (TermView { attrs: r.attrs, ..m })
            &&& code == 0 ==> r.attrs == default_attrs()
            &&& code == 1 ==> r.attrs == (CellAttrs { bold: true, ..a })
            &&& code == 3 ==> r.attrs == (CellAttrs { italic: true, ..a })
            &&& code == 4 ==> r.attrs == (CellAttrs { underline: true, ..a })
            &&& code == 7 ==> r.attrs == (CellAttrs { inverse: true, ..a })
            &&& code == 22 ==> r.attrs == (CellAttrs { bold: false, ..a })
            &&& code == 23 ==> r.attrs == (CellAttrs { italic: false, ..a })
            &&& code == 24 ==> r.attrs == (CellAttrs { underline: false, ..a })
            &&& code == 27 ==> r.attrs == (CellAttrs { inverse: false, ..a })
        }),
{
    let ps = seq![seq![code]];
    assert(first_or_zero(ps[0]) == code);
    if code != 38 && code != 48 {
        assert(sgr_m(ps, 0, m.attrs) == sgr_m(ps, 1, sgr_code(m.attrs, code)));
        assert(sgr_m(ps, 1, sgr_code(m.attrs, code)) == sgr_code(m.attrs, code));
    }
}

/// After the cursor is saved, no control sequence but another save
/// replaces what was saved, so a restore brings the cursor back to where
/// it was saved.
pub proof fn lemma_restore_returns_to_saved(m: TermView, ps: Seq<Seq<u16>>, action: char)
    requires
        action != 's',
    ensures
        csi_m(esc_m(m, 0x37), ps, action).saved == Some(m.cursor),
        esc_m(csi_m(esc_m(m, 0x37), ps, action), 0x38).cursor == m.cursor,
{
    let saved = esc_m(m, 0x37);
    let n = param_m(ps, 0, 1);
    lemma_scrolling_keeps_cursors(saved, n as nat);
}

/// Resizing keeps every cell that fits in both sizes.
pub proof fn lemma_resize_keeps_cells(m: TermView, rows: nat, cols: nat, r: int, c: int)
    requires
        view_wf(m),
        0 <= r < rows,
        r < m.rows,
        0 <= c < cols,
        c < m.cols,
    ensures
        resize_m(m, rows, cols).grid[r][c] == m.grid[r][c],
{
}

/// A character written before the last column stays where the cursor was,
/// with the current attributes, and the cursor moves one column right.
pub proof fn lemma_put_char_writes(m: TermView, c: char)
    requires
        view_wf(m),
        m.cursor.row < m.rows,
        m.cursor.col + 1 < m.cols,
    ensures
        put_char_m(m, c).grid[m.cursor.row as int][m.cursor.col as int] == (Cell { c, attrs: m.attrs }),
        put_char_m(m, c).cursor.row == m.cursor.row,
        put_char_m(m, c).cursor.col == m.cursor.col + 1,
{
}

/// Empties the cells `from..to` (as far as the line goes) of row `r`.
fn blank_cells(grid: &mut Vec<Vec<Cell>>, r: usize, from: usize, to: usize)
    requires
        r < old(grid)@.len(),
    ensures
        final(grid)@.len() == old(grid)@.len(),
        rows_of(final(grid)@) == rows_of(old(grid)@).update(r as int, clear_cells(old(grid)@[r as int]@, from as int, to as int)),
{
    let ghost g0 = rows_of(grid@);
    let end = if to < grid[r].len() { to } else { grid[r].len() };
    let mut c = from;
    assert(g0.update(r as int, clear_cells(g0[r as int], from as int, from as int)) =~= g0) by {
        assert(clear_cells(g0[r as int], from as int, from as int) =~= g0[r as int]);
    }
    while c < end
        invariant
            r < grid@.len(),
            g0.len() == grid@.len(),
            end <= g0[r as int].len(),
            grid@[r as int]@.len() == g0[r as int].len(),
            c >= from,
            c == from || c <= end,
            rows_of(grid@) == g0.update(r as int, clear_cells(g0[r as int], from as int, c as int)),
        decreases end - c,
    {
        let ghost prev = grid@;
        assert(rows_of(prev)[r as int] == prev[r as int]@);
        assert(prev[r as int]@ == clear_cells(g0[r as int], from as int, c as int));
        grid[r][c] = Cell::default();
        assert(grid@[r as int]@ =~= clear_cells(g0[r as int], from as int, c + 1));
        assert forall|k: int| 0 <= k < grid@.len() && k != r implies grid@[k] == prev[k] by {}
        c += 1;
        assert(rows_of(grid@) =~= g0.update(r as int, clear_cells(g0[r as int], from as int, c as int))) by {
            assert forall|k: int| 0 <= k < grid@.len() && k != r implies #[trigger] rows_of(grid@)[k] == g0[k] by {
                assert(rows_of(prev)[k] == g0.update(r as int, clear_cells(g0[r as int], from as int, c - 1))[k]);
            }
        }
    }
    assert(clear_cells(g0[r as int], from as int, c as int) =~= clear_cells(g0[r as int], from as int, to as int));
    assert(rows_of(grid@) =~= g0.update(r as int, clear_cells(g0[r as int], from as int, to as int)));
}

/// Empties the rows `from..to`, each of `cols` cells.
fn blank_rows(grid: &mut Vec<Vec<Cell>>, from: usize, to: usize, cols: usize)
    requires
        to <= old(grid)@.len(),
        forall|r: int| from <= r < to ==> (#[trigger] rows_of(old(grid)@)[r]).len() == cols,
    ensures
        final(grid)@.len() == old(grid)@.len(),
        rows_of(final(grid)@) == Seq::new(old(grid)@.len(), |r: int|
            if from <= r < to { blank_row(cols as nat) } else { rows_of(old(grid)@)[r] }),
{
    let ghost g0 = rows_of(grid@);
    let mut r = from;
    assert(rows_of(grid@) =~= Seq::new(g0.len(), |k: int| if from <= k < r { blank_row(cols as nat) } else { g0[k] }));
    while r < to
        invariant
            to <= grid@.len(),
            grid@.len() == g0.len(),
            forall|k: int| from <= k < to ==> (#[trigger] g0[k]).len() == cols,
            r >= from,
            r == from || r <= to,
            rows_of(grid@) == Seq::new(g0.len(), |k: int| if from <= k < r { blank_row(cols as nat) } else { g0[k] }),
        decreases to - r,
    {
        let ghost prev = rows_of(grid@);
        assert(prev[r as int] == g0[r as int]);
        blank_cells(grid, r, 0, cols);
        assert(clear_cells(g0[r as int], 0, cols as int) =~= blank_row(cols as nat));
        r += 1;
        assert(rows_of(grid@) =~= Seq::new(g0.len(), |k: int| if from <= k < r { blank_row(cols as nat) } else { g0[k] }));
    }
    assert(rows_of(grid@) =~= Seq::new(g0.len(), |k: int| if from <= k < to { blank_row(cols as nat) } else { g0[k] }));
}

/// Moves rows `at..bottom` up by one and puts an empty row at `bottom`.
fn delete_line_at(grid: &mut Vec<Vec<Cell>>, at: usize, bottom: usize, cols: usize)
    requires
        at <= bottom < old(grid)@.len(),
    ensures
        final(grid)@.len() == old(grid)@.len(),
        rows_of(final(grid)@) == shift_up(rows_of(old(grid)@), at as int, bottom as int, blank_row(cols as nat)),
{
    let ghost g0 = rows_of(grid@);
    grid.remove(at);
    grid.insert(bottom, new_row(cols));
    assert(grid@.len() == g0.len());
    assert(rows_of(grid@) =~= shift_up(g0, at as int, bottom as int, blank_row(cols as nat)));
}

/// Moves rows `at..bottom` down by one and puts an empty row at `at`.
fn insert_line_at(grid: &mut Vec<Vec<Cell>>, at: usize, bottom: usize, cols: usize)
    requires
        at <= bottom < old(grid)@.len(),
    ensures
        final(grid)@.len() == old(grid)@.len(),
        rows_of(final(grid)@) == shift_down(rows_of(old(grid)@), at as int, bottom as int, blank_row(cols as nat)),
{
    let ghost g0 = rows_of(grid@);
    grid.remove(bottom);
    grid.insert(at, new_row(cols));
    assert(grid@.len() == g0.len());
    assert(rows_of(grid@) =~= shift_down(g0, at as int, bottom as int, blank_row(cols as nat)));
}

/// Deletes `n` cells at `col` of a line of `cols` cells.
fn delete_cells_in(line: &mut Vec<Cell>, col: usize, n: usize, cols: usize)
    requires
        old(line)@.len() == cols,
        cols + n <= usize::MAX,
    ensures
        final(line)@ == delete_cells(old(line)@, col as int, n as int),
{
    let ghost l0 = line@;
    let mut i = col;
    while i < cols
        invariant
            line@.len() == cols,
            l0.len() == cols,
            cols + n <= usize::MAX,
            i >= col,
            forall|j: int| 0 <= j < line@.len() ==> #[trigger] line@[j]
                == if col <= j < i { delete_cells(l0, col as int, n as int)[j] } else { l0[j] },
        decreases cols - i,
    {
        if i + n < cols {
            let moved = line[i + n];
            line.set(i, moved);
        } else {
            line.set(i, Cell::default());
        }
        i += 1;
    }
    assert(line@ =~= delete_cells(l0, col as int, n as int));
}

/// Inserts `n` empty cells at `col` of a line of `cols` cells.
fn insert_cells_in(line: &mut Vec<Cell>, col: usize, n: usize, cols: usize)
    requires
        old(line)@.len() == cols,
        col + n <= usize::MAX,
    ensures
        final(line)@ == insert_cells(old(line)@, col as int, n as int),
{
    let ghost l0 = line@;
    let mut i = cols;
    while i > col + n
        invariant
            line@.len() == cols,
            l0.len() == cols,
            col + n <= usize::MAX,
            i <= cols,
            forall|j: int| 0 <= j < cols ==> #[trigger] line@[j]
                == if j >= i && j >= col + n { l0[j - n] } else { l0[j] },
        decreases i,
    {
        i -= 1;
        let moved = line[i - n];
        line.set(i, moved);
    }
    let end = if col + n < cols { col + n } else { cols };
    let mut k = col;
    while k < end
        invariant
            line@.len() == cols,
            l0.len() == cols,
            end <= cols,
            end <= col + n,
            k >= col,
            forall|j: int| 0 <= j < cols ==> #[trigger] line@[j]
                == if j >= col + n { l0[j - n] } else if col <= j < k { blank() } else { l0[j] },
        decreases end - k,
    {
        line.set(k, Cell::default());
        k += 1;
    }
    assert(line@ =~= insert_cells(l0, col as int, n as int));
}

/// The first sub-parameter, or 0.
fn first_value(p: &Vec<u16>) -> (v: u16)
    ensures
        v == first_or_zero(p@),
{
    if p.len() > 0 { p[0] } else { 0 }
}

/// Parameter `idx`, with `default` when it is missing or 0.
fn param(params: &[Vec<u16>], idx: usize, default: usize) -> (v: usize)
    ensures
        v as int == param_m(param_views(params@), idx as int, default as int),
        v == default || v <= u16::MAX,
{
    if idx < params.len() && params[idx].len() > 0 && params[idx][0] != 0 {
        params[idx][0] as usize
    } else {
        default
    }
}

/// The attributes after one graphic rendition code.
fn apply_code(a: CellAttrs, code: u16) -> (r: CellAttrs)
    ensures
        r == sgr_code(a, code),
{
    let mut r = a;
    if code == 0 {
        r = CellAttrs::default();
    } else if code == 1 {
        r.bold = true;
    } else if code == 3 {
        r.italic = true;
    } else if code == 4 {
        r.underline = true;
    } else if code == 7 {
        r.inverse = true;
    } else if code == 22 {
        r.bold = false;
    } else if code == 23 {
        r.italic = false;
    } else if code == 24 {
        r.underline = false;
    } else if code == 27 {
        r.inverse = false;
    } else if 30 <= code && code <= 37 {
        r.fg = ansi_color((code - 30) as usize);
    } else if code == 39 {
        r.fg = CellAttrs::default().fg;
    } else if 40 <= code && code <= 47 {
        r.bg = ansi_color((code - 40) as usize);
    } else if code == 49 {
        r.bg = CellAttrs::default().bg;
    } else if 90 <= code && code <= 97 {
        r.fg = ansi_color((code - 90 + 8) as usize);
    } else if 100 <= code && code <= 107 {
        r.bg = ansi_color((code - 100 + 8) as usize);
    }
    r
}

/// A color component given as parameter `k`.
fn component_at(params: &[Vec<u16>], k: usize) -> (v: u8)
    ensures
        v == component(param_views(params@), k as int),
{
    if k < params.len() {
        assert(params@[k as int]@ == param_views(params@)[k as int]);
        (first_value(&params[k]) % 256) as u8
    } else {
        0
    }
}

/// The extended color whose kind is parameter `j`, and where the codes go on.
fn extended(params: &[Vec<u16>], j: usize) -> (r: (Option<Color>, usize))
    requires
        j <= params@.len(),
    ensures
        (r.0, r.1 as int) == extended_color(param_views(params@), j as int),
{
    let ghost ps = param_views(params@);
    if j >= params.len() {
        return (None, j);
    }
    assert(params@[j as int]@ == ps[j as int]);
    let kind = first_value(&params[j]);
    if kind == 5 {
        if j + 1 < params.len() {
            assert(params@[j + 1]@ == ps[j + 1]);
            let idx = first_value(&params[j + 1]) as usize;
            (Some(color_from_256(idx)), j + 2)
        } else {
            (None, j + 1)
        }
    } else if kind == 2 {
        let r = component_at(params, j + 1);
        let g = if j + 1 < params.len() { component_at(params, j + 2) } else { 0 };
        let b = if params.len() - j > 3 { component_at(params, j + 3) } else { 0 };
        let next = if params.len() - j > 4 { j + 4 } else { params.len() };
        (Some(Color::from_rgb(r, g, b)), next)
    } else {
        (None, j + 1)
    }
}

impl TerminalState {
    /// The grid of a well-formed screen has `rows` rows of `cols` cells.
    proof fn lemma_shape(&self)
        requires
            self.wf(),
        ensures
            self.grid@.len() == self.rows,
            forall|r: int| 0 <= r < self.rows ==> (#[trigger] self.grid@[r])@.len() == self.cols,
            forall|r: int| 0 <= r < self.rows ==> (#[trigger] rows_of(self.grid@)[r]).len() == self.cols,
    {
        assert forall|r: int| 0 <= r < self.rows implies (#[trigger] self.grid@[r])@.len() == self.cols by {
            assert(rows_of(self.grid@)[r] == self.grid@[r]@);
        }
    }

    /// The rules every screen keeps.
    pub open spec fn wf(&self) -> bool {
        view_wf(self@)
    }

    /// An empty screen of `rows` by `cols` cells.
    pub fn new(rows: usize, cols: usize) -> (s: Self)
        requires
            rows <= isize::MAX,
            cols <= isize::MAX,
        ensures
            s.wf(),
            s@ == initial(rows as nat, cols as nat),
    {
        let mut grid: Vec<Vec<Cell>> = Vec::new();
        let mut i: usize = 0;
        while i < rows
            invariant
                i <= rows,
                rows_of(grid@) == Seq::new(i as nat, |r: int| blank_row(cols as nat)),
            decreases rows - i,
        {
            let ghost before = grid@;
            assert(rows_of(before).len() == before.len());
            grid.push(new_row(cols));
            i += 1;
            assert(rows_of(grid@) =~= Seq::new(i as nat, |r: int| blank_row(cols as nat))) by {
                assert forall|r: int| 0 <= r < i - 1 implies #[trigger] rows_of(grid@)[r] == rows_of(before)[r] by {}
            }
        }
        let s = TerminalState {
            grid,
            scrollback: VecDeque::new(),
            max_scrollback: MAX_SCROLLBACK,
            rows,
            cols,
            cursor: Cursor::default(),
            current_attrs: CellAttrs::default(),
            saved_cursor: None,
            scroll_region: (0, rows.saturating_sub(1)),
            scroll_offset: 0,
        };
        assert(rows_of(s.scrollback@) =~= Seq::<Seq<Cell>>::empty());
        assert(s@ =~= initial(rows as nat, cols as nat));
        s
    }

    /// Scrolls the region up by a line.
    fn scroll_up(&mut self)
        requires
            old(self).wf(),
        ensures
            final(self).wf(),
            final(self)@ == scroll_up_m(old(self)@),
    {
        let ghost m = self@;
        let top = self.scroll_region.0;
        let bottom = self.scroll_region.1;
        if top < self.grid.len() && bottom < self.grid.len() && top <= bottom {
            let line = self.grid.remove(top);
            let mut sb: VecDeque<Vec<Cell>> = VecDeque::new();
            std::mem::swap(&mut sb, &mut self.scrollback);
            sb.push_back(line);
            assert(rows_of(sb@) =~= m.scrollback.push(m.grid[top as int]));
            let ghost pushed = rows_of(sb@);
            let max = self.max_scrollback;
            while sb.len() > max
                invariant
                    max == m.max_scrollback,
                    pushed.len() == m.scrollback.len() + 1,
                    rows_of(sb@) == pushed.skip(pushed.len() - sb@.len()),
                    sb@.len() <= pushed.len(),
                    sb@.len() == pushed.len() || sb@.len() >= max,
                decreases sb@.len(),
            {
                let ghost before = sb@;
                sb.pop_front();
                assert forall|j: int| 0 <= j < sb@.len() implies #[trigger] rows_of(sb@)[j]
                    == pushed.skip(pushed.len() - sb@.len())[j] by {
                    assert(sb@[j] == before[j + 1]);
                    assert(rows_of(before)[j + 1] == pushed.skip(pushed.len() - before.len())[j + 1]);
                }
                assert(rows_of(sb@) =~= pushed.skip(pushed.len() - sb@.len()));
            }
            proof {
                if pushed.len() <= max {
                    assert(pushed.skip(0) =~= pushed);
                }
            }
            assert(rows_of(sb@) =~= keep_last(pushed, m.max_scrollback));
            std::mem::swap(&mut sb, &mut self.scrollback);
            self.grid.insert(bottom, new_row(self.cols));
            assert(rows_of(self.grid@) =~= shift_up(m.grid, top as int, bottom as int, blank_row(m.cols)));
            assert(self@ =~= scroll_up_m(m));
        }
    }

    /// Scrolls the region down by a line.
    fn scroll_down(&mut self)
        requires
            old(self).wf(),
        ensures
            final(self).wf(),
            final(self)@ == scroll_down_m(old(self)@),
    {
        let ghost m = self@;
        let top = self.scroll_region.0;
        let bottom = self.scroll_region.1;
        if top < self.grid.len() && bottom < self.grid.len() && top <= bottom {
            self.grid.remove(bottom);
            self.grid.insert(top, new_row(self.cols));
            assert(rows_of(self.grid@) =~= shift_down(m.grid, top as int, bottom as int, blank_row(m.cols)));
            assert(self@ =~= scroll_down_m(m));
        }
    }

    /// Moves to the next line, scrolling at the bottom of the region.
    pub fn newline(&mut self)
        requires
            old(self).wf(),
        ensures
            final(self).wf(),
            final(self)@ == newline_m(old(self)@),
    {
        let ghost m = self@;
        self.cursor.row += 1;
        if self.cursor.row > self.scroll_region.1 {
            self.cursor.row = self.scroll_region.1;
            assert(self@ =~= move_to(m, m.bottom as int, m.cursor.col as int));
            self.scroll_up();
        } else {
            assert(self@ =~= move_to(m, m.cursor.row + 1, m.cursor.col as int));
        }
    }

    /// Writes a character at the cursor and moves past it.
    pub fn put_char(&mut self, c: char)
        requires
            old(self).wf(),
        ensures
            final(self).wf(),
            final(self)@ == put_char_m(old(self)@, c),
    {
        let ghost m = self@;
        let row = self.cursor.row;
        let col = self.cursor.col;
        if row < self.rows && col < self.cols {
            let cell = Cell { c, attrs: self.current_attrs };
            self.grid[row][col] = cell;
            assert(rows_of(self.grid@) =~= m.grid.update(row as int, m.grid[row as int].update(col as int, cell)));
        }
        let ghost written = self@;
        self.cursor.col += 1;
        if self.cursor.col >= self.cols {
            self.cursor.col = 0;
            assert(self@ =~= move_to(written, row as int, 0));
            self.newline();
        } else {
            assert(self@ =~= move_to(written, row as int, col + 1));
        }
    }

    /// Moves to the start of the line.
    pub fn carriage_return(&mut self)
        requires
            old(self).wf(),
        ensures
            final(self).wf(),
            final(self)@ == carriage_return_m(old(self)@),
    {
        self.cursor.col = 0;
        assert(self@ =~= carriage_return_m(old(self)@));
    }

    /// Moves a column left.
    fn backspace(&mut self)
        requires
            old(self).wf(),
        ensures
            final(self).wf(),
            final(self)@ == backspace_m(old(self)@),
    {
        if self.cursor.col > 0 {
            self.cursor.col -= 1;
        }
        assert(self@ =~= backspace_m(old(self)@));
    }

    /// Moves to the next tab stop.
    fn tab(&mut self)
        requires
            old(self).wf(),
            old(self).cols > 0,
        ensures
            final(self).wf(),
            final(self)@ == tab_m(old(self)@),
    {
        let next_tab = (self.cursor.col / 8 + 1) * 8;
        self.cursor.col = if next_tab < self.cols - 1 { next_tab } else { self.cols - 1 };
        assert(self@ =~= tab_m(old(self)@));
    }

    /// Empties the line from the cursor on.
    fn clear_to_eol(&mut self)
        requires
            old(self).wf(),
        ensures
            final(self).wf(),
            final(self)@ == clear_to_eol_m(old(self)@),
    {
        proof {
            self.lemma_shape();
        }
        let ghost m = self@;
        if self.cursor.row < self.rows {
            let row = self.cursor.row;
            let col = self.cursor.col;
            let cols = self.cols;
            blank_cells(&mut self.grid, row, col, cols);
        }
        assert(self@ =~= clear_to_eol_m(m));
    }

    /// Empties the screen from the cursor on.
    fn clear_to_eos(&mut self)
        requires
            old(self).wf(),
        ensures
            final(self).wf(),
            final(self)@ == clear_to_eos_m(old(self)@),
    {
        proof {
            self.lemma_shape();
        }
        let ghost m = self@;
        self.clear_to_eol();
        let from = self.cursor.row + 1;
        let rows = self.rows;
        let cols = self.cols;
        if from < rows {
            blank_rows(&mut self.grid, from, rows, cols);
        }
        assert(self@ =~= clear_to_eos_m(m));
    }

    /// Empties the whole screen.
    pub fn clear_screen(&mut self)
        requires
            old(self).wf(),
        ensures
            final(self).wf(),
            final(self)@ == clear_screen_m(old(self)@),
    {
        proof {
            self.lemma_shape();
        }
        let ghost m = self@;
        let rows = self.rows;
        let cols = self.cols;
        blank_rows(&mut self.grid, 0, rows, cols);
        assert(self@ =~= clear_screen_m(m));
    }

    /// Empties the screen up to and including the cursor.
    fn clear_to_bos(&mut self)
        requires
            old(self).wf(),
            old(self).cursor.row < old(self).rows,
            old(self).cols > 0,
        ensures
            final(self).wf(),
            final(self)@ == clear_to_bos_m(old(self)@),
    {
        proof {
            self.lemma_shape();
        }
        let ghost m = self@;
        let row = self.cursor.row;
        let cols = self.cols;
        blank_rows(&mut self.grid, 0, row, cols);
        let ghost mid = rows_of(self.grid@);
        assert(mid[row as int] == m.grid[row as int]);
        let last = if self.cursor.col < cols - 1 { self.cursor.col } else { cols - 1 };
        blank_cells(&mut self.grid, row, 0, last + 1);
        assert(self@ =~= clear_to_bos_m(m));
    }

    /// Empties the line from its start to the cursor.
    fn clear_line_start(&mut self)
        requires
            old(self).wf(),
            old(self).cursor.row < old(self).rows,
            old(self).cols > 0,
        ensures
            final(self).wf(),
            final(self)@ == clear_line_start_m(old(self)@),
    {
        proof {
            self.lemma_shape();
        }
        let ghost m = self@;
        let row = self.cursor.row;
        let cols = self.cols;
        let last = if self.cursor.col < cols - 1 { self.cursor.col } else { cols - 1 };
        blank_cells(&mut self.grid, row, 0, last + 1);
        assert(self@ =~= clear_line_start_m(m));
    }

    /// Empties the cursor's line.
    fn clear_line(&mut self)
        requires
            old(self).wf(),
            old(self).cols > 0 ==> old(self).cursor.row < old(self).rows,
        ensures
            final(self).wf(),
            final(self)@ == clear_line_m(old(self)@),
    {
        proof {
            self.lemma_shape();
        }
        let ghost m = self@;
        let cols = self.cols;
        if cols > 0 {
            let row = self.cursor.row;
            blank_cells(&mut self.grid, row, 0, cols);
        }
        assert(self@ =~= clear_line_m(m));
    }

    /// Empties `n` cells from the cursor.
    fn erase_chars(&mut self, n: usize)
        requires
            old(self).wf(),
            n <= u16::MAX,
        ensures
            final(self).wf(),
            final(self)@ == erase_chars_m(old(self)@, n as int),
    {
        proof {
            self.lemma_shape();
        }
        let ghost m = self@;
        if self.cursor.row < self.rows {
            let row = self.cursor.row;
            let col = self.cursor.col;
            blank_cells(&mut self.grid, row, col, col + n);
        }
        assert(self@ =~= erase_chars_m(m, n as int));
    }

    /// Deletes `n` cells at the cursor.
    fn delete_chars(&mut self, n: usize)
        requires
            old(self).wf(),
            n <= u16::MAX,
        ensures
            final(self).wf(),
            final(self)@ == delete_chars_m(old(self)@, n as int),
    {
        proof {
            self.lemma_shape();
        }
        let ghost m = self@;
        if self.cursor.row < self.rows {
            let row = self.cursor.row;
            let col = self.cursor.col;
            let cols = self.cols;
            assert(self.grid@[row as int]@ == m.grid[row as int]);
            delete_cells_in(&mut self.grid[row], col, n, cols);
            assert(rows_of(self.grid@) =~= m.grid.update(row as int, delete_cells(m.grid[row as int], col as int, n as int)));
        }
        assert(self@ =~= delete_chars_m(m, n as int));
    }

    /// Inserts `n` empty cells at the cursor.
    fn insert_chars(&mut self, n: usize)
        requires
            old(self).wf(),
            n <= u16::MAX,
        ensures
            final(self).wf(),
            final(self)@ == insert_chars_m(old(self)@, n as int),
    {
        proof {
            self.lemma_shape();
        }
        let ghost m = self@;
        if self.cursor.row < self.rows {
            let row = self.cursor.row;
            let col = self.cursor.col;
            let cols = self.cols;
            assert(self.grid@[row as int]@ == m.grid[row as int]);
            insert_cells_in(&mut self.grid[row], col, n, cols);
            assert(rows_of(self.grid@) =~= m.grid.update(row as int, insert_cells(m.grid[row as int], col as int, n as int)));
        }
        assert(self@ =~= insert_chars_m(m, n as int));
    }

    /// Deletes `n` lines at the cursor's row.
    fn delete_lines(&mut self, n: usize)
        requires
            old(self).wf(),
            old(self).rows > 0 || old(self).cursor.row > old(self).scroll_region.1,
        ensures
            final(self).wf(),
            final(self)@ == delete_lines_m(old(self)@, n as nat),
    {
        proof {
            self.lemma_shape();
        }
        let ghost m = self@;
        let bottom = self.scroll_region.1;
        let row = self.cursor.row;
        let cols = self.cols;
        if row <= bottom {
            let mut i: usize = 0;
            while i < n
                invariant
                    i <= n,
                    row <= bottom < self.grid@.len(),
                    self.grid@.len() == m.grid.len(),
                    cols == m.cols,
                    rows_of(self.grid@) == shift_up_n(m.grid, row as int, bottom as int, blank_row(m.cols), i as nat),
                    self@ == with_grid(m, rows_of(self.grid@)),
                decreases n - i,
            {
                delete_line_at(&mut self.grid, row, bottom, cols);
                i += 1;
            }
        }
        proof {
            if m.cursor.row <= m.bottom {
                lemma_shift_n_shape(m.grid, m.cursor.row as int, m.bottom as int, m.cols, n as nat);
            }
        }
        assert(self@ =~= delete_lines_m(m, n as nat));
    }

    /// Inserts `n` empty lines at the cursor's row.
    fn insert_lines(&mut self, n: usize)
        requires
            old(self).wf(),
            old(self).rows > 0 || old(self).cursor.row > old(self).scroll_region.1,
        ensures
            final(self).wf(),
            final(self)@ == insert_lines_m(old(self)@, n as nat),
    {
        proof {
            self.lemma_shape();
        }
        let ghost m = self@;
        let bottom = self.scroll_region.1;
        let row = self.cursor.row;
        let cols = self.cols;
        if row <= bottom {
            let mut i: usize = 0;
            while i < n
                invariant
                    i <= n,
                    row <= bottom < self.grid@.len(),
                    self.grid@.len() == m.grid.len(),
                    cols == m.cols,
                    rows_of(self.grid@) == shift_down_n(m.grid, row as int, bottom as int, blank_row(m.cols), i as nat),
                    self@ == with_grid(m, rows_of(self.grid@)),
                decreases n - i,
            {
                insert_line_at(&mut self.grid, row, bottom, cols);
                i += 1;
            }
        }
        proof {
            if m.cursor.row <= m.bottom {
                lemma_shift_n_shape(m.grid, m.cursor.row as int, m.bottom as int, m.cols, n as nat);
            }
        }
        assert(self@ =~= insert_lines_m(m, n as nat));
    }

    /// Scrolls the region up `n` lines.
    fn scroll_up_lines(&mut self, n: usize)
        requires
            old(self).wf(),
        ensures
            final(self).wf(),
            final(self)@ == scroll_up_times(old(self)@, n as nat),
    {
        let ghost m = self@;
        let mut i: usize = 0;
        while i < n
            invariant
                i <= n,
                self.wf(),
                self@ == scroll_up_times(m, i as nat),
            decreases n - i,
        {
            self.scroll_up();
            i += 1;
        }
    }

    /// Scrolls the region down `n` lines.
    fn scroll_down_lines(&mut self, n: usize)
        requires
            old(self).wf(),
        ensures
            final(self).wf(),
            final(self)@ == scroll_down_times(old(self)@, n as nat),
    {
        let ghost m = self@;
        let mut i: usize = 0;
        while i < n
            invariant
                i <= n,
                self.wf(),
                self@ == scroll_down_times(m, i as nat),
            decreases n - i,
        {
            self.scroll_down();
            i += 1;
        }
    }

    /// Changes the size of the screen, keeping the cells that fit.
    pub fn resize(&mut self, new_rows: usize, new_cols: usize)
        requires
            old(self).wf(),
            new_rows <= isize::MAX,
            new_cols <= isize::MAX,
        ensures
            final(self).wf(),
            final(self)@ == resize_m(old(self)@, new_rows as nat, new_cols as nat),
    {
        if new_rows == self.rows && new_cols == self.cols {
            return;
        }
        let ghost m = self@;
        let mut new_grid: Vec<Vec<Cell>> = Vec::new();
        let mut r: usize = 0;
        while r < new_rows
            invariant
                r <= new_rows,
                rows_of(self.grid@) == m.grid,
                rows_of(new_grid@) == resized_grid(m.grid, new_rows as nat, new_cols as nat).take(r as int),
            decreases new_rows - r,
        {
            let mut line: Vec<Cell> = Vec::new();
            let mut c: usize = 0;
            while c < new_cols
                invariant
                    c <= new_cols,
                    r < new_rows,
                    rows_of(self.grid@) == m.grid,
                    line@ == resized_grid(m.grid, new_rows as nat, new_cols as nat)[r as int].take(c as int),
                decreases new_cols - c,
            {
                let cell = if r < self.grid.len() && c < self.grid[r].len() {
                    assert(self.grid@[r as int]@ == m.grid[r as int]);
                    self.grid[r][c]
                } else {
                    Cell::default()
                };
                line.push(cell);
                c += 1;
                assert(line@ =~= resized_grid(m.grid, new_rows as nat, new_cols as nat)[r as int].take(c as int));
            }
            assert(line@ =~= resized_grid(m.grid, new_rows as nat, new_cols as nat)[r as int]);
            let ghost before = new_grid@;
            assert(rows_of(before).len() == before.len());
            new_grid.push(line);
            r += 1;
            assert(rows_of(new_grid@) =~= resized_grid(m.grid, new_rows as nat, new_cols as nat).take(r as int)) by {
                assert forall|k: int| 0 <= k < r - 1 implies #[trigger] rows_of(new_grid@)[k] == rows_of(before)[k] by {}
            }
        }
        self.grid = new_grid;
        self.rows = new_rows;
        self.cols = new_cols;
        self.scroll_region = (0, new_rows.saturating_sub(1));
        let last_row = new_rows.saturating_sub(1);
        let last_col = new_cols.saturating_sub(1);
        self.cursor.row = if self.cursor.row < last_row { self.cursor.row } else { last_row };
        self.cursor.col = if self.cursor.col < last_col { self.cursor.col } else { last_col };
        assert(resized_grid(m.grid, new_rows as nat, new_cols as nat).take(new_rows as int)
            =~= resized_grid(m.grid, new_rows as nat, new_cols as nat));
        assert(self@ =~= resize_m(m, new_rows as nat, new_cols as nat));
    }

    /// The visible rows.
    pub fn visible_rows(&self) -> (r: &Vec<Vec<Cell>>)
        ensures
            rows_of(r@) == self@.grid,
    {
        &self.grid
    }

    /// Moves the view into the scrollback by `delta` lines (down when
    /// negative).
    pub fn scroll_view(&mut self, delta: isize)
        requires
            old(self).wf(),
            delta > isize::MIN,
        ensures
            final(self).wf(),
            final(self)@ == scroll_view_m(old(self)@, delta as int),
    {
        let max_offset = self.scrollback.len();
        if delta > 0 {
            let moved = self.scroll_offset + delta as usize;
            self.scroll_offset = if moved < max_offset { moved } else { max_offset };
        } else {
            self.scroll_offset = self.scroll_offset.saturating_sub((-delta) as usize);
        }
        assert(self@ =~= scroll_view_m(old(self)@, delta as int));
    }

    /// Brings the view back to the bottom.
    pub fn scroll_to_bottom(&mut self)
        requires
            old(self).wf(),
        ensures
            final(self).wf(),
            final(self)@ == (TermView { scroll_offset: 0, ..old(self)@ }),
    {
        self.scroll_offset = 0;
        assert(self@ =~= (TermView { scroll_offset: 0, ..old(self)@ }));
    }

    /// Applies graphic rendition codes to the attributes of text written next.
    fn apply_sgr(&mut self, params: &[Vec<u16>])
        requires
            old(self).wf(),
        ensures
            final(self).wf(),
            final(self)@ == (TermView { attrs: sgr_m(param_views(params@), 0, old(self)@.attrs), ..old(self)@ }),
    {
        let ghost ps = param_views(params@);
        let ghost m = self@;
        let mut a = self.current_attrs;
        let mut i: usize = 0;
        while i < params.len()
            invariant
                i <= params@.len(),
                ps == param_views(params@),
                sgr_m(ps, i as int, a) == sgr_m(ps, 0, m.attrs),
            decreases params@.len() - i,
        {
            assert(params@[i as int]@ == ps[i as int]);
            let code = first_value(&params[i]);
            if code == 38 || code == 48 {
                let (c, next) = extended(params, i + 1);
                match c {
                    Some(col) => {
                        if code == 38 {
                            a.fg = col;
                        } else {
                            a.bg = col;
                        }
                    },
                    None => {},
                }
                i = next;
            } else {
                a = apply_code(a, code);
                i += 1;
            }
        }
        self.current_attrs = a;
        assert(self@ =~= (TermView { attrs: sgr_m(ps, 0, m.attrs), ..m }));
    }

    /// Carries out a control sequence: cursor moves, erasures, line and
    /// character insertion and deletion, graphic rendition, the scroll
    /// region, cursor save and restore, and scrolling. Others are ignored.
    pub fn csi_dispatch(&mut self, params: &[Vec<u16>], action: char)
        requires
            old(self).wf(),
            csi_ok(old(self)@, param_views(params@), action),
        ensures
            final(self).wf(),
            final(self)@ == csi_m(old(self)@, param_views(params@), action),
    {
        let ghost m = self@;
        let ghost ps = param_views(params@);
        let n = param(params, 0, 1);
        let row = self.cursor.row;
        let col = self.cursor.col;
        if action == 'A' {
            self.cursor.row = row.saturating_sub(n);
        } else if action == 'B' {
            let t = row + n;
            self.cursor.row = if t < self.rows - 1 { t } else { self.rows - 1 };
        } else if action == 'C' {
            let t = col + n;
            self.cursor.col = if t < self.cols - 1 { t } else { self.cols - 1 };
        } else if action == 'D' {
            self.cursor.col = col.saturating_sub(n);
        } else if action == 'E' {
            let t = row + n;
            self.cursor.row = if t < self.rows - 1 { t } else { self.rows - 1 };
            self.cursor.col = 0;
        } else if action == 'F' {
            self.cursor.row = row.saturating_sub(n);
            self.cursor.col = 0;
        } else if action == 'G' {
            self.cursor.col = if n - 1 < self.cols - 1 { n - 1 } else { self.cols - 1 };
        } else if action == 'H' || action == 'f' {
            let r = param(params, 0, 1).saturating_sub(1);
            let c = param(params, 1, 1).saturating_sub(1);
            self.cursor.row = if r < self.rows - 1 { r } else { self.rows - 1 };
            self.cursor.col = if c < self.cols - 1 { c } else { self.cols - 1 };
        } else if action == 'J' {
            let p = param(params, 0, 0);
            if p == 0 {
                self.clear_to_eos();
            } else if p == 1 {
                self.clear_to_bos();
            } else if p == 2 || p == 3 {
                self.clear_screen();
            }
        } else if action == 'K' {
            let p = param(params, 0, 0);
            if p == 0 {
                self.clear_to_eol();
            } else if p == 1 {
                self.clear_line_start();
            } else if p == 2 {
                self.clear_line();
            }
        } else if action == 'L' {
            self.insert_lines(n);
        } else if action == 'M' {
            self.delete_lines(n);
        } else if action == 'P' {
            self.delete_chars(n);
        } else if action == 'X' {
            self.erase_chars(n);
        } else if action == 'd' {
            self.cursor.row = if n - 1 < self.rows - 1 { n - 1 } else { self.rows - 1 };
        } else if action == 'm' {
            self.apply_sgr(params);
        } else if action == 'r' {
            let top = param(params, 0, 1).saturating_sub(1);
            let bottom = param(params, 1, self.rows).saturating_sub(1);
            if top < bottom && bottom < self.rows {
                self.scroll_region = (top, bottom);
                self.cursor.row = 0;
                self.cursor.col = 0;
            }
        } else if action == 's' {
            self.saved_cursor = Some(self.cursor);
        } else if action == 'u' {
            match self.saved_cursor {
                Some(saved) => {
                    self.cursor = saved;
                },
                None => {},
            }
        } else if action == 'S' {
            self.scroll_up_lines(n);
        } else if action == 'T' {
            self.scroll_down_lines(n);
        } else if action == '@' {
            self.insert_chars(n);
        }
        assert(self@ =~= csi_m(m, ps, action));
    }

    /// Carries out an escape sequence.
    pub fn esc_dispatch(&mut self, byte: u8)
        requires
            old(self).wf(),
        ensures
            final(self).wf(),
            final(self)@ == esc_m(old(self)@, byte),
    {
        let ghost m = self@;
        if byte == 0x37 {
            self.saved_cursor = Some(self.cursor);
        } else if byte == 0x38 {
            match self.saved_cursor {
                Some(saved) => {
                    self.cursor = saved;
                },
                None => {},
            }
        } else if byte == 0x44 {
            if self.cursor.row >= self.scroll_region.1 {
                self.scroll_up();
            } else {
                self.cursor.row += 1;
            }
        } else if byte == 0x45 {
            self.cursor.col = 0;
            if self.cursor.row >= self.scroll_region.1 {
                self.scroll_up();
            } else {
                self.cursor.row += 1;
            }
        } else if byte == 0x4d {
            if self.cursor.row <= self.scroll_region.0 {
                self.scroll_down();
            } else {
                self.cursor.row -= 1;
            }
        } else if byte == 0x63 {
            *self = TerminalState::new(self.rows, self.cols);
        }
        assert(self@ =~= esc_m(m, byte));
    }

    /// Carries out a control character.
    pub fn execute(&mut self, byte: u8)
        requires
            old(self).wf(),
            byte == 0x09 ==> old(self)@.cols > 0,
        ensures
            final(self).wf(),
            final(self)@ == execute_m(old(self)@, byte),
    {
        if byte == 0x08 {
            self.backspace();
        } else if byte == 0x09 {
            self.tab();
        } else if byte == 0x0a || byte == 0x0b || byte == 0x0c {
            self.newline();
        } else if byte == 0x0d {
            self.carriage_return();
        }
    }

    /// Writes a printable character.
    pub fn print(&mut self, c: char)
        requires
            old(self).wf(),
        ensures
            final(self).wf(),
            final(self)@ == put_char_m(old(self)@, c),
    {
        self.put_char(c);
    }
}

} // verus!
