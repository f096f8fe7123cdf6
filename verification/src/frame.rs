//! An owned snapshot of the terminal's viewport, handed from the terminal
//! thread to the renderer: rows of cells with colors and attributes, the
//! cursor, and the frame's default colors.

use vstd::prelude::*;
use std::sync::Arc;

verus! {

/// A 24-bit color.
#[derive(Clone, Copy, Debug, PartialEq, Eq, Structural)]
pub struct Rgb {
    pub r: u8,
    pub g: u8,
    pub b: u8,
}

impl Rgb {
    /// The color `0xRRGGBB`.
    pub fn from_u32(value: u32) -> (c: Self)
        ensures
            c.r == ((value >> 16u32) & 0xffu32) as u8,
            c.g == ((value >> 8u32) & 0xffu32) as u8,
            c.b == (value & 0xffu32) as u8,
    {
        Rgb {
            r: ((value >> 16u32) & 0xffu32) as u8,
            g: ((value >> 8u32) & 0xffu32) as u8,
            b: (value & 0xffu32) as u8,
        }
    }
}

/// Underline style.
#[derive(Clone, Copy, Debug, PartialEq, Eq, Structural)]
pub enum Underline {
    /// No underline.
    Off,
    Single,
    Double,
    Curly,
    Dotted,
    Dashed,
}

impl Default for Underline {
    fn default() -> (u: Underline)
        ensures
            u == Underline::Off,
    {
        Underline::Off
    }
}

/// Cell width class; spacer cells (the right half of a wide character) are
/// not drawn.
#[derive(Clone, Copy, Debug, PartialEq, Eq, Structural)]
pub enum CellWidth {
    Narrow,
    Wide,
    Spacer,
}

impl Default for CellWidth {
    fn default() -> (w: CellWidth)
        ensures
            w == CellWidth::Narrow,
    {
        CellWidth::Narrow
    }
}

/// Style attributes the renderer batches on.
#[derive(Clone, Copy, Debug, PartialEq, Eq, Structural)]
pub struct CellAttrs {
    pub bold: bool,
    pub italic: bool,
    pub faint: bool,
    pub inverse: bool,
    pub invisible: bool,
    pub strikethrough: bool,
    pub underline: Underline,
}

impl Default for CellAttrs {
    fn default() -> (a: CellAttrs)
        ensures
            !a.bold && !a.italic && !a.faint && !a.inverse && !a.invisible && !a.strikethrough,
            a.underline == Underline::Off,
    {
        CellAttrs {
            bold: false,
            italic: false,
            faint: false,
            inverse: false,
            invisible: false,
            strikethrough: false,
            underline: Underline::Off,
        }
    }
}

/// One rendered cell; `None` colors mean the frame's default.
#[derive(Clone, Copy, Debug)]
pub struct FrameCell {
    /// The base character, or a space for an empty cell.
    pub ch: char,
    pub fg: Option<Rgb>,
    pub bg: Option<Rgb>,
    pub attrs: CellAttrs,
    pub width: CellWidth,
}

impl Default for FrameCell {
    fn default() -> (c: FrameCell)
        ensures
            c.ch == ' ',
            c.fg is None,
            c.bg is None,
            c.attrs == (CellAttrs {
                bold: false,
                italic: false,
                faint: false,
                inverse: false,
                invisible: false,
                strikethrough: false,
                underline: Underline::Off,
            }),
            c.width == CellWidth::Narrow,
    {
        FrameCell { ch: ' ', fg: None, bg: None, attrs: CellAttrs::default(), width: CellWidth::Narrow }
    }
}

/// One row of a frame.
#[derive(Clone, Debug)]
pub struct FrameRow {
    pub cells: Vec<FrameCell>,
    /// Whole grapheme clusters by column, for the cells that have combining
    /// characters; other cells render as their `ch`.
    pub clusters: Vec<(u16, String)>,
    /// Selected column range, inclusive at both ends.
    pub selection: Option<(u16, u16)>,
}

/// The cluster recorded for column `col`: the first entry for it.
pub open spec fn cluster_at(clusters: Seq<(u16, String)>, col: u16) -> Option<Seq<char>>
    decreases clusters.len(),
{
    if clusters.len() == 0 {
        None
    } else if clusters[0].0 == col {
        Some(clusters[0].1@)
    } else {
        cluster_at(clusters.drop_first(), col)
    }
}

/// What cell `col` contributes to a row's text: nothing for a spacer, else
/// its cluster, else its character.
pub open spec fn cell_text(cells: Seq<FrameCell>, clusters: Seq<(u16, String)>, col: int) -> Seq<char> {
    if cells[col].width == CellWidth::Spacer {
        Seq::empty()
    } else {
        match cluster_at(clusters, col as u16) {
            Some(t) => t,
            None => seq![cells[col].ch],
        }
    }
}

/// The text of the first `n` cells of a row.
pub open spec fn row_text(cells: Seq<FrameCell>, clusters: Seq<(u16, String)>, n: int) -> Seq<char>
    decreases n,
{
    if n <= 0 {
        Seq::empty()
    } else {
        row_text(cells, clusters, n - 1) + cell_text(cells, clusters, n - 1)
    }
}

impl FrameRow {
    /// The grapheme cluster recorded for column `col`, if any.
    pub fn cluster(&self, col: u16) -> (r: Option<&str>)
        ensures
            match cluster_at(self.clusters@, col) {
                Some(t) => r is Some && r->0@ == t,
                None => r is None,
            },
    {
        let mut i: usize = 0;
        assert(self.clusters@.skip(0) =~= self.clusters@);
        while i < self.clusters.len()
            invariant
                i <= self.clusters@.len(),
                cluster_at(self.clusters@, col) == cluster_at(self.clusters@.skip(i as int), col),
            decreases self.clusters@.len() - i,
        {
            assert(self.clusters@.skip(i as int).drop_first() =~= self.clusters@.skip(i + 1));
            if self.clusters[i].0 == col {
                return Some(self.clusters[i].1.as_str());
            }
            i += 1;
        }
        None
    }

    /// The row's text with spacer cells left out, clusters in place of their
    /// cells; used to find URLs.
    pub fn text(&self) -> (s: String)
        ensures
            s@ == row_text(self.cells@, self.clusters@, self.cells@.len() as int),
    {
        let mut out: Vec<char> = Vec::new();
        let mut col: usize = 0;
        while col < self.cells.len()
            invariant
                col <= self.cells@.len(),
                out@ == row_text(self.cells@, self.clusters@, col as int),
            decreases self.cells@.len() - col,
        {
            let cell = self.cells[col];
            if cell.width != CellWidth::Spacer {
                let c16: u16 = #[verifier::truncate] (col as u16);
                match self.cluster(c16) {
                    Some(cluster) => {
                        let v = crate::text::chars_of(cluster);
                        crate::text::push_chars(&mut out, &v);
                    },
                    None => out.push(cell.ch),
                }
            }
            col += 1;
        }
        crate::text::string_from_chars(&out)
    }
}

/// Cursor shape.
#[derive(Clone, Copy, Debug, PartialEq, Eq, Structural)]
pub enum CursorStyle {
    Block,
    BlockHollow,
    Underline,
    Bar,
}

impl Default for CursorStyle {
    fn default() -> (s: CursorStyle)
        ensures
            s == CursorStyle::Block,
    {
        CursorStyle::Block
    }
}

/// The cursor's viewport position and shape.
#[derive(Clone, Copy, Debug)]
pub struct FrameCursor {
    /// Viewport column.
    pub x: u16,
    /// Viewport row.
    pub y: u16,
    pub style: CursorStyle,
}

/// A viewport snapshot; coordinates are relative to the viewport.
#[derive(Clone, Debug)]
pub struct Frame {
    pub rows: Arc<Vec<FrameRow>>,
    /// `None` while the cursor is hidden or outside the viewport.
    pub cursor: Option<FrameCursor>,
    pub foreground: Rgb,
    pub background: Rgb,
    pub cursor_color: Rgb,
    pub alt_screen: bool,
    pub mouse_tracking: bool,
    pub has_selection: bool,
}

impl Frame {
    /// The number of rows.
    pub fn line_count(&self) -> (n: usize)
        ensures
            n == self.rows@.len(),
    {
        self.rows.len()
    }
}

} // verus!
