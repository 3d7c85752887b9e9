//! The grid of characters and the grid of colors that a shader reads.

use vstd::prelude::*;
use crate::layout::StyledChar;
use crate::text::code_point;

verus! {

pub const TERMINAL_ROWS: usize = 30;

pub const TERMINAL_COLS: usize = 80;

/// The color of a cell that holds no character: white.
pub const DEFAULT_COLOR: u32 = 0xFFFFFF;

/// ASCII grid for terminal characters.
pub type TerminalGrid = [[u32; TERMINAL_COLS]; TERMINAL_ROWS];

/// Color grid for syntax highlighting (packed RGB).
pub type ColorGrid = [[u32; TERMINAL_COLS]; TERMINAL_ROWS];

/// Shader data containing characters and colors for GPU rendering.
#[derive(Debug, Clone)]
pub struct ShaderTextData {
    pub terminal_grid: TerminalGrid,
    pub color_grid: ColorGrid,
    pub rows_used: usize,
    pub cols_used: usize,
}

/// The color `0xRRGGBB`.
pub open spec fn pack_rgb(r: u8, g: u8, b: u8) -> u32 {
    (r as u32 * 0x10000 + g as u32 * 0x100 + b as u32) as u32
}

/// The smaller of two numbers.
pub open spec fn least(a: int, b: int) -> int {
    if a <= b {
        a
    } else {
        b
    }
}

/// The number of columns that the widest of the first `n` lines fills.
pub open spec fn widest(lines: Seq<Vec<StyledChar>>, n: int) -> int
    decreases n,
{
    if n <= 0 {
        0
    } else {
        let rest = widest(lines, n - 1);
        let here = least(lines[n - 1]@.len() as int, TERMINAL_COLS as int);
        if here > rest {
            here
        } else {
            rest
        }
    }
}

/// Whether the cell at `row`, `col` holds a character of the layout.
pub open spec fn filled(lines: Seq<Vec<StyledChar>>, row: int, col: int) -> bool {
    0 <= row < least(lines.len() as int, TERMINAL_ROWS as int) && 0 <= col < least(
        lines[row]@.len() as int,
        TERMINAL_COLS as int,
    )
}

/// The code point that the cell at `row`, `col` holds: that of the
/// character that the layout has there, or zero.
pub open spec fn cell_char(lines: Seq<Vec<StyledChar>>, row: int, col: int) -> u32 {
    if filled(lines, row, col) {
        lines[row]@[col].char as u32
    } else {
        0
    }
}

/// The color that the cell at `row`, `col` holds: that of the character
/// that the layout has there, or white.
pub open spec fn cell_color(lines: Seq<Vec<StyledChar>>, row: int, col: int) -> u32 {
    if filled(lines, row, col) {
        pack_rgb(lines[row]@[col].color.r, lines[row]@[col].color.g, lines[row]@[col].color.b)
    } else {
        DEFAULT_COLOR
    }
}

/// Packs a color as `0xRRGGBB`.
fn pack(r: u8, g: u8, b: u8) -> (c: u32)
    ensures
        c == pack_rgb(r, g, b),
{
    let c = ((r as u32) << 16) | ((g as u32) << 8) | (b as u32);
    assert(((r as u32) << 16) | ((g as u32) << 8) | (b as u32) == r as u32 * 0x10000 + g as u32
        * 0x100 + b as u32) by (bit_vector);
    c
}

/// The cells of `grid`, row after row.
fn flatten(grid: &[[u32; TERMINAL_COLS]; TERMINAL_ROWS]) -> (r: Vec<u32>)
    ensures
        r@.len() == TERMINAL_ROWS * TERMINAL_COLS,
        forall|row: int, col: int|
            0 <= row < TERMINAL_ROWS && 0 <= col < TERMINAL_COLS ==> r@[row * TERMINAL_COLS + col]
                == #[trigger] grid[row][col],
{
    let mut out: Vec<u32> = Vec::new();
    let mut row: usize = 0;
    while row < TERMINAL_ROWS
        invariant
            row <= TERMINAL_ROWS,
            out@.len() == row * TERMINAL_COLS,
            forall|a: int, b: int|
                0 <= a < row && 0 <= b < TERMINAL_COLS ==> out@[a * TERMINAL_COLS + b]
                    == #[trigger] grid[a][b],
        decreases TERMINAL_ROWS - row,
    {
        let mut col: usize = 0;
        while col < TERMINAL_COLS
            invariant
                row < TERMINAL_ROWS,
                col <= TERMINAL_COLS,
                out@.len() == row * TERMINAL_COLS + col,
                forall|a: int, b: int|
                    0 <= a < row && 0 <= b < TERMINAL_COLS ==> out@[a * TERMINAL_COLS + b]
                        == #[trigger] grid[a][b],
                forall|b: int|
                    0 <= b < col ==> out@[row * TERMINAL_COLS + b] == #[trigger] grid[row as int][b],
            decreases TERMINAL_COLS - col,
        {
            out.push(grid[row][col]);
            col = col + 1;
        }
        row = row + 1;
    }
    out
}

impl ShaderTextData {
    /// Create new empty shader text data.
    pub fn new() -> (r: Self)
        ensures
            r.rows_used == 0,
            r.cols_used == 0,
            forall|row: int, col: int|
                0 <= row < TERMINAL_ROWS && 0 <= col < TERMINAL_COLS ==> #[trigger] r.terminal_grid[row][col]
                    == 0,
            forall|row: int, col: int|
                0 <= row < TERMINAL_ROWS && 0 <= col < TERMINAL_COLS ==> #[trigger] r.color_grid[row][col]
                    == DEFAULT_COLOR,
    {
        Self {
            terminal_grid: [[0; TERMINAL_COLS]; TERMINAL_ROWS],
            color_grid: [[DEFAULT_COLOR; TERMINAL_COLS]; TERMINAL_ROWS],
            rows_used: 0,
            cols_used: 0,
        }
    }

    /// Generate shader data from the lines of a layout: the first
    /// `TERMINAL_ROWS` lines, and of each its first `TERMINAL_COLS`
    /// characters.
    pub fn from_layout(layout: &[Vec<StyledChar>]) -> (r: Self)
        ensures
            r.rows_used == least(layout@.len() as int, TERMINAL_ROWS as int),
            r.cols_used == widest(layout@, r.rows_used as int),
            forall|row: int, col: int|
                0 <= row < TERMINAL_ROWS && 0 <= col < TERMINAL_COLS ==> #[trigger] r.terminal_grid[row][col]
                    == cell_char(layout@, row, col),
            forall|row: int, col: int|
                0 <= row < TERMINAL_ROWS && 0 <= col < TERMINAL_COLS ==> #[trigger] r.color_grid[row][col]
                    == cell_color(layout@, row, col),
    {
        let mut data = Self::new();
        let mut row: usize = 0;
        while row < TERMINAL_ROWS && row < layout.len()
            invariant
                row <= TERMINAL_ROWS,
                row <= layout@.len(),
                data.cols_used == widest(layout@, row as int),
                data.cols_used <= TERMINAL_COLS,
                forall|a: int, b: int|
                    0 <= a < TERMINAL_ROWS && 0 <= b < TERMINAL_COLS
                        ==> #[trigger] data.terminal_grid[a][b] == if a < row {
                        cell_char(layout@, a, b)
                    } else {
                        0
                    },
                forall|a: int, b: int|
                    0 <= a < TERMINAL_ROWS && 0 <= b < TERMINAL_COLS
                        ==> #[trigger] data.color_grid[a][b] == if a < row {
                        cell_color(layout@, a, b)
                    } else {
                        DEFAULT_COLOR
                    },
            decreases TERMINAL_ROWS - row,
        {
            let line = &layout[row];
            let mut col: usize = 0;
            while col < TERMINAL_COLS && col < line.len()
                invariant
                    row < TERMINAL_ROWS,
                    row < layout@.len(),
                    line == layout@[row as int],
                    col <= TERMINAL_COLS,
                    col <= line@.len(),
                    data.cols_used == widest(layout@, row as int),
                    forall|a: int, b: int|
                        0 <= a < TERMINAL_ROWS && 0 <= b < TERMINAL_COLS
                            ==> #[trigger] data.terminal_grid[a][b] == if a < row || (a == row && b
                            < col) {
                            cell_char(layout@, a, b)
                        } else {
                            0
                        },
                    forall|a: int, b: int|
                        0 <= a < TERMINAL_ROWS && 0 <= b < TERMINAL_COLS
                            ==> #[trigger] data.color_grid[a][b] == if a < row || (a == row && b
                            < col) {
                            cell_color(layout@, a, b)
                        } else {
                            DEFAULT_COLOR
                        },
                decreases TERMINAL_COLS - col,
            {
                let styled = &line[col];
                data.terminal_grid[row][col] = code_point(styled.char);
                data.color_grid[row][col] = pack(styled.color.r, styled.color.g, styled.color.b);
                col = col + 1;
            }
            if col > data.cols_used {
                data.cols_used = col;
            }
            row = row + 1;
        }
        data.rows_used = row;
        data
    }

    /// Convert to flat buffer for GPU upload.
    pub fn to_terminal_buffer(&self) -> (r: Vec<u32>)
        ensures
            r@.len() == TERMINAL_ROWS * TERMINAL_COLS,
            forall|row: int, col: int|
                0 <= row < TERMINAL_ROWS && 0 <= col < TERMINAL_COLS ==> r@[row * TERMINAL_COLS
                    + col] == #[trigger] self.terminal_grid[row][col],
    {
        flatten(&self.terminal_grid)
    }

    /// Convert to flat color buffer for GPU upload.
    pub fn to_color_buffer(&self) -> (r: Vec<u32>)
        ensures
            r@.len() == TERMINAL_ROWS * TERMINAL_COLS,
            forall|row: int, col: int|
                0 <= row < TERMINAL_ROWS && 0 <= col < TERMINAL_COLS ==> r@[row * TERMINAL_COLS
                    + col] == #[trigger] self.color_grid[row][col],
    {
        flatten(&self.color_grid)
    }

    /// Get buffer sizes for GPU allocation, in bytes.
    pub fn buffer_size() -> (n: usize)
        ensures
            n == TERMINAL_ROWS * TERMINAL_COLS * 4,
    {
        TERMINAL_ROWS * TERMINAL_COLS * std::mem::size_of::<u32>()
    }
}

impl Default for ShaderTextData {
    fn default() -> (r: Self)
        ensures
            r.rows_used == 0,
            r.cols_used == 0,
            forall|row: int, col: int|
                0 <= row < TERMINAL_ROWS && 0 <= col < TERMINAL_COLS ==> #[trigger] r.terminal_grid[row][col]
                    == 0,
            forall|row: int, col: int|
                0 <= row < TERMINAL_ROWS && 0 <= col < TERMINAL_COLS ==> #[trigger] r.color_grid[row][col]
                    == DEFAULT_COLOR,
    {
        Self::new()
    }
}

} // verus!
