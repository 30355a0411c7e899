//! Reading a grid from text: one row per line, one cell per character.

use vstd::prelude::*;
use crate::grid::{lemma_index_in_range, lemma_index_injective, Grid, GridView};
use crate::render::{lemma_render_of_loaded, terminated};
use crate::tile::Tile;

verus! {

/// Where the row that starts at `pos` ends: at the next line break, or at
/// the end of the text.
pub open spec fn row_end(text: Seq<char>, pos: int) -> int
    decreases text.len() - pos,
{
    if pos >= text.len() || text[pos] == '\n' {
        pos
    } else {
        row_end(text, pos + 1)
    }
}

/// The rows of the text from `pos` on. Every line break ends a row; text
/// after the last line break is a row as well, unless it is empty.
pub open spec fn lines_from(text: Seq<char>, pos: int) -> Seq<Seq<char>>
    decreases text.len() - pos + 1,
    when 0 <= pos
    via lines_from_decreases
{
    if pos >= text.len() {
        Seq::empty()
    } else {
        seq![text.subrange(pos, row_end(text, pos))] + lines_from(text, row_end(text, pos) + 1)
    }
}

#[via_fn]
proof fn lines_from_decreases(text: Seq<char>, pos: int) {
    if pos < text.len() {
        lemma_row_end(text, pos);
    }
}

/// The rows of a text.
pub open spec fn lines(text: Seq<char>) -> Seq<Seq<char>> {
    lines_from(text, 0)
}

/// There is at least one row, and all rows are as long as the first.
pub open spec fn rectangular(rows: Seq<Seq<char>>) -> bool {
    &&& rows.len() > 0
    &&& forall|y: int| 0 <= y < rows.len() ==> (#[trigger] rows[y]).len() == rows[0].len()
}

/// The grid holds one cell of weight 1 for every character of the rows, the
/// character being its marker.
pub open spec fn depicts(grid: GridView, rows: Seq<Seq<char>>) -> bool {
    &&& rows.len() > 0
    &&& grid.width == rows[0].len()
    &&& grid.height == rows.len()
    &&& forall|x: int, y: int|
        grid.in_bounds(x, y) ==> #[trigger] grid.tile(x, y) == (Tile { id: rows[y][x], weight: 1 })
}

/// A row ends at or after its start, inside the text, at the first line
/// break there is.
pub proof fn lemma_row_end(text: Seq<char>, pos: int)
    requires
        0 <= pos <= text.len(),
    ensures
        pos <= row_end(text, pos) <= text.len(),
        row_end(text, pos) < text.len() ==> text[row_end(text, pos)] == '\n',
        forall|k: int| pos <= k < row_end(text, pos) ==> text[k] != '\n',
    decreases text.len() - pos,
{
    if pos < text.len() && text[pos] != '\n' {
        lemma_row_end(text, pos + 1);
    }
}

/// A stretch without a line break that stops at a line break or at the end
/// of the text is a row.
pub proof fn lemma_row_end_is(text: Seq<char>, pos: int, end: int)
    requires
        0 <= pos <= end <= text.len(),
        forall|k: int| pos <= k < end ==> text[k] != '\n',
        end < text.len() ==> text[end] == '\n',
    ensures
        row_end(text, pos) == end,
    decreases end - pos,
{
    if pos < end {
        lemma_row_end_is(text, pos + 1, end);
    }
}

/// No row holds a line break.
pub proof fn lemma_rows_hold_no_break(text: Seq<char>, pos: int)
    requires
        0 <= pos,
    ensures
        forall|y: int, x: int|
            0 <= y < lines_from(text, pos).len() && 0 <= x < lines_from(text, pos)[y].len()
                ==> #[trigger] lines_from(text, pos)[y][x] != '\n',
    decreases text.len() - pos + 1,
{
    if pos < text.len() {
        lemma_row_end(text, pos);
        let end = row_end(text, pos);
        let rest = lines_from(text, end + 1);
        lemma_rows_hold_no_break(text, end + 1);
        assert forall|y: int, x: int|
            0 <= y < lines_from(text, pos).len() && 0 <= x < lines_from(text, pos)[y].len()
            implies #[trigger] lines_from(text, pos)[y][x] != '\n' by {
            if y > 0 {
                assert(lines_from(text, pos)[y] == rest[y - 1]);
                assert(rest[y - 1][x] != '\n');
            }
        }
    }
}

/// The characters of a text, in order.
pub fn read_chars(text: &str) -> (chars: Vec<char>)
    ensures
        chars@ == text@,
{
    let mut chars: Vec<char> = Vec::new();
    for c in it: text.chars()
        invariant
            it.seq() == text@,
            chars@ == it.seq().take(it.index()),
    {
        chars.push(c);
        assert(it.seq().take(it.index() + 1) =~= it.seq().take(it.index()).push(c));
    }
    assert(text@.take(text@.len() as int) =~= text@);
    chars
}

/// The rows held by a vector of vectors.
pub open spec fn rows_view(rows: Seq<Vec<char>>) -> Seq<Seq<char>> {
    rows.map_values(|row: Vec<char>| row@)
}

/// Cuts a text into its rows.
pub fn split_rows(chars: &Vec<char>) -> (rows: Vec<Vec<char>>)
    ensures
        rows_view(rows@) == lines(chars@),
{
    let mut rows: Vec<Vec<char>> = Vec::new();
    let mut row: Vec<char> = Vec::new();
    let ghost mut start: int = 0;
    let mut i: usize = 0;
    assert(rows_view(rows@) + lines_from(chars@, 0) =~= lines(chars@));
    while i < chars.len()
        invariant
            0 <= start <= i <= chars.len(),
            row@ == chars@.subrange(start, i as int),
            forall|k: int| start <= k < i ==> chars@[k] != '\n',
            lines(chars@) == rows_view(rows@) + lines_from(chars@, start),
        decreases chars.len() - i,
    {
        let c = chars[i];
        if c == '\n' {
            proof {
                lemma_row_end_is(chars@, start, i as int);
                assert(rows_view(rows@.push(row)) =~= rows_view(rows@).push(row@));
                assert(rows_view(rows@).push(row@) + lines_from(chars@, i + 1) =~= rows_view(rows@)
                    + (seq![row@] + lines_from(chars@, i + 1)));
                start = i + 1;
            }
            rows.push(row);
            row = Vec::new();
            assert(row@ =~= chars@.subrange(start, i + 1));
        } else {
            row.push(c);
            assert(row@ =~= chars@.subrange(start, i + 1));
        }
        i += 1;
    }
    if row.len() > 0 {
        proof {
            lemma_row_end_is(chars@, start, chars.len() as int);
            assert(rows_view(rows@.push(row)) =~= rows_view(rows@).push(row@));
            assert(rows_view(rows@).push(row@) =~= rows_view(rows@) + (seq![row@] + lines_from(
                chars@,
                chars.len() + 1,
            )));
        }
        rows.push(row);
    } else {
        assert(rows_view(rows@) + lines_from(chars@, start) =~= rows_view(rows@));
    }
    rows
}

/// Reads a grid from text. Each line is a row and each character a cell of
/// weight 1 with that character as its marker. Text without rows, or with
/// rows of different lengths, gives nothing.
pub fn generate_ascii_map(ascii_map: &str) -> (grid: Option<Grid>)
    ensures
        grid is Some <==> rectangular(lines(ascii_map@)),
        grid matches Some(g) ==> {
            &&& g.wf()
            &&& depicts(g@, lines(ascii_map@))
            &&& g@.rows() == lines(ascii_map@)
            &&& g@.text() == terminated(ascii_map@)
        },
{
    let chars = read_chars(ascii_map);
    let rows = split_rows(&chars);
    let ghost text = lines(ascii_map@);
    let height = rows.len();
    assert(forall|k: int| 0 <= k < rows.len() ==> (#[trigger] rows@[k])@ == text[k]);
    if height == 0 {
        return None;
    }
    let width = rows[0].len();
    let mut y: usize = 0;
    while y < height
        invariant
            y <= height,
            height == rows.len(),
            height == text.len(),
            width == text[0].len(),
            text == lines(ascii_map@),
            forall|k: int| 0 <= k < rows.len() ==> (#[trigger] rows@[k])@ == text[k],
            forall|k: int| 0 <= k < y ==> (#[trigger] text[k]).len() == width,
        decreases height - y,
    {
        if rows[y].len() != width {
            assert(text[y as int].len() != text[0].len());
            return None;
        }
        y += 1;
    }
    let mut tiles: Vec<Tile> = Vec::new();
    y = 0;
    while y < height
        invariant
            y <= height,
            height == rows.len(),
            height == text.len(),
            rectangular(text),
            width == text[0].len(),
            forall|k: int| 0 <= k < rows.len() ==> (#[trigger] rows@[k])@ == text[k],
            tiles.len() == y * width,
            forall|xx: int, yy: int|
                0 <= xx < width && 0 <= yy < height && yy * width + xx < tiles.len() ==> tiles@[yy * width
                    + xx] == (Tile { id: #[trigger] text[yy][xx], weight: 1 }),
        decreases height - y,
    {
        let mut x: usize = 0;
        while x < width
            invariant
                x <= width,
                y < height,
                height == rows.len(),
                height == text.len(),
                rectangular(text),
                width == text[0].len(),
                forall|k: int| 0 <= k < rows.len() ==> (#[trigger] rows@[k])@ == text[k],
                tiles.len() == y * width + x,
                forall|xx: int, yy: int|
                    0 <= xx < width && 0 <= yy < height && yy * width + xx < tiles.len() ==> tiles@[yy
                        * width + xx] == (Tile { id: #[trigger] text[yy][xx], weight: 1 }),
            decreases width - x,
        {
            let ghost before = tiles@;
            tiles.push(Tile::new(rows[y][x], 1));
            proof {
                assert forall|xx: int, yy: int|
                    0 <= xx < width && 0 <= yy < height && yy * width + xx < tiles.len() implies tiles@[yy
                    * width + xx] == (Tile { id: #[trigger] text[yy][xx], weight: 1 }) by {
                    if yy * width + xx == y * width + x {
                        lemma_index_injective(xx, yy, x as int, y as int, width as int);
                    } else {
                        assert(tiles@[yy * width + xx] == before[yy * width + xx]);
                    }
                }
            }
            x += 1;
        }
        assert((y + 1) * width == y * width + width) by (nonlinear_arith);
        y += 1;
    }
    assert(height * width == width * height) by (nonlinear_arith);
    let grid = Grid::from_tiles(width, height, tiles);
    proof {
        assert forall|x: int, y: int| grid@.in_bounds(x, y) implies #[trigger] grid@.tile(x, y) == (Tile {
            id: text[y][x],
            weight: 1,
        }) by {
            lemma_index_in_range(x, y, width as int, height as int);
        }
        lemma_render_of_loaded(grid@, ascii_map@);
    }
    Some(grid)
}

} // verus!
