//! Writing a grid back out as text, and how that text relates to the text a
//! grid was read from.

use vstd::prelude::*;
use crate::grid::{Grid, GridView};
use crate::loader::{depicts, lemma_row_end, lines, lines_from, rectangular, row_end};
use crate::tile::Point;

verus! {

/// The rows one after another, each followed by a line break.
pub open spec fn joined(rows: Seq<Seq<char>>) -> Seq<char>
    decreases rows.len(),
{
    if rows.len() == 0 {
        Seq::empty()
    } else {
        rows.first().push('\n') + joined(rows.drop_first())
    }
}

/// The text with a line break at its end, added where it has none.
pub open spec fn terminated(text: Seq<char>) -> Seq<char> {
    if text.len() > 0 && text.last() != '\n' {
        text.push('\n')
    } else {
        text
    }
}

impl GridView {
    /// The markers of row `y`, from left to right.
    pub open spec fn markers(self, y: int) -> Seq<char> {
        Seq::new(self.width, |x: int| self.tile(x, y).id)
    }

    /// The markers of all rows, from top to bottom.
    pub open spec fn rows(self) -> Seq<Seq<char>> {
        Seq::new(self.height, |y: int| self.markers(y))
    }

    /// The grid as text: one line per row, one character per cell.
    pub open spec fn text(self) -> Seq<char> {
        joined(self.rows())
    }
}

/// `String::push` of the standard library appends the character to the end
/// of the string.
pub assume_specification[ String::push ](text: &mut String, ch: char)
    ensures
        final(text)@ == old(text)@.push(ch),
;

impl Grid {
    /// The grid as text: one line per row, one character per cell.
    pub fn render(&self) -> (text: String)
        requires
            self.wf(),
        ensures
            text@ == self@.text(),
    {
        let mut text = String::new();
        let ghost rows = self@.rows();
        let mut y: usize = 0;
        assert(rows.skip(0) =~= rows);
        while y < self.height()
            invariant
                self.wf(),
                rows == self@.rows(),
                y <= self@.height,
                text@ + joined(rows.skip(y as int)) == joined(rows),
            decreases self@.height - y,
        {
            let ghost before = text@;
            let mut x: usize = 0;
            while x < self.width()
                invariant
                    self.wf(),
                    y < self@.height,
                    x <= self@.width,
                    text@ == before + self@.markers(y as int).take(x as int),
                decreases self@.width - x,
            {
                let at = Point::new(x, y);
                match self.at(&at) {
                    Some(tile) => {
                        text.push(tile.id);
                    },
                    None => {},
                }
                assert(self@.markers(y as int).take(x + 1) =~= self@.markers(y as int).take(
                    x as int,
                ).push(self@.tile(x as int, y as int).id));
                x += 1;
            }
            text.push('\n');
            proof {
                let row = self@.markers(y as int);
                assert(row.take(x as int) =~= row);
                assert(rows.skip(y as int).first() == row);
                assert(rows.skip(y as int).drop_first() =~= rows.skip(y + 1));
                assert(text@ + joined(rows.skip(y + 1)) =~= before + (row.push('\n') + joined(
                    rows.skip(y + 1),
                )));
            }
            y += 1;
        }
        assert(text@ + joined(rows.skip(y as int)) =~= text@);
        text
    }
}

/// A grid that depicts rows of equal length has exactly those rows: reading
/// the markers back row by row gives what was read in.
pub proof fn lemma_rows_of_depicted(grid: GridView, rows: Seq<Seq<char>>)
    requires
        rectangular(rows),
        depicts(grid, rows),
    ensures
        grid.rows() == rows,
{
    assert forall|y: int| 0 <= y < rows.len() implies grid.rows()[y] == rows[y] by {
        assert forall|x: int| 0 <= x < rows[y].len() implies grid.markers(y)[x] == rows[y][x] by {
            assert(grid.in_bounds(x, y));
            assert(grid.tile(x, y).id == rows[y][x]);
        }
        assert(grid.markers(y) =~= rows[y]);
    }
    assert(grid.rows() =~= rows);
}

/// Joining the rows of a text from a row's start on gives back the rest of
/// the text, with a line break added at the end where the text has none.
pub proof fn lemma_joined_lines_from(text: Seq<char>, pos: int)
    requires
        0 <= pos <= text.len(),
        pos == 0 || text[pos - 1] == '\n',
    ensures
        joined(lines_from(text, pos)) == text.subrange(pos, text.len() as int) + (if pos
            < text.len() && text.last() != '\n' {
            seq!['\n']
        } else {
            Seq::empty()
        }),
    decreases text.len() - pos,
{
    let len = text.len() as int;
    if pos < len {
        lemma_row_end(text, pos);
        let end = row_end(text, pos);
        let row = text.subrange(pos, end);
        let rest = lines_from(text, end + 1);
        assert(lines_from(text, pos) == seq![row] + rest);
        assert((seq![row] + rest).first() == row);
        assert((seq![row] + rest).drop_first() =~= rest);
        if end < len {
            lemma_joined_lines_from(text, end + 1);
            assert(row.push('\n') =~= text.subrange(pos, end + 1));
            assert(text.subrange(pos, end + 1) + text.subrange(end + 1, len) =~= text.subrange(
                pos,
                len,
            ));
            assert(joined(lines_from(text, pos)) =~= text.subrange(pos, len) + (if pos < len
                && text.last() != '\n' {
                seq!['\n']
            } else {
                Seq::empty()
            }));
        } else {
            assert(rest =~= Seq::<Seq<char>>::empty());
            assert(joined(rest) =~= Seq::<char>::empty());
            assert(text[len - 1] != '\n');
            assert(joined(lines_from(text, pos)) =~= text.subrange(pos, len) + seq!['\n']);
        }
    } else {
        assert(joined(lines_from(text, pos)) =~= text.subrange(pos, len));
    }
}

/// Joining the rows of a text gives the text back, with a line break added
/// at the end where it has none.
pub proof fn lemma_joined_lines(text: Seq<char>)
    ensures
        joined(lines(text)) == terminated(text),
{
    lemma_joined_lines_from(text, 0);
    assert(text.subrange(0, text.len() as int) =~= text);
    assert(joined(lines(text)) =~= terminated(text));
}

/// Round trip: a grid read from a text renders as that text, with a line
/// break added at the end where the text has none.
pub proof fn lemma_render_of_loaded(grid: GridView, text: Seq<char>)
    requires
        rectangular(lines(text)),
        depicts(grid, lines(text)),
    ensures
        grid.rows() == lines(text),
        grid.text() == terminated(text),
{
    lemma_rows_of_depicted(grid, lines(text));
    lemma_joined_lines(text);
}

} // verus!
