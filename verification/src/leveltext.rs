//! Level tile data as text: one row of the grid per line, the ids of a row
//! separated by commas, every row of the same length. Carriage returns are
//! ignored wherever they stand, and so is whatever follows the last
//! newline.

use crate::number::{
    int_text, is_digit, lemma_parse_int_text, parse_i32, push_int, read_i32,
};
use crate::tilemap::{lemma_cell_in_bounds, TileMap, TileStruct};
use vstd::prelude::*;

verus! {

/// The byte that ends a row.
pub const NEWLINE: u8 = 10;

/// The byte that is ignored.
pub const CARRIAGE_RETURN: u8 = 13;

/// The byte between two ids of a row.
pub const COMMA: u8 = 44;

/// The side of a tile of a grid read from text.
pub const TILE_SIZE: u32 = 8;

/// Why a text is not level tile data.
#[derive(Debug, Clone, Copy, PartialEq, Eq, Structural)]
pub enum LevelError {
    /// The field `field` of the line `line` is not a 32-bit number.
    BadNumber { line: usize, field: usize },
    /// The line `line` has another number of fields than the first line.
    RaggedRow { line: usize },
    /// The grid has more rows or columns than a 32-bit count holds.
    TooLarge,
}

/// The text `s` without its carriage returns.
pub open spec fn without_cr(s: Seq<u8>) -> Seq<u8>
    decreases s.len(),
{
    if s.len() == 0 {
        s
    } else if s.last() == CARRIAGE_RETURN {
        without_cr(s.drop_last())
    } else {
        without_cr(s.drop_last()).push(s.last())
    }
}

/// The pieces into which the separator `sep` cuts the text `s`: one more
/// than there are separators, the last of them what follows the last
/// separator.
pub open spec fn split(s: Seq<u8>, sep: u8) -> Seq<Seq<u8>>
    decreases s.len(),
{
    if s.len() == 0 {
        seq![Seq::<u8>::empty()]
    } else if s.last() == sep {
        split(s.drop_last(), sep).push(Seq::<u8>::empty())
    } else {
        split(s.drop_last(), sep).update(
            split(s.drop_last(), sep).len() - 1,
            split(s.drop_last(), sep).last().push(s.last()),
        )
    }
}

/// The numbers of the first `n` fields, or the index of the first field
/// among them that is not a number.
pub open spec fn fields_parsed(fields: Seq<Seq<u8>>, n: int) -> Result<Seq<i32>, int>
    decreases n,
{
    if n <= 0 {
        Ok(Seq::<i32>::empty())
    } else {
        match fields_parsed(fields, n - 1) {
            Err(bad) => Err(bad),
            Ok(values) => match parse_i32(fields[n - 1]) {
                None => Err(n - 1),
                Some(v) => Ok(values.push(v)),
            },
        }
    }
}

/// The ids of a line, or the index of its first field that is not a number.
pub open spec fn row_parsed(line: Seq<u8>) -> Result<Seq<i32>, int> {
    fields_parsed(split(line, COMMA), split(line, COMMA).len() as int)
}

/// The width and the ids of the first `n` lines, or the first error among
/// them: lines are taken in order, and in each line a field that is not a
/// number comes before a wrong number of fields.
pub open spec fn rows_parsed(lines: Seq<Seq<u8>>, n: int) -> Result<(int, Seq<i32>), LevelError>
    decreases n,
{
    if n <= 0 {
        Ok((0, Seq::<i32>::empty()))
    } else {
        match rows_parsed(lines, n - 1) {
            Err(e) => Err(e),
            Ok((width, ids)) => match row_parsed(lines[n - 1]) {
                Err(bad) => Err(
                    LevelError::BadNumber { line: (n - 1) as usize, field: bad as usize },
                ),
                Ok(values) => if n > 1 && values.len() != width {
                    Err(LevelError::RaggedRow { line: (n - 1) as usize })
                } else {
                    Ok((values.len() as int, ids + values))
                },
            },
        }
    }
}

/// The grid that a text describes, as its width, its height and its ids row
/// by row; or why the text describes none. The rows are the lines that end
/// in a newline.
pub open spec fn grid_parsed(text: Seq<u8>) -> Result<(int, int, Seq<i32>), LevelError> {
    let lines = split(without_cr(text), NEWLINE);
    match rows_parsed(lines, lines.len() - 1) {
        Err(e) => Err(e),
        Ok((width, ids)) => if width > u32::MAX || lines.len() - 1 > u32::MAX {
            Err(LevelError::TooLarge)
        } else {
            Ok((width, lines.len() - 1, ids))
        },
    }
}

/// The first `n` ids of a row as text, with commas between them.
pub open spec fn fields_text(ids: Seq<i32>, n: int) -> Seq<u8>
    decreases n,
{
    if n <= 0 {
        Seq::<u8>::empty()
    } else if n == 1 {
        int_text(ids[0] as int)
    } else {
        fields_text(ids, n - 1) + seq![COMMA] + int_text(ids[n - 1] as int)
    }
}

/// A row as text: its ids with commas between them, and a newline.
pub open spec fn row_text(ids: Seq<i32>) -> Seq<u8> {
    fields_text(ids, ids.len() as int) + seq![NEWLINE]
}

/// The row `y` of a grid of the given width.
pub open spec fn row_of(tiles: Seq<i32>, width: int, y: int) -> Seq<i32> {
    tiles.subrange(y * width, (y + 1) * width)
}

/// The first `rows` rows of a grid as text.
pub open spec fn grid_text(tiles: Seq<i32>, width: int, rows: int) -> Seq<u8>
    decreases rows,
{
    if rows <= 0 {
        Seq::<u8>::empty()
    } else {
        grid_text(tiles, width, rows - 1) + row_text(row_of(tiles, width, rows - 1))
    }
}

/// The fields before the `n`-th are read alike in two lists of fields that
/// agree on them.
pub proof fn lemma_fields_parsed_agree(a: Seq<Seq<u8>>, b: Seq<Seq<u8>>, n: int)
    requires
        n <= a.len(),
        n <= b.len(),
        forall|i: int| 0 <= i < n ==> a[i] == b[i],
    ensures
        fields_parsed(a, n) == fields_parsed(b, n),
    decreases n,
{
    if n > 0 {
        lemma_fields_parsed_agree(a, b, n - 1);
    }
}

/// The lines before the `n`-th are read alike in two lists of lines that
/// agree on them.
pub proof fn lemma_rows_parsed_agree(a: Seq<Seq<u8>>, b: Seq<Seq<u8>>, n: int)
    requires
        n <= a.len(),
        n <= b.len(),
        forall|i: int| 0 <= i < n ==> a[i] == b[i],
    ensures
        rows_parsed(a, n) == rows_parsed(b, n),
    decreases n,
{
    if n > 0 {
        lemma_rows_parsed_agree(a, b, n - 1);
    }
}

/// Cutting a text gives at least one piece.
pub proof fn lemma_split_nonempty(s: Seq<u8>, sep: u8)
    ensures
        split(s, sep).len() >= 1,
        split(s, sep).len() <= s.len() + 1,
    decreases s.len(),
{
    if s.len() > 0 {
        lemma_split_nonempty(s.drop_last(), sep);
    }
}

/// The ids that were read fill their rows: there are `width` of them for
/// each line.
pub proof fn lemma_rows_parsed_len(lines: Seq<Seq<u8>>, n: int)
    requires
        0 <= n <= lines.len(),
        rows_parsed(lines, n) is Ok,
    ensures
        rows_parsed(lines, n)->Ok_0.1.len() == rows_parsed(lines, n)->Ok_0.0 * n,
        rows_parsed(lines, n)->Ok_0.0 >= 0,
    decreases n,
{
    if n > 0 {
        lemma_rows_parsed_len(lines, n - 1);
        let (width, ids) = rows_parsed(lines, n - 1)->Ok_0;
        let values = row_parsed(lines[n - 1])->Ok_0;
        let (new_width, new_ids) = rows_parsed(lines, n)->Ok_0;
        assert(new_width == values.len());
        assert(new_ids.len() == ids.len() + values.len());
        if n > 1 {
            assert(width * (n - 1) + width == width * n) by (nonlinear_arith);
        } else {
            assert(width * (n - 1) == 0) by (nonlinear_arith)
                requires
                    n == 1,
            ;
            assert(new_width * n == new_width) by (nonlinear_arith)
                requires
                    n == 1,
            ;
        }
    } else {
        assert(0 * n == 0) by (nonlinear_arith);
    }
}

/// What reading a text has found of its current line: the numbers of the
/// fields that ended so far, or the first of them that was none.
struct LineState {
    row: Vec<i32>,
    bad_field: Option<usize>,
}

impl LineState {
    spec fn holds(&self, fields: Seq<Seq<u8>>) -> bool {
        &&& fields.len() >= 1
        &&& fields_parsed(fields, fields.len() - 1) == match self.bad_field {
            None => Ok::<Seq<i32>, int>(self.row@),
            Some(bad) => Err::<Seq<i32>, int>(bad as int),
        }
        &&& self.bad_field is None ==> self.row@.len() == fields.len() - 1
    }

    /// Takes in the field that just ended.
    fn end_field(&mut self, field: &Vec<u8>, Ghost(fields): Ghost<Seq<Seq<u8>>>)
        requires
            old(self).holds(fields),
            field@ == fields.last(),
        ensures
            fields_parsed(fields, fields.len() as int) == match final(self).bad_field {
                None => Ok::<Seq<i32>, int>(final(self).row@),
                Some(bad) => Err::<Seq<i32>, int>(bad as int),
            },
            final(self).bad_field is None ==> final(self).row@.len() == fields.len(),
    {
        if self.bad_field.is_none() {
            match read_i32(field.as_slice()) {
                None => {
                    self.bad_field = Some(self.row.len());
                },
                Some(v) => {
                    self.row.push(v);
                },
            }
        }
    }
}

impl TileMap {
    /// Reads a grid from level tile data. The tiles of the grid are
    /// [`TILE_SIZE`] units wide, and `unsupported_tile` becomes its
    /// stand-in definition.
    pub fn parse(text: &[u8], unsupported_tile: TileStruct) -> (r: Result<TileMap, LevelError>)
        requires
            unsupported_tile.wf(),
        ensures
            match grid_parsed(text@) {
                Err(e) => r is Err && r->Err_0 == e,
                Ok((width, height, ids)) => {
                    &&& r is Ok
                    &&& r->Ok_0.wf()
                    &&& r->Ok_0.tile_size == TILE_SIZE
                    &&& r->Ok_0.width == width
                    &&& r->Ok_0.height == height
                    &&& r->Ok_0.tiles@ == ids
                    &&& r->Ok_0.unsupported_tile == unsupported_tile
                },
            },
    {
        let n: usize = text.len();
        let mut field: Vec<u8> = Vec::new();
        let mut line = LineState { row: Vec::new(), bad_field: None };
        let mut tiles: Vec<i32> = Vec::new();
        let mut lines_done: usize = 0;
        let mut width: usize = 0;
        let mut error: Option<LevelError> = None;
        let ghost mut clean: Seq<u8> = Seq::empty();
        let ghost mut lines: Seq<Seq<u8>> = seq![Seq::<u8>::empty()];
        let ghost mut fields: Seq<Seq<u8>> = seq![Seq::<u8>::empty()];
        proof {
            assert(text@.subrange(0, 0) =~= Seq::<u8>::empty());
        }
        let mut i: usize = 0;
        while i < n
            invariant
                i <= n,
                n == text@.len(),
                clean == without_cr(text@.subrange(0, i as int)),
                lines == split(clean, NEWLINE),
                1 <= lines.len() <= i + 1,
                lines_done == lines.len() - 1,
                fields == split(lines.last(), COMMA),
                fields.len() <= i + 1,
                field@ == fields.last(),
                line.holds(fields),
                rows_parsed(lines, lines.len() - 1) == match error {
                    Some(e) => Err::<(int, Seq<i32>), LevelError>(e),
                    None => Ok::<(int, Seq<i32>), LevelError>((width as int, tiles@)),
                },
            decreases n - i,
        {
            let b: u8 = text[i];
            let ghost old_lines = lines;
            let ghost old_fields = fields;
            proof {
                let longer = text@.subrange(0, i + 1);
                assert(longer.drop_last() =~= text@.subrange(0, i as int));
                assert(longer.last() == b);
            }
            if b == CARRIAGE_RETURN {
            } else if b == NEWLINE {
                line.end_field(&field, Ghost(fields));
                proof {
                    clean = clean.push(b);
                    assert(clean.drop_last() =~= without_cr(text@.subrange(0, i as int)));
                    lines = old_lines.push(Seq::<u8>::empty());
                    fields = seq![Seq::<u8>::empty()];
                    lemma_rows_parsed_agree(old_lines, lines, old_lines.len() - 1);
                    assert(lines[old_lines.len() - 1] == old_lines.last());
                    assert(row_parsed(old_lines.last()) == fields_parsed(
                        old_fields,
                        old_fields.len() as int,
                    ));
                }
                if error.is_none() {
                    match line.bad_field {
                        Some(bad) => {
                            error = Some(LevelError::BadNumber { line: lines_done, field: bad });
                        },
                        None => {
                            if lines_done > 0 && line.row.len() != width {
                                error = Some(LevelError::RaggedRow { line: lines_done });
                            } else {
                                width = line.row.len();
                                tiles.append(&mut line.row);
                            }
                        },
                    }
                }
                lines_done += 1;
                field = Vec::new();
                line = LineState { row: Vec::new(), bad_field: None };
            } else if b == COMMA {
                line.end_field(&field, Ghost(fields));
                proof {
                    clean = clean.push(b);
                    assert(clean.drop_last() =~= without_cr(text@.subrange(0, i as int)));
                    let current = old_lines.last().push(b);
                    lines = old_lines.update(old_lines.len() - 1, current);
                    assert(current.drop_last() =~= old_lines.last());
                    fields = old_fields.push(Seq::<u8>::empty());
                    lemma_rows_parsed_agree(old_lines, lines, old_lines.len() - 1);
                    lemma_fields_parsed_agree(old_fields, fields, old_fields.len() as int);
                }
                field = Vec::new();
            } else {
                field.push(b);
                proof {
                    clean = clean.push(b);
                    assert(clean.drop_last() =~= without_cr(text@.subrange(0, i as int)));
                    let current = old_lines.last().push(b);
                    lines = old_lines.update(old_lines.len() - 1, current);
                    assert(current.drop_last() =~= old_lines.last());
                    fields = old_fields.update(
                        old_fields.len() - 1,
                        old_fields.last().push(b),
                    );
                    lemma_rows_parsed_agree(old_lines, lines, old_lines.len() - 1);
                    lemma_fields_parsed_agree(old_fields, fields, old_fields.len() - 1);
                }
            }
            i += 1;
        }
        proof {
            assert(text@.subrange(0, n as int) =~= text@);
        }
        match error {
            Some(e) => Err(e),
            None => {
                if width > u32::MAX as usize || lines_done > u32::MAX as usize {
                    Err(LevelError::TooLarge)
                } else {
                    proof {
                        lemma_rows_parsed_len(lines, lines.len() - 1);
                    }
                    Ok(
                        TileMap {
                            tile_size: TILE_SIZE,
                            width: width as u32,
                            height: lines_done as u32,
                            tiles,
                            unsupported_tile,
                        },
                    )
                }
            },
        }
    }

    /// Writes the grid as level tile data: each row on a line of its own,
    /// its ids separated by commas.
    pub fn serialize(&self) -> (text: Vec<u8>)
        requires
            self.wf(),
        ensures
            text@ == grid_text(self.tiles@, self.width as int, self.height as int),
    {
        let mut out: Vec<u8> = Vec::new();
        let mut y: u32 = 0;
        while y < self.height
            invariant
                y <= self.height,
                self.wf(),
                out@ == grid_text(self.tiles@, self.width as int, y as int),
            decreases self.height - y,
        {
            let ghost row = row_of(self.tiles@, self.width as int, y as int);
            let ghost before = out@;
            proof {
                lemma_row_in_bounds(self.width as int, self.height as int, y as int);
            }
            let mut x: u32 = 0;
            while x < self.width
                invariant
                    x <= self.width,
                    y < self.height,
                    self.wf(),
                    row == row_of(self.tiles@, self.width as int, y as int),
                    row.len() == self.width,
                    out@ == before + fields_text(row, x as int),
                decreases self.width - x,
            {
                if x > 0 {
                    out.push(COMMA);
                }
                let id: i32 = self.id_at(x, y);
                proof {
                    lemma_cell_in_bounds(
                        self.width as int,
                        self.height as int,
                        x as int,
                        y as int,
                    );
                    lemma_row_in_bounds(self.width as int, self.height as int, y as int);
                    assert(row[x as int] == self.tiles@[y * self.width + x]);
                    vstd::arithmetic::mul::lemma_mul_is_commutative(y as int, self.width as int);
                }
                push_int(&mut out, id);
                proof {
                    assert(out@ =~= before + fields_text(row, x + 1));
                }
                x += 1;
            }
            out.push(NEWLINE);
            proof {
                assert(out@ =~= before + row_text(row));
            }
            y += 1;
        }
        out
    }
}

/// A row of a grid lies inside its ids.
pub proof fn lemma_row_in_bounds(width: int, height: int, y: int)
    requires
        0 <= width,
        0 <= y < height,
    ensures
        0 <= y * width <= (y + 1) * width <= width * height,
        (y + 1) * width - y * width == width,
{
    assert(0 <= y * width <= (y + 1) * width <= width * height && (y + 1) * width - y * width
        == width) by (nonlinear_arith)
        requires
            0 <= width,
            0 <= y < height,
    ;
}

/// Whether the byte `b` does not occur in `s`.
pub open spec fn free_of(s: Seq<u8>, b: u8) -> bool {
    forall|i: int| 0 <= i < s.len() ==> #[trigger] s[i] != b
}

/// A text without carriage returns is left as it is.
pub proof fn lemma_without_cr_id(s: Seq<u8>)
    requires
        free_of(s, CARRIAGE_RETURN),
    ensures
        without_cr(s) == s,
    decreases s.len(),
{
    if s.len() > 0 {
        lemma_without_cr_id(s.drop_last());
        assert(s[s.len() - 1] != CARRIAGE_RETURN);
        assert(s.drop_last().push(s.last()) =~= s);
    }
}

/// Text without a separator, added to a text, only lengthens the last
/// piece of that text.
pub proof fn lemma_split_extend(s: Seq<u8>, t: Seq<u8>, sep: u8)
    requires
        free_of(t, sep),
    ensures
        split(s, sep).len() >= 1,
        split(s + t, sep) == split(s, sep).update(
            split(s, sep).len() - 1,
            split(s, sep).last() + t,
        ),
    decreases t.len(),
{
    lemma_split_nonempty(s, sep);
    let parts = split(s, sep);
    if t.len() == 0 {
        assert(s + t =~= s);
        assert(parts.last() + t =~= parts.last());
        assert(parts.update(parts.len() - 1, parts.last()) =~= parts);
    } else {
        let shorter = t.drop_last();
        assert forall|i: int| 0 <= i < shorter.len() implies #[trigger] shorter[i] != sep by {
            assert(shorter[i] == t[i]);
        }
        lemma_split_extend(s, shorter, sep);
        assert((s + t).drop_last() =~= s + shorter);
        assert((s + t).last() == t.last());
        assert(t[t.len() - 1] != sep);
        assert((parts.last() + shorter).push(t.last()) =~= parts.last() + t);
        assert(split(s + t, sep) =~= parts.update(parts.len() - 1, parts.last() + t));
    }
}

/// A separator, added to a text, begins a new, empty piece.
pub proof fn lemma_split_separator(s: Seq<u8>, sep: u8)
    ensures
        split(s + seq![sep], sep) == split(s, sep).push(Seq::<u8>::empty()),
{
    assert((s + seq![sep]).drop_last() =~= s);
    assert((s + seq![sep]).last() == sep);
}

/// The text of a number holds no comma, no newline and no carriage return.
pub proof fn lemma_int_text_bytes(v: i32)
    ensures
        free_of(int_text(v as int), COMMA),
        free_of(int_text(v as int), NEWLINE),
        free_of(int_text(v as int), CARRIAGE_RETURN),
{
    lemma_parse_int_text(v);
    let s = int_text(v as int);
    assert forall|i: int| 0 <= i < s.len() implies #[trigger] s[i] != COMMA && s[i] != NEWLINE
        && s[i] != CARRIAGE_RETURN by {
        assert(is_digit(s[i]) || s[i] == 45);
    }
}

/// The fields of a row as text: the text of each of its first `n` ids.
pub open spec fn field_texts(ids: Seq<i32>, n: int) -> Seq<Seq<u8>> {
    Seq::new(n as nat, |i: int| int_text(ids[i] as int))
}

/// The first ids of a row, written with commas between them, hold no
/// newline and no carriage return, and the commas cut them into the texts
/// of the ids.
pub proof fn lemma_fields_text(ids: Seq<i32>, n: int)
    requires
        1 <= n <= ids.len(),
    ensures
        free_of(fields_text(ids, n), NEWLINE),
        free_of(fields_text(ids, n), CARRIAGE_RETURN),
        split(fields_text(ids, n), COMMA) == field_texts(ids, n),
    decreases n,
{
    let last = int_text(ids[n - 1] as int);
    lemma_int_text_bytes(ids[n - 1]);
    if n == 1 {
        let nothing = Seq::<u8>::empty();
        lemma_split_extend(nothing, last, COMMA);
        assert(nothing + last =~= last);
        assert(split(nothing, COMMA) =~= seq![nothing]);
        assert(split(last, COMMA) =~= field_texts(ids, 1));
    } else {
        lemma_fields_text(ids, n - 1);
        let head = fields_text(ids, n - 1);
        lemma_split_separator(head, COMMA);
        lemma_split_extend(head + seq![COMMA], last, COMMA);
        assert(Seq::<u8>::empty() + last =~= last);
        assert(split(fields_text(ids, n), COMMA) =~= field_texts(ids, n));
    }
}

/// The texts of ids are read back as those ids.
pub proof fn lemma_field_texts_parsed(ids: Seq<i32>, n: int, k: int)
    requires
        0 <= k <= n <= ids.len(),
    ensures
        fields_parsed(field_texts(ids, n), k) == Ok::<Seq<i32>, int>(ids.subrange(0, k)),
    decreases k,
{
    if k > 0 {
        lemma_field_texts_parsed(ids, n, k - 1);
        lemma_parse_int_text(ids[k - 1]);
        assert(ids.subrange(0, k - 1).push(ids[k - 1]) =~= ids.subrange(0, k));
    } else {
        assert(ids.subrange(0, 0) =~= Seq::<i32>::empty());
    }
}

/// The lines of a grid as text: the text of each of its first `n` rows,
/// without the newline.
pub open spec fn line_texts(tiles: Seq<i32>, width: int, n: int) -> Seq<Seq<u8>> {
    Seq::new(n as nat, |y: int| fields_text(row_of(tiles, width, y), width))
}

/// The first rows of a grid, written as text, hold no carriage return, and
/// the newlines cut them into the texts of the rows and an empty rest.
pub proof fn lemma_grid_text(tiles: Seq<i32>, width: int, height: int, n: int)
    requires
        1 <= width,
        0 <= n <= height,
        tiles.len() == width * height,
    ensures
        free_of(grid_text(tiles, width, n), CARRIAGE_RETURN),
        split(grid_text(tiles, width, n), NEWLINE) == line_texts(tiles, width, n).push(
            Seq::<u8>::empty(),
        ),
    decreases n,
{
    if n == 0 {
        assert(split(grid_text(tiles, width, 0), NEWLINE) =~= line_texts(tiles, width, 0).push(
            Seq::<u8>::empty(),
        ));
    } else {
        lemma_grid_text(tiles, width, height, n - 1);
        lemma_row_in_bounds(width, height, n - 1);
        let row = row_of(tiles, width, n - 1);
        let head = grid_text(tiles, width, n - 1);
        let body = fields_text(row, width);
        lemma_fields_text(row, width);
        lemma_split_extend(head, body, NEWLINE);
        lemma_split_separator(head + body, NEWLINE);
        assert(grid_text(tiles, width, n) =~= (head + body) + seq![NEWLINE]);
        assert(Seq::<u8>::empty() + body =~= body);
        assert(split(grid_text(tiles, width, n), NEWLINE) =~= line_texts(tiles, width, n).push(
            Seq::<u8>::empty(),
        ));
    }
}

/// The texts of the rows of a grid are read back as its ids.
pub proof fn lemma_line_texts_parsed(tiles: Seq<i32>, width: int, height: int, n: int)
    requires
        1 <= width,
        1 <= n <= height,
        tiles.len() == width * height,
    ensures
        0 <= n * width <= tiles.len(),
        rows_parsed(line_texts(tiles, width, height), n) == Ok::<(int, Seq<i32>), LevelError>(
            (width, tiles.subrange(0, n * width)),
        ),
    decreases n,
{
    let lines = line_texts(tiles, width, height);
    let row = row_of(tiles, width, n - 1);
    lemma_row_in_bounds(width, height, n - 1);
    lemma_fields_text(row, width);
    lemma_field_texts_parsed(row, width, width);
    assert(row.subrange(0, width) =~= row);
    assert(row_parsed(lines[n - 1]) == Ok::<Seq<i32>, int>(row));
    if n > 1 {
        lemma_line_texts_parsed(tiles, width, height, n - 1);
        assert(tiles.subrange(0, (n - 1) * width) + row =~= tiles.subrange(0, n * width));
    } else {
        assert(Seq::<i32>::empty() + row =~= tiles.subrange(0, n * width));
    }
}

/// Writing a grid as text and reading the text gives the grid back: the
/// same width, the same height and the same ids. This holds for every grid
/// that has a cell, and for the grid without rows and columns. (A grid
/// with rows but no columns is written as empty lines, which are not read
/// as rows; one with columns but no rows is written as the empty text,
/// which is read as the grid without columns.)
pub proof fn lemma_text_round_trip(tiles: Seq<i32>, width: int, height: int)
    requires
        0 <= width <= u32::MAX,
        0 <= height <= u32::MAX,
        tiles.len() == width * height,
        width == 0 <==> height == 0,
    ensures
        grid_parsed(grid_text(tiles, width, height)) == Ok::<(int, int, Seq<i32>), LevelError>(
            (width, height, tiles),
        ),
{
    let text = grid_text(tiles, width, height);
    if height == 0 {
        assert(text =~= Seq::<u8>::empty());
        assert(tiles =~= Seq::<i32>::empty());
        assert(split(without_cr(text), NEWLINE) =~= seq![Seq::<u8>::empty()]);
    } else {
        lemma_grid_text(tiles, width, height, height);
        lemma_without_cr_id(text);
        let rows = line_texts(tiles, width, height);
        let lines = split(text, NEWLINE);
        lemma_line_texts_parsed(tiles, width, height, height);
        lemma_rows_parsed_agree(rows, lines, height);
        vstd::arithmetic::mul::lemma_mul_is_commutative(height, width);
        assert(tiles.subrange(0, height * width) =~= tiles);
    }
}

} // verus!
