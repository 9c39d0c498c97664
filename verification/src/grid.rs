//! The navigable-grid model: a rectangular matrix of walkable (`.`) and
//! blocked (`#`) tiles, loaded from an ASCII block of `height` rows of
//! `width` characters, each row terminated by a newline, and rendered back
//! to the same ASCII form.

use vstd::prelude::*;

verus! {

/// The byte for a walkable map cell.
pub const DOT: u8 = 46;

/// The byte for a blocked map cell.
pub const HASH: u8 = 35;

/// The row terminator of the ASCII map form.
pub const NEWLINE: u8 = 10;

/// A malformed map: wrong dimensions or a character outside `{.,#}`.
#[derive(Debug, PartialEq, Eq)]
pub struct LoadError;

/// The sequence of row views of a tile matrix.
pub open spec fn rows_view(rows: Seq<Vec<i32>>) -> Seq<Seq<i32>> {
    Seq::new(rows.len() as nat, |i: int| rows[i]@)
}

/// Every cell of the matrix is 1 (walkable) or 0 (blocked).
pub open spec fn cells_ok(tiles: Seq<Seq<i32>>) -> bool {
    forall|r: int, c: int|
        0 <= r < tiles.len() && 0 <= c < tiles[r].len() ==> ((#[trigger] tiles[r][c]) == 1
            || tiles[r][c] == 0)
}

/// A well-shaped tile matrix: `height` rows of `width` binary cells.
pub open spec fn grid_seq_wf(tiles: Seq<Seq<i32>>, height: int, width: int) -> bool {
    &&& tiles.len() == height
    &&& forall|r: int| 0 <= r < tiles.len() ==> (#[trigger] tiles[r]).len() == width
    &&& cells_ok(tiles)
}

/// One well-formed ASCII map row: `width` cell bytes and a newline.
pub open spec fn row_ok(row: Seq<u8>, width: int) -> bool {
    &&& row.len() == width + 1
    &&& row[width] == NEWLINE
    &&& forall|j: int| 0 <= j < width ==> ((#[trigger] row[j]) == DOT || row[j] == HASH)
}

/// A well-formed ASCII map: `height` rows, each `row_ok`, and nothing after.
pub open spec fn ascii_ok(map: Seq<u8>, height: int, width: int) -> bool
    decreases height,
{
    if height <= 0 {
        height == 0 && map.len() == 0
    } else {
        &&& map.len() >= width + 1
        &&& row_ok(map.take(width + 1), width)
        &&& ascii_ok(map.skip(width + 1), height - 1, width)
    }
}

/// The ASCII byte of one cell.
pub open spec fn byte_of(t: i32) -> u8 {
    if t == 1 {
        DOT
    } else {
        HASH
    }
}

/// The ASCII form of one row: its cell bytes and a newline.
pub open spec fn render_row(row: Seq<i32>) -> Seq<u8> {
    Seq::new(row.len() as nat, |j: int| byte_of(row[j])).push(NEWLINE)
}

/// The ASCII form of a tile matrix.
pub open spec fn render_map(tiles: Seq<Seq<i32>>) -> Seq<u8>
    decreases tiles.len(),
{
    if tiles.len() == 0 {
        Seq::empty()
    } else {
        render_map(tiles.drop_last()) + render_row(tiles.last())
    }
}

/// Parses an ASCII map of `height` rows of `width` cells, each row ending in
/// a newline, into the binary tile matrix: `.` becomes 1, `#` becomes 0.
/// Fails on any other character, any row of the wrong length, a missing
/// newline, or trailing bytes. Every row carries its newline — the final
/// one included — so that rendering a parsed map reproduces it byte for
/// byte; a map whose last row lacks the newline is rejected.
pub fn parse_ascii_to_binary(map: &[u8], height: usize, width: usize) -> (r: Result<
    Vec<Vec<i32>>,
    LoadError,
>)
    ensures
        r is Ok <==> ascii_ok(map@, height as int, width as int),
        r matches Ok(g) ==> grid_seq_wf(rows_view(g@), height as int, width as int) && render_map(
            rows_view(g@),
        ) == map@,
{
    let mut tiles: Vec<Vec<i32>> = Vec::new();
    let mut pos: usize = 0;
    let mut r: usize = 0;
    proof {
        assert(map@.skip(0) =~= map@);
        assert(render_map(rows_view(tiles@)) =~= map@.take(0));
    }
    while r < height
        invariant
            r <= height,
            pos <= map@.len(),
            tiles@.len() == r,
            grid_seq_wf(rows_view(tiles@), r as int, width as int),
            render_map(rows_view(tiles@)) == map@.take(pos as int),
            ascii_ok(map@, height as int, width as int) <==> ascii_ok(
                map@.skip(pos as int),
                height - r,
                width as int,
            ),
        decreases height - r,
    {
        let ghost rest = map@.skip(pos as int);
        // the whole row, newline included, must still be there
        if map.len() - pos <= width {
            proof {
                assert(!ascii_ok(rest, height - r, width as int));
            }
            return Err(LoadError);
        }
        let mut row: Vec<i32> = Vec::new();
        let mut c: usize = 0;
        while c < width
            invariant
                c <= width,
                pos + width < map@.len(),
                map@.len() <= usize::MAX,
                row@.len() == c,
                rest == map@.skip(pos as int),
                height - r > 0,
                ascii_ok(map@, height as int, width as int) <==> ascii_ok(
                    rest,
                    height - r,
                    width as int,
                ),
                forall|j: int|
                    0 <= j < c ==> (#[trigger] row@[j]) == 1 || row@[j] == 0,
                forall|j: int| 0 <= j < c ==> #[trigger] rest[j] == byte_of(row@[j]),
                forall|j: int|
                    0 <= j < c ==> ((#[trigger] rest[j]) == DOT || rest[j] == HASH),
            decreases width - c,
        {
            assert(pos + c < map@.len());
            let b = map[pos + c];
            assert(b == rest[c as int]);
            if b == DOT {
                row.push(1);
            } else if b == HASH {
                row.push(0);
            } else {
                proof {
                    assert(!row_ok(rest.take(width + 1), width as int)) by {
                        assert(rest.take(width + 1)[c as int] == b);
                    }
                    assert(!ascii_ok(rest, height - r, width as int));
                }
                return Err(LoadError);
            }
            c = c + 1;
        }
        let nl = map[pos + width];
        assert(nl == rest[width as int]);
        if nl != NEWLINE {
            proof {
                assert(!row_ok(rest.take(width + 1), width as int)) by {
                    assert(rest.take(width + 1)[width as int] == nl);
                }
                assert(!ascii_ok(rest, height - r, width as int));
            }
            return Err(LoadError);
        }
        proof {
            assert(row_ok(rest.take(width + 1), width as int)) by {
                assert(forall|j: int|
                    0 <= j < width ==> #[trigger] rest.take(width + 1)[j] == rest[j]);
            }
            assert(ascii_ok(rest, height - r, width as int) <==> ascii_ok(
                rest.skip(width + 1),
                height - r - 1,
                width as int,
            ));
            assert(rest.skip(width + 1) =~= map@.skip(pos + width + 1));
        }
        let ghost old_tiles = tiles@;
        let ghost old_pos = pos as int;
        tiles.push(row);
        pos = pos + width + 1;
        r = r + 1;
        proof {
            assert(rows_view(tiles@) =~= rows_view(old_tiles).push(row@));
            assert(rows_view(tiles@).drop_last() =~= rows_view(old_tiles));
            assert(render_row(row@) =~= rest.take(width + 1)) by {
                assert(forall|j: int|
                    0 <= j < width ==> #[trigger] rest.take(width + 1)[j] == byte_of(row@[j]));
            }
            assert(map@.take(pos as int) =~= map@.take(old_pos) + rest.take(width + 1));
        }
    }
    if pos != map.len() {
        proof {
            assert(map@.skip(pos as int).len() > 0);
        }
        return Err(LoadError);
    }
    proof {
        assert(map@.take(pos as int) =~= map@);
    }
    Ok(tiles)
}

/// Renders a binary tile matrix back to its ASCII form: 1 becomes `.`,
/// 0 becomes `#`, and every row is followed by a newline.
pub fn parse_binary_to_ascii(binary_map: &Vec<Vec<i32>>) -> (r: Vec<u8>)
    requires
        cells_ok(rows_view(binary_map@)),
    ensures
        r@ == render_map(rows_view(binary_map@)),
{
    let mut out: Vec<u8> = Vec::new();
    let mut i: usize = 0;
    while i < binary_map.len()
        invariant
            i <= binary_map@.len(),
            cells_ok(rows_view(binary_map@)),
            out@ == render_map(rows_view(binary_map@).take(i as int)),
        decreases binary_map@.len() - i,
    {
        let row = &binary_map[i];
        let ghost out_before = out@;
        let mut j: usize = 0;
        while j < row.len()
            invariant
                j <= row@.len(),
                row@ == binary_map@[i as int]@,
                i < binary_map@.len(),
                cells_ok(rows_view(binary_map@)),
                out@ == out_before + Seq::new(j as nat, |k: int| byte_of(row@[k])),
            decreases row@.len() - j,
        {
            let t = row[j];
            assert(rows_view(binary_map@)[i as int][j as int] == t);
            if t == 1 {
                out.push(DOT);
            } else {
                out.push(HASH);
            }
            j = j + 1;
            proof {
                assert(Seq::new(j as nat, |k: int| byte_of(row@[k])) =~= Seq::new(
                    (j - 1) as nat,
                    |k: int| byte_of(row@[k]),
                ).push(byte_of(row@[j - 1])));
            }
        }
        out.push(NEWLINE);
        i = i + 1;
        proof {
            let rows = rows_view(binary_map@);
            assert(rows.take(i as int).drop_last() =~= rows.take(i - 1));
            assert(rows.take(i as int).last() =~= row@);
            assert(out@ =~= render_map(rows.take(i - 1)) + render_row(row@));
        }
    }
    proof {
        assert(rows_view(binary_map@).take(binary_map@.len() as int) =~= rows_view(binary_map@));
    }
    out
}

/// The navigable grid: a binary tile matrix with its fixed dimensions.
/// Coordinates are `(x, y)` with `x` the column and `y` the row, so cell
/// `(x, y)` is `tiles[y][x]`.
pub struct Grid {
    pub tiles: Vec<Vec<i32>>,
    pub height: usize,
    pub width: usize,
}

impl Grid {
    /// The matrix has exactly the declared dimensions, every cell is
    /// binary, and both dimensions are positive and small.
    pub open spec fn wf(&self) -> bool {
        &&& grid_seq_wf(rows_view(self.tiles@), self.height as int, self.width as int)
        &&& 0 < self.height < 32768
        &&& 0 < self.width < 32768
    }

    pub open spec fn in_bounds_spec(&self, x: int, y: int) -> bool {
        0 <= x < self.width && 0 <= y < self.height
    }

    pub open spec fn walkable_spec(&self, x: int, y: int) -> bool {
        self.in_bounds_spec(x, y) && rows_view(self.tiles@)[y][x] == 1
    }

    /// Loads a grid from its ASCII map form.
    pub fn load(map: &[u8], height: usize, width: usize) -> (r: Result<Grid, LoadError>)
        requires
            0 < height < 32768,
            0 < width < 32768,
        ensures
            r is Ok <==> ascii_ok(map@, height as int, width as int),
            r matches Ok(g) ==> g.wf() && g.height == height && g.width == width && render_map(
                rows_view(g.tiles@),
            ) == map@,
    {
        let tiles = parse_ascii_to_binary(map, height, width)?;
        Ok(Grid { tiles, height, width })
    }

    /// Renders the grid back to its ASCII map form.
    pub fn render(&self) -> (r: Vec<u8>)
        requires
            self.wf(),
        ensures
            r@ == render_map(rows_view(self.tiles@)),
    {
        parse_binary_to_ascii(&self.tiles)
    }

    pub fn in_bounds(&self, x: i32, y: i32) -> (b: bool)
        requires
            self.wf(),
        ensures
            b == self.in_bounds_spec(x as int, y as int),
    {
        0 <= x && (x as usize) < self.width && 0 <= y && (y as usize) < self.height
    }

    pub fn walkable(&self, x: i32, y: i32) -> (b: bool)
        requires
            self.wf(),
        ensures
            b == self.walkable_spec(x as int, y as int),
    {
        if self.in_bounds(x, y) {
            proof {
                assert(self.tiles@.len() == rows_view(self.tiles@).len());
                assert(self.tiles@[y as int]@ == rows_view(self.tiles@)[y as int]);
            }
            self.tiles[y as usize][x as usize] == 1
        } else {
            false
        }
    }
}

} // verus!
