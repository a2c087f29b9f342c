//! Tiles: the rectangles of pixels that an image is cut into, each of
//! which is rendered as one task.
use vstd::prelude::*;
use vstd::arithmetic::div_mod::lemma_fundamental_div_mod;
use vstd::arithmetic::div_mod::lemma_fundamental_div_mod_converse;
use vstd::arithmetic::div_mod::lemma_mod_bound;
use crate::op::InvalidParameter;

verus! {

/// A rectangle of pixels: the columns `x0 .. x1` of the rows `y0 .. y1`,
/// the upper ends left out.
#[derive(Clone, Copy, Debug, PartialEq, Eq, Structural)]
pub struct Tile {
    pub x0: u32,
    pub y0: u32,
    pub x1: u32,
    pub y1: u32,
}

impl Tile {
    /// Whether the pixel `(x, y)` lies in the tile.
    pub open spec fn contains(self, x: int, y: int) -> bool {
        self.x0 <= x < self.x1 && self.y0 <= y < self.y1
    }

    /// The number of columns of the tile.
    pub open spec fn width_spec(self) -> int {
        if self.x0 <= self.x1 {
            self.x1 - self.x0
        } else {
            0
        }
    }

    /// The number of rows of the tile.
    pub open spec fn height_spec(self) -> int {
        if self.y0 <= self.y1 {
            self.y1 - self.y0
        } else {
            0
        }
    }

    /// The number of pixels of the tile.
    pub open spec fn area_spec(self) -> int {
        self.width_spec() * self.height_spec()
    }

    /// The place of the pixel `(x, y)` among the pixels of the tile, which
    /// are counted row by row from the top, each row from the left.
    #[verifier::opaque]
    pub open spec fn place_of(self, x: int, y: int) -> int {
        (y - self.y0) * self.width_spec() + (x - self.x0)
    }

    /// The column of the pixel at the given place.
    #[verifier::opaque]
    pub open spec fn column_at(self, place: int) -> int {
        self.x0 + place % self.width_spec()
    }

    /// The row of the pixel at the given place.
    #[verifier::opaque]
    pub open spec fn row_at(self, place: int) -> int {
        self.y0 + place / self.width_spec()
    }

    /// The pixel at a place of the tile lies in the tile, at that place.
    pub proof fn lemma_pixel_at_place(self, place: int)
        requires
            0 <= place < self.area_spec(),
        ensures
            self.contains(self.column_at(place), self.row_at(place)),
            self.place_of(self.column_at(place), self.row_at(place)) == place,
    {
        reveal(Tile::place_of);
        reveal(Tile::column_at);
        reveal(Tile::row_at);
        let w = self.width_spec();
        let h = self.height_spec();
        assert(w > 0 && h > 0) by (nonlinear_arith)
            requires
                w >= 0,
                h >= 0,
                w * h > 0,
        ;
        lemma_fundamental_div_mod(place, w);
        lemma_mod_bound(place, w);
        let q = place / w;
        assert(0 <= q < h) by (nonlinear_arith)
            requires
                place == w * q + place % w,
                0 <= place % w < w,
                0 <= place < w * h,
        ;
        assert(w * q == q * w) by (nonlinear_arith);
    }

    /// A pixel of the tile has a place among its pixels, and is the pixel
    /// at that place.
    pub proof fn lemma_place_of_pixel(self, x: int, y: int)
        requires
            self.contains(x, y),
        ensures
            0 <= self.place_of(x, y) < self.area_spec(),
            self.column_at(self.place_of(x, y)) == x,
            self.row_at(self.place_of(x, y)) == y,
            self.place_of(x, y) == (y - self.y0) * self.width_spec() + (x - self.x0),
    {
        reveal(Tile::place_of);
        reveal(Tile::column_at);
        reveal(Tile::row_at);
        let w = self.width_spec();
        let h = self.height_spec();
        let r = y - self.y0;
        let c = x - self.x0;
        assert(0 <= r * w + c < w * h) by (nonlinear_arith)
            requires
                0 <= r < h,
                0 <= c < w,
        ;
        lemma_fundamental_div_mod_converse(r * w + c, w, r, c);
    }
}

/// How an image is cut into tiles of a given width and height, row by
/// row from the top on the left. The tiles at the right and lower edge
/// are cut off where the tiles' width or height does not divide that of
/// the image.
#[derive(Clone, Copy, Debug, PartialEq, Eq, Structural)]
pub struct Tiling {
    pub width: u32,
    pub height: u32,
    pub tile_width: u32,
    pub tile_height: u32,
}

/// The number of pieces of length `side` that cover a length.
pub open spec fn pieces(length: int, side: int) -> int {
    (length + side - 1) / side
}

/// The smaller of two numbers.
pub open spec fn least(a: int, b: int) -> int {
    if a <= b {
        a
    } else {
        b
    }
}

/// The pieces of a length: the last one starts within the length, and
/// all of them together reach its end.
pub proof fn lemma_pieces(length: int, side: int)
    requires
        length >= 0,
        side > 0,
    ensures
        pieces(length, side) >= 0,
        (pieces(length, side) - 1) * side < length || length == 0,
        length == 0 ==> pieces(length, side) == 0,
        pieces(length, side) * side >= length,
        pieces(length, side) <= length,
{
    let n = length + side - 1;
    let p = n / side;
    lemma_fundamental_div_mod(n, side);
    lemma_mod_bound(n, side);
    assert(side * p == p * side) by (nonlinear_arith);
    assert((p - 1) * side == p * side - side) by (nonlinear_arith);
    if length == 0 {
        assert(0 * side == 0) by (nonlinear_arith);
        lemma_fundamental_div_mod_converse(n, side, 0, n);
    }
    if p >= 1 {
        assert((p - 1) * side >= p - 1) by (nonlinear_arith)
            requires
                p >= 1,
                side >= 1,
        ;
    }
    if p < 0 {
        assert(p * side <= -side) by (nonlinear_arith)
            requires
                p <= -1,
                side > 0,
        ;
    }
}

/// The piece of length `side` that the place `x` of a length falls in.
proof fn lemma_piece_of(x: int, length: int, side: int)
    requires
        0 <= x < length,
        side > 0,
    ensures
        0 <= x / side < pieces(length, side),
        (x / side) * side <= x < (x / side + 1) * side,
{
    let piece = x / side;
    lemma_pieces(length, side);
    lemma_fundamental_div_mod(x, side);
    lemma_mod_bound(x, side);
    assert(0 <= piece < pieces(length, side)) by (nonlinear_arith)
        requires
            x == side * piece + x % side,
            0 <= x % side < side,
            0 <= x < pieces(length, side) * side,
            side > 0,
    ;
    assert(side * piece == piece * side) by (nonlinear_arith);
    assert((piece + 1) * side == piece * side + side) by (nonlinear_arith);
}

/// The places of a piece of a length lie in the length and in no other
/// piece.
proof fn lemma_place_in_piece(x: int, piece: int, length: int, side: int)
    requires
        side > 0,
        length >= 0,
        0 <= piece < pieces(length, side),
        piece * side <= x < least((piece + 1) * side, length),
    ensures
        0 <= x < length,
        x / side == piece,
{
    assert((piece + 1) * side == piece * side + side) by (nonlinear_arith);
    assert(piece * side >= 0) by (nonlinear_arith)
        requires
            piece >= 0,
            side > 0,
    ;
    lemma_fundamental_div_mod_converse(x, side, piece, x - piece * side);
}

/// A piece of a length starts within the length and is at most `side`
/// long.
proof fn lemma_piece_within(piece: int, length: int, side: int)
    requires
        side > 0,
        length >= 0,
        0 <= piece < pieces(length, side),
    ensures
        0 <= piece * side < least((piece + 1) * side, length) <= length,
        least((piece + 1) * side, length) - piece * side <= side,
{
    lemma_pieces(length, side);
    assert(0 <= piece * side <= (pieces(length, side) - 1) * side) by (nonlinear_arith)
        requires
            0 <= piece <= pieces(length, side) - 1,
            side > 0,
    ;
    assert((piece + 1) * side == piece * side + side) by (nonlinear_arith);
}

impl Tiling {
    /// A tiling has tiles that are not empty.
    pub open spec fn valid(self) -> bool {
        self.tile_width > 0 && self.tile_height > 0
    }

    /// The number of tiles in a row of tiles.
    pub open spec fn columns_spec(self) -> int {
        pieces(self.width as int, self.tile_width as int)
    }

    /// The number of rows of tiles.
    pub open spec fn rows_spec(self) -> int {
        pieces(self.height as int, self.tile_height as int)
    }

    /// The number of tiles.
    pub open spec fn count_spec(self) -> int {
        self.columns_spec() * self.rows_spec()
    }

    /// The tile of the given index.
    #[verifier::opaque]
    pub open spec fn tile_spec(self, index: int) -> Tile {
        let column = index % self.columns_spec();
        let row = index / self.columns_spec();
        Tile {
            x0: (column * self.tile_width) as u32,
            y0: (row * self.tile_height) as u32,
            x1: least((column + 1) * self.tile_width, self.width as int) as u32,
            y1: least((row + 1) * self.tile_height, self.height as int) as u32,
        }
    }

    /// The index of the tile that the pixel `(x, y)` lies in.
    #[verifier::opaque]
    pub open spec fn index_of(self, x: int, y: int) -> int {
        (y / (self.tile_height as int)) * self.columns_spec() + x / (self.tile_width as int)
    }

    /// The square tiles of the given side.
    pub open spec fn squares_spec(width: u32, height: u32, side: u32) -> Tiling {
        Tiling { width, height, tile_width: side, tile_height: side }
    }

    /// The bands of the given number of rows, each as wide as the image.
    pub open spec fn bands_spec(width: u32, height: u32, rows: u32) -> Tiling {
        Tiling {
            width,
            height,
            tile_width: if width == 0 {
                1
            } else {
                width
            },
            tile_height: rows,
        }
    }

    /// The row and the column of a tile.
    proof fn lemma_row_and_column(self, index: int)
        requires
            self.valid(),
            0 <= index < self.count_spec(),
        ensures
            self.columns_spec() > 0,
            0 <= index % self.columns_spec() < self.columns_spec(),
            0 <= index / self.columns_spec() < self.rows_spec(),
            index == (index / self.columns_spec()) * self.columns_spec() + index
                % self.columns_spec(),
    {
        let columns = self.columns_spec();
        let rows = self.rows_spec();
        lemma_pieces(self.width as int, self.tile_width as int);
        lemma_pieces(self.height as int, self.tile_height as int);
        assert(columns > 0 && rows > 0) by (nonlinear_arith)
            requires
                columns >= 0,
                rows >= 0,
                columns * rows > 0,
        ;
        let column = index % columns;
        let row = index / columns;
        lemma_fundamental_div_mod(index, columns);
        lemma_mod_bound(index, columns);
        assert(0 <= row < rows) by (nonlinear_arith)
            requires
                index == columns * row + column,
                0 <= column < columns,
                0 <= index < columns * rows,
        ;
        assert(columns * row == row * columns) by (nonlinear_arith);
    }

    /// Every tile lies within the image and holds a pixel.
    pub proof fn lemma_tile_within(self, index: int)
        requires
            self.valid(),
            0 <= index < self.count_spec(),
        ensures
            ({
                let t = self.tile_spec(index);
                &&& t.x0 < t.x1 <= self.width
                &&& t.y0 < t.y1 <= self.height
                &&& t.x1 - t.x0 <= self.tile_width
                &&& t.y1 - t.y0 <= self.tile_height
            }),
    {
        reveal(Tiling::tile_spec);
        self.lemma_row_and_column(index);
        lemma_piece_within(
            index % self.columns_spec(),
            self.width as int,
            self.tile_width as int,
        );
        lemma_piece_within(
            index / self.columns_spec(),
            self.height as int,
            self.tile_height as int,
        );
    }

    /// The tiles cut the image up: every pixel of the image lies in the
    /// tile that `index_of` names and in no other, and no tile holds
    /// anything but pixels of the image.
    pub proof fn lemma_tiles_partition(self)
        requires
            self.valid(),
        ensures
            forall|x: int, y: int|
                0 <= x < self.width && 0 <= y < self.height ==> {
                    &&& 0 <= #[trigger] self.index_of(x, y) < self.count_spec()
                    &&& self.tile_spec(self.index_of(x, y)).contains(x, y)
                },
            forall|index: int, x: int, y: int|
                0 <= index < self.count_spec() && #[trigger] self.tile_spec(index).contains(x, y)
                    ==> {
                    &&& 0 <= x < self.width
                    &&& 0 <= y < self.height
                    &&& self.index_of(x, y) == index
                },
    {
        assert forall|x: int, y: int| 0 <= x < self.width && 0 <= y < self.height implies {
            &&& 0 <= #[trigger] self.index_of(x, y) < self.count_spec()
            &&& self.tile_spec(self.index_of(x, y)).contains(x, y)
        } by {
            self.lemma_pixel_in_its_tile(x, y);
        }
        assert forall|index: int, x: int, y: int|
            0 <= index < self.count_spec() && #[trigger] self.tile_spec(index).contains(
                x,
                y,
            ) implies {
            &&& 0 <= x < self.width
            &&& 0 <= y < self.height
            &&& self.index_of(x, y) == index
        } by {
            self.lemma_tile_of_pixel(index, x, y);
        }
    }

    /// A pixel of the image lies in the tile that `index_of` names.
    pub proof fn lemma_pixel_in_its_tile(self, x: int, y: int)
        requires
            self.valid(),
            0 <= x < self.width,
            0 <= y < self.height,
        ensures
            0 <= self.index_of(x, y) < self.count_spec(),
            self.tile_spec(self.index_of(x, y)).contains(x, y),
    {
        reveal(Tiling::tile_spec);
        reveal(Tiling::index_of);
        let columns = self.columns_spec();
        let rows = self.rows_spec();
        let column = x / (self.tile_width as int);
        let row = y / (self.tile_height as int);
        lemma_piece_of(x, self.width as int, self.tile_width as int);
        lemma_piece_of(y, self.height as int, self.tile_height as int);
        let index = row * columns + column;
        lemma_fundamental_div_mod_converse(index, columns, row, column);
        assert(0 <= index < columns * rows) by (nonlinear_arith)
            requires
                index == row * columns + column,
                0 <= column < columns,
                0 <= row < rows,
        ;
    }

    /// A pixel that lies in a tile is a pixel of the image, and the tile is
    /// the one that `index_of` names.
    pub proof fn lemma_tile_of_pixel(self, index: int, x: int, y: int)
        requires
            self.valid(),
            0 <= index < self.count_spec(),
            self.tile_spec(index).contains(x, y),
        ensures
            0 <= x < self.width,
            0 <= y < self.height,
            self.index_of(x, y) == index,
    {
        reveal(Tiling::tile_spec);
        reveal(Tiling::index_of);
        let column = index % self.columns_spec();
        let row = index / self.columns_spec();
        self.lemma_row_and_column(index);
        lemma_piece_within(column, self.width as int, self.tile_width as int);
        lemma_piece_within(row, self.height as int, self.tile_height as int);
        lemma_place_in_piece(x, column, self.width as int, self.tile_width as int);
        lemma_place_in_piece(y, row, self.height as int, self.tile_height as int);
    }

    /// The tiling of an image by square tiles of the given side, which
    /// must not be zero.
    pub fn new(width: u32, height: u32, side: u32) -> (r: Result<Tiling, InvalidParameter>)
        ensures
            side > 0 ==> r == Ok::<Tiling, InvalidParameter>(
                Self::squares_spec(width, height, side),
            ),
            side == 0 ==> r == Err::<Tiling, InvalidParameter>(InvalidParameter),
    {
        if side == 0 {
            Err(InvalidParameter)
        } else {
            Ok(Tiling { width, height, tile_width: side, tile_height: side })
        }
    }

    /// The tiling of an image by bands of the given number of rows, which
    /// must not be zero. Each band is as wide as the image.
    pub fn bands(width: u32, height: u32, rows: u32) -> (r: Result<Tiling, InvalidParameter>)
        ensures
            rows > 0 ==> r == Ok::<Tiling, InvalidParameter>(
                Self::bands_spec(width, height, rows),
            ),
            rows == 0 ==> r == Err::<Tiling, InvalidParameter>(InvalidParameter),
    {
        if rows == 0 {
            Err(InvalidParameter)
        } else {
            let tile_width: u32 = if width == 0 {
                1
            } else {
                width
            };
            Ok(Tiling { width, height, tile_width, tile_height: rows })
        }
    }

    /// The number of tiles in a row of tiles.
    pub fn columns(&self) -> (n: u32)
        requires
            self.valid(),
        ensures
            n == self.columns_spec(),
    {
        proof {
            lemma_pieces(self.width as int, self.tile_width as int);
        }
        ((self.width as u64 + self.tile_width as u64 - 1) / self.tile_width as u64) as u32
    }

    /// The number of rows of tiles.
    pub fn rows(&self) -> (n: u32)
        requires
            self.valid(),
        ensures
            n == self.rows_spec(),
    {
        proof {
            lemma_pieces(self.height as int, self.tile_height as int);
        }
        ((self.height as u64 + self.tile_height as u64 - 1) / self.tile_height as u64) as u32
    }

    /// The number of tiles.
    pub fn count(&self) -> (n: u64)
        requires
            self.valid(),
        ensures
            n == self.count_spec(),
    {
        let c: u64 = self.columns() as u64;
        let r: u64 = self.rows() as u64;
        assert(c * r <= 0xffff_ffff * 0xffff_ffff) by (nonlinear_arith)
            requires
                0 <= c <= 0xffff_ffff,
                0 <= r <= 0xffff_ffff,
        ;
        c * r
    }

    /// The tile of the given index.
    pub fn tile(&self, index: u64) -> (t: Tile)
        requires
            self.valid(),
            index < self.count_spec(),
        ensures
            t == self.tile_spec(index as int),
    {
        proof {
            reveal(Tiling::tile_spec);
            self.lemma_row_and_column(index as int);
        }
        let columns: u64 = self.columns() as u64;
        let column: u64 = index % columns;
        let row: u64 = index / columns;
        proof {
            lemma_piece_within(column as int, self.width as int, self.tile_width as int);
            lemma_piece_within(row as int, self.height as int, self.tile_height as int);
        }
        let x0: u64 = column * self.tile_width as u64;
        let y0: u64 = row * self.tile_height as u64;
        assert((column + 1) * self.tile_width == x0 + self.tile_width) by (nonlinear_arith)
            requires
                x0 == column * self.tile_width,
        ;
        assert((row + 1) * self.tile_height == y0 + self.tile_height) by (nonlinear_arith)
            requires
                y0 == row * self.tile_height,
        ;
        let x1: u64 = if x0 + self.tile_width as u64 <= self.width as u64 {
            x0 + self.tile_width as u64
        } else {
            self.width as u64
        };
        let y1: u64 = if y0 + self.tile_height as u64 <= self.height as u64 {
            y0 + self.tile_height as u64
        } else {
            self.height as u64
        };
        Tile { x0: x0 as u32, y0: y0 as u32, x1: x1 as u32, y1: y1 as u32 }
    }
}

} // verus!
