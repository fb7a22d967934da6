//! The square of grey intensities that an image is reduced to, and the
//! difference hash computed from it.
//!
//! The hash compares every pixel with its right-hand neighbour in the same
//! row; the neighbour of the last pixel of a row is the first pixel of that
//! row. A bit is set where the left intensity is below the right one. Bits
//! come row by row, and within a row column by column.

use crate::bits::{self, max_bits, Bits};
use vstd::prelude::*;

verus! {

/// Whether a hash can be made with this side length: at least one pixel, and
/// no more bits than a 32-bit count and the bit container can hold.
pub open spec fn valid_side(side: u32) -> bool {
    &&& 1 <= side
    &&& side * side <= u32::MAX
    &&& side * side <= max_bits()
}

/// The position of pixel (`col`, `row`) in a row-major square.
pub open spec fn pixel_index(side: int, col: int, row: int) -> int {
    row * side + col
}

/// The bit for pixel (`col`, `row`): whether it is darker than the pixel to
/// its right, the row taken as a ring.
pub open spec fn darker_than_right(side: int, pixels: Seq<u8>, col: int, row: int) -> bool {
    pixels[pixel_index(side, col, row)] < pixels[pixel_index(side, (col + 1) % side, row)]
}

/// The bits of one row, from its first column to its last.
pub open spec fn row_bits(side: int, pixels: Seq<u8>, row: int) -> Seq<bool> {
    Seq::new(side as nat, |col: int| darker_than_right(side, pixels, col, row))
}

/// The bits of the first `rows` rows, the first row first.
pub open spec fn rows_bits(side: int, pixels: Seq<u8>, rows: int) -> Seq<bool>
    decreases rows,
{
    if rows <= 0 {
        Seq::empty()
    } else {
        rows_bits(side, pixels, rows - 1) + row_bits(side, pixels, rows - 1)
    }
}

/// The difference hash of a square of `side * side` intensities.
pub open spec fn fingerprint_of(side: int, pixels: Seq<u8>) -> Seq<bool> {
    rows_bits(side, pixels, side)
}

/// A pixel of a square lies inside it: its position is below `side * side`,
/// and rows do not overlap.
pub proof fn lemma_pixel_index(side: int, col: int, row: int)
    requires
        0 <= col < side,
        0 <= row < side,
    ensures
        0 <= pixel_index(side, col, row) < side * side,
        pixel_index(side, col, row) / side == row,
        pixel_index(side, col, row) % side == col,
{
    assert(0 <= row * side && row * side + side <= side * side) by (nonlinear_arith)
        requires
            0 <= row < side,
    ;
    vstd::arithmetic::div_mod::lemma_fundamental_div_mod_converse(
        pixel_index(side, col, row),
        side,
        row,
        col,
    );
    assert(side * row == row * side) by (nonlinear_arith);
}

/// The first `rows` rows hold `rows * side` bits, and the bit of pixel
/// (`col`, `row`) stands at that pixel's position.
pub proof fn lemma_rows_bits(side: int, pixels: Seq<u8>, rows: int)
    requires
        0 < side,
        0 <= rows,
    ensures
        rows_bits(side, pixels, rows).len() == rows * side,
        forall|col: int, row: int|
            0 <= col < side && 0 <= row < rows ==> #[trigger] rows_bits(
                side,
                pixels,
                rows,
            )[pixel_index(side, col, row)] == darker_than_right(side, pixels, col, row),
    decreases rows,
{
    if rows > 0 {
        lemma_rows_bits(side, pixels, rows - 1);
        let before = rows_bits(side, pixels, rows - 1);
        let last = row_bits(side, pixels, rows - 1);
        assert((rows - 1) * side + side == rows * side) by (nonlinear_arith);
        assert forall|col: int, row: int| 0 <= col < side && 0 <= row < rows implies #[trigger] rows_bits(
            side,
            pixels,
            rows,
        )[pixel_index(side, col, row)] == darker_than_right(side, pixels, col, row) by {
            if row < rows - 1 {
                assert(row * side + side <= (rows - 1) * side) by (nonlinear_arith)
                    requires
                        row < rows - 1,
                        0 < side,
                ;
                assert(before[pixel_index(side, col, row)] == darker_than_right(
                    side,
                    pixels,
                    col,
                    row,
                ));
            } else {
                assert(pixel_index(side, col, row) - before.len() == col);
                assert(last[col] == darker_than_right(side, pixels, col, row));
            }
        }
    } else {
        assert(rows * side == 0) by (nonlinear_arith)
            requires
                rows == 0,
        ;
    }
}

/// The hash of a square with side `side` has `side * side` bits: one
/// comparison for each pixel, 64 for a side of 8 and 256 for a side of 16.
/// The bit at a pixel's position says whether that pixel is darker than its
/// right-hand neighbour.
pub proof fn lemma_fingerprint(side: int, pixels: Seq<u8>)
    requires
        0 < side,
    ensures
        fingerprint_of(side, pixels).len() == side * side,
        side == 8 ==> fingerprint_of(side, pixels).len() == 64,
        side == 16 ==> fingerprint_of(side, pixels).len() == 256,
        forall|col: int, row: int|
            0 <= col < side && 0 <= row < side ==> #[trigger] fingerprint_of(
                side,
                pixels,
            )[pixel_index(side, col, row)] == darker_than_right(side, pixels, col, row),
{
    lemma_rows_bits(side, pixels, side);
}

/// A square image of grey intensities, one byte for each pixel, row by row.
#[derive(Debug)]
pub struct GrayGrid {
    side: u32,
    pixels: Vec<u8>,
}

impl GrayGrid {
    /// The number of pixels in a row, which is also the number of rows.
    pub closed spec fn side(self) -> u32 {
        self.side
    }

    /// The intensities, row by row.
    pub closed spec fn pixels(self) -> Seq<u8> {
        self.pixels@
    }

    /// A grid holds exactly `side * side` intensities, and its side is one
    /// that a hash can be made with.
    #[verifier::type_invariant]
    pub open spec fn well_formed(self) -> bool {
        &&& valid_side(self.side())
        &&& self.pixels().len() == self.side() * self.side()
    }

    /// The grid with the given side and intensities, row by row; `None`
    /// unless the side is valid and there are `side * side` intensities.
    pub fn new(side: u32, pixels: Vec<u8>) -> (grid: Option<GrayGrid>)
        ensures
            grid is Some <==> valid_side(side) && pixels@.len() == side * side,
            grid matches Some(g) ==> g.side() == side && g.pixels() == pixels@,
    {
        if side == 0 {
            return None;
        }
        let area = match side.checked_mul(side) {
            Some(area) => area,
            None => {
                return None;
            },
        };
        if area as u64 > (usize::MAX / 8) as u64 || pixels.len() as u64 != area as u64 {
            return None;
        }
        Some(GrayGrid::from_square(side, pixels))
    }

    /// The grid with the given side and intensities, where these are known
    /// to fit.
    pub(crate) fn from_square(side: u32, pixels: Vec<u8>) -> (grid: GrayGrid)
        requires
            valid_side(side),
            pixels@.len() == side * side,
        ensures
            grid.side() == side,
            grid.pixels() == pixels@,
    {
        GrayGrid { side, pixels }
    }

    /// The number of pixels in a row.
    pub fn side_len(&self) -> (side: u32)
        ensures
            side == self.side(),
    {
        self.side
    }

    /// The intensity of pixel (`col`, `row`).
    pub fn intensity(&self, col: u32, row: u32) -> (value: u8)
        requires
            col < self.side(),
            row < self.side(),
        ensures
            value == self.pixels()[pixel_index(self.side() as int, col as int, row as int)],
    {
        proof {
            use_type_invariant(self);
            lemma_pixel_index(self.side as int, col as int, row as int);
        }
        self.pixels[row as usize * self.side as usize + col as usize]
    }

    /// The difference hash of the grid: for each row from the top, for each
    /// column from the left, whether the pixel is darker than the one to its
    /// right, the last column being compared with the first.
    pub fn fingerprint(&self) -> (hash: Bits)
        ensures
            hash@ == fingerprint_of(self.side() as int, self.pixels()),
            hash@.len() == self.side() * self.side(),
    {
        proof {
            use_type_invariant(self);
        }
        let side_size = self.side;
        let ghost side = side_size as int;
        let ghost pixels = self.pixels@;
        let mut hash = bits::with_capacity((side_size * side_size) as usize);

        // compare each horizontal pixel pair (wrap for the last pixel)
        let mut row: u32 = 0;
        while row < side_size
            invariant
                side == side_size == self.side(),
                pixels == self.pixels(),
                valid_side(side_size),
                row <= side_size,
                hash@ == rows_bits(side, pixels, row as int),
            decreases side_size - row,
        {
            let mut col: u32 = 0;
            while col < side_size
                invariant
                    side == side_size == self.side(),
                    pixels == self.pixels(),
                    valid_side(side_size),
                    row < side_size,
                    col <= side_size,
                    hash@ == rows_bits(side, pixels, row as int) + row_bits(
                        side,
                        pixels,
                        row as int,
                    ).take(col as int),
                decreases side_size - col,
            {
                let left = self.intensity(col, row);
                let right = self.intensity((col + 1) % side_size, row);
                proof {
                    lemma_rows_bits(side, pixels, row as int);
                    assert(row * side + col < side * side) by (nonlinear_arith)
                        requires
                            0 <= row < side,
                            0 <= col < side,
                    ;
                }
                bits::push(&mut hash, left < right);
                assert(hash@ =~= rows_bits(side, pixels, row as int) + row_bits(
                    side,
                    pixels,
                    row as int,
                ).take(col + 1));
                col += 1;
            }
            assert(row_bits(side, pixels, row as int).take(side) =~= row_bits(
                side,
                pixels,
                row as int,
            ));
            row += 1;
        }
        proof {
            lemma_rows_bits(side, pixels, side);
        }
        hash
    }
}

} // verus!
