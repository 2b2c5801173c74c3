//! The layout of a sheet of sprites: square tiles in rows of a fixed number
//! of columns, with a gap between them.

use vstd::prelude::*;

verus! {

/// A rectangle of pixels.
#[derive(Clone, Copy, Debug, PartialEq, Eq, Structural)]
pub struct TileRect {
    pub x: i32,
    pub y: i32,
    pub width: u32,
    pub height: u32,
}

/// The measures of a sheet of sprites.
#[derive(Clone, Copy, Debug, PartialEq, Eq, Structural)]
pub struct SpriteSheet {
    pub tile_size: u32,
    pub spacing: u32,
    pub columns: u32,
}

impl SpriteSheet {
    /// The distance from one tile of the sheet to the next.
    pub open spec fn pitch(self) -> int {
        self.tile_size + self.spacing
    }

    /// The sheet has a tile of the given index, and the corner of that tile
    /// has pixel coordinates.
    pub open spec fn holds(self, index: usize) -> bool {
        &&& self.columns > 0
        &&& index <= u32::MAX
        &&& self.pitch() <= i32::MAX
        &&& (index / self.columns as usize) * self.pitch() <= i32::MAX
        &&& (index % self.columns as usize) * self.pitch() <= i32::MAX
    }

    pub fn new(tile_size: u32, spacing: u32, columns: u32) -> (sheet: SpriteSheet)
        ensures
            sheet == (SpriteSheet { tile_size, spacing, columns }),
    {
        SpriteSheet { tile_size, spacing, columns }
    }

    /// Whether the sheet has a tile of the given index whose corner has pixel
    /// coordinates.
    pub fn has_tile(&self, index: usize) -> (held: bool)
        ensures
            held == self.holds(index),
    {
        if self.columns == 0 || index > u32::MAX as usize {
            return false;
        }
        let pitch: u128 = self.tile_size as u128 + self.spacing as u128;
        let row: u128 = (index / self.columns as usize) as u128;
        let col: u128 = (index % self.columns as usize) as u128;
        let limit: u128 = i32::MAX as u128;
        assert(row * pitch <= 0xFFFF_FFFF * 0x1_FFFF_FFFE && col * pitch <= 0xFFFF_FFFF
            * 0x1_FFFF_FFFE) by (nonlinear_arith)
            requires
                row <= 0xFFFF_FFFF,
                col <= 0xFFFF_FFFF,
                pitch <= 0x1_FFFF_FFFE,
        ;
        pitch <= limit && row * pitch <= limit && col * pitch <= limit
    }

    /// The rectangle of the tile of the given index, if the sheet has one.
    pub fn try_get_tile_rect(&self, index: usize) -> (rect: Option<TileRect>)
        ensures
            rect is Some <==> self.holds(index),
            rect matches Some(r) ==> {
                &&& r.x == (index % self.columns as usize) * self.pitch()
                &&& r.y == (index / self.columns as usize) * self.pitch()
                &&& r.width == self.tile_size
                &&& r.height == self.tile_size
            },
    {
        if self.has_tile(index) {
            Some(self.get_tile_rect(index))
        } else {
            None
        }
    }

    /// The rectangle of the tile of the given index, counted row by row.
    pub fn get_tile_rect(&self, index: usize) -> (rect: TileRect)
        requires
            self.holds(index),
        ensures
            rect.x == (index % self.columns as usize) * self.pitch(),
            rect.y == (index / self.columns as usize) * self.pitch(),
            rect.width == self.tile_size,
            rect.height == self.tile_size,
    {
        let row: u32 = index as u32 / self.columns;
        let col: u32 = index as u32 % self.columns;
        let pitch: i64 = self.tile_size as i64 + self.spacing as i64;
        assert(0 <= col * pitch <= i32::MAX && 0 <= row * pitch <= i32::MAX) by (nonlinear_arith)
            requires
                col * pitch <= i32::MAX,
                row * pitch <= i32::MAX,
                0 <= col,
                0 <= row,
                0 <= pitch,
        ;
        TileRect {
            x: (col as i64 * pitch) as i32,
            y: (row as i64 * pitch) as i32,
            width: self.tile_size,
            height: self.tile_size,
        }
    }
}

} // verus!
