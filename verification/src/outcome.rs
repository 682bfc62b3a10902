//! What the grid's queries hand back.

use vstd::prelude::*;

verus! {

/// The move was taken as asked, along one axis or not at all.
pub const DEFERRAL_NONE: u8 = 0;

/// The move was replaced by a shuffle or a slide.
pub const DEFERRAL_DEFAULT: u8 = 1;

/// The move was taken as asked, along both axes.
pub const DEFERRAL_DIAGONAL: u8 = 2;

/// The footprint stands over a drop-off.
pub const EVENT_FALLING: u8 = 1;

/// What became of a move: whether it is legal, how it was made legal, the
/// level on which the footprint then stands, and the move to make.
#[derive(Debug)]
pub struct MoveResult {
    pub valid: bool,
    pub deferral: u8,
    pub level: i8,
    pub mx: i8,
    pub my: i8,
}

impl MoveResult {
    /// A result with the given parts.
    pub fn new(valid: bool, deferral: u8, level: i8, mx: i8, my: i8) -> (r: MoveResult)
        ensures
            r == (MoveResult { valid, deferral, level, mx, my }),
    {
        MoveResult { valid, deferral, level, mx, my }
    }

    /// The parts of the result: validity, deferral, level, and the move.
    pub fn as_tuple(&self) -> (t: (bool, u8, i8, i8, i8))
        ensures
            t == (self.valid, self.deferral, self.level, self.mx, self.my),
    {
        (self.valid, self.deferral, self.level, self.mx, self.my)
    }
}

/// Something that awaits a footprint where it stands.
#[derive(Debug)]
pub struct MapEvent {
    event_type: u8,
    value: u8,
}

impl View for MapEvent {
    type V = (u8, u8);

    /// The kind of the event and the value it carries.
    closed spec fn view(&self) -> (u8, u8) {
        (self.event_type, self.value)
    }
}

impl MapEvent {
    /// The event of falling to the level `value`.
    pub fn falling_event(value: u8) -> (r: MapEvent)
        ensures
            r@ == (EVENT_FALLING, value),
    {
        MapEvent { event_type: EVENT_FALLING, value }
    }

    /// The kind of the event and the value it carries.
    pub fn as_tuple(&self) -> (t: (u8, u8))
        ensures
            t == self@,
    {
        (self.event_type, self.value)
    }
}

/// The masks of one tile that hide a sprite, as a mathematical value.
pub struct MaskRecord {
    pub tx: u8,
    pub ty: u8,
    pub tile_indices: Seq<u8>,
}

/// The masks of one tile that hide a sprite, with the tile's place.
#[derive(Debug, PartialEq)]
pub struct TileMasks {
    tx: u8,
    ty: u8,
    tile_indices: Vec<u8>,
}

impl View for TileMasks {
    type V = MaskRecord;

    closed spec fn view(&self) -> MaskRecord {
        MaskRecord { tx: self.tx, ty: self.ty, tile_indices: self.tile_indices@ }
    }
}

impl TileMasks {
    /// A record for the tile in column `tx` of row `ty`.
    pub fn new(tx: u8, ty: u8, tile_indices: Vec<u8>) -> (r: TileMasks)
        ensures
            r@ == (MaskRecord { tx, ty, tile_indices: tile_indices@ }),
    {
        TileMasks { tx, ty, tile_indices }
    }

    /// The tile's column.
    pub fn tx(&self) -> (r: u8)
        ensures
            r == self@.tx,
    {
        self.tx
    }

    /// The tile's row.
    pub fn ty(&self) -> (r: u8)
        ensures
            r == self@.ty,
    {
        self.ty
    }

    /// The tile indices of the masks, in the order of the tile's bands.
    pub fn tile_indices(&self) -> (r: &Vec<u8>)
        ensures
            r@ == self@.tile_indices,
    {
        &self.tile_indices
    }
}

} // verus!
