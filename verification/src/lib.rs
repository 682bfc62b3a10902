//! Spatial queries on a tile grid whose tiles can be walked on at several
//! levels.
//!
//! A tile lists the levels at which it is a floor, the stairs it belongs to,
//! its drop-offs and its occlusion bands. The grid decides whether a moving
//! footprint may make a move at its level, and if it may not, whether a small
//! shuffle sideways or a slide along one axis may be made in its place. It
//! also says whether a footprint stands over a drop, and which masks of the
//! tiles under a sprite hide it.
//!
//! Each type has a mathematical value, its view, and each function says in
//! its contract what it returns in terms of those values: [`Footprint`] for
//! [`Rect`], [`Band`] for [`MaskInfo`], [`TileSource`] and [`TileModel`] for
//! [`MapTileData`] and [`MapTile`], [`GridSource`] and [`GridModel`] for
//! [`PlayMapData`] and [`PlayMap`].

pub mod grid;
pub mod mask;
pub mod outcome;
pub mod play_map;
pub mod rect;
pub mod shuffle;
pub mod span;
pub mod tile;

pub use grid::{GridModel, GridSource};
pub use mask::{Band, MaskInfo};
pub use outcome::{
    MapEvent, MaskRecord, MoveResult, TileMasks, DEFERRAL_DEFAULT, DEFERRAL_DIAGONAL,
    DEFERRAL_NONE, EVENT_FALLING,
};
pub use play_map::{PlayMap, PlayMapData};
pub use rect::{Footprint, Rect};
pub use shuffle::{Shuffle, ShufflePlan};
pub use tile::{MapTile, MapTileData, TileModel, TileSource};
