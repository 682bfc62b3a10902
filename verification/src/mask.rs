//! Occlusion bands: the depth interval in which one mask entry of a tile
//! hides a sprite.

use vstd::prelude::*;

verus! {

/// An occlusion band as a mathematical value.
pub struct Band {
    pub tile_index: u8,
    pub level: i8,
    pub flat: bool,
    pub z1: int,
    pub z2: int,
}

impl Band {
    /// Both depth bounds are `i32` values.
    pub open spec fn representable(self) -> bool {
        i32::MIN <= self.z1 && self.z2 <= i32::MAX
    }

    /// Whether this band hides a sprite at `depth` standing on `sprite_level`.
    /// A flat band must lie strictly above the sprite, a raised one may share
    /// its level; an upright sprite is held against the near bound, a flat
    /// one against the far bound.
    pub open spec fn hides(self, depth: int, sprite_level: int, upright: bool) -> bool {
        &&& if self.flat {
            self.level > sprite_level
        } else {
            self.level >= sprite_level
        }
        &&& if upright {
            self.z1 > depth
        } else {
            self.z2 > depth
        }
    }
}

/// The band that a mask entry `(tile index, level, flat, tile row)` stands for
/// on a grid of the given tile size: it starts at `(row + level + 1)` tiles
/// and is one tile deep when flat, two when raised.
pub open spec fn band_of(mask: (u8, i8, bool, u8), tile_size: u32) -> Band {
    let z1 = tile_size * (mask.3 + mask.1 + 1);
    Band {
        tile_index: mask.0,
        level: mask.1,
        flat: mask.2,
        z1,
        z2: if mask.2 {
            z1 + tile_size
        } else {
            z1 + 2 * tile_size
        },
    }
}

/// The bands that a tile's mask entries stand for, in their order.
pub open spec fn bands_of(masks: Seq<(u8, i8, bool, u8)>, tile_size: u32) -> Seq<Band> {
    masks.map_values(|m: (u8, i8, bool, u8)| band_of(m, tile_size))
}

/// Every mask entry stands for a band with `i32` depth bounds.
pub open spec fn all_representable(masks: Seq<(u8, i8, bool, u8)>, tile_size: u32) -> bool {
    forall|i: int| 0 <= i < masks.len() ==> (#[trigger] band_of(masks[i], tile_size)).representable()
}

/// An occlusion band with `i32` depth bounds. It never changes once built.
#[derive(Debug)]
pub struct MaskInfo {
    tile_index: u8,
    level: i8,
    flat: bool,
    z1: i32,
    z2: i32,
}

impl View for MaskInfo {
    type V = Band;

    closed spec fn view(&self) -> Band {
        Band {
            tile_index: self.tile_index,
            level: self.level,
            flat: self.flat,
            z1: self.z1 as int,
            z2: self.z2 as int,
        }
    }
}

/// The bands as mathematical values.
pub open spec fn band_views(masks: Seq<MaskInfo>) -> Seq<Band> {
    masks.map_values(|m: MaskInfo| m@)
}

impl MaskInfo {
    /// Decides whether `new` can build the band of this mask entry.
    pub fn representable(tile_index: u8, level: i8, flat: bool, ty: u8, tile_size: u32) -> (r:
        bool)
        ensures
            r == band_of((tile_index, level, flat, ty), tile_size).representable(),
    {
        let (z1, z2) = depth_bounds(level, flat, ty, tile_size);
        i32::MIN as i64 <= z1 && z2 <= i32::MAX as i64
    }

    /// The band of one mask entry of a tile in row `ty`. Its depth bounds
    /// have to be in range.
    pub fn new(tile_index: u8, level: i8, flat: bool, ty: u8, tile_size: u32) -> (r: MaskInfo)
        requires
            band_of((tile_index, level, flat, ty), tile_size).representable(),
        ensures
            r@ == band_of((tile_index, level, flat, ty), tile_size),
    {
        let (z1, z2) = depth_bounds(level, flat, ty, tile_size);
        MaskInfo { tile_index, level, flat, z1: z1 as i32, z2: z2 as i32 }
    }

    /// The bands of a tile's mask entries, in their order. The depth bounds
    /// of each have to be in range.
    pub fn from_data(mask_data: Vec<(u8, i8, bool, u8)>, tile_size: &u32) -> (r: Vec<MaskInfo>)
        requires
            all_representable(mask_data@, *tile_size),
        ensures
            band_views(r@) == bands_of(mask_data@, *tile_size),
    {
        let mut out: Vec<MaskInfo> = Vec::new();
        let mut i: usize = 0;
        while i < mask_data.len()
            invariant
                i <= mask_data.len(),
                all_representable(mask_data@, *tile_size),
                out.len() == i,
                forall|k: int| 0 <= k < i ==> (#[trigger] out[k])@ == band_of(mask_data[k], *tile_size),
            decreases mask_data.len() - i,
        {
            let (tile_index, level, flat, ty) = mask_data[i];
            assert(band_of(mask_data[i as int], *tile_size).representable());
            out.push(MaskInfo::new(tile_index, level, flat, ty, *tile_size));
            i += 1;
        }
        assert(band_views(out@) =~= bands_of(mask_data@, *tile_size));
        out
    }

    /// The index of the mask tile to draw.
    pub fn tile_index(&self) -> (r: u8)
        ensures
            r == self@.tile_index,
    {
        self.tile_index
    }

    /// Decides `hides` for this band.
    pub fn hides(&self, sprite_z: i32, sprite_level: i8, sprite_upright: bool) -> (r: bool)
        ensures
            r == self@.hides(sprite_z as int, sprite_level as int, sprite_upright),
    {
        let above = if self.flat {
            self.level > sprite_level
        } else {
            self.level >= sprite_level
        };
        let behind = if sprite_upright {
            self.z1 > sprite_z
        } else {
            self.z2 > sprite_z
        };
        above && behind
    }
}

/// The two depth bounds of a band, in as many bits as they may take.
fn depth_bounds(level: i8, flat: bool, ty: u8, tile_size: u32) -> (r: (i64, i64))
    ensures
        r.0 == band_of((0, level, flat, ty), tile_size).z1,
        r.1 == band_of((0, level, flat, ty), tile_size).z2,
{
    let ts: i64 = tile_size as i64;
    let rows: i64 = ty as i64 + level as i64 + 1;
    assert(-0x200_0000_0000 < ts * rows < 0x200_0000_0000) by (nonlinear_arith)
        requires
            0 <= ts < 0x1_0000_0000,
            -128 < rows < 512,
    ;
    let z1: i64 = ts * rows;
    let z2: i64 = if flat {
        z1 + ts
    } else {
        z1 + 2 * ts
    };
    (z1, z2)
}

/// A band is an interval of depths: one tile deep when flat, two when raised,
/// and so never empty on a grid whose tiles have an extent.
pub proof fn lemma_band_depth(mask: (u8, i8, bool, u8), tile_size: u32)
    ensures
        band_of(mask, tile_size).z2 - band_of(mask, tile_size).z1 == if mask.2 {
            tile_size as int
        } else {
            2 * tile_size
        },
        tile_size > 0 ==> band_of(mask, tile_size).z1 < band_of(mask, tile_size).z2,
{
}

/// A band hides no sprite that stands above it, and a flat band none that
/// stands on its own level, at whatever depth.
pub proof fn lemma_band_below_sprite(band: Band, depth: int, sprite_level: int, upright: bool)
    requires
        band.level < sprite_level || (band.flat && band.level == sprite_level),
    ensures
        !band.hides(depth, sprite_level, upright),
{
}

} // verus!
