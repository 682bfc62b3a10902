//! One tile of the grid: the levels it can be walked on, its stairs, its
//! drop-offs, its occlusion bands, and a single slot of undo history.

use crate::mask::{all_representable, band_of, band_views, bands_of, Band, MaskInfo};
use std::collections::{BTreeMap, HashMap};
use vstd::prelude::*;

verus! {

broadcast use vstd::std_specs::btree::group_btree_axioms;

/// Whether a level is a half step between two floors.
pub open spec fn odd(n: int) -> bool {
    n % 2 == 1
}

/// The first value, in ascending key order, that `special` holds under a key
/// in `lo..hi`.
pub open spec fn first_hit(special: Map<i8, i8>, lo: int, hi: int) -> Option<i8>
    decreases hi - lo,
{
    if lo >= hi {
        None
    } else if i8::MIN <= lo <= i8::MAX && special.contains_key(lo as i8) {
        Some(special[lo as i8])
    } else {
        first_hit(special, lo + 1, hi)
    }
}

/// The stair that `level` belongs to: the entry under `level` itself or, for
/// an odd level without one, the first entry next to it.
pub open spec fn resolve_special(special: Map<i8, i8>, level: i8) -> Option<i8> {
    if special.contains_key(level) {
        Some(special[level])
    } else if odd(level as int) {
        first_hit(special, level - 1, level + 2)
    } else {
        None
    }
}

/// The stair table after one more raw marker: an odd marker is entered under
/// both even neighbours, an even one under itself.
pub open spec fn with_marker(special: Map<i8, i8>, marker: i8) -> Map<i8, i8> {
    if odd(marker as int) {
        special.insert((marker - 1) as i8, marker).insert((marker + 1) as i8, marker)
    } else {
        special.insert(marker, marker)
    }
}

/// Whether a raw marker is entered under `key`.
pub open spec fn claims(marker: i8, key: int) -> bool {
    if odd(marker as int) {
        key == marker - 1 || key == marker + 1
    } else {
        key == marker
    }
}

/// The stair table that a sequence of raw markers expands to; where two
/// markers claim one key, the later one has it.
pub open spec fn expand_markers(markers: Seq<i8>) -> Map<i8, i8>
    decreases markers.len(),
{
    if markers.len() == 0 {
        Map::empty()
    } else {
        with_marker(expand_markers(markers.drop_last()), markers.last())
    }
}

/// Whether every marker can be expanded: the odd marker 127 would need the
/// key 128.
pub open spec fn markers_expandable(markers: Seq<i8>) -> bool {
    forall|i: int| 0 <= i < markers.len() ==> #[trigger] markers[i] != i8::MAX
}

/// The drop-off table that a sequence of pairs builds; a later pair replaces
/// an earlier one with the same level.
pub open spec fn drop_table(pairs: Seq<(i8, u8)>) -> Map<i8, u8>
    decreases pairs.len(),
{
    if pairs.len() == 0 {
        Map::empty()
    } else {
        drop_table(pairs.drop_last()).insert(pairs.last().0, pairs.last().1)
    }
}

/// The tile indices of the bands that hide the sprite, in the bands' order.
pub open spec fn masking_indices(
    bands: Seq<Band>,
    depth: int,
    sprite_level: int,
    upright: bool,
) -> Seq<u8> {
    bands.filter(|b: Band| b.hides(depth, sprite_level, upright)).map_values(
        |b: Band| b.tile_index,
    )
}

/// The raw description of a tile, as a map definition gives it.
pub struct TileSource {
    pub levels: Seq<i8>,
    pub down_levels: Seq<(i8, u8)>,
    pub special_levels: Seq<i8>,
    pub masks: Seq<(u8, i8, bool, u8)>,
}

/// A tile as a mathematical value.
pub struct TileModel {
    pub levels: Seq<i8>,
    pub down_levels: Map<i8, u8>,
    pub special_levels: Map<i8, i8>,
    pub masks: Option<Seq<Band>>,
    pub undo: Option<Seq<i8>>,
}

impl TileSource {
    /// Whether a tile can be built from this description for the given tile
    /// size.
    pub open spec fn loadable(self, tile_size: u32) -> bool {
        &&& markers_expandable(self.special_levels)
        &&& all_representable(self.masks, tile_size)
    }

    /// The tile that this description stands for.
    pub open spec fn tile(self, tile_size: u32) -> TileModel {
        TileModel {
            levels: self.levels,
            down_levels: drop_table(self.down_levels),
            special_levels: expand_markers(self.special_levels),
            masks: if self.masks.len() == 0 {
                None
            } else {
                Some(bands_of(self.masks, tile_size))
            },
            undo: None,
        }
    }
}

impl TileModel {
    /// Whether the tile can be walked on at exactly this level, as a floor or
    /// as the edge of a drop.
    pub open spec fn walkable(self, level: i8) -> bool {
        self.levels.contains(level) || self.down_levels.contains_key(level)
    }

    /// How the tile answers a footprint at `level`: the strength of the match
    /// (1 or 0) and the stair it resolved to, if any.
    pub open spec fn validity_of(self, level: i8) -> (u8, Option<i8>) {
        if self.walkable(level) {
            (1, None)
        } else {
            match resolve_special(self.special_levels, level) {
                Some(v) => (
                    if v == level {
                        1u8
                    } else {
                        0u8
                    },
                    Some(v),
                ),
                None => (0, None),
            }
        }
    }

    /// The level that a footprint at `level` falls to from this tile, if it
    /// falls.
    pub open spec fn down_level_of(self, level: i8) -> Option<u8> {
        if self.down_levels.contains_key(level) {
            Some(self.down_levels[level])
        } else {
            None
        }
    }

    /// The tile with one more walkable level, and with the levels it had in
    /// its undo slot.
    pub open spec fn add_level(self, level: i8) -> TileModel {
        TileModel { levels: self.levels.push(level), undo: Some(self.levels), ..self }
    }

    /// The tile with the levels from its undo slot, and the slot empty. A
    /// tile with an empty slot stays as it is.
    pub open spec fn rollback(self) -> TileModel {
        match self.undo {
            Some(levels) => TileModel { levels, undo: None, ..self },
            None => self,
        }
    }

    /// The tile indices of the tile's bands that hide the sprite, if there is
    /// such a band.
    pub open spec fn masks_for(self, depth: int, sprite_level: int, upright: bool) -> Option<
        Seq<u8>,
    > {
        match self.masks {
            None => None,
            Some(bands) => {
                let indices = masking_indices(bands, depth, sprite_level, upright);
                if indices.len() == 0 {
                    None
                } else {
                    Some(indices)
                }
            },
        }
    }
}

/// The raw description of a tile: its walkable levels, its drop-offs as
/// pairs of a level and the level fallen to, its raw stair markers, and its
/// mask entries as tuples of mask tile index, level, flatness and tile row.
pub struct MapTileData {
    levels: Vec<i8>,
    down_levels: Vec<(i8, u8)>,
    special_levels: Vec<i8>,
    masks: Vec<(u8, i8, bool, u8)>,
}

impl View for MapTileData {
    type V = TileSource;

    closed spec fn view(&self) -> TileSource {
        TileSource {
            levels: self.levels@,
            down_levels: self.down_levels@,
            special_levels: self.special_levels@,
            masks: self.masks@,
        }
    }
}

impl MapTileData {
    /// A description with the given parts.
    pub fn new(
        levels: Vec<i8>,
        down_levels: Vec<(i8, u8)>,
        special_levels: Vec<i8>,
        masks: Vec<(u8, i8, bool, u8)>,
    ) -> (r: MapTileData)
        ensures
            r@ == (TileSource {
                levels: levels@,
                down_levels: down_levels@,
                special_levels: special_levels@,
                masks: masks@,
            }),
    {
        MapTileData { levels, down_levels, special_levels, masks }
    }

    /// The description of a wall: nothing can stand on it.
    pub fn empty() -> (r: MapTileData)
        ensures
            r@ == (TileSource {
                levels: Seq::empty(),
                down_levels: Seq::empty(),
                special_levels: Seq::empty(),
                masks: Seq::empty(),
            }),
    {
        Self::new(Vec::new(), Vec::new(), Vec::new(), Vec::new())
    }

    /// The description of a tile with walkable levels and nothing else.
    pub fn with_levels(levels: Vec<i8>) -> (r: MapTileData)
        ensures
            r@ == (TileSource {
                levels: levels@,
                down_levels: Seq::empty(),
                special_levels: Seq::empty(),
                masks: Seq::empty(),
            }),
    {
        Self::new(levels, Vec::new(), Vec::new(), Vec::new())
    }

    /// The description of a tile with drop-offs and nothing else.
    pub fn with_down_levels(down_levels: Vec<(i8, u8)>) -> (r: MapTileData)
        ensures
            r@ == (TileSource {
                levels: Seq::empty(),
                down_levels: down_levels@,
                special_levels: Seq::empty(),
                masks: Seq::empty(),
            }),
    {
        Self::new(Vec::new(), down_levels, Vec::new(), Vec::new())
    }

    /// The description of a tile with stair markers and nothing else.
    pub fn with_special_levels(special_levels: Vec<i8>) -> (r: MapTileData)
        ensures
            r@ == (TileSource {
                levels: Seq::empty(),
                down_levels: Seq::empty(),
                special_levels: special_levels@,
                masks: Seq::empty(),
            }),
    {
        Self::new(Vec::new(), Vec::new(), special_levels, Vec::new())
    }

    /// The description of a tile with mask entries and nothing else.
    pub fn with_masks(masks: Vec<(u8, i8, bool, u8)>) -> (r: MapTileData)
        ensures
            r@ == (TileSource {
                levels: Seq::empty(),
                down_levels: Seq::empty(),
                special_levels: Seq::empty(),
                masks: masks@,
            }),
    {
        Self::new(Vec::new(), Vec::new(), Vec::new(), masks)
    }

    /// Decides whether a tile can be built from this description.
    pub fn loadable(&self, tile_size: u32) -> (r: bool)
        ensures
            r == self@.loadable(tile_size),
    {
        let mut i: usize = 0;
        while i < self.special_levels.len()
            invariant
                i <= self.special_levels.len(),
                forall|k: int| 0 <= k < i ==> #[trigger] self.special_levels[k] != i8::MAX,
            decreases self.special_levels.len() - i,
        {
            if self.special_levels[i] == i8::MAX {
                return false;
            }
            i += 1;
        }
        let mut j: usize = 0;
        while j < self.masks.len()
            invariant
                j <= self.masks.len(),
                markers_expandable(self.special_levels@),
                forall|k: int|
                    0 <= k < j ==> (#[trigger] band_of(self.masks[k], tile_size)).representable(),
            decreases self.masks.len() - j,
        {
            let (tile_index, level, flat, ty) = self.masks[j];
            if !MaskInfo::representable(tile_index, level, flat, ty, tile_size) {
                return false;
            }
            j += 1;
        }
        true
    }
}

/// Decides `odd`.
pub(crate) fn is_odd(number: i8) -> (r: bool)
    ensures
        r == odd(number as int),
{
    number % 2 != 0
}

/// Whether `level` is among `levels`.
fn contains_level(levels: &Vec<i8>, level: i8) -> (r: bool)
    ensures
        r == levels@.contains(level),
{
    let mut i: usize = 0;
    while i < levels.len()
        invariant
            i <= levels.len(),
            forall|k: int| 0 <= k < i ==> levels[k] != level,
        decreases levels.len() - i,
    {
        if levels[i] == level {
            return true;
        }
        i += 1;
    }
    false
}

/// A tile of the grid.
#[derive(Debug)]
pub struct MapTile {
    levels: Vec<i8>,
    down_levels: HashMap<i8, u8>,
    special_levels: BTreeMap<i8, i8>,
    masks: Option<Vec<MaskInfo>>,
    old_levels: Option<Vec<i8>>,
}

impl View for MapTile {
    type V = TileModel;

    closed spec fn view(&self) -> TileModel {
        TileModel {
            levels: self.levels@,
            down_levels: self.down_levels@,
            special_levels: self.special_levels@,
            masks: match self.masks {
                Some(v) => Some(band_views(v@)),
                None => None,
            },
            undo: match self.old_levels {
                Some(v) => Some(v@),
                None => None,
            },
        }
    }
}

impl MapTile {
    /// A tile with the given tables and an empty undo slot.
    pub fn new(
        levels: Vec<i8>,
        down_levels: HashMap<i8, u8>,
        special_levels: BTreeMap<i8, i8>,
        masks: Option<Vec<MaskInfo>>,
    ) -> (r: MapTile)
        ensures
            r@ == (TileModel {
                levels: levels@,
                down_levels: down_levels@,
                special_levels: special_levels@,
                masks: match masks {
                    Some(v) => Some(band_views(v@)),
                    None => None,
                },
                undo: None,
            }),
    {
        MapTile { levels, down_levels, special_levels, masks, old_levels: None }
    }

    /// The tile that a raw description stands for: its stair markers are
    /// expanded, its drop-offs entered in their order, its bands computed for
    /// the given tile size. The description has to be loadable for that tile
    /// size.
    pub fn from_data(map_tile_data: MapTileData, tile_size: &u32) -> (r: MapTile)
        requires
            map_tile_data@.loadable(*tile_size),
        ensures
            r@ == map_tile_data@.tile(*tile_size),
    {
        let MapTileData { levels, down_levels, special_levels, masks } = map_tile_data;
        let mut drops: HashMap<i8, u8> = HashMap::new();
        let mut i: usize = 0;
        while i < down_levels.len()
            invariant
                i <= down_levels.len(),
                drops@ == drop_table(down_levels@.take(i as int)),
            decreases down_levels.len() - i,
        {
            let (level, target) = down_levels[i];
            assert(down_levels@.take(i + 1).drop_last() == down_levels@.take(i as int));
            drops.insert(level, target);
            i += 1;
        }
        assert(down_levels@.take(i as int) == down_levels@);
        let mut stairs: BTreeMap<i8, i8> = BTreeMap::new();
        let mut j: usize = 0;
        while j < special_levels.len()
            invariant
                j <= special_levels.len(),
                markers_expandable(special_levels@),
                stairs@ == expand_markers(special_levels@.take(j as int)),
            decreases special_levels.len() - j,
        {
            let l = special_levels[j];
            assert(special_levels@.take(j + 1).drop_last() == special_levels@.take(j as int));
            if is_odd(l) {
                stairs.insert(l - 1, l);
                stairs.insert(l + 1, l);
            } else {
                stairs.insert(l, l);
            }
            j += 1;
        }
        assert(special_levels@.take(j as int) == special_levels@);
        MapTile::new(levels, drops, stairs, MapTile::masks_from_data(masks, tile_size))
    }

    /// The bands of the mask entries, or nothing where there are none.
    fn masks_from_data(mask_data: Vec<(u8, i8, bool, u8)>, tile_size: &u32) -> (r: Option<
        Vec<MaskInfo>,
    >)
        requires
            all_representable(mask_data@, *tile_size),
        ensures
            match r {
                Some(v) => mask_data.len() > 0 && band_views(v@) == bands_of(
                    mask_data@,
                    *tile_size,
                ),
                None => mask_data.len() == 0,
            },
    {
        let mask_infos = MaskInfo::from_data(mask_data, tile_size);
        assert(band_views(mask_infos@).len() == mask_infos.len());
        if mask_infos.is_empty() {
            None
        } else {
            Some(mask_infos)
        }
    }

    /// The tile indices of the bands that hide the sprite.
    fn get_masking_indices(
        mask_infos: &Vec<MaskInfo>,
        sprite_z: i32,
        sprite_level: i8,
        sprite_upright: bool,
    ) -> (r: Vec<u8>)
        ensures
            r@ == masking_indices(
                band_views(mask_infos@),
                sprite_z as int,
                sprite_level as int,
                sprite_upright,
            ),
    {
        let ghost bands = band_views(mask_infos@);
        let mut out: Vec<u8> = Vec::new();
        let mut i: usize = 0;
        while i < mask_infos.len()
            invariant
                i <= mask_infos.len(),
                bands == band_views(mask_infos@),
                out@ == masking_indices(
                    bands.take(i as int),
                    sprite_z as int,
                    sprite_level as int,
                    sprite_upright,
                ),
            decreases mask_infos.len() - i,
        {
            let mi = &mask_infos[i];
            proof {
                reveal(Seq::filter);
                assert(bands.take(i + 1).drop_last() == bands.take(i as int));
                assert(bands.take(i + 1).last() == mi@);
            }
            if mi.hides(sprite_z, sprite_level, sprite_upright) {
                out.push(mi.tile_index());
            }
            i += 1;
        }
        assert(bands.take(i as int) == bands);
        out
    }

    /// The stair that `level` belongs to on this tile.
    fn get_special_level(&self, level: i8) -> (r: Option<i8>)
        ensures
            r == resolve_special(self@.special_levels, level),
    {
        if let Some(l) = self.special_levels.get(&level) {
            return Some(*l);
        }
        if is_odd(level) {
            let mut key: i16 = level as i16 - 1;
            while key < level as i16 + 2
                invariant
                    level - 1 <= key <= level + 2,
                    odd(level as int),
                    !self@.special_levels.contains_key(level),
                    first_hit(self@.special_levels, level - 1, level + 2) == first_hit(
                        self@.special_levels,
                        key as int,
                        level + 2,
                    ),
                decreases level + 2 - key,
            {
                if -128 <= key && key <= 127 {
                    if let Some(l) = self.special_levels.get(&(key as i8)) {
                        return Some(*l);
                    }
                }
                key += 1;
            }
        }
        None
    }

    /// The level that a footprint at `level` falls to from this tile.
    pub fn get_down_level(&self, level: i8) -> (r: Option<u8>)
        ensures
            r == self@.down_level_of(level),
    {
        if let Some(dl) = self.down_levels.get(&level) {
            return Some(*dl);
        }
        None
    }

    /// How the tile answers a footprint at `level`: the strength of the match
    /// and the stair it resolved to.
    pub fn get_validity_of(&self, level: i8) -> (r: (u8, Option<i8>))
        ensures
            r == self@.validity_of(level),
            self@.levels.contains(level) ==> r == (1u8, None::<i8>),
    {
        if contains_level(&self.levels, level) {
            return (1, None);
        }
        if self.down_levels.contains_key(&level) {
            return (1, None);
        }
        let special_level = self.get_special_level(level);
        if let Some(v) = special_level {
            return if v == level {
                (1, Some(v))
            } else {
                (0, Some(v))
            };
        }
        (0, None)
    }

    /// Adds a walkable level and remembers the levels as they were. What an
    /// earlier call remembered is lost.
    pub fn add_level(&mut self, level: i8)
        ensures
            final(self)@ == old(self)@.add_level(level),
    {
        self.old_levels = Some(self.levels.clone());
        self.levels.push(level);
    }

    /// Puts back the levels that the last `add_level` remembered, if any are
    /// remembered still.
    pub fn rollback(&mut self)
        ensures
            final(self)@ == old(self)@.rollback(),
    {
        if let Some(levels) = self.old_levels.take() {
            self.levels = levels;
        }
    }

    /// The tile indices of the tile's bands that hide a sprite at depth
    /// `sprite_z` on `sprite_level`.
    pub fn get_masks(&self, sprite_z: i32, sprite_level: i8, sprite_upright: bool) -> (r: Option<
        Vec<u8>,
    >)
        ensures
            match r {
                Some(v) => Some(v@),
                None => None,
            } == self@.masks_for(sprite_z as int, sprite_level as int, sprite_upright),
    {
        match &self.masks {
            None => None,
            Some(mask_infos) => {
                let tile_indices = MapTile::get_masking_indices(
                    mask_infos,
                    sprite_z,
                    sprite_level,
                    sprite_upright,
                );
                if tile_indices.is_empty() {
                    None
                } else {
                    Some(tile_indices)
                }
            },
        }
    }
}

/// A level that the tile lists as walkable matches with full strength and
/// resolves to no stair, whatever the tile's stairs and drop-offs are.
pub proof fn lemma_listed_level_matches(tile: TileModel, level: i8)
    requires
        tile.levels.contains(level),
    ensures
        tile.validity_of(level) == (1u8, None::<i8>),
{
}

/// No stair table holds an odd key.
pub proof fn lemma_keys_even(markers: Seq<i8>)
    requires
        markers_expandable(markers),
    ensures
        forall|k: i8| #[trigger] expand_markers(markers).contains_key(k) ==> !odd(k as int),
    decreases markers.len(),
{
    if markers.len() > 0 {
        assert(markers.last() == markers[markers.len() - 1]);
        assert forall|i: int| 0 <= i < markers.drop_last().len() implies #[trigger] markers.drop_last()[i]
            != i8::MAX by {
            assert(markers.drop_last()[i] == markers[i]);
        }
        lemma_keys_even(markers.drop_last());
        let front = expand_markers(markers.drop_last());
        let m = markers.last();
        assert forall|k: i8| #[trigger] expand_markers(markers).contains_key(k) implies !odd(
            k as int,
        ) by {
            if !front.contains_key(k) {
                assert(claims(m, k as int));
            }
        }
    }
}

/// A key belongs to the last marker that claims it.
pub proof fn lemma_last_claim_holds(markers: Seq<i8>, i: int, key: i8)
    requires
        markers_expandable(markers),
        0 <= i < markers.len(),
        claims(markers[i], key as int),
        forall|j: int| i < j < markers.len() ==> !claims(#[trigger] markers[j], key as int),
    ensures
        expand_markers(markers).contains_key(key),
        expand_markers(markers)[key] == markers[i],
    decreases markers.len(),
{
    assert(markers.last() == markers[markers.len() - 1]);
    if i < markers.len() - 1 {
        let front = markers.drop_last();
        assert forall|j: int| 0 <= j < front.len() implies #[trigger] front[j] != i8::MAX by {
            assert(front[j] == markers[j]);
        }
        assert(front[i] == markers[i]);
        assert forall|j: int| i < j < front.len() implies !claims(#[trigger] front[j], key as int) by {
            assert(front[j] == markers[j]);
        }
        lemma_last_claim_holds(front, i, key);
    }
}

/// Stair pairing. Let the odd marker `l` stand at place `i` of a tile's raw
/// markers, and let no later marker claim `l - 1` or `l + 1`. Then the tile
/// resolves `l - 1`, `l + 1` and `l` itself to the stair `l`. Asked for one
/// of the two even neighbours it answers with strength 0 and the stair `l`,
/// asked for `l` with strength 1 and the stair `l`; a level at which the
/// tile is walkable matches with strength 1 and no stair, as everywhere.
pub proof fn lemma_stair_pairing(source: TileSource, tile_size: u32, i: int)
    requires
        markers_expandable(source.special_levels),
        0 <= i < source.special_levels.len(),
        odd(source.special_levels[i] as int),
        forall|j: int|
            i < j < source.special_levels.len() ==> !claims(
                #[trigger] source.special_levels[j],
                source.special_levels[i] - 1,
            ) && !claims(source.special_levels[j], source.special_levels[i] + 1),
    ensures
        ({
            let l = source.special_levels[i];
            let below = (l - 1) as i8;
            let above = (l + 1) as i8;
            let tile = source.tile(tile_size);
            &&& below == l - 1 && above == l + 1
            &&& resolve_special(tile.special_levels, below) == Some(l)
            &&& resolve_special(tile.special_levels, above) == Some(l)
            &&& resolve_special(tile.special_levels, l) == Some(l)
            &&& tile.validity_of(below) == if tile.walkable(below) {
                (1u8, None::<i8>)
            } else {
                (0u8, Some(l))
            }
            &&& tile.validity_of(above) == if tile.walkable(above) {
                (1u8, None::<i8>)
            } else {
                (0u8, Some(l))
            }
            &&& tile.validity_of(l) == if tile.walkable(l) {
                (1u8, None::<i8>)
            } else {
                (1u8, Some(l))
            }
        }),
{
    let markers = source.special_levels;
    let l = markers[i];
    let below = (l - 1) as i8;
    let above = (l + 1) as i8;
    lemma_keys_even(markers);
    lemma_last_claim_holds(markers, i, below);
    lemma_last_claim_holds(markers, i, above);
    let special = expand_markers(markers);
    assert(!special.contains_key(l));
    assert(first_hit(special, l - 1, l + 2) == Some(l));
}

/// A second rollback changes nothing.
pub proof fn lemma_rollback_idempotent(tile: TileModel)
    ensures
        tile.rollback().rollback() == tile.rollback(),
{
}

/// Only the last change to a tile's levels can be undone. After two added
/// levels a rollback gives the levels as they were before the second, and no
/// further rollback brings back those from before the first.
pub proof fn lemma_single_level_undo(tile: TileModel, a: i8, b: i8)
    ensures
        ({
            let once = tile.add_level(a);
            let undone = once.add_level(b).rollback();
            &&& undone.levels == once.levels
            &&& undone.levels == tile.levels.push(a)
            &&& undone.undo is None
            &&& undone.rollback() == undone
            &&& undone.down_levels == tile.down_levels
            &&& undone.special_levels == tile.special_levels
            &&& undone.masks == tile.masks
        }),
{
}

/// A rollback undoes the `add_level` before it.
pub proof fn lemma_rollback_undoes_add(tile: TileModel, level: i8)
    ensures
        tile.add_level(level).rollback().levels == tile.levels,
        tile.add_level(level).rollback() == (TileModel { undo: None, ..tile }),
{
}

} // verus!
