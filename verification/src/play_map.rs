//! The grid: a row-major array of tiles, and the queries a moving footprint
//! puts to it.

use crate::grid::{
    at_least, at_most, first_footing, lemma_rem_bounds, mask_records, tiles_of, GridModel,
    GridSource, Placed, TileRange,
};
use crate::outcome::{
    MapEvent, MaskRecord, MoveResult, TileMasks, DEFERRAL_DEFAULT, DEFERRAL_DIAGONAL,
    DEFERRAL_NONE, EVENT_FALLING,
};
use crate::rect::Rect;
use crate::shuffle::Shuffle;
use crate::span::{
    all_match, all_stairs, highest, lemma_invalid_span_keeps_level, lowest, span_valid, stairs,
};
use crate::tile::{is_odd, MapTile, MapTileData, TileModel, TileSource};
use vstd::prelude::*;

verus! {

/// A map definition: the extent of the grid, the size of a tile in pixels,
/// and the description of each tile, row by row.
pub struct PlayMapData {
    rows: u8,
    cols: u8,
    tile_data: Vec<MapTileData>,
    tile_size: u32,
}

/// The tile descriptions as mathematical values.
pub open spec fn source_views(tile_data: Seq<MapTileData>) -> Seq<TileSource> {
    tile_data.map_values(|t: MapTileData| t@)
}

impl View for PlayMapData {
    type V = GridSource;

    closed spec fn view(&self) -> GridSource {
        GridSource {
            rows: self.rows,
            cols: self.cols,
            tile_data: source_views(self.tile_data@),
            tile_size: self.tile_size,
        }
    }
}

impl PlayMapData {
    /// A definition with the given parts.
    pub fn new(rows: u8, cols: u8, tile_data: Vec<MapTileData>, tile_size: u32) -> (r:
        PlayMapData)
        ensures
            r@ == (GridSource { rows, cols, tile_data: source_views(tile_data@), tile_size }),
    {
        PlayMapData { rows, cols, tile_data, tile_size }
    }

    /// Decides whether a grid can be built from this definition.
    pub fn loadable(&self) -> (r: bool)
        ensures
            r == self@.loadable(),
    {
        if self.tile_size == 0 {
            return false;
        }
        let mut i: usize = 0;
        while i < self.tile_data.len()
            invariant
                i <= self.tile_data.len(),
                forall|k: int|
                    0 <= k < i ==> (#[trigger] source_views(self.tile_data@)[k]).loadable(
                        self.tile_size,
                    ),
            decreases self.tile_data.len() - i,
        {
            if !self.tile_data[i].loadable(self.tile_size) {
                assert(!self@.tile_data[i as int].loadable(self@.tile_size));
                return false;
            }
            i += 1;
        }
        true
    }
}

/// The grid. Its tiles have an extent of at least one pixel.
pub struct PlayMap {
    rows: u8,
    cols: u8,
    tiles: Vec<MapTile>,
    tile_size: u32,
}

/// The tiles as mathematical values.
pub open spec fn tile_models(tiles: Seq<MapTile>) -> Seq<TileModel> {
    tiles.map_values(|t: MapTile| t@)
}

/// The tiles behind the references, as mathematical values.
pub open spec fn tile_views(tiles: Seq<&MapTile>) -> Seq<TileModel> {
    tiles.map_values(|t: &MapTile| t@)
}

/// The strips as sequences of mathematical tiles.
pub open spec fn stripe_views(stripes: Seq<Vec<&MapTile>>) -> Seq<Seq<TileModel>> {
    stripes.map_values(|s: Vec<&MapTile>| tile_views(s@))
}

/// The tiles with their places, as mathematical values.
pub open spec fn placed_views(tiles: Seq<(u8, u8, &MapTile)>) -> Seq<Placed> {
    tiles.map_values(|t: (u8, u8, &MapTile)| Placed { x: t.0 as int, y: t.1 as int, tile: t.2@ })
}

/// The records as mathematical values.
pub open spec fn record_views(records: Seq<TileMasks>) -> Seq<MaskRecord> {
    records.map_values(|r: TileMasks| r@)
}

impl View for PlayMap {
    type V = GridModel;

    closed spec fn view(&self) -> GridModel {
        GridModel {
            rows: self.rows,
            cols: self.cols,
            tiles: tile_models(self.tiles@),
            tile_size: self.tile_size,
        }
    }
}

impl PlayMap {
    #[verifier::type_invariant]
    spec fn tiles_have_size(self) -> bool {
        self.tile_size > 0
    }

    /// A grid of `rows` rows and `cols` columns over the given tiles, which
    /// are taken row by row. A place for which `tiles` holds nothing has no
    /// tile. A tile has to be at least one pixel wide.
    pub fn new(rows: u8, cols: u8, tiles: Vec<MapTile>, tile_size: u32) -> (r: PlayMap)
        requires
            tile_size > 0,
        ensures
            r@ == (GridModel { rows, cols, tiles: tile_models(tiles@), tile_size }),
    {
        PlayMap { rows, cols, tiles, tile_size }
    }

    /// The grid that a map definition stands for. The definition has to be
    /// loadable.
    pub fn from_data(play_map_data: PlayMapData) -> (r: PlayMap)
        requires
            play_map_data@.loadable(),
        ensures
            r@ == play_map_data@.grid(),
    {
        let ghost source = play_map_data@;
        let PlayMapData { rows, cols, tile_data, tile_size } = play_map_data;
        let ghost sources = source_views(tile_data@);
        assert(source.tile_data == sources && source.tile_size == tile_size);
        let mut tiles: Vec<MapTile> = Vec::new();
        for t in it: tile_data
            invariant
                sources.len() == it.seq().len(),
                forall|k: int| 0 <= k < sources.len() ==> sources[k] == (#[trigger] it.seq()[k])@,
                forall|k: int| 0 <= k < sources.len() ==> (#[trigger] sources[k]).loadable(tile_size),
                tiles.len() == it.index(),
                forall|k: int| 0 <= k < tiles.len() ==> (#[trigger] tiles[k])@ == sources[k].tile(tile_size),
        {
            tiles.push(MapTile::from_data(t, &tile_size));
        }
        assert(tile_models(tiles@) =~= sources.map_values(|t: TileSource| t.tile(tile_size)));
        PlayMap::new(rows, cols, tiles, tile_size)
    }

    /// Where the tile in column `x` of row `y` stands in the tile array.
    fn get_index(&self, x: u8, y: u8) -> (r: usize)
        ensures
            r == y * self@.cols + x,
    {
        assert(y * self.cols <= 255 * 255) by (nonlinear_arith)
            requires
                0 <= y <= 255,
                0 <= self.cols <= 255,
        ;
        y as usize * self.cols as usize + x as usize
    }

    /// The tile in column `x` of row `y`, if the grid has one there.
    fn get_tile(&self, x: i64, y: i64) -> (r: Option<&MapTile>)
        ensures
            match r {
                Some(t) => Some(t@),
                None => None,
            } == self@.tile_at(x as int, y as int),
    {
        if 0 <= x && x < self.cols as i64 && 0 <= y && y < self.rows as i64 {
            let index = self.get_index(x as u8, y as u8);
            if index < self.tiles.len() {
                return Some(&self.tiles[index]);
            }
        }
        None
    }

    /// The columns and rows that a footprint reaches into.
    fn convert_rect(&self, rect: &Rect) -> (r: (i64, i64, i64, i64))
        ensures
            (TileRange { x1: r.0 as int, y1: r.1 as int, x2: r.2 as int, y2: r.3 as int })
                == self@.tile_range(rect@),
            0 <= r.0,
            0 <= r.1,
            r.2 <= self@.cols,
            r.3 <= self@.rows,
    {
        proof {
            use_type_invariant(self);
            reveal(GridModel::tile_range);
        }
        let ts: i64 = self.tile_size as i64;
        let (left, top) = rect.top_left();
        let tx1 = larger(0, left as i64 / ts);
        let ty1 = larger(0, top as i64 / ts);
        let (right, bottom) = rect.bottom_right();
        let tx2 = smaller(self.cols as i64 - 1, (right as i64 - 1) / ts) + 1;
        let ty2 = smaller(self.rows as i64 - 1, (bottom as i64 - 1) / ts) + 1;
        (tx1, ty1, tx2, ty2)
    }

    /// The tiles that a footprint overlaps, column after column.
    fn get_span_tiles(&self, rect: &Rect) -> (r: Vec<&MapTile>)
        ensures
            tile_views(r@) == self@.span(rect@),
    {
        let (tx1, ty1, tx2, ty2) = self.convert_rect(rect);
        let mut span_tiles: Vec<&MapTile> = Vec::new();
        let mut x: i64 = tx1;
        while x < tx2
            invariant
                tx1 <= x,
                x <= tx2 || x == tx1,
                tile_views(span_tiles@) == tiles_of(
                    self@.placed_block(tx1 as int, x as int, ty1 as int, ty2 as int),
                ),
            decreases tx2 - x,
        {
            let mut y: i64 = ty1;
            while y < ty2
                invariant
                    ty1 <= y,
                    y <= ty2 || y == ty1,
                    tx1 <= x < tx2,
                    tile_views(span_tiles@) == tiles_of(
                        self@.placed_block(tx1 as int, x as int, ty1 as int, ty2 as int)
                            + self@.placed_column(x as int, ty1 as int, y as int),
                    ),
                decreases ty2 - y,
            {
                let ghost before = span_tiles@;
                if let Some(tile) = self.get_tile(x, y) {
                    span_tiles.push(tile);
                    assert(tile_views(span_tiles@) == tile_views(before).push(tile@));
                }
                y += 1;
                assert(tile_views(span_tiles@) == tiles_of(
                    self@.placed_block(tx1 as int, x as int, ty1 as int, ty2 as int)
                        + self@.placed_column(x as int, ty1 as int, y as int),
                ));
            }
            x += 1;
        }
        span_tiles
    }

    /// The tiles that a footprint overlaps, each with its column and row.
    fn get_span_tiles_with_position(&self, rect: &Rect) -> (r: Vec<(u8, u8, &MapTile)>)
        ensures
            placed_views(r@) == self@.placed_span(rect@),
    {
        let (tx1, ty1, tx2, ty2) = self.convert_rect(rect);
        let mut span_tiles: Vec<(u8, u8, &MapTile)> = Vec::new();
        let mut x: i64 = tx1;
        while x < tx2
            invariant
                tx1 <= x,
                x <= tx2 || x == tx1,
                tx2 <= self@.cols,
                ty2 <= self@.rows,
                0 <= tx1,
                0 <= ty1,
                placed_views(span_tiles@) == self@.placed_block(
                    tx1 as int,
                    x as int,
                    ty1 as int,
                    ty2 as int,
                ),
            decreases tx2 - x,
        {
            let mut y: i64 = ty1;
            while y < ty2
                invariant
                    0 <= ty1 <= y,
                    y <= ty2 || y == ty1,
                    0 <= tx1 <= x < tx2,
                    tx2 <= self@.cols,
                    ty2 <= self@.rows,
                    placed_views(span_tiles@) == self@.placed_block(
                        tx1 as int,
                        x as int,
                        ty1 as int,
                        ty2 as int,
                    ) + self@.placed_column(x as int, ty1 as int, y as int),
                decreases ty2 - y,
            {
                let ghost before = span_tiles@;
                if let Some(tile) = self.get_tile(x, y) {
                    span_tiles.push((x as u8, y as u8, tile));
                    assert(placed_views(span_tiles@) == placed_views(before).push(
                        Placed { x: x as int, y: y as int, tile: tile@ },
                    ));
                }
                y += 1;
                assert(placed_views(span_tiles@) == self@.placed_block(
                    tx1 as int,
                    x as int,
                    ty1 as int,
                    ty2 as int,
                ) + self@.placed_column(x as int, ty1 as int, y as int));
            }
            x += 1;
        }
        span_tiles
    }

    /// The tiles that a footprint overlaps, and the same tiles by column and
    /// by row.
    fn get_span_tiles_with_stripes(&self, rect: &Rect) -> (r: (
        Vec<&MapTile>,
        Vec<Vec<&MapTile>>,
        Vec<Vec<&MapTile>>,
    ))
        ensures
            tile_views(r.0@) == self@.span(rect@),
            stripe_views(r.1@) == self@.verticals(rect@),
            stripe_views(r.2@) == self@.horizontals(rect@),
    {
        let (tx1, ty1, tx2, ty2) = self.convert_rect(rect);
        let mut span_tiles: Vec<&MapTile> = Vec::new();
        let mut verticals: Vec<Vec<&MapTile>> = Vec::new();
        let mut x: i64 = tx1;
        while x < tx2
            invariant
                tx1 <= x,
                x <= tx2 || x == tx1,
                tile_views(span_tiles@) == tiles_of(
                    self@.placed_block(tx1 as int, x as int, ty1 as int, ty2 as int),
                ),
                verticals.len() == x - tx1,
                forall|k: int|
                    0 <= k < verticals.len() ==> tile_views((#[trigger] verticals[k])@) == tiles_of(
                        self@.placed_column(tx1 + k, ty1 as int, ty2 as int),
                    ),
            decreases tx2 - x,
        {
            let mut vertical: Vec<&MapTile> = Vec::new();
            let mut y: i64 = ty1;
            while y < ty2
                invariant
                    ty1 <= y,
                    y <= ty2 || y == ty1,
                    tx1 <= x < tx2,
                    tile_views(span_tiles@) == tiles_of(
                        self@.placed_block(tx1 as int, x as int, ty1 as int, ty2 as int)
                            + self@.placed_column(x as int, ty1 as int, y as int),
                    ),
                    tile_views(vertical@) == tiles_of(
                        self@.placed_column(x as int, ty1 as int, y as int),
                    ),
                decreases ty2 - y,
            {
                let ghost before = span_tiles@;
                let ghost strip = vertical@;
                if let Some(tile) = self.get_tile(x, y) {
                    span_tiles.push(tile);
                    vertical.push(tile);
                    assert(tile_views(span_tiles@) == tile_views(before).push(tile@));
                    assert(tile_views(vertical@) == tile_views(strip).push(tile@));
                }
                y += 1;
                assert(tile_views(span_tiles@) == tiles_of(
                    self@.placed_block(tx1 as int, x as int, ty1 as int, ty2 as int)
                        + self@.placed_column(x as int, ty1 as int, y as int),
                ));
                assert(tile_views(vertical@) == tiles_of(
                    self@.placed_column(x as int, ty1 as int, y as int),
                ));
            }
            verticals.push(vertical);
            x += 1;
        }
        let mut horizontals: Vec<Vec<&MapTile>> = Vec::new();
        let mut y: i64 = ty1;
        while y < ty2
            invariant
                ty1 <= y,
                y <= ty2 || y == ty1,
                horizontals.len() == y - ty1,
                forall|k: int|
                    0 <= k < horizontals.len() ==> tile_views((#[trigger] horizontals[k])@)
                        == tiles_of(self@.placed_row(ty1 + k, tx1 as int, tx2 as int)),
            decreases ty2 - y,
        {
            let mut horizontal: Vec<&MapTile> = Vec::new();
            let mut x: i64 = tx1;
            while x < tx2
                invariant
                    tx1 <= x,
                    x <= tx2 || x == tx1,
                    ty1 <= y < ty2,
                    tile_views(horizontal@) == tiles_of(
                        self@.placed_row(y as int, tx1 as int, x as int),
                    ),
                decreases tx2 - x,
            {
                let ghost strip = horizontal@;
                if let Some(tile) = self.get_tile(x, y) {
                    horizontal.push(tile);
                    assert(tile_views(horizontal@) == tile_views(strip).push(tile@));
                }
                x += 1;
                assert(tile_views(horizontal@) == tiles_of(
                    self@.placed_row(y as int, tx1 as int, x as int),
                ));
            }
            horizontals.push(horizontal);
            y += 1;
        }
        assert(stripe_views(verticals@) =~= self@.verticals(rect@));
        assert(stripe_views(horizontals@) =~= self@.horizontals(rect@));
        (span_tiles, verticals, horizontals)
    }

    /// Tests the two strips of a plan in its order.
    fn is_shuffle_valid(&self, level: i8, stripes: &[Vec<&MapTile>], shuffle: Shuffle) -> (r: (
        bool,
        i8,
        i8,
    ))
        requires
            0 <= shuffle@.index1 < stripes.len(),
            0 <= shuffle@.index2 < stripes.len(),
        ensures
            match first_footing(level, stripe_views(stripes@), shuffle@) {
                Some((new_level, correction)) => r == (true, new_level, correction),
                None => r == (false, level, shuffle@.shuffle2 as i8),
            },
    {
        let (index1, shuffle1) = shuffle.first();
        let stripe = &stripes[index1];
        let (valid, new_level) = self.is_span_valid(level, stripe.as_slice());
        if valid {
            return (valid, new_level, shuffle1);
        }
        let (index2, shuffle2) = shuffle.second();
        let stripe = &stripes[index2];
        let (valid, new_level) = self.is_span_valid(level, stripe.as_slice());
        proof {
            lemma_invalid_span_keeps_level(tile_views(stripe@), level);
        }
        (valid, new_level, shuffle2)
    }

    /// Picks the plan for a footprint with edges `min` and `max` across the
    /// strips, and tests the strips in its order.
    fn is_stripe_valid(&self, level: i8, stripes: &[Vec<&MapTile>], min: i32, max: i32) -> (r: (
        bool,
        i8,
        i8,
    ))
        ensures
            match self@.shuffle(level, stripe_views(stripes@), min as int, max as int) {
                Some((new_level, correction)) => r == (true, new_level, correction),
                None => !r.0 && r.1 == level,
            },
            r.2 == 0 || r.2 == 2 || r.2 == -2,
    {
        proof {
            use_type_invariant(self);
        }
        if stripes.len() < 2 {
            return (false, level, 0);
        }
        let ts: i64 = self.tile_size as i64;
        proof {
            lemma_rem_bounds(min as int, ts as int);
            lemma_rem_bounds(max as int, ts as int);
        }
        let min_diff: i64 = ts - (min as i64 % ts);
        let max_diff: i64 = max as i64 % ts;
        // what has crossed is less than any distance beyond `i32`
        let near: i32 = if min_diff > i32::MAX as i64 {
            i32::MAX
        } else {
            min_diff as i32
        };
        self.is_shuffle_valid(level, stripes, Shuffle::get_shuffle(near, max_diff as i32))
    }

    /// Looks for footing in one of two neighbouring columns, a shuffle to the
    /// left or right of where the footprint stands.
    fn is_vertical_valid(&self, level: i8, base_rect: &Rect, verticals: &[Vec<&MapTile>]) -> (r: (
        i8,
        Option<Rect>,
    ))
        requires
            base_rect@.can_move(-2, 0),
            base_rect@.can_move(2, 0),
        ensures
            match self@.shuffle(
                level,
                stripe_views(verticals@),
                base_rect@.x,
                base_rect@.right(),
            ) {
                Some((new_level, correction)) => r.1 matches Some(rect) && r.0 == new_level
                    && rect@ == base_rect@.shifted(correction as int, 0),
                None => r.0 == 0 && r.1 is None,
            },
    {
        let (left, _) = base_rect.top_left();
        let (right, _) = base_rect.bottom_right();
        let (valid, new_level, shuffle) = self.is_stripe_valid(level, verticals, left, right);
        if valid {
            return (new_level, Some(base_rect.move_rect(shuffle, 0)));
        }
        (0, None)
    }

    /// Looks for footing in one of two neighbouring rows, a shuffle up or down
    /// from where the footprint stands.
    fn is_horizontal_valid(&self, level: i8, base_rect: &Rect, horizontals: &[Vec<&MapTile>]) -> (r:
        (i8, Option<Rect>))
        requires
            base_rect@.can_move(0, -2),
            base_rect@.can_move(0, 2),
        ensures
            match self@.shuffle(
                level,
                stripe_views(horizontals@),
                base_rect@.y,
                base_rect@.bottom(),
            ) {
                Some((new_level, correction)) => r.1 matches Some(rect) && r.0 == new_level
                    && rect@ == base_rect@.shifted(0, correction as int),
                None => r.0 == 0 && r.1 is None,
            },
    {
        let (_, top) = base_rect.top_left();
        let (_, bottom) = base_rect.bottom_right();
        let (valid, new_level, shuffle) = self.is_stripe_valid(level, horizontals, top, bottom);
        if valid {
            return (new_level, Some(base_rect.move_rect(0, shuffle)));
        }
        (0, None)
    }

    /// Looks for footing along x only, then along y only.
    fn is_slide_valid(&self, mx: i8, my: i8, level: i8, base_rect: &Rect) -> (r: (i8, Option<Rect>))
        requires
            base_rect@.can_move(mx as int, 0),
            base_rect@.can_move(0, my as int),
        ensures
            match self@.slide(mx, my, level, base_rect@) {
                Some((new_level, dx, dy)) => r.1 matches Some(rect) && r.0 == new_level && rect@
                    == base_rect@.shifted(dx as int, dy as int),
                None => r.0 == 0 && r.1 is None,
            },
    {
        let mx_base_rect = base_rect.move_rect(mx, 0);
        let (valid, new_level) = self.is_move_valid(level, mx_base_rect);
        if valid {
            return (new_level, Some(mx_base_rect));
        }
        let my_base_rect = base_rect.move_rect(0, my);
        let (valid, new_level) = self.is_move_valid(level, my_base_rect);
        if valid {
            return (new_level, Some(my_base_rect));
        }
        (0, None)
    }

    /// Resolves the move `(mx, my)` of `base_rect` at `level`. The footprint
    /// has to lie far enough from the limits of `i32` for the move to be
    /// attempted.
    pub fn apply_move(&self, mx: i8, my: i8, level: i8, base_rect: Rect) -> (r: MoveResult)
        requires
            base_rect@.can_attempt(mx as int, my as int),
        ensures
            r == self@.apply_move(mx, my, level, base_rect@),
    {
        let new_base_rect = base_rect.move_rect(mx, my);
        let (span_tiles, verticals, horizontals) = self.get_span_tiles_with_stripes(&new_base_rect);
        let (valid, new_level) = self.is_span_valid(level, span_tiles.as_slice());
        if valid {
            let (mx_delta, my_delta) = base_rect.top_left_delta(&new_base_rect);
            return if mx == 0 || my == 0 {
                MoveResult::new(true, DEFERRAL_NONE, new_level, mx_delta, my_delta)
            } else {
                MoveResult::new(true, DEFERRAL_DIAGONAL, new_level, mx_delta, my_delta)
            };
        }
        if mx == 0 {
            let (new_level, new_base_rect) = self.is_vertical_valid(
                level,
                &base_rect,
                verticals.as_slice(),
            );
            if let Some(rect) = new_base_rect {
                let (mx_delta, my_delta) = base_rect.top_left_delta(&rect);
                assert(rect@ == base_rect@.shifted(mx_delta as int, 0));
                return MoveResult::new(true, DEFERRAL_DEFAULT, new_level, mx_delta, my_delta);
            }
        } else if my == 0 {
            let (new_level, new_base_rect) = self.is_horizontal_valid(
                level,
                &base_rect,
                horizontals.as_slice(),
            );
            if let Some(rect) = new_base_rect {
                let (mx_delta, my_delta) = base_rect.top_left_delta(&rect);
                assert(rect@ == base_rect@.shifted(0, my_delta as int));
                return MoveResult::new(true, DEFERRAL_DEFAULT, new_level, mx_delta, my_delta);
            }
        } else {
            let (new_level, new_base_rect) = self.is_slide_valid(mx, my, level, &base_rect);
            if let Some(rect) = new_base_rect {
                let (mx_delta, my_delta) = base_rect.top_left_delta(&rect);
                assert(rect@ == base_rect@.shifted(mx_delta as int, my_delta as int));
                return MoveResult::new(true, DEFERRAL_DEFAULT, new_level, mx_delta, my_delta);
            }
        }
        MoveResult::new(false, DEFERRAL_NONE, level, 0, 0)
    }

    /// Adds a walkable level to the tile in column `tx` of row `ty`.
    pub fn add_level_to_tile(&mut self, tx: u8, ty: u8, level: i8)
        ensures
            final(self)@ == old(self)@.add_level_to_tile(tx, ty, level),
    {
        proof {
            use_type_invariant(&*self);
        }
        if tx < self.cols && ty < self.rows {
            let index = self.get_index(tx, ty);
            if index < self.tiles.len() {
                self.tiles[index].add_level(level);
                assert(tile_models(self.tiles@) == tile_models(old(self).tiles@).update(
                    index as int,
                    old(self).tiles@[index as int]@.add_level(level),
                ));
            }
        }
    }

    /// Undoes the last change to the levels of the tile in column `tx` of
    /// row `ty`, if it is remembered still.
    pub fn rollback_tile(&mut self, tx: u8, ty: u8)
        ensures
            final(self)@ == old(self)@.rollback_tile(tx, ty),
    {
        proof {
            use_type_invariant(&*self);
        }
        if tx < self.cols && ty < self.rows {
            let index = self.get_index(tx, ty);
            if index < self.tiles.len() {
                self.tiles[index].rollback();
                assert(tile_models(self.tiles@) == tile_models(old(self).tiles@).update(
                    index as int,
                    old(self).tiles@[index as int]@.rollback(),
                ));
            }
        }
    }

    /// The fall that awaits a footprint at `level`, if one does.
    pub fn get_event(&self, level: i8, base_rect: Rect) -> (r: Option<MapEvent>)
        ensures
            match r {
                Some(event) => self@.event_at(level, base_rect@) matches Some(value) && event@ == (
                    EVENT_FALLING,
                    value,
                ),
                None => self@.event_at(level, base_rect@) is None,
            },
    {
        let span_tiles = self.get_span_tiles(&base_rect);
        let ghost tiles = tile_views(span_tiles@);
        let mut i: usize = 0;
        while i < span_tiles.len()
            invariant
                i <= span_tiles.len(),
                tiles == tile_views(span_tiles@),
                tiles == self@.span(base_rect@),
                forall|k: int| 0 <= k < i ==> (#[trigger] tiles[k]).down_level_of(level) is Some,
            decreases span_tiles.len() - i,
        {
            if span_tiles[i].get_down_level(level).is_none() {
                assert(tiles[i as int].down_level_of(level) is None);
                return None;
            }
            i += 1;
        }
        if span_tiles.len() == 0 {
            return None;
        }
        match span_tiles[0].get_down_level(level) {
            Some(down_level) => Some(MapEvent::falling_event(down_level)),
            None => None,
        }
    }

    /// The masks that hide a sprite with footprint `rect` at depth `z`.
    pub fn get_sprite_masks(&self, rect: Rect, z: i32, level: i8, upright: bool) -> (r: Vec<
        TileMasks,
    >)
        ensures
            record_views(r@) == self@.sprite_masks(rect@, z as int, level as int, upright),
    {
        let sprite_tiles = self.get_span_tiles_with_position(&rect);
        let ghost placed = placed_views(sprite_tiles@);
        let mut sprite_masks: Vec<TileMasks> = Vec::new();
        let mut i: usize = 0;
        while i < sprite_tiles.len()
            invariant
                i <= sprite_tiles.len(),
                placed == placed_views(sprite_tiles@),
                record_views(sprite_masks@) == mask_records(
                    placed.take(i as int),
                    z as int,
                    level as int,
                    upright,
                ),
            decreases sprite_tiles.len() - i,
        {
            let (tx, ty, map_tile) = sprite_tiles[i];
            let ghost before = sprite_masks@;
            proof {
                reveal(Seq::filter);
                assert(placed.take(i + 1).drop_last() == placed.take(i as int));
                assert(placed.take(i + 1).last() == (Placed {
                    x: tx as int,
                    y: ty as int,
                    tile: map_tile@,
                }));
            }
            if let Some(masks) = map_tile.get_masks(z, level, upright) {
                let ghost indices = masks@;
                sprite_masks.push(TileMasks::new(tx, ty, masks));
                assert(record_views(sprite_masks@) == record_views(before).push(
                    MaskRecord { tx, ty, tile_indices: indices },
                ));
            }
            i += 1;
        }
        assert(placed.take(i as int) == placed);
        sprite_masks
    }

    /// Whether the footprint may stand where it is, at `level`, and on which
    /// level it then stands.
    pub fn is_move_valid(&self, level: i8, base_rect: Rect) -> (r: (bool, i8))
        ensures
            r == self@.move_valid(level, base_rect@),
    {
        let span_tiles = self.get_span_tiles(&base_rect);
        self.is_span_valid(level, span_tiles.as_slice())
    }

    /// Whether a footprint at `level` may stand on these tiles, and on which
    /// level it then stands.
    pub fn is_span_valid(&self, level: i8, span_tiles: &[&MapTile]) -> (r: (bool, i8))
        ensures
            r == span_valid(tile_views(span_tiles@), level),
    {
        proof {
            reveal(span_valid);
        }
        let ghost tiles = tile_views(span_tiles@);
        let mut same_level_count: usize = 0;
        let mut special_levels: Vec<i8> = Vec::new();
        let mut i: usize = 0;
        while i < span_tiles.len()
            invariant
                i <= span_tiles.len(),
                tiles == tile_views(span_tiles@),
                same_level_count <= i,
                same_level_count == i <==> all_match(tiles.take(i as int), level),
                special_levels.len() <= i,
                special_levels.len() == i <==> all_stairs(tiles.take(i as int), level),
                special_levels.len() == i ==> special_levels@ == stairs(tiles.take(i as int), level),
            decreases span_tiles.len() - i,
        {
            let (inc, resolved) = span_tiles[i].get_validity_of(level);
            assert(tiles.take(i + 1)[i as int] == tiles[i as int]);
            assert(forall|k: int| 0 <= k < i ==> tiles.take(i as int)[k] == tiles.take(i + 1)[k]);
            same_level_count += inc as usize;
            if let Some(v) = resolved {
                special_levels.push(v);
            }
            i += 1;
            assert(special_levels.len() == i ==> special_levels@ =~= stairs(tiles.take(i as int), level));
        }
        assert(tiles.take(i as int) == tiles);
        if same_level_count == span_tiles.len() {
            return (true, level);
        }
        if special_levels.len() == span_tiles.len() {
            let min_special = least(&special_levels);
            let max_special = greatest(&special_levels);
            if (max_special as i16 - min_special as i16) < 2 {
                return if is_odd(min_special) {
                    (true, max_special)
                } else {
                    (true, min_special)
                };
            }
        }
        (false, level)
    }
}

/// The greater of two numbers.
fn larger(a: i64, b: i64) -> (r: i64)
    ensures
        r == at_least(b as int, a as int),
{
    if b < a {
        a
    } else {
        b
    }
}

/// The lesser of two numbers.
fn smaller(a: i64, b: i64) -> (r: i64)
    ensures
        r == at_most(b as int, a as int),
{
    if b < a {
        b
    } else {
        a
    }
}

/// The least of the values.
fn least(values: &Vec<i8>) -> (r: i8)
    requires
        values.len() > 0,
    ensures
        r == lowest(values@),
{
    let mut best: i8 = values[0];
    let mut i: usize = 1;
    assert(values@.take(1) =~= seq![values[0]]);
    while i < values.len()
        invariant
            1 <= i <= values.len(),
            best == lowest(values@.take(i as int)),
        decreases values.len() - i,
    {
        assert(values@.take(i + 1).drop_last() == values@.take(i as int));
        if values[i] < best {
            best = values[i];
        }
        i += 1;
    }
    assert(values@.take(i as int) == values@);
    best
}

/// The greatest of the values.
fn greatest(values: &Vec<i8>) -> (r: i8)
    requires
        values.len() > 0,
    ensures
        r == highest(values@),
{
    let mut best: i8 = values[0];
    let mut i: usize = 1;
    assert(values@.take(1) =~= seq![values[0]]);
    while i < values.len()
        invariant
            1 <= i <= values.len(),
            best == highest(values@.take(i as int)),
        decreases values.len() - i,
    {
        assert(values@.take(i + 1).drop_last() == values@.take(i as int));
        if values[i] > best {
            best = values[i];
        }
        i += 1;
    }
    assert(values@.take(i as int) == values@);
    best
}

} // verus!
