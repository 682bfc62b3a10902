//! The grid as a mathematical value: which tiles a footprint overlaps, and
//! what its queries answer.

use crate::outcome::{
    MaskRecord, MoveResult, DEFERRAL_DEFAULT, DEFERRAL_DIAGONAL, DEFERRAL_NONE,
};
use crate::rect::Footprint;
use crate::shuffle::{shuffle_plan, ShufflePlan};
use crate::span::{lemma_empty_span_valid, span_valid};
use crate::tile::{TileModel, TileSource};
use vstd::prelude::*;

verus! {

/// The quotient of `a` by a positive `b`, rounded towards zero.
pub open spec fn trunc_div(a: int, b: int) -> int {
    if a >= 0 {
        a / b
    } else {
        -((-a) / b)
    }
}

/// What `trunc_div` leaves over of `a`: it has the sign of `a`.
pub open spec fn trunc_rem(a: int, b: int) -> int {
    if a >= 0 {
        a % b
    } else {
        -((-a) % b)
    }
}

/// The greater of `a` and `b`.
pub open spec fn at_least(a: int, b: int) -> int {
    if a < b {
        b
    } else {
        a
    }
}

/// The lesser of `a` and `b`.
pub open spec fn at_most(a: int, b: int) -> int {
    if a < b {
        a
    } else {
        b
    }
}

/// The columns `x1..x2` and rows `y1..y2` of a grid.
pub struct TileRange {
    pub x1: int,
    pub y1: int,
    pub x2: int,
    pub y2: int,
}

/// A tile with its column and row.
pub struct Placed {
    pub x: int,
    pub y: int,
    pub tile: TileModel,
}

/// The tiles without their places.
pub open spec fn tiles_of(placed: Seq<Placed>) -> Seq<TileModel> {
    placed.map_values(|p: Placed| p.tile)
}

/// A map definition as a mathematical value.
pub struct GridSource {
    pub rows: u8,
    pub cols: u8,
    pub tile_data: Seq<TileSource>,
    pub tile_size: u32,
}

/// A grid as a mathematical value.
pub struct GridModel {
    pub rows: u8,
    pub cols: u8,
    pub tiles: Seq<TileModel>,
    pub tile_size: u32,
}

impl GridSource {
    /// Whether a grid can be built from this definition: its tiles have an
    /// extent, and each of them can be built.
    pub open spec fn loadable(self) -> bool {
        &&& self.tile_size > 0
        &&& forall|i: int|
            0 <= i < self.tile_data.len() ==> (#[trigger] self.tile_data[i]).loadable(
                self.tile_size,
            )
    }

    /// The grid that this definition stands for.
    pub open spec fn grid(self) -> GridModel {
        GridModel {
            rows: self.rows,
            cols: self.cols,
            tiles: self.tile_data.map_values(|t: TileSource| t.tile(self.tile_size)),
            tile_size: self.tile_size,
        }
    }
}

impl GridModel {
    /// The tile in column `x` of row `y`. Outside the grid there is none.
    pub open spec fn tile_at(self, x: int, y: int) -> Option<TileModel> {
        if 0 <= x < self.cols && 0 <= y < self.rows && y * self.cols + x < self.tiles.len() {
            Some(self.tiles[y * self.cols + x])
        } else {
            None
        }
    }

    /// The columns and rows that a footprint reaches into.
    #[verifier::opaque]
    pub open spec fn tile_range(self, r: Footprint) -> TileRange {
        TileRange {
            x1: at_least(trunc_div(r.x, self.tile_size as int), 0),
            y1: at_least(trunc_div(r.y, self.tile_size as int), 0),
            x2: at_most(trunc_div(r.right() - 1, self.tile_size as int), self.cols - 1) + 1,
            y2: at_most(trunc_div(r.bottom() - 1, self.tile_size as int), self.rows - 1) + 1,
        }
    }

    /// The tile in column `x` of row `y` with its place, where there is one.
    pub open spec fn placed_at(self, x: int, y: int) -> Seq<Placed> {
        match self.tile_at(x, y) {
            Some(tile) => seq![Placed { x, y, tile }],
            None => Seq::empty(),
        }
    }

    /// The tiles of column `x` in rows `y1..y2`, top down.
    pub open spec fn placed_column(self, x: int, y1: int, y2: int) -> Seq<Placed>
        decreases y2 - y1,
    {
        if y1 >= y2 {
            Seq::empty()
        } else {
            self.placed_column(x, y1, y2 - 1) + self.placed_at(x, y2 - 1)
        }
    }

    /// The tiles of row `y` in columns `x1..x2`, left to right.
    pub open spec fn placed_row(self, y: int, x1: int, x2: int) -> Seq<Placed>
        decreases x2 - x1,
    {
        if x1 >= x2 {
            Seq::empty()
        } else {
            self.placed_row(y, x1, x2 - 1) + self.placed_at(x2 - 1, y)
        }
    }

    /// The tiles of columns `x1..x2` in rows `y1..y2`, column after column.
    pub open spec fn placed_block(self, x1: int, x2: int, y1: int, y2: int) -> Seq<Placed>
        decreases x2 - x1,
    {
        if x1 >= x2 {
            Seq::empty()
        } else {
            self.placed_block(x1, x2 - 1, y1, y2) + self.placed_column(x2 - 1, y1, y2)
        }
    }

    /// The tiles that a footprint overlaps, each with its place.
    pub open spec fn placed_span(self, r: Footprint) -> Seq<Placed> {
        let range = self.tile_range(r);
        self.placed_block(range.x1, range.x2, range.y1, range.y2)
    }

    /// The tiles that a footprint overlaps.
    pub open spec fn span(self, r: Footprint) -> Seq<TileModel> {
        tiles_of(self.placed_span(r))
    }

    /// The span of a footprint cut into its columns.
    pub open spec fn verticals(self, r: Footprint) -> Seq<Seq<TileModel>> {
        let range = self.tile_range(r);
        Seq::new(
            at_least(range.x2 - range.x1, 0) as nat,
            |i: int| tiles_of(self.placed_column(range.x1 + i, range.y1, range.y2)),
        )
    }

    /// The span of a footprint cut into its rows.
    pub open spec fn horizontals(self, r: Footprint) -> Seq<Seq<TileModel>> {
        let range = self.tile_range(r);
        Seq::new(
            at_least(range.y2 - range.y1, 0) as nat,
            |i: int| tiles_of(self.placed_row(range.y1 + i, range.x1, range.x2)),
        )
    }

    /// Whether the footprint may stand where it is, at `level`, and on which
    /// level it then stands.
    pub open spec fn move_valid(self, level: i8, r: Footprint) -> (bool, i8) {
        span_valid(self.span(r), level)
    }

    /// The shuffle that gives a footprint footing in one of the first two
    /// strips: the level on which it then stands and the correction that
    /// takes it there. `min` and `max` are the two edges of the footprint
    /// across the strips; they decide which strip is tried first. With
    /// fewer than two strips there is nothing to choose from.
    pub open spec fn shuffle(self, level: i8, stripes: Seq<Seq<TileModel>>, min: int, max: int) -> Option<
        (i8, i8),
    > {
        if stripes.len() < 2 {
            None
        } else {
            first_footing(
                level,
                stripes,
                shuffle_plan(
                    self.tile_size - trunc_rem(min, self.tile_size as int),
                    trunc_rem(max, self.tile_size as int),
                ),
            )
        }
    }

    /// The two single-axis parts of a diagonal move, tried in turn: along x,
    /// then along y. The first that may be stood on gives the level and the
    /// move.
    pub open spec fn slide(self, mx: i8, my: i8, level: i8, r: Footprint) -> Option<
        (i8, i8, i8),
    > {
        let (valid, new_level) = self.move_valid(level, r.shifted(mx as int, 0));
        if valid {
            Some((new_level, mx, 0i8))
        } else {
            let (valid, new_level) = self.move_valid(level, r.shifted(0, my as int));
            if valid {
                Some((new_level, 0i8, my))
            } else {
                None
            }
        }
    }

    /// What becomes of the move `(mx, my)` of a footprint `r` at `level`.
    /// Where the moved footprint may be stood on, the move is taken as asked.
    /// Failing that, a move along one axis is replaced by a shuffle across
    /// it, and a diagonal one by a slide along one of its axes. A move for
    /// which none of this works is rejected.
    pub open spec fn apply_move(self, mx: i8, my: i8, level: i8, r: Footprint) -> MoveResult {
        let target = r.shifted(mx as int, my as int);
        let (valid, new_level) = self.move_valid(level, target);
        if valid {
            MoveResult {
                valid: true,
                deferral: if mx == 0 || my == 0 {
                    DEFERRAL_NONE
                } else {
                    DEFERRAL_DIAGONAL
                },
                level: new_level,
                mx,
                my,
            }
        } else if mx == 0 {
            match self.shuffle(level, self.verticals(target), r.x, r.right()) {
                Some((new_level, shuffle)) => MoveResult {
                    valid: true,
                    deferral: DEFERRAL_DEFAULT,
                    level: new_level,
                    mx: shuffle,
                    my: 0,
                },
                None => rejected(level),
            }
        } else if my == 0 {
            match self.shuffle(level, self.horizontals(target), r.y, r.bottom()) {
                Some((new_level, shuffle)) => MoveResult {
                    valid: true,
                    deferral: DEFERRAL_DEFAULT,
                    level: new_level,
                    mx: 0,
                    my: shuffle,
                },
                None => rejected(level),
            }
        } else {
            match self.slide(mx, my, level, r) {
                Some((new_level, dx, dy)) => MoveResult {
                    valid: true,
                    deferral: DEFERRAL_DEFAULT,
                    level: new_level,
                    mx: dx,
                    my: dy,
                },
                None => rejected(level),
            }
        }
    }

    /// The level that a footprint at `level` falls to: every tile under it
    /// has a drop-off for `level`, and the first of them says where to.
    /// Over no tile at all nothing falls.
    pub open spec fn event_at(self, level: i8, r: Footprint) -> Option<u8> {
        let tiles = self.span(r);
        if tiles.len() > 0 && all_drop(tiles, level) {
            tiles[0].down_level_of(level)
        } else {
            None
        }
    }

    /// For each tile under the footprint that hides the sprite, its place
    /// and the masks that do so.
    pub open spec fn sprite_masks(self, r: Footprint, depth: int, level: int, upright: bool) -> Seq<
        MaskRecord,
    > {
        mask_records(self.placed_span(r), depth, level, upright)
    }

    /// The grid with the tile in column `x` of row `y` changed by `change`.
    /// A place outside the grid leaves it as it is.
    pub open spec fn with_tile_changed(
        self,
        x: int,
        y: int,
        change: spec_fn(TileModel) -> TileModel,
    ) -> GridModel {
        match self.tile_at(x, y) {
            Some(tile) => GridModel {
                tiles: self.tiles.update(y * self.cols + x, change(tile)),
                ..self
            },
            None => self,
        }
    }

    /// The grid after a level was added to the tile in column `x` of row `y`.
    pub open spec fn add_level_to_tile(self, x: u8, y: u8, level: i8) -> GridModel {
        self.with_tile_changed(x as int, y as int, |t: TileModel| t.add_level(level))
    }

    /// The grid after the tile in column `x` of row `y` was rolled back.
    pub open spec fn rollback_tile(self, x: u8, y: u8) -> GridModel {
        self.with_tile_changed(x as int, y as int, |t: TileModel| t.rollback())
    }
}

/// The outcome of a move that could not be made legal.
pub open spec fn rejected(level: i8) -> MoveResult {
    MoveResult { valid: false, deferral: DEFERRAL_NONE, level, mx: 0, my: 0 }
}

/// The strips of a plan tested in its order: the level and the correction of
/// the first that may be stood on.
pub open spec fn first_footing(level: i8, stripes: Seq<Seq<TileModel>>, plan: ShufflePlan) -> Option<
    (i8, i8),
> {
    if span_valid(stripes[plan.index1], level).0 {
        Some((span_valid(stripes[plan.index1], level).1, plan.shuffle1 as i8))
    } else if span_valid(stripes[plan.index2], level).0 {
        Some((span_valid(stripes[plan.index2], level).1, plan.shuffle2 as i8))
    } else {
        None
    }
}

/// Every tile has a drop-off for `level`.
pub open spec fn all_drop(tiles: Seq<TileModel>, level: i8) -> bool {
    forall|i: int| 0 <= i < tiles.len() ==> (#[trigger] tiles[i]).down_level_of(level) is Some
}

/// The records of the placed tiles that hide the sprite, in their order.
pub open spec fn mask_records(placed: Seq<Placed>, depth: int, level: int, upright: bool) -> Seq<
    MaskRecord,
> {
    placed.filter(|p: Placed| p.tile.masks_for(depth, level, upright) is Some).map_values(
        |p: Placed|
            MaskRecord {
                tx: p.x as u8,
                ty: p.y as u8,
                tile_indices: p.tile.masks_for(depth, level, upright).unwrap(),
            },
    )
}

/// A remainder lies no farther from zero than the dividend or the divisor.
pub proof fn lemma_rem_bounds(a: int, b: int)
    requires
        b > 0,
    ensures
        -b < trunc_rem(a, b) < b,
        a >= 0 ==> 0 <= trunc_rem(a, b) <= a,
        a < 0 ==> a <= trunc_rem(a, b) <= 0,
{
    if a >= 0 {
        vstd::arithmetic::div_mod::lemma_mod_pos_bound(a, b);
        vstd::arithmetic::div_mod::lemma_mod_decreases(a as nat, b as nat);
    } else {
        vstd::arithmetic::div_mod::lemma_mod_pos_bound(-a, b);
        vstd::arithmetic::div_mod::lemma_mod_decreases((-a) as nat, b as nat);
    }
}

/// A number is at most the quotient of `a` by `b` exactly if its `b`-fold is
/// at most `a`.
pub proof fn lemma_quotient_bounds(a: int, b: int, x: int)
    requires
        a >= 0,
        b > 0,
    ensures
        x <= a / b <==> x * b <= a,
{
    let q = a / b;
    vstd::arithmetic::div_mod::lemma_fundamental_div_mod(a, b);
    vstd::arithmetic::div_mod::lemma_mod_pos_bound(a, b);
    if x <= q {
        assert(x * b <= q * b) by (nonlinear_arith)
            requires
                x <= q,
                b > 0,
        ;
        assert(b * q == q * b) by (nonlinear_arith);
    } else {
        assert(x * b >= q * b + b) by (nonlinear_arith)
            requires
                x >= q + 1,
                b > 0,
        ;
        assert(b * q == q * b) by (nonlinear_arith);
    }
}

/// The range of a footprint is made of the tiles that it overlaps. For a
/// footprint whose last pixel column and row are not negative, a column of
/// the grid lies in its range exactly if the pixel columns of that tile
/// column meet those of the footprint, and a row likewise.
pub proof fn lemma_range_is_overlap(grid: GridModel, r: Footprint, x: int, y: int)
    requires
        grid.tile_size > 0,
        r.right() >= 1,
        r.bottom() >= 1,
        0 <= x < grid.cols,
        0 <= y < grid.rows,
    ensures
        ({
            let range = grid.tile_range(r);
            let size = grid.tile_size as int;
            &&& range.x1 <= x < range.x2 <==> r.x < (x + 1) * size && x * size < r.right()
            &&& range.y1 <= y < range.y2 <==> r.y < (y + 1) * size && y * size < r.bottom()
        }),
{
    reveal(GridModel::tile_range);
    let size = grid.tile_size as int;
    lemma_quotient_bounds(r.right() - 1, size, x);
    lemma_quotient_bounds(r.bottom() - 1, size, y);
    if r.x >= 0 {
        lemma_quotient_bounds(r.x, size, x + 1);
    } else {
        assert((x + 1) * size > 0) by (nonlinear_arith)
            requires
                x >= 0,
                size > 0,
        ;
    }
    if r.y >= 0 {
        lemma_quotient_bounds(r.y, size, y + 1);
    } else {
        assert((y + 1) * size > 0) by (nonlinear_arith)
            requires
                y >= 0,
                size > 0,
        ;
    }
}

/// An element of two sequences joined is an element of one of them.
pub proof fn lemma_concat_contains<A>(front: Seq<A>, back: Seq<A>, a: A)
    ensures
        (front + back).contains(a) <==> front.contains(a) || back.contains(a),
{
    let both = front + back;
    if front.contains(a) {
        let i = choose|i: int| 0 <= i < front.len() && front[i] == a;
        assert(both[i] == a);
    }
    if back.contains(a) {
        let i = choose|i: int| 0 <= i < back.len() && back[i] == a;
        assert(both[front.len() + i] == a);
    }
    if both.contains(a) {
        let i = choose|i: int| 0 <= i < both.len() && both[i] == a;
        if i < front.len() {
            assert(front[i] == a);
        } else {
            assert(back[i - front.len()] == a);
        }
    }
}

/// What a column of placed tiles holds: the tiles of that column in the
/// given rows, each once and with its own place.
pub proof fn lemma_column_members(grid: GridModel, x: int, y1: int, y2: int, p: Placed)
    ensures
        grid.placed_column(x, y1, y2).contains(p) <==> p.x == x && y1 <= p.y < y2 && grid.tile_at(
            x,
            p.y,
        ) == Some(p.tile),
    decreases y2 - y1,
{
    if y1 < y2 {
        let front = grid.placed_column(x, y1, y2 - 1);
        let back = grid.placed_at(x, y2 - 1);
        lemma_column_members(grid, x, y1, y2 - 1, p);
        lemma_concat_contains(front, back, p);
        if back.len() > 0 {
            assert(back[0] == (Placed { x, y: y2 - 1, tile: grid.tile_at(x, y2 - 1).unwrap() }));
        }
    }
}

/// What a row of placed tiles holds: the tiles of that row in the given
/// columns, each once and with its own place.
pub proof fn lemma_row_members(grid: GridModel, y: int, x1: int, x2: int, p: Placed)
    ensures
        grid.placed_row(y, x1, x2).contains(p) <==> p.y == y && x1 <= p.x < x2 && grid.tile_at(
            p.x,
            y,
        ) == Some(p.tile),
    decreases x2 - x1,
{
    if x1 < x2 {
        let front = grid.placed_row(y, x1, x2 - 1);
        let back = grid.placed_at(x2 - 1, y);
        lemma_row_members(grid, y, x1, x2 - 1, p);
        lemma_concat_contains(front, back, p);
        if back.len() > 0 {
            assert(back[0] == (Placed { x: x2 - 1, y, tile: grid.tile_at(x2 - 1, y).unwrap() }));
        }
    }
}

/// What a block of placed tiles holds: the tiles of the given columns and
/// rows, each once and with its own place.
pub proof fn lemma_block_members(grid: GridModel, x1: int, x2: int, y1: int, y2: int, p: Placed)
    ensures
        grid.placed_block(x1, x2, y1, y2).contains(p) <==> x1 <= p.x < x2 && y1 <= p.y < y2
            && grid.tile_at(p.x, p.y) == Some(p.tile),
    decreases x2 - x1,
{
    if x1 < x2 {
        let front = grid.placed_block(x1, x2 - 1, y1, y2);
        let back = grid.placed_column(x2 - 1, y1, y2);
        lemma_block_members(grid, x1, x2 - 1, y1, y2, p);
        lemma_column_members(grid, x2 - 1, y1, y2, p);
        lemma_concat_contains(front, back, p);
    }
}

/// The tiles under a footprint are the tiles of the grid in the columns and
/// rows that the footprint reaches into.
pub proof fn lemma_span_members(grid: GridModel, r: Footprint, p: Placed)
    ensures
        grid.placed_span(r).contains(p) <==> {
            let range = grid.tile_range(r);
            &&& range.x1 <= p.x < range.x2
            &&& range.y1 <= p.y < range.y2
            &&& grid.tile_at(p.x, p.y) == Some(p.tile)
        },
{
    let range = grid.tile_range(r);
    lemma_block_members(grid, range.x1, range.x2, range.y1, range.y2, p);
}

/// Whether the place of `p` comes before that of `q`, columns first.
pub open spec fn comes_before(p: Placed, q: Placed) -> bool {
    p.x < q.x || (p.x == q.x && p.y < q.y)
}

/// A column of placed tiles runs top down.
pub proof fn lemma_column_ordered(grid: GridModel, x: int, y1: int, y2: int, i: int, j: int)
    requires
        0 <= i < j < grid.placed_column(x, y1, y2).len(),
    ensures
        comes_before(grid.placed_column(x, y1, y2)[i], grid.placed_column(x, y1, y2)[j]),
    decreases y2 - y1,
{
    let column = grid.placed_column(x, y1, y2);
    let front = grid.placed_column(x, y1, y2 - 1);
    let back = grid.placed_at(x, y2 - 1);
    assert(column[i] == front[i]);
    assert(front.contains(front[i]));
    lemma_column_members(grid, x, y1, y2 - 1, front[i]);
    assert(column.contains(column[j]));
    lemma_column_members(grid, x, y1, y2, column[j]);
    if j < front.len() {
        assert(column[j] == front[j]);
        lemma_column_ordered(grid, x, y1, y2 - 1, i, j);
    } else {
        assert(column[j] == back[j - front.len()]);
    }
}

/// The tiles under a footprint come column after column, and top down in
/// each column: none comes twice.
pub proof fn lemma_block_ordered(
    grid: GridModel,
    x1: int,
    x2: int,
    y1: int,
    y2: int,
    i: int,
    j: int,
)
    requires
        0 <= i < j < grid.placed_block(x1, x2, y1, y2).len(),
    ensures
        comes_before(grid.placed_block(x1, x2, y1, y2)[i], grid.placed_block(x1, x2, y1, y2)[j]),
    decreases x2 - x1,
{
    let block = grid.placed_block(x1, x2, y1, y2);
    let front = grid.placed_block(x1, x2 - 1, y1, y2);
    let back = grid.placed_column(x2 - 1, y1, y2);
    if j < front.len() {
        assert(block[i] == front[i]);
        assert(block[j] == front[j]);
        lemma_block_ordered(grid, x1, x2 - 1, y1, y2, i, j);
    } else if i < front.len() {
        assert(block[i] == front[i]);
        assert(block[j] == back[j - front.len()]);
        assert(front.contains(front[i]));
        assert(back.contains(back[j - front.len()]));
        lemma_block_members(grid, x1, x2 - 1, y1, y2, front[i]);
        lemma_column_members(grid, x2 - 1, y1, y2, back[j - front.len()]);
    } else {
        assert(block[i] == back[i - front.len()]);
        assert(block[j] == back[j - front.len()]);
        lemma_column_ordered(grid, x2 - 1, y1, y2, i - front.len(), j - front.len());
    }
}

/// Two different places of a grid have different indices in its tile array.
pub proof fn lemma_places_distinct(grid: GridModel, x1: int, y1: int, x2: int, y2: int)
    requires
        0 <= x1 < grid.cols,
        0 <= x2 < grid.cols,
        0 <= y1,
        0 <= y2,
        x1 != x2 || y1 != y2,
    ensures
        y1 * grid.cols + x1 != y2 * grid.cols + x2,
{
    let cols = grid.cols as int;
    if y1 < y2 {
        assert(y1 * cols + cols <= y2 * cols) by (nonlinear_arith)
            requires
                y1 + 1 <= y2,
                cols > 0,
        ;
    } else if y2 < y1 {
        assert(y2 * cols + cols <= y1 * cols) by (nonlinear_arith)
            requires
                y2 + 1 <= y1,
                cols > 0,
        ;
    }
}

/// A change to one tile is seen at its place and nowhere else, and moves no
/// tile.
pub proof fn lemma_change_is_local(
    grid: GridModel,
    x: int,
    y: int,
    change: spec_fn(TileModel) -> TileModel,
    x2: int,
    y2: int,
)
    ensures
        grid.with_tile_changed(x, y, change).tile_at(x2, y2) == if x2 == x && y2 == y {
            match grid.tile_at(x, y) {
                Some(tile) => Some(change(tile)),
                None => None,
            }
        } else {
            grid.tile_at(x2, y2)
        },
{
    if grid.tile_at(x, y) is Some && grid.tile_at(x2, y2) is Some && (x2 != x || y2 != y) {
        lemma_places_distinct(grid, x, y, x2, y2);
    }
}

/// A second rollback of a tile changes nothing in the grid.
pub proof fn lemma_rollback_tile_idempotent(grid: GridModel, x: u8, y: u8)
    ensures
        grid.rollback_tile(x, y).rollback_tile(x, y) == grid.rollback_tile(x, y),
{
    let once = grid.rollback_tile(x, y);
    assert(once.rollback_tile(x, y).tiles =~= once.tiles);
}

/// In the grid too only the last change to a tile can be undone: after two
/// levels added to a tile, a rollback leaves the tile with the first of them
/// and with nothing more to undo.
pub proof fn lemma_tile_undo_is_single(grid: GridModel, x: u8, y: u8, a: i8, b: i8)
    requires
        grid.tile_at(x as int, y as int) is Some,
    ensures
        ({
            let tile = grid.tile_at(x as int, y as int).unwrap();
            let after = grid.add_level_to_tile(x, y, a).add_level_to_tile(x, y, b).rollback_tile(
                x,
                y,
            );
            &&& after.tile_at(x as int, y as int) == Some(tile.add_level(a).add_level(b).rollback())
            &&& after.tile_at(x as int, y as int).unwrap().levels == tile.levels.push(a)
            &&& after.rollback_tile(x, y) == after
        }),
{
    let after = grid.add_level_to_tile(x, y, a).add_level_to_tile(x, y, b).rollback_tile(x, y);
    assert(after.rollback_tile(x, y).tiles =~= after.tiles);
}

/// A move that carries the footprint over no tile at all is taken as asked.
pub proof fn lemma_move_over_no_tile(grid: GridModel, mx: i8, my: i8, level: i8, r: Footprint)
    requires
        grid.span(r.shifted(mx as int, my as int)).len() == 0,
    ensures
        grid.apply_move(mx, my, level, r) == (MoveResult {
            valid: true,
            deferral: if mx == 0 || my == 0 {
                DEFERRAL_NONE
            } else {
                DEFERRAL_DIAGONAL
            },
            level,
            mx,
            my,
        }),
{
    let tiles = grid.span(r.shifted(mx as int, my as int));
    assert(tiles =~= Seq::<TileModel>::empty());
    lemma_empty_span_valid(level);
}

/// A rejected move leaves level and place alone, and a move that is not
/// rejected is marked with the way it was found.
pub proof fn lemma_move_outcomes(grid: GridModel, mx: i8, my: i8, level: i8, r: Footprint)
    ensures
        ({
            let m = grid.apply_move(mx, my, level, r);
            &&& !m.valid ==> m == rejected(level)
            &&& m.valid && m.deferral == DEFERRAL_NONE ==> (mx == 0 || my == 0) && m.mx == mx && m.my
                == my
            &&& m.valid && m.deferral == DEFERRAL_DIAGONAL ==> mx != 0 && my != 0 && m.mx == mx
                && m.my == my
            &&& m.valid && m.deferral == DEFERRAL_DEFAULT ==> m.mx == 0 || m.my == 0
            &&& m.deferral == DEFERRAL_NONE || m.deferral == DEFERRAL_DEFAULT || m.deferral
                == DEFERRAL_DIAGONAL
        }),
{
}

/// Nothing falls where one tile under the footprint has no drop-off for the
/// level.
pub proof fn lemma_mixed_span_no_event(grid: GridModel, level: i8, r: Footprint, i: int)
    requires
        0 <= i < grid.span(r).len(),
        grid.span(r)[i].down_level_of(level) is None,
    ensures
        grid.event_at(level, r) is None,
{
}

} // verus!
