//! Whether a footprint may stand on a set of tiles at a level, and at which
//! level it then stands.

use crate::tile::{odd, TileModel};
use vstd::prelude::*;

verus! {

/// Every tile of the span matches `level` with strength 1.
pub open spec fn all_match(tiles: Seq<TileModel>, level: i8) -> bool {
    forall|i: int| 0 <= i < tiles.len() ==> (#[trigger] tiles[i]).validity_of(level).0 == 1
}

/// Every tile of the span resolves `level` to a stair.
pub open spec fn all_stairs(tiles: Seq<TileModel>, level: i8) -> bool {
    forall|i: int| 0 <= i < tiles.len() ==> (#[trigger] tiles[i]).validity_of(level).1 is Some
}

/// The stairs that the tiles resolve `level` to, tile by tile.
pub open spec fn stairs(tiles: Seq<TileModel>, level: i8) -> Seq<i8> {
    Seq::new(tiles.len(), |i: int| tiles[i].validity_of(level).1.unwrap())
}

/// The least element of a sequence that has one.
pub open spec fn lowest(s: Seq<i8>) -> i8
    decreases s.len(),
{
    if s.len() <= 1 {
        s[0]
    } else if s.last() < lowest(s.drop_last()) {
        s.last()
    } else {
        lowest(s.drop_last())
    }
}

/// The greatest element of a sequence that has one.
pub open spec fn highest(s: Seq<i8>) -> i8
    decreases s.len(),
{
    if s.len() <= 1 {
        s[0]
    } else if s.last() > highest(s.drop_last()) {
        s.last()
    } else {
        highest(s.drop_last())
    }
}

/// The level on which a footprint comes to stand when its tiles resolve to
/// stairs between `lo` and `hi`: the upper one where the lower is a half
/// step, else the lower one.
pub open spec fn snap(lo: i8, hi: i8) -> i8 {
    if odd(lo as int) {
        hi
    } else {
        lo
    }
}

/// Whether a footprint at `level` may stand on `tiles`, and the level on
/// which it then stands. It may where every tile matches the level; failing
/// that, where every tile belongs to a stair and the stairs lie less than two
/// levels apart. A span that may not be stood on gives `level` back.
#[verifier::opaque]
pub open spec fn span_valid(tiles: Seq<TileModel>, level: i8) -> (bool, i8) {
    if all_match(tiles, level) {
        (true, level)
    } else if all_stairs(tiles, level) && highest(stairs(tiles, level)) - lowest(
        stairs(tiles, level),
    ) < 2 {
        (true, snap(lowest(stairs(tiles, level)), highest(stairs(tiles, level))))
    } else {
        (false, level)
    }
}

/// `lowest` is an element of the sequence and no element lies below it.
pub proof fn lemma_lowest(s: Seq<i8>)
    requires
        s.len() > 0,
    ensures
        s.contains(lowest(s)),
        forall|i: int| 0 <= i < s.len() ==> lowest(s) <= s[i],
    decreases s.len(),
{
    if s.len() > 1 {
        lemma_lowest(s.drop_last());
        let k = choose|k: int| 0 <= k < s.drop_last().len() && s.drop_last()[k] == lowest(s.drop_last());
        assert(s[k] == s.drop_last()[k]);
        assert(s[s.len() - 1] == s.last());
        assert forall|i: int| 0 <= i < s.len() implies lowest(s) <= s[i] by {
            if i < s.len() - 1 {
                assert(s[i] == s.drop_last()[i]);
            }
        }
    } else {
        assert(s[0] == lowest(s));
    }
}

/// `highest` is an element of the sequence and no element lies above it.
pub proof fn lemma_highest(s: Seq<i8>)
    requires
        s.len() > 0,
    ensures
        s.contains(highest(s)),
        forall|i: int| 0 <= i < s.len() ==> highest(s) >= s[i],
    decreases s.len(),
{
    if s.len() > 1 {
        lemma_highest(s.drop_last());
        let k = choose|k: int| 0 <= k < s.drop_last().len() && s.drop_last()[k] == highest(s.drop_last());
        assert(s[k] == s.drop_last()[k]);
        assert(s[s.len() - 1] == s.last());
        assert forall|i: int| 0 <= i < s.len() implies highest(s) >= s[i] by {
            if i < s.len() - 1 {
                assert(s[i] == s.drop_last()[i]);
            }
        }
    } else {
        assert(s[0] == highest(s));
    }
}

/// Two sequences with the same elements have the same least and the same
/// greatest element.
pub proof fn lemma_same_elements_same_bounds(s: Seq<i8>, t: Seq<i8>)
    requires
        s.len() > 0,
        t.len() > 0,
        forall|i: int| 0 <= i < s.len() ==> t.contains(#[trigger] s[i]),
        forall|i: int| 0 <= i < t.len() ==> s.contains(#[trigger] t[i]),
    ensures
        lowest(s) == lowest(t),
        highest(s) == highest(t),
{
    lemma_lowest(s);
    lemma_lowest(t);
    lemma_highest(s);
    lemma_highest(t);
    let i = choose|i: int| 0 <= i < s.len() && s[i] == lowest(s);
    assert(t.contains(s[i]));
    let j = choose|j: int| 0 <= j < t.len() && t[j] == lowest(t);
    assert(s.contains(t[j]));
    let i = choose|i: int| 0 <= i < s.len() && s[i] == highest(s);
    assert(t.contains(s[i]));
    let j = choose|j: int| 0 <= j < t.len() && t[j] == highest(t);
    assert(s.contains(t[j]));
}

/// Of two stairs one level apart, the footprint comes to stand on the even
/// one, whichever of them is the lower.
pub proof fn lemma_snap_even(lo: i8, hi: i8)
    requires
        hi - lo == 1,
    ensures
        !odd(snap(lo, hi) as int),
        odd(lo as int) ==> snap(lo, hi) == hi,
        !odd(lo as int) ==> snap(lo, hi) == lo,
{
}

/// The stair-snap rule. Where not every tile matches the level, but every
/// tile belongs to a stair and the stairs lie less than two levels apart, the
/// span may be stood on, at the level of one of those stairs: the common one
/// where all agree, else the even one of the two.
pub proof fn lemma_stair_snap(tiles: Seq<TileModel>, level: i8)
    requires
        !all_match(tiles, level),
        all_stairs(tiles, level),
        highest(stairs(tiles, level)) - lowest(stairs(tiles, level)) < 2,
    ensures
        span_valid(tiles, level).0,
        span_valid(tiles, level).1 == snap(
            lowest(stairs(tiles, level)),
            highest(stairs(tiles, level)),
        ),
        stairs(tiles, level).contains(span_valid(tiles, level).1),
        highest(stairs(tiles, level)) != lowest(stairs(tiles, level)) ==> !odd(
            span_valid(tiles, level).1 as int,
        ),
{
    reveal(span_valid);
    let s = stairs(tiles, level);
    assert(s.len() > 0);
    lemma_lowest(s);
    lemma_highest(s);
}

/// Span validity does not depend on the direction in which the tiles are
/// met: the tiles in reverse order give the same answer.
pub proof fn lemma_span_valid_symmetric(tiles: Seq<TileModel>, level: i8)
    ensures
        span_valid(tiles.reverse(), level) == span_valid(tiles, level),
{
    reveal(span_valid);
    let back = tiles.reverse();
    let n = tiles.len() as int;
    assert forall|i: int| 0 <= i < n implies #[trigger] back[i] == tiles[n - 1 - i] by {}
    if all_match(tiles, level) {
        assert forall|i: int| 0 <= i < n implies (#[trigger] back[i]).validity_of(level).0 == 1 by {
            assert(back[i] == tiles[n - 1 - i]);
        }
    }
    if all_match(back, level) {
        assert forall|i: int| 0 <= i < n implies (#[trigger] tiles[i]).validity_of(level).0 == 1 by {
            assert(back[n - 1 - i] == tiles[i]);
        }
    }
    if all_stairs(tiles, level) {
        assert forall|i: int| 0 <= i < n implies (#[trigger] back[i]).validity_of(level).1 is Some by {
            assert(back[i] == tiles[n - 1 - i]);
        }
    }
    if all_stairs(back, level) {
        assert forall|i: int| 0 <= i < n implies (#[trigger] tiles[i]).validity_of(level).1 is Some by {
            assert(back[n - 1 - i] == tiles[i]);
        }
    }
    if n > 0 {
        let s = stairs(tiles, level);
        let t = stairs(back, level);
        assert forall|i: int| 0 <= i < s.len() implies t.contains(#[trigger] s[i]) by {
            assert(t[n - 1 - i] == s[i]);
        }
        assert forall|i: int| 0 <= i < t.len() implies s.contains(#[trigger] t[i]) by {
            assert(s[n - 1 - i] == t[i]);
        }
        lemma_same_elements_same_bounds(s, t);
    }
}

/// A span that may not be stood on gives the level back unchanged.
pub proof fn lemma_invalid_span_keeps_level(tiles: Seq<TileModel>, level: i8)
    ensures
        !span_valid(tiles, level).0 ==> span_valid(tiles, level).1 == level,
{
    reveal(span_valid);
}

/// A span without tiles may be stood on at any level.
pub proof fn lemma_empty_span_valid(level: i8)
    ensures
        span_valid(Seq::<TileModel>::empty(), level) == (true, level),
{
    reveal(span_valid);
}

} // verus!
