//! The tiles of a pyramid: a tile and all the tiles that divide it, down to
//! a given depth.

use crate::tile::{child_tile, lemma_child_tile_wf, Tile, MAX_ZOOM};
use vstd::arithmetic::div_mod::{lemma_div_denominator, lemma_fundamental_div_mod, lemma_mod_bound};
use vstd::arithmetic::power::{lemma_pow0, lemma_pow1, lemma_pow_adds, lemma_pow_positive, pow};
use vstd::arithmetic::power2::{lemma2_to64, lemma_pow2_pos, lemma_pow2_unfold, pow2};
use vstd::prelude::*;

verus! {

/// Number of tiles in a pyramid of the given depth: the sum of the powers
/// of four up to the depth-th.
pub open spec fn tiles_in_pyramid(depth: nat) -> nat
    decreases depth,
{
    if depth == 0 {
        1
    } else {
        (tiles_in_pyramid((depth - 1) as nat) + pow(4, depth)) as nat
    }
}

/// The addresses of the tiles of a pyramid, in the order in which they are
/// rendered: the top tile, then the pyramids of the four tiles that divide
/// it, one after the other.
pub open spec fn pyramid_tiles(t: Tile, depth: nat) -> Seq<Tile>
    decreases depth,
{
    if depth == 0 {
        seq![t]
    } else {
        seq![t] + pyramid_tiles(child_tile(t, 0), (depth - 1) as nat) + pyramid_tiles(
            child_tile(t, 1),
            (depth - 1) as nat,
        ) + pyramid_tiles(child_tile(t, 2), (depth - 1) as nat) + pyramid_tiles(
            child_tile(t, 3),
            (depth - 1) as nat,
        )
    }
}

/// The tile `t` lies within the tile `root`: it is `root` itself or one of
/// the tiles that divide it at some deeper level.
pub open spec fn under(t: Tile, root: Tile) -> bool {
    &&& t.z >= root.z
    &&& (t.x as int) / (pow2((t.z - root.z) as nat) as int) == root.x
    &&& (t.y as int) / (pow2((t.z - root.z) as nat) as int) == root.y
}

/// A pyramid holds its top tile and four pyramids of the depth below.
pub proof fn lemma_pyramid_grows(depth: nat)
    requires
        depth > 0,
    ensures
        tiles_in_pyramid(depth) == 1 + 4 * tiles_in_pyramid((depth - 1) as nat),
    decreases depth,
{
    lemma_pow0(4);
    lemma_pow1(4);
    if depth == 1 {
        assert(tiles_in_pyramid(0) == 1);
        assert(tiles_in_pyramid(1) == tiles_in_pyramid(0) + pow(4, 1));
    } else {
        lemma_pyramid_grows((depth - 1) as nat);
        assert(pow(4, depth) == 4 * pow(4, (depth - 1) as nat)) by {
            lemma_pow_adds(4, 1, (depth - 1) as nat);
        }
        lemma_pow_positive(4, depth);
        lemma_pow_positive(4, (depth - 1) as nat);
        assert(tiles_in_pyramid(depth) == tiles_in_pyramid((depth - 1) as nat) + pow(4, depth));
        assert(tiles_in_pyramid((depth - 1) as nat) == tiles_in_pyramid((depth - 2) as nat) + pow(
            4,
            (depth - 1) as nat,
        ));
    }
}

/// A pyramid has as many addresses as it has tiles.
pub proof fn lemma_pyramid_tiles_len(t: Tile, depth: nat)
    ensures
        pyramid_tiles(t, depth).len() == tiles_in_pyramid(depth),
        tiles_in_pyramid(depth) >= 1,
    decreases depth,
{
    if depth > 0 {
        let below = (depth - 1) as nat;
        lemma_pyramid_grows(depth);
        lemma_pyramid_tiles_len(child_tile(t, 0), below);
        lemma_pyramid_tiles_len(child_tile(t, 1), below);
        lemma_pyramid_tiles_len(child_tile(t, 2), below);
        lemma_pyramid_tiles_len(child_tile(t, 3), below);
    }
}

/// The addresses of a pyramid: the top tile first, then the addresses of
/// the pyramids of the four tiles that divide it, block after block.
pub proof fn lemma_pyramid_block(t: Tile, depth: nat, k: int, i: int)
    requires
        depth > 0,
        0 <= k < 4,
        0 <= i < tiles_in_pyramid((depth - 1) as nat),
    ensures
        pyramid_tiles(t, depth)[0] == t,
        0 < 1 + k * tiles_in_pyramid((depth - 1) as nat) + i < tiles_in_pyramid(depth),
        pyramid_tiles(t, depth)[1 + k * tiles_in_pyramid((depth - 1) as nat) + i] == pyramid_tiles(
            child_tile(t, k),
            (depth - 1) as nat,
        )[i],
{
    let below = (depth - 1) as nat;
    let size = tiles_in_pyramid(below) as int;
    lemma_pyramid_grows(depth);
    lemma_pyramid_tiles_len(child_tile(t, 0), below);
    lemma_pyramid_tiles_len(child_tile(t, 1), below);
    lemma_pyramid_tiles_len(child_tile(t, 2), below);
    lemma_pyramid_tiles_len(child_tile(t, 3), below);
    let north_west = pyramid_tiles(child_tile(t, 0), below);
    let south_west = pyramid_tiles(child_tile(t, 1), below);
    let north_east = pyramid_tiles(child_tile(t, 2), below);
    let south_east = pyramid_tiles(child_tile(t, 3), below);
    let with_one = seq![t] + north_west;
    let with_two = with_one + south_west;
    let with_three = with_two + north_east;
    let with_all = with_three + south_east;
    assert(pyramid_tiles(t, depth) == with_all);
    assert(k * size == if k == 0 {
        0
    } else if k == 1 {
        size
    } else if k == 2 {
        2 * size
    } else {
        3 * size
    }) by (nonlinear_arith)
        requires
            0 <= k < 4,
    ;
    if k == 0 {
        assert(with_all[1 + i] == with_one[1 + i]);
        assert(with_one[1 + i] == north_west[i]);
    } else if k == 1 {
        assert(with_all[1 + size + i] == with_two[1 + size + i]);
        assert(with_two[1 + size + i] == south_west[i]);
    } else if k == 2 {
        assert(with_all[1 + 2 * size + i] == with_three[1 + 2 * size + i]);
        assert(with_three[1 + 2 * size + i] == north_east[i]);
    } else {
        assert(with_all[1 + 3 * size + i] == south_east[i]);
    }
    assert(with_all[0] == with_one[0]);
}

/// Every place in a pyramid but the first lies in one of its four blocks.
pub proof fn lemma_pyramid_place(depth: nat, i: int) -> (at: (int, int))
    requires
        depth > 0,
        0 < i < tiles_in_pyramid(depth),
    ensures
        0 <= at.0 < 4,
        0 <= at.1 < tiles_in_pyramid((depth - 1) as nat),
        i == 1 + at.0 * tiles_in_pyramid((depth - 1) as nat) + at.1,
{
    let size = tiles_in_pyramid((depth - 1) as nat) as int;
    lemma_pyramid_grows(depth);
    lemma_pyramid_tiles_len(Tile { x: 0, y: 0, z: 0 }, (depth - 1) as nat);
    let k = (i - 1) / size;
    let j = (i - 1) % size;
    lemma_fundamental_div_mod(i - 1, size);
    lemma_mod_bound(i - 1, size);
    assert(0 <= k < 4) by (nonlinear_arith)
        requires
            0 <= i - 1 < 4 * size,
            size > 0,
            i - 1 == size * k + j,
            0 <= j < size,
    ;
    assert(size * k == k * size) by (nonlinear_arith);
    (k, j)
}

/// Every tile is under itself.
pub proof fn lemma_under_self(t: Tile)
    ensures
        under(t, t),
{
    lemma2_to64();
    assert((t.z - t.z) as nat == 0);
    assert(pow2(0) == 1);
}

/// What lies under one of the four tiles that divide a tile lies under that
/// tile, at a deeper level.
pub proof fn lemma_under_child(t: Tile, root: Tile, k: int)
    requires
        root.wf(),
        root.z < MAX_ZOOM,
        0 <= k < 4,
        under(t, child_tile(root, k)),
    ensures
        under(t, root),
        t.z > root.z,
{
    let c = child_tile(root, k);
    lemma_child_tile_wf(root, k);
    let d = (t.z - c.z) as nat;
    lemma_pow2_unfold(d + 1);
    lemma_pow2_pos(d);
    let p = pow2(d) as int;
    lemma_div_denominator(t.x as int, p, 2);
    lemma_div_denominator(t.y as int, p, 2);
    assert(pow2(d + 1) == p * 2);
    assert((t.z - root.z) as nat == d + 1);
}

/// Every tile of a pyramid lies under its top tile; the first is the top
/// tile itself and the others lie at deeper levels.
pub proof fn lemma_pyramid_under(root: Tile, depth: nat, i: int)
    requires
        root.wf(),
        root.z + depth <= MAX_ZOOM,
        0 <= i < tiles_in_pyramid(depth),
    ensures
        under(pyramid_tiles(root, depth)[i], root),
        i == 0 ==> pyramid_tiles(root, depth)[i] == root,
        i > 0 ==> pyramid_tiles(root, depth)[i].z > root.z,
    decreases depth,
{
    if i == 0 {
        lemma_under_self(root);
        if depth > 0 {
            lemma_pyramid_tiles_len(root, (depth - 1) as nat);
            lemma_pyramid_block(root, depth, 0, 0);
        }
    } else {
        let at = lemma_pyramid_place(depth, i);
        lemma_pyramid_block(root, depth, at.0, at.1);
        lemma_child_tile_wf(root, at.0);
        lemma_pyramid_under(child_tile(root, at.0), (depth - 1) as nat, at.1);
        lemma_under_child(pyramid_tiles(root, depth)[i], root, at.0);
    }
}

/// Two places in a pyramid hold two different addresses.
pub proof fn lemma_pyramid_distinct(root: Tile, depth: nat, a: int, b: int)
    requires
        root.wf(),
        root.z + depth <= MAX_ZOOM,
        0 <= a < b < tiles_in_pyramid(depth),
    ensures
        pyramid_tiles(root, depth)[a] != pyramid_tiles(root, depth)[b],
    decreases depth,
{
    lemma_pyramid_under(root, depth, a);
    lemma_pyramid_under(root, depth, b);
    if a > 0 {
        let below = (depth - 1) as nat;
        let pa = lemma_pyramid_place(depth, a);
        let pb = lemma_pyramid_place(depth, b);
        lemma_pyramid_block(root, depth, pa.0, pa.1);
        lemma_pyramid_block(root, depth, pb.0, pb.1);
        lemma_child_tile_wf(root, pa.0);
        lemma_child_tile_wf(root, pb.0);
        let ca = child_tile(root, pa.0);
        let cb = child_tile(root, pb.0);
        if pa.0 == pb.0 {
            lemma_pyramid_distinct(ca, below, pa.1, pb.1);
        } else {
            lemma_pyramid_under(ca, below, pa.1);
            lemma_pyramid_under(cb, below, pb.1);
            let ta = pyramid_tiles(root, depth)[a];
            let tb = pyramid_tiles(root, depth)[b];
            if ta == tb {
                assert(ca.x == cb.x && ca.y == cb.y);
                assert(pa.0 / 2 == pb.0 / 2 && pa.0 % 2 == pb.0 % 2);
                assert(false);
            }
        }
    }
}

/// A pyramid of depth `depth` has the sum of the powers of four up to the
/// `depth`-th as its number of tiles, and no two of them have the same
/// address.
pub proof fn lemma_pyramid_addresses_unique(root: Tile, depth: nat)
    requires
        root.wf(),
        root.z + depth <= MAX_ZOOM,
    ensures
        pyramid_tiles(root, depth).len() == tiles_in_pyramid(depth),
        forall|a: int, b: int|
            0 <= a < b < tiles_in_pyramid(depth) ==> pyramid_tiles(root, depth)[a] != pyramid_tiles(
                root,
                depth,
            )[b],
{
    lemma_pyramid_tiles_len(root, depth);
    assert forall|a: int, b: int| 0 <= a < b < tiles_in_pyramid(depth) implies pyramid_tiles(
        root,
        depth,
    )[a] != pyramid_tiles(root, depth)[b] by {
        lemma_pyramid_distinct(root, depth, a, b);
    }
}

} // verus!
