//! Sampling a square texture tile at any world coordinate, with the
//! coordinate wrapped into the tile by a bit mask.
use vstd::prelude::*;
use vstd::arithmetic::power2::{pow2, lemma_pow2_adds, lemma_pow2_strictly_increases, lemma2_to64};
use vstd::arithmetic::div_mod::{lemma_fundamental_div_mod_converse, lemma_mod_multiples_vanish};
use vstd::bits::{low_bits_mask, lemma_u32_low_bits_mask_is_mod};
use crate::pattern::{is_pow2, checker_texel, lemma_grid_index, lemma_pow2_side_is_double};

verus! {

/// The tile column (or row) that world coordinate `v` falls in: the low bits
/// of `v`, in two's complement, selected by the mask `tile_size - 1`.
pub open spec fn wrap_coord(v: i32, tile_size: nat) -> int {
    ((v as u32) & ((tile_size - 1) as u32)) as int
}

/// The index in the tile of the texel that the world point (`wx`, `wz`)
/// shows: the wrapped row of `wz`, the wrapped column of `wx`.
pub open spec fn texel_index(tile_size: nat, wx: i32, wz: i32) -> int {
    wrap_coord(wz, tile_size) * tile_size + wrap_coord(wx, tile_size)
}

/// The texel that the world point (`wx`, `wz`) shows.
pub open spec fn texel_at(tile: Seq<u32>, tile_size: nat, wx: i32, wz: i32) -> u32 {
    tile[texel_index(tile_size, wx, wz)]
}

/// A wrapped coordinate never exceeds the mask.
pub proof fn lemma_wrap_bound(v: i32, tile_size: nat)
    requires
        1 <= tile_size <= 0x1_0000_0000,
    ensures
        0 <= wrap_coord(v, tile_size) < tile_size,
{
    let m = (tile_size - 1) as u32;
    let u = v as u32;
    assert(u & m <= m) by (bit_vector);
}

/// The texel index of a world point lies inside the tile.
pub proof fn lemma_texel_index_bound(wx: i32, wz: i32, tile_size: nat)
    requires
        1 <= tile_size <= 0x1_0000_0000,
    ensures
        0 <= texel_index(tile_size, wx, wz) < tile_size * tile_size,
{
    lemma_wrap_bound(wx, tile_size);
    lemma_wrap_bound(wz, tile_size);
    lemma_grid_index(tile_size as int, wrap_coord(wx, tile_size), wrap_coord(wz, tile_size));
}

/// For a tile whose side is a power of two (at most 2^31), masking a
/// coordinate is the same as taking it modulo the side, negative
/// coordinates included.
pub proof fn lemma_wrap_is_mod(v: i32, tile_size: nat)
    requires
        is_pow2(tile_size as int),
        tile_size <= 0x8000_0000,
    ensures
        wrap_coord(v, tile_size) == (v as int) % (tile_size as int),
{
    let k = choose|k: nat| pow2(k) == tile_size;
    lemma2_to64();
    if k >= 32 {
        if k > 32 {
            lemma_pow2_strictly_increases(32, k);
        }
        assert(false);
    }
    let u = v as u32;
    lemma_u32_low_bits_mask_is_mod(u, k);
    assert(low_bits_mask(k) == tile_size - 1);
    assert((u as int) % (tile_size as int) == (v as int) % (tile_size as int)) by {
        if v >= 0 {
            assert(u as int == v as int) by (bit_vector)
                requires
                    v >= 0,
                    u == v as u32,
            ;
        } else {
            assert(u as int == v as int + 0x1_0000_0000) by (bit_vector)
                requires
                    v < 0,
                    u == v as u32,
            ;
            lemma_pow2_adds(k, (32 - k) as nat);
            let a = pow2((32 - k) as nat) as int;
            assert(tile_size as int * a == 0x1_0000_0000);
            lemma_mod_multiples_vanish(a, v as int, tile_size as int);
        }
    }
}

/// Sampling wraps: for a tile whose side is a power of two, the texel at a
/// world point is the tile pixel at the point's coordinates modulo the side.
/// Hence moving a world point by a whole tile shows the same texel.
pub proof fn lemma_texel_wraps(tile: Seq<u32>, tile_size: nat, wx: i32, wz: i32)
    requires
        is_pow2(tile_size as int),
        tile_size <= 0x8000_0000,
    ensures
        texel_at(tile, tile_size, wx, wz) == tile[(wz as int % tile_size as int) * tile_size + (
        wx as int % tile_size as int)],
        wx + tile_size <= i32::MAX ==> texel_at(tile, tile_size, (wx + tile_size) as i32, wz)
            == texel_at(tile, tile_size, wx, wz),
        wz + tile_size <= i32::MAX ==> texel_at(tile, tile_size, wx, (wz + tile_size) as i32)
            == texel_at(tile, tile_size, wx, wz),
{
    let k = choose|k: nat| pow2(k) == tile_size;
    vstd::arithmetic::power2::lemma_pow2_pos(k);
    lemma_wrap_is_mod(wx, tile_size);
    lemma_wrap_is_mod(wz, tile_size);
    if wx + tile_size <= i32::MAX {
        lemma_wrap_is_mod((wx + tile_size) as i32, tile_size);
        vstd::arithmetic::div_mod::lemma_mod_add_multiples_vanish(wx as int, tile_size as int);
    }
    if wz + tile_size <= i32::MAX {
        lemma_wrap_is_mod((wz + tile_size) as i32, tile_size);
        vstd::arithmetic::div_mod::lemma_mod_add_multiples_vanish(wz as int, tile_size as int);
    }
}

/// Within a repeat of two squares, the square a coordinate falls in has the
/// parity of the square it falls in on the unbounded board.
proof fn lemma_square_parity(x: int, s: int)
    requires
        s > 0,
    ensures
        (x % (2 * s)) / s == (x / s) % 2,
{
    let q = x / (2 * s);
    let r = x % (2 * s);
    assert(x == q * (2 * s) + r && 0 <= r < 2 * s) by {
        vstd::arithmetic::div_mod::lemma_fundamental_div_mod(x, 2 * s);
        assert(x == (2 * s) * q + r);
        assert((2 * s) * q == q * (2 * s)) by (nonlinear_arith);
    }
    let t = r / s;
    let w = r % s;
    vstd::arithmetic::div_mod::lemma_fundamental_div_mod(r, s);
    assert(0 <= t <= 1) by {
        if t >= 2 {
            assert(s * t >= 2 * s) by (nonlinear_arith)
                requires
                    t >= 2,
                    s > 0,
            ;
        }
        if t < 0 {
            assert(s * t <= -s) by (nonlinear_arith)
                requires
                    t < 0,
                    s > 0,
            ;
        }
    }
    assert(x == (2 * q + t) * s + w) by (nonlinear_arith)
        requires
            x == q * (2 * s) + r,
            r == s * t + w,
    ;
    lemma_fundamental_div_mod_converse(x, s, 2 * q + t, w);
}

/// The checkerboard is unbounded: when the square side is a power of two,
/// sampling the generated tile at any world point gives the colour of that
/// point on the infinite checkerboard, negative coordinates included.
pub proof fn lemma_checkerboard_unbounded(
    tile: Seq<u32>,
    tile_size: nat,
    square_size: nat,
    wx: i32,
    wz: i32,
)
    requires
        is_pow2(square_size as int),
        1 <= square_size,
        is_pow2(tile_size as int),
        2 * square_size <= tile_size < 4 * square_size,
        tile_size <= 0x8000_0000,
        tile.len() == tile_size * tile_size,
        forall|j: int|
            0 <= j < tile.len() ==> #[trigger] tile[j] == checker_texel(
                j % tile_size as int,
                j / tile_size as int,
                square_size as int,
            ),
    ensures
        texel_at(tile, tile_size, wx, wz) == checker_texel(wx as int, wz as int, square_size as int),
{
    lemma_pow2_side_is_double(square_size, tile_size);
    let ts = tile_size as int;
    let s = square_size as int;
    lemma_texel_wraps(tile, tile_size, wx, wz);
    let cx = wx as int % ts;
    let cz = wz as int % ts;
    lemma_grid_index(ts, cx, cz);
    lemma_square_parity(wx as int, s);
    lemma_square_parity(wz as int, s);
}

} // verus!
