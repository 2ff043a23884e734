//! Procedural pattern generation: a checkerboard tile that repeats without
//! seams when it is wrapped with a bit mask.
use vstd::prelude::*;
use vstd::arithmetic::power2::{pow2, lemma_pow2_unfold, lemma_pow2_strictly_increases};
use vstd::arithmetic::div_mod::lemma_fundamental_div_mod_converse;

verus! {

/// Red, packed as RGBA bytes in little-endian order.
pub const RED_PIXEL: u32 = 0xFF_00_00_FF;

/// White, packed as RGBA bytes in little-endian order.
pub const WHITE_PIXEL: u32 = 0xFF_FF_FF_FF;

/// The largest square side for which the tile's pixel count fits in a `u32`.
pub const MAX_SQUARE_SIZE: u32 = 16384;

/// `x` is a power of two.
pub open spec fn is_pow2(x: int) -> bool {
    exists|k: nat| pow2(k) == x
}

/// The colour of the checkerboard at column `x` and row `y` when each square
/// is `square_size` pixels wide: red where the square coordinates add up to an
/// even number, white elsewhere.
pub open spec fn checker_texel(x: int, y: int, square_size: int) -> u32 {
    if (x / square_size + y / square_size) % 2 == 0 {
        RED_PIXEL
    } else {
        WHITE_PIXEL
    }
}

/// `tile` is the checkerboard tile for squares of side `square_size`: its side
/// `tile_size` is the power of two in [2 * square_size, 4 * square_size), and
/// its pixel `j` (column `j % tile_size`, row `j / tile_size`) has the colour
/// of the board there.
pub open spec fn is_checkerboard_tile(tile: Seq<u32>, tile_size: nat, square_size: nat) -> bool {
    &&& is_pow2(tile_size as int)
    &&& 2 * square_size <= tile_size < 4 * square_size
    &&& tile.len() == tile_size * tile_size
    &&& forall|j: int|
        0 <= j < tile.len() ==> #[trigger] tile[j] == checker_texel(
            j % tile_size as int,
            j / tile_size as int,
            square_size as int,
        )
}

/// The smallest power of two that is at least `n` (1 for 0).
fn next_power_of_two(n: u32) -> (p: u32)
    requires
        n <= 0x8000_0000,
    ensures
        is_pow2(p as int),
        n <= p,
        p == 1 || p < 2 * n,
{
    let mut p: u32 = 1;
    let ghost mut k: nat = 0;
    proof {
        vstd::arithmetic::power2::lemma2_to64();
    }
    while p < n
        invariant
            n <= 0x8000_0000,
            p == pow2(k),
            p >= 1,
            p == 1 || p < 2 * n,
        decreases 0x1_0000_0000 - p,
    {
        p = p * 2;
        proof {
            k = k + 1;
            lemma_pow2_unfold(k);
        }
    }
    assert(pow2(k) == p);
    p
}

/// Every index of a `size` by `size` grid names the pixel at column
/// `j % size` and row `j / size`, and that pixel is at `row * size + column`.
pub proof fn lemma_grid_index(size: int, x: int, y: int)
    requires
        size > 0,
        0 <= x < size,
        0 <= y < size,
    ensures
        0 <= y * size + x < size * size,
        (y * size + x) % size == x,
        (y * size + x) / size == y,
{
    lemma_fundamental_div_mod_converse(y * size + x, size, y, x);
    assert(0 <= y * size + x < size * size) by (nonlinear_arith)
        requires
            0 <= x < size,
            0 <= y < size,
    ;
}

/// The only power of two in [2 * s, 4 * s) is 2 * s when s is a power of two.
pub proof fn lemma_pow2_side_is_double(s: nat, t: nat)
    requires
        is_pow2(s as int),
        is_pow2(t as int),
        2 * s <= t < 4 * s,
    ensures
        t == 2 * s,
{
    let a = choose|k: nat| pow2(k) == s;
    let b = choose|k: nat| pow2(k) == t;
    lemma_pow2_unfold(a + 1);
    lemma_pow2_unfold(a + 2);
    if b <= a {
        if b < a {
            lemma_pow2_strictly_increases(b, a);
        }
    } else if b > a + 2 {
        lemma_pow2_strictly_increases(a + 2, b);
    } else if b == a + 2 {
    }
}

/// Generates one repeating tile of the checkerboard (two by two squares,
/// each `square_size` pixels wide). The tile's side is rounded up to a power
/// of two, so that wrapping a coordinate into the tile is a bit mask. Returns
/// the tile's pixels, row by row, and its side.
pub fn generate_checkerboard_tile(square_size: u32) -> (result: (Vec<u32>, u32))
    requires
        1 <= square_size <= MAX_SQUARE_SIZE,
    ensures
        is_checkerboard_tile(result.0@, result.1 as nat, square_size as nat),
        result.1 * result.1 <= 0x4000_0000,
        is_pow2(square_size as int) ==> result.1 == 2 * square_size,
        result.0@[0] == 0xFF00_00FFu32,
        forall|x: int, y: int|
            0 <= x < result.1 && 0 <= y < result.1 ==> #[trigger] result.0@[y * result.1 + x]
                == if (x / square_size as int + y / square_size as int) % 2 == 0 {
                0xFF00_00FFu32
            } else {
                0xFFFF_FFFFu32
            },
{
    let desired_size = square_size * 2;
    let tile_size = next_power_of_two(desired_size);
    proof {
        if is_pow2(square_size as int) {
            lemma_pow2_side_is_double(square_size as nat, tile_size as nat);
        }
    }
    assert(tile_size <= 0x8000) by {
        let k = choose|k: nat| pow2(k) == tile_size;
        vstd::arithmetic::power2::lemma2_to64();
        if k > 16 {
            lemma_pow2_strictly_increases(16, k);
        }
    }
    assert(tile_size * tile_size <= 0x4000_0000) by (nonlinear_arith)
        requires
            tile_size <= 0x8000,
    ;
    let tile_pixels = (tile_size * tile_size) as usize;
    let mut tile = vec![0u32; tile_pixels];
    let ghost ts = tile_size as int;
    let ghost sq = square_size as int;

    let mut y: u32 = 0;
    while y < tile_size
        invariant
            ts == tile_size,
            sq == square_size,
            1 <= square_size,
            1 <= tile_size <= 0x8000,
            ts * ts <= 0x4000_0000,
            y <= tile_size,
            tile@.len() == ts * ts,
            forall|j: int|
                0 <= j < y * ts ==> #[trigger] tile@[j] == checker_texel(j % ts, j / ts, sq),
        decreases tile_size - y,
    {
        let mut x: u32 = 0;
        while x < tile_size
            invariant
                ts == tile_size,
                sq == square_size,
                1 <= square_size,
                1 <= tile_size <= 0x8000,
                ts * ts <= 0x4000_0000,
                y < tile_size,
                x <= tile_size,
                tile@.len() == ts * ts,
                forall|j: int|
                    0 <= j < y * ts + x ==> #[trigger] tile@[j] == checker_texel(
                        j % ts,
                        j / ts,
                        sq,
                    ),
            decreases tile_size - x,
        {
            let square_x = x / square_size;
            let square_y = y / square_size;
            let is_red = (square_x + square_y) % 2 == 0;
            proof {
                lemma_grid_index(ts, x as int, y as int);
            }
            let idx = (y * tile_size + x) as usize;
            tile.set(idx, if is_red { RED_PIXEL } else { WHITE_PIXEL });
            x += 1;
        }
        assert((y + 1) * ts == y * ts + ts) by (nonlinear_arith);
        y += 1;
    }
    proof {
        lemma_checkerboard_tile_colours(tile@, ts as nat, sq as nat);
    }
    (tile, tile_size)
}

/// The colours of a checkerboard tile: the pixel at column `x`, row `y` is red
/// exactly when `x / square_size + y / square_size` is even and white
/// otherwise; so the top-left square is red, and moving one square across or
/// down changes the colour.
pub proof fn lemma_checkerboard_tile_colours(tile: Seq<u32>, tile_size: nat, square_size: nat)
    requires
        1 <= square_size,
        is_checkerboard_tile(tile, tile_size, square_size),
    ensures
        tile[0] == 0xFF00_00FFu32,
        forall|x: int, y: int|
            0 <= x < tile_size && 0 <= y < tile_size ==> #[trigger] tile[y * tile_size + x]
                == if (x / square_size as int + y / square_size as int) % 2 == 0 {
                0xFF00_00FFu32
            } else {
                0xFFFF_FFFFu32
            },
        forall|x: int, y: int|
            0 <= x && x + square_size < tile_size && 0 <= y < tile_size ==> #[trigger] tile[y
                * tile_size + x] != tile[y * tile_size + x + square_size],
        forall|x: int, y: int|
            0 <= x < tile_size && 0 <= y && y + square_size < tile_size ==> #[trigger] tile[y
                * tile_size + x] != tile[(y + square_size) * tile_size + x],
{
    let ts = tile_size as int;
    let s = square_size as int;
    assert(ts >= 2);
    lemma_grid_index(ts, 0, 0);
    assert forall|x: int, y: int| 0 <= x < ts && 0 <= y < ts implies #[trigger] tile[y * ts + x]
        == if (x / s + y / s) % 2 == 0 {
        0xFF00_00FFu32
    } else {
        0xFFFF_FFFFu32
    } by {
        lemma_grid_index(ts, x, y);
    }
    assert forall|x: int, y: int| 0 <= x && x + s < ts && 0 <= y < ts implies #[trigger] tile[y
        * ts + x] != tile[y * ts + x + s] by {
        lemma_grid_index(ts, x, y);
        lemma_grid_index(ts, x + s, y);
        vstd::arithmetic::div_mod::lemma_div_plus_one(x, s);
    }
    assert forall|x: int, y: int| 0 <= x < ts && 0 <= y && y + s < ts implies #[trigger] tile[y
        * ts + x] != tile[(y + s) * ts + x] by {
        lemma_grid_index(ts, x, y);
        lemma_grid_index(ts, x, y + s);
        vstd::arithmetic::div_mod::lemma_div_plus_one(y, s);
    }
}

} // verus!
