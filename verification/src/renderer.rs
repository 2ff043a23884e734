//! The software renderer's integer state and logic: the pixel buffer, the
//! texture tile, the layout of sky and perspective floor on screen, the
//! camera heading, and the drawing of a frame from the world coordinates
//! that each floor pixel shows.
use vstd::prelude::*;
use vstd::arithmetic::power2::lemma2_to64;
use crate::keys::{key_action, KeyAction, thrust_of, rotation_of, lemma_key_totals_bounded};
use crate::pattern::{generate_checkerboard_tile, is_checkerboard_tile, MAX_SQUARE_SIZE};
use crate::pixels::{
    texture_from_rgba, texels_from_rgba, pixels_to_le_bytes, pixel_bytes,
    lemma_pack_bytes, lemma_pixel_bytes_roundtrip,
};
use crate::texture::{texel_at, texel_index, lemma_texel_index_bound, lemma_wrap_is_mod};

verus! {

/// Light blue sky, packed as RGBA bytes in little-endian order.
pub const SKY_COLOR: u32 = 0xFF_EB_CE_87;

/// The number of distinct camera headings (one full turn).
pub const ANGLE_STEPS: usize = 1024;

/// Height of the camera above the ground plane, in world units.
pub const CAMERA_HEIGHT: u64 = 100;

/// Distance from the eye to the screen, in pixels (sets the field of view).
pub const FOCAL_LENGTH: u64 = 200;

/// Scanlines farther than this depth are drawn as sky, not floor.
pub const MAX_DEPTH: u64 = 700;

/// The most keys that one update handles (more than a 32-bit memory can hold).
pub const MAX_KEYS: usize = 0x3FFF_FE00;

/// The scanline `row` rows below the horizon, whose depth is
/// `CAMERA_HEIGHT * FOCAL_LENGTH / (row + 1/2)` (taken at the pixel centre),
/// lies beyond `MAX_DEPTH`.
pub open spec fn beyond_max_depth(row: nat) -> bool {
    2 * CAMERA_HEIGHT * FOCAL_LENGTH > MAX_DEPTH * (2 * row + 1)
}

/// Among the first `count` scanlines below the horizon, how many lie before
/// the floor starts: one more than the last of them beyond the maximum depth,
/// or none.
pub open spec fn far_rows(count: nat) -> nat
    decreases count,
{
    if count == 0 {
        0
    } else if beyond_max_depth((count - 1) as nat) {
        count
    } else {
        far_rows((count - 1) as nat)
    }
}

/// The horizon lies a third of the way down the screen.
pub open spec fn horizon_for(height: nat) -> nat {
    height / 3
}

/// The first screen row drawn as floor.
pub open spec fn floor_start_for(height: nat) -> nat {
    horizon_for(height) + far_rows((height - horizon_for(height)) as nat)
}

/// The heading after turning from `angle` by `rotation` steps, wrapped to a
/// full turn.
pub open spec fn angle_after(angle: int, rotation: int) -> nat {
    ((angle + rotation) % (ANGLE_STEPS as int)) as nat
}

/// A new renderer: a blank `width` by `height` frame, the horizon and floor
/// where the height puts them, the heading at zero, and `tile` as texture.
pub open spec fn initial_view(width: nat, height: nat, tile: Seq<u32>, tile_size: nat) -> RendererView {
    RendererView {
        pixels: Seq::new(width * height, |i: int| 0u32),
        tile,
        tile_size,
        width,
        height,
        horizon_y: horizon_for(height),
        floor_start_y: floor_start_for(height),
        angle: 0,
    }
}

/// What a renderer holds, as mathematical values.
pub struct RendererView {
    /// The frame, row by row, `width` pixels per row.
    pub pixels: Seq<u32>,
    /// The texture tile, row by row, `tile_size` pixels per row.
    pub tile: Seq<u32>,
    pub tile_size: nat,
    pub width: nat,
    pub height: nat,
    pub horizon_y: nat,
    /// The first screen row of the floor; rows above it show sky.
    pub floor_start_y: nat,
    /// The camera heading, in steps of a full turn divided by `ANGLE_STEPS`.
    pub angle: nat,
}

impl RendererView {
    /// The frame has one pixel per screen position, the tile's side is at
    /// least one, the horizon and floor sit where the screen height puts
    /// them, and the heading is within one turn.
    pub open spec fn well_formed(&self) -> bool {
        &&& self.width <= u32::MAX
        &&& self.height <= u32::MAX
        &&& self.width * self.height <= u32::MAX
        &&& self.pixels.len() == self.width * self.height
        &&& 1 <= self.tile_size <= u32::MAX
        &&& self.tile_size * self.tile_size <= u32::MAX
        &&& self.horizon_y == horizon_for(self.height)
        &&& self.floor_start_y == floor_start_for(self.height)
        &&& self.angle < ANGLE_STEPS
    }

    /// The tile holds a pixel for every position of its square.
    pub open spec fn texture_complete(&self) -> bool {
        self.tile.len() >= self.tile_size * self.tile_size
    }

    /// Every floor pixel's world point, given by `world_x` and `world_z`,
    /// shows a texel that the tile holds.
    pub open spec fn samples_in_texture(&self, world_x: Seq<i32>, world_z: Seq<i32>) -> bool {
        forall|k: int|
            0 <= k < self.floor_pixel_count() ==> #[trigger] texel_index(
                self.tile_size,
                world_x[k],
                world_z[k],
            ) < self.tile.len()
    }

    /// The number of sky pixels at the top of the frame.
    pub open spec fn sky_pixel_count(&self) -> nat {
        self.floor_start_y * self.width
    }

    /// The number of floor pixels below the sky.
    pub open spec fn floor_pixel_count(&self) -> nat {
        ((self.height - self.floor_start_y) * self.width) as nat
    }

    /// The frame drawn from the world coordinates of the floor pixels: sky down
    /// to the floor, then for floor pixel `k` (screen row
    /// `floor_start_y + k / width`, column `k % width`) the texel at the world
    /// point (`world_x[k]`, `world_z[k]`).
    pub open spec fn rendered_frame(&self, world_x: Seq<i32>, world_z: Seq<i32>) -> Seq<u32> {
        Seq::new(
            self.pixels.len(),
            |i: int|
                if i < self.sky_pixel_count() {
                    SKY_COLOR
                } else {
                    texel_at(
                        self.tile,
                        self.tile_size,
                        world_x[i - self.sky_pixel_count()],
                        world_z[i - self.sky_pixel_count()],
                    )
                },
        )
    }
}

/// A software renderer of a textured perspective floor under a sky.
pub struct SoftwareRenderer {
    pixels: Vec<u32>,
    tile: Vec<u32>,
    tile_size: u32,
    tile_mask: u32,
    width: u32,
    height: u32,
    horizon_y: u32,
    floor_start_y: u32,
    angle: usize,
}

impl View for SoftwareRenderer {
    type V = RendererView;

    closed spec fn view(&self) -> RendererView {
        RendererView {
            pixels: self.pixels@,
            tile: self.tile@,
            tile_size: self.tile_size as nat,
            width: self.width as nat,
            height: self.height as nat,
            horizon_y: self.horizon_y as nat,
            floor_start_y: self.floor_start_y as nat,
            angle: self.angle as nat,
        }
    }
}

/// The floor starts right after the last scanline beyond the maximum depth:
/// the scanlines beyond it are exactly the first 29 below the horizon.
pub proof fn lemma_far_rows(count: nat)
    ensures
        far_rows(count) == if count < 29 {
            count
        } else {
            29
        },
        forall|r: nat| r < count ==> (#[trigger] beyond_max_depth(r) <==> r < far_rows(count)),
    decreases count,
{
    if count > 0 {
        lemma_far_rows((count - 1) as nat);
    }
}

/// Turning by one rotation and then by another is turning by their sum.
pub proof fn lemma_turns_compose(angle: int, first: int, second: int)
    ensures
        angle_after(angle_after(angle, first) as int, second) == angle_after(angle, first + second),
{
    let n = ANGLE_STEPS as int;
    vstd::arithmetic::div_mod::lemma_fundamental_div_mod(angle + first, n);
    let q = (angle + first) / n;
    let b = (angle + first) % n;
    assert(b + second == n * (-q) + (angle + first + second)) by (nonlinear_arith)
        requires
            angle + first == n * q + b,
    ;
    vstd::arithmetic::div_mod::lemma_mod_multiples_vanish(-q, angle + first + second, n);
}

/// Turning by some steps and back by as many restores the heading.
pub proof fn lemma_turn_back(angle: nat, rotation: int)
    requires
        angle < ANGLE_STEPS,
    ensures
        angle_after(angle_after(angle as int, rotation) as int, -rotation) == angle,
{
    lemma_turns_compose(angle as int, rotation, -rotation);
}

/// Two updates turn the heading as one update with all their keys would.
pub proof fn lemma_updates_compose(angle: int, first: Seq<Seq<char>>, second: Seq<Seq<char>>)
    ensures
        angle_after(angle_after(angle, rotation_of(first)) as int, rotation_of(second))
            == angle_after(angle, rotation_of(first + second)),
{
    lemma_turns_compose(angle, rotation_of(first), rotation_of(second));
    crate::keys::lemma_key_totals_add(first, second);
}

/// A renderer made with a texture holding the bytes of another renderer's
/// tile starts in the same state as that renderer: in particular
/// `new(w, h, s)` and `new_with_texture(w, h, side, bytes of its tile)` agree.
pub proof fn lemma_texture_of_own_bytes(width: nat, height: nat, tile: Seq<u32>, tile_size: nat)
    ensures
        initial_view(width, height, texels_from_rgba(pixel_bytes(tile)), tile_size)
            == initial_view(width, height, tile, tile_size),
{
    lemma_pixel_bytes_roundtrip(tile);
}

/// With a texture that fills its tile, every world point shows a texel that
/// the tile holds, so any frame can be drawn.
pub proof fn lemma_complete_texture_samples_in(v: RendererView, world_x: Seq<i32>, world_z: Seq<i32>)
    requires
        v.well_formed(),
        v.texture_complete(),
        world_x.len() == v.floor_pixel_count(),
        world_z.len() == v.floor_pixel_count(),
    ensures
        v.samples_in_texture(world_x, world_z),
{
    assert forall|k: int| 0 <= k < v.floor_pixel_count() implies #[trigger] texel_index(
        v.tile_size,
        world_x[k],
        world_z[k],
    ) < v.tile.len() by {
        lemma_texel_index_bound(world_x[k], world_z[k], v.tile_size);
    }
}

/// Only the first `tile_size * tile_size` texels ever show: two renderers
/// that differ only in texels past those draw the same frames.
pub proof fn lemma_render_ignores_extra_texels(
    v1: RendererView,
    v2: RendererView,
    world_x: Seq<i32>,
    world_z: Seq<i32>,
)
    requires
        v1.well_formed(),
        v2 == (RendererView { tile: v2.tile, ..v1 }),
        v1.texture_complete(),
        v2.texture_complete(),
        v1.tile.take((v1.tile_size * v1.tile_size) as int) == v2.tile.take(
            (v1.tile_size * v1.tile_size) as int,
        ),
        world_x.len() == v1.floor_pixel_count(),
        world_z.len() == v1.floor_pixel_count(),
    ensures
        v1.samples_in_texture(world_x, world_z),
        v2.samples_in_texture(world_x, world_z),
        v1.rendered_frame(world_x, world_z) == v2.rendered_frame(world_x, world_z),
{
    lemma_complete_texture_samples_in(v1, world_x, world_z);
    lemma_complete_texture_samples_in(v2, world_x, world_z);
    let n = (v1.tile_size * v1.tile_size) as int;
    assert forall|i: int| 0 <= i < v1.pixels.len() implies #[trigger] v1.rendered_frame(
        world_x,
        world_z,
    )[i] == v2.rendered_frame(world_x, world_z)[i] by {
        if i >= v1.sky_pixel_count() {
            let k = i - v1.sky_pixel_count();
            lemma_texel_index_bound(world_x[k], world_z[k], v1.tile_size);
            let t = texel_index(v1.tile_size, world_x[k], world_z[k]);
            assert(v1.tile.take(n)[t] == v2.tile.take(n)[t]);
        }
    }
    assert(v1.rendered_frame(world_x, world_z) =~= v2.rendered_frame(world_x, world_z));
}

/// RGBA bytes in, the same RGBA bytes out: with a texture made of RGBA bytes,
/// the four bytes of every floor pixel of a drawn frame are the four texture
/// bytes of the texel its world point shows.
pub proof fn lemma_render_shows_texture_bytes(
    v: RendererView,
    data: Seq<u8>,
    world_x: Seq<i32>,
    world_z: Seq<i32>,
    i: int,
)
    requires
        v.well_formed(),
        v.tile == texels_from_rgba(data),
        world_x.len() == v.floor_pixel_count(),
        world_z.len() == v.floor_pixel_count(),
        v.samples_in_texture(world_x, world_z),
        v.sky_pixel_count() <= i < v.pixels.len(),
    ensures
        ({
            let k = i - v.sky_pixel_count();
            let t = texel_index(v.tile_size, world_x[k], world_z[k]);
            forall|c: int|
                0 <= c < 4 ==> #[trigger] pixel_bytes(v.rendered_frame(world_x, world_z))[4 * i
                    + c] == data[4 * t + c]
        }),
{
    let k = i - v.sky_pixel_count();
    let t = texel_index(v.tile_size, world_x[k], world_z[k]);
    assert(v.sky_pixel_count() + v.floor_pixel_count() == v.pixels.len()) by {
        lemma_far_rows((v.height - v.horizon_y) as nat);
        assert(v.floor_start_y * v.width + (v.height - v.floor_start_y) * v.width == v.height
            * v.width) by (nonlinear_arith)
            requires
                v.floor_start_y <= v.height,
        ;
        assert(v.height * v.width == v.width * v.height) by (nonlinear_arith);
    }
    assert(0 <= k < v.floor_pixel_count());
    assert(t < v.tile.len());
    lemma_pack_bytes(data[4 * t], data[4 * t + 1], data[4 * t + 2], data[4 * t + 3]);
    let frame = v.rendered_frame(world_x, world_z);
    assert(frame[i] == v.tile[t]);
    assert forall|c: int| 0 <= c < 4 implies #[trigger] pixel_bytes(frame)[4 * i + c] == data[4
        * t + c] by {
        assert((4 * i + c) / 4 == i);
        assert((4 * i + c) % 4 == c);
    }
}

/// Where the horizon and the floor sit on a screen of `height` rows: the
/// horizon a third of the way down, the floor 29 rows below it (the rows in
/// between lie beyond the maximum depth), or at the bottom if the screen ends
/// first.
pub proof fn lemma_screen_layout(height: nat)
    ensures
        horizon_for(height) == height / 3,
        floor_start_for(height) == height / 3 + if height - height / 3 < 29 {
            height - height / 3
        } else {
            29
        },
        floor_start_for(height) <= height,
{
    lemma_far_rows((height - height / 3) as nat);
}

/// The heading after a turn is within one turn and differs from the old
/// heading plus the turn by a whole number of turns.
pub proof fn lemma_angle_after_wraps(angle: int, rotation: int)
    ensures
        0 <= angle_after(angle, rotation) < 1024,
        (angle + rotation - angle_after(angle, rotation)) % 1024 == 0,
        0 <= angle + rotation < 1024 ==> angle_after(angle, rotation) == angle + rotation,
{
    vstd::arithmetic::div_mod::lemma_fundamental_div_mod(angle + rotation, 1024);
    let q = (angle + rotation) / 1024;
    vstd::arithmetic::div_mod::lemma_mod_multiples_basic(q, 1024);
    if 0 <= angle + rotation < 1024 {
        vstd::arithmetic::div_mod::lemma_small_mod((angle + rotation) as nat, 1024);
    }
}

/// A drawn frame keeps the frame's size; its first `floor_start_y` rows are
/// sky, and the pixel at row `y`, column `x` of the floor shows the texel at
/// the world point given for floor pixel `(y - floor_start_y) * width + x`.
pub proof fn lemma_rendered_frame_layout(v: RendererView, world_x: Seq<i32>, world_z: Seq<i32>)
    requires
        v.well_formed(),
        world_x.len() == v.floor_pixel_count(),
        world_z.len() == v.floor_pixel_count(),
    ensures
        v.rendered_frame(world_x, world_z).len() == v.width * v.height,
        forall|i: int|
            0 <= i < v.floor_start_y * v.width ==> #[trigger] v.rendered_frame(world_x, world_z)[i]
                == 0xFFEB_CE87u32,
        forall|y: int, x: int|
            v.floor_start_y <= y < v.height && 0 <= x < v.width ==> #[trigger] v.rendered_frame(
                world_x,
                world_z,
            )[y * v.width + x] == texel_at(
                v.tile,
                v.tile_size,
                world_x[(y - v.floor_start_y) * v.width + x],
                world_z[(y - v.floor_start_y) * v.width + x],
            ),
{
    lemma_screen_layout(v.height);
    let w = v.width as int;
    let f = v.floor_start_y as int;
    let frame = v.rendered_frame(world_x, world_z);
    assert(f * w <= w * v.height) by (nonlinear_arith)
        requires
            f <= v.height,
            0 <= w,
    ;
    assert forall|i: int| 0 <= i < f * w implies #[trigger] frame[i] == 0xFFEB_CE87u32 by {}
    assert forall|y: int, x: int| f <= y < v.height && 0 <= x < w implies #[trigger] frame[y * w
        + x] == texel_at(
        v.tile,
        v.tile_size,
        world_x[(y - f) * w + x],
        world_z[(y - f) * w + x],
    ) by {
        assert(y * w + x - f * w == (y - f) * w + x && f * w <= y * w && y * w + x < v.height * w
            && v.height * w == w * v.height) by (nonlinear_arith)
            requires
                f <= y < v.height,
                0 <= x < w,
        ;
    }
}

/// Is the scanline `row` rows below the horizon beyond the maximum depth?
fn row_beyond_max_depth(row: u32) -> (beyond: bool)
    ensures
        beyond == beyond_max_depth(row as nat),
{
    2 * CAMERA_HEIGHT * FOCAL_LENGTH > MAX_DEPTH * (2 * (row as u64) + 1)
}

impl SoftwareRenderer {
    /// The renderer is well formed: its view is, and the wrapping mask
    /// matches the tile's side.
    pub open spec fn wf(&self) -> bool {
        &&& self.mask_matches()
        &&& self@.well_formed()
    }

    /// The wrapping mask is the tile's side minus one.
    pub closed spec fn mask_matches(&self) -> bool {
        self.tile_mask as int == self.tile_size as int - 1
    }

    /// A renderer with a blank frame of `width` by `height` pixels, the
    /// heading at zero, and `tile` as its texture.
    fn with_tile(width: u32, height: u32, tile: Vec<u32>, tile_size: u32) -> (r: Self)
        requires
            width * height <= u32::MAX,
            1 <= tile_size,
            tile_size * tile_size <= u32::MAX,
        ensures
            r.wf(),
            r@ == initial_view(width as nat, height as nat, tile@, tile_size as nat),
    {
        let pixel_count = (width * height) as usize;
        let pixels = vec![0u32; pixel_count];
        assert(pixels@ =~= Seq::new((width * height) as nat, |i: int| 0u32));
        let tile_mask = tile_size - 1;

        let horizon_y = height / 3;
        let scanline_count = height - horizon_y;
        let mut floor_start_y = horizon_y;
        let mut row: u32 = 0;
        while row < scanline_count
            invariant
                horizon_y == height / 3,
                scanline_count == height - horizon_y,
                row <= scanline_count,
                floor_start_y == horizon_y + far_rows(row as nat),
            decreases scanline_count - row,
        {
            proof {
                lemma_far_rows((row + 1) as nat);
            }
            if row_beyond_max_depth(row) {
                floor_start_y = horizon_y + row + 1;
            }
            row += 1;
        }
        SoftwareRenderer {
            pixels,
            tile,
            tile_size,
            tile_mask,
            width,
            height,
            horizon_y,
            floor_start_y,
            angle: 0,
        }
    }

    /// A renderer with a blank `width` by `height` frame whose texture is the
    /// checkerboard tile for squares of side `square_size`.
    pub fn new(width: u32, height: u32, square_size: u32) -> (r: Self)
        requires
            width * height <= u32::MAX,
            1 <= square_size <= MAX_SQUARE_SIZE,
        ensures
            r.wf(),
            r@ == initial_view(width as nat, height as nat, r@.tile, r@.tile_size),
            is_checkerboard_tile(r@.tile, r@.tile_size, square_size as nat),
            r@.width == width && r@.height == height && r@.angle == 0,
            r@.pixels.len() == width * height,
            forall|i: int| 0 <= i < width * height ==> #[trigger] r@.pixels[i] == 0u32,
            r@.horizon_y == height / 3,
            r@.floor_start_y == height / 3 + if height - height / 3 < 29 {
                height - height / 3
            } else {
                29
            },
    {
        let (tile, tile_size) = generate_checkerboard_tile(square_size);
        proof {
            lemma_screen_layout(height as nat);
        }
        Self::with_tile(width, height, tile, tile_size)
    }

    /// A renderer with a blank `width` by `height` frame whose texture is made
    /// of the RGBA bytes `texture_data`, `texture_size` pixels per row. The
    /// texture wraps seamlessly when `texture_size` is a power of two.
    pub fn new_with_texture(width: u32, height: u32, texture_size: u32, texture_data: Vec<u8>) -> (r:
        Self)
        requires
            width * height <= u32::MAX,
            1 <= texture_size,
            texture_size * texture_size <= u32::MAX,
        ensures
            r.wf(),
            r@ == initial_view(
                width as nat,
                height as nat,
                texels_from_rgba(texture_data@),
                texture_size as nat,
            ),
            r@.width == width && r@.height == height && r@.angle == 0,
            r@.pixels.len() == width * height,
            forall|i: int| 0 <= i < width * height ==> #[trigger] r@.pixels[i] == 0u32,
            r@.tile_size == texture_size,
            r@.tile.len() == texture_data@.len() / 4,
            r@.horizon_y == height / 3,
            r@.floor_start_y == height / 3 + if height - height / 3 < 29 {
                height - height / 3
            } else {
                29
            },
    {
        let tile = texture_from_rgba(&texture_data);
        proof {
            lemma_screen_layout(height as nat);
        }
        Self::with_tile(width, height, tile, texture_size)
    }

    /// Reads the pressed keys: turns the heading by two steps for each
    /// turning key (counter-clockwise for left), wrapped to a full turn, and
    /// returns the net number of forward steps asked for (backward negative),
    /// which the caller turns into motion along the new heading.
    pub fn update(&mut self, keys: &Vec<String>) -> (thrust: i32)
        requires
            old(self).wf(),
            keys.len() <= MAX_KEYS,
        ensures
            final(self).wf(),
            thrust == thrust_of(keys.deep_view()),
            final(self)@ == (RendererView {
                angle: angle_after(old(self)@.angle as int, rotation_of(keys.deep_view())),
                ..old(self)@
            }),
    {
        let ghost names = keys.deep_view();
        let mut thrust: i32 = 0;
        let mut rotation_change: i32 = 0;
        let mut i: usize = 0;
        while i < keys.len()
            invariant
                names == keys.deep_view(),
                keys.len() <= MAX_KEYS,
                i <= keys.len(),
                thrust == thrust_of(names.take(i as int)),
                rotation_change == rotation_of(names.take(i as int)),
            decreases keys.len() - i,
        {
            proof {
                lemma_key_totals_bounded(names.take(i as int));
                assert(names.take(i + 1).drop_last() =~= names.take(i as int));
            }
            match key_action(keys[i].as_str()) {
                KeyAction::Forward => thrust += 1,
                KeyAction::Backward => thrust -= 1,
                KeyAction::TurnLeft => rotation_change += 2,
                KeyAction::TurnRight => rotation_change -= 2,
                KeyAction::Ignored => {},
            }
            i += 1;
        }
        proof {
            assert(names.take(keys.len() as int) =~= names);
            lemma_key_totals_bounded(names);
        }
        let turned = self.angle as i32 + rotation_change;
        let wrapped = turned & 1023;
        proof {
            lemma2_to64();
            lemma_1024_is_pow2(1024);
            lemma_wrap_is_mod(turned, 1024);
            assert(wrapped as u32 == (turned as u32) & 1023u32) by (bit_vector)
                requires
                    wrapped == turned & 1023i32,
            ;
            assert(0 <= wrapped < 1024) by (bit_vector)
                requires
                    wrapped == turned & 1023i32,
            ;
        }
        self.angle = wrapped as usize;
        thrust
    }

    /// The texel at world point (`wx`, `wz`).
    fn sample(&self, wx: i32, wz: i32) -> (texel: u32)
        requires
            self.wf(),
            texel_index(self@.tile_size, wx, wz) < self@.tile.len(),
        ensures
            texel == texel_at(self@.tile, self@.tile_size, wx, wz),
    {
        self.tile[self.texel_index(wx, wz)]
    }

    /// The index in the tile of the texel at world point (`wx`, `wz`).
    fn texel_index(&self, wx: i32, wz: i32) -> (idx: usize)
        requires
            self.wf(),
        ensures
            idx == texel_index(self@.tile_size, wx, wz),
    {
        proof {
            lemma_texel_index_bound(wx, wz, self.tile_size as nat);
        }
        let tile_x = ((wx as u32) & self.tile_mask) as usize;
        let tile_z = ((wz as u32) & self.tile_mask) as usize;
        tile_z * self.tile_size as usize + tile_x
    }

    /// Does every floor pixel's world point show a texel that the tile holds?
    /// A frame can be drawn from these world points only when it does.
    pub fn samples_in_texture(&self, world_x: &Vec<i32>, world_z: &Vec<i32>) -> (ok: bool)
        requires
            self.wf(),
            world_x.len() == self@.floor_pixel_count(),
            world_z.len() == self@.floor_pixel_count(),
        ensures
            ok == self@.samples_in_texture(world_x@, world_z@),
    {
        let n = world_x.len();
        let mut k: usize = 0;
        while k < n
            invariant
                self.wf(),
                n == world_x.len(),
                world_x.len() == self@.floor_pixel_count(),
                world_z.len() == self@.floor_pixel_count(),
                k <= n,
                forall|j: int|
                    0 <= j < k ==> #[trigger] texel_index(self@.tile_size, world_x@[j], world_z@[j])
                        < self@.tile.len(),
            decreases n - k,
        {
            if self.texel_index(world_x[k], world_z[k]) >= self.tile.len() {
                return false;
            }
            k += 1;
        }
        true
    }

    /// Draws a frame: sky above the floor, and on the floor, pixel by pixel,
    /// the texel at the world point that the pixel shows. The world
    /// coordinates of floor pixel `k` (screen row `floor_start_y + k / width`,
    /// column `k % width`) are `world_x[k]` and `world_z[k]`.
    pub fn render_frame(&mut self, world_x: &Vec<i32>, world_z: &Vec<i32>)
        requires
            old(self).wf(),
            world_x.len() == old(self)@.floor_pixel_count(),
            world_z.len() == old(self)@.floor_pixel_count(),
            old(self)@.samples_in_texture(world_x@, world_z@),
        ensures
            final(self).wf(),
            final(self)@ == (RendererView {
                pixels: old(self)@.rendered_frame(world_x@, world_z@),
                ..old(self)@
            }),
            final(self)@.pixels.len() == old(self)@.width * old(self)@.height,
            forall|i: int|
                0 <= i < old(self)@.floor_start_y * old(self)@.width ==> #[trigger] final(self)@.pixels[i]
                    == 0xFFEB_CE87u32,
    {
        let ghost before = self@;
        let ghost expected = before.rendered_frame(world_x@, world_z@);
        proof {
            lemma_far_rows((self.height - self.horizon_y) as nat);
            assert(self.floor_start_y * self.width + (self.height - self.floor_start_y) * self.width
                == self.height * self.width) by (nonlinear_arith)
                requires
                    self.floor_start_y <= self.height,
            ;
            assert(self.height * self.width == self.width * self.height) by (nonlinear_arith);
        }
        let sky_pixel_count = (self.floor_start_y * self.width) as usize;
        let mut i: usize = 0;
        while i < sky_pixel_count
            invariant
                self.wf(),
                self@ == (RendererView { pixels: self@.pixels, ..before }),
                self.pixels@.len() == before.pixels.len(),
                expected == before.rendered_frame(world_x@, world_z@),
                sky_pixel_count == before.sky_pixel_count(),
                sky_pixel_count <= self.pixels.len(),
                i <= sky_pixel_count,
                forall|j: int| 0 <= j < i ==> #[trigger] self.pixels@[j] == expected[j],
            decreases sky_pixel_count - i,
        {
            self.pixels.set(i, SKY_COLOR);
            i += 1;
        }

        let mut y = self.floor_start_y;
        while y < self.height
            invariant
                self.wf(),
                self@ == (RendererView { pixels: self@.pixels, ..before }),
                self.pixels@.len() == before.pixels.len(),
                expected == before.rendered_frame(world_x@, world_z@),
                before.samples_in_texture(world_x@, world_z@),
                sky_pixel_count == before.sky_pixel_count(),
                world_x.len() == before.floor_pixel_count(),
                world_z.len() == before.floor_pixel_count(),
                before.sky_pixel_count() + before.floor_pixel_count() == self.pixels.len(),
                self.floor_start_y <= y <= self.height,
                forall|j: int|
                    0 <= j < y * self.width ==> #[trigger] self.pixels@[j] == expected[j],
            decreases self.height - y,
        {
            proof {
                assert(y * self.width + self.width <= self.height * self.width
                    && (y - self.floor_start_y) * self.width == y * self.width
                    - self.floor_start_y * self.width && (y + 1) * self.width == y * self.width
                    + self.width && self.height * self.width == self.width * self.height)
                    by (nonlinear_arith)
                    requires
                        self.floor_start_y <= y < self.height,
                ;
            }
            let screen_row_start = (y * self.width) as usize;
            let scanline_start = ((y - self.floor_start_y) * self.width) as usize;
            let mut x: u32 = 0;
            while x < self.width
                invariant
                    self.wf(),
                    self@ == (RendererView { pixels: self@.pixels, ..before }),
                    self.pixels@.len() == before.pixels.len(),
                    expected == before.rendered_frame(world_x@, world_z@),
                    before.samples_in_texture(world_x@, world_z@),
                    sky_pixel_count == before.sky_pixel_count(),
                    world_x.len() == before.floor_pixel_count(),
                    world_z.len() == before.floor_pixel_count(),
                    before.sky_pixel_count() + before.floor_pixel_count() == self.pixels.len(),
                    self.floor_start_y <= y < self.height,
                    screen_row_start == y * self.width,
                    scanline_start + sky_pixel_count == screen_row_start,
                    screen_row_start + self.width <= self.pixels.len(),
                    x <= self.width,
                    forall|j: int|
                        0 <= j < screen_row_start + x ==> #[trigger] self.pixels@[j] == expected[j],
                decreases self.width - x,
            {
                let k = scanline_start + x as usize;
                let texel = self.sample(world_x[k], world_z[k]);
                self.pixels.set(screen_row_start + x as usize, texel);
                x += 1;
            }
            y += 1;
        }
        proof {
            assert(self.height * self.width == self.width * self.height) by (nonlinear_arith);
            assert(self.pixels@ =~= expected);
            lemma_rendered_frame_layout(before, world_x@, world_z@);
        }
    }

    /// The frame as bytes, the four little-endian bytes (red, green, blue,
    /// alpha) of each pixel in turn.
    pub fn get_pixels(&self) -> (bytes: Vec<u8>)
        requires
            4 * self@.pixels.len() <= usize::MAX,
        ensures
            bytes@ == pixel_bytes(self@.pixels),
    {
        pixels_to_le_bytes(&self.pixels)
    }

    /// The frame's width in pixels.
    pub fn width(&self) -> (w: u32)
        ensures
            w == self@.width,
    {
        self.width
    }

    /// The frame's height in pixels.
    pub fn height(&self) -> (h: u32)
        ensures
            h == self@.height,
    {
        self.height
    }

    /// The screen row of the horizon.
    pub fn horizon_y(&self) -> (y: u32)
        ensures
            y == self@.horizon_y,
    {
        self.horizon_y
    }

    /// The first screen row drawn as floor.
    pub fn floor_start_y(&self) -> (y: u32)
        ensures
            y == self@.floor_start_y,
    {
        self.floor_start_y
    }

    /// The side of the texture tile.
    pub fn tile_size(&self) -> (s: u32)
        ensures
            s == self@.tile_size,
    {
        self.tile_size
    }

    /// The camera heading.
    pub fn angle(&self) -> (a: usize)
        ensures
            a == self@.angle,
    {
        self.angle
    }
}

/// 1024 is a power of two.
proof fn lemma_1024_is_pow2(n: int)
    requires
        n == 1024,
    ensures
        crate::pattern::is_pow2(n),
{
    lemma2_to64();
    assert(vstd::arithmetic::power2::pow2(10) == 1024);
}

} // verus!
