use wasm_canvas::pattern::{generate_checkerboard_tile, RED_PIXEL, WHITE_PIXEL};
use wasm_canvas::pixels::pixels_to_le_bytes;
use wasm_canvas::renderer::{SoftwareRenderer, SKY_COLOR};

const R: u32 = RED_PIXEL;
const W: u32 = WHITE_PIXEL;

fn keys(names: &[&str]) -> Vec<String> {
    names.iter().map(|s| s.to_string()).collect()
}

fn pixel(bytes: &[u8], i: usize) -> u32 {
    u32::from_le_bytes([bytes[4 * i], bytes[4 * i + 1], bytes[4 * i + 2], bytes[4 * i + 3]])
}

#[test]
fn new_lays_out_horizon_and_floor() {
    let r = SoftwareRenderer::new(4, 90, 1);
    assert_eq!(r.width(), 4);
    assert_eq!(r.height(), 90);
    assert_eq!(r.horizon_y(), 30);
    // The first 29 scanlines below the horizon lie beyond the maximum depth.
    assert_eq!(r.floor_start_y(), 59);
    assert_eq!(r.tile_size(), 2);
    assert_eq!(r.angle(), 0);
    assert_eq!(r.get_pixels(), vec![0u8; 4 * 4 * 90]);
}

#[test]
fn short_screen_is_all_sky() {
    // 14 scanlines below the horizon, all beyond the maximum depth.
    let r = SoftwareRenderer::new(10, 20, 2);
    assert_eq!(r.horizon_y(), 6);
    assert_eq!(r.floor_start_y(), 20);
    let r = SoftwareRenderer::new(3, 0, 2);
    assert_eq!(r.floor_start_y(), 0);
    assert_eq!(r.get_pixels(), Vec::<u8>::new());
}

#[test]
fn floor_starts_29_rows_below_horizon() {
    let r = SoftwareRenderer::new(1, 600, 8);
    assert_eq!(r.horizon_y(), 200);
    assert_eq!(r.floor_start_y(), 229);
    assert_eq!(r.tile_size(), 16);
}

#[test]
fn new_with_texture_keeps_texture() {
    let data: Vec<u8> = vec![
        1, 2, 3, 4, 5, 6, 7, 8, 9, 10, 11, 12, 13, 14, 15, 16,
    ];
    let r = SoftwareRenderer::new_with_texture(2, 3, 2, data);
    assert_eq!(r.tile_size(), 2);
    assert_eq!(r.width(), 2);
    assert_eq!(r.height(), 3);
    // Height 3: no floor rows, so nothing is sampled.
    assert!(r.samples_in_texture(&Vec::new(), &Vec::new()));
}

#[test]
fn short_texture_draws_when_no_missing_texel_is_shown() {
    // No floor at all: an all-sky frame, whatever the texture holds.
    let mut empty = SoftwareRenderer::new_with_texture(1, 43, 4, Vec::new());
    assert_eq!(empty.floor_start_y(), 43);
    assert!(empty.samples_in_texture(&Vec::new(), &Vec::new()));
    empty.render_frame(&Vec::new(), &Vec::new());
    let bytes = empty.get_pixels();
    for i in 0..43 {
        assert_eq!(pixel(&bytes, i), SKY_COLOR);
    }
    // One texel of a 2x2 texture: only world points wrapping to (0, 0) draw.
    let mut short = SoftwareRenderer::new_with_texture(1, 90, 2, vec![9, 8, 7, 6, 5]);
    let floor = 90 - 59;
    let even: Vec<i32> = (0..floor as i32).map(|k| 2 * k - 30).collect();
    assert!(short.samples_in_texture(&even, &even));
    short.render_frame(&even, &even);
    let bytes = short.get_pixels();
    for k in 0..floor {
        assert_eq!(bytes[4 * (59 + k)..4 * (59 + k) + 4].to_vec(), vec![9u8, 8, 7, 6]);
    }
    let mut odd = even.clone();
    odd[5] = 1;
    assert!(!short.samples_in_texture(&odd, &even));
    assert!(!short.samples_in_texture(&even, &odd));
}

#[test]
fn checkerboard_equals_texture_of_its_own_bytes() {
    let (tile, size) = generate_checkerboard_tile(3);
    let bytes = pixels_to_le_bytes(&tile);
    let mut a = SoftwareRenderer::new(3, 90, 3);
    let mut b = SoftwareRenderer::new_with_texture(3, 90, size, bytes);
    let floor = (90 - 59) * 3;
    let wx: Vec<i32> = (0..floor as i32).map(|k| k * 11 - 200).collect();
    let wz: Vec<i32> = (0..floor as i32).map(|k| 77 - k * 5).collect();
    a.update(&keys(&["q"]));
    b.update(&keys(&["q"]));
    a.render_frame(&wx, &wz);
    b.render_frame(&wx, &wz);
    assert_eq!(a.get_pixels(), b.get_pixels());
    assert_eq!(a.angle(), b.angle());
}

#[test]
fn extra_texels_and_trailing_bytes_never_show() {
    let data: Vec<u8> = (1u8..=16).collect();
    let mut longer = data.clone();
    longer.extend([100u8, 101, 102, 103, 104, 105, 106]);
    let mut a = SoftwareRenderer::new_with_texture(2, 90, 2, data);
    let mut b = SoftwareRenderer::new_with_texture(2, 90, 2, longer);
    let floor = (90 - 59) * 2;
    let wx: Vec<i32> = (0..floor as i32).map(|k| k * 3 - 7).collect();
    let wz: Vec<i32> = (0..floor as i32).map(|k| 5 - k).collect();
    a.render_frame(&wx, &wz);
    b.render_frame(&wx, &wz);
    assert_eq!(a.get_pixels(), b.get_pixels());
}

#[test]
fn one_texel_texture_bytes_come_back() {
    let mut r = SoftwareRenderer::new_with_texture(3, 90, 1, vec![0x12, 0x34, 0x56, 0x78]);
    r.update(&keys(&["ArrowLeft", "z"]));
    let floor = (90 - 59) * 3;
    let wx: Vec<i32> = (0..floor as i32).map(|k| k * 13 - 100).collect();
    let wz: Vec<i32> = (0..floor as i32).map(|k| -k).collect();
    r.render_frame(&wx, &wz);
    let bytes = r.get_pixels();
    for i in (59 * 3)..(90 * 3) {
        assert_eq!(bytes[4 * i..4 * i + 4].to_vec(), vec![0x12u8, 0x34, 0x56, 0x78]);
    }
}

#[test]
fn key_order_and_aliases_do_not_matter() {
    let mut a = SoftwareRenderer::new(2, 9, 1);
    let mut b = SoftwareRenderer::new(2, 9, 1);
    let ta = a.update(&keys(&["ArrowUp", "q", "x", "ArrowLeft", "s", "z"]));
    let tb = b.update(&keys(&["z", "ArrowLeft", "ArrowUp", "q", "ArrowDown"]));
    assert_eq!(ta, tb);
    assert_eq!(ta, 1);
    assert_eq!(a.angle(), b.angle());
    assert_eq!(a.angle(), 4);
}

#[test]
fn update_turns_and_reports_thrust() {
    let mut r = SoftwareRenderer::new(4, 90, 1);
    assert_eq!(r.update(&keys(&["ArrowLeft"])), 0);
    assert_eq!(r.angle(), 2);
    assert_eq!(r.update(&keys(&["ArrowRight", "d"])), 0);
    assert_eq!(r.angle(), 1022);
    assert_eq!(r.update(&keys(&["ArrowUp", "z", "s", "x"])), 1);
    assert_eq!(r.angle(), 1022);
    assert_eq!(r.update(&keys(&["ArrowDown", "q", "q"])), -1);
    assert_eq!(r.angle(), 2);
    assert_eq!(r.update(&Vec::new()), 0);
    assert_eq!(r.angle(), 2);
}

#[test]
fn heading_wraps_after_a_full_turn() {
    let mut r = SoftwareRenderer::new(4, 90, 1);
    for _ in 0..512 {
        r.update(&keys(&["q"]));
    }
    assert_eq!(r.angle(), 0);
    let many: Vec<String> = keys(&["ArrowLeft"]).into_iter().cycle().take(700).collect();
    r.update(&many);
    assert_eq!(r.angle(), 1400 % 1024);
}

#[test]
fn turning_back_restores_heading() {
    let mut r = SoftwareRenderer::new(4, 90, 1);
    r.update(&keys(&["q", "q", "q"]));
    let before = r.angle();
    r.update(&keys(&["d", "ArrowRight", "d"]));
    r.update(&keys(&["ArrowLeft", "ArrowLeft", "q"]));
    assert_eq!(r.angle(), before);
}

#[test]
fn render_draws_sky_then_floor_texels() {
    let mut r = SoftwareRenderer::new(2, 90, 1);
    let floor = (90 - 59) * 2;
    let wx: Vec<i32> = (0..floor as i32).collect();
    let wz: Vec<i32> = vec![0; floor];
    r.render_frame(&wx, &wz);
    let bytes = r.get_pixels();
    assert_eq!(bytes.len(), 2 * 90 * 4);
    for i in 0..(59 * 2) {
        assert_eq!(pixel(&bytes, i), SKY_COLOR);
    }
    for k in 0..floor {
        let expected = if k % 2 == 0 { R } else { W };
        assert_eq!(pixel(&bytes, 59 * 2 + k), expected);
    }
}

#[test]
fn render_wraps_negative_and_far_coordinates() {
    let mut r = SoftwareRenderer::new(1, 90, 1);
    let floor = 90 - 59;
    let mut wx = vec![0i32; floor];
    let mut wz = vec![0i32; floor];
    wx[0] = -1; // column 1
    wx[1] = 2; // column 0
    wz[1] = 1; // row 1 -> white
    wx[2] = i32::MIN; // column 0
    wz[2] = i32::MAX; // row 1 -> white
    wx[3] = -3; // column 1
    wz[3] = -5; // row 1 -> red
    r.render_frame(&wx, &wz);
    let bytes = r.get_pixels();
    assert_eq!(pixel(&bytes, 59), W);
    assert_eq!(pixel(&bytes, 60), W);
    assert_eq!(pixel(&bytes, 61), W);
    assert_eq!(pixel(&bytes, 62), R);
    assert_eq!(pixel(&bytes, 63), R);
}

#[test]
fn render_is_periodic_in_tile_size() {
    let mut a = SoftwareRenderer::new(3, 90, 3);
    let mut b = SoftwareRenderer::new(3, 90, 3);
    let size = a.tile_size() as i32;
    assert_eq!(size, 8);
    let floor = (90 - 59) * 3;
    let wx: Vec<i32> = (0..floor as i32).map(|k| k * 7 - 50).collect();
    let wz: Vec<i32> = (0..floor as i32).map(|k| 30 - k * 3).collect();
    let wx2: Vec<i32> = wx.iter().map(|v| v + size).collect();
    let wz2: Vec<i32> = wz.iter().map(|v| v - 2 * size).collect();
    a.render_frame(&wx, &wz);
    b.render_frame(&wx2, &wz2);
    assert_eq!(a.get_pixels(), b.get_pixels());
}

#[test]
fn render_shows_unbounded_checkerboard() {
    // Squares of side 4 (a power of two): tile side 8, and every world
    // point shows its colour on the infinite board.
    let mut r = SoftwareRenderer::new(1, 90, 4);
    let floor = 90 - 59;
    let wx: Vec<i32> = (0..floor as i32).map(|k| k * 5 - 70).collect();
    let wz: Vec<i32> = (0..floor as i32).map(|k| 13 - k * 3).collect();
    r.render_frame(&wx, &wz);
    let bytes = r.get_pixels();
    for k in 0..floor {
        let parity = (wx[k].div_euclid(4) + wz[k].div_euclid(4)).rem_euclid(2);
        let expected = if parity == 0 { R } else { W };
        assert_eq!(pixel(&bytes, 59 + k), expected);
    }
}

#[test]
fn render_with_texture_samples_texture() {
    // A 2x2 texture: texels 0x04030201, 0x08070605 / 0x0C0B0A09, 0x100F0E0D.
    let data: Vec<u8> = (1u8..=16).collect();
    let mut r = SoftwareRenderer::new_with_texture(2, 90, 2, data);
    let floor = (90 - 59) * 2;
    let mut wx = vec![0i32; floor];
    let mut wz = vec![0i32; floor];
    wx[1] = 1;
    wz[2] = 1;
    wx[3] = 3;
    wz[3] = 3;
    r.render_frame(&wx, &wz);
    let bytes = r.get_pixels();
    assert_eq!(bytes[118 * 4..118 * 4 + 16].to_vec(), (1u8..=16).collect::<Vec<u8>>());
}

#[test]
fn two_updates_turn_like_one() {
    let first = keys(&["q", "ArrowRight", "ArrowLeft", "ArrowLeft", "z"]);
    let second = keys(&["d", "d", "d", "x", "ArrowDown"]);
    let mut split = SoftwareRenderer::new(2, 9, 1);
    let t1 = split.update(&first);
    let t2 = split.update(&second);
    let mut joined = SoftwareRenderer::new(2, 9, 1);
    let mut all = first.clone();
    all.extend(second.iter().cloned());
    let t = joined.update(&all);
    assert_eq!(split.angle(), joined.angle());
    assert_eq!(t1 + t2, t);
    assert_eq!(joined.angle(), 1022);
    assert_eq!(t, 0);
}
