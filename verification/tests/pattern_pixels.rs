use wasm_canvas::framebuffer::{add, Renderer, BACKGROUND_PIXEL};
use wasm_canvas::pattern::{generate_checkerboard_tile, RED_PIXEL, WHITE_PIXEL};
use wasm_canvas::pixels::{pack_rgba, pixels_to_le_bytes, texture_from_rgba};
use wasm_canvas::keys::{key_action, KeyAction};

const R: u32 = RED_PIXEL;
const W: u32 = WHITE_PIXEL;

#[test]
fn add_sums() {
    assert_eq!(add(2, 3), 5);
    assert_eq!(add(-7, 4), -3);
    assert_eq!(add(i32::MAX, 0), i32::MAX);
}

#[test]
fn tile_of_unit_squares() {
    let (tile, size) = generate_checkerboard_tile(1);
    assert_eq!(size, 2);
    assert_eq!(tile, vec![R, W, W, R]);
}

#[test]
fn tile_side_of_power_of_two_square_is_double() {
    for (sq, expected) in [(1u32, 2u32), (2, 4), (4, 8), (16, 32), (1024, 2048)] {
        let (tile, size) = generate_checkerboard_tile(sq);
        assert_eq!(size, expected);
        assert_eq!(tile.len(), (expected * expected) as usize);
    }
}

#[test]
fn tile_side_rounds_up_to_power_of_two() {
    for (sq, expected) in [(3u32, 8u32), (5, 16), (6, 16), (7, 16), (9, 32), (100, 256), (600, 2048)] {
        let (_, size) = generate_checkerboard_tile(sq);
        assert_eq!(size, expected);
    }
}

#[test]
fn tile_of_three_pixel_squares() {
    // Side 8: squares of 3 pixels, the last two columns start a third square.
    let (tile, size) = generate_checkerboard_tile(3);
    assert_eq!(size, 8);
    let row0: Vec<u32> = tile[0..8].to_vec();
    assert_eq!(row0, vec![R, R, R, W, W, W, R, R]);
    let row3: Vec<u32> = tile[24..32].to_vec();
    assert_eq!(row3, vec![W, W, W, R, R, R, W, W]);
    let row7: Vec<u32> = tile[56..64].to_vec();
    assert_eq!(row7, vec![R, R, R, W, W, W, R, R]);
}

#[test]
fn tile_of_two_pixel_squares() {
    let (tile, size) = generate_checkerboard_tile(2);
    assert_eq!(size, 4);
    assert_eq!(
        tile,
        vec![R, R, W, W, R, R, W, W, W, W, R, R, W, W, R, R]
    );
}

#[test]
fn pack_puts_alpha_highest() {
    assert_eq!(pack_rgba(0x01, 0x02, 0x03, 0x04), 0x0403_0201);
    assert_eq!(pack_rgba(0xFF, 0x00, 0x00, 0xFF), RED_PIXEL);
    assert_eq!(pack_rgba(0, 0, 0, 0), 0);
}

#[test]
fn texture_packs_full_groups_only() {
    let data = vec![1u8, 2, 3, 4, 5, 6, 7, 8, 9];
    assert_eq!(texture_from_rgba(&data), vec![0x0403_0201, 0x0807_0605]);
    assert_eq!(texture_from_rgba(&vec![1u8, 2, 3]), Vec::<u32>::new());
}

#[test]
fn pixels_become_little_endian_bytes() {
    let bytes = pixels_to_le_bytes(&vec![0x0403_0201u32, 0xFFEE_DDCC]);
    assert_eq!(bytes, vec![1, 2, 3, 4, 0xCC, 0xDD, 0xEE, 0xFF]);
    assert_eq!(pixels_to_le_bytes(&Vec::new()), Vec::<u8>::new());
}

#[test]
fn texture_bytes_roundtrip() {
    let data: Vec<u8> = (0u8..20).collect();
    let texels = texture_from_rgba(&data);
    assert_eq!(pixels_to_le_bytes(&texels), data);
    let odd: Vec<u8> = (0u8..23).collect();
    assert_eq!(pixels_to_le_bytes(&texture_from_rgba(&odd)), odd[0..20].to_vec());
}

#[test]
fn frame_buffer_is_filled_with_background() {
    let r = Renderer::new(2, 1);
    assert_eq!(r.get_frame_buffer(), vec![0x00, 0x00, 0xFF, 0xFF, 0x00, 0x00, 0xFF, 0xFF]);
    let big = Renderer::new(30, 20);
    let bytes = big.get_frame_buffer();
    assert_eq!(bytes.len(), 30 * 20 * 4);
    assert_eq!(bytes[4 * 599..], BACKGROUND_PIXEL.to_le_bytes());
    assert_eq!(Renderer::new(0, 5).get_frame_buffer(), Vec::<u8>::new());
}

#[test]
fn keys_map_to_actions() {
    assert_eq!(key_action("ArrowUp"), KeyAction::Forward);
    assert_eq!(key_action("z"), KeyAction::Forward);
    assert_eq!(key_action("ArrowDown"), KeyAction::Backward);
    assert_eq!(key_action("s"), KeyAction::Backward);
    assert_eq!(key_action("ArrowLeft"), KeyAction::TurnLeft);
    assert_eq!(key_action("q"), KeyAction::TurnLeft);
    assert_eq!(key_action("ArrowRight"), KeyAction::TurnRight);
    assert_eq!(key_action("d"), KeyAction::TurnRight);
    assert_eq!(key_action("Z"), KeyAction::Ignored);
    assert_eq!(key_action("w"), KeyAction::Ignored);
    assert_eq!(key_action(""), KeyAction::Ignored);
    assert_eq!(key_action("ArrowUp "), KeyAction::Ignored);
}
