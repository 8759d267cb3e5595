//! The framebuffer: the grid layout, clear-screen, the XOR sprite blit
//! with collision detection and coordinate wrap, and the upscaled
//! display buffer.

use chip8::cpu::CPU;
use chip8::pixel::Pixel;

fn blank() -> (CPU, Vec<Pixel>) {
    (CPU::new(), Pixel::init())
}

fn color_at(pixels: &[Pixel], x: usize, y: usize) -> u8 {
    pixels[y * 64 + x].color
}

#[test]
fn init_builds_the_full_grid_of_off_pixels() {
    let pixels = Pixel::init();
    assert_eq!(pixels.len(), 2048);
    for (k, p) in pixels.iter().enumerate() {
        assert_eq!(p.position.x as usize, k % 64);
        assert_eq!(p.position.y as usize, k / 64);
        assert_eq!(p.color, 0);
    }
}

#[test]
fn pixel_new_keeps_its_fields() {
    let p = Pixel::new(3, 7, 1);
    assert_eq!(p.position.x, 3);
    assert_eq!(p.position.y, 7);
    assert_eq!(p.color, 1);
}

#[test]
fn clear_screen_direct_call_turns_every_pixel_off() {
    let mut pixels = Pixel::init();
    pixels[0].color = 1;
    pixels[2047].color = 1;
    Pixel::clear_screen(&mut pixels);
    for p in pixels.iter() {
        assert_eq!(p.color, 0);
    }
}

#[test]
fn clear_screen_turns_every_pixel_off() {
    let (mut cpu, mut pixels) = blank();
    // light some pixels with a draw, then clear through the instruction
    cpu.memory[0x300] = 0xFF;
    cpu.i = 0x300;
    cpu.execute_opcode(0xD011, &mut pixels);
    assert!(pixels.iter().any(|p| p.color != 0));
    cpu.execute_opcode(0x00E0, &mut pixels);
    for p in pixels.iter() {
        assert_eq!(p.color, 0);
    }
}

#[test]
fn drawing_a_row_twice_toggles_it_back_and_reports_collision() {
    let (mut cpu, mut pixels) = blank();
    cpu.memory[0x300] = 0xFF;
    cpu.i = 0x300;
    // all-ones 8x1 sprite at (0, 0) on a blank framebuffer
    cpu.execute_opcode(0xD011, &mut pixels);
    for x in 0..8 {
        assert_eq!(color_at(&pixels, x, 0), 1);
    }
    assert_eq!(color_at(&pixels, 8, 0), 0);
    assert_eq!(cpu.v[0xF], 0);
    // the identical draw again: all eight pixels toggle off, collision
    cpu.execute_opcode(0xD011, &mut pixels);
    for x in 0..8 {
        assert_eq!(color_at(&pixels, x, 0), 0);
    }
    assert_eq!(cpu.v[0xF], 1);
}

#[test]
fn draw_at_right_edge_hits_the_edge_column() {
    let (mut cpu, mut pixels) = blank();
    cpu.memory[0x300] = 0x80;
    cpu.i = 0x300;
    cpu.v[0] = 63;
    cpu.v[1] = 5;
    cpu.execute_opcode(0xD011, &mut pixels);
    assert_eq!(color_at(&pixels, 63, 5), 1);
    assert_eq!(cpu.v[0xF], 0);
    // only that one pixel is lit
    let lit: usize = pixels.iter().filter(|p| p.color != 0).count();
    assert_eq!(lit, 1);
}

#[test]
fn draw_one_past_right_edge_wraps_to_column_zero() {
    let (mut cpu, mut pixels) = blank();
    cpu.memory[0x300] = 0x80;
    cpu.i = 0x300;
    cpu.v[0] = 64;
    cpu.v[1] = 5;
    cpu.execute_opcode(0xD011, &mut pixels);
    assert_eq!(color_at(&pixels, 0, 5), 1);
    let lit: usize = pixels.iter().filter(|p| p.color != 0).count();
    assert_eq!(lit, 1);
}

#[test]
fn draw_below_bottom_edge_wraps_to_row_zero() {
    let (mut cpu, mut pixels) = blank();
    cpu.memory[0x300] = 0x80;
    cpu.i = 0x300;
    cpu.v[0] = 3;
    cpu.v[1] = 32;
    cpu.execute_opcode(0xD011, &mut pixels);
    assert_eq!(color_at(&pixels, 3, 0), 1);
}

#[test]
fn multi_row_sprite_lands_on_consecutive_rows() {
    let (mut cpu, mut pixels) = blank();
    cpu.memory[0x300] = 0x80;
    cpu.memory[0x301] = 0x40;
    cpu.i = 0x300;
    cpu.v[0] = 0;
    cpu.v[1] = 0;
    cpu.execute_opcode(0xD012, &mut pixels);
    assert_eq!(color_at(&pixels, 0, 0), 1);
    assert_eq!(color_at(&pixels, 1, 1), 1);
    let lit: usize = pixels.iter().filter(|p| p.color != 0).count();
    assert_eq!(lit, 2);
}

#[test]
fn partial_overlap_collides_but_keeps_fresh_pixels() {
    let (mut cpu, mut pixels) = blank();
    cpu.memory[0x300] = 0xC0; // two leftmost pixels
    cpu.i = 0x300;
    cpu.execute_opcode(0xD011, &mut pixels);
    assert_eq!(cpu.v[0xF], 0);
    // shift one column right: overlaps at x = 1, lights x = 2
    cpu.v[0] = 1;
    cpu.execute_opcode(0xD011, &mut pixels);
    assert_eq!(cpu.v[0xF], 1);
    assert_eq!(color_at(&pixels, 0, 0), 1);
    assert_eq!(color_at(&pixels, 1, 0), 0);
    assert_eq!(color_at(&pixels, 2, 0), 1);
}

#[test]
fn render_buffer_expands_each_pixel_to_an_8x8_block() {
    let mut pixels = Pixel::init();
    pixels[1 * 64 + 2].color = 1; // pixel at column 2 of row 1
    let buffer = Pixel::render_buffer(&pixels);
    assert_eq!(buffer.len(), 512 * 256);
    // every cell of the 8x8 block of that pixel is white
    for di in 0..8 {
        for dj in 0..8 {
            assert_eq!(buffer[(1 * 8 + di) * 512 + 2 * 8 + dj], 0xFFFFFF);
        }
    }
    // a neighboring block stays dark
    assert_eq!(buffer[(1 * 8) * 512 + 3 * 8], 0);
    assert_eq!(buffer[0], 0);
}
