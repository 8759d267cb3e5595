//! The monochrome framebuffer: a 64x32 grid of binary pixels, the
//! clear-screen operation, and the XOR sprite blit with collision
//! detection that the draw instruction drives.

use vstd::prelude::*;

verus! {

use crate::cpu::state_wf;

pub const BLACK: u8 = 0;

pub const WHITE: u8 = 1;

pub const LENGTH_WIDTH: u16 = 64;

pub const LENGTH_HEIGHT: u16 = 32;

pub struct Position {
    pub x: u16,
    pub y: u16,
}

pub struct Pixel {
    pub position: Position,
    pub color: u8,
}

/// The framebuffer as a mathematical value: the sequence of pixel colors
/// in row-major order, black pixels as 0.
pub open spec fn colors(ps: Seq<Pixel>) -> Seq<u8> {
    ps.map_values(|p: Pixel| p.color)
}

/// The pixel list forms the full 64x32 grid in row-major order: the pixel
/// at index k sits at column k % 64 of row k / 64.
pub open spec fn grid_wf(ps: Seq<Pixel>) -> bool {
    &&& ps.len() == 2048
    &&& forall|k: int|
        0 <= k < 2048 ==> (#[trigger] ps[k]).position.x == k % 64 && ps[k].position.y == k / 64
}

/// The positions of all pixels agree between two framebuffers; drawing
/// only ever changes colors.
pub open spec fn same_positions(a: Seq<Pixel>, b: Seq<Pixel>) -> bool {
    &&& a.len() == b.len()
    &&& forall|k: int|
        0 <= k < a.len() ==> (#[trigger] b[k]).position.x == a[k].position.x
            && b[k].position.y == a[k].position.y
}

/// A 1-bit flips its target pixel: off becomes on, on becomes off.
pub open spec fn toggled(c: u8) -> u8 {
    if c == 0 {
        1u8
    } else {
        0u8
    }
}

/// Blits bits j..8 of one sprite row byte onto row y, most significant
/// bit first, each 1-bit landing at column (ox + bit index) mod 64.
/// Returns the new colors and whether some 1-bit turned an on pixel off.
pub open spec fn draw_bits_from(fb: Seq<u8>, code: u8, ox: int, y: int, j: int) -> (Seq<u8>, bool)
    decreases 8 - j,
{
    if j < 0 || j >= 8 {
        (fb, false)
    } else if code & (1u8 << ((7 - j) as u8)) != 0 {
        let idx = y * 64 + (ox + j) % 64;
        let hit = fb[idx] != 0;
        let rest = draw_bits_from(fb.update(idx, toggled(fb[idx])), code, ox, y, j + 1);
        (rest.0, hit || rest.1)
    } else {
        draw_bits_from(fb, code, ox, y, j + 1)
    }
}

/// Blits sprite rows k..n, the row bytes read from memory at i + row
/// index, each row landing on screen row (oy + row index) mod 32.
pub open spec fn draw_rows_from(
    fb: Seq<u8>,
    mem: Seq<u8>,
    i: int,
    ox: int,
    oy: int,
    k: int,
    n: int,
) -> (Seq<u8>, bool)
    decreases n - k,
{
    if k < 0 || k >= n {
        (fb, false)
    } else {
        let row = draw_bits_from(fb, mem[i + k], ox, (oy + k) % 32, 0);
        let rest = draw_rows_from(row.0, mem, i, ox, oy, k + 1, n);
        (rest.0, row.1 || rest.1)
    }
}

/// The whole sprite blit: n rows read from memory at i, drawn with their
/// top-left corner at (ox mod 64, oy mod 32), coordinates wrapping.
pub open spec fn draw_sprite_spec(
    fb: Seq<u8>,
    mem: Seq<u8>,
    i: int,
    ox: int,
    oy: int,
    n: int,
) -> (Seq<u8>, bool) {
    draw_rows_from(fb, mem, i, ox, oy, 0, n)
}

/// Law: drawing coordinates wrap toroidally. A one-row sprite whose
/// byte has only its highest bit set toggles exactly the pixel at
/// column ox mod 64 of row oy mod 32 and touches nothing else: an
/// origin on the right edge lands on the edge, an origin one past it
/// wraps back to column 0; collision is reported exactly when that
/// pixel was already on.
pub proof fn lemma_draw_wraps(fb: Seq<u8>, mem: Seq<u8>, i: int, ox: int, oy: int)
    requires
        fb.len() == 2048,
        0 <= i < mem.len(),
        mem[i] == 0x80,
        0 <= ox,
        0 <= oy,
    ensures
        draw_sprite_spec(fb, mem, i, ox, oy, 1).0 == fb.update((oy % 32) * 64 + (ox % 64),
            toggled(fb[(oy % 32) * 64 + (ox % 64)])),
        draw_sprite_spec(fb, mem, i, ox, oy, 1).1 == (fb[(oy % 32) * 64 + (ox % 64)] != 0),
{
    assert(0x80u8 & (1u8 << 7) != 0) by (bit_vector);
    assert(forall|sh: u8| sh < 7 ==> 0x80u8 & (1u8 << sh) == 0) by (bit_vector);
    let y = (oy + 0) % 32;
    let x = (ox + 0) % 64;
    let idx = y * 64 + x;
    let flipped = fb.update(idx, toggled(fb[idx]));
    assert(draw_bits_from(flipped, 0x80, ox, y, 8) == (flipped, false));
    assert(draw_bits_from(flipped, 0x80, ox, y, 7) == (flipped, false));
    assert(draw_bits_from(flipped, 0x80, ox, y, 6) == (flipped, false));
    assert(draw_bits_from(flipped, 0x80, ox, y, 5) == (flipped, false));
    assert(draw_bits_from(flipped, 0x80, ox, y, 4) == (flipped, false));
    assert(draw_bits_from(flipped, 0x80, ox, y, 3) == (flipped, false));
    assert(draw_bits_from(flipped, 0x80, ox, y, 2) == (flipped, false));
    assert(draw_bits_from(flipped, 0x80, ox, y, 1) == (flipped, false));
    assert(draw_bits_from(fb, 0x80, ox, y, 0) == (flipped, fb[idx] != 0));
    assert(draw_rows_from(flipped, mem, i, ox, oy, 1, 1) == (flipped, false));
    assert(draw_rows_from(fb, mem, i, ox, oy, 0, 1) == (flipped, fb[idx] != 0));
}

impl Pixel {
    pub fn new(x: u16, y: u16, color: u8) -> (p: Pixel)
        ensures
            p.position.x == x,
            p.position.y == y,
            p.color == color,
    {
        Pixel { position: Position { x, y }, color }
    }

    /// The startup framebuffer: the full grid with every pixel off.
    pub fn init() -> (pixels: Vec<Pixel>)
        ensures
            grid_wf(pixels@),
            forall|k: int| 0 <= k < 2048 ==> (#[trigger] pixels@[k]).color == 0,
    {
        let mut pixels: Vec<Pixel> = Vec::new();
        let mut i: u16 = 0;
        while i < LENGTH_HEIGHT
            invariant
                0 <= i <= 32,
                pixels@.len() == i * 64,
                forall|k: int|
                    0 <= k < pixels@.len() ==> (#[trigger] pixels@[k]).position.x == k % 64
                        && pixels@[k].position.y == k / 64 && pixels@[k].color == 0,
            decreases 32 - i,
        {
            let mut j: u16 = 0;
            while j < LENGTH_WIDTH
                invariant
                    0 <= i < 32,
                    0 <= j <= 64,
                    pixels@.len() == i * 64 + j,
                    forall|k: int|
                        0 <= k < pixels@.len() ==> (#[trigger] pixels@[k]).position.x == k % 64
                            && pixels@[k].position.y == k / 64 && pixels@[k].color == 0,
                decreases 64 - j,
            {
                let pixel = Pixel::new(j, i, BLACK);
                pixels.push(pixel);
                proof {
                    let last = pixels@.len() - 1;
                    assert(last % 64 == j && last / 64 == i) by (nonlinear_arith)
                        requires
                            last == i * 64 + j,
                            0 <= i < 32,
                            0 <= j < 64,
                    ;
                }
                j = j + 1;
            }
            i = i + 1;
        }
        pixels
    }

    /// The draw instruction's blit: `b1` sprite rows read from memory at
    /// the index register, drawn with origin (V[b3], V[b2]), coordinates
    /// wrapping; V[F] reports whether any pixel was turned off.
    pub fn draw_screen(cpu: &mut crate::cpu::CPU, pixels: &mut Vec<Pixel>, b1: u16, b2: u16, b3: u16)
        requires
            old(cpu).wf(),
            old(pixels)@.len() == 2048,
            b1 < 16,
            b2 < 16,
            b3 < 16,
            old(cpu).i + b1 <= 4096,
        ensures
            final(cpu).wf(),
            same_positions(old(pixels)@, final(pixels)@),
            colors(final(pixels)@) == draw_sprite_spec(colors(old(pixels)@), old(cpu)@.memory,
                old(cpu)@.i as int, old(cpu)@.v[b3 as int] as int, old(cpu)@.v[b2 as int] as int,
                b1 as int).0,
            final(cpu)@ == (crate::cpu::CpuState {
                v: old(cpu)@.v.update(15, if draw_sprite_spec(colors(old(pixels)@),
                    old(cpu)@.memory, old(cpu)@.i as int, old(cpu)@.v[b3 as int] as int,
                    old(cpu)@.v[b2 as int] as int, b1 as int).1 {
                    1u8
                } else {
                    0u8
                }),
                ..old(cpu)@
            }),
    {
        let ox = cpu.v[b3 as usize];
        let oy = cpu.v[b2 as usize];
        let ghost s0 = cpu@;
        let ghost ps0 = pixels@;
        let ghost fb0 = colors(pixels@);
        let ghost full = draw_rows_from(fb0, s0.memory, s0.i as int, ox as int, oy as int, 0,
            b1 as int);
        let mut collided = false;
        let mut k: u16 = 0;
        while k < b1
            invariant
                state_wf(s0),
                cpu@ == s0,
                b1 < 16,
                s0.i + b1 <= 4096,
                0 <= k <= b1,
                pixels@.len() == 2048,
                same_positions(ps0, pixels@),
                ps0.len() == 2048,
                full == draw_rows_from(fb0, s0.memory, s0.i as int, ox as int, oy as int, 0,
                    b1 as int),
                ({
                    let rest = draw_rows_from(colors(pixels@), s0.memory, s0.i as int, ox as int,
                        oy as int, k as int, b1 as int);
                    full == (rest.0, collided || rest.1)
                }),
            decreases b1 - k,
        {
            let code = cpu.memory[(cpu.i + k) as usize];
            let y = (oy as u16 + k) % 32;
            let ghost fbrow = colors(pixels@);
            let ghost collrow = collided;
            proof {
                assert(draw_rows_from(fbrow, s0.memory, s0.i as int, ox as int, oy as int,
                    k as int, b1 as int) == ({
                    let row = draw_bits_from(fbrow, s0.memory[s0.i + k], ox as int,
                        (oy + k) % 32, 0);
                    let rest = draw_rows_from(row.0, s0.memory, s0.i as int, ox as int, oy as int,
                        k + 1, b1 as int);
                    (rest.0, row.1 || rest.1)
                }));
            }
            let mut j: u16 = 0;
            while j < 8
                invariant
                    state_wf(s0),
                    cpu@ == s0,
                    b1 < 16,
                    s0.i + b1 <= 4096,
                    0 <= k < b1,
                    0 <= j <= 8,
                    pixels@.len() == 2048,
                    same_positions(ps0, pixels@),
                    ps0.len() == 2048,
                    code == s0.memory[s0.i + k],
                    y == (oy + k) % 32,
                    full == draw_rows_from(fb0, s0.memory, s0.i as int, ox as int, oy as int, 0,
                        b1 as int),
                    ({
                        let bits = draw_bits_from(colors(pixels@), code, ox as int, y as int,
                            j as int);
                        let rest = draw_rows_from(bits.0, s0.memory, s0.i as int, ox as int,
                            oy as int, k + 1, b1 as int);
                        full == (rest.0, collided || bits.1 || rest.1)
                    }),
                decreases 8 - j,
            {
                let x = (ox as u16 + j) % 64;
                let shift: u8 = (7 - j) as u8;
                let ghost fbcur = colors(pixels@);
                proof {
                    assert(y * 64 + x < 2048);
                }
                if code & (1u8 << shift) != 0 {
                    let idx = (y * 64 + x) as usize;
                    if pixels[idx].color == BLACK {
                        pixels[idx].color = WHITE;
                    } else {
                        collided = true;
                        pixels[idx].color = BLACK;
                    }
                    proof {
                        assert(colors(pixels@) =~= fbcur.update(idx as int, toggled(fbcur[idx as int])));
                    }
                } else {
                }
                proof {
                    assert(draw_bits_from(fbcur, code, ox as int, y as int, j as int) == ({
                        if code & (1u8 << ((7 - j as int) as u8)) != 0 {
                            let idx = y * 64 + (ox + j) % 64;
                            let hit = fbcur[idx] != 0;
                            let rest = draw_bits_from(fbcur.update(idx, toggled(fbcur[idx])), code,
                                ox as int, y as int, j + 1);
                            (rest.0, hit || rest.1)
                        } else {
                            draw_bits_from(fbcur, code, ox as int, y as int, j + 1)
                        }
                    }));
                }
                j = j + 1;
            }
            k = k + 1;
        }
        cpu.v[15] = if collided {
            1
        } else {
            0
        };
        proof {
            assert(cpu@ =~= (crate::cpu::CpuState {
                v: old(cpu)@.v.update(15, if full.1 {
                    1u8
                } else {
                    0u8
                }),
                ..old(cpu)@
            }));
        }
    }

    /// The rendered color of one cell of the upscaled 512x256 display
    /// buffer: each framebuffer pixel covers an 8x8 block, black pixels
    /// render as 0 and lit pixels as white.
    pub open spec fn rendered_cell(ps: Seq<Pixel>, b: int) -> u32 {
        if ps[((b / 512) / 8) * 64 + (b % 512) / 8].color == 0 {
            0u32
        } else {
            0xFFFFFFu32
        }
    }

    /// Expands the framebuffer into the display buffer handed to the
    /// window: 8x8 blocks of 0 or white, row-major at 512 cells per row.
    pub fn render_buffer(pixels: &Vec<Pixel>) -> (buffer: Vec<u32>)
        requires
            pixels@.len() == 2048,
        ensures
            buffer@.len() == 131072,
            forall|b: int| 0 <= b < 131072 ==> buffer@[b] == Self::rendered_cell(pixels@, b),
    {
        let mut buffer: Vec<u32> = Vec::new();
        let mut b: usize = 0;
        while b < 131072
            invariant
                pixels@.len() == 2048,
                0 <= b <= 131072,
                buffer@.len() == b,
                forall|c: int| 0 <= c < b ==> buffer@[c] == Self::rendered_cell(pixels@, c),
            decreases 131072 - b,
        {
            let row = b / 512;
            let col = b % 512;
            let cell = (row / 8) * 64 + col / 8;
            let color: u32 = if pixels[cell].color == BLACK {
                0
            } else {
                0xFFFFFF
            };
            buffer.push(color);
            b = b + 1;
        }
        buffer
    }

    /// Every pixel goes off; positions are untouched.
    pub fn clear_screen(pixels: &mut Vec<Pixel>)
        ensures
            same_positions(old(pixels)@, final(pixels)@),
            forall|k: int|
                0 <= k < final(pixels)@.len() ==> (#[trigger] final(pixels)@[k]).color == 0,
    {
        let ghost ps0 = pixels@;
        let mut idx: usize = 0;
        while idx < pixels.len()
            invariant
                0 <= idx <= pixels@.len(),
                same_positions(ps0, pixels@),
                forall|k: int| 0 <= k < idx ==> (#[trigger] pixels@[k]).color == 0,
            decreases pixels@.len() - idx,
        {
            pixels[idx].color = BLACK;
            idx = idx + 1;
        }
    }
}

} // verus!
