//! The software renderer: an RGBA frame of `w` x `h` pixels, four bytes per
//! pixel, row after row, drawn into with opaque and blended rectangles.
use vstd::prelude::*;
use vstd::arithmetic::div_mod::lemma_fundamental_div_mod;
use vstd::arithmetic::div_mod::lemma_fundamental_div_mod_converse;
use vstd::arithmetic::div_mod::lemma_mod_pos_bound;
use vstd::arithmetic::div_mod::lemma_div_pos_is_pos;
use vstd::arithmetic::div_mod::lemma_div_is_ordered;
use crate::client::HudState;
use crate::item::{Inventory, ItemId, count_in};
use crate::skills::{WoodcuttingSkill, xp_threshold};
use crate::world::{WorldMap, WorldObject, ObjectKind, TileType, MAP_W, MAP_H, TILE_SIZE, tile_color};

verus! {

/// The size of the screen that drawing is clipped to.
pub struct ScreenSize {
    pub w: usize,
    pub h: usize,
}

impl ScreenSize {
    /// The size before any is set: 800 x 600.
    pub fn new() -> (r: ScreenSize)
        ensures
            r.w == 800 && r.h == 600,
    {
        ScreenSize { w: 800, h: 600 }
    }

    /// A frame of `len` bytes holds every pixel of this screen, and the
    /// screen's sides fit in an `i32`.
    pub open spec fn fits(&self, len: int) -> bool {
        &&& self.w <= i32::MAX
        &&& self.h <= i32::MAX
        &&& self.w * self.h * 4 <= len
    }
}

/// Sets the size of the screen that drawing is clipped to.
pub fn set_screen_size(screen: &mut ScreenSize, w: usize, h: usize)
    ensures
        final(screen).w == w,
        final(screen).h == h,
{
    screen.w = w;
    screen.h = h;
}

/// Byte `c` of a pixel of colour `col`: red, green, blue, then opaque alpha.
pub open spec fn chan(col: (u8, u8, u8), c: int) -> u8 {
    if c == 0 {
        col.0
    } else if c == 1 {
        col.1
    } else if c == 2 {
        col.2
    } else {
        255
    }
}

/// Column of the pixel that byte `k` belongs to, on a screen `sw` wide.
pub open spec fn pixel_x(k: int, sw: int) -> int {
    (k / 4) % sw
}

/// Row of the pixel that byte `k` belongs to, on a screen `sw` wide.
pub open spec fn pixel_y(k: int, sw: int) -> int {
    (k / 4) / sw
}

/// Pixel `(px, py)` is on the `sw` x `sh` screen and in the rectangle of
/// size `w` x `h` whose top-left corner is `(x, y)`.
pub open spec fn in_clip_rect(sw: int, sh: int, x: int, y: int, w: int, h: int, px: int, py: int) -> bool {
    &&& 0 <= px < sw
    &&& 0 <= py < sh
    &&& x <= px < x + w
    &&& y <= py < y + h
}

/// The frame `s` with the on-screen part of a rectangle painted in `col`.
pub open spec fn filled(
    s: Seq<u8>,
    sw: int,
    sh: int,
    x: int,
    y: int,
    w: int,
    h: int,
    col: (u8, u8, u8),
) -> Seq<u8> {
    Seq::new(
        s.len(),
        |k: int|
            if 0 <= k < sw * sh * 4 && in_clip_rect(sw, sh, x, y, w, h, pixel_x(k, sw), pixel_y(k, sw)) {
                chan(col, k % 4)
            } else {
                s[k]
            },
    )
}

/// The frame `s` with every whole pixel painted in `col`.
pub open spec fn cleared(s: Seq<u8>, col: (u8, u8, u8)) -> Seq<u8> {
    Seq::new(s.len(), |k: int| if k < (s.len() / 4) * 4 { chan(col, k % 4) } else { s[k] })
}

proof fn lemma_encode(sw: int, px: int, py: int, c: int)
    requires
        sw > 0,
        0 <= px < sw,
        0 <= py,
        0 <= c < 4,
    ensures
        ((py * sw + px) * 4 + c) / 4 == py * sw + px,
        ((py * sw + px) * 4 + c) % 4 == c,
        pixel_x((py * sw + px) * 4 + c, sw) == px,
        pixel_y((py * sw + px) * 4 + c, sw) == py,
{
    let k = (py * sw + px) * 4 + c;
    lemma_fundamental_div_mod_converse(k, 4, py * sw + px, c);
    lemma_fundamental_div_mod_converse(py * sw + px, sw, py, px);
}

proof fn lemma_decode(sw: int, k: int)
    requires
        sw > 0,
        k >= 0,
    ensures
        0 <= pixel_x(k, sw) < sw,
        0 <= pixel_y(k, sw),
        0 <= k % 4 < 4,
        k == (pixel_y(k, sw) * sw + pixel_x(k, sw)) * 4 + k % 4,
{
    lemma_fundamental_div_mod(k, 4);
    lemma_mod_pos_bound(k, 4);
    lemma_div_pos_is_pos(k, 4);
    lemma_fundamental_div_mod(k / 4, sw);
    lemma_mod_pos_bound(k / 4, sw);
    lemma_div_pos_is_pos(k / 4, sw);
    assert(k / 4 == sw * (k / 4 / sw) + (k / 4) % sw);
    assert(sw * (k / 4 / sw) == (k / 4 / sw) * sw) by (nonlinear_arith);
}

/// Byte `k` lies in the frame of an `sw` x `sh` screen exactly when its
/// pixel's row is on screen.
proof fn lemma_in_frame(sw: int, sh: int, k: int)
    requires
        sw > 0,
        sh >= 0,
        k >= 0,
    ensures
        k < sw * sh * 4 <==> pixel_y(k, sw) < sh,
{
    lemma_decode(sw, k);
    let px = pixel_x(k, sw);
    let py = pixel_y(k, sw);
    if py < sh {
        assert((py * sw + px) * 4 + k % 4 < sw * sh * 4) by (nonlinear_arith)
            requires
                0 <= px < sw,
                0 <= py < sh,
                0 <= k % 4 < 4,
        ;
    } else {
        assert((py * sw + px) * 4 + k % 4 >= sw * sh * 4) by (nonlinear_arith)
            requires
                0 <= px < sw,
                py >= sh,
                0 <= k % 4,
                sw > 0,
        ;
    }
}

proof fn lemma_pixel_offset_bound(sw: int, sh: int, px: int, py: int)
    requires
        0 <= px < sw,
        0 <= py < sh,
    ensures
        0 <= (py * sw + px) * 4,
        (py * sw + px) * 4 + 4 <= sw * sh * 4,
{
    assert((py * sw + px) * 4 + 4 <= sw * sh * 4) by (nonlinear_arith)
        requires
            0 <= px < sw,
            0 <= py < sh,
    ;
    assert(0 <= py * sw) by (nonlinear_arith)
        requires
            0 <= px < sw,
            0 <= py,
    ;
}

/// Paints the on-screen part of the `w` x `h` rectangle at `(x, y)`.
pub fn fill_rect(
    pixels: &mut [u8],
    screen: &ScreenSize,
    x: i32,
    y: i32,
    w: i32,
    h: i32,
    r: u8,
    g: u8,
    b: u8,
)
    requires
        screen.fits(old(pixels)@.len() as int),
        i32::MIN <= x + w <= i32::MAX,
        i32::MIN <= y + h <= i32::MAX,
    ensures
        final(pixels)@.len() == old(pixels)@.len(),
        final(pixels)@ == filled(
            old(pixels)@,
            screen.w as int,
            screen.h as int,
            x as int,
            y as int,
            w as int,
            h as int,
            (r, g, b),
        ),
{
    let stride = screen.w;
    let x0 = if x > 0 {
        x as usize
    } else {
        0
    };
    let y0 = if y > 0 {
        y as usize
    } else {
        0
    };
    let xe = x + w;
    let ye = y + h;
    let x1 = if xe <= 0 {
        0
    } else if xe as usize > stride {
        stride
    } else {
        xe as usize
    };
    let y1 = if ye <= 0 {
        0
    } else if ye as usize > screen.h {
        screen.h
    } else {
        ye as usize
    };
    let n = pixels.len();
    let ghost s0 = pixels@;
    let ghost sw = screen.w as int;
    let ghost sh = screen.h as int;
    let ghost col = (r, g, b);
    if x0 >= x1 || y0 >= y1 {
        proof {
            assert(pixels@ =~= filled(s0, sw, sh, x as int, y as int, w as int, h as int, col)) by {
                assert forall|k: int| 0 <= k < s0.len() implies pixels@[k] == filled(
                    s0,
                    sw,
                    sh,
                    x as int,
                    y as int,
                    w as int,
                    h as int,
                    col,
                )[k] by {
                    if 0 <= k < sw * sh * 4 {
                        lemma_decode(sw, k);
                    }
                }
            }
        }
        return;
    }
    let mut py: usize = y0;
    while py < y1
        invariant
            stride == sw,
            sw == screen.w,
            sh == screen.h,
            col == (r, g, b),
            n == s0.len(),
            screen.fits(s0.len() as int),
            0 < sw,
            x0 < x1 <= sw,
            y0 <= py <= y1 <= sh,
            x0 as int == (if x > 0 {
                x as int
            } else {
                0
            }),
            y0 as int == (if y > 0 {
                y as int
            } else {
                0
            }),
            x1 as int == (if x + w <= 0 {
                0
            } else if x + w > sw {
                sw
            } else {
                x + w
            }),
            y1 as int == (if y + h <= 0 {
                0
            } else if y + h > sh {
                sh
            } else {
                y + h
            }),
            pixels@.len() == s0.len(),
            forall|k: int|
                0 <= k < s0.len() ==> #[trigger] pixels@[k] == (if 0 <= k < sw * sh * 4 && x0 <= pixel_x(
                    k,
                    sw,
                ) < x1 && y0 <= pixel_y(k, sw) < py {
                    chan(col, k % 4)
                } else {
                    s0[k]
                }),
        decreases y1 - py,
    {
        let mut px: usize = x0;
        while px < x1
            invariant
                stride == sw,
                sw == screen.w,
                sh == screen.h,
                col == (r, g, b),
                n == s0.len(),
                screen.fits(s0.len() as int),
                0 < sw,
                x0 <= px <= x1 <= sw,
                y0 <= py < y1 <= sh,
                pixels@.len() == s0.len(),
                forall|k: int|
                    0 <= k < s0.len() ==> #[trigger] pixels@[k] == (if 0 <= k < sw * sh * 4 && ((x0
                        <= pixel_x(k, sw) < x1 && y0 <= pixel_y(k, sw) < py) || (x0 <= pixel_x(k, sw)
                        < px && pixel_y(k, sw) == py)) {
                        chan(col, k % 4)
                    } else {
                        s0[k]
                    }),
            decreases x1 - px,
        {
            proof {
                lemma_pixel_offset_bound(sw, sh, px as int, py as int);
                assert(0 <= py * sw);
                assert((py * sw + px) * 4 + 4 <= n);
                assert(py * stride + px <= n);
            }
            let base = (py * stride + px) * 4;
            let ghost before = pixels@;
            pixels[base] = r;
            pixels[base + 1] = g;
            pixels[base + 2] = b;
            pixels[base + 3] = 255;
            proof {
                assert forall|k: int| 0 <= k < s0.len() implies #[trigger] pixels@[k] == (if 0 <= k < sw
                    * sh * 4 && ((x0 <= pixel_x(k, sw) < x1 && y0 <= pixel_y(k, sw) < py) || (x0
                    <= pixel_x(k, sw) < px + 1 && pixel_y(k, sw) == py)) {
                    chan(col, k % 4)
                } else {
                    s0[k]
                }) by {
                    lemma_decode(sw, k);
                    lemma_in_frame(sw, sh, k);
                    if base <= k < base + 4 {
                        lemma_encode(sw, px as int, py as int, k - base);
                    } else {
                        assert(before[k] == pixels@[k]);
                        if pixel_x(k, sw) == px && pixel_y(k, sw) == py {
                            assert(false);
                        }
                    }
                }
            }
            px = px + 1;
        }
        py = py + 1;
    }
    proof {
        assert(pixels@ =~= filled(s0, sw, sh, x as int, y as int, w as int, h as int, col)) by {
            assert forall|k: int| 0 <= k < s0.len() implies pixels@[k] == filled(
                s0,
                sw,
                sh,
                x as int,
                y as int,
                w as int,
                h as int,
                col,
            )[k] by {
                if 0 <= k < sw * sh * 4 {
                    lemma_decode(sw, k);
                    lemma_in_frame(sw, sh, k);
                }
            }
        }
    }
}


/// Paints pixel `(x, y)` when it is on screen.
pub fn set_pixel(pixels: &mut [u8], screen: &ScreenSize, x: i32, y: i32, r: u8, g: u8, b: u8)
    requires
        screen.fits(old(pixels)@.len() as int),
    ensures
        final(pixels)@.len() == old(pixels)@.len(),
        final(pixels)@ == filled(
            old(pixels)@,
            screen.w as int,
            screen.h as int,
            x as int,
            y as int,
            1,
            1,
            (r, g, b),
        ),
{
    let ghost s0 = pixels@;
    let ghost sw = screen.w as int;
    let ghost sh = screen.h as int;
    let n = pixels.len();
    if x >= 0 && (x as usize) < screen.w && y >= 0 && (y as usize) < screen.h {
        proof {
            lemma_pixel_offset_bound(sw, sh, x as int, y as int);
            assert(0 <= y * sw);
            assert(y * sw + x <= n);
        }
        let base = ((y as usize) * screen.w + (x as usize)) * 4;
        pixels[base] = r;
        pixels[base + 1] = g;
        pixels[base + 2] = b;
        pixels[base + 3] = 255;
        proof {
            assert forall|k: int| 0 <= k < s0.len() implies #[trigger] pixels@[k] == filled(
                s0,
                sw,
                sh,
                x as int,
                y as int,
                1,
                1,
                (r, g, b),
            )[k] by {
                lemma_decode(sw, k);
                lemma_in_frame(sw, sh, k);
                if base <= k < base + 4 {
                    lemma_encode(sw, x as int, y as int, k - base);
                }
            }
            assert(pixels@ =~= filled(s0, sw, sh, x as int, y as int, 1, 1, (r, g, b)));
        }
    } else {
        proof {
            assert forall|k: int| 0 <= k < s0.len() implies #[trigger] pixels@[k] == filled(
                s0,
                sw,
                sh,
                x as int,
                y as int,
                1,
                1,
                (r, g, b),
            )[k] by {
                if 0 <= k < sw * sh * 4 {
                    lemma_decode(sw, k);
                    lemma_in_frame(sw, sh, k);
                }
            }
            assert(pixels@ =~= filled(s0, sw, sh, x as int, y as int, 1, 1, (r, g, b)));
        }
    }
}

/// Paints every whole pixel of the frame in one colour.
pub fn clear(pixels: &mut [u8], r: u8, g: u8, b: u8)
    ensures
        final(pixels)@.len() == old(pixels)@.len(),
        final(pixels)@ == cleared(old(pixels)@, (r, g, b)),
{
    let n = pixels.len();
    let count = n / 4;
    let ghost s0 = pixels@;
    let mut i: usize = 0;
    while i < count
        invariant
            n == s0.len(),
            count == n / 4,
            i <= count,
            pixels@.len() == n,
            forall|k: int|
                0 <= k < n ==> #[trigger] pixels@[k] == (if k < i * 4 {
                    chan((r, g, b), k % 4)
                } else {
                    s0[k]
                }),
        decreases count - i,
    {
        let base = i * 4;
        pixels[base] = r;
        pixels[base + 1] = g;
        pixels[base + 2] = b;
        pixels[base + 3] = 255;
        i = i + 1;
    }
    assert(pixels@ =~= cleared(s0, (r, g, b)));
}


/// One rectangle of a sprite: offset and size in sprite pixels, and colour.
pub type SpriteRect = (int, int, int, int, u8, u8, u8);

/// The frame `s` with the sprite rectangle `q` painted for a sprite whose
/// top-left corner is `(x, y)`, every sprite pixel being `z` x `z` screen
/// pixels.
pub open spec fn paint_rect(s: Seq<u8>, sw: int, sh: int, x: int, y: int, z: int, q: SpriteRect) -> Seq<u8> {
    filled(s, sw, sh, x + q.0 * z, y + q.1 * z, q.2 * z, q.3 * z, (q.4, q.5, q.6))
}

/// The frame `s` with the rectangles of a sprite painted one after the other.
pub open spec fn paint_rects(s: Seq<u8>, sw: int, sh: int, x: int, y: int, z: int, qs: Seq<SpriteRect>) -> Seq<u8>
    decreases qs.len(),
{
    if qs.len() == 0 {
        s
    } else {
        paint_rects(paint_rect(s, sw, sh, x, y, z, qs[0]), sw, sh, x, y, z, qs.drop_first())
    }
}

pub open spec fn tree_rects() -> Seq<SpriteRect> {
    seq![(6, 8, 4, 8, 100u8, 70u8, 35u8), (2, 2, 12, 3, 20u8, 100u8, 25u8), (1, -2, 14, 5, 25u8, 115u8, 30u8), (3, -5, 10, 4, 30u8, 130u8, 35u8), (4, -3, 3, 2, 45u8, 150u8, 50u8), (8, 0, 2, 2, 40u8, 140u8, 45u8)]
}

pub open spec fn stump_rects() -> Seq<SpriteRect> {
    seq![(5, 10, 6, 4, 90u8, 60u8, 30u8), (6, 9, 4, 2, 110u8, 75u8, 40u8), (7, 10, 1, 1, 70u8, 50u8, 25u8), (8, 11, 1, 1, 70u8, 50u8, 25u8)]
}

pub open spec fn rock_rects() -> Seq<SpriteRect> {
    seq![(3, 6, 10, 7, 130u8, 130u8, 135u8), (4, 4, 8, 3, 140u8, 140u8, 145u8), (5, 5, 3, 2, 160u8, 160u8, 168u8), (4, 12, 9, 2, 90u8, 90u8, 95u8)]
}

pub open spec fn rubble_rects() -> Seq<SpriteRect> {
    seq![(5, 11, 3, 2, 100u8, 100u8, 105u8), (9, 12, 2, 2, 90u8, 90u8, 95u8), (7, 12, 1, 1, 110u8, 110u8, 115u8)]
}

/// The hero: shadow, boots, legs, body, belt, arms, head and hair.
pub open spec fn hero_rects() -> Seq<SpriteRect> {
    seq![(2, 14, 12, 2, 15u8, 40u8, 15u8), (4, 12, 3, 3, 60u8, 40u8, 25u8), (9, 12, 3, 3, 60u8, 40u8, 25u8), (4, 10, 3, 3, 80u8, 65u8, 45u8), (9, 10, 3, 3, 80u8, 65u8, 45u8), (3, 5, 10, 6, 50u8, 100u8, 170u8), (3, 9, 10, 1, 100u8, 70u8, 30u8), (1, 5, 2, 5, 220u8, 180u8, 140u8), (13, 5, 2, 5, 220u8, 180u8, 140u8), (4, 1, 8, 5, 220u8, 180u8, 140u8), (3, 0, 10, 2, 80u8, 50u8, 20u8)]
}

/// The hero's eyes, drawn unless the hero faces away (facing 1).
pub open spec fn eye_rects() -> Seq<SpriteRect> {
    seq![(6, 3, 1, 1, 30u8, 30u8, 40u8), (9, 3, 1, 1, 30u8, 30u8, 40u8)]
}

pub open spec fn bar_chart_rects() -> Seq<SpriteRect> {
    seq![(3, 10, 4, 6, 60u8, 160u8, 60u8), (3, 10, 4, 1, 80u8, 200u8, 80u8), (8, 6, 4, 10, 60u8, 130u8, 180u8), (8, 6, 4, 1, 80u8, 160u8, 220u8), (13, 3, 4, 13, 180u8, 130u8, 50u8), (13, 3, 4, 1, 220u8, 160u8, 70u8), (2, 16, 17, 1, 100u8, 100u8, 110u8)]
}

pub open spec fn bag_rects() -> Seq<SpriteRect> {
    seq![(6, 2, 6, 2, 140u8, 100u8, 50u8), (5, 3, 2, 2, 140u8, 100u8, 50u8), (11, 3, 2, 2, 140u8, 100u8, 50u8), (4, 5, 10, 10, 120u8, 85u8, 40u8), (4, 5, 2, 10, 100u8, 70u8, 35u8), (12, 5, 2, 10, 100u8, 70u8, 35u8), (5, 14, 8, 1, 90u8, 60u8, 30u8), (6, 6, 3, 2, 150u8, 110u8, 55u8), (7, 9, 4, 3, 170u8, 150u8, 80u8), (8, 10, 2, 1, 120u8, 85u8, 40u8)]
}

pub open spec fn map_icon_rects() -> Seq<SpriteRect> {
    seq![(3, 3, 14, 14, 180u8, 160u8, 120u8), (3, 3, 14, 1, 200u8, 180u8, 140u8), (7, 4, 1, 12, 150u8, 130u8, 100u8), (12, 4, 1, 12, 150u8, 130u8, 100u8), (9, 8, 1, 1, 180u8, 40u8, 40u8), (10, 9, 1, 1, 180u8, 40u8, 40u8), (11, 8, 1, 1, 180u8, 40u8, 40u8), (10, 7, 1, 1, 180u8, 40u8, 40u8)]
}

/// A sprite at `(x, y)` drawn `z` times magnified (sprites reach at most 20
/// pixels right of and below their origin) stays inside the range of `i32`
/// coordinates.
pub open spec fn sprite_origin_ok(x: int, y: int, z: int) -> bool {
    &&& -0x4000_0000 <= x
    &&& -0x4000_0000 <= y
    &&& 0 <= z <= 0x1_0000
    &&& x + 20 * z <= i32::MAX
    &&& y + 20 * z <= i32::MAX
}

/// Paints the sprite rectangle at offset `(ox, oy)` of size `w` x `h`,
/// magnified `z` times, of a sprite at `(bx, by)`.
pub fn zr(
    pixels: &mut [u8],
    screen: &ScreenSize,
    bx: i32,
    by: i32,
    z: i32,
    ox: i32,
    oy: i32,
    w: i32,
    h: i32,
    r: u8,
    g: u8,
    b: u8,
)
    requires
        screen.fits(old(pixels)@.len() as int),
        -0x4000_0000 <= bx,
        -0x4000_0000 <= by,
        0 <= z <= 0x1_0000,
        -32 <= ox <= 32,
        -32 <= oy <= 32,
        0 <= w <= 32,
        0 <= h <= 32,
        bx + ox * z + w * z <= i32::MAX,
        by + oy * z + h * z <= i32::MAX,
    ensures
        final(pixels)@.len() == old(pixels)@.len(),
        final(pixels)@ == paint_rect(
            old(pixels)@,
            screen.w as int,
            screen.h as int,
            bx as int,
            by as int,
            z as int,
            (ox as int, oy as int, w as int, h as int, r, g, b),
        ),
{
    proof {
        assert(-0x20_0000 <= ox * z <= 0x20_0000) by (nonlinear_arith)
            requires
                -32 <= ox <= 32,
                0 <= z <= 0x1_0000,
        ;
        assert(-0x20_0000 <= oy * z <= 0x20_0000) by (nonlinear_arith)
            requires
                -32 <= oy <= 32,
                0 <= z <= 0x1_0000,
        ;
        assert(0 <= w * z <= 0x20_0000) by (nonlinear_arith)
            requires
                0 <= w <= 32,
                0 <= z <= 0x1_0000,
        ;
        assert(0 <= h * z <= 0x20_0000) by (nonlinear_arith)
            requires
                0 <= h <= 32,
                0 <= z <= 0x1_0000,
        ;
    }
    fill_rect(pixels, screen, bx + ox * z, by + oy * z, w * z, h * z, r, g, b);
}

/// Paints the single sprite pixel at offset `(ox, oy)`, magnified `z` times.
pub fn zp(pixels: &mut [u8], screen: &ScreenSize, bx: i32, by: i32, z: i32, ox: i32, oy: i32, r: u8, g: u8, b: u8)
    requires
        screen.fits(old(pixels)@.len() as int),
        -0x4000_0000 <= bx,
        -0x4000_0000 <= by,
        0 <= z <= 0x1_0000,
        -32 <= ox <= 32,
        -32 <= oy <= 32,
        bx + ox * z + z <= i32::MAX,
        by + oy * z + z <= i32::MAX,
    ensures
        final(pixels)@.len() == old(pixels)@.len(),
        final(pixels)@ == paint_rect(
            old(pixels)@,
            screen.w as int,
            screen.h as int,
            bx as int,
            by as int,
            z as int,
            (ox as int, oy as int, 1, 1, r, g, b),
        ),
{
    zr(pixels, screen, bx, by, z, ox, oy, 1, 1, r, g, b);
}

/// A living tree, two tiles tall.
#[verifier::spinoff_prover]
pub fn draw_tree(pixels: &mut [u8], screen: &ScreenSize, x: i32, y: i32, z: i32)
    requires
        screen.fits(old(pixels)@.len() as int),
        sprite_origin_ok(x as int, y as int, z as int),
    ensures
        final(pixels)@.len() == old(pixels)@.len(),
        final(pixels)@ == paint_rects(
            old(pixels)@,
            screen.w as int,
            screen.h as int,
            x as int,
            y as int,
            z as int,
            tree_rects(),
        ),
{
    let ghost s0 = pixels@;
    assert(x + 6 * z + 4 * z <= i32::MAX);
    zr(pixels, screen, x, y, z, 6, 8, 4, 8, 100, 70, 35);
    zr(pixels, screen, x, y, z, 2, 2, 12, 3, 20, 100, 25);
    zr(pixels, screen, x, y, z, 1, -2, 14, 5, 25, 115, 30);
    zr(pixels, screen, x, y, z, 3, -5, 10, 4, 30, 130, 35);
    zr(pixels, screen, x, y, z, 4, -3, 3, 2, 45, 150, 50);
    zr(pixels, screen, x, y, z, 8, 0, 2, 2, 40, 140, 45);
    proof {
        reveal_with_fuel(paint_rects, 7);
    }
}

/// The stump left by a felled tree.
#[verifier::spinoff_prover]
pub fn draw_stump(pixels: &mut [u8], screen: &ScreenSize, x: i32, y: i32, z: i32)
    requires
        screen.fits(old(pixels)@.len() as int),
        sprite_origin_ok(x as int, y as int, z as int),
    ensures
        final(pixels)@.len() == old(pixels)@.len(),
        final(pixels)@ == paint_rects(
            old(pixels)@,
            screen.w as int,
            screen.h as int,
            x as int,
            y as int,
            z as int,
            stump_rects(),
        ),
{
    let ghost s0 = pixels@;
    assert(x + 5 * z + 6 * z <= i32::MAX && y + 10 * z + 4 * z <= i32::MAX);
    zr(pixels, screen, x, y, z, 5, 10, 6, 4, 90, 60, 30);
    zr(pixels, screen, x, y, z, 6, 9, 4, 2, 110, 75, 40);
    zp(pixels, screen, x, y, z, 7, 10, 70, 50, 25);
    zp(pixels, screen, x, y, z, 8, 11, 70, 50, 25);
    proof {
        reveal_with_fuel(paint_rects, 5);
    }
}

/// A rock.
#[verifier::spinoff_prover]
pub fn draw_rock(pixels: &mut [u8], screen: &ScreenSize, x: i32, y: i32, z: i32)
    requires
        screen.fits(old(pixels)@.len() as int),
        sprite_origin_ok(x as int, y as int, z as int),
    ensures
        final(pixels)@.len() == old(pixels)@.len(),
        final(pixels)@ == paint_rects(
            old(pixels)@,
            screen.w as int,
            screen.h as int,
            x as int,
            y as int,
            z as int,
            rock_rects(),
        ),
{
    let ghost s0 = pixels@;
    assert(x + 3 * z + 10 * z <= i32::MAX && y + 6 * z + 7 * z <= i32::MAX);
    zr(pixels, screen, x, y, z, 3, 6, 10, 7, 130, 130, 135);
    zr(pixels, screen, x, y, z, 4, 4, 8, 3, 140, 140, 145);
    zr(pixels, screen, x, y, z, 5, 5, 3, 2, 160, 160, 168);
    zr(pixels, screen, x, y, z, 4, 12, 9, 2, 90, 90, 95);
    proof {
        reveal_with_fuel(paint_rects, 5);
    }
}

/// The rubble left by a broken rock.
#[verifier::spinoff_prover]
pub fn draw_rock_rubble(pixels: &mut [u8], screen: &ScreenSize, x: i32, y: i32, z: i32)
    requires
        screen.fits(old(pixels)@.len() as int),
        sprite_origin_ok(x as int, y as int, z as int),
    ensures
        final(pixels)@.len() == old(pixels)@.len(),
        final(pixels)@ == paint_rects(
            old(pixels)@,
            screen.w as int,
            screen.h as int,
            x as int,
            y as int,
            z as int,
            rubble_rects(),
        ),
{
    let ghost s0 = pixels@;
    assert(x + 5 * z + 3 * z <= i32::MAX && y + 11 * z + 2 * z <= i32::MAX);
    zr(pixels, screen, x, y, z, 5, 11, 3, 2, 100, 100, 105);
    zr(pixels, screen, x, y, z, 9, 12, 2, 2, 90, 90, 95);
    zp(pixels, screen, x, y, z, 7, 12, 110, 110, 115);
    proof {
        reveal_with_fuel(paint_rects, 4);
    }
}


/// The hero sprite at `(sx, sy)`, magnified `z` times; the eyes show unless
/// the hero faces away (`facing == 1`).
#[verifier::spinoff_prover]
pub fn draw_hero_sprite_z(pixels: &mut [u8], screen: &ScreenSize, sx: i32, sy: i32, facing: u32, z: i32)
    requires
        screen.fits(old(pixels)@.len() as int),
        sprite_origin_ok(sx as int, sy as int, z as int),
    ensures
        final(pixels)@.len() == old(pixels)@.len(),
        final(pixels)@ == (if facing != 1 {
            paint_rects(
                paint_rects(old(pixels)@, screen.w as int, screen.h as int, sx as int, sy as int, z as int, hero_rects()),
                screen.w as int,
                screen.h as int,
                sx as int,
                sy as int,
                z as int,
                eye_rects(),
            )
        } else {
            paint_rects(old(pixels)@, screen.w as int, screen.h as int, sx as int, sy as int, z as int, hero_rects())
        }),
{
    let ghost s0 = pixels@;
    assert(sx + 2 * z + 12 * z <= i32::MAX && sy + 14 * z + 2 * z <= i32::MAX);
    zr(pixels, screen, sx, sy, z, 2, 14, 12, 2, 15, 40, 15);
    zr(pixels, screen, sx, sy, z, 4, 12, 3, 3, 60, 40, 25);
    zr(pixels, screen, sx, sy, z, 9, 12, 3, 3, 60, 40, 25);
    zr(pixels, screen, sx, sy, z, 4, 10, 3, 3, 80, 65, 45);
    zr(pixels, screen, sx, sy, z, 9, 10, 3, 3, 80, 65, 45);
    zr(pixels, screen, sx, sy, z, 3, 5, 10, 6, 50, 100, 170);
    zr(pixels, screen, sx, sy, z, 3, 9, 10, 1, 100, 70, 30);
    zr(pixels, screen, sx, sy, z, 1, 5, 2, 5, 220, 180, 140);
    zr(pixels, screen, sx, sy, z, 13, 5, 2, 5, 220, 180, 140);
    zr(pixels, screen, sx, sy, z, 4, 1, 8, 5, 220, 180, 140);
    zr(pixels, screen, sx, sy, z, 3, 0, 10, 2, 80, 50, 20);
    let ghost s1 = pixels@;
    proof {
        reveal_with_fuel(paint_rects, 12);
        assert(s1 == paint_rects(s0, screen.w as int, screen.h as int, sx as int, sy as int, z as int, hero_rects()));
    }
    if facing != 1 {
        zp(pixels, screen, sx, sy, z, 6, 3, 30, 30, 40);
        zp(pixels, screen, sx, sy, z, 9, 3, 30, 30, 40);
        proof {
            reveal_with_fuel(paint_rects, 3);
        }
    }
}

/// The hero sprite at its natural size, as in the portrait.
pub fn draw_hero_sprite(pixels: &mut [u8], screen: &ScreenSize, sx: i32, sy: i32, facing: u32)
    requires
        screen.fits(old(pixels)@.len() as int),
        sprite_origin_ok(sx as int, sy as int, 1),
    ensures
        final(pixels)@.len() == old(pixels)@.len(),
        final(pixels)@ == (if facing != 1 {
            paint_rects(
                paint_rects(old(pixels)@, screen.w as int, screen.h as int, sx as int, sy as int, 1, hero_rects()),
                screen.w as int,
                screen.h as int,
                sx as int,
                sy as int,
                1,
                eye_rects(),
            )
        } else {
            paint_rects(old(pixels)@, screen.w as int, screen.h as int, sx as int, sy as int, 1, hero_rects())
        }),
{
    draw_hero_sprite_z(pixels, screen, sx, sy, facing, 1);
}

/// The skills button's icon: a small bar chart.
#[verifier::spinoff_prover]
pub fn draw_bar_chart_icon(pixels: &mut [u8], screen: &ScreenSize, x: i32, y: i32)
    requires
        screen.fits(old(pixels)@.len() as int),
        sprite_origin_ok(x as int, y as int, 1),
    ensures
        final(pixels)@.len() == old(pixels)@.len(),
        final(pixels)@ == paint_rects(old(pixels)@, screen.w as int, screen.h as int, x as int, y as int, 1, bar_chart_rects()),
{
    let ghost s0 = pixels@;
    fill_rect(pixels, screen, x + 3, y + 10, 4, 6, 60, 160, 60);
    fill_rect(pixels, screen, x + 3, y + 10, 4, 1, 80, 200, 80);
    fill_rect(pixels, screen, x + 8, y + 6, 4, 10, 60, 130, 180);
    fill_rect(pixels, screen, x + 8, y + 6, 4, 1, 80, 160, 220);
    fill_rect(pixels, screen, x + 13, y + 3, 4, 13, 180, 130, 50);
    fill_rect(pixels, screen, x + 13, y + 3, 4, 1, 220, 160, 70);
    fill_rect(pixels, screen, x + 2, y + 16, 17, 1, 100, 100, 110);
    proof {
        reveal_with_fuel(paint_rects, 8);
    }
}

/// The inventory button's icon: a bag.
#[verifier::spinoff_prover]
pub fn draw_bag_icon(pixels: &mut [u8], screen: &ScreenSize, x: i32, y: i32)
    requires
        screen.fits(old(pixels)@.len() as int),
        sprite_origin_ok(x as int, y as int, 1),
    ensures
        final(pixels)@.len() == old(pixels)@.len(),
        final(pixels)@ == paint_rects(old(pixels)@, screen.w as int, screen.h as int, x as int, y as int, 1, bag_rects()),
{
    let ghost s0 = pixels@;
    fill_rect(pixels, screen, x + 6, y + 2, 6, 2, 140, 100, 50);
    fill_rect(pixels, screen, x + 5, y + 3, 2, 2, 140, 100, 50);
    fill_rect(pixels, screen, x + 11, y + 3, 2, 2, 140, 100, 50);
    fill_rect(pixels, screen, x + 4, y + 5, 10, 10, 120, 85, 40);
    fill_rect(pixels, screen, x + 4, y + 5, 2, 10, 100, 70, 35);
    fill_rect(pixels, screen, x + 12, y + 5, 2, 10, 100, 70, 35);
    fill_rect(pixels, screen, x + 5, y + 14, 8, 1, 90, 60, 30);
    fill_rect(pixels, screen, x + 6, y + 6, 3, 2, 150, 110, 55);
    fill_rect(pixels, screen, x + 7, y + 9, 4, 3, 170, 150, 80);
    fill_rect(pixels, screen, x + 8, y + 10, 2, 1, 120, 85, 40);
    proof {
        reveal_with_fuel(paint_rects, 11);
    }
}

/// The map button's icon: a folded map marked with an X.
#[verifier::spinoff_prover]
pub fn draw_map_icon(pixels: &mut [u8], screen: &ScreenSize, x: i32, y: i32)
    requires
        screen.fits(old(pixels)@.len() as int),
        sprite_origin_ok(x as int, y as int, 1),
    ensures
        final(pixels)@.len() == old(pixels)@.len(),
        final(pixels)@ == paint_rects(old(pixels)@, screen.w as int, screen.h as int, x as int, y as int, 1, map_icon_rects()),
{
    let ghost s0 = pixels@;
    fill_rect(pixels, screen, x + 3, y + 3, 14, 14, 180, 160, 120);
    fill_rect(pixels, screen, x + 3, y + 3, 14, 1, 200, 180, 140);
    fill_rect(pixels, screen, x + 7, y + 4, 1, 12, 150, 130, 100);
    fill_rect(pixels, screen, x + 12, y + 4, 1, 12, 150, 130, 100);
    set_pixel(pixels, screen, x + 9, y + 8, 180, 40, 40);
    set_pixel(pixels, screen, x + 10, y + 9, 180, 40, 40);
    set_pixel(pixels, screen, x + 11, y + 8, 180, 40, 40);
    set_pixel(pixels, screen, x + 10, y + 7, 180, 40, 40);
    proof {
        reveal_with_fuel(paint_rects, 9);
    }
}


/// A blending function is usable when it accepts every input and always
/// gives the same output for the same input.
pub open spec fn blend_fn_ok<B: Fn(u8, u8, u8) -> u8>(blend: B) -> bool {
    &&& forall|src: u8, dst: u8, a: u8| #[trigger] blend.requires((src, dst, a))
    &&& forall|src: u8, dst: u8, a: u8, v1: u8, v2: u8|
        #[trigger] blend.ensures((src, dst, a), v1) && #[trigger] blend.ensures((src, dst, a), v2)
            ==> v1 == v2
}

/// What a usable blending function gives for one channel: `src` laid over
/// `dst` with opacity `a` (out of 255).
pub open spec fn blend_val<B: Fn(u8, u8, u8) -> u8>(blend: B, src: u8, dst: u8, a: u8) -> u8 {
    choose|v: u8| blend.ensures((src, dst, a), v)
}

/// The frame `s` with pixel `(x, y)` (when on screen) covered by colour
/// `col` at opacity `a`: fully opaque at 255, unchanged at 0, and otherwise
/// each colour channel blended by `bf(src, dst, a)`, the alpha byte set to 255.
pub open spec fn blended_pixel(
    s: Seq<u8>,
    sw: int,
    sh: int,
    x: int,
    y: int,
    col: (u8, u8, u8),
    a: u8,
    bf: spec_fn(u8, u8, u8) -> u8,
) -> Seq<u8> {
    if a == 255 {
        filled(s, sw, sh, x, y, 1, 1, col)
    } else if a == 0 || !(0 <= x < sw && 0 <= y < sh) {
        s
    } else {
        let base = (y * sw + x) * 4;
        s.update(base, bf(col.0, s[base], a)).update(base + 1, bf(col.1, s[base + 1], a)).update(
            base + 2,
            bf(col.2, s[base + 2], a),
        ).update(base + 3, 255)
    }
}

fn blend_channel<B: Fn(u8, u8, u8) -> u8>(blend: &B, src: u8, dst: u8, a: u8) -> (v: u8)
    requires
        blend_fn_ok(*blend),
    ensures
        v == blend_val(*blend, src, dst, a),
{
    let v = blend(src, dst, a);
    proof {
        let w = blend_val(*blend, src, dst, a);
        assert(blend.ensures((src, dst, a), w));
    }
    v
}

/// Covers pixel `(x, y)` (when on screen) with a colour at opacity `a`.
pub fn set_pixel_alpha<B: Fn(u8, u8, u8) -> u8>(
    pixels: &mut [u8],
    screen: &ScreenSize,
    x: i32,
    y: i32,
    r: u8,
    g: u8,
    b: u8,
    a: u8,
    blend: &B,
)
    requires
        screen.fits(old(pixels)@.len() as int),
        blend_fn_ok(*blend),
    ensures
        final(pixels)@.len() == old(pixels)@.len(),
        final(pixels)@ == blended_pixel(
            old(pixels)@,
            screen.w as int,
            screen.h as int,
            x as int,
            y as int,
            (r, g, b),
            a,
            |s: u8, d: u8, al: u8| blend_val(*blend, s, d, al),
        ),
{
    if a == 255 {
        set_pixel(pixels, screen, x, y, r, g, b);
        return;
    }
    if a == 0 {
        return;
    }
    let ghost sw = screen.w as int;
    let ghost sh = screen.h as int;
    let n = pixels.len();
    if x >= 0 && (x as usize) < screen.w && y >= 0 && (y as usize) < screen.h {
        proof {
            lemma_pixel_offset_bound(sw, sh, x as int, y as int);
            assert(0 <= y * sw);
            assert(y * sw + x <= n);
        }
        let base = ((y as usize) * screen.w + (x as usize)) * 4;
        let v0 = blend_channel(blend, r, pixels[base], a);
        pixels[base] = v0;
        let v1 = blend_channel(blend, g, pixels[base + 1], a);
        pixels[base + 1] = v1;
        let v2 = blend_channel(blend, b, pixels[base + 2], a);
        pixels[base + 2] = v2;
        pixels[base + 3] = 255;
    }
}


/// Byte `c` of a pixel whose old byte is `old`, covered by `col` at
/// opacity `a`: colour channels blended by `bf`, the alpha byte opaque.
pub open spec fn blended_byte(col: (u8, u8, u8), old: u8, c: int, a: u8, bf: spec_fn(u8, u8, u8) -> u8) -> u8 {
    if c == 3 {
        255
    } else {
        bf(chan(col, c), old, a)
    }
}

/// The frame `s` with the on-screen part of a rectangle covered by `col`
/// at opacity `a`.
pub open spec fn blended_rect(
    s: Seq<u8>,
    sw: int,
    sh: int,
    x: int,
    y: int,
    w: int,
    h: int,
    col: (u8, u8, u8),
    a: u8,
    bf: spec_fn(u8, u8, u8) -> u8,
) -> Seq<u8> {
    Seq::new(
        s.len(),
        |k: int|
            if 0 <= k < sw * sh * 4 && in_clip_rect(sw, sh, x, y, w, h, pixel_x(k, sw), pixel_y(k, sw)) {
                blended_byte(col, s[k], k % 4, a, bf)
            } else {
                s[k]
            },
    )
}

/// Covers the on-screen part of the `w` x `h` rectangle at `(x, y)` with a
/// colour at opacity `a`: every covered pixel's colour channels are blended
/// and its alpha byte set to 255.
pub fn fill_rect_alpha<B: Fn(u8, u8, u8) -> u8>(
    pixels: &mut [u8],
    screen: &ScreenSize,
    x: i32,
    y: i32,
    w: i32,
    h: i32,
    r: u8,
    g: u8,
    b: u8,
    a: u8,
    blend: &B,
)
    requires
        blend_fn_ok(*blend),
        screen.fits(old(pixels)@.len() as int),
        i32::MIN <= x + w <= i32::MAX,
        i32::MIN <= y + h <= i32::MAX,
    ensures
        final(pixels)@.len() == old(pixels)@.len(),
        final(pixels)@ == blended_rect(
            old(pixels)@,
            screen.w as int,
            screen.h as int,
            x as int,
            y as int,
            w as int,
            h as int,
            (r, g, b),
            a,
            |s: u8, d: u8, al: u8| blend_val(*blend, s, d, al),
        ),
{
    let stride = screen.w;
    let x0 = if x > 0 {
        x as usize
    } else {
        0
    };
    let y0 = if y > 0 {
        y as usize
    } else {
        0
    };
    let xe = x + w;
    let ye = y + h;
    let x1 = if xe <= 0 {
        0
    } else if xe as usize > stride {
        stride
    } else {
        xe as usize
    };
    let y1 = if ye <= 0 {
        0
    } else if ye as usize > screen.h {
        screen.h
    } else {
        ye as usize
    };
    let n = pixels.len();
    let ghost s0 = pixels@;
    let ghost sw = screen.w as int;
    let ghost sh = screen.h as int;
    let ghost col = (r, g, b);
    let ghost bf = |s: u8, d: u8, al: u8| blend_val(*blend, s, d, al);
    if x0 >= x1 || y0 >= y1 {
        proof {
            assert(pixels@ =~= blended_rect(s0, sw, sh, x as int, y as int, w as int, h as int, col, a, bf)) by {
                assert forall|k: int| 0 <= k < s0.len() implies pixels@[k] == blended_rect(
                    s0,
                    sw,
                    sh,
                    x as int,
                    y as int,
                    w as int,
                    h as int,
                    col,
                    a,
                    bf,
                )[k] by {
                    if 0 <= k < sw * sh * 4 {
                        lemma_decode(sw, k);
                    }
                }
            }
        }
        return;
    }
    let mut py: usize = y0;
    while py < y1
        invariant
            stride == sw,
            sw == screen.w,
            sh == screen.h,
            col == (r, g, b),
            bf == (|s: u8, d: u8, al: u8| blend_val(*blend, s, d, al)),
            blend_fn_ok(*blend),
            n == s0.len(),
            screen.fits(s0.len() as int),
            0 < sw,
            x0 < x1 <= sw,
            y0 <= py <= y1 <= sh,
            x0 as int == (if x > 0 {
                x as int
            } else {
                0
            }),
            y0 as int == (if y > 0 {
                y as int
            } else {
                0
            }),
            x1 as int == (if x + w <= 0 {
                0
            } else if x + w > sw {
                sw
            } else {
                x + w
            }),
            y1 as int == (if y + h <= 0 {
                0
            } else if y + h > sh {
                sh
            } else {
                y + h
            }),
            pixels@.len() == s0.len(),
            forall|k: int|
                0 <= k < s0.len() ==> #[trigger] pixels@[k] == (if 0 <= k < sw * sh * 4 && x0 <= pixel_x(
                    k,
                    sw,
                ) < x1 && y0 <= pixel_y(k, sw) < py {
                    blended_byte(col, s0[k], k % 4, a, bf)
                } else {
                    s0[k]
                }),
        decreases y1 - py,
    {
        let mut px: usize = x0;
        while px < x1
            invariant
                stride == sw,
                sw == screen.w,
                sh == screen.h,
                col == (r, g, b),
                bf == (|s: u8, d: u8, al: u8| blend_val(*blend, s, d, al)),
                blend_fn_ok(*blend),
            bf == (|s: u8, d: u8, al: u8| blend_val(*blend, s, d, al)),
            blend_fn_ok(*blend),
                n == s0.len(),
                screen.fits(s0.len() as int),
                0 < sw,
                x0 <= px <= x1 <= sw,
                y0 <= py < y1 <= sh,
                pixels@.len() == s0.len(),
                forall|k: int|
                    0 <= k < s0.len() ==> #[trigger] pixels@[k] == (if 0 <= k < sw * sh * 4 && ((x0
                        <= pixel_x(k, sw) < x1 && y0 <= pixel_y(k, sw) < py) || (x0 <= pixel_x(k, sw)
                        < px && pixel_y(k, sw) == py)) {
                        blended_byte(col, s0[k], k % 4, a, bf)
                    } else {
                        s0[k]
                    }),
            decreases x1 - px,
        {
            proof {
                lemma_pixel_offset_bound(sw, sh, px as int, py as int);
                assert(0 <= py * sw);
                assert((py * sw + px) * 4 + 4 <= n);
                assert(py * stride + px <= n);
            }
            let base = (py * stride + px) * 4;
            let ghost before = pixels@;
            let v0 = blend_channel(blend, r, pixels[base], a);
            pixels[base] = v0;
            let v1 = blend_channel(blend, g, pixels[base + 1], a);
            pixels[base + 1] = v1;
            let v2 = blend_channel(blend, b, pixels[base + 2], a);
            pixels[base + 2] = v2;
            pixels[base + 3] = 255;
            proof {
                assert forall|k: int| 0 <= k < s0.len() implies #[trigger] pixels@[k] == (if 0 <= k < sw
                    * sh * 4 && ((x0 <= pixel_x(k, sw) < x1 && y0 <= pixel_y(k, sw) < py) || (x0
                    <= pixel_x(k, sw) < px + 1 && pixel_y(k, sw) == py)) {
                    blended_byte(col, s0[k], k % 4, a, bf)
                } else {
                    s0[k]
                }) by {
                    lemma_decode(sw, k);
                    lemma_in_frame(sw, sh, k);
                    if base <= k < base + 4 {
                        lemma_encode(sw, px as int, py as int, k - base);
                    } else {
                        assert(before[k] == pixels@[k]);
                        if pixel_x(k, sw) == px && pixel_y(k, sw) == py {
                            assert(false);
                        }
                    }
                }
            }
            px = px + 1;
        }
        py = py + 1;
    }
    proof {
        assert(pixels@ =~= blended_rect(s0, sw, sh, x as int, y as int, w as int, h as int, col, a, bf)) by {
            assert forall|k: int| 0 <= k < s0.len() implies pixels@[k] == blended_rect(
                s0,
                sw,
                sh,
                x as int,
                y as int,
                w as int,
                h as int,
                col,
                a,
                bf,
            )[k] by {
                if 0 <= k < sw * sh * 4 {
                    lemma_decode(sw, k);
                    lemma_in_frame(sw, sh, k);
                }
            }
        }
    }
}



/// The 3x5 font: five rows of three bits each, the leftmost pixel in bit 2;
/// unknown characters are a solid block.
pub open spec fn glyph_rows(c: char) -> Seq<u8> {
    if c == 'a' {
        seq![0b010u8, 0b101u8, 0b111u8, 0b101u8, 0b101u8]
    } else if c == 'b' {
        seq![0b110u8, 0b101u8, 0b110u8, 0b101u8, 0b110u8]
    } else if c == 'c' {
        seq![0b011u8, 0b100u8, 0b100u8, 0b100u8, 0b011u8]
    } else if c == 'd' {
        seq![0b110u8, 0b101u8, 0b101u8, 0b101u8, 0b110u8]
    } else if c == 'e' {
        seq![0b111u8, 0b100u8, 0b110u8, 0b100u8, 0b111u8]
    } else if c == 'f' {
        seq![0b111u8, 0b100u8, 0b110u8, 0b100u8, 0b100u8]
    } else if c == 'g' {
        seq![0b111u8, 0b100u8, 0b101u8, 0b101u8, 0b111u8]
    } else if c == 'h' {
        seq![0b101u8, 0b101u8, 0b111u8, 0b101u8, 0b101u8]
    } else if c == 'i' {
        seq![0b111u8, 0b010u8, 0b010u8, 0b010u8, 0b111u8]
    } else if c == 'j' {
        seq![0b001u8, 0b001u8, 0b001u8, 0b101u8, 0b010u8]
    } else if c == 'k' {
        seq![0b101u8, 0b110u8, 0b100u8, 0b110u8, 0b101u8]
    } else if c == 'l' {
        seq![0b100u8, 0b100u8, 0b100u8, 0b100u8, 0b111u8]
    } else if c == 'm' {
        seq![0b101u8, 0b111u8, 0b111u8, 0b101u8, 0b101u8]
    } else if c == 'n' {
        seq![0b101u8, 0b111u8, 0b111u8, 0b101u8, 0b101u8]
    } else if c == 'o' {
        seq![0b010u8, 0b101u8, 0b101u8, 0b101u8, 0b010u8]
    } else if c == 'p' {
        seq![0b110u8, 0b101u8, 0b110u8, 0b100u8, 0b100u8]
    } else if c == 'q' {
        seq![0b010u8, 0b101u8, 0b101u8, 0b110u8, 0b011u8]
    } else if c == 'r' {
        seq![0b110u8, 0b101u8, 0b110u8, 0b101u8, 0b101u8]
    } else if c == 's' {
        seq![0b011u8, 0b100u8, 0b010u8, 0b001u8, 0b110u8]
    } else if c == 't' {
        seq![0b111u8, 0b010u8, 0b010u8, 0b010u8, 0b010u8]
    } else if c == 'u' {
        seq![0b101u8, 0b101u8, 0b101u8, 0b101u8, 0b111u8]
    } else if c == 'v' {
        seq![0b101u8, 0b101u8, 0b101u8, 0b101u8, 0b010u8]
    } else if c == 'w' {
        seq![0b101u8, 0b101u8, 0b111u8, 0b111u8, 0b101u8]
    } else if c == 'x' {
        seq![0b101u8, 0b101u8, 0b010u8, 0b101u8, 0b101u8]
    } else if c == 'y' {
        seq![0b101u8, 0b101u8, 0b010u8, 0b010u8, 0b010u8]
    } else if c == 'z' {
        seq![0b111u8, 0b001u8, 0b010u8, 0b100u8, 0b111u8]
    } else if c == '0' {
        seq![0b111u8, 0b101u8, 0b101u8, 0b101u8, 0b111u8]
    } else if c == '1' {
        seq![0b010u8, 0b110u8, 0b010u8, 0b010u8, 0b111u8]
    } else if c == '2' {
        seq![0b111u8, 0b001u8, 0b111u8, 0b100u8, 0b111u8]
    } else if c == '3' {
        seq![0b111u8, 0b001u8, 0b111u8, 0b001u8, 0b111u8]
    } else if c == '4' {
        seq![0b101u8, 0b101u8, 0b111u8, 0b001u8, 0b001u8]
    } else if c == '5' {
        seq![0b111u8, 0b100u8, 0b111u8, 0b001u8, 0b111u8]
    } else if c == '6' {
        seq![0b111u8, 0b100u8, 0b111u8, 0b101u8, 0b111u8]
    } else if c == '7' {
        seq![0b111u8, 0b001u8, 0b010u8, 0b010u8, 0b010u8]
    } else if c == '8' {
        seq![0b111u8, 0b101u8, 0b111u8, 0b101u8, 0b111u8]
    } else if c == '9' {
        seq![0b111u8, 0b101u8, 0b111u8, 0b001u8, 0b111u8]
    } else if c == '+' {
        seq![0b000u8, 0b010u8, 0b111u8, 0b010u8, 0b000u8]
    } else if c == '-' {
        seq![0b000u8, 0b000u8, 0b111u8, 0b000u8, 0b000u8]
    } else if c == '/' {
        seq![0b001u8, 0b001u8, 0b010u8, 0b100u8, 0b100u8]
    } else if c == ':' {
        seq![0b000u8, 0b010u8, 0b000u8, 0b010u8, 0b000u8]
    } else if c == ' ' {
        seq![0b000u8, 0b000u8, 0b000u8, 0b000u8, 0b000u8]
    } else {
        seq![0b111u8, 0b111u8, 0b111u8, 0b111u8, 0b111u8]
    }
}

/// The 3x5 font glyph of a character.
pub fn glyph(c: char) -> (r: [u8; 5])
    ensures
        r@ == glyph_rows(c),
{
    let r: [u8; 5] = match c {
        'a' => [0b010, 0b101, 0b111, 0b101, 0b101],
        'b' => [0b110, 0b101, 0b110, 0b101, 0b110],
        'c' => [0b011, 0b100, 0b100, 0b100, 0b011],
        'd' => [0b110, 0b101, 0b101, 0b101, 0b110],
        'e' => [0b111, 0b100, 0b110, 0b100, 0b111],
        'f' => [0b111, 0b100, 0b110, 0b100, 0b100],
        'g' => [0b111, 0b100, 0b101, 0b101, 0b111],
        'h' => [0b101, 0b101, 0b111, 0b101, 0b101],
        'i' => [0b111, 0b010, 0b010, 0b010, 0b111],
        'j' => [0b001, 0b001, 0b001, 0b101, 0b010],
        'k' => [0b101, 0b110, 0b100, 0b110, 0b101],
        'l' => [0b100, 0b100, 0b100, 0b100, 0b111],
        'm' => [0b101, 0b111, 0b111, 0b101, 0b101],
        'n' => [0b101, 0b111, 0b111, 0b101, 0b101],
        'o' => [0b010, 0b101, 0b101, 0b101, 0b010],
        'p' => [0b110, 0b101, 0b110, 0b100, 0b100],
        'q' => [0b010, 0b101, 0b101, 0b110, 0b011],
        'r' => [0b110, 0b101, 0b110, 0b101, 0b101],
        's' => [0b011, 0b100, 0b010, 0b001, 0b110],
        't' => [0b111, 0b010, 0b010, 0b010, 0b010],
        'u' => [0b101, 0b101, 0b101, 0b101, 0b111],
        'v' => [0b101, 0b101, 0b101, 0b101, 0b010],
        'w' => [0b101, 0b101, 0b111, 0b111, 0b101],
        'x' => [0b101, 0b101, 0b010, 0b101, 0b101],
        'y' => [0b101, 0b101, 0b010, 0b010, 0b010],
        'z' => [0b111, 0b001, 0b010, 0b100, 0b111],
        '0' => [0b111, 0b101, 0b101, 0b101, 0b111],
        '1' => [0b010, 0b110, 0b010, 0b010, 0b111],
        '2' => [0b111, 0b001, 0b111, 0b100, 0b111],
        '3' => [0b111, 0b001, 0b111, 0b001, 0b111],
        '4' => [0b101, 0b101, 0b111, 0b001, 0b001],
        '5' => [0b111, 0b100, 0b111, 0b001, 0b111],
        '6' => [0b111, 0b100, 0b111, 0b101, 0b111],
        '7' => [0b111, 0b001, 0b010, 0b010, 0b010],
        '8' => [0b111, 0b101, 0b111, 0b101, 0b111],
        '9' => [0b111, 0b101, 0b111, 0b001, 0b111],
        '+' => [0b000, 0b010, 0b111, 0b010, 0b000],
        '-' => [0b000, 0b000, 0b111, 0b000, 0b000],
        '/' => [0b001, 0b001, 0b010, 0b100, 0b100],
        ':' => [0b000, 0b010, 0b000, 0b010, 0b000],
        ' ' => [0b000, 0b000, 0b000, 0b000, 0b000],
        _ => [0b111, 0b111, 0b111, 0b111, 0b111],
    };
    assert(r@ =~= glyph_rows(c));
    r
}

/// Width of a character cell of the tiny font, spacing included.
pub const GLYPH_W: i32 = 4;

/// Whether column `col` (0 to 2, left to right) of a glyph row is lit.
pub open spec fn glyph_bit(bits: u8, col: int) -> bool {
    ((bits >> ((2 - col) as u8)) & 1u8) == 1u8
}

/// The frame `s` with the first `n` cells of a glyph (row by row, three
/// per row) drawn with its top-left at `(cx, y)`: lit cells are covered
/// with `col` at opacity `alpha`.
pub open spec fn glyph_drawn(
    s: Seq<u8>,
    sw: int,
    sh: int,
    cx: int,
    y: int,
    rows: Seq<u8>,
    n: int,
    col: (u8, u8, u8),
    alpha: u8,
    bf: spec_fn(u8, u8, u8) -> u8,
) -> Seq<u8>
    decreases n,
{
    if n <= 0 {
        s
    } else {
        let prev = glyph_drawn(s, sw, sh, cx, y, rows, n - 1, col, alpha, bf);
        let row = (n - 1) / 3;
        let c = (n - 1) % 3;
        if glyph_bit(rows[row], c) {
            blended_pixel(prev, sw, sh, cx + c, y + row, col, alpha, bf)
        } else {
            prev
        }
    }
}

/// The frame `s` with `text` written in the tiny font from `(x, y)`, one
/// character every 4 pixels.
pub open spec fn text_drawn(
    s: Seq<u8>,
    sw: int,
    sh: int,
    x: int,
    y: int,
    text: Seq<char>,
    col: (u8, u8, u8),
    alpha: u8,
    bf: spec_fn(u8, u8, u8) -> u8,
) -> Seq<u8>
    decreases text.len(),
{
    if text.len() == 0 {
        s
    } else {
        glyph_drawn(
            text_drawn(s, sw, sh, x, y, text.drop_last(), col, alpha, bf),
            sw,
            sh,
            x + GLYPH_W * (text.len() - 1),
            y,
            glyph_rows(text.last()),
            15,
            col,
            alpha,
            bf,
        )
    }
}

/// A string of `len` characters written from `(x, y)` (4 pixels a
/// character, 5 rows tall) stays inside the range of `i32` coordinates.
pub open spec fn text_origin_ok(x: int, y: int, len: int) -> bool {
    &&& -0x4000_0000 <= x
    &&& -0x4000_0000 <= y
    &&& len <= 0x100_0000
    &&& x + GLYPH_W * len + GLYPH_W <= i32::MAX
    &&& y + 5 <= i32::MAX
}

/// Writes `text` in the tiny 3x5 font from `(x, y)`, blended at opacity `alpha`.
pub fn draw_tiny_string<B: Fn(u8, u8, u8) -> u8>(
    pixels: &mut [u8],
    screen: &ScreenSize,
    x: i32,
    y: i32,
    text: &str,
    r: u8,
    g: u8,
    b: u8,
    alpha: u8,
    blend: &B,
)
    requires
        screen.fits(old(pixels)@.len() as int),
        blend_fn_ok(*blend),
        text_origin_ok(x as int, y as int, text@.len() as int),
    ensures
        final(pixels)@.len() == old(pixels)@.len(),
        final(pixels)@ == text_drawn(
            old(pixels)@,
            screen.w as int,
            screen.h as int,
            x as int,
            y as int,
            text@,
            (r, g, b),
            alpha,
            |s: u8, d: u8, al: u8| blend_val(*blend, s, d, al),
        ),
{
    let chars = str_chars(text);
    draw_tiny_chars(pixels, screen, x, y, chars.as_slice(), r, g, b, alpha, blend);
}

/// The characters of a string.
pub fn str_chars(text: &str) -> (r: Vec<char>)
    ensures
        r@ == text@,
{
    let n = text.unicode_len();
    let mut r: Vec<char> = Vec::new();
    let mut i: usize = 0;
    while i < n
        invariant
            n == text@.len(),
            i <= n,
            r@ == text@.take(i as int),
        decreases n - i,
    {
        r.push(text.get_char(i));
        i = i + 1;
        proof {
            assert(r@ =~= text@.take(i as int));
        }
    }
    assert(text@.take(n as int) =~= text@);
    r
}

/// The decimal digit `d` (0 to 9) as a character.
pub open spec fn digit_char(d: int) -> char {
    (48 + d) as char
}

/// The decimal writing of `n`, without leading zeros.
pub open spec fn decimal(n: nat) -> Seq<char>
    decreases n,
{
    if n < 10 {
        seq![digit_char(n as int)]
    } else {
        decimal(n / 10).push(digit_char((n % 10) as int))
    }
}

fn push_digit(out: &mut Vec<char>, d: u32)
    requires
        d < 10,
    ensures
        final(out)@ == old(out)@.push(digit_char(d as int)),
{
    let b = (48 + d) as u8;
    let c = b as char;
    assert(c as u32 == 48 + d);
    out.push(c);
}

/// Appends the decimal writing of `n` to `out`.
pub fn push_decimal(out: &mut Vec<char>, n: u32)
    ensures
        final(out)@ == old(out)@ + decimal(n as nat),
    decreases n,
{
    if n >= 10 {
        push_decimal(out, n / 10);
    }
    push_digit(out, n % 10);
    proof {
        if n >= 10 {
            assert(old(out)@ + decimal(n as nat) =~= old(out)@ + decimal((n / 10) as nat) + seq![
                digit_char((n % 10) as int),
            ]);
        } else {
            assert(old(out)@ + decimal(n as nat) =~= old(out)@.push(digit_char(n as int)));
        }
    }
}

/// Writes the characters of `text` in the tiny 3x5 font from `(x, y)`, blended at opacity `alpha`.
pub fn draw_tiny_chars<B: Fn(u8, u8, u8) -> u8>(
    pixels: &mut [u8],
    screen: &ScreenSize,
    x: i32,
    y: i32,
    text: &[char],
    r: u8,
    g: u8,
    b: u8,
    alpha: u8,
    blend: &B,
)
    requires
        screen.fits(old(pixels)@.len() as int),
        blend_fn_ok(*blend),
        text_origin_ok(x as int, y as int, text@.len() as int),
    ensures
        final(pixels)@.len() == old(pixels)@.len(),
        final(pixels)@ == text_drawn(
            old(pixels)@,
            screen.w as int,
            screen.h as int,
            x as int,
            y as int,
            text@,
            (r, g, b),
            alpha,
            |s: u8, d: u8, al: u8| blend_val(*blend, s, d, al),
        ),
{
    let ghost s0 = pixels@;
    let ghost sw = screen.w as int;
    let ghost sh = screen.h as int;
    let ghost col = (r, g, b);
    let ghost bf = |s: u8, d: u8, al: u8| blend_val(*blend, s, d, al);
    let n = text.len();
    let mut i: usize = 0;
    let mut cx: i32 = x;
    while i < n
        invariant
            n == text@.len(),
            i <= n,
            text_origin_ok(x as int, y as int, n as int),
            cx == x + GLYPH_W * i,
            screen.fits(pixels@.len() as int),
            pixels@.len() == s0.len(),
            blend_fn_ok(*blend),
            sw == screen.w,
            sh == screen.h,
            col == (r, g, b),
            bf == (|s: u8, d: u8, al: u8| blend_val(*blend, s, d, al)),
            pixels@ == text_drawn(s0, sw, sh, x as int, y as int, text@.take(i as int), col, alpha, bf),
        decreases n - i,
    {
        let ch = text[i];
        let rows = glyph(ch);
        let ghost start = pixels@;
        let mut row: usize = 0;
        while row < 5
            invariant
                row <= 5,
                rows@ == glyph_rows(ch),
                text_origin_ok(x as int, y as int, n as int),
                i < n,
                cx == x + GLYPH_W * i,
                screen.fits(pixels@.len() as int),
                pixels@.len() == s0.len(),
                blend_fn_ok(*blend),
                sw == screen.w,
                sh == screen.h,
                col == (r, g, b),
                bf == (|s: u8, d: u8, al: u8| blend_val(*blend, s, d, al)),
                pixels@ == glyph_drawn(start, sw, sh, cx as int, y as int, rows@, (row * 3) as int, col, alpha, bf),
            decreases 5 - row,
        {
            let mut c: usize = 0;
            while c < 3
                invariant
                    c <= 3,
                    row < 5,
                    rows@ == glyph_rows(ch),
                    text_origin_ok(x as int, y as int, n as int),
                    i < n,
                    cx == x + GLYPH_W * i,
                    screen.fits(pixels@.len() as int),
                    pixels@.len() == s0.len(),
                    blend_fn_ok(*blend),
                    sw == screen.w,
                    sh == screen.h,
                    col == (r, g, b),
                    bf == (|s: u8, d: u8, al: u8| blend_val(*blend, s, d, al)),
                    pixels@ == glyph_drawn(start, sw, sh, cx as int, y as int, rows@, (row * 3 + c) as int, col, alpha, bf),
                decreases 3 - c,
            {
                let ghost cell = (row * 3 + c) as int;
                proof {
                    lemma_fundamental_div_mod_converse(cell, 3, row as int, c as int);
                }
                let bits = rows[row];
                if (bits >> ((2 - c) as u8)) & 1u8 == 1u8 {
                    set_pixel_alpha(pixels, screen, cx + c as i32, y + row as i32, r, g, b, alpha, blend);
                }
                c = c + 1;
            }
            row = row + 1;
        }
        proof {
            let t = text@.take(i as int + 1);
            assert(t.drop_last() =~= text@.take(i as int));
            assert(t.last() == ch);
        }
        i = i + 1;
        cx = cx + GLYPH_W;
    }
    proof {
        assert(text@.take(n as int) =~= text@);
    }
}


/// One drawing step, used to describe what the HUD painters do.
pub enum DrawOp {
    /// An opaque rectangle: top-left corner, size, colour.
    Rect(int, int, int, int, (u8, u8, u8)),
    /// An opaque pixel.
    Pixel(int, int, (u8, u8, u8)),
    /// A pixel covered at an opacity.
    PixelAlpha(int, int, (u8, u8, u8), u8),
}

/// The frame `s` after one drawing step.
pub open spec fn apply_op(s: Seq<u8>, sw: int, sh: int, op: DrawOp, bf: spec_fn(u8, u8, u8) -> u8) -> Seq<u8> {
    match op {
        DrawOp::Rect(x, y, w, h, col) => filled(s, sw, sh, x, y, w, h, col),
        DrawOp::Pixel(x, y, col) => filled(s, sw, sh, x, y, 1, 1, col),
        DrawOp::PixelAlpha(x, y, col, a) => blended_pixel(s, sw, sh, x, y, col, a, bf),
    }
}

/// The frame `s` after the steps `f(i).0` then `f(i).1` for `i` running
/// from `lo` up to `hi - 1`.
pub open spec fn pair_loop(
    s: Seq<u8>,
    sw: int,
    sh: int,
    lo: int,
    hi: int,
    f: spec_fn(int) -> (DrawOp, DrawOp),
    bf: spec_fn(u8, u8, u8) -> u8,
) -> Seq<u8>
    decreases hi - lo,
{
    if hi <= lo {
        s
    } else {
        let p = pair_loop(s, sw, sh, lo, hi - 1, f, bf);
        apply_op(apply_op(p, sw, sh, f(hi - 1).0, bf), sw, sh, f(hi - 1).1, bf)
    }
}

/// A square frame drawn `size` pixels wide from `(x, y)` stays well inside
/// the range of `i32` coordinates.
pub open spec fn frame_origin_ok(x: int, y: int, size: int) -> bool {
    &&& -0x4000_0000 <= x
    &&& -0x4000_0000 <= y
    &&& 0 <= size <= 0x1_0000
    &&& x + size + 1 <= i32::MAX
    &&& y + size + 1 <= i32::MAX
}

/// The frame of a HUD button: a dark translucent square, a one-pixel
/// border (gold when active, grey otherwise), and when active a faint gold
/// highlight along the inside of the top and left edges.
pub open spec fn button_frame_drawn(
    s: Seq<u8>,
    sw: int,
    sh: int,
    x: int,
    y: int,
    size: int,
    active: bool,
    bf: spec_fn(u8, u8, u8) -> u8,
) -> Seq<u8> {
    let border: (u8, u8, u8) = if active {
        (180, 150, 60)
    } else {
        (60, 60, 80)
    };
    let s1 = blended_rect(s, sw, sh, x, y, size, size, (12, 12, 20), 200, bf);
    let s2 = pair_loop(s1, sw, sh, 0, size, top_bottom_edges(x, y, size, size, border, border), bf);
    let s3 = pair_loop(s2, sw, sh, 0, size, left_right_edges(x, y, size, size, border, border), bf);
    if active {
        pair_loop(s3, sw, sh, 1, size - 1, button_highlight(x, y), bf)
    } else {
        s3
    }
}

/// Step `i` paints pixel `i` of the top edge (colour `top`) and of the
/// bottom edge (colour `bottom`) of a `w` x `h` box at `(x, y)`.
pub open spec fn top_bottom_edges(x: int, y: int, w: int, h: int, top: (u8, u8, u8), bottom: (u8, u8, u8)) -> spec_fn(int) -> (DrawOp, DrawOp) {
    |i: int| (DrawOp::Pixel(x + i, y, top), DrawOp::Pixel(x + i, y + h - 1, bottom))
}

/// Step `i` paints pixel `i` of the left edge (colour `left`) and of the
/// right edge (colour `right`) of a `w` x `h` box at `(x, y)`.
pub open spec fn left_right_edges(x: int, y: int, w: int, h: int, left: (u8, u8, u8), right: (u8, u8, u8)) -> spec_fn(int) -> (DrawOp, DrawOp) {
    |i: int| (DrawOp::Pixel(x, y + i, left), DrawOp::Pixel(x + w - 1, y + i, right))
}

/// Step `i` of an active button's highlight: a faint gold pixel just
/// inside the top edge and one just inside the left edge.
pub open spec fn button_highlight(x: int, y: int) -> spec_fn(int) -> (DrawOp, DrawOp) {
    |i: int|
        (
            DrawOp::PixelAlpha(x + i, y + 1, (200, 170, 80), 60),
            DrawOp::PixelAlpha(x + 1, y + i, (200, 170, 80), 40),
        )
}

/// Draws the frame of a HUD button.
pub fn draw_button_frame<B: Fn(u8, u8, u8) -> u8>(
    pixels: &mut [u8],
    screen: &ScreenSize,
    x: i32,
    y: i32,
    size: i32,
    active: bool,
    blend: &B,
)
    requires
        screen.fits(old(pixels)@.len() as int),
        blend_fn_ok(*blend),
        frame_origin_ok(x as int, y as int, size as int),
    ensures
        final(pixels)@.len() == old(pixels)@.len(),
        final(pixels)@ == button_frame_drawn(
            old(pixels)@,
            screen.w as int,
            screen.h as int,
            x as int,
            y as int,
            size as int,
            active,
            |s: u8, d: u8, al: u8| blend_val(*blend, s, d, al),
        ),
{
    let ghost n0 = pixels@.len();
    let ghost sw = screen.w as int;
    let ghost sh = screen.h as int;
    let ghost bf = |s: u8, d: u8, al: u8| blend_val(*blend, s, d, al);
    let ghost s0 = pixels@;
    fill_rect_alpha(pixels, screen, x, y, size, size, 12, 12, 20, 200, blend);
    let (br, bg, bb): (u8, u8, u8) = if active {
        (180, 150, 60)
    } else {
        (60, 60, 80)
    };
    let ghost border = (br, bg, bb);
    let ghost s1 = pixels@;
    let ghost f1 = top_bottom_edges(x as int, y as int, size as int, size as int, border, border);
    let mut i: i32 = 0;
    while i < size
        invariant
            0 <= i <= size,
            frame_origin_ok(x as int, y as int, size as int),
            screen.fits(pixels@.len() as int),
            pixels@.len() == n0,
            sw == screen.w,
            sh == screen.h,
            border == (br, bg, bb),
            f1 == top_bottom_edges(x as int, y as int, size as int, size as int, border, border),
            pixels@ == pair_loop(s1, sw, sh, 0, i as int, f1, bf),
        decreases size - i,
    {
        set_pixel(pixels, screen, x + i, y, br, bg, bb);
        set_pixel(pixels, screen, x + i, y + size - 1, br, bg, bb);
        i = i + 1;
    }
    let ghost s2 = pixels@;
    let ghost f2 = left_right_edges(x as int, y as int, size as int, size as int, border, border);
    let mut i: i32 = 0;
    while i < size
        invariant
            0 <= i <= size,
            frame_origin_ok(x as int, y as int, size as int),
            screen.fits(pixels@.len() as int),
            pixels@.len() == n0,
            sw == screen.w,
            sh == screen.h,
            border == (br, bg, bb),
            f2 == left_right_edges(x as int, y as int, size as int, size as int, border, border),
            pixels@ == pair_loop(s2, sw, sh, 0, i as int, f2, bf),
        decreases size - i,
    {
        set_pixel(pixels, screen, x, y + i, br, bg, bb);
        set_pixel(pixels, screen, x + size - 1, y + i, br, bg, bb);
        i = i + 1;
    }
    let ghost s3 = pixels@;
    if active {
        let ghost f3 = button_highlight(x as int, y as int);
        let mut i: i32 = 1;
        while i < size - 1
            invariant
                1 <= i,
                i <= size - 1 || i == 1,
                frame_origin_ok(x as int, y as int, size as int),
                screen.fits(pixels@.len() as int),
            pixels@.len() == n0,
                blend_fn_ok(*blend),
                sw == screen.w,
                sh == screen.h,
                bf == (|s: u8, d: u8, al: u8| blend_val(*blend, s, d, al)),
                f3 == button_highlight(x as int, y as int),
                pixels@ == pair_loop(s3, sw, sh, 1, i as int, f3, bf),
            decreases size - i,
        {
            set_pixel_alpha(pixels, screen, x + i, y + 1, 200, 170, 80, 60, blend);
            set_pixel_alpha(pixels, screen, x + 1, y + i, 200, 170, 80, 40, blend);
            i = i + 1;
        }
        proof {
            if size < 2 {
                assert(pair_loop(s3, sw, sh, 1, size - 1, f3, bf) == s3);
            }
        }
    }
    proof {
        assert(bf == (|s: u8, d: u8, al: u8| blend_val(*blend, s, d, al)));
    }
}


/// The frame `s` after the step `f(i)` for `i` running from `lo` up to `hi - 1`.
pub open spec fn op_loop(
    s: Seq<u8>,
    sw: int,
    sh: int,
    lo: int,
    hi: int,
    f: spec_fn(int) -> DrawOp,
    bf: spec_fn(u8, u8, u8) -> u8,
) -> Seq<u8>
    decreases hi - lo,
{
    if hi <= lo {
        s
    } else {
        apply_op(op_loop(s, sw, sh, lo, hi - 1, f, bf), sw, sh, f(hi - 1), bf)
    }
}

/// Step `i` covers pixel `i` of the top edge and of the bottom edge of a
/// `w` x `h` box at `(x, y)`, each in its own colour and opacity.
pub open spec fn top_bottom_alpha(
    x: int,
    y: int,
    h: int,
    top: (u8, u8, u8),
    top_a: u8,
    bottom: (u8, u8, u8),
    bottom_a: u8,
) -> spec_fn(int) -> (DrawOp, DrawOp) {
    |i: int| (DrawOp::PixelAlpha(x + i, y, top, top_a), DrawOp::PixelAlpha(x + i, y + h - 1, bottom, bottom_a))
}

/// Step `i` covers pixel `i` of the left edge and of the right edge of a
/// `w` x `h` box at `(x, y)`, each in its own colour and opacity.
pub open spec fn left_right_alpha(
    x: int,
    y: int,
    w: int,
    left: (u8, u8, u8),
    left_a: u8,
    right: (u8, u8, u8),
    right_a: u8,
) -> spec_fn(int) -> (DrawOp, DrawOp) {
    |i: int| (DrawOp::PixelAlpha(x, y + i, left, left_a), DrawOp::PixelAlpha(x + w - 1, y + i, right, right_a))
}

/// Step `i` of a panel's inner highlight, just under the top edge.
pub open spec fn panel_highlight(x: int, y: int) -> spec_fn(int) -> DrawOp {
    |i: int| DrawOp::PixelAlpha(x + i, y + 1, (100, 100, 120), 60)
}

/// The background of a HUD panel: a dark translucent box with a lighter
/// top edge, darker bottom and right edges, a mid-tone left edge and a faint
/// highlight under the top edge.
pub open spec fn panel_bg_drawn(
    s: Seq<u8>,
    sw: int,
    sh: int,
    x: int,
    y: int,
    w: int,
    h: int,
    bf: spec_fn(u8, u8, u8) -> u8,
) -> Seq<u8> {
    let s1 = blended_rect(s, sw, sh, x, y, w, h, (10, 10, 18), 210, bf);
    let s2 = pair_loop(s1, sw, sh, 0, w, top_bottom_alpha(x, y, h, (80, 75, 95), 160, (55, 55, 70), 140), bf);
    let s3 = pair_loop(s2, sw, sh, 0, h, left_right_alpha(x, y, w, (70, 70, 85), 140, (55, 55, 70), 140), bf);
    op_loop(s3, sw, sh, 1, w - 1, panel_highlight(x, y), bf)
}

/// A box drawn `w` x `h` from `(x, y)` stays well inside the range of
/// `i32` coordinates.
pub open spec fn box_origin_ok(x: int, y: int, w: int, h: int) -> bool {
    &&& -0x4000_0000 <= x
    &&& -0x4000_0000 <= y
    &&& 0 <= w <= 0x1_0000
    &&& 0 <= h <= 0x1_0000
    &&& x + w + 1 <= i32::MAX
    &&& y + h + 1 <= i32::MAX
}

/// Draws the background of a HUD panel.
pub fn draw_panel_bg<B: Fn(u8, u8, u8) -> u8>(
    pixels: &mut [u8],
    screen: &ScreenSize,
    x: i32,
    y: i32,
    w: i32,
    h: i32,
    blend: &B,
)
    requires
        screen.fits(old(pixels)@.len() as int),
        blend_fn_ok(*blend),
        box_origin_ok(x as int, y as int, w as int, h as int),
    ensures
        final(pixels)@.len() == old(pixels)@.len(),
        final(pixels)@ == panel_bg_drawn(
            old(pixels)@,
            screen.w as int,
            screen.h as int,
            x as int,
            y as int,
            w as int,
            h as int,
            |s: u8, d: u8, al: u8| blend_val(*blend, s, d, al),
        ),
{
    let ghost n0 = pixels@.len();
    let ghost sw = screen.w as int;
    let ghost sh = screen.h as int;
    let ghost bf = |s: u8, d: u8, al: u8| blend_val(*blend, s, d, al);
    fill_rect_alpha(pixels, screen, x, y, w, h, 10, 10, 18, 210, blend);
    let ghost s1 = pixels@;
    let ghost f1 = top_bottom_alpha(x as int, y as int, h as int, (80u8, 75u8, 95u8), 160u8, (55u8, 55u8, 70u8), 140u8);
    let mut i: i32 = 0;
    while i < w
        invariant
            0 <= i <= w,
            box_origin_ok(x as int, y as int, w as int, h as int),
            screen.fits(pixels@.len() as int),
            pixels@.len() == n0,
            blend_fn_ok(*blend),
            sw == screen.w,
            sh == screen.h,
            bf == (|s: u8, d: u8, al: u8| blend_val(*blend, s, d, al)),
            f1 == top_bottom_alpha(x as int, y as int, h as int, (80u8, 75u8, 95u8), 160u8, (55u8, 55u8, 70u8), 140u8),
            pixels@ == pair_loop(s1, sw, sh, 0, i as int, f1, bf),
        decreases w - i,
    {
        set_pixel_alpha(pixels, screen, x + i, y, 80, 75, 95, 160, blend);
        set_pixel_alpha(pixels, screen, x + i, y + h - 1, 55, 55, 70, 140, blend);
        i = i + 1;
    }
    let ghost s2 = pixels@;
    let ghost f2 = left_right_alpha(x as int, y as int, w as int, (70u8, 70u8, 85u8), 140u8, (55u8, 55u8, 70u8), 140u8);
    let mut i: i32 = 0;
    while i < h
        invariant
            0 <= i <= h,
            box_origin_ok(x as int, y as int, w as int, h as int),
            screen.fits(pixels@.len() as int),
            pixels@.len() == n0,
            blend_fn_ok(*blend),
            sw == screen.w,
            sh == screen.h,
            bf == (|s: u8, d: u8, al: u8| blend_val(*blend, s, d, al)),
            f2 == left_right_alpha(x as int, y as int, w as int, (70u8, 70u8, 85u8), 140u8, (55u8, 55u8, 70u8), 140u8),
            pixels@ == pair_loop(s2, sw, sh, 0, i as int, f2, bf),
        decreases h - i,
    {
        set_pixel_alpha(pixels, screen, x, y + i, 70, 70, 85, 140, blend);
        set_pixel_alpha(pixels, screen, x + w - 1, y + i, 55, 55, 70, 140, blend);
        i = i + 1;
    }
    let ghost s3 = pixels@;
    let ghost f3 = panel_highlight(x as int, y as int);
    let mut i: i32 = 1;
    while i < w - 1
        invariant
            1 <= i,
            i <= w - 1 || i == 1,
            box_origin_ok(x as int, y as int, w as int, h as int),
            screen.fits(pixels@.len() as int),
            pixels@.len() == n0,
            blend_fn_ok(*blend),
            sw == screen.w,
            sh == screen.h,
            bf == (|s: u8, d: u8, al: u8| blend_val(*blend, s, d, al)),
            f3 == panel_highlight(x as int, y as int),
            pixels@ == op_loop(s3, sw, sh, 1, i as int, f3, bf),
        decreases w - i,
    {
        set_pixel_alpha(pixels, screen, x + i, y + 1, 100, 100, 120, 60, blend);
        i = i + 1;
    }
    proof {
        if w < 2 {
            assert(op_loop(s3, sw, sh, 1, w - 1, f3, bf) == s3);
        }
        assert(bf == (|s: u8, d: u8, al: u8| blend_val(*blend, s, d, al)));
    }
}


/// Side of the HUD buttons as drawn.
pub const HUD_DRAWN_BUTTON: i32 = 24;

/// The panel buttons: skills above inventory at the bottom right, each
/// framed as active when its panel is open.
pub open spec fn panel_buttons_drawn(
    s: Seq<u8>,
    sw: int,
    sh: int,
    inventory_open: bool,
    skills_open: bool,
    bf: spec_fn(u8, u8, u8) -> u8,
) -> Seq<u8> {
    let btn_x = sw - 32;
    let inv_btn_y = sh - 32;
    let skills_btn_y = inv_btn_y - 28;
    let s1 = button_frame_drawn(s, sw, sh, btn_x, skills_btn_y, 24, skills_open, bf);
    let s2 = paint_rects(s1, sw, sh, btn_x + 1, skills_btn_y + 1, 1, bar_chart_rects());
    let s3 = button_frame_drawn(s2, sw, sh, btn_x, inv_btn_y, 24, inventory_open, bf);
    paint_rects(s3, sw, sh, btn_x + 2, inv_btn_y + 1, 1, bag_rects())
}

/// The HUD buttons: the panel buttons, and the map button at the top
/// right, framed as active when the map is open.
pub open spec fn hud_buttons_drawn(
    s: Seq<u8>,
    sw: int,
    sh: int,
    inventory_open: bool,
    skills_open: bool,
    map_open: bool,
    bf: spec_fn(u8, u8, u8) -> u8,
) -> Seq<u8> {
    let s4 = panel_buttons_drawn(s, sw, sh, inventory_open, skills_open, bf);
    let s5 = button_frame_drawn(s4, sw, sh, sw - 32, 8, 24, map_open, bf);
    paint_rects(s5, sw, sh, sw - 31, 9, 1, map_icon_rects())
}


/// Draws the inventory and skills buttons.
pub fn render_panel_buttons<B: Fn(u8, u8, u8) -> u8>(pixels: &mut [u8], screen: &ScreenSize, hud: &HudState, blend: &B)
    requires
        screen.fits(old(pixels)@.len() as int),
        blend_fn_ok(*blend),
    ensures
        final(pixels)@.len() == old(pixels)@.len(),
        final(pixels)@ == panel_buttons_drawn(
            old(pixels)@,
            screen.w as int,
            screen.h as int,
            hud.inventory_open,
            hud.skills_open,
            |s: u8, d: u8, al: u8| blend_val(*blend, s, d, al),
        ),
{
    let w = screen.w as i32;
    let h = screen.h as i32;
    let btn_size: i32 = HUD_DRAWN_BUTTON;
    let btn_x = w - btn_size - 8;
    let inv_btn_y = h - btn_size - 8;
    let skills_btn_y = inv_btn_y - btn_size - 4;
    draw_button_frame(pixels, screen, btn_x, skills_btn_y, btn_size, hud.skills_open, blend);
    draw_bar_chart_icon(pixels, screen, btn_x + 1, skills_btn_y + 1);
    draw_button_frame(pixels, screen, btn_x, inv_btn_y, btn_size, hud.inventory_open, blend);
    draw_bag_icon(pixels, screen, btn_x + 2, inv_btn_y + 1);
}

/// Draws the HUD buttons.
pub fn render_hud_buttons<B: Fn(u8, u8, u8) -> u8>(pixels: &mut [u8], screen: &ScreenSize, hud: &HudState, blend: &B)
    requires
        screen.fits(old(pixels)@.len() as int),
        blend_fn_ok(*blend),
    ensures
        final(pixels)@.len() == old(pixels)@.len(),
        final(pixels)@ == hud_buttons_drawn(
            old(pixels)@,
            screen.w as int,
            screen.h as int,
            hud.inventory_open,
            hud.skills_open,
            hud.map_open,
            |s: u8, d: u8, al: u8| blend_val(*blend, s, d, al),
        ),
{
    let w = screen.w as i32;
    let btn_size: i32 = HUD_DRAWN_BUTTON;
    render_panel_buttons(pixels, screen, hud, blend);
    let map_btn_x = w - btn_size - 8;
    let map_btn_y: i32 = 8;
    draw_button_frame(pixels, screen, map_btn_x, map_btn_y, btn_size, hud.map_open, blend);
    draw_map_icon(pixels, screen, map_btn_x + 1, map_btn_y + 1);
}


/// The inventory panel, drawn left of the buttons at the bottom right: a
/// title, then one line per kind of item held ("logs  x3", "stone x1"), or
/// "empty" when there is none.
pub open spec fn inventory_panel_drawn(
    s: Seq<u8>,
    sw: int,
    sh: int,
    logs: u32,
    stone: u32,
    bf: spec_fn(u8, u8, u8) -> u8,
) -> Seq<u8> {
    let lines = if logs == 0 && stone == 0 {
        1int
    } else {
        (if logs > 0 { 1int } else { 0int }) + (if stone > 0 { 1int } else { 0int })
    };
    let panel_h = 14 + lines * 8;
    let px = sw - 90 - 24 - 16;
    let py = sh - panel_h - 8;
    let cx = px + 5;
    let s1 = panel_bg_drawn(s, sw, sh, px, py, 90, panel_h, bf);
    let s2 = text_drawn(s1, sw, sh, cx, py + 4, "inventory"@, (160, 155, 175), 255, bf);
    let y_logs = py + 13;
    let s3 = if logs > 0 {
        text_drawn(s2, sw, sh, cx, y_logs, "logs  x"@ + decimal(logs as nat), (200, 170, 80), 255, bf)
    } else {
        s2
    };
    let y_stone = if logs > 0 { y_logs + 8 } else { y_logs };
    let s4 = if stone > 0 {
        text_drawn(s3, sw, sh, cx, y_stone, "stone x"@ + decimal(stone as nat), (160, 160, 180), 255, bf)
    } else {
        s3
    };
    if logs == 0 && stone == 0 {
        text_drawn(s4, sw, sh, cx, y_stone, "empty"@, (70, 70, 85), 255, bf)
    } else {
        s4
    }
}

spec fn pow10(k: nat) -> nat
    decreases k,
{
    if k == 0 {
        1
    } else {
        10 * pow10((k - 1) as nat)
    }
}

proof fn lemma_decimal_len_bound(n: nat, k: nat)
    requires
        k >= 1,
        n < pow10(k),
    ensures
        1 <= decimal(n).len() <= k,
    decreases n,
{
    if n >= 10 {
        assert(k >= 2) by {
            if k == 1 {
                assert(pow10(1) == 10 * pow10(0));
            }
        }
        assert(pow10(k) == 10 * pow10((k - 1) as nat));
        lemma_decimal_len_bound(n / 10, (k - 1) as nat);
    }
}

/// A `u32` takes at most 10 decimal digits.
proof fn lemma_decimal_len(n: nat)
    requires
        n <= u32::MAX,
    ensures
        1 <= decimal(n).len() <= 10,
{
    assert(pow10(10) == 10_000_000_000) by {
        reveal_with_fuel(pow10, 11);
    }
    lemma_decimal_len_bound(n, 10);
}

/// The inventory panel names each kind of item beside its own count: with
/// logs and no stone its last line is "logs  x" and the number of logs, in
/// the logs colour, on the panel's first line; with stone and no logs it is
/// "stone x" and the number of stones in the stone colour; with both, the
/// stone line is written below the logs line.
pub proof fn lemma_inventory_lines(s: Seq<u8>, sw: int, sh: int, logs: u32, stone: u32, bf: spec_fn(u8, u8, u8) -> u8)
    ensures
        logs > 0 && stone == 0 ==> exists|p: Seq<u8>|
            inventory_panel_drawn(s, sw, sh, logs, stone, bf) == #[trigger] text_drawn(
                p,
                sw,
                sh,
                sw - 125,
                sh - 17,
                "logs  x"@ + decimal(logs as nat),
                (200, 170, 80),
                255,
                bf,
            ),
        logs == 0 && stone > 0 ==> exists|p: Seq<u8>|
            inventory_panel_drawn(s, sw, sh, logs, stone, bf) == #[trigger] text_drawn(
                p,
                sw,
                sh,
                sw - 125,
                sh - 17,
                "stone x"@ + decimal(stone as nat),
                (160, 160, 180),
                255,
                bf,
            ),
        logs > 0 && stone > 0 ==> exists|p: Seq<u8>|
            inventory_panel_drawn(s, sw, sh, logs, stone, bf) == text_drawn(
                #[trigger] text_drawn(p, sw, sh, sw - 125, sh - 25, "logs  x"@ + decimal(logs as nat), (200, 170, 80), 255, bf),
                sw,
                sh,
                sw - 125,
                sh - 17,
                "stone x"@ + decimal(stone as nat),
                (160, 160, 180),
                255,
                bf,
            ),
{
    let lines = if logs == 0 && stone == 0 {
        1int
    } else {
        (if logs > 0 { 1int } else { 0int }) + (if stone > 0 { 1int } else { 0int })
    };
    let panel_h = 14 + lines * 8;
    let px = sw - 90 - 24 - 16;
    let py = sh - panel_h - 8;
    let cx = px + 5;
    let s1 = panel_bg_drawn(s, sw, sh, px, py, 90, panel_h, bf);
    let s2 = text_drawn(s1, sw, sh, cx, py + 4, "inventory"@, (160, 155, 175), 255, bf);
    if logs > 0 && stone == 0 {
        assert(inventory_panel_drawn(s, sw, sh, logs, stone, bf) == text_drawn(
            s2,
            sw,
            sh,
            sw - 125,
            sh - 17,
            "logs  x"@ + decimal(logs as nat),
            (200, 170, 80),
            255,
            bf,
        ));
    }
    if logs == 0 && stone > 0 {
        assert(inventory_panel_drawn(s, sw, sh, logs, stone, bf) == text_drawn(
            s2,
            sw,
            sh,
            sw - 125,
            sh - 17,
            "stone x"@ + decimal(stone as nat),
            (160, 160, 180),
            255,
            bf,
        ));
    }
    if logs > 0 && stone > 0 {
        assert(inventory_panel_drawn(s, sw, sh, logs, stone, bf) == text_drawn(
            text_drawn(s2, sw, sh, sw - 125, sh - 25, "logs  x"@ + decimal(logs as nat), (200, 170, 80), 255, bf),
            sw,
            sh,
            sw - 125,
            sh - 17,
            "stone x"@ + decimal(stone as nat),
            (160, 160, 180),
            255,
            bf,
        ));
    }
}

/// The text "XP/NEXT xp".
pub open spec fn xp_of_next_line(xp: nat, next: nat) -> Seq<char> {
    decimal(xp) + seq!['/'] + decimal(next) + seq![' ', 'x', 'p']
}

/// The skills panel's last line is the experience gained over the
/// experience at which the next level is reached, "XP/NEXT xp", at the
/// panel's third line; for a skill whose level matches its experience the
/// second number is the larger.
pub proof fn lemma_skills_xp_line(s: Seq<u8>, sw: int, sh: int, xp: u32, level: u32, bf: spec_fn(u8, u8, u8) -> u8)
    ensures
        exists|p: Seq<u8>|
            skills_panel_drawn(s, sw, sh, xp, level, bf) == #[trigger] text_drawn(
                p,
                sw,
                sh,
                sw - 155,
                sh - 42,
                xp_of_next_line(xp as nat, xp_threshold((level + 1) as nat)),
                (100, 100, 120),
                255,
                bf,
            ),
        crate::skills::skill_consistent(xp as nat, level as nat) ==> xp < xp_threshold((level + 1) as nat),
{
    reveal_strlit("/");
    reveal_strlit(" xp");
    assert("/"@ =~= seq!['/']);
    assert(" xp"@ =~= seq![' ', 'x', 'p']);
    let px = sw - 120 - 24 - 16;
    let py = sh - 24 - 8 - 24 - 4;
    let cx = px + 5;
    let base = xp_threshold(level as nat);
    let next = xp_threshold((level + 1) as nat);
    let fill_w = bar_fill(xp - base, next - base, 108);
    let s1 = panel_bg_drawn(s, sw, sh, px, py, 120, 30, bf);
    let s2 = text_drawn(s1, sw, sh, cx, py + 4, "woodcutting lv "@ + decimal(level as nat), (180, 180, 200), 255, bf);
    let s3 = filled(s2, sw, sh, cx, py + 12, 108, 4, (30, 30, 40));
    let s4 = if fill_w > 0 {
        filled(filled(s3, sw, sh, cx, py + 12, fill_w, 4, (50, 160, 50)), sw, sh, cx, py + 12, fill_w, 1, (70, 200, 70))
    } else {
        s3
    };
    assert(decimal(xp as nat) + "/"@ + decimal(next) + " xp"@ =~= decimal(xp as nat) + seq!['/'] + decimal(next)
        + seq![' ', 'x', 'p']);
    assert(skills_panel_drawn(s, sw, sh, xp, level, bf) == text_drawn(
        s4,
        sw,
        sh,
        sw - 155,
        sh - 42,
        xp_of_next_line(xp as nat, next),
        (100, 100, 120),
        255,
        bf,
    ));
}

/// Draws the inventory panel.
pub fn render_inventory_panel<B: Fn(u8, u8, u8) -> u8>(
    pixels: &mut [u8],
    screen: &ScreenSize,
    inventory: &Inventory,
    blend: &B,
)
    requires
        screen.fits(old(pixels)@.len() as int),
        blend_fn_ok(*blend),
    ensures
        final(pixels)@.len() == old(pixels)@.len(),
        final(pixels)@ == inventory_panel_drawn(
            old(pixels)@,
            screen.w as int,
            screen.h as int,
            count_in(inventory@, ItemId::Logs),
            count_in(inventory@, ItemId::Stone),
            |s: u8, d: u8, al: u8| blend_val(*blend, s, d, al),
        ),
{
    let sw = screen.w as i32;
    let sh = screen.h as i32;
    let logs_count = inventory.count(ItemId::Logs);
    let stone_count = inventory.count(ItemId::Stone);
    let mut item_lines: i32 = 0;
    if logs_count > 0 {
        item_lines = item_lines + 1;
    }
    if stone_count > 0 {
        item_lines = item_lines + 1;
    }
    if item_lines == 0 {
        item_lines = 1;
    }
    let panel_w: i32 = 90;
    let panel_h: i32 = 14 + item_lines * 8;
    let btn_size: i32 = HUD_DRAWN_BUTTON;
    let px = sw - panel_w - btn_size - 16;
    let py = sh - panel_h - 8;
    draw_panel_bg(pixels, screen, px, py, panel_w, panel_h, blend);
    let cx = px + 5;
    let mut cy = py + 4;
    proof {
        reveal_strlit("inventory");
        reveal_strlit("logs  x");
        reveal_strlit("stone x");
        reveal_strlit("empty");
        lemma_decimal_len(logs_count as nat);
        lemma_decimal_len(stone_count as nat);
    }
    draw_tiny_string(pixels, screen, cx, cy, "inventory", 160, 155, 175, 255, blend);
    cy = cy + 9;
    let mut has_items = false;
    if logs_count > 0 {
        let mut text = str_chars("logs  x");
        push_decimal(&mut text, logs_count);
        draw_tiny_chars(pixels, screen, cx, cy, text.as_slice(), 200, 170, 80, 255, blend);
        cy = cy + 8;
        has_items = true;
    }
    if stone_count > 0 {
        let mut text = str_chars("stone x");
        push_decimal(&mut text, stone_count);
        draw_tiny_chars(pixels, screen, cx, cy, text.as_slice(), 160, 160, 180, 255, blend);
        has_items = true;
    }
    if !has_items {
        draw_tiny_string(pixels, screen, cx, cy, "empty", 70, 70, 85, 255, blend);
    }
}

/// How much of a bar `bar_w` wide is filled for `p` out of `q`: the whole
/// bar at or past the end, none for an empty range.
pub open spec fn bar_fill(p: int, q: int, bar_w: int) -> int {
    if q <= 0 {
        0
    } else if (bar_w * p) / q >= bar_w {
        bar_w
    } else {
        (bar_w * p) / q
    }
}

/// The skills panel, drawn left of the skills button: "woodcutting lv N",
/// a progress bar for the experience gained in the current level, and
/// "XP/NEXT xp".
pub open spec fn skills_panel_drawn(
    s: Seq<u8>,
    sw: int,
    sh: int,
    xp: u32,
    level: u32,
    bf: spec_fn(u8, u8, u8) -> u8,
) -> Seq<u8> {
    let px = sw - 120 - 24 - 16;
    let py = sh - 24 - 8 - 24 - 4;
    let cx = px + 5;
    let base = xp_threshold(level as nat);
    let next = xp_threshold((level + 1) as nat);
    let fill_w = bar_fill(xp - base, next - base, 108);
    let s1 = panel_bg_drawn(s, sw, sh, px, py, 120, 30, bf);
    let s2 = text_drawn(s1, sw, sh, cx, py + 4, "woodcutting lv "@ + decimal(level as nat), (180, 180, 200), 255, bf);
    let s3 = filled(s2, sw, sh, cx, py + 12, 108, 4, (30, 30, 40));
    let s4 = if fill_w > 0 {
        filled(filled(s3, sw, sh, cx, py + 12, fill_w, 4, (50, 160, 50)), sw, sh, cx, py + 12, fill_w, 1, (70, 200, 70))
    } else {
        s3
    };
    text_drawn(s4, sw, sh, cx, py + 18, decimal(xp as nat) + "/"@ + decimal(next) + " xp"@, (100, 100, 120), 255, bf)
}

/// Draws the skills panel.
pub fn render_skills_panel<B: Fn(u8, u8, u8) -> u8>(
    pixels: &mut [u8],
    screen: &ScreenSize,
    wc: &WoodcuttingSkill,
    blend: &B,
)
    requires
        screen.fits(old(pixels)@.len() as int),
        blend_fn_ok(*blend),
        wc.level < u32::MAX,
        xp_threshold((wc.level + 1) as nat) <= u32::MAX,
        xp_threshold(wc.level as nat) <= wc.xp,
    ensures
        final(pixels)@.len() == old(pixels)@.len(),
        final(pixels)@ == skills_panel_drawn(
            old(pixels)@,
            screen.w as int,
            screen.h as int,
            wc.xp,
            wc.level,
            |s: u8, d: u8, al: u8| blend_val(*blend, s, d, al),
        ),
{
    let sw = screen.w as i32;
    let sh = screen.h as i32;
    let panel_w: i32 = 120;
    let panel_h: i32 = 30;
    let btn_size: i32 = HUD_DRAWN_BUTTON;
    let px = sw - panel_w - btn_size - 16;
    let inv_btn_y = sh - btn_size - 8;
    let skills_btn_y = inv_btn_y - btn_size - 4;
    let py = skills_btn_y;
    draw_panel_bg(pixels, screen, px, py, panel_w, panel_h, blend);
    let cx = px + 5;
    let mut cy = py + 4;
    proof {
        reveal_strlit("woodcutting lv ");
        reveal_strlit("/");
        reveal_strlit(" xp");
        lemma_decimal_len(wc.level as nat);
        lemma_decimal_len(wc.xp as nat);
        lemma_decimal_len(xp_threshold((wc.level + 1) as nat));
        crate::skills::lemma_xp_threshold_monotonic(wc.level as nat, (wc.level + 1) as nat);
    }
    let mut title = str_chars("woodcutting lv ");
    push_decimal(&mut title, wc.level);
    draw_tiny_chars(pixels, screen, cx, cy, title.as_slice(), 180, 180, 200, 255, blend);
    cy = cy + 8;
    let bar_w: i32 = panel_w - 12;
    let bar_h: i32 = 4;
    fill_rect(pixels, screen, cx, cy, bar_w, bar_h, 30, 30, 40);
    let xp_base = WoodcuttingSkill::xp_for_level(wc.level);
    let xp_next = wc.xp_for_next_level();
    let xp_range = xp_next - xp_base;
    let fill_w: i32 = if xp_range > 0 {
        let scaled: u64 = (bar_w as u64) * ((wc.xp - xp_base) as u64) / (xp_range as u64);
        if scaled >= bar_w as u64 {
            bar_w
        } else {
            scaled as i32
        }
    } else {
        0
    };
    if fill_w > 0 {
        fill_rect(pixels, screen, cx, cy, fill_w, bar_h, 50, 160, 50);
        fill_rect(pixels, screen, cx, cy, fill_w, 1, 70, 200, 70);
    }
    cy = cy + bar_h + 2;
    let mut xp_text: Vec<char> = Vec::new();
    push_decimal(&mut xp_text, wc.xp);
    xp_text.push('/');
    push_decimal(&mut xp_text, xp_next);
    xp_text.push(' ');
    xp_text.push('x');
    xp_text.push('p');
    proof {
        assert(xp_text@ =~= decimal(wc.xp as nat) + "/"@ + decimal(xp_threshold((wc.level + 1) as nat)) + " xp"@);
    }
    draw_tiny_chars(pixels, screen, cx, cy, xp_text.as_slice(), 100, 100, 120, 255, blend);
}


/// Division rounding towards zero, as integer division does.
pub open spec fn trunc_div(a: int, b: int) -> int {
    if a >= 0 {
        a / b
    } else {
        -((-a) / b)
    }
}

fn trunc_div_i32(a: i32, b: i32) -> (r: i32)
    requires
        b > 0,
        a > i32::MIN,
    ensures
        r == trunc_div(a as int, b as int),
{
    if a >= 0 {
        a / b
    } else {
        -((-a) / b)
    }
}

/// A camera placement, in screen pixels, and a whole-number zoom that keep
/// the world's screen coordinates well inside the range of `i32`.
pub open spec fn view_ok(cam_px: int, cam_py: int, zi: int) -> bool {
    &&& -0x1000_0000 <= cam_px <= 0x1000_0000
    &&& -0x1000_0000 <= cam_py <= 0x1000_0000
    &&& 1 <= zi <= 64
}

/// The sprite drawn for an object: a tree or rock while alive, a stump or
/// rubble once felled.
pub open spec fn object_sprite(o: WorldObject) -> Seq<SpriteRect> {
    if o.alive {
        if o.kind == ObjectKind::Tree {
            tree_rects()
        } else {
            rock_rects()
        }
    } else {
        if o.kind == ObjectKind::Tree {
            stump_rects()
        } else {
            rubble_rects()
        }
    }
}

/// The frame `s` with the objects of `objs` drawn in order: those standing
/// on a row at or above the hero's (`behind`) or below it (not `behind`),
/// and near enough to the screen (at most `32 * zi` pixels before its left
/// or top edge and `far` past its right or bottom edge), as sprites
/// magnified `zi` times.
pub open spec fn objects_layer_drawn(
    s: Seq<u8>,
    sw: int,
    sh: int,
    objs: Seq<WorldObject>,
    cam_px: int,
    cam_py: int,
    zi: int,
    far: int,
    hero_ty: int,
    behind: bool,
) -> Seq<u8>
    decreases objs.len(),
{
    if objs.len() == 0 {
        s
    } else {
        let prev = objects_layer_drawn(s, sw, sh, objs.drop_last(), cam_px, cam_py, zi, far, hero_ty, behind);
        let o = objs.last();
        let ts = 16 * zi;
        let margin = 32 * zi;
        let sx = o.tile_x * ts - cam_px;
        let sy = o.tile_y * ts - cam_py;
        if (o.tile_y <= hero_ty) != behind || sx < -margin || sx > sw + far || sy < -margin || sy > sh
            + far {
            prev
        } else {
            paint_rects(prev, sw, sh, sx, sy, zi, object_sprite(o))
        }
    }
}

/// Drawing one more object on the layer paints, at the object's place, the
/// sprite of what stands there now: a standing tree while the tree is alive
/// and a stump once it has been felled, a rock while it stands and rubble
/// once broken (the stump and the tree differ from their first rectangle
/// on).
pub proof fn lemma_object_drawn_by_state(
    s: Seq<u8>,
    sw: int,
    sh: int,
    objs: Seq<WorldObject>,
    o: WorldObject,
    cam_px: int,
    cam_py: int,
    zi: int,
    far: int,
    hero_ty: int,
    behind: bool,
)
    requires
        (o.tile_y <= hero_ty) == behind,
        -32 * zi <= o.tile_x * (16 * zi) - cam_px <= sw + far,
        -32 * zi <= o.tile_y * (16 * zi) - cam_py <= sh + far,
    ensures
        objects_layer_drawn(s, sw, sh, objs.push(o), cam_px, cam_py, zi, far, hero_ty, behind) == paint_rects(
            objects_layer_drawn(s, sw, sh, objs, cam_px, cam_py, zi, far, hero_ty, behind),
            sw,
            sh,
            o.tile_x * (16 * zi) - cam_px,
            o.tile_y * (16 * zi) - cam_py,
            zi,
            if o.kind == ObjectKind::Tree {
                if o.alive {
                    seq![(6, 8, 4, 8, 100u8, 70u8, 35u8), (2, 2, 12, 3, 20u8, 100u8, 25u8), (1, -2, 14, 5, 25u8, 115u8, 30u8), (3, -5, 10, 4, 30u8, 130u8, 35u8), (4, -3, 3, 2, 45u8, 150u8, 50u8), (8, 0, 2, 2, 40u8, 140u8, 45u8)]
                } else {
                    seq![(5, 10, 6, 4, 90u8, 60u8, 30u8), (6, 9, 4, 2, 110u8, 75u8, 40u8), (7, 10, 1, 1, 70u8, 50u8, 25u8), (8, 11, 1, 1, 70u8, 50u8, 25u8)]
                }
            } else {
                if o.alive {
                    seq![(3, 6, 10, 7, 130u8, 130u8, 135u8), (4, 4, 8, 3, 140u8, 140u8, 145u8), (5, 5, 3, 2, 160u8, 160u8, 168u8), (4, 12, 9, 2, 90u8, 90u8, 95u8)]
                } else {
                    seq![(5, 11, 3, 2, 100u8, 100u8, 105u8), (9, 12, 2, 2, 90u8, 90u8, 95u8), (7, 12, 1, 1, 110u8, 110u8, 115u8)]
                }
            },
        ),
{
    let all = objs.push(o);
    assert(all.drop_last() =~= objs);
    assert(all.last() == o);
}

/// Draws the map's trees and rocks that stand behind the hero's row (or in
/// front of it), for the camera at `(cam_px, cam_py)` screen pixels and the
/// zoom `zi`, skipping those farther than `far` pixels past the right or
/// bottom edge of the screen.
pub fn render_objects_layer(
    pixels: &mut [u8],
    screen: &ScreenSize,
    map: &WorldMap,
    cam_px: i32,
    cam_py: i32,
    zi: i32,
    far: i32,
    hero_ty: usize,
    behind: bool,
)
    requires
        screen.fits(old(pixels)@.len() as int),
        screen.w + far + 32 * zi <= i32::MAX,
        screen.h + far + 32 * zi <= i32::MAX,
        map.objects_in_map(),
        view_ok(cam_px as int, cam_py as int, zi as int),
        0 <= far <= 0x1000_0000,
    ensures
        final(pixels)@.len() == old(pixels)@.len(),
        final(pixels)@ == objects_layer_drawn(
            old(pixels)@,
            screen.w as int,
            screen.h as int,
            map.objects@,
            cam_px as int,
            cam_py as int,
            zi as int,
            far as int,
            hero_ty as int,
            behind,
        ),
{
    let ts = TILE_SIZE as i32 * zi;
    let w = screen.w as i32;
    let h = screen.h as i32;
    let margin = 32 * zi;
    let ghost s0 = pixels@;
    let ghost sw = screen.w as int;
    let ghost sh = screen.h as int;
    let mut i: usize = 0;
    while i < map.objects.len()
        invariant
            i <= map.objects@.len(),
            screen.fits(pixels@.len() as int),
            pixels@.len() == s0.len(),
            screen.w + far + 32 * zi <= i32::MAX,
            screen.h + far + 32 * zi <= i32::MAX,
            map.objects_in_map(),
            view_ok(cam_px as int, cam_py as int, zi as int),
            ts == 16 * zi,
            margin == 32 * zi,
            0 <= far <= 0x1000_0000,
            w == sw,
            h == sh,
            sw == screen.w,
            sh == screen.h,
            pixels@ == objects_layer_drawn(
                s0,
                sw,
                sh,
                map.objects@.take(i as int),
                cam_px as int,
                cam_py as int,
                zi as int,
                far as int,
                hero_ty as int,
                behind,
            ),
        decreases map.objects@.len() - i,
    {
        let obj = map.objects[i];
        proof {
            assert(map.objects@.take(i + 1).drop_last() =~= map.objects@.take(i as int));
            assert(map.objects@.take(i + 1).last() == obj);
            assert(obj.tile_x < MAP_W && obj.tile_y < MAP_H);
            assert(0 <= obj.tile_x * ts <= 200 * 1024) by (nonlinear_arith)
                requires
                    obj.tile_x < 200,
                    1 <= ts <= 1024,
            ;
            assert(0 <= obj.tile_y * ts <= 200 * 1024) by (nonlinear_arith)
                requires
                    obj.tile_y < 200,
                    1 <= ts <= 1024,
            ;
        }
        let is_behind = obj.tile_y <= hero_ty;
        if is_behind == behind {
            let sx = obj.tile_x as i32 * ts - cam_px;
            let sy = obj.tile_y as i32 * ts - cam_py;
            if !(sx < -margin || sx > w + far || sy < -margin || sy > h + far) {
                if obj.alive {
                    match obj.kind {
                        ObjectKind::Tree => draw_tree(pixels, screen, sx, sy, zi),
                        ObjectKind::Rock => draw_rock(pixels, screen, sx, sy, zi),
                    }
                } else {
                    match obj.kind {
                        ObjectKind::Tree => draw_stump(pixels, screen, sx, sy, zi),
                        ObjectKind::Rock => draw_rock_rubble(pixels, screen, sx, sy, zi),
                    }
                }
            }
        }
        i = i + 1;
    }
    proof {
        assert(map.objects@.take(map.objects@.len() as int) =~= map.objects@);
    }
}

/// The colour a tile is drawn in: its terrain's colour, water shimmering by
/// `wave` (added to blue, half of it to green, kept within 0 to 255).
pub open spec fn tile_draw_color(t: TileType, wave: int) -> (u8, u8, u8) {
    let (r, g, b) = tile_color(t);
    if t == TileType::Water {
        (r, clamp_byte(g + trunc_div(wave, 2)), clamp_byte(b + wave))
    } else {
        (r, g, b)
    }
}

pub open spec fn clamp_byte(v: int) -> u8 {
    if v < 0 {
        0
    } else if v > 255 {
        255
    } else {
        v as u8
    }
}

/// The terrain a map shows at `(x, y)`: its tile inside the map, water outside.
pub open spec fn map_tile_or_water(map: &WorldMap, x: int, y: int) -> TileType {
    if 0 <= x < MAP_W && 0 <= y < MAP_H {
        map.tile(x, y)
    } else {
        TileType::Water
    }
}

/// The frame `s` with the tiles of row `ty` from column `stx` to `x_end - 1` drawn.
pub open spec fn tiles_row_drawn(
    s: Seq<u8>,
    sw: int,
    sh: int,
    map: &WorldMap,
    cam_px: int,
    cam_py: int,
    ts: int,
    waves: Seq<i32>,
    ty: int,
    stx: int,
    x_end: int,
) -> Seq<u8>
    decreases x_end - stx,
{
    if x_end <= stx {
        s
    } else {
        let prev = tiles_row_drawn(s, sw, sh, map, cam_px, cam_py, ts, waves, ty, stx, x_end - 1);
        let tx = x_end - 1;
        filled(
            prev,
            sw,
            sh,
            tx * ts - cam_px,
            ty * ts - cam_py,
            ts,
            ts,
            tile_draw_color(map_tile_or_water(map, tx, ty), waves[tx] as int),
        )
    }
}

/// The frame `s` with the tiles of rows `sty` to `y_end - 1`, columns `stx`
/// to `etx - 1`, drawn row by row.
pub open spec fn tiles_drawn(
    s: Seq<u8>,
    sw: int,
    sh: int,
    map: &WorldMap,
    cam_px: int,
    cam_py: int,
    ts: int,
    waves: Seq<i32>,
    sty: int,
    y_end: int,
    stx: int,
    etx: int,
) -> Seq<u8>
    decreases y_end - sty,
{
    if y_end <= sty {
        s
    } else {
        tiles_row_drawn(
            tiles_drawn(s, sw, sh, map, cam_px, cam_py, ts, waves, sty, y_end - 1, stx, etx),
            sw,
            sh,
            map,
            cam_px,
            cam_py,
            ts,
            waves,
            y_end - 1,
            stx,
            etx,
        )
    }
}

/// The first and one-past-last tile indices that show on a screen `len`
/// pixels long with the camera at `cam` and tiles `ts` pixels wide (one
/// spare tile past the end), clamped to the map's `size`.
pub open spec fn visible_start(cam: int, ts: int) -> int {
    if trunc_div(cam, ts) > 0 {
        trunc_div(cam, ts)
    } else {
        0
    }
}

pub open spec fn visible_end(cam: int, len: int, ts: int, size: int) -> int {
    if trunc_div(cam + len, ts) + 2 < size {
        trunc_div(cam + len, ts) + 2
    } else {
        size
    }
}

/// The colour a tile is drawn in: its terrain's colour, with water shaded
/// by the wave of its column.
fn shaded_tile_color(map: &WorldMap, tx: usize, ty: usize, waves: &[i32]) -> (c: (u8, u8, u8))
    requires
        map.wf(),
        tx < MAP_W,
        ty < MAP_H,
        waves@.len() == MAP_W,
        forall|i: int| 0 <= i < MAP_W ==> -0x1_0000 <= #[trigger] waves@[i] <= 0x1_0000,
    ensures
        c == tile_draw_color(map_tile_or_water(map, tx as int, ty as int), waves@[tx as int] as int),
{
    let tile = map.tile_at(tx, ty);
    let (r, g0, b0) = tile.base_color();
    let mut g = g0;
    let mut b = b0;
    if tile == TileType::Water {
        let wave = waves[tx];
        let bi = b0 as i32 + wave;
        b = if bi < 0 {
            0
        } else if bi > 255 {
            255
        } else {
            bi as u8
        };
        let gi = g0 as i32 + trunc_div_i32(wave, 2);
        g = if gi < 0 {
            0
        } else if gi > 255 {
            255
        } else {
            gi as u8
        };
    }
    (r, g, b)
}

/// Draws the visible tiles of the map for the camera at `(cam_px, cam_py)`
/// screen pixels and zoom `zi`; water tiles of column `tx` shimmer by `waves[tx]`.
pub fn render_tiles(
    pixels: &mut [u8],
    screen: &ScreenSize,
    map: &WorldMap,
    cam_px: i32,
    cam_py: i32,
    zi: i32,
    waves: &[i32],
)
    requires
        screen.fits(old(pixels)@.len() as int),
        cam_px + screen.w <= i32::MAX,
        cam_py + screen.h <= i32::MAX,
        map.wf(),
        view_ok(cam_px as int, cam_py as int, zi as int),
        cam_px + screen.w >= 0,
        cam_py + screen.h >= 0,
        waves@.len() == MAP_W,
        forall|i: int| 0 <= i < MAP_W ==> -0x1_0000 <= #[trigger] waves@[i] <= 0x1_0000,
    ensures
        final(pixels)@.len() == old(pixels)@.len(),
        final(pixels)@ == tiles_drawn(
            old(pixels)@,
            screen.w as int,
            screen.h as int,
            map,
            cam_px as int,
            cam_py as int,
            16 * zi,
            waves@,
            visible_start(cam_py as int, 16 * zi),
            visible_end(cam_py as int, screen.h as int, 16 * zi, MAP_H as int),
            visible_start(cam_px as int, 16 * zi),
            visible_end(cam_px as int, screen.w as int, 16 * zi, MAP_W as int),
        ),
{
    let ts = TILE_SIZE as i32 * zi;
    let w = screen.w as i32;
    let h = screen.h as i32;
    let qx = trunc_div_i32(cam_px, ts);
    let qy = trunc_div_i32(cam_py, ts);
    let stx: usize = if qx > 0 {
        qx as usize
    } else {
        0
    };
    let sty: usize = if qy > 0 {
        qy as usize
    } else {
        0
    };
    let ex = trunc_div_i32(cam_px + w, ts) as usize + 2;
    let ey = trunc_div_i32(cam_py + h, ts) as usize + 2;
    let etx = if ex < MAP_W {
        ex
    } else {
        MAP_W
    };
    let ety = if ey < MAP_H {
        ey
    } else {
        MAP_H
    };
    let ghost s0 = pixels@;
    let ghost sw = screen.w as int;
    let ghost sh = screen.h as int;
    let mut ty: usize = sty;
    while ty < ety
        invariant
            sty <= ty,
            ty <= ety || ty == sty,
            ety <= MAP_H,
            etx <= MAP_W,
            screen.fits(pixels@.len() as int),
            pixels@.len() == s0.len(),
            cam_px + screen.w <= i32::MAX,
            cam_py + screen.h <= i32::MAX,
            map.wf(),
            view_ok(cam_px as int, cam_py as int, zi as int),
            ts == 16 * zi,
            sw == screen.w,
            sh == screen.h,
            waves@.len() == MAP_W,
            forall|i: int| 0 <= i < MAP_W ==> -0x1_0000 <= #[trigger] waves@[i] <= 0x1_0000,
            pixels@ == tiles_drawn(s0, sw, sh, map, cam_px as int, cam_py as int, ts as int, waves@, sty as int, ty as int, stx as int, etx as int),
        decreases ety - ty,
    {
        let ghost row_start = pixels@;
        let mut tx: usize = stx;
        while tx < etx
            invariant
                stx <= tx,
                tx <= etx || tx == stx,
                ty < ety,
                ety <= MAP_H,
                etx <= MAP_W,
                screen.fits(pixels@.len() as int),
                pixels@.len() == s0.len(),
                cam_px + screen.w <= i32::MAX,
                cam_py + screen.h <= i32::MAX,
                map.wf(),
                view_ok(cam_px as int, cam_py as int, zi as int),
                ts == 16 * zi,
                sw == screen.w,
                sh == screen.h,
                waves@.len() == MAP_W,
                forall|i: int| 0 <= i < MAP_W ==> -0x1_0000 <= #[trigger] waves@[i] <= 0x1_0000,
                pixels@ == tiles_row_drawn(row_start, sw, sh, map, cam_px as int, cam_py as int, ts as int, waves@, ty as int, stx as int, tx as int),
            decreases etx - tx,
        {
            let (r, g, b) = shaded_tile_color(map, tx, ty, waves);
            proof {
                assert(0 <= tx * ts <= 200 * 1024) by (nonlinear_arith)
                    requires
                        tx < 200,
                        1 <= ts <= 1024,
                ;
                assert(0 <= ty * ts <= 200 * 1024) by (nonlinear_arith)
                    requires
                        ty < 200,
                        1 <= ts <= 1024,
                ;
            }
            let sx = tx as i32 * ts - cam_px;
            let sy = ty as i32 * ts - cam_py;
            fill_rect(pixels, screen, sx, sy, ts, ts, r, g, b);
            tx = tx + 1;
        }
        ty = ty + 1;
    }
}


/// A channel darkened by 8, stopping at 0.
pub open spec fn darker(v: u8) -> u8 {
    if v >= 8 {
        (v - 8) as u8
    } else {
        0
    }
}

/// The colour of a tile's outline: its own colour darkened by 8 on each channel.
pub open spec fn edge_color(c: (u8, u8, u8)) -> (u8, u8, u8) {
    (darker(c.0), darker(c.1), darker(c.2))
}

/// Step `i` of a tile's outline: pixel `i` of its top edge and of its left edge.
pub open spec fn tile_outline(sx: int, sy: int, col: (u8, u8, u8)) -> spec_fn(int) -> (DrawOp, DrawOp) {
    |i: int| (DrawOp::Pixel(sx + i, sy, col), DrawOp::Pixel(sx, sy + i, col))
}

/// The frame `s` with a 16-pixel tile of colour `col` at `(sx, sy)` and its
/// darker top and left outline.
pub open spec fn outlined_tile_drawn(s: Seq<u8>, sw: int, sh: int, sx: int, sy: int, col: (u8, u8, u8)) -> Seq<u8> {
    pair_loop(
        filled(s, sw, sh, sx, sy, 16, 16, col),
        sw,
        sh,
        0,
        16,
        tile_outline(sx, sy, edge_color(col)),
        |a: u8, b: u8, c: u8| a,
    )
}

/// The frame `s` with the outlined tiles of row `ty` from column `stx` to
/// `x_end - 1` drawn, for the camera at `(cx, cy)`.
pub open spec fn outlined_row_drawn(
    s: Seq<u8>,
    sw: int,
    sh: int,
    map: &WorldMap,
    cx: int,
    cy: int,
    waves: Seq<i32>,
    ty: int,
    stx: int,
    x_end: int,
) -> Seq<u8>
    decreases x_end - stx,
{
    if x_end <= stx {
        s
    } else {
        let tx = x_end - 1;
        outlined_tile_drawn(
            outlined_row_drawn(s, sw, sh, map, cx, cy, waves, ty, stx, x_end - 1),
            sw,
            sh,
            tx * 16 - cx,
            ty * 16 - cy,
            tile_draw_color(map_tile_or_water(map, tx, ty), waves[tx] as int),
        )
    }
}

/// The frame `s` with the outlined tiles of rows `sty` to `y_end - 1`,
/// columns `stx` to `etx - 1`, drawn row by row.
pub open spec fn outlined_tiles_drawn(
    s: Seq<u8>,
    sw: int,
    sh: int,
    map: &WorldMap,
    cx: int,
    cy: int,
    waves: Seq<i32>,
    sty: int,
    y_end: int,
    stx: int,
    etx: int,
) -> Seq<u8>
    decreases y_end - sty,
{
    if y_end <= sty {
        s
    } else {
        outlined_row_drawn(
            outlined_tiles_drawn(s, sw, sh, map, cx, cy, waves, sty, y_end - 1, stx, etx),
            sw,
            sh,
            map,
            cx,
            cy,
            waves,
            y_end - 1,
            stx,
            etx,
        )
    }
}

/// One past the last tile index that shows, with no spare tile: the tile
/// under the far edge, clamped to the map's `size`.
pub open spec fn visible_end_exact(cam: int, len: int, ts: int, size: int) -> int {
    if trunc_div(cam + len, ts) + 1 < size {
        trunc_div(cam + len, ts) + 1
    } else {
        size
    }
}

/// Byte `c` of pixel `(px, py)` after the first `n` steps of a tile's
/// outline: the outline's colour on the top edge or the left edge, the
/// byte before elsewhere.
proof fn lemma_outline_pixel(
    s: Seq<u8>,
    sw: int,
    sh: int,
    sx: int,
    sy: int,
    e: (u8, u8, u8),
    n: int,
    px: int,
    py: int,
    c: int,
)
    requires
        sw > 0,
        s.len() >= sw * sh * 4,
        0 <= px < sw,
        0 <= py < sh,
        0 <= c < 4,
    ensures
        pair_loop(s, sw, sh, 0, n, tile_outline(sx, sy, e), |a: u8, b: u8, c: u8| a).len() == s.len(),
        pair_loop(s, sw, sh, 0, n, tile_outline(sx, sy, e), |a: u8, b: u8, c: u8| a)[(py * sw + px) * 4 + c] == if (
        py == sy && sx <= px < sx + n) || (px == sx && sy <= py < sy + n) {
            chan(e, c)
        } else {
            s[(py * sw + px) * 4 + c]
        },
    decreases n,
{
    lemma_encode(sw, px, py, c);
    lemma_pixel_offset_bound(sw, sh, px, py);
    if n > 0 {
        lemma_outline_pixel(s, sw, sh, sx, sy, e, n - 1, px, py, c);
    }
}

/// Byte `c` of pixel `(px, py)` after an outlined tile is drawn at
/// `(sx, sy)`: the outline's colour on the tile's top row or left column,
/// the tile's colour elsewhere on the tile, the byte before off it.
proof fn lemma_outlined_tile_pixel(
    s: Seq<u8>,
    sw: int,
    sh: int,
    sx: int,
    sy: int,
    col: (u8, u8, u8),
    px: int,
    py: int,
    c: int,
)
    requires
        sw > 0,
        s.len() >= sw * sh * 4,
        0 <= px < sw,
        0 <= py < sh,
        0 <= c < 4,
    ensures
        outlined_tile_drawn(s, sw, sh, sx, sy, col).len() == s.len(),
        outlined_tile_drawn(s, sw, sh, sx, sy, col)[(py * sw + px) * 4 + c] == if sx <= px < sx + 16 && sy <= py
            < sy + 16 {
            if px == sx || py == sy {
                chan(edge_color(col), c)
            } else {
                chan(col, c)
            }
        } else {
            s[(py * sw + px) * 4 + c]
        },
{
    lemma_encode(sw, px, py, c);
    lemma_pixel_offset_bound(sw, sh, px, py);
    let f = filled(s, sw, sh, sx, sy, 16, 16, col);
    lemma_outline_pixel(f, sw, sh, sx, sy, edge_color(col), 16, px, py, c);
}

proof fn lemma_outlined_row_pixel(
    s: Seq<u8>,
    sw: int,
    sh: int,
    map: &WorldMap,
    cx: int,
    cy: int,
    waves: Seq<i32>,
    row: int,
    stx: int,
    x_end: int,
    px: int,
    py: int,
    c: int,
)
    requires
        sw > 0,
        s.len() >= sw * sh * 4,
        0 <= px < sw,
        0 <= py < sh,
        0 <= c < 4,
        px + cx >= 0,
        py + cy >= 0,
    ensures
        ({
            let tx = (px + cx) / 16;
            let ty = (py + cy) / 16;
            let k = (py * sw + px) * 4 + c;
            let col = tile_draw_color(map_tile_or_water(map, tx, ty), waves[tx] as int);
            &&& outlined_row_drawn(s, sw, sh, map, cx, cy, waves, row, stx, x_end).len() == s.len()
            &&& outlined_row_drawn(s, sw, sh, map, cx, cy, waves, row, stx, x_end)[k] == if row == ty && stx <= tx
                < x_end {
                if (px + cx) % 16 == 0 || (py + cy) % 16 == 0 {
                    chan(edge_color(col), c)
                } else {
                    chan(col, c)
                }
            } else {
                s[k]
            }
        }),
    decreases x_end - stx,
{
    if x_end > stx {
        lemma_outlined_row_pixel(s, sw, sh, map, cx, cy, waves, row, stx, x_end - 1, px, py, c);
        let q = x_end - 1;
        let prev = outlined_row_drawn(s, sw, sh, map, cx, cy, waves, row, stx, x_end - 1);
        lemma_outlined_tile_pixel(
            prev,
            sw,
            sh,
            q * 16 - cx,
            row * 16 - cy,
            tile_draw_color(map_tile_or_water(map, q, row), waves[q] as int),
            px,
            py,
            c,
        );
        lemma_in_block(px + cx, 16, q);
        lemma_in_block(py + cy, 16, row);
        lemma_fundamental_div_mod(px + cx, 16);
        lemma_fundamental_div_mod(py + cy, 16);
    }
}

proof fn lemma_outlined_tiles_pixel(
    s: Seq<u8>,
    sw: int,
    sh: int,
    map: &WorldMap,
    cx: int,
    cy: int,
    waves: Seq<i32>,
    sty: int,
    y_end: int,
    stx: int,
    etx: int,
    px: int,
    py: int,
    c: int,
)
    requires
        sw > 0,
        s.len() >= sw * sh * 4,
        0 <= px < sw,
        0 <= py < sh,
        0 <= c < 4,
        px + cx >= 0,
        py + cy >= 0,
    ensures
        ({
            let tx = (px + cx) / 16;
            let ty = (py + cy) / 16;
            let k = (py * sw + px) * 4 + c;
            let col = tile_draw_color(map_tile_or_water(map, tx, ty), waves[tx] as int);
            &&& outlined_tiles_drawn(s, sw, sh, map, cx, cy, waves, sty, y_end, stx, etx).len() == s.len()
            &&& outlined_tiles_drawn(s, sw, sh, map, cx, cy, waves, sty, y_end, stx, etx)[k] == if sty <= ty < y_end
                && stx <= tx < etx {
                if (px + cx) % 16 == 0 || (py + cy) % 16 == 0 {
                    chan(edge_color(col), c)
                } else {
                    chan(col, c)
                }
            } else {
                s[k]
            }
        }),
    decreases y_end - sty,
{
    if y_end > sty {
        lemma_outlined_tiles_pixel(s, sw, sh, map, cx, cy, waves, sty, y_end - 1, stx, etx, px, py, c);
        let prev = outlined_tiles_drawn(s, sw, sh, map, cx, cy, waves, sty, y_end - 1, stx, etx);
        lemma_outlined_row_pixel(prev, sw, sh, map, cx, cy, waves, y_end - 1, stx, etx, px, py, c);
    }
}

/// What the outlined terrain shows: every screen pixel over a tile of the
/// map is painted in that tile's terrain colour (water tinted by the wave
/// of its column), except on the tile's top row and left column, which are
/// 8 darker on each channel (not below 0). The tile is the one whose column
/// is the pixel's position plus the camera's divided by 16, and likewise
/// for its row.
pub proof fn lemma_outlined_tiles_show_the_map(
    s: Seq<u8>,
    sw: int,
    sh: int,
    map: &WorldMap,
    cx: int,
    cy: int,
    waves: Seq<i32>,
    px: int,
    py: int,
    c: int,
)
    requires
        sw > 0,
        s.len() >= sw * sh * 4,
        0 <= px < sw,
        0 <= py < sh,
        0 <= c < 4,
        cx + sw >= 0,
        cy + sh >= 0,
        0 <= px + cx < MAP_W * 16,
        0 <= py + cy < MAP_H * 16,
    ensures
        ({
            let tx = (px + cx) / 16;
            let ty = (py + cy) / 16;
            let t = map.tile(tx, ty);
            let base = tile_color(t);
            let col = if t == TileType::Water {
                let w = waves[tx] as int;
                let g = base.1 + (if w >= 0 { w / 2 } else { -((-w) / 2) });
                let b = base.2 + w;
                (
                    base.0,
                    (if g < 0 { 0 } else if g > 255 { 255 } else { g }) as u8,
                    (if b < 0 { 0 } else if b > 255 { 255 } else { b }) as u8,
                )
            } else {
                base
            };
            let shown = if (px + cx) % 16 == 0 || (py + cy) % 16 == 0 {
                (
                    (if col.0 >= 8 { col.0 - 8 } else { 0 }) as u8,
                    (if col.1 >= 8 { col.1 - 8 } else { 0 }) as u8,
                    (if col.2 >= 8 { col.2 - 8 } else { 0 }) as u8,
                )
            } else {
                col
            };
            outlined_tiles_drawn(
                s,
                sw,
                sh,
                map,
                cx,
                cy,
                waves,
                visible_start(cy, 16),
                visible_end_exact(cy, sh, 16, MAP_H as int),
                visible_start(cx, 16),
                visible_end_exact(cx, sw, 16, MAP_W as int),
            )[(py * sw + px) * 4 + c] == chan(shown, c)
        }),
{
    lemma_tile_visible(px, cx, sw, 16, MAP_W as int);
    lemma_tile_visible(py, cy, sh, 16, MAP_H as int);
    lemma_div_is_ordered(px + cx, cx + sw, 16);
    lemma_div_is_ordered(py + cy, cy + sh, 16);
    lemma_outlined_tiles_pixel(
        s,
        sw,
        sh,
        map,
        cx,
        cy,
        waves,
        visible_start(cy, 16),
        visible_end_exact(cy, sh, 16, MAP_H as int),
        visible_start(cx, 16),
        visible_end_exact(cx, sw, 16, MAP_W as int),
        px,
        py,
        c,
    );
}

/// Draws one 16-pixel tile at `(sx, sy)` with its darker top and left outline.
fn draw_outlined_tile(pixels: &mut [u8], screen: &ScreenSize, sx: i32, sy: i32, col: (u8, u8, u8))
    requires
        screen.fits(old(pixels)@.len() as int),
        -0x4000_0000 <= sx <= 0x4000_0000,
        -0x4000_0000 <= sy <= 0x4000_0000,
    ensures
        final(pixels)@.len() == old(pixels)@.len(),
        final(pixels)@ == outlined_tile_drawn(old(pixels)@, screen.w as int, screen.h as int, sx as int, sy as int, col),
{
    fill_rect(pixels, screen, sx, sy, 16, 16, col.0, col.1, col.2);
    let er = if col.0 >= 8 { col.0 - 8 } else { 0 };
    let eg = if col.1 >= 8 { col.1 - 8 } else { 0 };
    let eb = if col.2 >= 8 { col.2 - 8 } else { 0 };
    let ghost s1 = pixels@;
    let ghost sw = screen.w as int;
    let ghost sh = screen.h as int;
    let ghost f = tile_outline(sx as int, sy as int, edge_color(col));
    let mut i: i32 = 0;
    while i < 16
        invariant
            0 <= i <= 16,
            -0x4000_0000 <= sx <= 0x4000_0000,
            -0x4000_0000 <= sy <= 0x4000_0000,
            screen.fits(pixels@.len() as int),
            pixels@.len() == s1.len(),
            sw == screen.w,
            sh == screen.h,
            (er, eg, eb) == edge_color(col),
            f == tile_outline(sx as int, sy as int, edge_color(col)),
            pixels@ == pair_loop(s1, sw, sh, 0, i as int, f, |a: u8, b: u8, c: u8| a),
        decreases 16 - i,
    {
        set_pixel(pixels, screen, sx + i, sy, er, eg, eb);
        set_pixel(pixels, screen, sx, sy + i, er, eg, eb);
        i = i + 1;
    }
}

/// Draws the visible tiles of the map unzoomed, each with a darker top and
/// left outline, for the camera at `(cx, cy)` screen pixels; water tiles of
/// column `tx` shimmer by `waves[tx]`.
pub fn render_tiles_outlined(
    pixels: &mut [u8],
    screen: &ScreenSize,
    map: &WorldMap,
    cx: i32,
    cy: i32,
    waves: &[i32],
)
    requires
        screen.fits(old(pixels)@.len() as int),
        cx + screen.w <= i32::MAX,
        cy + screen.h <= i32::MAX,
        map.wf(),
        -0x1000_0000 <= cx <= 0x1000_0000,
        -0x1000_0000 <= cy <= 0x1000_0000,
        cx + screen.w >= 0,
        cy + screen.h >= 0,
        waves@.len() == MAP_W,
        forall|i: int| 0 <= i < MAP_W ==> -0x1_0000 <= #[trigger] waves@[i] <= 0x1_0000,
    ensures
        final(pixels)@.len() == old(pixels)@.len(),
        final(pixels)@ == outlined_tiles_drawn(
            old(pixels)@,
            screen.w as int,
            screen.h as int,
            map,
            cx as int,
            cy as int,
            waves@,
            visible_start(cy as int, 16),
            visible_end_exact(cy as int, screen.h as int, 16, MAP_H as int),
            visible_start(cx as int, 16),
            visible_end_exact(cx as int, screen.w as int, 16, MAP_W as int),
        ),
{
    let w = screen.w as i32;
    let h = screen.h as i32;
    let qx = trunc_div_i32(cx, 16);
    let qy = trunc_div_i32(cy, 16);
    let stx: usize = if qx > 0 {
        qx as usize
    } else {
        0
    };
    let sty: usize = if qy > 0 {
        qy as usize
    } else {
        0
    };
    let ex = trunc_div_i32(cx + w, 16) as usize + 1;
    let ey = trunc_div_i32(cy + h, 16) as usize + 1;
    let etx = if ex < MAP_W {
        ex
    } else {
        MAP_W
    };
    let ety = if ey < MAP_H {
        ey
    } else {
        MAP_H
    };
    let ghost s0 = pixels@;
    let ghost sw = screen.w as int;
    let ghost sh = screen.h as int;
    let mut ty: usize = sty;
    while ty < ety
        invariant
            sty <= ty,
            ty <= ety || ty == sty,
            ety <= MAP_H,
            etx <= MAP_W,
            screen.fits(pixels@.len() as int),
            pixels@.len() == s0.len(),
            map.wf(),
            -0x1000_0000 <= cx <= 0x1000_0000,
            -0x1000_0000 <= cy <= 0x1000_0000,
            sw == screen.w,
            sh == screen.h,
            waves@.len() == MAP_W,
            forall|i: int| 0 <= i < MAP_W ==> -0x1_0000 <= #[trigger] waves@[i] <= 0x1_0000,
            pixels@ == outlined_tiles_drawn(s0, sw, sh, map, cx as int, cy as int, waves@, sty as int, ty as int, stx as int, etx as int),
        decreases ety - ty,
    {
        let ghost row_start = pixels@;
        let mut tx: usize = stx;
        while tx < etx
            invariant
                stx <= tx,
                tx <= etx || tx == stx,
                ty < ety,
                ety <= MAP_H,
                etx <= MAP_W,
                screen.fits(pixels@.len() as int),
                pixels@.len() == s0.len(),
                map.wf(),
                -0x1000_0000 <= cx <= 0x1000_0000,
                -0x1000_0000 <= cy <= 0x1000_0000,
                sw == screen.w,
                sh == screen.h,
                waves@.len() == MAP_W,
                forall|i: int| 0 <= i < MAP_W ==> -0x1_0000 <= #[trigger] waves@[i] <= 0x1_0000,
                pixels@ == outlined_row_drawn(row_start, sw, sh, map, cx as int, cy as int, waves@, ty as int, stx as int, tx as int),
            decreases etx - tx,
        {
            let col = shaded_tile_color(map, tx, ty, waves);
            let sx = tx as i32 * 16 - cx;
            let sy = ty as i32 * 16 - cy;
            draw_outlined_tile(pixels, screen, sx, sy, col);
            tx = tx + 1;
        }
        ty = ty + 1;
    }
}

/// The frame `s` with columns `0` to `x_end - 1` of map row `ty` drawn on
/// the corner minimap at `(mx, my)`: tile `(tx, ty)` is the pixel
/// `(mx + 2 tx / 5, my + 2 ty / 5)` (80 pixels for the 200 tiles).
pub open spec fn minimap_row_drawn(s: Seq<u8>, sw: int, sh: int, map: &WorldMap, mx: int, my: int, ty: int, x_end: int) -> Seq<u8>
    decreases x_end,
{
    if x_end <= 0 {
        s
    } else {
        let tx = x_end - 1;
        filled(
            minimap_row_drawn(s, sw, sh, map, mx, my, ty, x_end - 1),
            sw,
            sh,
            mx + (2 * tx) / 5,
            my + (2 * ty) / 5,
            1,
            1,
            tile_color(map.tile(tx, ty)),
        )
    }
}

/// The frame `s` with rows `0` to `y_end - 1` of the map drawn on the
/// corner minimap at `(mx, my)`.
pub open spec fn minimap_tiles_drawn(s: Seq<u8>, sw: int, sh: int, map: &WorldMap, mx: int, my: int, y_end: int) -> Seq<u8>
    decreases y_end,
{
    if y_end <= 0 {
        s
    } else {
        minimap_row_drawn(minimap_tiles_drawn(s, sw, sh, map, mx, my, y_end - 1), sw, sh, map, mx, my, y_end - 1, MAP_W as int)
    }
}

/// The corner minimap, 80 pixels square at the top right: a dark border,
/// the whole map one pixel per sampled tile, the hero as a yellow 2 x 2 dot
/// at `(hx, hy)`, and the part of the world on screen as a light `vw` x `vh`
/// rectangle at `(vx, vy)`.
pub open spec fn corner_minimap_drawn(
    s: Seq<u8>,
    sw: int,
    sh: int,
    map: &WorldMap,
    hx: int,
    hy: int,
    vx: int,
    vy: int,
    vw: int,
    vh: int,
) -> Seq<u8> {
    let mx = sw - 88;
    let my: int = 8;
    let view: (u8, u8, u8) = (200, 200, 220);
    let s1 = filled(s, sw, sh, mx - 1, my - 1, 82, 82, (40, 40, 50));
    let s2 = minimap_tiles_drawn(s1, sw, sh, map, mx, my, MAP_H as int);
    let s3 = filled(s2, sw, sh, hx, hy, 2, 2, (255, 255, 100));
    let s4 = pair_loop(s3, sw, sh, 0, vw, top_bottom_edges(vx, vy, vw, vh + 1, view, view), |a: u8, b: u8, c: u8| a);
    pair_loop(s4, sw, sh, 0, vh, left_right_edges(vx, vy, vw + 1, vh, view, view), |a: u8, b: u8, c: u8| a)
}

/// Positions on the corner minimap that keep its arithmetic in range.
pub open spec fn minimap_marks_ok(hx: int, hy: int, vx: int, vy: int, vw: int, vh: int) -> bool {
    &&& -0x1000_0000 <= hx <= 0x1000_0000
    &&& -0x1000_0000 <= hy <= 0x1000_0000
    &&& -0x1000_0000 <= vx <= 0x1000_0000
    &&& -0x1000_0000 <= vy <= 0x1000_0000
    &&& -0x1000_0000 <= vw <= 0x1000_0000
    &&& -0x1000_0000 <= vh <= 0x1000_0000
}

/// Draws the corner minimap of the single-player screen, with the hero's
/// dot at `(hx, hy)` and the view rectangle `vw` x `vh` at `(vx, vy)`.
pub fn render_corner_minimap(
    pixels: &mut [u8],
    screen: &ScreenSize,
    map: &WorldMap,
    hx: i32,
    hy: i32,
    vx: i32,
    vy: i32,
    vw: i32,
    vh: i32,
)
    requires
        screen.fits(old(pixels)@.len() as int),
        screen.w >= 0,
        map.wf(),
        minimap_marks_ok(hx as int, hy as int, vx as int, vy as int, vw as int, vh as int),
    ensures
        final(pixels)@.len() == old(pixels)@.len(),
        final(pixels)@ == corner_minimap_drawn(
            old(pixels)@,
            screen.w as int,
            screen.h as int,
            map,
            hx as int,
            hy as int,
            vx as int,
            vy as int,
            vw as int,
            vh as int,
        ),
{
    let ghost sw = screen.w as int;
    let ghost sh = screen.h as int;
    let ghost n0 = pixels@.len();
    let mx = screen.w as i32 - 88;
    let my: i32 = 8;
    fill_rect(pixels, screen, mx - 1, my - 1, 82, 82, 40, 40, 50);
    let ghost s1 = pixels@;
    let mut ty: usize = 0;
    while ty < MAP_H
        invariant
            ty <= MAP_H,
            map.wf(),
            screen.fits(pixels@.len() as int),
            pixels@.len() == n0,
            sw == screen.w,
            sh == screen.h,
            mx == sw - 88,
            my == 8,
            -88 <= mx <= i32::MAX - 88,
            pixels@ == minimap_tiles_drawn(s1, sw, sh, map, mx as int, my as int, ty as int),
        decreases MAP_H - ty,
    {
        let ghost row_start = pixels@;
        let mut tx: usize = 0;
        while tx < MAP_W
            invariant
                tx <= MAP_W,
                ty < MAP_H,
                map.wf(),
                screen.fits(pixels@.len() as int),
                pixels@.len() == n0,
                sw == screen.w,
                sh == screen.h,
                mx == sw - 88,
                my == 8,
                -88 <= mx <= i32::MAX - 88,
                pixels@ == minimap_row_drawn(row_start, sw, sh, map, mx as int, my as int, ty as int, tx as int),
            decreases MAP_W - tx,
        {
            let (r, g, b) = map.tile_at(tx, ty).base_color();
            let px = mx + (2 * tx as i32) / 5;
            let py = my + (2 * ty as i32) / 5;
            set_pixel(pixels, screen, px, py, r, g, b);
            tx = tx + 1;
        }
        ty = ty + 1;
    }
    fill_rect(pixels, screen, hx, hy, 2, 2, 255, 255, 100);
    let ghost s3 = pixels@;
    let ghost view: (u8, u8, u8) = (200, 200, 220);
    let ghost f1 = top_bottom_edges(vx as int, vy as int, vw as int, vh + 1, view, view);
    let mut i: i32 = 0;
    while i < vw
        invariant
            0 <= i,
            i <= vw || i == 0,
            minimap_marks_ok(hx as int, hy as int, vx as int, vy as int, vw as int, vh as int),
            screen.fits(pixels@.len() as int),
            pixels@.len() == n0,
            sw == screen.w,
            sh == screen.h,
            view == (200u8, 200u8, 220u8),
            f1 == top_bottom_edges(vx as int, vy as int, vw as int, vh + 1, view, view),
            pixels@ == pair_loop(s3, sw, sh, 0, i as int, f1, |a: u8, b: u8, c: u8| a),
        decreases vw - i,
    {
        set_pixel(pixels, screen, vx + i, vy, 200, 200, 220);
        set_pixel(pixels, screen, vx + i, vy + vh, 200, 200, 220);
        i = i + 1;
    }
    let ghost s4 = pixels@;
    let ghost f2 = left_right_edges(vx as int, vy as int, vw + 1, vh as int, view, view);
    let mut i: i32 = 0;
    while i < vh
        invariant
            0 <= i,
            i <= vh || i == 0,
            minimap_marks_ok(hx as int, hy as int, vx as int, vy as int, vw as int, vh as int),
            screen.fits(pixels@.len() as int),
            pixels@.len() == n0,
            sw == screen.w,
            sh == screen.h,
            view == (200u8, 200u8, 220u8),
            f2 == left_right_edges(vx as int, vy as int, vw + 1, vh as int, view, view),
            pixels@ == pair_loop(s4, sw, sh, 0, i as int, f2, |a: u8, b: u8, c: u8| a),
        decreases vh - i,
    {
        set_pixel(pixels, screen, vx, vy + i, 200, 200, 220);
        set_pixel(pixels, screen, vx + vw, vy + i, 200, 200, 220);
        i = i + 1;
    }
    proof {
        if vw <= 0 {
            assert(pair_loop(s3, sw, sh, 0, vw as int, f1, |a: u8, b: u8, c: u8| a) == s3);
        }
        if vh <= 0 {
            assert(pair_loop(s4, sw, sh, 0, vh as int, f2, |a: u8, b: u8, c: u8| a) == s4);
        }
    }
}

/// `v` falls in the `q`-th block of `ts` consecutive values exactly when `q`
/// is `v / ts`.
proof fn lemma_in_block(v: int, ts: int, q: int)
    requires
        v >= 0,
        ts > 0,
    ensures
        (q * ts <= v < q * ts + ts) <==> q == v / ts,
{
    lemma_fundamental_div_mod(v, ts);
    lemma_mod_pos_bound(v, ts);
    if q * ts <= v < q * ts + ts {
        lemma_fundamental_div_mod_converse(v, ts, q, v - q * ts);
    }
    assert(ts * (v / ts) == (v / ts) * ts) by (nonlinear_arith);
}

/// Byte `c` of pixel `(px, py)` after a row of tiles is drawn: the colour
/// of the tile under the pixel when the row drew it, the byte before
/// otherwise.
proof fn lemma_tile_row_pixel(
    s: Seq<u8>,
    sw: int,
    sh: int,
    map: &WorldMap,
    cam_px: int,
    cam_py: int,
    ts: int,
    waves: Seq<i32>,
    row: int,
    stx: int,
    x_end: int,
    px: int,
    py: int,
    c: int,
)
    requires
        sw > 0,
        ts > 0,
        s.len() >= sw * sh * 4,
        0 <= px < sw,
        0 <= py < sh,
        0 <= c < 4,
        px + cam_px >= 0,
        py + cam_py >= 0,
    ensures
        ({
            let tx = (px + cam_px) / ts;
            let ty = (py + cam_py) / ts;
            let k = (py * sw + px) * 4 + c;
            &&& tiles_row_drawn(s, sw, sh, map, cam_px, cam_py, ts, waves, row, stx, x_end).len() == s.len()
            &&& tiles_row_drawn(s, sw, sh, map, cam_px, cam_py, ts, waves, row, stx, x_end)[k] == if row == ty && stx <= tx
                < x_end {
                chan(tile_draw_color(map_tile_or_water(map, tx, ty), waves[tx] as int), c)
            } else {
                s[k]
            }
        }),
    decreases x_end - stx,
{
    let k = (py * sw + px) * 4 + c;
    lemma_encode(sw, px, py, c);
    lemma_pixel_offset_bound(sw, sh, px, py);
    if x_end > stx {
        lemma_tile_row_pixel(s, sw, sh, map, cam_px, cam_py, ts, waves, row, stx, x_end - 1, px, py, c);
        let q = x_end - 1;
        lemma_in_block(px + cam_px, ts, q);
        lemma_in_block(py + cam_py, ts, row);
    }
}

/// Byte `c` of pixel `(px, py)` after rows `sty` to `y_end - 1` of tiles,
/// columns `stx` to `etx - 1`, are drawn.
proof fn lemma_tiles_pixel(
    s: Seq<u8>,
    sw: int,
    sh: int,
    map: &WorldMap,
    cam_px: int,
    cam_py: int,
    ts: int,
    waves: Seq<i32>,
    sty: int,
    y_end: int,
    stx: int,
    etx: int,
    px: int,
    py: int,
    c: int,
)
    requires
        sw > 0,
        ts > 0,
        s.len() >= sw * sh * 4,
        0 <= px < sw,
        0 <= py < sh,
        0 <= c < 4,
        px + cam_px >= 0,
        py + cam_py >= 0,
    ensures
        ({
            let tx = (px + cam_px) / ts;
            let ty = (py + cam_py) / ts;
            let k = (py * sw + px) * 4 + c;
            &&& tiles_drawn(s, sw, sh, map, cam_px, cam_py, ts, waves, sty, y_end, stx, etx).len() == s.len()
            &&& tiles_drawn(s, sw, sh, map, cam_px, cam_py, ts, waves, sty, y_end, stx, etx)[k] == if sty <= ty < y_end
                && stx <= tx < etx {
                chan(tile_draw_color(map_tile_or_water(map, tx, ty), waves[tx] as int), c)
            } else {
                s[k]
            }
        }),
    decreases y_end - sty,
{
    if y_end > sty {
        lemma_tiles_pixel(s, sw, sh, map, cam_px, cam_py, ts, waves, sty, y_end - 1, stx, etx, px, py, c);
        let prev = tiles_drawn(s, sw, sh, map, cam_px, cam_py, ts, waves, sty, y_end - 1, stx, etx);
        lemma_tile_row_pixel(prev, sw, sh, map, cam_px, cam_py, ts, waves, y_end - 1, stx, etx, px, py, c);
    }
}

/// The tile under a screen position shows on the visible part of the map:
/// it lies between the first and one-past-last visible tiles.
proof fn lemma_tile_visible(p: int, cam: int, len: int, ts: int, size: int)
    requires
        ts > 0,
        0 <= p < len,
        p + cam >= 0,
        cam + len >= 0,
        p + cam < size * ts,
    ensures
        visible_start(cam, ts) <= (p + cam) / ts < visible_end(cam, len, ts, size),
{
    let t = (p + cam) / ts;
    lemma_div_pos_is_pos(p + cam, ts);
    if cam >= 0 {
        lemma_div_is_ordered(cam, p + cam, ts);
    } else {
        lemma_div_pos_is_pos(-cam, ts);
    }
    lemma_div_is_ordered(p + cam, cam + len, ts);
    lemma_fundamental_div_mod(p + cam, ts);
    lemma_mod_pos_bound(p + cam, ts);
    assert(t < size) by (nonlinear_arith)
        requires
            ts > 0,
            p + cam == ts * t + (p + cam) % ts,
            (p + cam) % ts >= 0,
            p + cam < size * ts,
    ;
}

/// What the terrain shows: every screen pixel over a tile of the map is
/// painted in that tile's terrain colour — the tile whose column is the
/// pixel's position plus the camera's, divided by the tile size, and
/// likewise for its row — with water tinted by the wave of that column
/// (blue raised by the wave, green by half of it, both kept in 0 to 255).
pub proof fn lemma_tiles_show_the_map(
    s: Seq<u8>,
    sw: int,
    sh: int,
    map: &WorldMap,
    cam_px: int,
    cam_py: int,
    zi: int,
    waves: Seq<i32>,
    px: int,
    py: int,
    c: int,
)
    requires
        sw > 0,
        1 <= zi,
        s.len() >= sw * sh * 4,
        0 <= px < sw,
        0 <= py < sh,
        0 <= c < 4,
        cam_px + sw >= 0,
        cam_py + sh >= 0,
        0 <= px + cam_px < MAP_W * (16 * zi),
        0 <= py + cam_py < MAP_H * (16 * zi),
    ensures
        ({
            let tx = (px + cam_px) / (16 * zi);
            let ty = (py + cam_py) / (16 * zi);
            let t = map.tile(tx, ty);
            let base = tile_color(t);
            let col = if t == TileType::Water {
                let w = waves[tx] as int;
                let g = base.1 + (if w >= 0 { w / 2 } else { -((-w) / 2) });
                let b = base.2 + w;
                (
                    base.0,
                    (if g < 0 { 0 } else if g > 255 { 255 } else { g }) as u8,
                    (if b < 0 { 0 } else if b > 255 { 255 } else { b }) as u8,
                )
            } else {
                base
            };
            tiles_drawn(
                s,
                sw,
                sh,
                map,
                cam_px,
                cam_py,
                16 * zi,
                waves,
                visible_start(cam_py, 16 * zi),
                visible_end(cam_py, sh, 16 * zi, MAP_H as int),
                visible_start(cam_px, 16 * zi),
                visible_end(cam_px, sw, 16 * zi, MAP_W as int),
            )[(py * sw + px) * 4 + c] == chan(col, c)
        }),
{
    let ts = 16 * zi;
    lemma_tile_visible(px, cam_px, sw, ts, MAP_W as int);
    lemma_tile_visible(py, cam_py, sh, ts, MAP_H as int);
    lemma_tiles_pixel(
        s,
        sw,
        sh,
        map,
        cam_px,
        cam_py,
        ts,
        waves,
        visible_start(cam_py, ts),
        visible_end(cam_py, sh, ts, MAP_H as int),
        visible_start(cam_px, ts),
        visible_end(cam_px, sw, ts, MAP_W as int),
        px,
        py,
        c,
    );
}

/// The eight `zi` x `zi` squares that step `i` of the target marker adds:
/// `i` pixels in from each corner of a `ts`-pixel tile at `(sx, sy)`, along
/// both edges that meet there.
pub open spec fn marker_step(s: Seq<u8>, sw: int, sh: int, sx: int, sy: int, ts: int, zi: int, i: int) -> Seq<u8> {
    let c: (u8, u8, u8) = (255, 220, 100);
    let s1 = filled(s, sw, sh, sx + i, sy, zi, zi, c);
    let s2 = filled(s1, sw, sh, sx, sy + i, zi, zi, c);
    let s3 = filled(s2, sw, sh, sx + ts - zi - i, sy, zi, zi, c);
    let s4 = filled(s3, sw, sh, sx + ts - zi, sy + i, zi, zi, c);
    let s5 = filled(s4, sw, sh, sx + i, sy + ts - zi, zi, zi, c);
    let s6 = filled(s5, sw, sh, sx, sy + ts - zi - i, zi, zi, c);
    let s7 = filled(s6, sw, sh, sx + ts - zi - i, sy + ts - zi, zi, zi, c);
    filled(s7, sw, sh, sx + ts - zi, sy + ts - zi - i, zi, zi, c)
}

/// The frame `s` with the marker steps at `i`, `i + zi`, `i + 2 zi`, ...
/// below `len` drawn.
pub open spec fn marker_from(s: Seq<u8>, sw: int, sh: int, sx: int, sy: int, ts: int, zi: int, i: int, len: int) -> Seq<u8>
    decreases (if len > i { len - i } else { 0 }),
    when zi > 0
{
    if i >= len {
        s
    } else {
        marker_from(marker_step(s, sw, sh, sx, sy, ts, zi, i), sw, sh, sx, sy, ts, zi, i + zi, len)
    }
}

/// Marks the tile at screen position `(sx, sy)`, `ts` pixels wide, with
/// yellow corner brackets `len` pixels long drawn in `zi`-pixel steps.
pub fn draw_target_marker(pixels: &mut [u8], screen: &ScreenSize, sx: i32, sy: i32, ts: i32, zi: i32, len: i32)
    requires
        screen.fits(old(pixels)@.len() as int),
        -0x4000_0000 <= sx <= 0x4000_0000,
        -0x4000_0000 <= sy <= 0x4000_0000,
        0 <= ts <= 0x1_0000,
        1 <= zi <= 0x1_0000,
        len <= 0x1_0000,
    ensures
        final(pixels)@.len() == old(pixels)@.len(),
        final(pixels)@ == marker_from(old(pixels)@, screen.w as int, screen.h as int, sx as int, sy as int, ts as int, zi as int, 0, len as int),
{
    let ghost s0 = pixels@;
    let ghost sw = screen.w as int;
    let ghost sh = screen.h as int;
    let mut i: i32 = 0;
    while i < len
        invariant
            0 <= i,
            i < len + zi || i == 0,
            screen.fits(pixels@.len() as int),
            pixels@.len() == s0.len(),
            sw == screen.w,
            sh == screen.h,
            -0x4000_0000 <= sx <= 0x4000_0000,
            -0x4000_0000 <= sy <= 0x4000_0000,
            0 <= ts <= 0x1_0000,
            1 <= zi <= 0x1_0000,
            len <= 0x1_0000,
            marker_from(pixels@, sw, sh, sx as int, sy as int, ts as int, zi as int, i as int, len as int)
                == marker_from(s0, sw, sh, sx as int, sy as int, ts as int, zi as int, 0, len as int),
        decreases (if len > i { len - i } else { 0 }),
    {
        fill_rect(pixels, screen, sx + i, sy, zi, zi, 255, 220, 100);
        fill_rect(pixels, screen, sx, sy + i, zi, zi, 255, 220, 100);
        fill_rect(pixels, screen, sx + ts - zi - i, sy, zi, zi, 255, 220, 100);
        fill_rect(pixels, screen, sx + ts - zi, sy + i, zi, zi, 255, 220, 100);
        fill_rect(pixels, screen, sx + i, sy + ts - zi, zi, zi, 255, 220, 100);
        fill_rect(pixels, screen, sx, sy + ts - zi - i, zi, zi, 255, 220, 100);
        fill_rect(pixels, screen, sx + ts - zi - i, sy + ts - zi, zi, zi, 255, 220, 100);
        fill_rect(pixels, screen, sx + ts - zi, sy + ts - zi - i, zi, zi, 255, 220, 100);
        i = i + zi;
    }
}

/// The axe swinging in front of a chopping hero at screen position
/// `(sx, sy)`, magnified `zi` times: its head and handle, `swing` pixels
/// lower as it moves, on the hero's left when facing left (2) and right
/// otherwise, then three wood chips scattered according to `chip_phase`.
pub open spec fn chop_effect_drawn(
    s: Seq<u8>,
    sw: int,
    sh: int,
    sx: int,
    sy: int,
    zi: int,
    swing: int,
    chip_phase: int,
    facing: u32,
) -> Seq<u8> {
    let ay = sy + 6 * zi + (if swing >= 0 { swing } else { -swing });
    let ax = if facing == 2 { sx - zi } else { sx + 14 * zi };
    let head_x = if facing == 2 { ax - 2 * zi } else { ax + zi };
    let s1 = filled(s, sw, sh, head_x, ay - zi, 3 * zi, 2 * zi, (160, 160, 170));
    let s2 = filled(s1, sw, sh, ax, ay, 2 * zi, 4 * zi, (140, 100, 50));
    let s3 = filled(s2, sw, sh, ax + ((chip_phase % 7) - 3) * zi, ay + ((chip_phase % 5) - 4) * zi, zi, zi, (140, 100, 40));
    let s4 = filled(s3, sw, sh, ax + (((chip_phase + 37) % 7) - 3) * zi, ay + (((chip_phase + 23) % 5) - 4) * zi, zi, zi, (140, 100, 40));
    filled(s4, sw, sh, ax + (((chip_phase + 74) % 7) - 3) * zi, ay + (((chip_phase + 46) % 5) - 4) * zi, zi, zi, (140, 100, 40))
}

/// Draws the swinging axe and flying chips of a chopping hero.
pub fn draw_chop_effect(
    pixels: &mut [u8],
    screen: &ScreenSize,
    sx: i32,
    sy: i32,
    zi: i32,
    swing: i32,
    chip_phase: i32,
    facing: u32,
)
    requires
        screen.fits(old(pixels)@.len() as int),
        -0x4000_0000 <= sx <= 0x4000_0000,
        -0x4000_0000 <= sy <= 0x4000_0000,
        1 <= zi <= 0x1000,
        -0x100_0000 <= swing <= 0x100_0000,
        0 <= chip_phase <= 0x100_0000,
    ensures
        final(pixels)@.len() == old(pixels)@.len(),
        final(pixels)@ == chop_effect_drawn(old(pixels)@, screen.w as int, screen.h as int, sx as int, sy as int, zi as int, swing as int, chip_phase as int, facing),
{
    let ay = sy + 6 * zi + (if swing >= 0 { swing } else { -swing });
    let ax: i32;
    if facing == 2 {
        ax = sx - zi;
        fill_rect(pixels, screen, ax - 2 * zi, ay - zi, 3 * zi, 2 * zi, 160, 160, 170);
        fill_rect(pixels, screen, ax, ay, 2 * zi, 4 * zi, 140, 100, 50);
    } else {
        ax = sx + 14 * zi;
        fill_rect(pixels, screen, ax + zi, ay - zi, 3 * zi, 2 * zi, 160, 160, 170);
        fill_rect(pixels, screen, ax, ay, 2 * zi, 4 * zi, 140, 100, 50);
    }
    let mut i: i32 = 0;
    let ghost s2 = pixels@;
    while i < 3
        invariant
            0 <= i <= 3,
            screen.fits(pixels@.len() as int),
            pixels@.len() == s2.len(),
            -0x4000_0000 <= sx <= 0x4000_0000,
            -0x4000_0000 <= sy <= 0x4000_0000,
            1 <= zi <= 0x1000,
            0 <= chip_phase <= 0x100_0000,
            -0x100_0000 <= swing <= 0x100_0000,
            ay == sy + 6 * zi + (if swing >= 0 { swing as int } else { -swing }),
            ax == (if facing == 2 { sx - zi } else { sx + 14 * zi }),
            pixels@ == (if i == 0 {
                s2
            } else if i == 1 {
                filled(s2, screen.w as int, screen.h as int, ax + ((chip_phase % 7) - 3) * zi, ay + ((chip_phase % 5) - 4) * zi, zi as int, zi as int, (140u8, 100u8, 40u8))
            } else if i == 2 {
                filled(
                    filled(s2, screen.w as int, screen.h as int, ax + ((chip_phase % 7) - 3) * zi, ay + ((chip_phase % 5) - 4) * zi, zi as int, zi as int, (140u8, 100u8, 40u8)),
                    screen.w as int, screen.h as int,
                    ax + (((chip_phase + 37) % 7) - 3) * zi, ay + (((chip_phase + 23) % 5) - 4) * zi, zi as int, zi as int, (140u8, 100u8, 40u8))
            } else {
                filled(
                    filled(
                        filled(s2, screen.w as int, screen.h as int, ax + ((chip_phase % 7) - 3) * zi, ay + ((chip_phase % 5) - 4) * zi, zi as int, zi as int, (140u8, 100u8, 40u8)),
                        screen.w as int, screen.h as int,
                        ax + (((chip_phase + 37) % 7) - 3) * zi, ay + (((chip_phase + 23) % 5) - 4) * zi, zi as int, zi as int, (140u8, 100u8, 40u8)),
                    screen.w as int, screen.h as int,
                    ax + (((chip_phase + 74) % 7) - 3) * zi, ay + (((chip_phase + 46) % 5) - 4) * zi, zi as int, zi as int, (140u8, 100u8, 40u8))
            }),
        decreases 3 - i,
    {
        let ox = ((chip_phase + i * 37) % 7) - 3;
        let oy = ((chip_phase + i * 23) % 5) - 4;
        proof {
            assert(-3 * zi <= ox * zi <= 3 * zi) by (nonlinear_arith)
                requires
                    -3 <= ox <= 3,
                    1 <= zi,
            ;
            assert(-4 * zi <= oy * zi <= 0) by (nonlinear_arith)
                requires
                    -4 <= oy <= 0,
                    1 <= zi,
            ;
        }
        fill_rect(pixels, screen, ax + ox * zi, ay + oy * zi, zi, zi, 140, 100, 40);
        i = i + 1;
    }
}


/// Step `j` of a bar's tick mark: one pixel of the column at `x`.
pub open spec fn tick_pixel(x: int, y: int, col: (u8, u8, u8)) -> spec_fn(int) -> DrawOp {
    |j: int| DrawOp::Pixel(x, y + j, col)
}

/// The frame `s` with the tick marks `1` to `k - 1` of a 70-pixel bar at
/// `(bar_x, y)`: a column 8 pixels tall every 7 pixels.
pub open spec fn bar_ticks(s: Seq<u8>, sw: int, sh: int, bar_x: int, y: int, col: (u8, u8, u8), k: int) -> Seq<u8>
    decreases k,
{
    if k <= 1 {
        s
    } else {
        op_loop(
            bar_ticks(s, sw, sh, bar_x, y, col, k - 1),
            sw,
            sh,
            0,
            8,
            tick_pixel(bar_x + (70 * (k - 1)) / 10, y, col),
            |a: u8, b: u8, c: u8| a,
        )
    }
}

/// One of the portrait's bars at `(31, y)`: a dark background, the filled
/// part `fill_w` pixels wide with a lighter top, (when `ticks`) ten segments
/// marked by ticks, and top and bottom borders.
pub open spec fn portrait_bar(
    s: Seq<u8>,
    sw: int,
    sh: int,
    y: int,
    fill_w: int,
    bg: (u8, u8, u8),
    fill: (u8, u8, u8),
    shine: (u8, u8, u8),
    line: (u8, u8, u8),
    ticks: bool,
) -> Seq<u8> {
    let s1 = filled(s, sw, sh, 31, y, 70, 8, bg);
    let s2 = if fill_w > 0 {
        filled(filled(s1, sw, sh, 31, y, fill_w, 8, fill), sw, sh, 31, y, fill_w, 2, shine)
    } else {
        s1
    };
    let s3 = if ticks {
        bar_ticks(s2, sw, sh, 31, y, line, 10)
    } else {
        s2
    };
    pair_loop(s3, sw, sh, 0, 70, top_bottom_edges(31, y, 70, 8, line, line), |a: u8, b: u8, c: u8| a)
}

/// The portrait's frame at the top left: a dark translucent square with a
/// gold border and inner highlight, and the hero sprite in it.
pub open spec fn portrait_frame_drawn(s: Seq<u8>, sw: int, sh: int, bf: spec_fn(u8, u8, u8) -> u8) -> Seq<u8> {
    let gold: (u8, u8, u8) = (180, 150, 60);
    let gold2: (u8, u8, u8) = (200, 170, 80);
    let s1 = blended_rect(s, sw, sh, 6, 6, 22, 22, (8, 8, 16), 220, bf);
    let s2 = pair_loop(s1, sw, sh, 0, 22, top_bottom_edges(6, 6, 22, 22, gold, gold), bf);
    let s3 = pair_loop(s2, sw, sh, 0, 22, left_right_edges(6, 6, 22, 22, gold, gold), bf);
    let s4 = pair_loop(s3, sw, sh, 1, 21, portrait_highlight(gold2), bf);
    paint_rects(paint_rects(s4, sw, sh, 9, 9, 1, hero_rects()), sw, sh, 9, 9, 1, eye_rects())
}

/// The hero's portrait with the health and mana bars (filled `hp_w` and
/// `mp_w` pixels of 70), segmented by ticks, to its right.
pub open spec fn portrait_drawn(s: Seq<u8>, sw: int, sh: int, hp_w: int, mp_w: int, bf: spec_fn(u8, u8, u8) -> u8) -> Seq<u8> {
    let s5 = portrait_frame_drawn(s, sw, sh, bf);
    let s6 = portrait_bar(s5, sw, sh, 7, hp_w, (40, 15, 15), (180, 30, 30), (220, 60, 60), (60, 20, 20), true);
    portrait_bar(s6, sw, sh, 17, mp_w, (15, 15, 40), (40, 60, 200), (70, 100, 240), (20, 20, 60), true)
}

/// The label of a bar: `value/max` in decimal.
pub open spec fn bar_label(value: u32, max: u32) -> Seq<char> {
    decimal(value as nat) + seq!['/'] + decimal(max as nat)
}

/// Where a bar's label starts: centred on the 70-pixel bar at x 31.
pub open spec fn label_x(len: int) -> int {
    31 + trunc_div(70 - len * GLYPH_W, 2)
}

/// The hero's portrait with plain health and mana bars, each labelled with
/// its value and maximum (`hp / max_hp`, `mana / max_mana`).
pub open spec fn labelled_portrait_drawn(
    s: Seq<u8>,
    sw: int,
    sh: int,
    hp_w: int,
    mp_w: int,
    hp: u32,
    max_hp: u32,
    mana: u32,
    max_mana: u32,
    bf: spec_fn(u8, u8, u8) -> u8,
) -> Seq<u8> {
    let s5 = portrait_frame_drawn(s, sw, sh, bf);
    let s6 = portrait_bar(s5, sw, sh, 7, hp_w, (40, 15, 15), (180, 30, 30), (220, 60, 60), (60, 20, 20), false);
    let hp_text = bar_label(hp, max_hp);
    let s7 = text_drawn(s6, sw, sh, label_x(hp_text.len() as int), 9, hp_text, (255, 255, 255), 220, bf);
    let s8 = portrait_bar(s7, sw, sh, 17, mp_w, (15, 15, 40), (40, 60, 200), (70, 100, 240), (20, 20, 60), false);
    let mp_text = bar_label(mana, max_mana);
    text_drawn(s8, sw, sh, label_x(mp_text.len() as int), 19, mp_text, (255, 255, 255), 220, bf)
}

/// Step `i` of the portrait's inner highlight, along the top and left edges.
pub open spec fn portrait_highlight(col: (u8, u8, u8)) -> spec_fn(int) -> (DrawOp, DrawOp) {
    |i: int| (DrawOp::Pixel(6 + i, 7, col), DrawOp::Pixel(7, 6 + i, col))
}

fn draw_bar_ticks(pixels: &mut [u8], screen: &ScreenSize, bar_x: i32, y: i32, r: u8, g: u8, b: u8)
    requires
        screen.fits(old(pixels)@.len() as int),
        0 <= bar_x <= 1000,
        0 <= y <= 1000,
    ensures
        final(pixels)@.len() == old(pixels)@.len(),
        final(pixels)@ == bar_ticks(old(pixels)@, screen.w as int, screen.h as int, bar_x as int, y as int, (r, g, b), 10),
{
    let ghost s0 = pixels@;
    let ghost sw = screen.w as int;
    let ghost sh = screen.h as int;
    let ghost col = (r, g, b);
    let bar_w: i32 = 70;
    let segments: i32 = 10;
    let mut k: i32 = 1;
    while k < segments
        invariant
            1 <= k <= 10,
            segments == 10,
            bar_w == 70,
            0 <= bar_x <= 1000,
            0 <= y <= 1000,
            screen.fits(pixels@.len() as int),
            pixels@.len() == s0.len(),
            sw == screen.w,
            sh == screen.h,
            col == (r, g, b),
            pixels@ == bar_ticks(s0, sw, sh, bar_x as int, y as int, col, k as int),
        decreases 10 - k,
    {
        let tick_x = bar_x + (bar_w * k) / segments;
        let ghost before = pixels@;
        let ghost f = tick_pixel(tick_x as int, y as int, col);
        let mut j: i32 = 0;
        while j < 8
            invariant
                0 <= j <= 8,
                1 <= k < 10,
                0 <= tick_x <= 1100,
                0 <= y <= 1000,
                screen.fits(pixels@.len() as int),
                pixels@.len() == s0.len(),
                sw == screen.w,
                sh == screen.h,
                col == (r, g, b),
                f == tick_pixel(tick_x as int, y as int, col),
                pixels@ == op_loop(before, sw, sh, 0, j as int, f, |a: u8, b: u8, c: u8| a),
            decreases 8 - j,
        {
            set_pixel(pixels, screen, tick_x, y + j, r, g, b);
            j = j + 1;
        }
        k = k + 1;
    }
}

fn draw_portrait_bar(
    pixels: &mut [u8],
    screen: &ScreenSize,
    y: i32,
    fill_w: i32,
    bg: (u8, u8, u8),
    fill: (u8, u8, u8),
    shine: (u8, u8, u8),
    line: (u8, u8, u8),
    ticks: bool,
)
    requires
        screen.fits(old(pixels)@.len() as int),
        0 <= y <= 1000,
        fill_w <= i32::MAX - 31,
    ensures
        final(pixels)@.len() == old(pixels)@.len(),
        final(pixels)@ == portrait_bar(old(pixels)@, screen.w as int, screen.h as int, y as int, fill_w as int, bg, fill, shine, line, ticks),
{
    let bar_x: i32 = 31;
    let bar_w: i32 = 70;
    let bar_h: i32 = 8;
    fill_rect(pixels, screen, bar_x, y, bar_w, bar_h, bg.0, bg.1, bg.2);
    if fill_w > 0 {
        fill_rect(pixels, screen, bar_x, y, fill_w, bar_h, fill.0, fill.1, fill.2);
        fill_rect(pixels, screen, bar_x, y, fill_w, 2, shine.0, shine.1, shine.2);
    }
    if ticks {
        draw_bar_ticks(pixels, screen, bar_x, y, line.0, line.1, line.2);
    }
    let ghost s3 = pixels@;
    let ghost sw = screen.w as int;
    let ghost sh = screen.h as int;
    let ghost f = top_bottom_edges(31, y as int, 70, 8, line, line);
    let mut i: i32 = 0;
    while i < bar_w
        invariant
            0 <= i <= 70,
            bar_w == 70,
            bar_x == 31,
            bar_h == 8,
            0 <= y <= 1000,
            screen.fits(pixels@.len() as int),
            pixels@.len() == s3.len(),
            sw == screen.w,
            sh == screen.h,
            f == top_bottom_edges(31, y as int, 70, 8, line, line),
            pixels@ == pair_loop(s3, sw, sh, 0, i as int, f, |a: u8, b: u8, c: u8| a),
        decreases 70 - i,
    {
        set_pixel(pixels, screen, bar_x + i, y, line.0, line.1, line.2);
        set_pixel(pixels, screen, bar_x + i, y + bar_h - 1, line.0, line.1, line.2);
        i = i + 1;
    }
}

/// Draws the portrait's frame and the hero in it.
fn draw_portrait_frame<B: Fn(u8, u8, u8) -> u8>(pixels: &mut [u8], screen: &ScreenSize, blend: &B)
    requires
        screen.fits(old(pixels)@.len() as int),
        blend_fn_ok(*blend),
    ensures
        final(pixels)@.len() == old(pixels)@.len(),
        final(pixels)@ == portrait_frame_drawn(
            old(pixels)@,
            screen.w as int,
            screen.h as int,
            |s: u8, d: u8, al: u8| blend_val(*blend, s, d, al),
        ),
{
    let ghost sw = screen.w as int;
    let ghost sh = screen.h as int;
    let ghost bf = |s: u8, d: u8, al: u8| blend_val(*blend, s, d, al);
    let px: i32 = 6;
    let py: i32 = 6;
    let frame_size: i32 = 22;
    fill_rect_alpha(pixels, screen, px, py, frame_size, frame_size, 8, 8, 16, 220, blend);
    let ghost n0 = pixels@.len();
    let ghost gold: (u8, u8, u8) = (180, 150, 60);
    let ghost s1 = pixels@;
    let ghost f1 = top_bottom_edges(6, 6, 22, 22, gold, gold);
    let mut i: i32 = 0;
    while i < frame_size
        invariant
            0 <= i <= 22,
            frame_size == 22,
            px == 6,
            py == 6,
            screen.fits(pixels@.len() as int),
            pixels@.len() == n0,
            sw == screen.w,
            sh == screen.h,
            gold == (180u8, 150u8, 60u8),
            f1 == top_bottom_edges(6, 6, 22, 22, gold, gold),
            pixels@ == pair_loop(s1, sw, sh, 0, i as int, f1, bf),
        decreases 22 - i,
    {
        set_pixel(pixels, screen, px + i, py, 180, 150, 60);
        set_pixel(pixels, screen, px + i, py + frame_size - 1, 180, 150, 60);
        i = i + 1;
    }
    let ghost s2 = pixels@;
    let ghost f2 = left_right_edges(6, 6, 22, 22, gold, gold);
    let mut i: i32 = 0;
    while i < frame_size
        invariant
            0 <= i <= 22,
            frame_size == 22,
            px == 6,
            py == 6,
            screen.fits(pixels@.len() as int),
            pixels@.len() == n0,
            sw == screen.w,
            sh == screen.h,
            gold == (180u8, 150u8, 60u8),
            f2 == left_right_edges(6, 6, 22, 22, gold, gold),
            pixels@ == pair_loop(s2, sw, sh, 0, i as int, f2, bf),
        decreases 22 - i,
    {
        set_pixel(pixels, screen, px, py + i, 180, 150, 60);
        set_pixel(pixels, screen, px + frame_size - 1, py + i, 180, 150, 60);
        i = i + 1;
    }
    let ghost s3 = pixels@;
    let ghost gold2: (u8, u8, u8) = (200, 170, 80);
    let ghost f3 = portrait_highlight(gold2);
    let mut i: i32 = 1;
    while i < frame_size - 1
        invariant
            1 <= i <= 21,
            frame_size == 22,
            px == 6,
            py == 6,
            screen.fits(pixels@.len() as int),
            pixels@.len() == n0,
            sw == screen.w,
            sh == screen.h,
            gold2 == (200u8, 170u8, 80u8),
            f3 == portrait_highlight(gold2),
            pixels@ == pair_loop(s3, sw, sh, 1, i as int, f3, bf),
        decreases 21 - i,
    {
        set_pixel(pixels, screen, px + i, py + 1, 200, 170, 80);
        set_pixel(pixels, screen, px + 1, py + i, 200, 170, 80);
        i = i + 1;
    }
    let sprite_x = px + (frame_size - 16) / 2;
    let sprite_y = py + (frame_size - 16) / 2;
    draw_hero_sprite(pixels, screen, sprite_x, sprite_y, 0);
    proof {
        assert(bf == (|s: u8, d: u8, al: u8| blend_val(*blend, s, d, al)));
    }
}

/// Draws the hero's portrait with health and mana bars filled `hp_w` and
/// `mp_w` pixels out of 70.
pub fn render_portrait<B: Fn(u8, u8, u8) -> u8>(
    pixels: &mut [u8],
    screen: &ScreenSize,
    hp_w: i32,
    mp_w: i32,
    blend: &B,
)
    requires
        screen.fits(old(pixels)@.len() as int),
        blend_fn_ok(*blend),
        hp_w <= i32::MAX - 31,
        mp_w <= i32::MAX - 31,
    ensures
        final(pixels)@.len() == old(pixels)@.len(),
        final(pixels)@ == portrait_drawn(
            old(pixels)@,
            screen.w as int,
            screen.h as int,
            hp_w as int,
            mp_w as int,
            |s: u8, d: u8, al: u8| blend_val(*blend, s, d, al),
        ),
{
    draw_portrait_frame(pixels, screen, blend);
    draw_portrait_bar(pixels, screen, 7, hp_w, (40, 15, 15), (180, 30, 30), (220, 60, 60), (60, 20, 20), true);
    draw_portrait_bar(pixels, screen, 17, mp_w, (15, 15, 40), (40, 60, 200), (70, 100, 240), (20, 20, 60), true);
}

/// The characters of `value/max`.
fn bar_label_chars(value: u32, max: u32) -> (r: Vec<char>)
    ensures
        r@ == bar_label(value, max),
        r@.len() <= 21,
{
    let mut out: Vec<char> = Vec::new();
    push_decimal(&mut out, value);
    out.push('/');
    push_decimal(&mut out, max);
    proof {
        lemma_decimal_len(value as nat);
        lemma_decimal_len(max as nat);
        assert(out@ =~= bar_label(value, max));
    }
    out
}

/// Draws the hero's portrait with plain health and mana bars filled `hp_w`
/// and `mp_w` pixels out of 70, each labelled `value/max`.
pub fn render_portrait_labelled<B: Fn(u8, u8, u8) -> u8>(
    pixels: &mut [u8],
    screen: &ScreenSize,
    hp_w: i32,
    mp_w: i32,
    health: u32,
    max_health: u32,
    mana: u32,
    max_mana: u32,
    blend: &B,
)
    requires
        screen.fits(old(pixels)@.len() as int),
        blend_fn_ok(*blend),
        hp_w <= i32::MAX - 31,
        mp_w <= i32::MAX - 31,
    ensures
        final(pixels)@.len() == old(pixels)@.len(),
        final(pixels)@ == labelled_portrait_drawn(
            old(pixels)@,
            screen.w as int,
            screen.h as int,
            hp_w as int,
            mp_w as int,
            health,
            max_health,
            mana,
            max_mana,
            |s: u8, d: u8, al: u8| blend_val(*blend, s, d, al),
        ),
{
    draw_portrait_frame(pixels, screen, blend);
    draw_portrait_bar(pixels, screen, 7, hp_w, (40, 15, 15), (180, 30, 30), (220, 60, 60), (60, 20, 20), false);
    let hp_text = bar_label_chars(health, max_health);
    let hx = 31 + trunc_div_i32(70 - hp_text.len() as i32 * GLYPH_W, 2);
    draw_tiny_chars(pixels, screen, hx, 9, hp_text.as_slice(), 255, 255, 255, 220, blend);
    draw_portrait_bar(pixels, screen, 17, mp_w, (15, 15, 40), (40, 60, 200), (70, 100, 240), (20, 20, 60), false);
    let mp_text = bar_label_chars(mana, max_mana);
    let mx = 31 + trunc_div_i32(70 - mp_text.len() as i32 * GLYPH_W, 2);
    draw_tiny_chars(pixels, screen, mx, 19, mp_text.as_slice(), 255, 255, 255, 220, blend);
}

} // verus!
