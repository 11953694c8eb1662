use game_core::client::HudState;
use game_core::item::{Inventory, ItemId};
use game_core::render::{
    clear, draw_hero_sprite, draw_tiny_chars, draw_tiny_string, draw_tree, fill_rect, fill_rect_alpha,
    glyph, push_decimal, render_corner_minimap, render_hud_buttons, render_inventory_panel,
    render_panel_buttons, render_portrait, render_portrait_labelled, render_skills_panel,
    render_tiles, render_tiles_outlined, set_pixel, set_pixel_alpha, set_screen_size, str_chars,
    ScreenSize,
};
use game_core::world::{TileType, WorldMap, MAP_H, MAP_W};
use game_core::skills::WoodcuttingSkill;

fn screen(w: usize, h: usize) -> (ScreenSize, Vec<u8>) {
    let mut s = ScreenSize::new();
    set_screen_size(&mut s, w, h);
    (s, vec![0u8; w * h * 4])
}

fn px(pixels: &[u8], w: usize, x: usize, y: usize) -> [u8; 4] {
    let i = (y * w + x) * 4;
    [pixels[i], pixels[i + 1], pixels[i + 2], pixels[i + 3]]
}

/// The renderer's blending: `src` over `dst` at opacity `a` / 255.
fn blend(src: u8, dst: u8, a: u8) -> u8 {
    let af = a as f32 * (1.0 / 255.0);
    (src as f32 * af + dst as f32 * (1.0 - af)) as u8
}

#[test]
fn default_screen_size() {
    let s = ScreenSize::new();
    assert_eq!((s.w, s.h), (800, 600));
}

#[test]
fn set_screen_size_sets_both_sides() {
    let mut s = ScreenSize::new();
    set_screen_size(&mut s, 320, 200);
    assert_eq!((s.w, s.h), (320, 200));
}

#[test]
fn clear_paints_every_pixel_opaque() {
    let (_s, mut p) = screen(3, 2);
    clear(&mut p, 10, 20, 30);
    for chunk in p.chunks(4) {
        assert_eq!(chunk, &[10, 20, 30, 255]);
    }
}

#[test]
fn set_pixel_inside_and_outside() {
    let (s, mut p) = screen(4, 3);
    set_pixel(&mut p, &s, 2, 1, 9, 8, 7);
    assert_eq!(px(&p, 4, 2, 1), [9, 8, 7, 255]);
    let before = p.clone();
    set_pixel(&mut p, &s, -1, 0, 1, 1, 1);
    set_pixel(&mut p, &s, 4, 0, 1, 1, 1);
    set_pixel(&mut p, &s, 0, 3, 1, 1, 1);
    assert_eq!(p, before);
}

#[test]
fn fill_rect_fills_only_the_rectangle() {
    let (s, mut p) = screen(4, 3);
    fill_rect(&mut p, &s, 1, 1, 2, 1, 5, 6, 7);
    for y in 0..3 {
        for x in 0..4 {
            let expect = if y == 1 && (x == 1 || x == 2) { [5, 6, 7, 255] } else { [0, 0, 0, 0] };
            assert_eq!(px(&p, 4, x, y), expect, "pixel ({}, {})", x, y);
        }
    }
}

#[test]
fn fill_rect_is_clipped_to_the_screen() {
    let (s, mut p) = screen(4, 3);
    fill_rect(&mut p, &s, -1, -1, 3, 3, 1, 2, 3);
    let lit: Vec<(usize, usize)> =
        (0..3).flat_map(|y| (0..4).map(move |x| (x, y))).filter(|&(x, y)| px(&p, 4, x, y)[3] == 255).collect();
    assert_eq!(lit, vec![(0, 0), (1, 0), (0, 1), (1, 1)]);
}

#[test]
fn empty_rectangles_draw_nothing() {
    let (s, mut p) = screen(4, 3);
    fill_rect(&mut p, &s, 1, 1, 0, 2, 1, 2, 3);
    fill_rect(&mut p, &s, 1, 1, -3, 2, 1, 2, 3);
    assert!(p.iter().all(|&b| b == 0));
}

#[test]
fn alpha_extremes() {
    let (s, mut p) = screen(2, 1);
    clear(&mut p, 100, 100, 100);
    set_pixel_alpha(&mut p, &s, 0, 0, 200, 0, 50, 255, &blend);
    assert_eq!(px(&p, 2, 0, 0), [200, 0, 50, 255]);
    set_pixel_alpha(&mut p, &s, 1, 0, 200, 0, 50, 0, &blend);
    assert_eq!(px(&p, 2, 1, 0), [100, 100, 100, 255]);
}

#[test]
fn alpha_blends_each_channel() {
    let (s, mut p) = screen(1, 1);
    clear(&mut p, 0, 100, 200);
    set_pixel_alpha(&mut p, &s, 0, 0, 255, 100, 0, 128, &blend);
    assert_eq!(px(&p, 1, 0, 0), [blend(255, 0, 128), 100, blend(0, 200, 128), 255]);
}

#[test]
fn translucent_rectangle() {
    let (s, mut p) = screen(3, 3);
    clear(&mut p, 0, 0, 0);
    fill_rect_alpha(&mut p, &s, 1, 1, 5, 5, 200, 200, 200, 100, &blend);
    assert_eq!(px(&p, 3, 0, 0), [0, 0, 0, 255]);
    let v = blend(200, 0, 100);
    assert_eq!(px(&p, 3, 2, 2), [v, v, v, 255]);
}

#[test]
fn glyph_shapes() {
    assert_eq!(glyph('a'), [0b010, 0b101, 0b111, 0b101, 0b101]);
    assert_eq!(glyph('0'), [0b111, 0b101, 0b101, 0b101, 0b111]);
    assert_eq!(glyph('x'), [0b101, 0b101, 0b010, 0b101, 0b101]);
}

#[test]
fn text_is_drawn_glyph_by_glyph() {
    let (s, mut p) = screen(8, 5);
    clear(&mut p, 0, 0, 0);
    draw_tiny_string(&mut p, &s, 0, 0, "a0", 255, 255, 255, 255, &blend);
    let rows_a = glyph('a');
    let rows_0 = glyph('0');
    for y in 0..5 {
        for col in 0..3 {
            let on_a = (rows_a[y] >> (2 - col)) & 1 == 1;
            let on_0 = (rows_0[y] >> (2 - col)) & 1 == 1;
            assert_eq!(px(&p, 8, col, y)[0] == 255, on_a, "a at ({}, {})", col, y);
            assert_eq!(px(&p, 8, 4 + col, y)[0] == 255, on_0, "0 at ({}, {})", col, y);
        }
        assert_eq!(px(&p, 8, 3, y)[0], 0);
        assert_eq!(px(&p, 8, 7, y)[0], 0);
    }
}

#[test]
fn text_from_chars_matches_text_from_str() {
    let (s, mut p1) = screen(20, 6);
    let (_, mut p2) = screen(20, 6);
    draw_tiny_string(&mut p1, &s, 1, 1, "ok 7", 10, 200, 30, 180, &blend);
    draw_tiny_chars(&mut p2, &s, 1, 1, &['o', 'k', ' ', '7'], 10, 200, 30, 180, &blend);
    assert_eq!(p1, p2);
}

#[test]
fn string_to_chars() {
    assert_eq!(str_chars("héllo"), vec!['h', 'é', 'l', 'l', 'o']);
    assert!(str_chars("").is_empty());
}

#[test]
fn decimal_digits() {
    let mut v = vec!['x'];
    push_decimal(&mut v, 1234);
    assert_eq!(v, vec!['x', '1', '2', '3', '4']);
    let mut z = Vec::new();
    push_decimal(&mut z, 0);
    assert_eq!(z, vec!['0']);
    let mut m = Vec::new();
    push_decimal(&mut m, u32::MAX);
    assert_eq!(m.iter().collect::<String>(), u32::MAX.to_string());
}

#[test]
fn tree_sprite_pixels() {
    let (s, mut p) = screen(32, 32);
    draw_tree(&mut p, &s, 0, 10, 1);
    // trunk
    assert_eq!(px(&p, 32, 7, 18), [100, 70, 35, 255]);
    // highlight painted last
    assert_eq!(px(&p, 32, 8, 10), [40, 140, 45, 255]);
    // outside the sprite
    assert_eq!(px(&p, 32, 20, 20), [0, 0, 0, 0]);
}

#[test]
fn zoomed_tree_is_scaled() {
    let (s, mut p) = screen(64, 64);
    draw_tree(&mut p, &s, 0, 20, 2);
    assert_eq!(px(&p, 64, 14, 36), [100, 70, 35, 255]);
    assert_eq!(px(&p, 64, 17, 21), [40, 140, 45, 255]);
}

#[test]
fn hero_sprite_pixels() {
    let (s, mut p) = screen(16, 16);
    draw_hero_sprite(&mut p, &s, 0, 0, 0);
    // hair on top, shadow at the bottom
    assert_eq!(px(&p, 16, 5, 0), [80, 50, 20, 255]);
    assert_eq!(px(&p, 16, 2, 15), [15, 40, 15, 255]);
}

#[test]
fn hud_and_panels_keep_the_frame_size() {
    let (s, mut p) = screen(800, 600);
    clear(&mut p, 10, 10, 18);
    let before = p.clone();
    let mut hud = HudState::new();
    hud.inventory_open = true;
    render_hud_buttons(&mut p, &s, &hud, &blend);
    let mut inv = Inventory::new();
    inv.add(ItemId::Logs, 12);
    render_inventory_panel(&mut p, &s, &inv, &blend);
    let mut wc = WoodcuttingSkill::new();
    wc.add_xp(130);
    render_skills_panel(&mut p, &s, &wc, &blend);
    render_portrait(&mut p, &s, 70, 35, &blend);
    assert_eq!(p.len(), before.len());
    assert_ne!(p, before);
    // the portrait's gold frame
    assert_eq!(px(&p, 800, 6, 6), [180, 150, 60, 255]);
}

fn grass_field() -> WorldMap {
    WorldMap { tiles: vec![vec![TileType::Grass; MAP_W]; MAP_H], objects: Vec::new() }
}

#[test]
fn outlined_tiles_have_darker_top_and_left_edges() {
    let (s, mut p) = screen(32, 32);
    let map = grass_field();
    render_tiles_outlined(&mut p, &s, &map, 0, 0, &vec![0; MAP_W]);
    assert_eq!(px(&p, 32, 5, 5), [34, 120, 34, 255]);
    assert_eq!(px(&p, 32, 5, 0), [26, 112, 26, 255]);
    assert_eq!(px(&p, 32, 0, 5), [26, 112, 26, 255]);
    assert_eq!(px(&p, 32, 16, 20), [26, 112, 26, 255]);
    assert_eq!(px(&p, 32, 15, 15), [34, 120, 34, 255]);
}

#[test]
fn zoomed_tiles_have_no_outline() {
    let (s, mut p) = screen(32, 32);
    let map = grass_field();
    render_tiles(&mut p, &s, &map, 0, 0, 1, &vec![0; MAP_W]);
    assert_eq!(px(&p, 32, 5, 0), [34, 120, 34, 255]);
}

#[test]
fn water_shimmers_with_its_wave() {
    let (s, mut p) = screen(16, 16);
    let map = WorldMap::generate_tutorial();
    let mut waves = vec![0; MAP_W];
    waves[0] = 10;
    render_tiles(&mut p, &s, &map, 0, 0, 1, &waves);
    // water (30, 80, 160): blue + wave, green + wave / 2
    assert_eq!(px(&p, 16, 3, 3), [30, 85, 170, 255]);
    waves[0] = 200;
    render_tiles(&mut p, &s, &map, 0, 0, 1, &waves);
    assert_eq!(px(&p, 16, 3, 3), [30, 180, 255, 255]);
}

#[test]
fn corner_minimap_layout() {
    let (s, mut p) = screen(200, 100);
    let map = WorldMap::generate_tutorial();
    render_corner_minimap(&mut p, &s, &map, 150, 50, 120, 20, 10, 5);
    // border, a water corner, the island, the hero and the view rectangle
    assert_eq!(px(&p, 200, 111, 7), [40, 40, 50, 255]);
    assert_eq!(px(&p, 200, 112, 8), [30, 80, 160, 255]);
    assert_eq!(px(&p, 200, 114, 10), [34, 120, 34, 255]);
    assert_eq!(px(&p, 200, 151, 51), [255, 255, 100, 255]);
    assert_eq!(px(&p, 200, 125, 20), [200, 200, 220, 255]);
    assert_eq!(px(&p, 200, 125, 25), [200, 200, 220, 255]);
    assert_eq!(px(&p, 200, 120, 22), [200, 200, 220, 255]);
    assert_eq!(px(&p, 200, 130, 22), [200, 200, 220, 255]);
}

#[test]
fn minimap_sampling_matches_the_scaled_position() {
    // a tile lands on pixel tx * (80 / 200) rounded down
    let scale = 80.0 / MAP_W as f64;
    for t in 0..MAP_W {
        assert_eq!((t as f64 * scale) as i32, (2 * t as i32) / 5);
    }
}

#[test]
fn labelled_portrait_writes_the_values() {
    let (s, mut p) = screen(120, 40);
    clear(&mut p, 0, 0, 0);
    render_portrait_labelled(&mut p, &s, 70, 35, 100, 100, 50, 50, &blend);
    // "100/100" is 7 glyphs: it starts at 31 + (70 - 28) / 2 = 52, row 9
    let rows = glyph('1');
    for y in 0..5 {
        for col in 0..3 {
            let lit = (rows[y] >> (2 - col)) & 1 == 1;
            let under = if y == 0 { [180u8, 30, 30] } else { [180, 30, 30] };
            let expect = if lit {
                [blend(255, under[0], 220), blend(255, under[1], 220), blend(255, under[2], 220), 255]
            } else {
                [under[0], under[1], under[2], 255]
            };
            assert_eq!(px(&p, 120, 52 + col, 9 + y), expect, "({}, {})", col, y);
        }
    }
    // the gold frame is shared with the segmented portrait
    assert_eq!(px(&p, 120, 6, 6), [180, 150, 60, 255]);
}

#[test]
fn segmented_portrait_has_ticks() {
    let (s, mut p) = screen(120, 40);
    clear(&mut p, 0, 0, 0);
    render_portrait(&mut p, &s, 0, 0, &blend);
    // first health tick at x = 31 + 7, in the empty bar
    assert_eq!(px(&p, 120, 38, 10), [60, 20, 20, 255]);
    assert_eq!(px(&p, 120, 37, 10), [40, 15, 15, 255]);
}

#[test]
fn panel_buttons_leave_out_the_map_button() {
    let (s, mut p1) = screen(200, 150);
    let (_, mut p2) = screen(200, 150);
    let hud = HudState::new();
    render_panel_buttons(&mut p1, &s, &hud, &blend);
    render_hud_buttons(&mut p2, &s, &hud, &blend);
    // the map button's frame at the top right is drawn only with the full HUD
    assert_eq!(px(&p1, 200, 168, 8), [0, 0, 0, 0]);
    assert_ne!(px(&p2, 200, 168, 8), [0, 0, 0, 0]);
    // the bottom-right buttons are the same
    assert_eq!(px(&p1, 200, 170, 120), px(&p2, 200, 170, 120));
}
