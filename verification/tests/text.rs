use ruwabar::blend::blend;
use ruwabar::blend::composite;
use ruwabar::canvas::Canvas;
use ruwabar::glyph::Glyph;

const BG: u32 = 0xff44_848c;
const BLACK: u32 = 0xff00_0000;

#[test]
fn blend_pixel_opaque_foreground_under_full_coverage_wins() {
    let canvas = Canvas::new(1, 1, 0);
    for fg in [0xff00_0000u32, 0xffff_ffff, 0xffcf_4345, 0xff01_0203, 0xff80_7f81] {
        for bg in [0u32, 0xffff_ffff, 0x8012_3456, 0xff44_848c, 0x00ff_ffff] {
            assert_eq!(canvas.blend_pixel(fg, bg, 255), fg);
            assert_eq!(blend(fg, bg, 255), fg);
        }
    }
}

#[test]
fn blend_pixel_weighs_both_colors() {
    let canvas = Canvas::new(1, 1, 0);
    assert_eq!(canvas.blend_pixel(0xff00_0000, 0xff44_848c, 128), 0xff21_4145);
    assert_eq!(canvas.blend_pixel(0xff00_0000, 0xff44_848c, 64), 0xff32_6268);
    assert_eq!(canvas.blend_pixel(0xff00_0000, 0xff44_848c, 1), 0xff43_838b);
    assert_eq!(canvas.blend_pixel(0xffcf_4345, 0xff18_1818, 64), 0xff45_2223);
    assert_eq!(canvas.blend_pixel(0xffff_ffff, 0xff00_0000, 128), 0xff80_8080);
    assert_eq!(canvas.blend_pixel(0xffff_ffff, 0xff00_0000, 51), 0xff33_3333);
}

#[test]
fn blend_pixel_scales_alpha() {
    let canvas = Canvas::new(1, 1, 0);
    assert_eq!(canvas.blend_pixel(0x80ff_0000, 0xff00_00ff, 255), 0xff80_007f);
    assert_eq!(canvas.blend_pixel(0x80ff_0000, 0x8000_00ff, 128), 0x9f66_0098);
    assert_eq!(canvas.blend_pixel(0x40ff_ffff, 0xc000_0000, 200), 0xcc3e_3e3e);
    assert_eq!(canvas.blend_pixel(0xffff_0000, 0x0000_0000, 128), 0x80ff_0000);
    assert_eq!(canvas.blend_pixel(0xff10_2030, 0x0000_0000, 1), 0x0110_2030);
}

#[test]
fn blend_pixel_without_coverage_keeps_the_background() {
    let canvas = Canvas::new(1, 1, 0);
    assert_eq!(canvas.blend_pixel(0xffff_ffff, 0xff44_848c, 0), 0xff44_848c);
    assert_eq!(canvas.blend_pixel(0x0012_3456, 0xffab_cdef, 200), 0xffab_cdef);
}

#[test]
fn composite_of_two_transparent_colors_is_transparent_black() {
    assert_eq!(composite(0x0012_3456, 0x00ab_cdef, 200), 0);
    assert_eq!(composite(0xff12_3456, 0x00ab_cdef, 0), 0);
    assert_eq!(composite(0xff00_0000, 0xff44_848c, 128), 0xff21_4145);
}

#[test]
fn glyph_needs_one_cell_for_each_coordinate() {
    assert!(Glyph::new(2, 2, 0, 3, vec![1, 2, 3, 4]).is_some());
    assert!(Glyph::new(2, 2, 0, 3, vec![1, 2, 3]).is_none());
    assert!(Glyph::new(2, 2, 0, 3, vec![1, 2, 3, 4, 5]).is_none());
    assert!(Glyph::new(0, 7, 0, 3, vec![]).is_some());
    assert!(Glyph::new(u32::MAX, u32::MAX, 0, 3, vec![]).is_none());
}

#[test]
fn glyph_hands_out_its_metrics_and_cells() {
    let glyph = Glyph::new(3, 2, -1, 4, vec![10, 20, 30, 40, 50, 60]).unwrap();
    assert_eq!(glyph.width(), 3);
    assert_eq!(glyph.height(), 2);
    assert_eq!(glyph.ymin(), -1);
    assert_eq!(glyph.advance_width(), 4);
    assert_eq!(glyph.coverage_at(0, 0), Some(10));
    assert_eq!(glyph.coverage_at(2, 0), Some(30));
    assert_eq!(glyph.coverage_at(0, 1), Some(40));
    assert_eq!(glyph.coverage_at(2, 1), Some(60));
    assert_eq!(glyph.coverage_at(3, 0), None);
    assert_eq!(glyph.coverage_at(0, 2), None);
}

#[test]
fn draw_char_blends_covered_cells_above_the_baseline() {
    let mut canvas = Canvas::new(5, 5, BG);
    let glyph = Glyph::new(2, 2, 0, 2, vec![255, 128, 0, 64]).unwrap();
    canvas.draw_char(1, 4, &glyph, BLACK);
    for x in 0..5 {
        for y in 0..5 {
            let expected = match (x, y) {
                (1, 2) => 0xff00_0000,
                (2, 2) => 0xff21_4145,
                (2, 3) => 0xff32_6268,
                _ => BG,
            };
            assert_eq!(canvas.get_pixel(x, y), Some(expected));
        }
    }
}

#[test]
fn draw_char_lowers_a_descender() {
    let mut canvas = Canvas::new(4, 6, BG);
    let glyph = Glyph::new(1, 3, -2, 1, vec![255, 255, 255]).unwrap();
    canvas.draw_char(2, 3, &glyph, BLACK);
    let black: Vec<u32> = (0..6).filter(|y| canvas.get_pixel(2, *y) == Some(BLACK)).collect();
    assert_eq!(black, vec![2, 3, 4]);
}

#[test]
fn draw_char_is_clipped_on_every_side() {
    let mut canvas = Canvas::new(3, 3, BG);
    let glyph = Glyph::new(4, 4, 0, 4, vec![255; 16]).unwrap();
    canvas.draw_char(1, 2, &glyph, BLACK);
    for x in 0..3 {
        for y in 0..3 {
            let expected = if x >= 1 && y <= 1 { BLACK } else { BG };
            assert_eq!(canvas.get_pixel(x, y), Some(expected));
        }
    }
    let mut canvas = Canvas::new(3, 3, BG);
    canvas.draw_char(3, 3, &glyph, BLACK);
    canvas.draw_char(u32::MAX, u32::MAX, &glyph, BLACK);
    canvas.draw_char(0, 0, &glyph, BLACK);
    assert_eq!(canvas.pixels(), &vec![BG; 9]);
}

#[test]
fn draw_char_blends_over_what_is_there() {
    let mut canvas = Canvas::new(1, 1, BG);
    let glyph = Glyph::new(1, 1, 0, 1, vec![128]).unwrap();
    canvas.draw_char(0, 1, &glyph, 0xff00_ff00);
    assert_eq!(canvas.get_pixel(0, 0), Some(0xff21_c145));
    canvas.draw_char(0, 1, &glyph, BLACK);
    assert_eq!(canvas.get_pixel(0, 0), Some(blend(BLACK, 0xff21_c145, 128)));
}

#[test]
fn draw_char_on_transparent_with_transparent_color_clears_the_pixel() {
    let mut canvas = Canvas::new(2, 1, 0x0012_3456);
    let glyph = Glyph::new(1, 1, 0, 1, vec![9]).unwrap();
    canvas.draw_char(0, 1, &glyph, 0x00ff_ffff);
    assert_eq!(canvas.pixels(), &vec![0, 0x0012_3456]);
}

#[test]
fn draw_string_advances_by_each_glyph() {
    let mut canvas = Canvas::new(10, 2, BG);
    let thin = Glyph::new(1, 1, 0, 3, vec![255]).unwrap();
    let wide = Glyph::new(2, 1, 0, 4, vec![255, 255]).unwrap();
    let blank = Glyph::new(0, 0, 0, 1, vec![]).unwrap();
    let text = vec![thin, wide, blank, Glyph::new(1, 1, 0, 9, vec![255]).unwrap()];
    canvas.draw_string(1, 1, &text, BLACK);
    let black: Vec<u32> = (0..10).filter(|x| canvas.get_pixel(*x, 0) == Some(BLACK)).collect();
    assert_eq!(black, vec![1, 4, 5, 9]);
    assert!((0..10).all(|x| canvas.get_pixel(x, 1) == Some(BG)));
}

#[test]
fn draw_string_equals_drawing_each_glyph_in_turn() {
    let a = Glyph::new(2, 2, 0, 3, vec![255, 10, 0, 200]).unwrap();
    let b = Glyph::new(3, 1, 1, 2, vec![1, 2, 3]).unwrap();
    let mut whole = Canvas::new(9, 4, BG);
    let mut single = Canvas::new(9, 4, BG);
    single.draw_char(2, 3, &a, 0x80ff_0000);
    single.draw_char(5, 3, &b, 0x80ff_0000);
    single.draw_char(7, 3, &a, 0x80ff_0000);
    let text = vec![
        Glyph::new(2, 2, 0, 3, vec![255, 10, 0, 200]).unwrap(),
        Glyph::new(3, 1, 1, 2, vec![1, 2, 3]).unwrap(),
        Glyph::new(2, 2, 0, 3, vec![255, 10, 0, 200]).unwrap(),
    ];
    whole.draw_string(2, 3, &text, 0x80ff_0000);
    assert_eq!(whole.pixels(), single.pixels());
    assert!(whole.pixels() != &vec![BG; 36]);
}

#[test]
fn draw_string_beyond_the_right_edge_leaves_no_mark() {
    let mut canvas = Canvas::new(3, 1, BG);
    let far = Glyph::new(1, 1, 0, u32::MAX, vec![255]).unwrap();
    let text = vec![
        Glyph::new(1, 1, 0, u32::MAX, vec![255]).unwrap(),
        Glyph::new(1, 1, 0, u32::MAX, vec![255]).unwrap(),
        far,
    ];
    canvas.draw_string(2, 1, &text, BLACK);
    assert_eq!(canvas.pixels(), &vec![BG, BG, BLACK]);
    let mut canvas = Canvas::new(3, 1, BG);
    canvas.draw_string(0, 1, &Vec::new(), BLACK);
    assert_eq!(canvas.pixels(), &vec![BG; 3]);
}
