use meatshell::palette::{
    contains_cjk, darken_light_fg, idx_to_rgb, idx_to_rgb_bg, lighten_dark_bg, vt_bg_to_slint,
    vt_color_to_slint, Shade, ANSI16_DARK, ANSI16_LIGHT, ANSI16_LIGHT_BG,
};
use meatshell::vt::VtColor;

fn lightness(r: u8, g: u8, b: u8) -> f32 {
    let r = r as f32 / 255.0;
    let g = g as f32 / 255.0;
    let b = b as f32 / 255.0;
    let max = r.max(g).max(b);
    let min = r.min(g).min(b);
    (max + min) / 2.0
}

#[test]
fn base_colours() {
    for i in 0..16u8 {
        assert_eq!(idx_to_rgb(i, false, true), ANSI16_DARK[i as usize]);
        assert_eq!(idx_to_rgb(i, false, false), ANSI16_LIGHT[i as usize]);
        assert_eq!(idx_to_rgb_bg(i, true), ANSI16_DARK[i as usize]);
        assert_eq!(idx_to_rgb_bg(i, false), ANSI16_LIGHT_BG[i as usize]);
    }
    assert_eq!(idx_to_rgb(1, false, true), (0xcd, 0x31, 0x31));
    assert_eq!(idx_to_rgb(7, false, false), (0x3a, 0x3a, 0x3c));
    assert_eq!(idx_to_rgb_bg(0, false), (0xe8, 0xe8, 0xed));
}

#[test]
fn bold_brightens_base_colours_only() {
    for i in 0..8u8 {
        assert_eq!(idx_to_rgb(i, true, true), idx_to_rgb(i + 8, false, true));
    }
    for i in 8..=255u8 {
        assert_eq!(idx_to_rgb(i, true, false), idx_to_rgb(i, false, false));
    }
}

#[test]
fn cube_and_greys() {
    assert_eq!(idx_to_rgb(16, false, true), (0, 0, 0));
    assert_eq!(idx_to_rgb(17, false, true), (0, 0, 95));
    assert_eq!(idx_to_rgb(22, false, true), (0, 95, 0));
    assert_eq!(idx_to_rgb(52, false, true), (95, 0, 0));
    assert_eq!(idx_to_rgb(231, false, true), (255, 255, 255));
    assert_eq!(idx_to_rgb(200, false, false), (255, 0, 215));
    assert_eq!(idx_to_rgb(232, false, true), (8, 8, 8));
    assert_eq!(idx_to_rgb(255, false, true), (238, 238, 238));
    for i in 16..=255u8 {
        assert_eq!(idx_to_rgb_bg(i, false), idx_to_rgb(i, false, true));
    }
}

#[test]
fn shades_of_text() {
    assert_eq!(vt_color_to_slint(VtColor::Default, false, true), Shade::Opaque(0xd4, 0xd4, 0xd4));
    assert_eq!(vt_color_to_slint(VtColor::Default, true, false), Shade::Opaque(0x2d, 0x2d, 0x2f));
    assert_eq!(vt_color_to_slint(VtColor::Idx(2), true, true), Shade::Opaque(0x23, 0xd1, 0x8b));
    let rgb = VtColor::Rgb(250, 250, 250);
    assert_eq!(vt_color_to_slint(rgb, false, true), Shade::Opaque(250, 250, 250));
    assert_eq!(vt_color_to_slint(rgb, false, false), Shade::Darkened(250, 250, 250));
    assert_eq!(vt_color_to_slint(VtColor::Rgb(1, 2, 3), false, false), Shade::Opaque(1, 2, 3));
}

#[test]
fn shades_of_fill() {
    assert_eq!(vt_bg_to_slint(VtColor::Default, true), Shade::Clear);
    assert_eq!(vt_bg_to_slint(VtColor::Default, false), Shade::Clear);
    assert_eq!(vt_bg_to_slint(VtColor::Idx(4), false), Shade::Opaque(0xd5, 0xe8, 0xf8));
    assert_eq!(vt_bg_to_slint(VtColor::Rgb(0, 0, 0), true), Shade::Opaque(0, 0, 0));
    assert_eq!(vt_bg_to_slint(VtColor::Rgb(0, 0, 0), false), Shade::Lightened(0, 0, 0));
    assert_eq!(vt_bg_to_slint(VtColor::Rgb(200, 200, 200), false), Shade::Opaque(200, 200, 200));
}

#[test]
fn thresholds_are_those_of_the_lightness() {
    for max in 0..=255u8 {
        for min in 0..=max {
            let mid = min / 2 + max / 2;
            for (r, g, b) in [(max, min, mid.max(min)), (min, max, min), (min, mid.max(min), max)] {
                let l = lightness(r, g, b);
                let dark = darken_light_fg(r, g, b);
                let light = lighten_dark_bg(r, g, b);
                assert_eq!(dark == Shade::Opaque(r, g, b), l < 0.55);
                assert_eq!(dark == Shade::Darkened(r, g, b), l >= 0.55);
                assert_eq!(light == Shade::Opaque(r, g, b), l >= 0.45);
                assert_eq!(light == Shade::Lightened(r, g, b), l < 0.45);
            }
        }
    }
}

#[test]
fn cjk_characters() {
    assert!(!contains_cjk(""));
    assert!(!contains_cjk("hello ─│ \u{e0b0}"));
    assert!(contains_cjk("a中"));
    assert!(contains_cjk("。"));
    assert!(contains_cjk("，"));
    assert!(contains_cjk("あ"));
    assert!(contains_cjk("ㄅ"));
    assert!(contains_cjk("\u{2e80}"));
    assert!(contains_cjk("\u{20000}"));
    assert!(contains_cjk("\u{2fa1f}"));
    assert!(!contains_cjk("\u{2fa20}"));
    assert!(!contains_cjk("한"));
    assert!(!contains_cjk("\u{3130}"));
}
