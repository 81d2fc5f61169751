//! Cell store, styling and box tests.

use notcurses_core::cell::NcCell;
use notcurses_core::channel::NcChannels;
use notcurses_core::context::{Nc, NCBLIT_2X1, NCSCALE_STRETCH};
use notcurses_core::plane::NcPlane;
use notcurses_core::{
    NcError, NCALPHA_OPAQUE, NCALPHA_TRANSPARENT, NCSTYLE_BOLD, NCSTYLE_ITALIC, NCSTYLE_MASK,
    NCSTYLE_UNDERLINE,
};

#[test]
fn from_char7b_accepts_ascii_only() {
    let c = NcCell::from_char7b('a').unwrap();
    assert_eq!(c.gcluster, 'a' as u32);
    assert_eq!(c.width, 1);
    assert!(NcCell::from_char7b('\u{E9}').is_err());
}

#[test]
fn from_char_and_from_str() {
    let mut plane = NcPlane::new(2, 2).unwrap();
    let c = NcCell::from_char(&mut plane, '\u{E9}').unwrap();
    assert_eq!(c.strdup(&plane), "\u{E9}");
    let s = NcCell::from_str(&mut plane, "e\u{301}x").unwrap();
    assert_eq!(s.strdup(&plane), "e\u{301}");
    assert!(NcCell::from_char(&mut plane, '\n').is_err());
    assert!(NcCell::from_str(&mut plane, "").is_err());
}

#[test]
fn load_rejects_empty_and_controls() {
    let mut plane = NcPlane::new(2, 2).unwrap();
    let mut cell = NcCell::new();
    assert_eq!(NcCell::load(&mut plane, &mut cell, ""), Err(NcError::Encoding));
    assert_eq!(NcCell::load(&mut plane, &mut cell, "\x07x"), Err(NcError::Encoding));
    assert_eq!(NcCell::load(&mut plane, &mut cell, "ab").unwrap(), 1);
    assert_eq!(cell.strdup(&plane), "a");
}

#[test]
fn prime_sets_styling() {
    let mut plane = NcPlane::new(2, 2).unwrap();
    let mut cell = NcCell::new();
    let mut ch = NcChannels::new();
    ch.fg.set_rgb(0x123456);
    NcCell::prime(&mut plane, &mut cell, "z", NCSTYLE_BOLD, ch).unwrap();
    assert_eq!(cell.strdup(&plane), "z");
    let mut style = 0u16;
    let mut out = NcChannels::new();
    let _ = cell.extract(&mut plane, &mut style, &mut out);
    assert_eq!(style, NCSTYLE_BOLD);
    assert_eq!(out.fg.rgb, 0x123456);
}

#[test]
fn duplicate_copies_content() {
    let mut plane = NcPlane::new(2, 2).unwrap();
    let mut cell = NcCell::new();
    NcCell::load(&mut plane, &mut cell, "e\u{301}").unwrap();
    let copy = cell.duplicate(&mut plane).unwrap();
    assert_ne!(copy.gcluster, cell.gcluster);
    assert_eq!(copy.strdup(&plane), "e\u{301}");
    assert!(!NcCell::compare(&plane, &cell, &plane, &copy));
}

#[test]
fn compare_sees_content_not_slots() {
    let mut plane = NcPlane::new(2, 2).unwrap();
    let mut a = NcCell::new();
    let mut b = NcCell::new();
    NcCell::load(&mut plane, &mut a, "e\u{301}").unwrap();
    NcCell::load(&mut plane, &mut b, "e\u{301}").unwrap();
    assert!(!NcCell::compare(&plane, &a, &plane, &b));
    let mut c = NcCell::new();
    NcCell::load(&mut plane, &mut c, "x").unwrap();
    assert!(NcCell::compare(&plane, &a, &plane, &c));
    c.styles_on(NCSTYLE_BOLD);
    assert!(NcCell::compare(&plane, &a, &plane, &c));
}

#[test]
fn style_bits_on_off_set() {
    let mut cell = NcCell::new();
    cell.styles_on(NCSTYLE_BOLD | NCSTYLE_ITALIC);
    assert_eq!(cell.styles(), NCSTYLE_BOLD | NCSTYLE_ITALIC);
    cell.styles_off(NCSTYLE_BOLD);
    assert_eq!(cell.styles(), NCSTYLE_ITALIC);
    cell.styles_set(NCSTYLE_UNDERLINE);
    assert_eq!(cell.styles(), NCSTYLE_UNDERLINE);
    cell.styles_on(!0u16);
    assert_eq!(cell.styles(), NCSTYLE_MASK);
}

#[test]
fn alpha_and_palette_accessors() {
    let mut cell = NcCell::new();
    cell.set_bg_alpha(NCALPHA_TRANSPARENT);
    assert_eq!(cell.bg_alpha(), NCALPHA_TRANSPARENT);
    cell.set_bg_palindex(7);
    assert_eq!(cell.bg_palindex(), 7);
    assert!(cell.bg_palindex_p());
    assert_eq!(cell.bg_alpha(), NCALPHA_OPAQUE);
    assert!(!cell.bg_default_p());
    cell.set_bg_default();
    assert!(cell.bg_default_p());
    assert!(!cell.bg_palindex_p());
    cell.set_fg_alpha(NCALPHA_TRANSPARENT);
    assert_eq!(cell.fg_alpha(), NCALPHA_TRANSPARENT);
    cell.set_fg_palindex(3);
    assert!(cell.fg_palindex_p());
    assert_eq!(cell.fg_palindex(), 3);
    cell.set_fg_default();
    assert!(cell.fg_default_p());
}

#[test]
fn wide_glyph_occupies_a_pair() {
    let mut plane = NcPlane::new(2, 4).unwrap();
    let w = plane.put_egc_yx(0, 1, "\u{65E5}").unwrap();
    assert_eq!(w, 2);
    let lead = plane.cell_yx(0, 1).unwrap();
    assert!(lead.double_wide_p());
    assert!(lead.wide_left_p());
    assert_eq!(lead.cols(), 2);
    let tail = plane.cell_yx(0, 2).unwrap();
    assert!(tail.wide_right_p());
    assert_eq!(tail.cols(), 0);
    // overwriting one half clears the other
    plane.put_egc_yx(0, 2, "x").unwrap();
    let cleared = plane.cell_yx(0, 1).unwrap();
    assert!(!cleared.double_wide_p());
    assert_eq!(cleared.gcluster, 0);
}

#[test]
fn light_box_loads_six_glyphs() {
    let mut plane = NcPlane::new(4, 4).unwrap();
    let mut ul = NcCell::new();
    let mut ur = NcCell::new();
    let mut ll = NcCell::new();
    let mut lr = NcCell::new();
    let mut hl = NcCell::new();
    let mut vl = NcCell::new();
    NcCell::light_box(
        &mut plane,
        NCSTYLE_BOLD,
        NcChannels::new(),
        &mut ul,
        &mut ur,
        &mut ll,
        &mut lr,
        &mut hl,
        &mut vl,
    )
    .unwrap();
    assert_eq!(ul.strdup(&plane), "\u{250C}");
    assert_eq!(ur.strdup(&plane), "\u{2510}");
    assert_eq!(ll.strdup(&plane), "\u{2514}");
    assert_eq!(lr.strdup(&plane), "\u{2518}");
    assert_eq!(hl.strdup(&plane), "\u{2500}");
    assert_eq!(vl.strdup(&plane), "\u{2502}");
    assert_eq!(vl.styles(), NCSTYLE_BOLD);
}

#[test]
fn box_load_failure_rolls_back() {
    let mut plane = NcPlane::new(4, 4).unwrap();
    let mut ul = NcCell::new();
    let mut ur = NcCell::new();
    let mut ll = NcCell::new();
    let mut lr = NcCell::new();
    let mut hl = NcCell::new();
    let mut vl = NcCell::new();
    let r = NcCell::load_box(
        &mut plane,
        0,
        NcChannels::new(),
        &mut ul,
        &mut ur,
        &mut ll,
        &mut lr,
        &mut hl,
        &mut vl,
        "ab",
    );
    assert!(r.is_err());
    for c in [ul, ur, ll, lr, hl, vl] {
        assert_eq!(c, NcCell::new());
    }
}

#[test]
fn ascii_heavy_double_rounded_boxes() {
    let mut plane = NcPlane::new(4, 4).unwrap();
    let mut ul = NcCell::new();
    let mut ur = NcCell::new();
    let mut ll = NcCell::new();
    let mut lr = NcCell::new();
    let mut hl = NcCell::new();
    let mut vl = NcCell::new();
    NcCell::ascii_box(
        &mut plane, 0, NcChannels::new(), &mut ul, &mut ur, &mut ll, &mut lr, &mut hl, &mut vl,
    )
    .unwrap();
    assert_eq!(ul.strdup(&plane), "/");
    assert_eq!(vl.strdup(&plane), "|");
    NcCell::heavy_box(
        &mut plane, 0, NcChannels::new(), &mut ul, &mut ur, &mut ll, &mut lr, &mut hl, &mut vl,
    )
    .unwrap();
    assert_eq!(ul.strdup(&plane), "\u{250F}");
    NcCell::double_box(
        &mut plane, 0, NcChannels::new(), &mut ul, &mut ur, &mut ll, &mut lr, &mut hl, &mut vl,
    )
    .unwrap();
    assert_eq!(ul.strdup(&plane), "\u{2554}");
    NcCell::rounded_box(
        &mut plane, 0, NcChannels::new(), &mut ul, &mut ur, &mut ll, &mut lr, &mut hl, &mut vl,
    )
    .unwrap();
    assert_eq!(ul.strdup(&plane), "\u{256D}");
}

#[test]
fn erase_region_clamps_and_clears() {
    let mut plane = NcPlane::new(4, 8).unwrap();
    plane.putstr_yx(1, 0, "abcdefgh").unwrap();
    plane.erase_region(1, 2, 1, 3);
    assert_eq!(plane.cell_yx(1, 0).unwrap().strdup(&plane), "a");
    assert_eq!(plane.cell_yx(1, 2).unwrap().gcluster, 0);
    assert_eq!(plane.cell_yx(1, 4).unwrap().gcluster, 0);
    assert_eq!(plane.cell_yx(1, 5).unwrap().strdup(&plane), "f");
    // a region beyond the grid is clamped, never an error
    plane.erase_region(100, 100, 5, 5);
}

#[test]
fn context_string_functions() {
    assert_eq!(Nc::lex_styles("bold").unwrap(), NCSTYLE_BOLD);
    assert_eq!(Nc::lex_styles("Bold ITALIC").unwrap(), NCSTYLE_BOLD | NCSTYLE_ITALIC);
    assert_eq!(Nc::lex_styles("none").unwrap(), 0);
    assert!(Nc::lex_styles("shiny").is_err());
    assert!(Nc::lex_styles("").is_err());
    assert_eq!(Nc::str_styles(NCSTYLE_BOLD | NCSTYLE_ITALIC), "italic bold");
    assert_eq!(Nc::str_styles(0), "none");
    assert_eq!(Nc::str_blitter(NCBLIT_2X1), "2x1");
    assert_eq!(Nc::lex_blitter("2x1").unwrap(), NCBLIT_2X1);
    assert!(Nc::lex_blitter("nope").is_err());
    assert_eq!(Nc::str_scalemode(NCSCALE_STRETCH), "stretch");
    assert_eq!(Nc::lex_scalemode("stretch").unwrap(), NCSCALE_STRETCH);
    assert_eq!(Nc::version_components(), (0, 1, 0, 0));
}

#[test]
fn putstr_clips_without_scrolling_and_wraps_with() {
    let mut plane = NcPlane::new(3, 4).unwrap();
    let n = plane.putstr_yx(0, 2, "abcdef").unwrap();
    // two columns remain in the row and scrolling is off: clipped
    assert_eq!(n, 2);
    assert_eq!(plane.cell_yx(0, 2).unwrap().strdup(&plane), "a");
    assert_eq!(plane.cell_yx(0, 3).unwrap().strdup(&plane), "b");
    assert_eq!(plane.cell_yx(1, 0).unwrap().gcluster, 0);
    plane.set_scrolling(true);
    let n2 = plane.putstr_yx(1, 2, "wxyz").unwrap();
    assert_eq!(n2, 4);
    assert_eq!(plane.cell_yx(1, 3).unwrap().strdup(&plane), "x");
    assert_eq!(plane.cell_yx(2, 0).unwrap().strdup(&plane), "y");
    assert_eq!(plane.cell_yx(2, 1).unwrap().strdup(&plane), "z");
    assert!(plane.putstr_yx(9, 0, "no").is_err());
}

#[test]
fn putstr_applies_write_attributes() {
    let mut plane = NcPlane::new(2, 8).unwrap();
    plane.set_styles(NCSTYLE_UNDERLINE);
    let mut ch = NcChannels::new();
    ch.fg.set_rgb(0x00AA00);
    plane.set_channels(ch);
    plane.putstr_yx(0, 0, "ok").unwrap();
    let c = plane.cell_yx(0, 0).unwrap();
    assert_eq!(c.stylemask, NCSTYLE_UNDERLINE);
    assert_eq!(c.channels.fg.rgb, 0x00AA00);
}
