//! Scenario tests for the cell store, the plane, the compositor and the
//! input decoder.

use notcurses_core::cell::NcCell;
use notcurses_core::channel::NcChannels;
use notcurses_core::context::{Nc, NcCapabilities, NcOptions};
use notcurses_core::input::{NcInput, NcInputDecoder, NCEVTYPE_PRESS, NCEVTYPE_RELEASE};
use notcurses_core::key::NcKey;
use notcurses_core::{NCSTYLE_BOLD, NCSTYLE_ITALIC, NCSTYLE_STRUCK, NCSTYLE_UNDERCURL};
use notcurses_core::plane::NcPlane;

const FAMILY: &str = "\u{1F469}\u{200D}\u{1F469}\u{200D}\u{1F466}";

#[test]
fn release_twice_is_no_op() {
    let mut plane = NcPlane::new(4, 4).unwrap();
    let mut cell = NcCell::new();
    NcCell::load(&mut plane, &mut cell, FAMILY).unwrap();
    assert!(!plane.pool.is_empty());
    cell.release(&mut plane);
    let after_first = (cell, plane.pool.clone());
    cell.release(&mut plane);
    assert_eq!(cell, after_first.0);
    assert_eq!(plane.pool, after_first.1);
    assert_eq!(cell.gcluster, 0);
}

#[test]
fn load_extract_round_trip_outlives_erase() {
    let mut plane = NcPlane::new(4, 4).unwrap();
    let mut cell = NcCell::new();
    let consumed = NcCell::load(&mut plane, &mut cell, FAMILY).unwrap();
    assert_eq!(consumed as usize, FAMILY.len());
    assert!(FAMILY.len() > 4);
    let mut style = 0u16;
    let mut channels = NcChannels::new();
    let text = cell.extract(&mut plane, &mut style, &mut channels);
    assert_eq!(text, FAMILY);
    plane.erase();
    assert_eq!(text, FAMILY);
}

#[test]
fn resize_shrink_then_grow_preserves_content() {
    let mut plane = NcPlane::new(10, 10).unwrap();
    plane.put_egc_yx(2, 3, "A").unwrap();
    plane.put_egc_yx(1, 1, "e\u{301}").unwrap();
    plane.resize(5, 5).unwrap();
    plane.resize(10, 10).unwrap();
    let a = plane.cell_yx(2, 3).unwrap();
    assert_eq!(a.strdup(&plane), "A");
    let e = plane.cell_yx(1, 1).unwrap();
    assert_eq!(e.strdup(&plane), "e\u{301}");
    let far = plane.cell_yx(7, 7).unwrap();
    assert_eq!(far.gcluster, 0);
}

#[test]
fn rgb_setter_round_trip() {
    let mut cell = NcCell::new();
    cell.set_bg_rgb(0x112233);
    assert_eq!(cell.bg_rgb(), 0x112233);
    assert!(!cell.bg_default_p());
    cell.set_fg_rgb8(0xAA, 0xBB, 0xCC);
    assert_eq!(cell.fg_rgb(), 0xAABBCC);
    assert_eq!(cell.fg_rgb8(), (0xAA, 0xBB, 0xCC));
    assert!(!cell.fg_default_p());
}

#[test]
fn opaque_top_cell_hides_planes_below() {
    let mut nc = Nc::with_term(4, 4, NcCapabilities::new(), NcOptions::new()).unwrap();
    nc.putstr_yx(0, 1, 1, "abc").unwrap();
    let top = nc.create_plane(0, 0, 0, 4, 4).unwrap();
    let mut ch = NcChannels::new();
    ch.bg.set_rgb(0x003300);
    ch.fg.set_rgb(0xFFFFFF);
    nc.set_plane_base(top, '#', 0, ch).unwrap();
    nc.render().unwrap();
    let mut style = 0u16;
    let mut out = NcChannels::new();
    let egc = nc.at_yx(1, 1, &mut style, &mut out).unwrap();
    assert_eq!(egc, "#");
    // change everything beneath: the resolved output must not move
    nc.putstr_yx(0, 1, 1, "xyz").unwrap();
    nc.render().unwrap();
    let egc2 = nc.at_yx(1, 1, &mut style, &mut out).unwrap();
    assert_eq!(egc2, "#");
    assert_eq!(out.bg.rgb, 0x003300);
}

#[test]
fn decoder_arrow_up_round_trip() {
    let mut dec = NcInputDecoder::new();
    dec.feed_bytes(&[0x1B, b'[', b'A']);
    let ev = dec.poll_event().unwrap();
    assert_eq!(ev.id, NcKey::UP as u32);
    assert!(!ev.alt && !ev.shift && !ev.ctrl);
    assert_eq!(ev.evtype, NCEVTYPE_PRESS);
}

#[test]
fn decoder_utf8_codepoint() {
    let mut dec = NcInputDecoder::new();
    dec.feed_bytes("\u{E9}".as_bytes());
    let ev = dec.poll_event().unwrap();
    assert_eq!(ev.id, '\u{E9}' as u32);
    assert_eq!(ev.y, -1);
    assert_eq!(ev.x, -1);
}

#[test]
fn decoder_mouse_report() {
    let mut dec = NcInputDecoder::new();
    dec.feed_bytes(b"\x1b[<0;10;5M");
    let press = dec.poll_event().unwrap();
    assert_eq!(press.id, NcKey::BUTTON1 as u32);
    assert_eq!(press.x, 9);
    assert_eq!(press.y, 4);
    assert_eq!(press.evtype, NCEVTYPE_PRESS);
    dec.feed_bytes(b"\x1b[<0;10;5m");
    let release = dec.poll_event().unwrap();
    assert_eq!(release.evtype, NCEVTYPE_RELEASE);
}

#[test]
fn decoder_discards_malformed_bytes() {
    let mut dec = NcInputDecoder::new();
    dec.feed_bytes(&[0xFF, 0x80, b'a']);
    let ev = dec.poll_event().unwrap();
    assert_eq!(ev.id, 'a' as u32);
    assert!(dec.poll_event().is_none());
}

#[test]
fn write_erase_resize_scenario() {
    let mut plane = NcPlane::new(10, 40).unwrap();
    let written = plane.putstr_yx(0, 0, "hello").unwrap();
    assert_eq!(written, 5);
    let h = plane.cell_yx(0, 0).unwrap();
    assert_eq!(h.strdup(&plane), "h");
    plane.resize(5, 40).unwrap();
    plane.erase();
    plane.resize(10, 40).unwrap();
    let after = plane.cell_yx(0, 0).unwrap();
    assert_eq!(after, plane.base());
    assert_eq!(after.gcluster, 0);
}

#[test]
fn bound_child_covers_parent() {
    let mut nc = Nc::with_term(5, 5, NcCapabilities::new(), NcOptions::new()).unwrap();
    nc.putstr_yx(0, 2, 0, "AAAAA").unwrap();
    let b = nc.create_plane(0, 0, 0, 5, 5).unwrap();
    let mut ch = NcChannels::new();
    ch.bg.set_rgb(0x0000FF);
    nc.set_plane_base(b, '#', 0, ch).unwrap();
    nc.render().unwrap();
    let mut style = 0u16;
    let mut out = NcChannels::new();
    for y in 0..5u32 {
        for x in 0..5u32 {
            let egc = nc.at_yx(y, x, &mut style, &mut out).unwrap();
            assert_eq!(egc, "#");
        }
    }
}

#[test]
fn getc_returns_queued_event() {
    let mut nc = Nc::new().unwrap();
    assert_eq!(nc.getc_nblock(None).unwrap(), '\0');
    nc.feed_input(&[b'q']);
    let mut ev = NcInput::new_empty();
    let c = nc.getc_blocking(Some(&mut ev)).unwrap();
    assert_eq!(c, 'q');
    assert_eq!(ev.id, 'q' as u32);
    assert!(nc.getc(None, None).is_err());
}

#[test]
fn zorder_moves_and_destroy() {
    let mut nc = Nc::with_term(3, 3, NcCapabilities::new(), NcOptions::new()).unwrap();
    let a = nc.create_plane(0, 0, 0, 3, 3).unwrap();
    let b = nc.create_plane(0, 0, 0, 3, 3).unwrap();
    // newest plane starts topmost
    assert_eq!(nc.zorder[0], b);
    nc.move_above(a, b).unwrap();
    assert_eq!(nc.zorder[0], a);
    assert_eq!(nc.zorder[1], b);
    nc.move_below(a, b).unwrap();
    assert_eq!(nc.zorder[0], b);
    assert_eq!(nc.zorder[1], a);
    // the standard plane is no sibling of its own children's children
    let c = nc.create_plane(a, 0, 0, 2, 2).unwrap();
    assert!(nc.move_above(c, b).is_err());
    nc.destroy_plane(a).unwrap();
    assert!(!nc.alive[a]);
    // the orphaned child was rebound to the destroyed plane's parent
    assert_eq!(nc.parent[c], 0);
    assert!(nc.alive[c]);
}

#[test]
fn reparent_refuses_cycles() {
    let mut nc = Nc::with_term(3, 3, NcCapabilities::new(), NcOptions::new()).unwrap();
    let a = nc.create_plane(0, 0, 0, 3, 3).unwrap();
    let b = nc.create_plane(a, 1, 1, 2, 2).unwrap();
    assert_eq!(nc.reparent(a, b), Err(notcurses_core::NcError::Cycle));
    nc.reparent(b, 0).unwrap();
    assert_eq!(nc.parent[b], 0);
}

#[test]
fn blending_averages_rgb_halves() {
    let mut nc = Nc::with_term(1, 1, NcCapabilities::new(), NcOptions::new()).unwrap();
    let mut below = NcChannels::new();
    below.bg.set_rgb(0x000000);
    nc.set_plane_base(0, '.', 0, below).unwrap();
    let top = nc.create_plane(0, 0, 0, 1, 1).unwrap();
    let mut ch = NcChannels::new();
    ch.bg.set_rgb(0x404040);
    ch.bg.set_alpha(notcurses_core::NCALPHA_BLEND);
    nc.set_plane_base(top, '+', 0, ch).unwrap();
    nc.render().unwrap();
    let mut style = 0u16;
    let mut out = NcChannels::new();
    let egc = nc.at_yx(0, 0, &mut style, &mut out).unwrap();
    assert_eq!(egc, "+");
    assert_eq!(out.bg.rgb, 0x202020);
}

#[test]
fn transparent_top_cell_yields() {
    let mut nc = Nc::with_term(1, 1, NcCapabilities::new(), NcOptions::new()).unwrap();
    nc.putstr_yx(0, 0, 0, "a").unwrap();
    let top = nc.create_plane(0, 0, 0, 1, 1).unwrap();
    let mut ch = NcChannels::new();
    ch.fg.set_alpha(notcurses_core::NCALPHA_TRANSPARENT);
    ch.bg.set_alpha(notcurses_core::NCALPHA_TRANSPARENT);
    nc.set_plane_base(top, '!', 0, ch).unwrap();
    nc.render().unwrap();
    let mut style = 0u16;
    let mut out = NcChannels::new();
    let egc = nc.at_yx(0, 0, &mut style, &mut out).unwrap();
    assert_eq!(egc, "a");
}

#[test]
fn getvec_drains_up_to_count() {
    let mut nc = Nc::new().unwrap();
    nc.feed_input(b"abc");
    let mut events: Vec<NcInput> = Vec::new();
    let taken = nc.getvec(None, &mut events, 2).unwrap();
    assert_eq!(taken, 2);
    assert_eq!(events[0].id, 'a' as u32);
    assert_eq!(events[1].id, 'b' as u32);
    let rest = nc.getvec(None, &mut events, 10).unwrap();
    assert_eq!(rest, 1);
    assert_eq!(events[2].id, 'c' as u32);
}

#[test]
fn top_bottom_and_stdplane() {
    let mut nc = Nc::with_term(3, 3, NcCapabilities::new(), NcOptions::new()).unwrap();
    assert_eq!(nc.top().unwrap(), 0);
    assert_eq!(nc.bottom().unwrap(), 0);
    let a = nc.create_plane(0, 0, 0, 2, 2).unwrap();
    assert_eq!(nc.top().unwrap(), a);
    assert_eq!(nc.bottom().unwrap(), 0);
    assert_eq!(nc.stdplane_const().rows, 3);
}

#[test]
fn putstr_stops_at_unstorable_cluster() {
    let mut plane = NcPlane::new(2, 8).unwrap();
    let n = plane.putstr_yx(0, 0, "ab\x07cd").unwrap();
    assert_eq!(n, 2);
    assert_eq!(plane.cell_yx(0, 1).unwrap().strdup(&plane), "b");
    assert_eq!(plane.cell_yx(0, 2).unwrap().gcluster, 0);
}

#[test]
fn styles_round_trip_two_styles() {
    for st in 0u16..=0x1F {
        assert_eq!(Nc::lex_styles(&Nc::str_styles(st)).unwrap(), st);
    }
    assert_eq!(
        Nc::str_styles(NCSTYLE_BOLD | NCSTYLE_ITALIC | NCSTYLE_STRUCK | NCSTYLE_UNDERCURL),
        "italic undercurl struck bold"
    );
}

#[test]
fn destroy_family_cascades() {
    let mut nc = Nc::with_term(3, 3, NcCapabilities::new(), NcOptions::new()).unwrap();
    let a = nc.create_plane(0, 0, 0, 3, 3).unwrap();
    let b = nc.create_plane(a, 0, 0, 2, 2).unwrap();
    let c = nc.create_plane(b, 0, 0, 1, 1).unwrap();
    let other = nc.create_plane(0, 0, 0, 1, 1).unwrap();
    nc.destroy_plane_family(a).unwrap();
    assert!(!nc.alive[a] && !nc.alive[b] && !nc.alive[c]);
    assert!(nc.alive[0] && nc.alive[other]);
    assert!(nc.destroy_plane_family(0).is_err());
}
