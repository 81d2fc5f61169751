//! Context-level behavior, exercised through the public API.

use notcurses_core::context::{
    Nc, NCALIGN_CENTER, NCALIGN_LEFT, NCALIGN_RIGHT, NCALIGN_UNALIGNED, NCRESULT_MAX,
};

#[test]
fn notcurses_align() {
    let mut nc = Nc::new().unwrap();
    assert_eq!(0, notcurses_core::context::notcurses_align(30, NCALIGN_LEFT, 20));
    assert_eq!(5, notcurses_core::context::notcurses_align(30, NCALIGN_CENTER, 20));
    assert_eq!(10, notcurses_core::context::notcurses_align(30, NCALIGN_RIGHT, 20));
    assert_eq!(-NCRESULT_MAX, notcurses_core::context::notcurses_align(30, NCALIGN_UNALIGNED, 20));
    nc.stop().unwrap();
}

#[test]
fn notcurses_canchangecolor() {
    let mut nc = Nc::new().unwrap();
    let res = nc.canchangecolor();
    nc.stop().unwrap();
    println!("[{}] ", res);
}

#[test]
fn notcurses_canfade() {
    let mut nc = Nc::new().unwrap();
    let res = nc.canfade();
    nc.stop().unwrap();
    println!("[{}] ", res);
}

#[test]
fn notcurses_canopen_images() {
    let mut nc = Nc::new().unwrap();
    let res = nc.canopen_images();
    nc.stop().unwrap();
    println!("[{}] ", res);
}

#[test]
fn notcurses_canopen_videos() {
    let mut nc = Nc::new().unwrap();
    let res = nc.canopen_videos();
    nc.stop().unwrap();
    println!("[{}] ", res);
}

#[test]
fn notcurses_cansextant() {
    let mut nc = Nc::new().unwrap();
    let res = nc.cansextant();
    nc.stop().unwrap();
    println!("[{}] ", res);
}

#[test]
fn notcurses_cantruecolor() {
    let mut nc = Nc::new().unwrap();
    let res = nc.cantruecolor();
    nc.stop().unwrap();
    println!("[{}] ", res);
}

#[test]
fn notcurses_canutf8() {
    let mut nc = Nc::new().unwrap();
    let res = nc.canutf8();
    nc.stop().unwrap();
    println!("[{}] ", res);
}

#[test]
fn notcurses_drop_planes() {
    let mut nc = Nc::new().unwrap();
    let plane1 = nc.create_plane(0, 0, 0, 10, 10).unwrap();
    let _plane2 = nc.create_plane(plane1, 0, 0, 10, 10).unwrap();
    nc.drop_planes();
    assert!(!nc.alive[plane1]);
    nc.stop().unwrap();
}

#[test]
fn notcurses_initialization() {
    let nc = Nc::new();
    assert!(nc.is_ok());
    nc.unwrap().stop().unwrap();
}

#[test]
fn notcurses_version() {
    let v = Nc::version();
    assert!(!v.is_empty());
    println!("v{} ", v);
}
