//! Positions in the log.

use nostos::lsn::Lsn;

#[test]
fn parse_textual_form_roundtrip() {
    for raw in [0u64, 1, 0xFFFF_FFFF, 0x1_0000_0000, u64::MAX] {
        let lsn = Lsn(raw);
        let s = lsn.to_text();
        let back: Lsn = s.parse().unwrap();
        assert_eq!(back, lsn, "roundtrip failed for raw={raw:#x}");
    }
}

#[test]
fn advance_is_monotonic() {
    let mut l = Lsn::new(10);
    assert!(l.advance(Lsn::new(20)));
    assert_eq!(l.raw(), 20);
    assert!(!l.advance(Lsn::new(20)));
    assert!(!l.advance(Lsn::new(5)));
    assert_eq!(l.raw(), 20);
}

#[test]
fn min_picks_the_smaller() {
    assert_eq!(Lsn::new(5).min(Lsn::new(20)), Lsn::new(5));
    assert_eq!(Lsn::new(20).min(Lsn::new(5)), Lsn::new(5));
    assert_eq!(Lsn::new(7).min(Lsn::new(7)), Lsn::new(7));
}

#[test]
fn ordering_works() {
    assert!(Lsn::new(1) < Lsn::new(2));
    assert_eq!(Lsn::new(5), Lsn::new(5));
}

#[test]
fn rejects_malformed() {
    assert!("nope".parse::<Lsn>().is_err());
    assert!("AB".parse::<Lsn>().is_err());
    assert!("/1".parse::<Lsn>().is_err());
    "0/0".parse::<Lsn>().unwrap();
}
