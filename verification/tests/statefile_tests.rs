use rnccd::addr::Ipv4;
use rnccd::statefile::{load_state, parse_state, render_state, LoadOutcome};

fn ip(a: u8, b: u8, c: u8, d: u8) -> Ipv4 {
    Ipv4 { a, b, c, d }
}

#[test]
fn render_unknown() {
    assert_eq!(render_state(&None), b"addr: null\n".to_vec());
}

#[test]
fn render_known() {
    assert_eq!(render_state(&Some(ip(203, 0, 113, 7))), b"addr: 203.0.113.7\n".to_vec());
}

#[test]
fn parse_accepts_rendered() {
    // Whatever was successfully persisted loads back unchanged.
    let cases = [None, Some(ip(0, 0, 0, 0)), Some(ip(1, 2, 3, 4)), Some(ip(255, 255, 255, 255))];
    for c in cases {
        assert_eq!(parse_state(&render_state(&c)), Some(c));
    }
}

#[test]
fn parse_rejects_garbage() {
    assert_eq!(parse_state(b""), None);
    assert_eq!(parse_state(b"addr: null"), None); // missing newline
    assert_eq!(parse_state(b"addr:null\n"), None);
    assert_eq!(parse_state(b"addr: 1.2.3\n"), None);
    assert_eq!(parse_state(b"addr: 01.2.3.4\n"), None);
    assert_eq!(parse_state(b"Addr: 1.2.3.4\n"), None);
    assert_eq!(parse_state(b"addr: 1.2.3.4\nx"), None);
    assert_eq!(parse_state(b"not yaml at all"), None);
}

#[test]
fn load_bootstraps_without_file() {
    // First run: no state file yet. The unknown state is adopted and its
    // document handed back to be written before anything else runs.
    match load_state(None) {
        LoadOutcome::Bootstrap { file } => assert_eq!(file, b"addr: null\n".to_vec()),
        _ => panic!("expected bootstrap"),
    }
}

#[test]
fn load_reads_existing_file() {
    match load_state(Some(b"addr: 10.1.2.3\n".to_vec())) {
        LoadOutcome::Loaded { addr } => assert_eq!(addr, Some(ip(10, 1, 2, 3))),
        _ => panic!("expected loaded"),
    }
    match load_state(Some(b"addr: null\n".to_vec())) {
        LoadOutcome::Loaded { addr } => assert_eq!(addr, None),
        _ => panic!("expected loaded"),
    }
}

#[test]
fn load_rejects_corrupt_file() {
    match load_state(Some(b"addr: 1.2.3.4".to_vec())) {
        LoadOutcome::Corrupt => {}
        _ => panic!("expected corrupt"),
    }
    match load_state(Some(b"\0\0\0\0\0\0\0\0\0\0\0\0".to_vec())) {
        LoadOutcome::Corrupt => {}
        _ => panic!("expected corrupt"),
    }
}
