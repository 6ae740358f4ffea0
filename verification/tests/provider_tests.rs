use rnccd::addr::Ipv4;
use rnccd::provider::{
    contains_bytes, interpret_update_response, update_params, Config, UpdateError,
};
use rnccd::resolver::{interpret_resolve_response, ResolveError};

fn ip(a: u8, b: u8, c: u8, d: u8) -> Ipv4 {
    Ipv4 { a, b, c, d }
}

#[test]
fn contains_finds_needle() {
    assert!(contains_bytes(b"abcde", b"cd"));
    assert!(contains_bytes(b"abcde", b"abcde"));
    assert!(contains_bytes(b"abcde", b""));
    assert!(!contains_bytes(b"abcde", b"ce"));
    assert!(!contains_bytes(b"ab", b"abc"));
    assert!(!contains_bytes(b"", b"a"));
}

#[test]
fn update_response_success() {
    let body = b"<?xml?><interface-response><ErrCount>0</ErrCount></interface-response>".to_vec();
    assert!(interpret_update_response(body).is_ok());
}

#[test]
fn update_response_rejection_keeps_body() {
    // A non-zero error count is a rejection; the body rides along untouched.
    let body = b"<ErrCount>1</ErrCount><Err1>Domain name not found</Err1>".to_vec();
    match interpret_update_response(body.clone()) {
        Err(UpdateError::ProviderRejected { body: b }) => assert_eq!(b, body),
        _ => panic!("expected rejection"),
    }
}

#[test]
fn update_response_marker_must_be_exact() {
    assert!(matches!(
        interpret_update_response(b"<ErrCount> 0 </ErrCount>".to_vec()),
        Err(UpdateError::ProviderRejected { .. })
    ));
    assert!(matches!(
        interpret_update_response(b"".to_vec()),
        Err(UpdateError::ProviderRejected { .. })
    ));
}

#[test]
fn params_default_host() {
    let cfg = Config {
        domain: b"example.org".to_vec(),
        host: None,
        password: b"SECRET-REDACTED".to_vec(),
    };
    let p = update_params(&cfg, &ip(198, 51, 100, 23));
    assert_eq!(p.host, b"@".to_vec());
    assert_eq!(p.domain, b"example.org".to_vec());
    assert_eq!(p.password, b"SECRET-REDACTED".to_vec());
    assert_eq!(p.ip, b"198.51.100.23".to_vec());
}

#[test]
fn params_explicit_host() {
    let cfg = Config {
        domain: b"example.org".to_vec(),
        host: Some(b"*".to_vec()),
        password: b"pw".to_vec(),
    };
    let p = update_params(&cfg, &ip(1, 2, 3, 4));
    assert_eq!(p.host, b"*".to_vec());
    assert_eq!(p.ip, b"1.2.3.4".to_vec());
}

#[test]
fn resolve_response_ok() {
    assert_eq!(interpret_resolve_response(200, b"93.184.216.34"), Ok(ip(93, 184, 216, 34)));
}

#[test]
fn resolve_response_bad_status() {
    match interpret_resolve_response(503, b"93.184.216.34") {
        Err(ResolveError::UnexpectedResponse { status }) => assert_eq!(status, 503),
        _ => panic!("expected status error"),
    }
}

#[test]
fn resolve_response_bad_body() {
    assert!(matches!(
        interpret_resolve_response(200, b"<html>not an address</html>"),
        Err(ResolveError::ParseError)
    ));
    assert!(matches!(
        interpret_resolve_response(200, b"93.184.216.34\n"),
        Err(ResolveError::ParseError)
    ));
}
