use arch_live::cli::{parse_tap, TapConfig};

#[test]
fn tap_accepts_listen_and_target() {
    let c = parse_tap("3001:3000").unwrap();
    assert_eq!(c, TapConfig { listen_port: 3001, target_port: 3000 });
}

#[test]
fn tap_without_colon_is_refused() {
    assert_eq!(
        parse_tap("3001").unwrap_err(),
        "expected format LISTEN_PORT:TARGET_PORT, e.g. 3001:3000"
    );
}

#[test]
fn tap_bad_listen_port_is_named() {
    assert_eq!(parse_tap("abc:3000").unwrap_err(), "invalid listen port: abc");
    assert_eq!(parse_tap(":3000").unwrap_err(), "invalid listen port: ");
    assert_eq!(parse_tap("70000:3000").unwrap_err(), "invalid listen port: 70000");
}

#[test]
fn tap_bad_target_port_is_named() {
    assert_eq!(parse_tap("3001:xyz").unwrap_err(), "invalid target port: xyz");
    // only the first ':' splits
    assert_eq!(parse_tap("3001:3000:1").unwrap_err(), "invalid target port: 3000:1");
    assert_eq!(parse_tap("3001:").unwrap_err(), "invalid target port: ");
}

#[test]
fn tap_port_numbers_parse_like_u16() {
    assert_eq!(
        parse_tap("+80:0065535").unwrap(),
        TapConfig { listen_port: 80, target_port: 65535 }
    );
    assert_eq!(parse_tap("0:0").unwrap(), TapConfig { listen_port: 0, target_port: 0 });
    assert!(parse_tap("-1:80").is_err());
    assert!(parse_tap(" 1:80").is_err());
}

#[test]
fn tap_roundtrip_of_formatted_ports() {
    for (l, t) in [(1u16, 2u16), (3001, 3000), (65535, 0), (8080, 443)] {
        let text = format!("{}:{}", l, t);
        assert_eq!(parse_tap(&text).unwrap(), TapConfig { listen_port: l, target_port: t });
    }
}
