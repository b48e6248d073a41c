use tlsproxy::bindaddr::{
    parse_bind_pattern, resolve_bind_addr, BindError, BindPattern, Family, InterfaceAddress, ResolveError,
};
use tlsproxy::net::IpAddr;

fn interfaces() -> Vec<InterfaceAddress> {
    vec![
        InterfaceAddress { name: "lo".into(), ip: IpAddr::V4(127, 0, 0, 1) },
        InterfaceAddress {
            name: "eth0".into(),
            ip: IpAddr::V6 { segments: vec![0x2001, 0xdb8, 0, 0, 0, 0, 0, 1], text: "2001:db8::1".into() },
        },
    ]
}

#[test]
fn literal_passes_through() {
    assert_eq!(parse_bind_pattern("127.0.0.1:8080").unwrap(), BindPattern::Literal("127.0.0.1:8080".into()));
    assert_eq!(resolve_bind_addr("0.0.0.0:442", &interfaces()).unwrap(), "0.0.0.0:442");
}

#[test]
fn bare_interface_pattern_defaults_to_v4() {
    assert_eq!(
        parse_bind_pattern("%eth0%:442").unwrap(),
        BindPattern::Interface { name: "eth0".into(), family: Family::V4, port: Some(442) }
    );
}

#[test]
fn explicit_v4_alias() {
    assert_eq!(
        parse_bind_pattern("%eth0/v4%:442").unwrap(),
        BindPattern::Interface { name: "eth0".into(), family: Family::V4, port: Some(442) }
    );
}

#[test]
fn v6_suffix_selects_ipv6() {
    assert_eq!(
        parse_bind_pattern("%eth0/v6%:442").unwrap(),
        BindPattern::Interface { name: "eth0".into(), family: Family::V6, port: Some(442) }
    );
}

#[test]
fn portless_pattern_for_admin_bind_address() {
    assert_eq!(
        parse_bind_pattern("%eth0%").unwrap(),
        BindPattern::Interface { name: "eth0".into(), family: Family::V4, port: None }
    );
}

#[test]
fn malformed_patterns_are_rejected() {
    for bad in [
        "%eth0:442",     // missing closing %
        "%%:442",        // empty interface name
        "%eth0/v5%:442", // unknown family suffix
        "%eth0%442",     // junk after closing % without colon
        "%eth0%:hello",  // non-numeric port
    ] {
        assert!(parse_bind_pattern(bad).is_err(), "should reject {bad}");
    }
}

#[test]
fn each_malformed_pattern_has_its_own_error() {
    assert_eq!(parse_bind_pattern("%eth0:442"), Err(BindError::MissingClose));
    assert_eq!(parse_bind_pattern("%%:442"), Err(BindError::EmptyName));
    assert_eq!(parse_bind_pattern("%eth0/v5%:442"), Err(BindError::UnknownFamily));
    assert_eq!(parse_bind_pattern("%eth0%442"), Err(BindError::ExpectedPort));
    assert_eq!(parse_bind_pattern("%eth0%:hello"), Err(BindError::InvalidPort));
    let said = |input: &str| parse_bind_pattern(input).unwrap_err().message(input);
    assert_eq!(said("%eth0:442"), "invalid bind pattern `%eth0:442`: missing closing `%`");
    assert_eq!(said("%%:442"), "invalid bind pattern `%%:442`: empty interface name");
    assert_eq!(
        said(" %eth0/v5%:442"),
        "invalid bind pattern ` %eth0/v5%:442`: unknown family suffix `/v5` (use /v4 or /v6)"
    );
    assert_eq!(said("%eth0%442"), "invalid bind pattern `%eth0%442`: expected `:port` after closing `%`");
    assert_eq!(said("%eth0%:hello"), "invalid bind pattern `%eth0%:hello`: invalid port `hello`");
}

#[test]
fn resolves_loopback_interface() {
    assert_eq!(resolve_bind_addr("%lo%:0", &interfaces()).unwrap(), "127.0.0.1:0");
    assert_eq!(resolve_bind_addr("%lo%", &interfaces()).unwrap(), "127.0.0.1");
    assert_eq!(resolve_bind_addr("%eth0/v6%:443", &interfaces()).unwrap(), "[2001:db8::1]:443");
}

#[test]
fn unknown_interface_lists_available_ones() {
    match resolve_bind_addr("%no_such_iface_xyz%:1", &interfaces()) {
        Err(ResolveError::UnknownInterface(message)) => {
            assert!(message.contains("no_such_iface_xyz"), "got: {message}");
            assert!(message.contains("available interfaces"), "got: {message}");
            assert!(message.contains("lo"), "got: {message}");
        }
        _ => panic!("the interface is not there"),
    }
    assert!(matches!(resolve_bind_addr("%lo/v6%:1", &interfaces()), Err(ResolveError::NoAddress(_))));
    assert!(matches!(resolve_bind_addr("%lo", &interfaces()), Err(ResolveError::Pattern(BindError::MissingClose))));
}
