use muxado::config::{heartbeat_nanos, CidrRestrictions, CommonOpts, ConnectError};

#[test]
fn cidr_lists_keep_order() {
    let mut c = CidrRestrictions::new();
    c.allow("10.0.0.0/8".to_string());
    c.allow("192.168.0.0/16".to_string());
    c.deny("10.1.0.0/16".to_string());
    assert_eq!(c.allowed, vec!["10.0.0.0/8".to_string(), "192.168.0.0/16".to_string()]);
    assert_eq!(c.denied, vec!["10.1.0.0/16".to_string()]);
}

#[test]
fn ip_restriction_only_when_any() {
    let mut opts = CommonOpts::default();
    assert!(opts.ip_restriction().is_none());
    opts.cidr_restrictions.deny("0.0.0.0/0".to_string());
    let ip = opts.ip_restriction().expect("restriction");
    assert!(ip.allow_cidrs.is_empty());
    assert_eq!(ip.deny_cidrs, vec!["0.0.0.0/0".to_string()]);
}

#[test]
fn heartbeat_nanos_bounds() {
    assert_eq!(heartbeat_nanos(10, 15), Ok((10, 15)));
    let big = i64::MAX as u128 + 1;
    assert_eq!(heartbeat_nanos(big, 1), Err(ConnectError::InvalidHeartbeatInterval(big)));
    assert_eq!(heartbeat_nanos(1, big), Err(ConnectError::InvalidHeartbeatTolerance(big)));
    assert_eq!(heartbeat_nanos(i64::MAX as u128, i64::MAX as u128), Ok((i64::MAX, i64::MAX)));
}
