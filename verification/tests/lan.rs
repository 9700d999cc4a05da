use std::cell::RefCell;

use localstream_core::ip_text::{ip_address_string, parse_ip_address};
use localstream_core::lan::{
    audit_activation, primary_lan_address, decode_config, encode_config, plan_leaf, validate, LanConfigError,
    LanConfigService, LanConfigStore, LanSecurityEvidence, LanServerConfig, LeafPlan, LeafRecord,
    RouteProbe, DEFAULT_HTTPS_PORT, safe_lan_addresses,
};
use localstream_core::net::IpAddress;

#[derive(Default)]
struct Store(RefCell<Option<Vec<u8>>>);

impl LanConfigStore for Store {
    fn load(&self) -> Result<Option<Vec<u8>>, LanConfigError> {
        Ok(self.0.borrow().clone())
    }
    fn store(&self, value: &[u8]) -> Result<(), LanConfigError> {
        *self.0.borrow_mut() = Some(value.to_vec());
        Ok(())
    }
}

impl LanConfigStore for &Store {
    fn load(&self) -> Result<Option<Vec<u8>>, LanConfigError> {
        (*self).load()
    }
    fn store(&self, value: &[u8]) -> Result<(), LanConfigError> {
        (*self).store(value)
    }
}

fn ip(text: &str) -> IpAddress {
    parse_ip_address(text).expect("address should parse")
}

fn same(a: &LanServerConfig, b: &LanServerConfig) -> bool {
    a.enabled == b.enabled && a.address == b.address && a.port == b.port && a.dns_name == b.dns_name
}

#[test]
fn defaults_disabled_and_persists_explicit_endpoint() {
    let store = Store::default();
    let service = LanConfigService::new(&store);
    assert!(same(&service.load().unwrap(), &LanServerConfig::default()));
    let config = LanServerConfig {
        enabled: true,
        address: Some(ip("192.168.1.20")),
        port: 8443,
        dns_name: Some("media.home".into()),
    };
    service.save(&config).unwrap();
    assert!(same(&service.load().unwrap(), &config));
}

#[test]
fn rejects_loopback_wildcard_public_multicast_and_invalid_ports() {
    for address in [
        "0.0.0.0",
        "127.0.0.1",
        "8.8.8.8",
        "224.0.0.1",
        "::",
        "::1",
        "2001:4860:4860::8888",
    ] {
        let config = LanServerConfig {
            enabled: true,
            address: Some(ip(address)),
            port: 8443,
            dns_name: None,
        };
        assert_eq!(validate(&config), Err(LanConfigError::Invalid));
    }
    let mut config = LanServerConfig {
        enabled: true,
        ..LanServerConfig::default()
    };
    assert_eq!(validate(&config), Err(LanConfigError::Invalid));
    config.port = 80;
    assert_eq!(validate(&config), Err(LanConfigError::Invalid));
}

#[test]
fn corrupt_persistence_fails_closed() {
    let store = Store(RefCell::new(Some(b"bad".to_vec())));
    assert!(matches!(
        LanConfigService::new(store).load(),
        Err(LanConfigError::Corrupt)
    ));
}

#[test]
fn activation_audit_fails_closed_until_every_external_gate_is_evidenced() {
    let (audit, permit) = audit_activation(LanSecurityEvidence {
        browser_trust_onboarding: true,
        native_protected_storage: false,
        negative_security_suite: true,
    });
    assert!(!audit.passed);
    assert_eq!(audit.failed_gates, vec!["native_protected_storage"]);
    assert!(permit.is_none());
    let (audit, permit) = audit_activation(LanSecurityEvidence {
        browser_trust_onboarding: true,
        native_protected_storage: true,
        negative_security_suite: true,
    });
    assert!(audit.passed);
    assert!(permit.is_some());
}

#[test]
fn leaf_lifecycle_reuses_renews_and_rotates_for_address_changes() {
    const DAY: i64 = 86_400;
    let now = 1_800_000_000;
    let mut config = LanServerConfig {
        enabled: true,
        address: Some(ip("192.168.1.20")),
        port: 8443,
        dns_name: Some("media.home".into()),
    };
    let mut current: Option<LeafRecord> = None;
    let mut apply = |current: &mut Option<LeafRecord>, config: &LanServerConfig, at: i64| -> u64 {
        let (plan, names) = plan_leaf(current, config, at).expect("configuration should be valid");
        match plan {
            LeafPlan::Reuse => {}
            LeafPlan::Issue { generation, expires_at } => {
                *current = Some(LeafRecord { generation, names, expires_at });
            }
        }
        current.as_ref().expect("a leaf should be active").generation
    };
    let first = apply(&mut current, &config, now);
    let same = apply(&mut current, &config, now + DAY);
    assert_eq!(same, first);
    let renewed = apply(&mut current, &config, now + 24 * DAY);
    assert_eq!(renewed, 2);
    config.address = Some(ip("192.168.1.21"));
    let changed = apply(&mut current, &config, now + 25 * DAY);
    assert_eq!(changed, 3);
    assert!(current
        .expect("a leaf should be active")
        .names
        .contains(&"192.168.1.21".to_string()));
}

#[test]
fn records_are_text_and_read_back() {
    let config = LanServerConfig {
        enabled: false,
        address: Some(ip("fe80::1:2")),
        port: DEFAULT_HTTPS_PORT,
        dns_name: Some("Media-Box.local".into()),
    };
    let text = encode_config(&config);
    assert_eq!(
        text,
        "LSLAN1\nenabled=false\naddress=fe80::1:2\nport=8443\ndns=Media-Box.local\n"
    );
    let back = decode_config(text.as_bytes()).expect("record should decode");
    assert!(same(&back, &config));
    // Windows line endings are read as well.
    let crlf = text.replace('\n', "\r\n");
    assert!(same(&decode_config(crlf.as_bytes()).unwrap(), &config));
}

#[test]
fn malformed_records_are_corrupt() {
    for record in [
        "",
        "LSLAN1\n",
        "LSLAN2\nenabled=false\naddress=\nport=8443\ndns=\n",
        "LSLAN1\nenabled=maybe\naddress=\nport=8443\ndns=\n",
        "LSLAN1\nenabled=false\naddress=not-an-ip\nport=8443\ndns=\n",
        "LSLAN1\nenabled=false\naddress=\nport=70000\ndns=\n",
        "LSLAN1\nenabled=false\naddress=\nport=8443\ndns=\nextra\n",
        "LSLAN1\nenabled=true\naddress=\nport=8443\ndns=\n",
        "LSLAN1\nenabled=false\naddress=8.8.8.8\nport=8443\ndns=\n",
    ] {
        assert_eq!(
            decode_config(record.as_bytes()).err(),
            Some(LanConfigError::Corrupt),
            "{record:?}"
        );
    }
    assert_eq!(decode_config(&[0xff, 0xfe]).err(), Some(LanConfigError::Corrupt));
    let ok = decode_config(b"LSLAN1\nenabled=false\naddress=\nport=8443\ndns=") // no final newline
        .expect("last newline is optional");
    assert_eq!(ok.port, 8443);
}

#[test]
fn dns_names_follow_label_rules() {
    let with_name = |name: &str| LanServerConfig {
        enabled: false,
        address: None,
        port: 8443,
        dns_name: Some(name.to_string()),
    };
    assert_eq!(validate(&with_name("media.home")), Ok(()));
    assert_eq!(validate(&with_name("  media.home ")), Ok(()));
    for bad in ["", " ", "*.home", "-media.home", "media-.home", "media..home", "192.168.1.4", "a_b.home"] {
        assert_eq!(validate(&with_name(bad)), Err(LanConfigError::Invalid), "{bad:?}");
    }
    assert_eq!(validate(&with_name(&"a".repeat(64))), Err(LanConfigError::Invalid));
}

#[test]
fn addresses_are_written_as_the_standard_library_writes_them() {
    for text in [
        "192.168.1.4",
        "10.0.0.1",
        "::",
        "::1",
        "fe80::1",
        "fd00:1:2:3:4:5:6:7",
        "1::2:0:0:3",
        "::ffff:192.168.1.4",
        "2001:db8::",
    ] {
        assert_eq!(ip_address_string(ip(text)), text);
    }
    assert_eq!(ip_address_string(ip("FE80:0:0:0:0:0:0:1")), "fe80::1");
    assert_eq!(ip_address_string(ip("1:0:0:2:0:0:0:3")), "1:0:0:2::3");
    assert_eq!(ip_address_string(ip("1:2:3:4:5:6:7:0")), "1:2:3:4:5:6:7:0");
    assert_eq!(ip("::192.168.1.4"), IpAddress::V6(0xc0a8_0104));
    for bad in ["1.2.3", "01.2.3.4", "256.1.1.1", "1::2::3", ":::", "1:2:3:4:5:6:7:8:9", "12345::"] {
        assert_eq!(parse_ip_address(bad), None, "{bad:?}");
    }
}

#[test]
fn startup_status_reports_why_the_lan_server_is_not_active() {
    let disabled = localstream_core::lan::startup_status(false, Some(Ok("https://x".to_owned())));
    assert!(!disabled.configured && !disabled.active && disabled.failure.is_none());
    let preflight = localstream_core::lan::startup_status(true, None);
    assert!(preflight.configured && !preflight.active);
    assert_eq!(preflight.failure, Some("security_preflight_failed"));
    let failed = localstream_core::lan::startup_status(true, Some(Err(())));
    assert_eq!(failed.failure, Some("secure_start_failed"));
    let active = localstream_core::lan::startup_status(true, Some(Ok("https://192.168.1.20:8443".to_owned())));
    assert!(active.active);
    assert_eq!(active.endpoint.as_deref(), Some("https://192.168.1.20:8443"));
    assert!(active.failure.is_none());
}

#[test]
fn primary_lan_address_is_the_first_safe_routed_address() {
    let loopback = RouteProbe::Routed(ip("127.0.0.1"));
    let lan = RouteProbe::Routed(ip("192.168.1.4"));
    let ula = RouteProbe::Routed(ip("fd00::5"));
    assert_eq!(primary_lan_address(&vec![loopback, lan, ula]), Some(ip("192.168.1.4")));
    assert_eq!(primary_lan_address(&vec![RouteProbe::Unroutable, ula]), Some(ip("fd00::5")));
    assert_eq!(primary_lan_address(&vec![RouteProbe::AddressUnknown, lan]), None);
    assert_eq!(primary_lan_address(&vec![loopback, RouteProbe::Routed(ip("8.8.8.8"))]), None);
    assert_eq!(primary_lan_address(&vec![]), None);
}

#[test]
fn enumerates_only_deduplicated_safe_addresses() {
    assert_eq!(
        safe_lan_addresses(vec![
            ip("127.0.0.1"),
            ip("192.168.1.4"),
            ip("192.168.1.4"),
            ip("8.8.8.8")
        ]),
        vec![ip("192.168.1.4")]
    );
}

#[test]
fn safe_addresses_come_out_in_address_order() {
    assert_eq!(
        safe_lan_addresses(vec![ip("fd00::1"), ip("192.168.1.9"), ip("10.0.0.2"), ip("fd00::1")]),
        vec![ip("10.0.0.2"), ip("192.168.1.9"), ip("fd00::1")]
    );
    assert_eq!(safe_lan_addresses(vec![]), vec![]);
}
