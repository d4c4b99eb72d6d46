use rust_vpn_splitter::domain::{SplitterConfig, VpnKind};
use rust_vpn_splitter::ipv4::Ipv4Net;
use rust_vpn_splitter::validation::{
    validate_config_with_resolver, ValidatedProfile, ValidationError,
};

fn config(entries: &[(VpnKind, bool, &str)]) -> SplitterConfig {
    let mut config = SplitterConfig::default();
    for (vpn, enabled, networks) in entries {
        let profile = config.profile_mut(*vpn).expect("profile exists");
        profile.enabled = *enabled;
        profile.networks = (*networks).to_owned();
    }
    config
}

fn network(text: &str) -> Ipv4Net {
    Ipv4Net::parse(text).expect("network is valid")
}

fn validate_config(config: &SplitterConfig) -> Result<Vec<ValidatedProfile>, Vec<ValidationError>> {
    validate_config_with_resolver(config, |vpn: VpnKind, hostname: &str| {
        Err(format!("unexpected {} hostname: {hostname}", vpn.name()))
    })
}

#[test]
fn normalizes_and_collapses_networks_for_the_same_vpn() {
    let result = validate_config(&config(&[(
        VpnKind::FortiClient,
        true,
        "10.1.2.3/8, 10.20.0.0/16\n192.168.50.0/24",
    )]))
    .expect("configuration should be valid");

    assert_eq!(
        result[0].networks,
        vec![network("10.0.0.0/8"), network("192.168.50.0/24")]
    );
}

#[test]
fn blocks_overlap_between_enabled_vpns() {
    let errors = validate_config(&config(&[
        (VpnKind::FortiClient, true, "10.0.0.0/8"),
        (VpnKind::F5, true, "10.20.0.0/16"),
    ]))
    .expect_err("overlap must be rejected");

    assert!(errors.iter().any(|error| {
        error.message.contains("10.0.0.0/8") && error.message.contains("10.20.0.0/16")
    }));
}

#[test]
fn allows_adjacent_networks() {
    let result = validate_config(&config(&[
        (VpnKind::FortiClient, true, "10.0.0.0/24"),
        (VpnKind::F5, true, "10.0.1.0/24"),
    ]));

    assert!(result.is_ok());
}

#[test]
fn ignores_disabled_profiles_when_checking_overlap() {
    let result = validate_config(&config(&[
        (VpnKind::FortiClient, true, "10.0.0.0/8"),
        (VpnKind::F5, false, "10.20.0.0/16"),
    ]));

    assert!(result.is_ok());
}

#[test]
fn rejects_a_default_route() {
    let errors = validate_config(&config(&[(VpnKind::Ivanti, true, "0.0.0.0/0")]))
        .expect_err("a split-tunnel tool must reject a default route");

    assert!(errors.iter().any(|error| error.message.contains("0.0.0.0/0")));
}
