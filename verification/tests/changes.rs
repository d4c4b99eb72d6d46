use rust_vpn_splitter::dns_plan::DnsPlan;
use rust_vpn_splitter::domain::{target_host, Host, SplitterConfig, VpnKind};
use rust_vpn_splitter::fallback::InternetFallback;
use rust_vpn_splitter::ipv4::Ipv4Net;
use rust_vpn_splitter::operations::{
    reconcile_routes, run_dns_refresh, run_refresh, run_toggle, DnsRefreshOutcome,
    ReconciledRoutes, ToggleOutcome,
};
use rust_vpn_splitter::physical::{append_dns_policy, prepare_all_enabled_routes_with_resolver};
use rust_vpn_splitter::policy::validate_dns_route_target_conflicts;
use rust_vpn_splitter::preparation::{PreparedRoutes, ROUTE_METRIC};
use rust_vpn_splitter::routes::{discard_incomplete_vpn_route_sets, reconciled_routes_for_config};
use rust_vpn_splitter::validation::{
    dns_lookups, read_config, validate_config_with_resolver, ValidatedProfile,
};
use rust_vpn_splitter::windows::{
    InternetGateway, ManagedDnsRule, ManagedRoute, ManagedRoutePurpose, NetworkAdapter,
    RoutePriority,
};

fn address(a: u8, b: u8, c: u8, d: u8) -> u32 {
    u32::from_be_bytes([a, b, c, d])
}

fn adapter(index: u32, description: &str, full_tunnel: bool, servers: &[&str]) -> NetworkAdapter {
    NetworkAdapter {
        index,
        name: "VPN".to_owned(),
        description: description.to_owned(),
        status: "Up".to_owned(),
        next_hop: "0.0.0.0".to_owned(),
        full_tunnel_priority: if full_tunnel {
            Some(RoutePriority { prefix_length: 0, effective_metric: 1 })
        } else {
            None
        },
        dns_servers: servers.iter().map(|server| (*server).to_owned()).collect(),
    }
}

fn gateway() -> InternetGateway {
    InternetGateway {
        interface_index: 7,
        interface_alias: "Wi-Fi".to_owned(),
        interface_description: "Physical Wi-Fi Adapter".to_owned(),
        next_hop: "192.0.2.1".to_owned(),
        inferred_from_escape_route: false,
        route_priority: Some(RoutePriority { prefix_length: 0, effective_metric: 50 }),
        dns_servers: vec!["192.0.2.53".to_owned()],
        fallback_dns_servers: Vec::new(),
    }
}

fn config(entries: &[(VpnKind, &str, &str)]) -> SplitterConfig {
    let mut config = SplitterConfig::default();
    for (vpn, description, networks) in entries {
        let profile = config.profile_mut(*vpn).expect("profile exists");
        profile.enabled = true;
        profile.adapter_description = Some((*description).to_owned());
        profile.networks = (*networks).to_owned();
    }
    config
}

fn target(vpn: VpnKind, prefix: &str, interface_index: u32) -> ManagedRoute {
    ManagedRoute {
        vpn,
        purpose: ManagedRoutePurpose::Target,
        prefix: prefix.to_owned(),
        interface_index,
        next_hop: "0.0.0.0".to_owned(),
        route_metric: ROUTE_METRIC,
    }
}

fn asks_nobody(_: VpnKind, _: &str, _: &[String]) -> Result<Vec<u32>, String> {
    Err("nobody is asked".to_owned())
}

#[test]
fn networks_are_read_with_leading_zeros_and_kept_as_written() {
    let network = Ipv4Net::parse("010.001.2.3/08").expect("leading zeros are accepted");
    assert_eq!(network.to_text(), "10.1.2.3/8");
    assert_eq!(network.trunc().to_text(), "10.0.0.0/8");
    assert_eq!(Ipv4Net::parse("0010.1.2.3/8"), None);
    assert_eq!(Ipv4Net::parse("10.1.2.3/008"), None);
}

#[test]
fn each_domain_is_asked_about_once() {
    let config = config(&[
        (VpnKind::FortiClient, "Forti", "b.test https://B.TEST/x a.test 10.0.0.0/8"),
        (VpnKind::F5, "F5", "a.test c.test"),
    ]);
    let asked = dns_lookups(&read_config(&config))
        .into_iter()
        .map(|question| (question.vpn, question.hostname))
        .collect::<Vec<_>>();
    assert_eq!(
        asked,
        vec![
            (VpnKind::FortiClient, "b.test".to_owned()),
            (VpnKind::FortiClient, "a.test".to_owned()),
            (VpnKind::F5, "c.test".to_owned()),
        ]
    );

    let mut calls = 0;
    let errors = validate_config_with_resolver(&config, |_: VpnKind, hostname: &str| {
        calls += 1;
        Ok(vec![address(203, 0, 113, hostname.as_bytes()[0])])
    })
    .expect_err("a domain has two owners");
    assert_eq!(calls, 3);
    assert_eq!(errors.len(), 1);
    assert_eq!(errors[0].vpns, vec![VpnKind::FortiClient, VpnKind::F5]);
    assert_eq!(
        errors[0].message,
        "網域 a.test 同時指定給 FortiClient 與 F5；同一名稱只能使用一組 VPN DNS。"
    );
}

#[test]
fn overlapping_entries_name_their_sources() {
    let config = config(&[
        (VpnKind::FortiClient, "Forti", "10.1.2.3/8"),
        (VpnKind::F5, "F5", "http://10.9.9.9/x"),
    ]);
    let errors = validate_config_with_resolver(&config, |_: VpnKind, _: &str| Ok(Vec::new()))
        .expect_err("the networks overlap");
    assert_eq!(
        errors[0].message,
        "FortiClient 的「10.1.2.3/8」所產生的 10.0.0.0/8 與 F5 的「http://10.9.9.9/x」所產生的 10.9.9.9/32 重疊，已阻擋套用。"
    );
}

#[test]
fn no_name_server_answers_for_two_networks() {
    let adapters = vec![
        adapter(42, "Fortinet", false, &["203.0.113.51"]),
        adapter(43, "F5 Networks", false, &["203.0.113.51", "203.0.113.52"]),
    ];
    let both = config(&[
        (VpnKind::FortiClient, "Fortinet", "a.test"),
        (VpnKind::F5, "F5 Networks", "b.test"),
    ]);
    let gateway = gateway();
    let path = Some(InternetFallback::Physical(&gateway));
    assert!(DnsPlan::build(&both, &adapters, path, true).is_err());

    let one = config(&[(VpnKind::F5, "F5 Networks", "b.test c.test")]);
    let plan = DnsPlan::build(&one, &adapters, path, true).expect("the servers are apart");
    assert_eq!(plan.fallback_servers, vec![address(192, 0, 2, 53)]);
    let servers = vec!["203.0.113.51".to_owned(), "203.0.113.52".to_owned()];
    assert_eq!(plan.server_strings(VpnKind::F5), Ok(servers));
    assert!(plan.server_strings(VpnKind::Ivanti).is_err());
    let routes = plan.bootstrap_routes();
    assert_eq!(routes.len(), 2);
    assert_eq!(routes[0].prefix, "203.0.113.51/32");
    assert_eq!(routes[0].purpose, ManagedRoutePurpose::VpnDnsServer);
    assert_eq!(routes[0].interface_index, 43);

    assert_eq!(validate_dns_route_target_conflicts(&one, &plan), Ok(()));
    let covering = config(&[(VpnKind::Ivanti, "Pulse", "203.0.113.0/24")]);
    assert!(validate_dns_route_target_conflicts(&covering, &plan).is_err());

    assert_eq!(
        DnsPlan::build(&one, &adapters, None, true),
        Err(vec!["找不到可接手未指定名稱的原生 VPN 或一般網路，已停止套用。".to_owned()])
    );
    let unmanaged = DnsPlan::build(&one, &adapters, None, false).expect("nothing to plan");
    assert!(unmanaged.fallback_servers.is_empty() && unmanaged.get(VpnKind::F5).is_none());
}

#[test]
fn listed_addresses_take_the_vpn_and_others_the_gateway() {
    let adapters = vec![adapter(43, "F5 Networks", true, &[])];
    let config = config(&[(VpnKind::F5, "F5 Networks", "10.0.0.0/8 1.2.3.4")]);
    let gateway = gateway();
    let prepared =
        prepare_all_enabled_routes_with_resolver(&config, &adapters, Some(&gateway), asks_nobody)
            .expect("the gateway is known");

    for (destination, interface_index) in [
        (address(10, 200, 0, 1), 43),
        (address(1, 2, 3, 4), 43),
        (address(1, 2, 3, 5), 7),
        (address(203, 0, 113, 9), 7),
    ] {
        let best = prepared
            .routes
            .iter()
            .filter_map(|route| Ipv4Net::parse(&route.prefix).map(|prefix| (prefix, route)))
            .filter(|(prefix, _)| prefix.contains(destination))
            .max_by_key(|(prefix, _)| prefix.prefix_len)
            .expect("some route holds the address");
        assert_eq!(best.1.interface_index, interface_index);
    }
    assert!(prepared.routes.iter().all(|route| route.vpn == VpnKind::F5));

    assert!(
        prepare_all_enabled_routes_with_resolver(&config, &adapters, None, asks_nobody).is_err()
    );
}

#[test]
fn switching_on_and_off_leads_back() {
    let adapters = vec![adapter(43, "F5 Networks", false, &[])];
    let mut wanted = config(&[(VpnKind::F5, "F5 Networks", "10.0.0.0/8")]);
    let mut routes = Vec::new();
    for enabled in [true, false] {
        wanted.profile_mut(VpnKind::F5).expect("profile exists").enabled = !enabled;
        let outcome = run_toggle(
            routes.clone(),
            wanted.clone(),
            adapters.clone(),
            Some(gateway()),
            VpnKind::F5,
            enabled,
            asks_nobody,
            |_: &[ManagedRoute], _: &[ManagedRoute]| Ok(()),
            |_: &[ManagedDnsRule]| Ok(true),
        );
        match outcome {
            ToggleOutcome::Applied { vpn, enabled: now, config, routes: after, .. } => {
                assert_eq!((vpn, now), (VpnKind::F5, enabled));
                assert_eq!(config.profile(VpnKind::F5).expect("profile exists").enabled, enabled);
                routes = after;
            }
            other => panic!("unexpected outcome: {other:?}"),
        }
        if enabled {
            assert_eq!(routes, vec![target(VpnKind::F5, "10.0.0.0/8", 43)]);
        }
    }
    assert!(routes.is_empty());
}

#[test]
fn a_switch_that_fails_restores_the_routes() {
    let adapters = vec![adapter(43, "F5 Networks", false, &["203.0.113.53"])];
    let mut wanted = config(&[(VpnKind::F5, "F5 Networks", "10.0.0.0/8 one.test")]);
    wanted.profile_mut(VpnKind::F5).expect("profile exists").enabled = false;
    let mut replaced = Vec::new();
    let outcome = run_toggle(
        Vec::new(),
        wanted,
        adapters,
        Some(gateway()),
        VpnKind::F5,
        true,
        |_: VpnKind, _: &str, servers: &[String]| {
            assert_eq!(servers, ["203.0.113.53"]);
            Ok(vec![address(198, 51, 100, 20)])
        },
        |before: &[ManagedRoute], after: &[ManagedRoute]| {
            replaced.push((before.len(), after.len()));
            Ok(())
        },
        |_: &[ManagedDnsRule]| Err("rules refused".to_owned()),
    );
    match outcome {
        ToggleOutcome::Failed { attempted_enabled, error } => {
            assert!(attempted_enabled);
            assert!(error.contains("rules refused"));
        }
        other => panic!("unexpected outcome: {other:?}"),
    }
    assert_eq!(replaced.len(), 2);
    assert_eq!(replaced[0].1, replaced[1].0);
    assert_eq!(replaced[1].1, 0);
}

#[test]
fn names_that_did_not_move_change_nothing() {
    let adapters = vec![adapter(43, "F5 Networks", false, &["203.0.113.53"])];
    let wanted = config(&[(VpnKind::F5, "F5 Networks", "one.test")]);
    let refresh = |current: Vec<ManagedRoute>, answer: Result<Vec<u32>, String>| {
        run_dns_refresh(
            current,
            wanted.clone(),
            adapters.clone(),
            Some(gateway()),
            |_: VpnKind, _: &str, _: &[String]| answer.clone(),
            |_: &[ManagedRoute], _: &[ManagedRoute]| Ok(()),
            |_: &[ManagedDnsRule]| Ok(false),
        )
    };

    let first = match refresh(Vec::new(), Ok(vec![address(198, 51, 100, 20)])) {
        DnsRefreshOutcome::Updated { routes, .. } => routes,
        other => panic!("unexpected outcome: {other:?}"),
    };
    assert!(first.contains(&target(VpnKind::F5, "198.51.100.20/32", 43)));
    assert!(matches!(
        refresh(first.clone(), Ok(vec![address(198, 51, 100, 20)])),
        DnsRefreshOutcome::Unchanged
    ));
    assert!(matches!(
        refresh(first.clone(), Ok(vec![address(198, 51, 100, 21)])),
        DnsRefreshOutcome::Updated { .. }
    ));
    assert!(matches!(
        refresh(first, Err("timeout".to_owned())),
        DnsRefreshOutcome::Failed(reason) if reason.contains("timeout")
    ));
}

#[test]
fn a_vpn_that_lost_a_route_loses_them_all() {
    let previous = vec![
        target(VpnKind::F5, "10.0.0.0/8", 43),
        target(VpnKind::F5, "11.0.0.0/8", 43),
        target(VpnKind::Ivanti, "172.16.0.0/12", 44),
    ];
    let existing = vec![previous[0].clone(), previous[2].clone()];
    let whole = discard_incomplete_vpn_route_sets(&previous, &existing);
    assert_eq!(whole, vec![previous[2].clone()]);

    let wanted = config(&[(VpnKind::Ivanti, "Pulse", "172.16.0.0/12")]);
    assert_eq!(reconciled_routes_for_config(&previous, &existing, &wanted), whole);

    let mut taken = Vec::new();
    let reconciled = reconcile_routes(
        previous.clone(),
        &wanted,
        Ok(existing.clone()),
        |before: &[ManagedRoute], after: &[ManagedRoute]| {
            taken.push((before.len(), after.len()));
            Ok(())
        },
    )
    .expect("the routes are taken away");
    assert_eq!((reconciled.routes, reconciled.removed), (whole, 2));
    assert_eq!(taken, vec![(2, 1)]);

    let refused = reconcile_routes(
        previous.clone(),
        &wanted,
        Ok(existing),
        |_: &[ManagedRoute], _: &[ManagedRoute]| Err("denied".to_owned()),
    );
    assert!(matches!(refused, Err(reason) if reason == "denied"));
    let unknown = reconcile_routes(
        previous,
        &wanted,
        Err("no table".to_owned()),
        |_: &[ManagedRoute], _: &[ManagedRoute]| Ok(()),
    );
    assert!(matches!(unknown, Err(reason) if reason == "no table"));
}

#[test]
fn rules_for_names_go_with_the_last_profile() {
    let reconciled = || Ok(ReconciledRoutes { routes: Vec::new(), removed: 0 });
    let mut calls = 0;
    let idle = run_refresh(
        &SplitterConfig::default(),
        reconciled(),
        Ok(None),
        Ok(Vec::new()),
        |rules: &[ManagedDnsRule]| {
            calls += 1;
            assert!(rules.is_empty());
            Ok(true)
        },
    );
    assert_eq!(idle.dns_notice, Ok(true));
    let busy = run_refresh(
        &config(&[(VpnKind::F5, "F5 Networks", "10.0.0.0/8")]),
        reconciled(),
        Err("no gateway".to_owned()),
        Ok(Vec::new()),
        |_: &[ManagedDnsRule]| Err("not called".to_owned()),
    );
    assert_eq!(busy.dns_notice, Ok(false));
    assert_eq!(busy.gateway_notice, Err("no gateway".to_owned()));
    assert_eq!(calls, 1);
}

#[test]
fn order_repetition_and_separators_do_not_count() {
    let judge = |networks: &str| {
        validate_config_with_resolver(
            &config(&[(VpnKind::F5, "F5", networks), (VpnKind::Ivanti, "Pulse", "172.16.0.0/12")]),
            |_: VpnKind, _: &str| Err("nobody is asked".to_owned()),
        )
    };
    let once = judge("10.20.0.0/16\n192.168.1.1\n10.0.0.0/8").expect("the targets are apart");
    assert_eq!(judge("10.0.0.0/8;10.20.0.0/16, 192.168.1.1 10.0.0.0/8"), Ok(once));
    assert!(judge("192.168.1.1 172.16.0.1").is_err());
    assert!(judge(",172.16.0.1;172.16.0.1\t192.168.1.1").is_err());
}

#[test]
fn protocol_path_and_port_do_not_count() {
    let judge = |networks: &str| {
        validate_config_with_resolver(
            &config(&[(VpnKind::F5, "F5", networks)]),
            |_: VpnKind, hostname: &str| {
                assert_eq!(hostname, "gitlab.example.test");
                Ok(vec![address(198, 51, 100, 20)])
            },
        )
    };
    let plain = judge("gitlab.example.test").expect("the domain has an address");
    assert_eq!(plain[0].hostnames, vec!["gitlab.example.test"]);
    for networks in [
        "http://gitlab.example.test:1500/",
        "https://gitlab.example.test/path?query#fragment",
        "gitlab.example.test:8443",
        "ssh://git@gitlab.example.test:22 gitlab.example.test",
    ] {
        assert_eq!(judge(networks).as_ref(), Ok(&plain), "{networks}");
    }
}

#[test]
fn a_vpn_without_names_needs_no_profile_for_them() {
    let validated = vec![ValidatedProfile {
        vpn: VpnKind::F5,
        networks: Vec::new(),
        hostnames: Vec::new(),
    }];
    let nobody = SplitterConfig { profiles: Vec::new() };
    let servers = vec![address(192, 0, 2, 53)];
    let prepared =
        append_dns_policy(PreparedRoutes::default(), &validated, &nobody, &[], &servers)
            .expect("only the general rule is needed");
    assert_eq!(prepared.dns_rules.len(), 1);
    assert_eq!(prepared.dns_rules[0].namespaces, vec!["."]);
}

#[test]
fn nobody_is_asked_where_no_domain_is_listed() {
    let config = config(&[
        (VpnKind::FortiClient, "Forti", ""),
        (VpnKind::F5, "F5", "0.0.0.0/0 example.test/path"),
        (VpnKind::Ivanti, "Pulse", "10.0.0.0/8"),
    ]);
    let mut calls = 0;
    let errors = validate_config_with_resolver(&config, |_: VpnKind, _: &str| {
        calls += 1;
        Ok(vec![address(198, 51, 100, 20)])
    })
    .expect_err("three entries are wrong");
    assert_eq!(calls, 0);
    assert_eq!(
        errors.into_iter().map(|error| error.vpns).collect::<Vec<_>>(),
        vec![vec![VpnKind::FortiClient], vec![VpnKind::F5], vec![VpnKind::F5]]
    );
}

#[test]
fn plain_names_are_kept_in_every_kind_of_url() {
    for name in ["a", "localhost", "3com.example.test", "a-b.c--d.x1", "-a..b-.test", ".test"] {
        for token in [
            name.to_owned(),
            format!("http://{name}"),
            format!("http://{name}/"),
            format!("http://{name}:/"),
            format!("https://{name}:65535"),
            format!("https://{name}:00080/../a@b:c?d#e%zz"),
        ] {
            assert_eq!(target_host(&token), Ok(Host::Domain(name.to_owned())), "{token}");
        }
    }
    assert!(target_host("http://a.test:65536/").is_err());
    assert_eq!(target_host("http://1.0x7f/"), Ok(Host::Ipv4(address(1, 0, 0, 127))));
}

#[test]
fn faultless_targets_are_accepted_and_faulty_ones_are_not() {
    let resolve = |_: VpnKind, hostname: &str| match hostname {
        "one.test" => Ok(vec![address(198, 51, 100, 20)]),
        "two.test" => Ok(vec![address(198, 51, 100, 21)]),
        _ => Ok(Vec::new()),
    };
    let judge = |left: &str, right: &str| {
        validate_config_with_resolver(
            &config(&[(VpnKind::F5, "F5", left), (VpnKind::Ivanti, "Pulse", right)]),
            resolve,
        )
        .is_ok()
    };
    assert!(judge("one.test 10.0.0.0/8 10.1.0.0/16", "two.test 172.16.0.0/12"));
    assert!(!judge("one.test", ""));
    assert!(!judge("one.test", "0.0.0.0/0"));
    assert!(!judge("one.test", "three.test"));
    assert!(!judge("one.test", "one.test"));
    assert!(!judge("one.test", "198.51.100.0/24"));
}
