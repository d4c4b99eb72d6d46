use rust_vpn_splitter::card::{profile_card, AdapterChoice, FullTunnelNotice};
use rust_vpn_splitter::dns_plan::sorted_addresses;
use rust_vpn_splitter::domain::{
    configured_dns_hostnames, configured_static_networks, destination_of, target_host,
    target_tokens, Host, SplitterConfig, VpnKind,
};
use rust_vpn_splitter::fallback::{
    adapter_vpn_kind, current_network_dns_servers, fallback_is_preferred, select_internet_fallback,
    InternetFallback,
};
use rust_vpn_splitter::health::{
    endpoint_refresh_required, evaluate_route_health_with_native_routes, RouteHealthInput,
    RouteHealthOutcome,
};
use rust_vpn_splitter::ipv4::{address_to_text, parse_address, Ipv4Net};
use rust_vpn_splitter::physical::INTERNET_BYPASS_PREFIXES;
use rust_vpn_splitter::physical_health::desired_routes_for_health_check;
use rust_vpn_splitter::policy::internet_bypass_networks;
use rust_vpn_splitter::preparation::ROUTE_METRIC;
use rust_vpn_splitter::routes::{routes_match, same_routes};
use rust_vpn_splitter::selection::normalized_ipv4_servers;
use rust_vpn_splitter::session::{Banner, SaveRequest, Session};
use rust_vpn_splitter::state::{migrate_legacy_route_purposes, PersistedState};
use rust_vpn_splitter::transaction::{
    apply_policy_transaction_with_native_routes, prepare_all_enabled_routes_with_context,
    PolicyTransactionInput,
};
use rust_vpn_splitter::validation::{
    collapse_networks, validate_config_with_answers, validate_config_with_resolver, DnsAnswer,
};
use rust_vpn_splitter::windows::{
    apply_dns_policy, apply_routes, discover_internet_gateway, discover_vpn_adapters,
    existing_managed_routes, powershell_failure, resolve_ipv4_with_dns_servers, ApplyResponse,
    DnsApplyResponse, DnsApplyResult, DnsResolutionResponse, InternetGateway, ManagedDnsRule,
    ManagedRoute, ManagedRoutePurpose, NativeRoute, NetworkAdapter, RoutePriority, RouteRow,
    RouteTableFingerprint, ScriptOutput,
};

fn address(a: u8, b: u8, c: u8, d: u8) -> u32 {
    u32::from_be_bytes([a, b, c, d])
}

fn network(text: &str) -> Ipv4Net {
    Ipv4Net::parse(text).expect("network is valid")
}

fn adapter(index: u32, description: &str, full_tunnel: bool, servers: &[&str]) -> NetworkAdapter {
    NetworkAdapter {
        index,
        name: "VPN".to_owned(),
        description: description.to_owned(),
        status: "Up".to_owned(),
        next_hop: "0.0.0.0".to_owned(),
        full_tunnel_priority: if full_tunnel {
            Some(RoutePriority { prefix_length: 0, effective_metric: 1 })
        } else {
            None
        },
        dns_servers: servers.iter().map(|server| (*server).to_owned()).collect(),
    }
}

fn gateway() -> InternetGateway {
    InternetGateway {
        interface_index: 7,
        interface_alias: "Wi-Fi".to_owned(),
        interface_description: "Physical Wi-Fi Adapter".to_owned(),
        next_hop: "192.0.2.1".to_owned(),
        inferred_from_escape_route: false,
        route_priority: Some(RoutePriority { prefix_length: 0, effective_metric: 50 }),
        dns_servers: vec!["192.0.2.53".to_owned()],
        fallback_dns_servers: Vec::new(),
    }
}

fn config(entries: &[(VpnKind, &str, &str)]) -> SplitterConfig {
    let mut config = SplitterConfig::default();
    for (vpn, description, networks) in entries {
        let profile = config.profile_mut(*vpn).expect("profile exists");
        profile.enabled = true;
        profile.adapter_description = Some((*description).to_owned());
        profile.networks = (*networks).to_owned();
    }
    config
}

fn target(vpn: VpnKind, prefix: &str, interface_index: u32) -> ManagedRoute {
    ManagedRoute {
        vpn,
        purpose: ManagedRoutePurpose::Target,
        prefix: prefix.to_owned(),
        interface_index,
        next_hop: "0.0.0.0".to_owned(),
        route_metric: ROUTE_METRIC,
    }
}

fn output(success: bool, stdout: &str, stderr: &str) -> ScriptOutput {
    ScriptOutput {
        success,
        stdout: stdout.to_owned(),
        stderr: stderr.to_owned(),
    }
}

#[test]
fn addresses_and_networks_read_back_from_their_notation() {
    for value in [0, 1, address(10, 20, 30, 40), address(255, 255, 255, 255)] {
        assert_eq!(parse_address(&address_to_text(value)), Some(value));
        for length in [0, 1, 9, 10, 31, 32] {
            let network = Ipv4Net::new(value, length).expect("length is valid");
            assert_eq!(Ipv4Net::parse(&network.to_text()), Some(network));
        }
    }
    assert_eq!(address_to_text(address(10, 0, 200, 3)), "10.0.200.3");
    for text in ["", "1.2.3", "1.2.3.4.5", "256.0.0.1", "01.2.3.4", "1.2.3.4/8", " 1.2.3.4"] {
        assert_eq!(parse_address(text), None, "{text}");
    }
    for text in ["", "1.2.3.4", "1.2.3.4/33", "1.2.3.4/-1", "1.2.3.4/8/8", "::/0"] {
        assert_eq!(Ipv4Net::parse(text), None, "{text}");
    }
    assert!(Ipv4Net::new(0, 33).is_none());
}

#[test]
fn a_network_holds_the_addresses_from_its_lowest_to_its_highest() {
    let network = network("10.1.2.3/12");
    assert_eq!(network.network(), address(10, 0, 0, 0));
    assert_eq!(network.broadcast(), address(10, 15, 255, 255));
    assert_eq!(network.trunc().to_text(), "10.0.0.0/12");
    assert!(network.contains(address(10, 15, 0, 1)));
    assert!(!network.contains(address(10, 16, 0, 0)));
    assert!(!network.contains(address(9, 255, 255, 255)));
}

#[test]
fn every_address_lies_in_exactly_one_bypass_network() {
    let quarters = INTERNET_BYPASS_PREFIXES.map(network);
    let sixteenths = internet_bypass_networks();
    assert_eq!(sixteenths.len(), 16);
    assert_eq!(sixteenths[15].to_text(), "240.0.0.0/4");
    for value in [0, address(63, 255, 255, 255), address(64, 0, 0, 0), address(203, 0, 113, 7)] {
        assert_eq!(quarters.iter().filter(|net| net.contains(value)).count(), 1);
        assert_eq!(sixteenths.iter().filter(|net| net.contains(value)).count(), 1);
    }
}

#[test]
fn collapsing_keeps_the_widest_networks_in_order() {
    let collapsed = collapse_networks(&vec![
        network("192.168.0.0/16"),
        network("10.20.0.0/16"),
        network("10.0.0.0/8"),
        network("192.168.50.0/24"),
    ]);
    assert_eq!(collapsed, vec![network("10.0.0.0/8"), network("192.168.0.0/16")]);
}

#[test]
fn entries_are_separated_by_white_space_commas_and_semicolons() {
    assert_eq!(
        target_tokens(" 10.0.0.0/8,\tone.test;;two.test\r\n three.test "),
        vec!["10.0.0.0/8", "one.test", "two.test", "three.test"]
    );
    assert!(target_tokens(" ,; \n").is_empty());
}

#[test]
fn the_destination_of_a_url_is_its_host() {
    assert_eq!(
        target_host("http://GitLab.Example.TEST:1500/path"),
        Ok(Host::Domain("gitlab.example.test".to_owned()))
    );
    assert_eq!(
        target_host("https://198.51.100.7/x"),
        Ok(Host::Ipv4(address(198, 51, 100, 7)))
    );
    assert_eq!(target_host("203.0.113.8"), Ok(Host::Ipv4(address(203, 0, 113, 8))));
    assert!(matches!(target_host("https://[2001:db8::1]/"), Ok(Host::Ipv6)));
    assert_eq!(
        target_host("one.test/path"),
        Err("網域不可包含路徑；若要輸入完整網址，請包含 http:// 或 https://".to_owned())
    );
    assert_eq!(target_host("mailto://"), destination_of(Ok(None)));
    assert_eq!(destination_of(Ok(None)), Err("缺少目的網域或 IP".to_owned()));
    assert_eq!(destination_of(Err("reason".to_owned())), Err("reason".to_owned()));
    assert!(target_host("http://").is_err());
}

#[test]
fn domains_and_networks_of_a_profile_are_told_apart() {
    let config = config(&[(VpnKind::F5, "F5", "b.test 10.0.0.0/8 https://a.test/x b.test 1.2.3.4")]);
    let profile = config.profile(VpnKind::F5).expect("profile exists");
    assert_eq!(
        configured_dns_hostnames(profile),
        Ok(vec!["a.test".to_owned(), "b.test".to_owned()])
    );
    assert_eq!(
        configured_static_networks(profile),
        Ok(vec![network("10.0.0.0/8"), network("1.2.3.4/32")])
    );
}

#[test]
fn every_kind_of_bad_entry_is_reported() {
    let mut config = config(&[
        (VpnKind::FortiClient, "Forti", ""),
        (VpnKind::F5, "F5", "https://[2001:db8::1]/ one.test/path"),
        (VpnKind::Ivanti, "Ivanti", "silent.test empty.test"),
    ]);
    let resolve = |_: VpnKind, hostname: &str| {
        if hostname == "silent.test" {
            Err("timeout".to_owned())
        } else {
            Ok(Vec::new())
        }
    };

    let errors = validate_config_with_resolver(&config, resolve).expect_err("nothing is right");
    let about = |vpn: VpnKind, text: &str| {
        errors
            .iter()
            .any(|error| error.vpns == vec![vpn] && error.message.contains(text))
    };
    assert!(about(VpnKind::FortiClient, "FortiClient"));
    assert!(about(VpnKind::F5, "IPv6"));
    assert!(about(VpnKind::F5, "one.test/path"));
    assert!(about(VpnKind::Ivanti, "timeout"));
    assert!(about(VpnKind::Ivanti, "empty.test"));
    assert_eq!(errors.len(), 5);

    for profile in &mut config.profiles {
        profile.enabled = false;
    }
    assert_eq!(validate_config_with_resolver(&config, resolve), Ok(Vec::new()));
}

#[test]
fn answers_are_used_where_they_were_given() {
    let config = config(&[(VpnKind::F5, "F5", "one.test")]);
    let answers = vec![DnsAnswer {
        vpn: VpnKind::F5,
        hostname: "one.test".to_owned(),
        addresses: Ok(vec![address(198, 51, 100, 20)]),
    }];
    let validated = validate_config_with_answers(&config, &answers).expect("answer is usable");
    assert_eq!(validated[0].networks, vec![network("198.51.100.20/32")]);
    assert_eq!(validated[0].hostnames, vec!["one.test"]);
}

#[test]
fn name_servers_are_normalized_once_each() {
    let servers = ["192.0.2.2", "192.0.2.1", "x", "192.0.2.2"].map(str::to_owned).to_vec();
    assert_eq!(normalized_ipv4_servers(&servers), vec!["192.0.2.2", "192.0.2.1"]);
    assert_eq!(sorted_addresses(&vec![9, 3, 9, 1]), vec![1, 3, 9]);
}

#[test]
fn the_ordinary_network_keeps_no_server_of_a_vpn() {
    let adapters = vec![adapter(43, "F5 Networks", true, &["192.0.2.53", "203.0.113.53"])];
    let mut gateway = gateway();
    assert_eq!(
        current_network_dns_servers(&adapters, &gateway),
        Err(vec![
            "Wi-Fi 沒有可辨識的一般網路 IPv4 DNS server；為避免讓未指定服務繼續使用 VPN DNS，已停止啟用分流。"
                .to_owned()
        ])
    );
    gateway.fallback_dns_servers = vec!["203.0.113.53".to_owned(), "192.0.2.99".to_owned()];
    assert_eq!(
        current_network_dns_servers(&adapters, &gateway),
        Ok(vec![address(192, 0, 2, 99)])
    );
}

#[test]
fn everything_else_takes_the_path_that_windows_prefers() {
    let adapters = vec![
        adapter(43, "F5 Networks", true, &[]),
        adapter(44, "Pulse Secure", true, &[]),
    ];
    let gateway = gateway();
    let config = config(&[(VpnKind::F5, "F5 Networks", "10.0.0.0/8")]);

    let path = select_internet_fallback(&config, &adapters, Some(&gateway)).expect("a path exists");
    assert!(matches!(path, InternetFallback::Vpn { vpn: VpnKind::Ivanti, .. }));
    assert_eq!(path.interface_index(), 44);
    assert!(fallback_is_preferred(path, InternetFallback::Physical(&gateway)));
    assert!(!fallback_is_preferred(InternetFallback::Physical(&gateway), path));
    assert_eq!(adapter_vpn_kind(&adapters[1]), Some(VpnKind::Ivanti));

    let only = select_internet_fallback(&config, &adapters[..1], Some(&gateway)).expect("a path");
    assert!(matches!(only, InternetFallback::Physical(_)));
    assert!(select_internet_fallback(&config, &adapters[..1], None).is_none());
}

#[test]
fn a_health_check_is_done_once() {
    let adapters = vec![
        adapter(43, "F5 Networks", true, &["203.0.113.53"]),
        adapter(44, "Pulse Secure", true, &["203.0.113.54"]),
    ];
    let config = config(&[
        (VpnKind::F5, "F5 Networks", "10.0.0.0/8 one.test"),
        (VpnKind::Ivanti, "Pulse Secure", "172.16.0.0/12"),
    ]);
    let current = vec![
        target(VpnKind::F5, "10.0.0.0/8", 1),
        target(VpnKind::Ivanti, "172.16.0.0/12", 2),
        ManagedRoute {
            purpose: ManagedRoutePurpose::InternetBypass,
            ..target(VpnKind::Ivanti, "0.0.0.0/2", 9)
        },
    ];

    let plan = desired_routes_for_health_check(&current, config, &adapters, Some(&gateway()))
        .expect("a gateway exists");
    assert_eq!(plan.disabled_vpns, vec![VpnKind::F5]);
    assert_eq!(plan.routes.len(), 5);
    assert_eq!(plan.routes[0], target(VpnKind::Ivanti, "172.16.0.0/12", 44));
    assert_eq!(plan.dns_rules.len(), 1);
    assert!(plan.warnings[0].contains("Ivanti"));

    let again = desired_routes_for_health_check(
        &plan.routes,
        plan.config.clone(),
        &adapters,
        Some(&gateway()),
    )
    .expect("a gateway exists");
    assert_eq!(again.config, plan.config);
    assert!(same_routes(&again.routes, &plan.routes));
    assert_eq!(again.dns_rules, plan.dns_rules);
    assert!(again.disabled_vpns.is_empty());

    assert_eq!(
        desired_routes_for_health_check(&plan.routes, plan.config, &adapters, None),
        Err(
            "Ivanti 仍是 Full Tunnel，但目前找不到可用的一般網路閘道；保留既有路由並稍後重試。"
                .to_owned()
        )
    );
}

#[test]
fn a_native_health_check_moves_targets_and_keeps_native_ways() {
    let adapters = vec![adapter(43, "F5 Networks", true, &[])];
    let config = config(&[(VpnKind::F5, "F5 Networks", "10.0.0.0/8")]);
    let native = vec![NativeRoute {
        prefix: network("16.0.0.0/4"),
        interface_index: 9,
        next_hop: "192.0.2.9".to_owned(),
        route_metric: 1,
        interface_metric: u32::MAX,
    }];
    assert_eq!(native[0].effective_metric(), u32::MAX);
    let outcome = evaluate_route_health_with_native_routes(
        RouteHealthInput {
            current_routes: vec![target(VpnKind::F5, "10.0.0.0/8", 1)],
            config,
            existing_routes: Vec::new(),
            adapters,
            internet_gateway: Some(gateway()),
            native_routes: native,
        },
        |_: &[ManagedRoute], _: &[ManagedRoute]| Ok(()),
        |_: &[ManagedDnsRule]| Ok(false),
    );
    match outcome {
        RouteHealthOutcome::Updated { routes, repaired, disabled_vpns, .. } => {
            assert!(repaired);
            assert!(disabled_vpns.is_empty());
            assert_eq!(routes[0], target(VpnKind::F5, "10.0.0.0/8", 43));
            let bypass = routes
                .iter()
                .filter(|route| route.purpose == ManagedRoutePurpose::InternetBypass)
                .collect::<Vec<_>>();
            assert_eq!(bypass.len(), 16);
            assert_eq!((bypass[0].interface_index, bypass[0].prefix.as_str()), (7, "0.0.0.0/4"));
            assert_eq!((bypass[1].interface_index, bypass[1].prefix.as_str()), (9, "16.0.0.0/4"));
        }
        other => panic!("unexpected outcome: {other:?}"),
    }
}

#[test]
fn endpoints_are_looked_for_when_the_table_changes() {
    let one = RouteTableFingerprint(1);
    assert!(endpoint_refresh_required(true, Some(one), one));
    assert!(endpoint_refresh_required(false, None, one));
    assert!(endpoint_refresh_required(false, Some(RouteTableFingerprint(2)), one));
    assert!(!endpoint_refresh_required(false, Some(one), one));
}

#[test]
fn a_transaction_stages_the_name_servers_before_the_targets() {
    let adapters = vec![adapter(43, "F5 Networks", false, &["203.0.113.53"])];
    let config = config(&[(VpnKind::F5, "F5 Networks", "one.test")]);
    let gateway = gateway();
    let input = PolicyTransactionInput {
        managed_routes: &[],
        active_routes: &[],
        config: &config,
        adapters: &adapters,
        internet_gateway: Some(&gateway),
    };
    let mut replaced = Vec::new();
    let mut rules = 0;

    let applied = apply_policy_transaction_with_native_routes(
        input,
        &[],
        |_: VpnKind, hostname: &str, servers: &[String]| {
            assert_eq!(hostname, "one.test");
            assert_eq!(servers, ["203.0.113.53"]);
            Ok(vec![address(198, 51, 100, 20)])
        },
        |before: &[ManagedRoute], after: &[ManagedRoute]| {
            replaced.push((before.len(), after.len()));
            Ok(())
        },
        |wanted: &[ManagedDnsRule]| {
            rules = wanted.len();
            Ok(true)
        },
    )
    .expect("every step succeeds");

    assert!(applied.changed);
    assert_eq!(replaced[0], (0, 1));
    assert_eq!(rules, 2);
    assert!(applied.prepared.routes.contains(&target(VpnKind::F5, "198.51.100.20/32", 43)));
    assert!(applied
        .prepared
        .routes
        .iter()
        .any(|route| route.purpose == ManagedRoutePurpose::VpnDnsServer));
}

#[test]
fn a_failed_transaction_goes_back_to_the_routes_before_it() {
    let adapters = vec![adapter(43, "F5 Networks", false, &["203.0.113.53"])];
    let config = config(&[(VpnKind::F5, "F5 Networks", "one.test")]);
    let gateway = gateway();
    let before = vec![target(VpnKind::F5, "192.0.2.0/24", 43)];
    let input = PolicyTransactionInput {
        managed_routes: &before,
        active_routes: &before,
        config: &config,
        adapters: &adapters,
        internet_gateway: Some(&gateway),
    };
    let mut last = Vec::new();

    let error = apply_policy_transaction_with_native_routes(
        input,
        &[],
        |_: VpnKind, _: &str, _: &[String]| Ok(vec![address(198, 51, 100, 20)]),
        |_: &[ManagedRoute], after: &[ManagedRoute]| {
            last = after.to_vec();
            Ok(())
        },
        |_: &[ManagedDnsRule]| Err("rules refused".to_owned()),
    )
    .expect_err("the rules are refused");

    assert_eq!(error, "rules refused\n已將 IPv4 路由回復到套用前狀態。");
    assert!(routes_match(&last, &before));
}

#[test]
fn nothing_is_prepared_where_nothing_is_enabled() {
    let prepared = prepare_all_enabled_routes_with_context(
        &SplitterConfig::default(),
        &[],
        None,
        &[],
        &[],
        |_: VpnKind, _: &str, _: &[String]| Err("nobody asks".to_owned()),
    )
    .expect("nothing can fail");
    assert!(prepared.routes.is_empty() && prepared.dns_rules.is_empty());
}

#[test]
fn a_profile_needs_a_connected_interface() {
    let mut adapters = vec![adapter(43, "F5 Networks", false, &[])];
    let mut config = config(&[(VpnKind::F5, "F5 Networks", "10.0.0.0/8")]);
    let prepare = |config: &SplitterConfig, adapters: &[NetworkAdapter]| {
        prepare_all_enabled_routes_with_context(
            config,
            adapters,
            Some(&gateway()),
            &[],
            &[],
            |_: VpnKind, _: &str, _: &[String]| Err("nobody asks".to_owned()),
        )
        .map(|prepared| prepared.routes.len())
    };
    assert_eq!(prepare(&config, &adapters), Ok(1));
    adapters[0].status = "Disconnected".to_owned();
    assert_eq!(
        prepare(&config, &adapters),
        Err(vec!["F5 的介面「F5 Networks」尚未連線。".to_owned()])
    );
    assert_eq!(
        prepare(&config, &[]),
        Err(vec!["F5 找不到已選擇的介面「F5 Networks」，請重新偵測。".to_owned()])
    );
    config.profile_mut(VpnKind::F5).expect("profile exists").adapter_description = None;
    assert_eq!(
        prepare(&config, &adapters),
        Err(vec!["F5 已啟用，但尚未選擇 VPN 網路介面。".to_owned()])
    );
}

#[test]
fn connected_interfaces_come_first() {
    let mut down = adapter(1, "A", false, &[]);
    down.status = "Disconnected".to_owned();
    let found = discover_vpn_adapters(
        &output(true, "", ""),
        Ok(vec![down, adapter(2, "C", false, &[]), adapter(3, "B", false, &[])]),
    )
    .expect("the script succeeded");
    assert_eq!(found.iter().map(|adapter| adapter.index).collect::<Vec<_>>(), vec![3, 2, 1]);
    assert_eq!(found[0].display_label(), "B · ifIndex 3 · Up");
    assert_eq!(
        discover_vpn_adapters(&output(true, "", ""), Err("eof".to_owned())),
        Err("無法解析 Windows 網路介面資料：eof".to_owned())
    );
    assert_eq!(
        discover_internet_gateway(&output(true, "", ""), Err("eof".to_owned())),
        Err("無法解析一般網路閘道資料：eof".to_owned())
    );
    assert_eq!(discover_internet_gateway(&output(true, "", ""), Ok(None)), Ok(None));
}

#[test]
fn a_failed_script_says_why() {
    assert_eq!(
        powershell_failure(&output(false, "out", " err\n")),
        "Windows PowerShell 執行失敗：err"
    );
    assert_eq!(
        powershell_failure(&output(false, " out ", " ")),
        "Windows PowerShell 執行失敗：out"
    );
    assert_eq!(
        powershell_failure(&output(false, "", "")),
        "Windows PowerShell 執行失敗，沒有回傳詳細訊息。"
    );
    let reply = |ok| Some(ApplyResponse { ok, message: "said".to_owned() });
    assert_eq!(apply_routes(&output(true, "", ""), reply(true)), Ok("said".to_owned()));
    assert_eq!(apply_routes(&output(false, "", ""), reply(true)), Err("said".to_owned()));
    assert_eq!(apply_routes(&output(true, "", ""), reply(false)), Err("said".to_owned()));
    assert_eq!(
        apply_routes(&output(true, "?", ""), None),
        Err("Windows PowerShell 執行失敗：?".to_owned())
    );
    let rules = |ok| Some(DnsApplyResponse { ok, changed: true, message: "said".to_owned() });
    assert_eq!(
        apply_dns_policy(&output(true, "", ""), rules(true)),
        Ok(DnsApplyResult { changed: true })
    );
    assert_eq!(apply_dns_policy(&output(true, "", ""), rules(false)), Err("said".to_owned()));
    let names = |addresses: &[&str]| {
        Some(DnsResolutionResponse {
            ok: true,
            addresses: addresses.iter().map(|address| (*address).to_owned()).collect(),
            message: String::new(),
        })
    };
    assert_eq!(
        resolve_ipv4_with_dns_servers(&output(true, "", ""), names(&["1.2.3.4"])),
        Ok(vec![address(1, 2, 3, 4)])
    );
    assert_eq!(
        resolve_ipv4_with_dns_servers(&output(true, "", ""), names(&["1.2.3.4", "x"])),
        Err("DNS 回傳無效 IPv4 位址 x：invalid IPv4 address syntax".to_owned())
    );
}

#[test]
fn only_routes_in_the_table_exist() {
    let routes = vec![target(VpnKind::F5, "10.0.0.0/8", 43), target(VpnKind::F5, "11.0.0.0/8", 43)];
    let rows = vec![RouteRow {
        destination: Some(address(11, 0, 0, 0)),
        prefix_length: 8,
        interface_index: 43,
        next_hop: Some(0),
        metric: 5,
    }];
    assert_eq!(existing_managed_routes(&routes, &rows), vec![routes[1].clone()]);
    let other_family = vec![RouteRow { next_hop: None, ..rows[0] }];
    assert!(existing_managed_routes(&routes, &other_family).is_empty());
}

#[test]
fn migrating_twice_is_migrating_once() {
    let mut state = PersistedState {
        managed_routes: vec![
            target(VpnKind::Ivanti, "0.0.0.0/1", 7),
            target(VpnKind::Ivanti, "128.0.0.0/1", 7),
            target(VpnKind::Ivanti, "10.0.0.0/8", 43),
            target(VpnKind::F5, "0.0.0.0/1", 7),
            target(VpnKind::F5, "128.0.0.0/1", 8),
        ],
        ..PersistedState::default()
    };
    migrate_legacy_route_purposes(&mut state);
    let once = state.clone();
    migrate_legacy_route_purposes(&mut state);
    assert_eq!(state, once);
    let marked = state
        .managed_routes
        .iter()
        .map(|route| route.purpose == ManagedRoutePurpose::InternetBypass)
        .collect::<Vec<_>>();
    assert_eq!(marked, vec![true, true, false, false, false]);
}

#[test]
fn nothing_is_due_while_waiting() {
    let mut session = Session::new(PersistedState::default(), 1_000);
    assert_eq!(session.repaint_after(1_000), None);
    let profile = session.state.config.profile_mut(VpnKind::F5).expect("profile exists");
    profile.enabled = true;
    profile.networks = "one.test".to_owned();
    session.next_route_health_at = 9_000;
    session.next_dns_refresh_at = 6_000;
    assert_eq!(session.repaint_after(2_000), Some(4_000));
    assert_eq!(session.refresh_routes_if_due(5_999), None);
    assert!(!session.refresh_dns_routes_if_due(5_999));
    assert!(session.refresh_dns_routes_if_due(6_000));
    assert_eq!(session.next_dns_refresh_at, 306_000);
    assert_eq!(session.refresh_routes_if_due(9_000), None, "one operation at a time");
    session.operation_ended(Err("crashed".to_owned()), 9_000);
    assert_eq!(session.banner, Banner::Error("crashed".to_owned()));
    assert_eq!(session.enable_error_dialog, None);
    session.next_endpoint_refresh_at = 9_001;
    assert_eq!(session.refresh_routes_if_due(9_000), Some(false));
    assert_eq!(session.next_route_health_at, 14_000);
}

#[test]
fn a_failed_save_is_reported_where_the_user_asked() {
    let mut session = Session::new(PersistedState::default(), 0);
    let before = Banner::Info("請填入 CIDR、網域或網址；切換開關時會立即驗證並套用。".to_owned());
    session.report_save_failure(&SaveRequest::Quiet(PersistedState::default()), "disk full".to_owned());
    assert_eq!(session.banner, before);
    session.report_save_failure(
        &SaveRequest::AfterToggle(PersistedState::default()),
        "disk full".to_owned(),
    );
    assert_eq!(
        session.banner,
        Banner::Error("路由已套用，但設定保存失敗：disk full".to_owned())
    );
    session.report_save_failure(
        &SaveRequest::AfterDnsRefresh(PersistedState::default()),
        "disk full".to_owned(),
    );
    assert_eq!(
        session.banner,
        Banner::Error("DNS 路由已更新，但設定保存失敗：disk full".to_owned())
    );
}

#[test]
fn the_only_connected_interface_is_selected() {
    let mut session = Session::new(PersistedState::default(), 0);
    let mut down = adapter(1, "F5 old", false, &[]);
    down.status = "Disconnected".to_owned();
    session.adapters = vec![down, adapter(2, "F5 new", true, &[])];
    session.auto_select_adapters();
    let profile = session.state.config.profile(VpnKind::F5).expect("profile exists");
    assert_eq!(profile.adapter_description.as_deref(), Some("F5 new"));

    let card = profile_card(profile, VpnKind::F5, &session.adapters, Some(&gateway()), false);
    assert_eq!(card.selected_text, "F5 new · ifIndex 2 · Up");
    assert!(!card.requires_choice && card.chose_connected);
    assert_eq!(card.selected_is_up, Some(true));
    assert_eq!(card.status, "已連線");
    assert_eq!(
        card.candidates,
        vec![
            AdapterChoice {
                description: "F5 old".to_owned(),
                label: "F5 old · ifIndex 1 · Disconnected".to_owned(),
            },
            AdapterChoice {
                description: "F5 new".to_owned(),
                label: "F5 new · ifIndex 2 · Up".to_owned(),
            },
        ]
    );
    assert_eq!(
        card.full_tunnel,
        Some(FullTunnelNotice {
            message: "Full Tunnel：啟用分流後，非指定 IPv4 流量會導回 Wi-Fi。".to_owned(),
            can_enable: true,
        })
    );
}

#[test]
fn a_profile_is_edited_only_while_it_is_disabled() {
    let config = SplitterConfig::default();
    let mut profile = config.profile(VpnKind::F5).expect("profile exists").clone();
    for (enabled, busy) in [(false, false), (false, true), (true, false), (true, true)] {
        profile.enabled = enabled;
        let card = profile_card(&profile, VpnKind::F5, &Vec::new(), None, busy);
        assert_eq!(card.switch_label, if enabled { "停用分流" } else { "啟用分流" });
        assert_eq!(card.switchable, !busy);
        assert_eq!(card.editable, !enabled && !busy);
        assert_eq!(
            card.locked_hint.as_deref(),
            if enabled {
                Some("分流已啟用；請先關閉，成功移除路由與 DNS 規則後才能修改。")
            } else {
                None
            }
        );
        assert_eq!(card.status, "尚未偵測到 F5 虛擬網卡");
        assert_eq!(card.selected_text, "尚未選擇");
        assert!(card.candidates.is_empty());
    }
}
