use rust_vpn_splitter::card::profile_card;
use rust_vpn_splitter::domain::{has_enabled_dns_targets, SplitterConfig, VpnKind};
use rust_vpn_splitter::health::RouteHealthOutcome;
use rust_vpn_splitter::operations::{
    DnsRefreshOutcome, OperationKind, OperationResult, QueuedForegroundAction, ReconciledRoutes,
    RefreshOutcome, ToggleOutcome,
};
use rust_vpn_splitter::physical::{
    prepare_all_enabled_routes_with_resolver, prepare_profile_routes_for, INTERNET_BYPASS_PREFIXES,
};
use rust_vpn_splitter::physical_health::evaluate_route_health_with;
use rust_vpn_splitter::preparation::{PreparedRoutes, ROUTE_METRIC};
use rust_vpn_splitter::routes::{
    discard_incomplete_vpn_route_sets, reconciled_routes_for_config, replace_vpn_routes,
};
use rust_vpn_splitter::selection::{needs_periodic_route_refresh, should_schedule_dns_refresh};
use rust_vpn_splitter::session::{Banner, SaveRequest, Session};
use rust_vpn_splitter::state::{
    cleanup_managed_routes_with, had_active_policy, migrate_legacy_route_purposes, PersistedState,
};
use rust_vpn_splitter::windows::{
    InternetGateway, ManagedDnsRule, ManagedRoute, ManagedRoutePurpose, NetworkAdapter,
    RoutePriority,
};

fn full_tunnel() -> Option<RoutePriority> {
    Some(RoutePriority { prefix_length: 0, effective_metric: 1 })
}

fn route(vpn: VpnKind, prefix: &str) -> ManagedRoute {
    ManagedRoute {
        vpn,
        purpose: ManagedRoutePurpose::Target,
        prefix: prefix.to_owned(),
        interface_index: 10,
        next_hop: "0.0.0.0".to_owned(),
        route_metric: ROUTE_METRIC,
    }
}

fn full_tunnel_app(vpn: VpnKind) -> Session {
    let (name, description) = match vpn {
        VpnKind::FortiClient => ("FortiClient VPN", "Fortinet SSL VPN Virtual Ethernet Adapter"),
        VpnKind::F5 => (
            "_Common_SSLVPN-NA_V - sslvpn.example.test",
            "F5 Networks VPN Adapter",
        ),
        VpnKind::Ivanti => ("Ivanti VPN", "Pulse Secure Virtual Adapter"),
    };
    let mut session = Session::new(PersistedState::default(), 0);
    session.adapters = vec![NetworkAdapter {
        index: 43,
        name: name.to_owned(),
        description: description.to_owned(),
        status: "Up".to_owned(),
        next_hop: "0.0.0.0".to_owned(),
        full_tunnel_priority: full_tunnel(),
        dns_servers: Vec::new(),
    }];
    session.internet_gateway = Some(InternetGateway {
        interface_index: 7,
        interface_alias: "Wi-Fi".to_owned(),
        interface_description: "Physical Wi-Fi Adapter".to_owned(),
        next_hop: "192.0.2.1".to_owned(),
        inferred_from_escape_route: true,
        route_priority: None,
        dns_servers: vec!["192.0.2.53".to_owned()],
        fallback_dns_servers: vec!["192.0.2.53".to_owned()],
    });
    session.banner = Banner::Info(String::new());
    session
}

fn enabled_full_tunnel_config(app: &Session, vpn: VpnKind) -> SplitterConfig {
    let mut config = SplitterConfig::default();
    let profile = config.profile_mut(vpn).expect("profile exists");
    profile.enabled = true;
    profile.networks = "203.0.113.10/32".to_owned();
    profile.adapter_description = Some(app.adapters[0].description.clone());
    config
}

fn no_names(vpn: VpnKind, hostname: &str, _servers: &[String]) -> Result<Vec<u32>, String> {
    panic!("{} has no names, but {hostname} was asked for", vpn.name())
}

fn prepare_profile_routes(
    app: &Session,
    config: &SplitterConfig,
    vpn: VpnKind,
) -> Result<PreparedRoutes, Vec<String>> {
    prepare_profile_routes_for(
        config,
        vpn,
        &app.adapters,
        app.internet_gateway.as_ref(),
        no_names,
    )
}

#[test]
fn periodic_background_operations_do_not_block_the_visible_interface() {
    assert!(!OperationKind::RouteHealth.blocks_user_interface());
    assert!(!OperationKind::RefreshDns.blocks_user_interface());
    assert!(OperationKind::RefreshAdapters.blocks_user_interface());
    assert!(OperationKind::ToggleProfile {
        vpn: VpnKind::F5,
        enabled: true,
    }
    .blocks_user_interface());
}

#[test]
fn unchanged_background_dns_refresh_does_not_replace_the_visible_banner() {
    let mut app = full_tunnel_app(VpnKind::F5);
    app.banner = Banner::Success("keep this result visible".to_owned());

    assert!(app.start_operation(OperationKind::RefreshDns));

    assert!(matches!(
        &app.banner,
        Banner::Success(message) if message == "keep this result visible"
    ));
    let request = app.operation_ended(
        Ok(OperationResult::RefreshDns(DnsRefreshOutcome::Unchanged)),
        0,
    );
    assert_eq!(request, SaveRequest::Nothing);
    assert!(matches!(
        &app.banner,
        Banner::Success(message) if message == "keep this result visible"
    ));
}

#[test]
fn cidr_only_profiles_do_not_schedule_dns_refreshes() {
    let mut config = SplitterConfig::default();
    {
        let profile = config.profile_mut(VpnKind::F5).expect("F5 profile exists");
        profile.enabled = true;
        profile.networks = "203.0.113.10/32".to_owned();
    }

    assert!(!should_schedule_dns_refresh(&config));

    config
        .profile_mut(VpnKind::F5)
        .expect("F5 profile exists")
        .networks = "vpn.example.test".to_owned();
    assert!(should_schedule_dns_refresh(&config));
}

#[test]
fn foreground_toggle_is_queued_while_route_health_is_finishing() {
    let mut app = full_tunnel_app(VpnKind::F5);
    assert!(app.start_operation(OperationKind::RouteHealth));
    assert!(
        !app.user_interface_busy(),
        "periodic route health must stay visually silent"
    );

    assert!(!app.set_profile_enabled(VpnKind::F5, true));

    assert_eq!(
        app.queued_foreground_action,
        Some(QueuedForegroundAction::ToggleProfile {
            vpn: VpnKind::F5,
            enabled: true,
        })
    );
    assert!(
        app.user_interface_busy(),
        "a user-requested action may show progress while it waits"
    );

    app.operation_ended(
        Ok(OperationResult::RouteHealth(RouteHealthOutcome::Healthy)),
        0,
    );
    assert!(app.start_queued_foreground_action(0));
    assert_eq!(
        app.pending_operation,
        Some(OperationKind::ToggleProfile {
            vpn: VpnKind::F5,
            enabled: true,
        }),
        "the queued foreground toggle must start as soon as route health finishes"
    );
    assert!(app.queued_foreground_action.is_none());
}

#[test]
fn route_health_update_preserves_fields_edited_during_the_check() {
    let mut app = full_tunnel_app(VpnKind::F5);
    let profile = app
        .state
        .config
        .profile_mut(VpnKind::F5)
        .expect("F5 profile exists");
    profile.enabled = true;
    profile.networks = "edited-while-health-runs.example.test".to_owned();
    let mut stale_health_config = app.state.config.clone();
    let stale_profile = stale_health_config
        .profile_mut(VpnKind::F5)
        .expect("F5 profile exists");
    stale_profile.enabled = false;
    stale_profile.networks = "stale-snapshot.example.test".to_owned();

    let outcome = RouteHealthOutcome::Updated {
        config: stale_health_config,
        routes: Vec::new(),
        adapters: app.adapters.clone(),
        internet_gateway: app.internet_gateway.clone().map(Box::new),
        repaired: false,
        disabled_vpns: vec![VpnKind::F5],
        warnings: vec!["F5 disconnected".to_owned()],
    };
    let request = app.finish_route_health(outcome, 0);

    assert_eq!(request, SaveRequest::Quiet(app.state.clone()));
    assert_eq!(app.banner, Banner::Info("F5 disconnected".to_owned()));
    let profile = app
        .state
        .config
        .profile(VpnKind::F5)
        .expect("F5 profile exists");
    assert!(
        !profile.enabled,
        "health check must still disable a lost VPN"
    );
    assert_eq!(
        profile.networks, "edited-while-health-runs.example.test",
        "a background snapshot must not overwrite live UI edits"
    );
}

#[test]
fn enabled_profile_renders_disable_split_tunnel_label() {
    let mut app = full_tunnel_app(VpnKind::F5);
    app.state
        .config
        .profile_mut(VpnKind::F5)
        .expect("F5 profile exists")
        .enabled = true;

    let profile = app.state.config.profile(VpnKind::F5).expect("F5 profile exists");
    let card = profile_card(
        profile,
        VpnKind::F5,
        &app.adapters,
        app.internet_gateway.as_ref(),
        app.user_interface_busy(),
    );

    assert_eq!(card.switch_label, "停用分流");
    assert!(card.switchable && !card.editable);
}

#[test]
fn enabled_cidr_profile_still_receives_periodic_route_health_checks() {
    let mut config = SplitterConfig::default();
    let profile = config.profile_mut(VpnKind::F5).expect("F5 profile exists");
    profile.enabled = true;
    profile.networks = "203.0.113.10/32".to_owned();

    assert!(!has_enabled_dns_targets(&config));
    assert!(
        needs_periodic_route_refresh(&config),
        "route drift can affect CIDR-only profiles too"
    );
}

#[test]
fn shutdown_cleanup_retries_a_transient_route_removal_failure() {
    let mut state = PersistedState::default();
    state
        .config
        .profile_mut(VpnKind::F5)
        .expect("F5 profile exists")
        .enabled = true;
    state.managed_routes = vec![route(VpnKind::F5, "0.0.0.0/2")];
    let mut attempts = 0;

    cleanup_managed_routes_with(&mut state, |_: &[ManagedRoute]| {
        attempts += 1;
        if attempts == 1 {
            Err("route table changed during cleanup".to_owned())
        } else {
            Ok(())
        }
    })
    .expect("a transient cleanup race should be retried");

    assert_eq!(attempts, 2);
    assert!(state.managed_routes.is_empty());
    assert!(
        !state
            .config
            .profile(VpnKind::F5)
            .expect("F5 profile exists")
            .enabled
    );
}

#[test]
fn failed_shutdown_cleanup_disables_profile_but_keeps_inventory_for_recovery() {
    let mut state = PersistedState::default();
    state
        .config
        .profile_mut(VpnKind::F5)
        .expect("F5 profile exists")
        .enabled = true;
    state.managed_routes = vec![route(VpnKind::F5, "0.0.0.0/2")];
    let expected_routes = state.managed_routes.clone();
    assert!(had_active_policy(&state));

    let result = cleanup_managed_routes_with(&mut state, |_: &[ManagedRoute]| {
        Err("permanent route removal failure".to_owned())
    });

    assert!(result.is_err());
    assert_eq!(
        result,
        Err(
            "關閉時重試 3 次仍無法移除全部管理路由；已保留路由清單供下次啟動復原：permanent route removal failure"
                .to_owned()
        )
    );
    assert_eq!(state.managed_routes, expected_routes);
    assert!(
        !state
            .config
            .profile(VpnKind::F5)
            .expect("F5 profile exists")
            .enabled
    );
}

#[test]
fn next_startup_removes_complete_route_inventory_when_profiles_were_disabled() {
    let config = SplitterConfig::default();
    let previous = vec![
        route(VpnKind::F5, "203.0.113.10/32"),
        ManagedRoute {
            vpn: VpnKind::F5,
            purpose: ManagedRoutePurpose::InternetBypass,
            prefix: "0.0.0.0/2".to_owned(),
            interface_index: 7,
            next_hop: "192.0.2.1".to_owned(),
            route_metric: ROUTE_METRIC,
        },
    ];

    assert!(
        reconciled_routes_for_config(&previous, &previous, &config).is_empty(),
        "a prior process's complete ActiveStore inventory must not be re-enabled on startup"
    );
}

#[test]
fn legacy_pair_of_physical_bypass_routes_is_migrated_from_default_purpose() {
    let mut state = PersistedState {
        managed_routes: vec![
            ManagedRoute {
                vpn: VpnKind::F5,
                purpose: ManagedRoutePurpose::Target,
                prefix: "203.0.113.10/32".to_owned(),
                interface_index: 43,
                next_hop: "0.0.0.0".to_owned(),
                route_metric: ROUTE_METRIC,
            },
            ManagedRoute {
                vpn: VpnKind::F5,
                purpose: ManagedRoutePurpose::Target,
                prefix: "0.0.0.0/1".to_owned(),
                interface_index: 7,
                next_hop: "192.0.2.1".to_owned(),
                route_metric: ROUTE_METRIC,
            },
            ManagedRoute {
                vpn: VpnKind::F5,
                purpose: ManagedRoutePurpose::Target,
                prefix: "128.0.0.0/1".to_owned(),
                interface_index: 7,
                next_hop: "192.0.2.1".to_owned(),
                route_metric: ROUTE_METRIC,
            },
        ],
        ..PersistedState::default()
    };

    migrate_legacy_route_purposes(&mut state);

    assert_eq!(
        state
            .managed_routes
            .iter()
            .filter(|route| route.purpose == ManagedRoutePurpose::InternetBypass)
            .count(),
        2
    );
    assert_eq!(state.managed_routes[0].purpose, ManagedRoutePurpose::Target);
}

#[test]
fn toggling_one_vpn_only_replaces_that_vpns_routes() {
    let current = vec![
        route(VpnKind::FortiClient, "10.0.0.0/8"),
        route(VpnKind::F5, "172.16.0.0/12"),
    ];
    let replacement = vec![route(VpnKind::FortiClient, "192.168.0.0/16")];

    let enabled = replace_vpn_routes(&current, VpnKind::FortiClient, replacement.clone());
    assert_eq!(
        enabled,
        vec![route(VpnKind::F5, "172.16.0.0/12"), replacement[0].clone()]
    );

    let disabled = replace_vpn_routes(&enabled, VpnKind::FortiClient, Vec::new());
    assert_eq!(disabled, vec![route(VpnKind::F5, "172.16.0.0/12")]);
}

#[test]
fn every_full_tunnel_vpn_adds_physical_internet_bypass_routes() {
    for vpn in VpnKind::ALL {
        let app = full_tunnel_app(vpn);
        let config = enabled_full_tunnel_config(&app, vpn);

        let prepared = prepare_profile_routes(&app, &config, vpn)
            .expect("full-tunnel routes should be prepared");

        assert!(prepared.routes.contains(&ManagedRoute {
            vpn,
            purpose: ManagedRoutePurpose::Target,
            prefix: "203.0.113.10/32".to_owned(),
            interface_index: 43,
            next_hop: "0.0.0.0".to_owned(),
            route_metric: ROUTE_METRIC,
        }));
        // A supported VPN may itself implement Full Tunnel with two /1
        // routes.  The physical bypass must therefore be more specific
        // than /1 or Windows can continue preferring the VPN by metric.
        for prefix in ["0.0.0.0/2", "64.0.0.0/2", "128.0.0.0/2", "192.0.0.0/2"] {
            assert!(prepared.routes.contains(&ManagedRoute {
                vpn,
                purpose: ManagedRoutePurpose::InternetBypass,
                prefix: prefix.to_owned(),
                interface_index: 7,
                next_hop: "192.0.2.1".to_owned(),
                route_metric: ROUTE_METRIC,
            }));
        }
        assert!(!prepared
            .routes
            .iter()
            .any(|route| route.prefix == "0.0.0.0/1" || route.prefix == "128.0.0.0/1"));
    }
}

#[test]
fn every_vpn_keeps_unlisted_dns_on_the_current_network() {
    for vpn in VpnKind::ALL {
        let mut app = full_tunnel_app(vpn);
        app.adapters[0].dns_servers = vec!["203.0.113.53".to_owned()];
        app.internet_gateway
            .as_mut()
            .expect("physical gateway exists")
            .dns_servers = vec!["203.0.113.53".to_owned(), "192.0.2.53".to_owned()];
        let config = enabled_full_tunnel_config(&app, vpn);

        let prepared = prepare_profile_routes(&app, &config, vpn)
            .expect("split DNS policy should be prepared");

        assert_eq!(prepared.dns_rules.len(), 1, "{}", vpn.name());
        assert_eq!(prepared.dns_rules[0].vpn, None, "{}", vpn.name());
        assert_eq!(prepared.dns_rules[0].namespaces, vec!["."], "{}", vpn.name());
        assert_eq!(
            prepared.dns_rules[0].name_servers,
            vec!["192.0.2.53"],
            "{} must exclude its own DNS server from normal lookups",
            vpn.name()
        );
    }
}

#[test]
fn every_vpn_recovers_physical_dns_when_it_replaces_the_active_dns_list() {
    for vpn in VpnKind::ALL {
        let mut app = full_tunnel_app(vpn);
        app.adapters[0].dns_servers = vec!["203.0.113.53".to_owned()];
        let gateway = app
            .internet_gateway
            .as_mut()
            .expect("physical gateway exists");
        gateway.dns_servers = vec!["203.0.113.53".to_owned()];
        gateway.fallback_dns_servers = vec!["192.0.2.53".to_owned()];
        let config = enabled_full_tunnel_config(&app, vpn);

        let prepared = prepare_profile_routes(&app, &config, vpn)
            .expect("physical DNS fallback should keep split DNS usable");

        assert_eq!(prepared.dns_rules.len(), 1, "{}", vpn.name());
        assert_eq!(prepared.dns_rules[0].namespaces, vec!["."], "{}", vpn.name());
        assert_eq!(
            prepared.dns_rules[0].name_servers,
            vec!["192.0.2.53"],
            "{} must recover the current network DNS from adapter settings",
            vpn.name()
        );
    }
}

#[test]
fn every_vpn_uses_its_own_dns_only_for_listed_hostnames() {
    for vpn in VpnKind::ALL {
        let mut app = full_tunnel_app(vpn);
        app.adapters[0].dns_servers = vec!["203.0.113.53".to_owned()];
        app.internet_gateway
            .as_mut()
            .expect("physical gateway exists")
            .dns_servers = vec!["203.0.113.53".to_owned(), "192.0.2.53".to_owned()];
        let mut config = enabled_full_tunnel_config(&app, vpn);
        config.profile_mut(vpn).expect("profile exists").networks =
            "https://service.example.test/path".to_owned();
        let mut resolution_calls = 0;

        let prepared = prepare_all_enabled_routes_with_resolver(
            &config,
            &app.adapters,
            app.internet_gateway.as_ref(),
            |resolved_vpn: VpnKind, hostname: &str, servers: &[String]| {
                resolution_calls += 1;
                assert_eq!(resolved_vpn, vpn);
                assert_eq!(hostname, "service.example.test");
                assert_eq!(servers, ["203.0.113.53"]);
                Ok(vec![u32::from_be_bytes([198, 51, 100, 20])])
            },
        )
        .expect("listed hostname policy should be prepared");

        assert_eq!(resolution_calls, 1, "{}", vpn.name());
        assert!(prepared.dns_rules.contains(&ManagedDnsRule {
            vpn: None,
            namespaces: vec![".".to_owned()],
            name_servers: vec!["192.0.2.53".to_owned()],
        }));
        assert!(prepared.dns_rules.contains(&ManagedDnsRule {
            vpn: Some(vpn),
            namespaces: vec!["service.example.test".to_owned()],
            name_servers: vec!["203.0.113.53".to_owned()],
        }));
        assert!(prepared.routes.contains(&ManagedRoute {
            vpn,
            purpose: ManagedRoutePurpose::Target,
            prefix: "198.51.100.20/32".to_owned(),
            interface_index: 43,
            next_hop: "0.0.0.0".to_owned(),
            route_metric: ROUTE_METRIC,
        }));
        assert!(prepared.routes.contains(&ManagedRoute {
            vpn,
            purpose: ManagedRoutePurpose::VpnDnsServer,
            prefix: "203.0.113.53/32".to_owned(),
            interface_index: 43,
            next_hop: "0.0.0.0".to_owned(),
            route_metric: ROUTE_METRIC,
        }));
    }
}

#[test]
fn route_health_reinstalls_the_dns_policy_for_every_vpn() {
    for vpn in VpnKind::ALL {
        let mut app = full_tunnel_app(vpn);
        app.adapters[0].dns_servers = vec!["203.0.113.53".to_owned()];
        app.internet_gateway
            .as_mut()
            .expect("physical gateway exists")
            .dns_servers = vec!["203.0.113.53".to_owned(), "192.0.2.53".to_owned()];
        let config = enabled_full_tunnel_config(&app, vpn);
        let current_routes = prepare_profile_routes(&app, &config, vpn)
            .expect("initial split policy should be prepared")
            .routes;
        let mut route_apply_calls = 0;
        let mut dns_apply_calls = 0;

        let outcome = evaluate_route_health_with(
            current_routes.clone(),
            config,
            current_routes,
            app.adapters.clone(),
            app.internet_gateway.clone(),
            |_: &[ManagedRoute], _: &[ManagedRoute]| {
                route_apply_calls += 1;
                Ok(())
            },
            |rules: &[ManagedDnsRule]| {
                dns_apply_calls += 1;
                assert_eq!(rules.len(), 1, "{}", vpn.name());
                assert_eq!(rules[0].namespaces, vec!["."], "{}", vpn.name());
                assert_eq!(rules[0].name_servers, vec!["192.0.2.53"], "{}", vpn.name());
                Ok(true)
            },
        );

        assert_eq!(route_apply_calls, 0, "{}", vpn.name());
        assert_eq!(dns_apply_calls, 1, "{}", vpn.name());
        assert!(
            matches!(outcome, RouteHealthOutcome::Updated { repaired: true, .. }),
            "{}: {outcome:?}",
            vpn.name()
        );
    }
}

#[test]
fn route_health_reinstalls_a_removed_bypass_route_for_every_vpn() {
    for vpn in VpnKind::ALL {
        let app = full_tunnel_app(vpn);
        let config = enabled_full_tunnel_config(&app, vpn);
        let current_routes = prepare_profile_routes(&app, &config, vpn)
            .expect("full-tunnel routes should be prepared")
            .routes;
        let existing_routes = current_routes
            .iter()
            .filter(|route| route.prefix != "64.0.0.0/2")
            .cloned()
            .collect::<Vec<_>>();
        let mut apply_calls = 0;

        let outcome = evaluate_route_health_with(
            current_routes.clone(),
            config,
            existing_routes,
            app.adapters.clone(),
            app.internet_gateway.clone(),
            |_: &[ManagedRoute], desired: &[ManagedRoute]| {
                apply_calls += 1;
                assert_eq!(desired.len(), current_routes.len());
                assert!(desired.iter().any(|route| route.prefix == "64.0.0.0/2"));
                Ok(())
            },
            |_: &[ManagedDnsRule]| Ok(false),
        );

        assert_eq!(
            apply_calls,
            1,
            "{} route drift must trigger repair",
            vpn.name()
        );
        assert!(matches!(
            outcome,
            RouteHealthOutcome::Updated { repaired: true, .. }
        ));
    }
}

#[test]
fn route_health_atomically_replaces_a_stale_physical_gateway() {
    let app = full_tunnel_app(VpnKind::F5);
    let config = enabled_full_tunnel_config(&app, VpnKind::F5);
    let current_routes = prepare_profile_routes(&app, &config, VpnKind::F5)
        .expect("full-tunnel routes should be prepared")
        .routes;
    let mut new_gateway = app.internet_gateway.clone().expect("gateway exists");
    new_gateway.interface_index = 12;
    new_gateway.interface_alias = "Ethernet".to_owned();
    new_gateway.next_hop = "192.0.2.254".to_owned();
    let mut apply_calls = 0;

    let outcome = evaluate_route_health_with(
        current_routes.clone(),
        config,
        current_routes,
        app.adapters.clone(),
        Some(new_gateway.clone()),
        |previous: &[ManagedRoute], desired: &[ManagedRoute]| {
            apply_calls += 1;
            assert_eq!(previous.len(), desired.len());
            assert!(
                desired
                    .iter()
                    .filter(|route| {
                        route.purpose == ManagedRoutePurpose::InternetBypass
                            && route.interface_index == new_gateway.interface_index
                            && route.next_hop == new_gateway.next_hop
                    })
                    .count()
                    == INTERNET_BYPASS_PREFIXES.len()
            );
            Ok(())
        },
        |_: &[ManagedDnsRule]| Ok(false),
    );

    assert_eq!(apply_calls, 1);
    assert!(matches!(
        outcome,
        RouteHealthOutcome::Updated { repaired: true, .. }
    ));
}

#[test]
fn route_health_removes_residual_routes_when_each_vpn_disconnects() {
    for vpn in VpnKind::ALL {
        let mut app = full_tunnel_app(vpn);
        let config = enabled_full_tunnel_config(&app, vpn);
        let current_routes = prepare_profile_routes(&app, &config, vpn)
            .expect("full-tunnel routes should be prepared")
            .routes;
        app.adapters[0].status = "Disconnected".to_owned();
        let mut apply_calls = 0;

        let outcome = evaluate_route_health_with(
            current_routes.clone(),
            config,
            current_routes,
            app.adapters.clone(),
            app.internet_gateway.clone(),
            |previous: &[ManagedRoute], desired: &[ManagedRoute]| {
                apply_calls += 1;
                assert!(!previous.is_empty());
                assert!(desired.is_empty());
                Ok(())
            },
            |_: &[ManagedDnsRule]| Ok(false),
        );

        assert_eq!(apply_calls, 1);
        match outcome {
            RouteHealthOutcome::Updated {
                config,
                routes,
                disabled_vpns,
                ..
            } => {
                assert!(routes.is_empty());
                assert_eq!(disabled_vpns, vec![vpn]);
                assert!(!config.profile(vpn).expect("profile exists").enabled);
            }
            other => panic!("unexpected route-health outcome for {}: {other:?}", vpn.name()),
        }
    }
}

#[test]
fn route_health_keeps_one_profile_when_two_enabled_vpns_become_full_tunnel() {
    let adapters = vec![
        NetworkAdapter {
            index: 43,
            name: "FortiClient VPN".to_owned(),
            description: "Fortinet SSL VPN Virtual Ethernet Adapter".to_owned(),
            status: "Up".to_owned(),
            next_hop: "0.0.0.0".to_owned(),
            full_tunnel_priority: full_tunnel(),
            dns_servers: Vec::new(),
        },
        NetworkAdapter {
            index: 44,
            name: "F5 VPN".to_owned(),
            description: "F5 Networks VPN Adapter".to_owned(),
            status: "Up".to_owned(),
            next_hop: "0.0.0.0".to_owned(),
            full_tunnel_priority: full_tunnel(),
            dns_servers: Vec::new(),
        },
    ];
    let mut config = SplitterConfig::default();
    for (vpn, description, network) in [
        (
            VpnKind::FortiClient,
            "Fortinet SSL VPN Virtual Ethernet Adapter",
            "198.51.100.10/32",
        ),
        (VpnKind::F5, "F5 Networks VPN Adapter", "203.0.113.10/32"),
    ] {
        let profile = config.profile_mut(vpn).expect("profile exists");
        profile.enabled = true;
        profile.adapter_description = Some(description.to_owned());
        profile.networks = network.to_owned();
    }
    let current_routes = vec![
        ManagedRoute {
            vpn: VpnKind::FortiClient,
            purpose: ManagedRoutePurpose::Target,
            prefix: "198.51.100.10/32".to_owned(),
            interface_index: 43,
            next_hop: "0.0.0.0".to_owned(),
            route_metric: ROUTE_METRIC,
        },
        ManagedRoute {
            vpn: VpnKind::F5,
            purpose: ManagedRoutePurpose::Target,
            prefix: "203.0.113.10/32".to_owned(),
            interface_index: 44,
            next_hop: "0.0.0.0".to_owned(),
            route_metric: ROUTE_METRIC,
        },
    ];
    let gateway = InternetGateway {
        interface_index: 7,
        interface_alias: "Wi-Fi".to_owned(),
        interface_description: "Physical Wi-Fi Adapter".to_owned(),
        next_hop: "192.0.2.1".to_owned(),
        inferred_from_escape_route: false,
        route_priority: None,
        dns_servers: vec!["192.0.2.53".to_owned()],
        fallback_dns_servers: vec!["192.0.2.53".to_owned()],
    };
    let mut apply_calls = 0;

    let outcome = evaluate_route_health_with(
        current_routes.clone(),
        config,
        current_routes,
        adapters,
        Some(gateway),
        |_: &[ManagedRoute], desired: &[ManagedRoute]| {
            apply_calls += 1;
            assert_eq!(
                desired
                    .iter()
                    .filter(|route| route.purpose == ManagedRoutePurpose::InternetBypass)
                    .count(),
                INTERNET_BYPASS_PREFIXES.len()
            );
            Ok(())
        },
        |_: &[ManagedDnsRule]| Ok(false),
    );

    match outcome {
        RouteHealthOutcome::Updated {
            config,
            disabled_vpns,
            ..
        } => {
            assert_eq!(apply_calls, 1);
            assert_eq!(disabled_vpns.len(), 1);
            assert_eq!(
                config
                    .profiles
                    .iter()
                    .filter(|profile| profile.enabled)
                    .count(),
                1
            );
        }
        other => panic!("full-tunnel conflict must be stabilized automatically: {other:?}"),
    }
}

#[test]
fn losing_dynamic_vpn_route_discards_its_remaining_bypass_routes() {
    let target = ManagedRoute {
        vpn: VpnKind::F5,
        purpose: ManagedRoutePurpose::Target,
        prefix: "203.0.113.10/32".to_owned(),
        interface_index: 43,
        next_hop: "0.0.0.0".to_owned(),
        route_metric: ROUTE_METRIC,
    };
    let lower_half = ManagedRoute {
        vpn: VpnKind::F5,
        purpose: ManagedRoutePurpose::InternetBypass,
        prefix: "0.0.0.0/1".to_owned(),
        interface_index: 7,
        next_hop: "192.0.2.1".to_owned(),
        route_metric: ROUTE_METRIC,
    };
    let upper_half = ManagedRoute {
        prefix: "128.0.0.0/1".to_owned(),
        ..lower_half.clone()
    };
    let forti = route(VpnKind::FortiClient, "10.20.0.0/16");
    let previous = vec![
        target,
        lower_half.clone(),
        upper_half.clone(),
        forti.clone(),
    ];
    let existing = vec![lower_half, upper_half, forti.clone()];

    assert_eq!(
        discard_incomplete_vpn_route_sets(&previous, &existing),
        vec![forti]
    );
}

#[test]
fn blocks_two_simultaneous_full_tunnel_vpns() {
    let mut app = full_tunnel_app(VpnKind::F5);
    app.adapters.push(NetworkAdapter {
        index: 44,
        name: "FortiClient VPN".to_owned(),
        description: "Fortinet SSL VPN Virtual Ethernet Adapter".to_owned(),
        status: "Up".to_owned(),
        next_hop: "0.0.0.0".to_owned(),
        full_tunnel_priority: full_tunnel(),
        dns_servers: Vec::new(),
    });
    let mut config = SplitterConfig::default();
    for (vpn, description, network) in [
        (
            VpnKind::FortiClient,
            "Fortinet SSL VPN Virtual Ethernet Adapter",
            "198.51.100.10/32",
        ),
        (VpnKind::F5, "F5 Networks VPN Adapter", "203.0.113.10/32"),
    ] {
        let profile = config.profile_mut(vpn).expect("profile exists");
        profile.enabled = true;
        profile.networks = network.to_owned();
        profile.adapter_description = Some(description.to_owned());
    }

    let errors = prepare_all_enabled_routes_with_resolver(
        &config,
        &app.adapters,
        app.internet_gateway.as_ref(),
        no_names,
    )
    .expect_err("two full tunnels must be rejected");
    assert!(errors.iter().any(|error| {
        error.contains("FortiClient") && error.contains("F5") && error.contains("Full Tunnel")
    }));
}

#[test]
fn finished_refresh_syncs_profiles_and_reports_what_was_removed() {
    let mut app = full_tunnel_app(VpnKind::F5);
    app.state.config.profile_mut(VpnKind::F5).expect("profile exists").enabled = true;
    app.state.managed_routes = vec![route(VpnKind::F5, "203.0.113.10/32")];
    let adapters = app.adapters.clone();

    assert!(app.refresh_adapters(10));
    let request = app.operation_ended(
        Ok(OperationResult::Refresh(RefreshOutcome {
            route_notice: Ok(ReconciledRoutes { routes: Vec::new(), removed: 12 }),
            dns_notice: Ok(false),
            gateway_notice: Ok(None),
            adapter_notice: Ok(adapters),
        })),
        20,
    );

    let SaveRequest::Quiet(saved) = request else {
        panic!("the removed routes have to be saved: {request:?}");
    };
    assert!(saved.managed_routes.is_empty());
    let saved_profile = saved.config.profile(VpnKind::F5).expect("profile exists");
    assert!(!saved_profile.enabled);
    assert_eq!(
        saved_profile.adapter_description, None,
        "the state is saved before an interface is selected"
    );
    let profile = app.state.config.profile(VpnKind::F5).expect("profile exists");
    assert!(!profile.enabled);
    assert_eq!(
        profile.adapter_description.as_deref(),
        Some("F5 Networks VPN Adapter")
    );
    assert_eq!(app.internet_gateway, None);
    assert_eq!(
        app.banner,
        Banner::Info(
            "已重新偵測介面；另清除 12 條 VPN 已斷線後殘留的 ActiveStore 路由，開關狀態已同步。"
                .to_owned()
        )
    );
}

#[test]
fn failed_toggle_keeps_the_state_and_opens_the_dialog() {
    let mut app = full_tunnel_app(VpnKind::F5);
    let before = app.state.clone();

    let request = app.finish_toggle(
        ToggleOutcome::Failed {
            attempted_enabled: true,
            error: "測試用路由建立失敗".to_owned(),
        },
        0,
    );

    assert_eq!(request, SaveRequest::Nothing);
    assert_eq!(app.state, before);
    assert_eq!(app.banner, Banner::Error("測試用路由建立失敗".to_owned()));
    assert_eq!(app.enable_error_dialog.as_deref(), Some("測試用路由建立失敗"));
}
