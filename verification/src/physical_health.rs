//! Looking after routes that are in force, where everything else goes back to the
//! ordinary network.

use vstd::prelude::*;

use crate::dns_plan::bad_dns_targets;
use crate::domain::{
    configured_dns_hostnames, domains_among, entries_of, lemma_profile_index, profile_of,
    SplitterConfig, VpnKind, VpnProfile,
};
use crate::fallback::gateway_view;
use crate::health::{
    finish_health_check, health_outcome, health_plan_result, health_possible, health_takes, started,
    CheckView, HealthCheck, HealthPlanView, HealthReplies, RouteHealthOutcome, RouteHealthPlan,
};
use crate::lists::{first_that, lemma_is_first};
use crate::physical::{
    append_dns_policy, make_physical_bypass_routes, physical_bypass_routes, physical_dns_servers,
    physical_servers, with_names,
};
use crate::preparation::{PreparedRoutes, PreparedView};
use crate::routes::{append_routes, routes_slice};
use crate::selection::{adapters_slice, enabled_full_tunnel_vpns, full_tunnel_vpns};
use crate::text::{join_texts, joined};
use crate::validation::{ValidatedProfile, ValidatedView};
use crate::windows::{
    AdapterView, GatewayView, InternetGateway, ManagedDnsRule, ManagedRoute, ManagedRoutePurpose,
    NetworkAdapter, RouteView,
};

verus! {

/// The route leads everything else back for the VPN.
pub open spec fn bypass_of_vpn(vpn: VpnKind) -> spec_fn(RouteView) -> bool {
    |route: RouteView| route.vpn == vpn && route.purpose == ManagedRoutePurpose::InternetBypass
}

/// The VPN has a route that leads everything else back.
pub open spec fn has_bypass(routes: Seq<RouteView>) -> spec_fn(VpnKind) -> bool {
    |vpn: VpnKind| first_that(routes, bypass_of_vpn(vpn)) is Some
}

/// Which of several VPNs that take all traffic stays: the first one that did so before,
/// else the first one.
pub open spec fn kept_tunnel(full_tunnels: Seq<VpnKind>, current: Seq<RouteView>) -> VpnKind {
    match first_that(full_tunnels, has_bypass(current)) {
        Some(vpn) => vpn,
        None => full_tunnels[0],
    }
}

/// A VPN has to make way for another one.
pub open spec fn rival_warning(vpn: VpnKind, kept: VpnKind) -> Seq<char> {
    vpn.text() + " 在分流啟用後變成 Full Tunnel；為避免和 "@ + kept.text()
        + " 競爭全流量路由，已自動移除其管理路由並關閉該分流。"@
}

/// All but the one VPN are disabled.
pub open spec fn without_rivals(
    check: CheckView,
    full_tunnels: Seq<VpnKind>,
    kept: VpnKind,
) -> CheckView
    decreases full_tunnels.len(),
{
    if full_tunnels.len() == 0 {
        check
    } else {
        let before = without_rivals(check, full_tunnels.drop_last(), kept);
        let vpn = full_tunnels.last();
        if vpn == kept {
            before
        } else {
            before.without(vpn, rival_warning(vpn, kept))
        }
    }
}

/// Before any VPN is looked at: of several enabled VPNs that take all traffic only one
/// stays.
pub open spec fn one_tunnel_started(
    profiles: Seq<VpnProfile>,
    current: Seq<RouteView>,
    adapters: Seq<AdapterView>,
) -> CheckView {
    let full_tunnels = full_tunnel_vpns(profiles, adapters);
    if full_tunnels.len() > 1 {
        without_rivals(started(profiles), full_tunnels, kept_tunnel(full_tunnels, current))
    } else {
        started(profiles)
    }
}

/// One more VPN. Where it stays and takes all traffic, everything else goes back to the
/// ordinary network.
pub open spec fn physical_step(
    check: CheckView,
    vpn: VpnKind,
    current: Seq<RouteView>,
    adapters: Seq<AdapterView>,
    gateway: Option<GatewayView>,
) -> Result<CheckView, Seq<char>> {
    let next = check.with_vpn(vpn, current, adapters);
    if next.full_tunnels.len() == check.full_tunnels.len() {
        Ok(next)
    } else {
        match gateway {
            None => Err(
                vpn.text() + " 仍是 Full Tunnel，但目前找不到可用的一般網路閘道；保留既有路由並稍後重試。"@,
            ),
            Some(found) => Ok(
                CheckView { routes: next.routes + physical_bypass_routes(vpn, found), ..next },
            ),
        }
    }
}

/// All VPNs have been looked at, in their order.
pub open spec fn physical_checked(
    profiles: Seq<VpnProfile>,
    current: Seq<RouteView>,
    adapters: Seq<AdapterView>,
    gateway: Option<GatewayView>,
) -> Result<CheckView, Seq<char>> {
    match physical_step(
        one_tunnel_started(profiles, current, adapters),
        VpnKind::FortiClient,
        current,
        adapters,
        gateway,
    ) {
        Err(reason) => Err(reason),
        Ok(first) => match physical_step(first, VpnKind::F5, current, adapters, gateway) {
            Err(reason) => Err(reason),
            Ok(second) => physical_step(second, VpnKind::Ivanti, current, adapters, gateway),
        },
    }
}

/// The enabled profiles and their domains.
pub open spec fn named_profiles(profiles: Seq<VpnProfile>) -> Result<
    Seq<ValidatedView>,
    Seq<char>,
>
    decreases profiles.len(),
{
    if profiles.len() == 0 {
        Ok(Seq::empty())
    } else {
        match named_profiles(profiles.drop_last()) {
            Err(reason) => Err(reason),
            Ok(before) => {
                let profile = profiles.last();
                if !profile.enabled {
                    Ok(before)
                } else {
                    match domains_among(entries_of(profile.networks@)) {
                        Err(reason) => Err(bad_dns_targets(profile.vpn, reason)),
                        Ok(hostnames) => Ok(
                            before.push(
                                ValidatedView {
                                    vpn: profile.vpn,
                                    networks: Seq::empty(),
                                    hostnames,
                                },
                            ),
                        ),
                    }
                }
            },
        }
    }
}

/// A failure at the first profiles is the failure at all of them.
proof fn lemma_first_unnamed(profiles: Seq<VpnProfile>, count: int)
    requires
        0 <= count <= profiles.len(),
        named_profiles(profiles.take(count)) is Err,
    ensures
        named_profiles(profiles) == named_profiles(profiles.take(count)),
    decreases profiles.len() - count,
{
    if count < profiles.len() {
        assert(profiles.take(count + 1).drop_last() =~= profiles.take(count));
        lemma_first_unnamed(profiles, count + 1);
    } else {
        assert(profiles.take(count) =~= profiles);
    }
}

/// What named profiles, or the reason why there are none, stand for.
pub open spec fn named_result(result: Result<Vec<ValidatedProfile>, String>) -> Result<
    Seq<ValidatedView>,
    Seq<char>,
> {
    match result {
        Ok(named) => Ok(named.deep_view()),
        Err(reason) => Err(reason@),
    }
}

/// The enabled profiles and their domains.
pub fn name_profiles(config: &SplitterConfig) -> (result: Result<Vec<ValidatedProfile>, String>)
    ensures
        named_result(result) == named_profiles(config.profiles@),
        result matches Ok(named) ==> forall|i: int|
            0 <= i < named.len() ==> profile_of(config.profiles@, (#[trigger] named@[i]).vpn)
                is Some,
{
    let ghost profiles = config.profiles@;
    let mut named: Vec<ValidatedProfile> = Vec::new();
    assert(named.deep_view() =~= Seq::empty());
    for i in 0..config.profiles.len()
        invariant
            profiles == config.profiles@,
            named_profiles(profiles.take(i as int)) == Ok::<Seq<ValidatedView>, Seq<char>>(
                named.deep_view(),
            ),
            forall|k: int|
                0 <= k < named.len() ==> profile_of(profiles, (#[trigger] named@[k]).vpn) is Some,
    {
        assert(profiles.take(i + 1).drop_last() =~= profiles.take(i as int));
        let profile: &VpnProfile = &config.profiles[i];
        if profile.enabled {
            match configured_dns_hostnames(profile) {
                Ok(hostnames) => {
                    let ghost before = named.deep_view();
                    let next: ValidatedProfile = ValidatedProfile {
                        vpn: profile.vpn,
                        networks: Vec::new(),
                        hostnames,
                    };
                    let ghost added = next.deep_view();
                    assert(added.networks =~= Seq::empty());
                    named.push(next);
                    assert(named.deep_view() =~= before.push(added));
                    proof {
                        lemma_profile_index(profiles, profile.vpn);
                    }
                },
                Err(reason) => {
                    let mut message: String = profile.vpn.name().to_owned();
                    message.append(" 的 DNS 目標無效：");
                    message.append(reason.as_str());
                    proof {
                        lemma_first_unnamed(profiles, i + 1);
                    }
                    return Err(message);
                },
            }
        }
    }
    assert(profiles.take(config.profiles.len() as int) =~= profiles);
    Ok(named)
}

/// What a health check wants.
pub open spec fn desired_physical(
    current: Seq<RouteView>,
    profiles: Seq<VpnProfile>,
    adapters: Seq<AdapterView>,
    gateway: Option<GatewayView>,
) -> Result<HealthPlanView, Seq<char>> {
    match physical_checked(profiles, current, adapters, gateway) {
        Err(reason) => Err(reason),
        Ok(check) => match named_profiles(check.profiles) {
            Err(reason) => Err(reason),
            Ok(named) => {
                let prepared = PreparedView {
                    routes: check.routes,
                    dns_rules: Seq::empty(),
                    warnings: check.warnings,
                };
                let finished = if named.len() == 0 {
                    Ok(prepared)
                } else {
                    match physical_servers(adapters, gateway) {
                        Err(reasons) => Err(reasons),
                        Ok(physical) => with_names(
                            prepared,
                            check.profiles,
                            adapters,
                            named,
                            physical,
                        ),
                    }
                };
                match finished {
                    Err(reasons) => Err(joined(reasons, "\n"@)),
                    Ok(all) => Ok(
                        HealthPlanView {
                            profiles: check.profiles,
                            routes: all.routes,
                            dns_rules: all.dns_rules,
                            disabled_vpns: check.disabled_vpns,
                            warnings: all.warnings,
                        },
                    ),
                }
            },
        },
    }
}

/// Whether the VPN has a route that leads everything else back.
fn vpn_has_bypass(routes: &[ManagedRoute], vpn: VpnKind) -> (found: bool)
    ensures
        found == has_bypass(routes.deep_view())(vpn),
{
    let ghost views = routes.deep_view();
    let ghost condition = bypass_of_vpn(vpn);
    let mut index: usize = 0;
    while index < routes.len() && !(routes[index].vpn == vpn && routes[index].purpose
        == ManagedRoutePurpose::InternetBypass)
        invariant
            views == routes.deep_view(),
            condition == bypass_of_vpn(vpn),
            index <= routes.len(),
            forall|i: int| 0 <= i < index ==> !condition(#[trigger] views[i]),
        decreases routes.len() - index,
    {
        assert(!condition(views[index as int]));
        index = index + 1;
    }
    proof {
        if index < routes.len() {
            assert(condition(views[index as int]));
        }
        lemma_is_first(views, condition, index as int);
    }
    index < routes.len()
}

/// Which of several VPNs that take all traffic stays.
pub fn choose_kept_tunnel(full_tunnels: &Vec<VpnKind>, current_routes: &[ManagedRoute]) -> (kept:
    VpnKind)
    requires
        full_tunnels.len() > 0,
    ensures
        kept == kept_tunnel(full_tunnels@, current_routes.deep_view()),
{
    let ghost condition = has_bypass(current_routes.deep_view());
    let mut index: usize = 0;
    while index < full_tunnels.len() && !vpn_has_bypass(current_routes, full_tunnels[index])
        invariant
            condition == has_bypass(current_routes.deep_view()),
            index <= full_tunnels.len(),
            forall|i: int| 0 <= i < index ==> !condition(#[trigger] full_tunnels@[i]),
        decreases full_tunnels.len() - index,
    {
        index = index + 1;
    }
    proof {
        lemma_is_first(full_tunnels@, condition, index as int);
    }
    if index < full_tunnels.len() {
        full_tunnels[index]
    } else {
        full_tunnels[0]
    }
}

/// Before any VPN is looked at: of several enabled VPNs that take all traffic only one
/// stays.
fn start_with_one_tunnel(
    config: SplitterConfig,
    current_routes: &[ManagedRoute],
    adapters: &[NetworkAdapter],
) -> (check: HealthCheck)
    ensures
        check.deep_view() == one_tunnel_started(
            config.profiles@,
            current_routes.deep_view(),
            adapters.deep_view(),
        ),
{
    let full_tunnels: Vec<VpnKind> = enabled_full_tunnel_vpns(&config, adapters);
    let ghost profiles = config.profiles@;
    let mut check: HealthCheck = HealthCheck::start(config);
    if full_tunnels.len() > 1 {
        let kept: VpnKind = choose_kept_tunnel(&full_tunnels, current_routes);
        for i in 0..full_tunnels.len()
            invariant
                check.deep_view() == without_rivals(
                    started(profiles),
                    full_tunnels@.take(i as int),
                    kept,
                ),
        {
            assert(full_tunnels@.take(i + 1).drop_last() =~= full_tunnels@.take(i as int));
            let vpn: VpnKind = full_tunnels[i];
            if vpn != kept {
                let mut warning: String = vpn.name().to_owned();
                warning.append(" 在分流啟用後變成 Full Tunnel；為避免和 ");
                warning.append(kept.name());
                warning.append(" 競爭全流量路由，已自動移除其管理路由並關閉該分流。");
                check.give_up(vpn, warning);
            }
        }
        assert(full_tunnels@.take(full_tunnels.len() as int) =~= full_tunnels@);
    }
    check
}

/// What a check, or the reason why it cannot go on, stands for.
pub open spec fn step_result(result: Result<HealthCheck, String>) -> Result<CheckView, Seq<char>> {
    match result {
        Ok(check) => Ok(check.deep_view()),
        Err(reason) => Err(reason@),
    }
}

/// Looks at one more VPN.
fn take_physical_step(
    initial: HealthCheck,
    vpn: VpnKind,
    current_routes: &[ManagedRoute],
    adapters: &[NetworkAdapter],
    internet_gateway: Option<&InternetGateway>,
) -> (result: Result<HealthCheck, String>)
    ensures
        step_result(result) == physical_step(
            initial.deep_view(),
            vpn,
            current_routes.deep_view(),
            adapters.deep_view(),
            gateway_view(internet_gateway),
        ),
{
    let mut check: HealthCheck = initial;
    let before: usize = check.full_tunnels.len();
    check.check_vpn(vpn, current_routes, adapters);
    if check.full_tunnels.len() == before {
        return Ok(check);
    }
    match internet_gateway {
        Some(gateway) => {
            let ghost now = check.deep_view();
            let ghost added = physical_bypass_routes(vpn, gateway.deep_view());
            append_routes(&mut check.routes, make_physical_bypass_routes(vpn, gateway));
            assert(check.deep_view() =~= CheckView { routes: now.routes + added, ..now });
            Ok(check)
        },
        None => {
            let mut message: String = vpn.name().to_owned();
            message.append(
                " 仍是 Full Tunnel，但目前找不到可用的一般網路閘道；保留既有路由並稍後重試。",
            );
            Err(message)
        },
    }
}

/// What a health check wants. Of several enabled VPNs that take all traffic one stays; a
/// profile whose interface is gone, or which has no routes for its targets, is
/// disabled; the routes of the others lead through their interfaces as they are now.
pub fn desired_routes_for_health_check(
    current_routes: &[ManagedRoute],
    config: SplitterConfig,
    adapters: &[NetworkAdapter],
    internet_gateway: Option<&InternetGateway>,
) -> (result: Result<RouteHealthPlan, String>)
    ensures
        health_plan_result(result) == desired_physical(
            current_routes.deep_view(),
            config.profiles@,
            adapters.deep_view(),
            gateway_view(internet_gateway),
        ),
{
    let start: HealthCheck = start_with_one_tunnel(config, current_routes, adapters);
    let first: HealthCheck = match take_physical_step(
        start,
        VpnKind::FortiClient,
        current_routes,
        adapters,
        internet_gateway,
    ) {
        Ok(check) => check,
        Err(reason) => {
            return Err(reason);
        },
    };
    let second: HealthCheck = match take_physical_step(
        first,
        VpnKind::F5,
        current_routes,
        adapters,
        internet_gateway,
    ) {
        Ok(check) => check,
        Err(reason) => {
            return Err(reason);
        },
    };
    let third: HealthCheck = match take_physical_step(
        second,
        VpnKind::Ivanti,
        current_routes,
        adapters,
        internet_gateway,
    ) {
        Ok(check) => check,
        Err(reason) => {
            return Err(reason);
        },
    };
    let HealthCheck { config: next, routes, disabled_vpns, warnings, full_tunnels: _ } = third;
    let named: Vec<ValidatedProfile> = match name_profiles(&next) {
        Ok(named) => named,
        Err(reason) => {
            return Err(reason);
        },
    };
    let mut prepared: PreparedRoutes = PreparedRoutes::default();
    prepared.routes = routes;
    prepared.warnings = warnings;
    if named.len() > 0 {
        let physical_dns: Vec<u32> = match physical_dns_servers(adapters, internet_gateway) {
            Ok(servers) => servers,
            Err(reasons) => {
                return Err(join_texts(&reasons, "\n"));
            },
        };
        prepared = match append_dns_policy(prepared, &named, &next, adapters, &physical_dns) {
            Ok(finished) => finished,
            Err(reasons) => {
                return Err(join_texts(&reasons, "\n"));
            },
        };
    }
    Ok(
        RouteHealthPlan {
            config: next,
            routes: prepared.routes,
            dns_rules: prepared.dns_rules,
            disabled_vpns,
            warnings: prepared.warnings,
        },
    )
}

/// Checks the routes in force and repairs them.
pub fn evaluate_route_health_with<
    R: FnMut(&[ManagedRoute], &[ManagedRoute]) -> Result<(), String>,
    D: FnMut(&[ManagedDnsRule]) -> Result<bool, String>,
>(
    current_routes: Vec<ManagedRoute>,
    config: SplitterConfig,
    existing_routes: Vec<ManagedRoute>,
    adapters: Vec<NetworkAdapter>,
    internet_gateway: Option<InternetGateway>,
    apply: R,
    apply_dns: D,
) -> (outcome: RouteHealthOutcome)
    requires
        health_takes(
            desired_physical(
                current_routes.deep_view(),
                config.profiles@,
                adapters.deep_view(),
                internet_gateway.deep_view(),
            ),
            existing_routes.deep_view(),
            apply,
            apply_dns,
        ),
    ensures
        exists|replies: HealthReplies|
            #[trigger] health_possible(
                desired_physical(
                    current_routes.deep_view(),
                    config.profiles@,
                    adapters.deep_view(),
                    internet_gateway.deep_view(),
                ),
                existing_routes.deep_view(),
                replies,
                apply,
                apply_dns,
            ) && outcome.deep_view() == health_outcome(
                desired_physical(
                    current_routes.deep_view(),
                    config.profiles@,
                    adapters.deep_view(),
                    internet_gateway.deep_view(),
                ),
                existing_routes.deep_view(),
                adapters.deep_view(),
                internet_gateway.deep_view(),
                replies,
            ),
{
    let plan: Result<RouteHealthPlan, String> = desired_routes_for_health_check(
        routes_slice(&current_routes),
        config,
        adapters_slice(&adapters),
        internet_gateway.as_ref(),
    );
    finish_health_check(plan, existing_routes, adapters, internet_gateway, apply, apply_dns)
}

}
