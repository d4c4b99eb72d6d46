//! Looking after routes that are in force: what they should be now that interfaces,
//! the ordinary network or the routing table may have changed.

use vstd::prelude::*;

use crate::dns_plan::{dns_plan, DnsPlan};
use crate::domain::{
    is_enabled, lemma_profile_index, profile_index, profile_of, SplitterConfig, VpnKind, VpnProfile,
};
use crate::fallback::{
    chosen_fallback, gateway_view, manages_dns, select_internet_fallback, should_manage_dns_policy,
    InternetFallback,
};
use crate::lists::first_that;
use crate::policy::{
    append_dns_policy, append_internet_bypass_routes, with_bypass, with_dns_policy,
};
use crate::preparation::{PreparedRoutes, PreparedView};
use crate::routes::{
    append_routes, matching, routes_match, routes_slice, target_of_vpn, target_routes_of,
};
use crate::selection::{adapters_slice, find_selected_up, selected_up};
use crate::text::{join_texts, joined};
use crate::transaction::{
    replaced_view, replaces, replaces_rules, rules_replaced_view, takes_routes, takes_rules,
};
use crate::windows::{
    AdapterView, DnsRuleView, GatewayView, InternetGateway, ManagedDnsRule, ManagedRoute,
    NativeRoute, NativeRouteView, NetworkAdapter, RouteTableFingerprint, RouteView,
};

verus! {

/// What a health check wants: the configuration without the profiles that cannot go
/// on, and the routes and rules for names of the others.
#[derive(Debug, PartialEq, Eq)]
pub struct RouteHealthPlan {
    pub config: SplitterConfig,
    pub routes: Vec<ManagedRoute>,
    pub dns_rules: Vec<ManagedDnsRule>,
    pub disabled_vpns: Vec<VpnKind>,
    pub warnings: Vec<String>,
}

/// What a `RouteHealthPlan` stands for.
#[verifier::ext_equal]
pub ghost struct HealthPlanView {
    pub profiles: Seq<VpnProfile>,
    pub routes: Seq<RouteView>,
    pub dns_rules: Seq<DnsRuleView>,
    pub disabled_vpns: Seq<VpnKind>,
    pub warnings: Seq<Seq<char>>,
}

impl DeepView for RouteHealthPlan {
    type V = HealthPlanView;

    open spec fn deep_view(&self) -> HealthPlanView {
        HealthPlanView {
            profiles: self.config.profiles@,
            routes: self.routes.deep_view(),
            dns_rules: self.dns_rules.deep_view(),
            disabled_vpns: self.disabled_vpns@,
            warnings: self.warnings.deep_view(),
        }
    }
}

/// What a plan, or the reason why there is none, stands for.
pub open spec fn health_plan_result(result: Result<RouteHealthPlan, String>) -> Result<
    HealthPlanView,
    Seq<char>,
> {
    match result {
        Ok(plan) => Ok(plan.deep_view()),
        Err(reason) => Err(reason@),
    }
}

/// The profiles with the first one of the VPN enabled or disabled.
pub open spec fn with_enabled(profiles: Seq<VpnProfile>, vpn: VpnKind, enabled: bool) -> Seq<
    VpnProfile,
> {
    match profile_of(profiles, vpn) {
        Some(profile) => profiles.update(
            profile_index(profiles, vpn),
            VpnProfile { enabled, ..profile },
        ),
        None => profiles,
    }
}

/// Enables or disables the first profile of the VPN.
pub fn set_enabled(config: &mut SplitterConfig, vpn: VpnKind, enabled: bool)
    ensures
        final(config).profiles@ == with_enabled(old(config).profiles@, vpn, enabled),
{
    let ghost before = config.profiles@;
    proof {
        lemma_profile_index(before, vpn);
    }
    if let Some(profile) = config.profile_mut(vpn) {
        profile.enabled = enabled;
    }
    assert(config.profiles@ =~= with_enabled(before, vpn, enabled));
}

/// What has been found so far, one VPN after the other.
#[verifier::ext_equal]
pub ghost struct CheckView {
    pub profiles: Seq<VpnProfile>,
    pub routes: Seq<RouteView>,
    pub disabled_vpns: Seq<VpnKind>,
    pub warnings: Seq<Seq<char>>,
    pub full_tunnels: Seq<VpnKind>,
}

/// What has been found so far, as plain values.
pub struct HealthCheck {
    pub config: SplitterConfig,
    pub routes: Vec<ManagedRoute>,
    pub disabled_vpns: Vec<VpnKind>,
    pub warnings: Vec<String>,
    pub full_tunnels: Vec<VpnKind>,
}

impl DeepView for HealthCheck {
    type V = CheckView;

    open spec fn deep_view(&self) -> CheckView {
        CheckView {
            profiles: self.config.profiles@,
            routes: self.routes.deep_view(),
            disabled_vpns: self.disabled_vpns@,
            warnings: self.warnings.deep_view(),
            full_tunnels: self.full_tunnels@,
        }
    }
}

/// The routes through the interface as it is now.
pub open spec fn moved_routes(routes: Seq<RouteView>, adapter: AdapterView) -> Seq<RouteView> {
    Seq::new(
        routes.len(),
        |i: int|
            RouteView {
                interface_index: adapter.index,
                next_hop: adapter.next_hop,
                ..routes[i]
            },
    )
}

/// The interface that the profile uses, if it is connected.
pub open spec fn live_adapter(
    profile: VpnProfile,
    vpn: VpnKind,
    adapters: Seq<AdapterView>,
) -> Option<AdapterView> {
    match profile.adapter_description {
        Some(description) => first_that(adapters, selected_up(vpn, description@)),
        None => None,
    }
}

impl CheckView {
    /// The profile of the VPN cannot go on.
    pub open spec fn without(self, vpn: VpnKind, warning: Seq<char>) -> CheckView {
        CheckView {
            profiles: with_enabled(self.profiles, vpn, false),
            disabled_vpns: self.disabled_vpns.push(vpn),
            warnings: self.warnings.push(warning),
            ..self
        }
    }

    /// One more VPN: where its profile is enabled, its interface has to be connected and
    /// it has to have routes for its targets. These then lead through the interface.
    pub open spec fn with_vpn(
        self,
        vpn: VpnKind,
        current: Seq<RouteView>,
        adapters: Seq<AdapterView>,
    ) -> CheckView {
        if !is_enabled(self.profiles, vpn) {
            self
        } else {
            let targets = current.filter(target_of_vpn(vpn));
            match live_adapter(profile_of(self.profiles, vpn)->0, vpn, adapters) {
                None => self.without(
                    vpn,
                    vpn.text() + " 已斷線或原介面已不存在；已移除其殘留路由並關閉分流。"@,
                ),
                Some(adapter) => if targets.len() == 0 {
                    self.without(
                        vpn,
                        vpn.text() + " 的管理路由清單不完整；已清除殘留路由並關閉分流，請重新啟用。"@,
                    )
                } else {
                    CheckView {
                        routes: self.routes + moved_routes(targets, adapter),
                        full_tunnels: if adapter.full_tunnel_priority is Some {
                            self.full_tunnels.push(vpn)
                        } else {
                            self.full_tunnels
                        },
                        ..self
                    }
                },
            }
        }
    }
}

/// The routes through the interface as it is now.
fn move_routes(routes: &Vec<ManagedRoute>, adapter: &NetworkAdapter) -> (moved: Vec<ManagedRoute>)
    ensures
        moved.deep_view() == moved_routes(routes.deep_view(), adapter.deep_view()),
{
    let ghost all = moved_routes(routes.deep_view(), adapter.deep_view());
    let mut moved: Vec<ManagedRoute> = Vec::new();
    assert(moved.deep_view() =~= all.take(0));
    for i in 0..routes.len()
        invariant
            all == moved_routes(routes.deep_view(), adapter.deep_view()),
            moved.deep_view() == all.take(i as int),
    {
        let ghost before = moved.deep_view();
        moved.push(
            ManagedRoute {
                vpn: routes[i].vpn,
                purpose: routes[i].purpose,
                prefix: routes[i].prefix.clone(),
                interface_index: adapter.index,
                next_hop: adapter.next_hop.clone(),
                route_metric: routes[i].route_metric,
            },
        );
        assert(moved.deep_view() =~= before.push(all[i as int]));
        assert(moved.deep_view() =~= all.take(i + 1));
    }
    assert(all.take(routes.len() as int) =~= all);
    moved
}

impl HealthCheck {
    /// Disables the profile of the VPN.
    pub fn give_up(&mut self, vpn: VpnKind, warning: String)
        ensures
            final(self).deep_view() == old(self).deep_view().without(vpn, warning@),
    {
        let ghost before = self.deep_view();
        let ghost text = warning@;
        set_enabled(&mut self.config, vpn, false);
        self.disabled_vpns.push(vpn);
        self.warnings.push(warning);
        assert(self.deep_view() =~= before.without(vpn, text));
    }

    /// Looks at one more VPN.
    pub fn check_vpn(
        &mut self,
        vpn: VpnKind,
        current_routes: &[ManagedRoute],
        adapters: &[NetworkAdapter],
    )
        ensures
            final(self).deep_view() == old(self).deep_view().with_vpn(
                vpn,
                current_routes.deep_view(),
                adapters.deep_view(),
            ),
    {
        let ghost before = self.deep_view();
        let index: usize = match self.config.profile(vpn) {
            None => {
                return;
            },
            Some(profile) => {
                if !profile.enabled {
                    return;
                }
                match &profile.adapter_description {
                    Some(description) => find_selected_up(adapters, vpn, description.as_str()),
                    None => adapters.len(),
                }
            },
        };
        if index == adapters.len() {
            let mut warning: String = vpn.name().to_owned();
            warning.append(" 已斷線或原介面已不存在；已移除其殘留路由並關閉分流。");
            self.give_up(vpn, warning);
            return;
        }
        let adapter: &NetworkAdapter = &adapters[index];
        let targets: Vec<ManagedRoute> = target_routes_of(current_routes, vpn);
        if targets.len() == 0 {
            let mut warning: String = vpn.name().to_owned();
            warning.append(" 的管理路由清單不完整；已清除殘留路由並關閉分流，請重新啟用。");
            self.give_up(vpn, warning);
            return;
        }
        append_routes(&mut self.routes, move_routes(&targets, adapter));
        if adapter.full_tunnel_priority.is_some() {
            self.full_tunnels.push(vpn);
        }
        assert(self.deep_view() =~= before.with_vpn(
            vpn,
            current_routes.deep_view(),
            adapters.deep_view(),
        ));
    }

    /// Nothing has been looked at.
    pub fn start(config: SplitterConfig) -> (check: HealthCheck)
        ensures
            check.deep_view() == started(config.profiles@),
    {
        let check: HealthCheck = HealthCheck {
            config,
            routes: Vec::new(),
            disabled_vpns: Vec::new(),
            warnings: Vec::new(),
            full_tunnels: Vec::new(),
        };
        assert(check.deep_view() =~= started(config.profiles@));
        check
    }
}

/// Nothing has been looked at.
pub open spec fn started(profiles: Seq<VpnProfile>) -> CheckView {
    CheckView {
        profiles,
        routes: Seq::empty(),
        disabled_vpns: Seq::empty(),
        warnings: Seq::empty(),
        full_tunnels: Seq::empty(),
    }
}

/// All VPNs have been looked at, in their order.
pub open spec fn checked(
    profiles: Seq<VpnProfile>,
    current: Seq<RouteView>,
    adapters: Seq<AdapterView>,
) -> CheckView {
    started(profiles).with_vpn(VpnKind::FortiClient, current, adapters).with_vpn(
        VpnKind::F5,
        current,
        adapters,
    ).with_vpn(VpnKind::Ivanti, current, adapters)
}

/// What a health check wants, with respect for the routes of the system's own.
pub open spec fn desired_with_native(
    current: Seq<RouteView>,
    profiles: Seq<VpnProfile>,
    adapters: Seq<AdapterView>,
    gateway: Option<GatewayView>,
    native: Seq<NativeRouteView>,
) -> Result<HealthPlanView, Seq<char>> {
    let check = checked(profiles, current, adapters);
    let fallback = chosen_fallback(check.profiles, adapters, gateway);
    let manage = manages_dns(check.profiles, check.full_tunnels, fallback);
    match dns_plan(check.profiles, adapters, fallback, manage) {
        Err(reasons) => Err(joined(reasons, "\n"@)),
        Ok(plan) => match with_bypass(
            PreparedView {
                routes: check.routes,
                dns_rules: Seq::empty(),
                warnings: check.warnings,
            },
            check.profiles,
            adapters,
            check.full_tunnels,
            fallback,
            native,
            current,
        ) {
            Err(reasons) => Err(joined(reasons, "\n"@)),
            Ok(bypassed) => {
                let finished = if manage {
                    with_dns_policy(bypassed, fallback->0.label(), plan)
                } else {
                    Ok(bypassed)
                };
                match finished {
                    Err(reasons) => Err(joined(reasons, "\n"@)),
                    Ok(prepared) => Ok(
                        HealthPlanView {
                            profiles: check.profiles,
                            routes: prepared.routes,
                            dns_rules: prepared.dns_rules,
                            disabled_vpns: check.disabled_vpns,
                            warnings: prepared.warnings,
                        },
                    ),
                }
            },
        },
    }
}

/// What a health check wants, with respect for the routes of the system's own.
pub fn desired_routes_for_health_check_with_native_routes(
    current_routes: &[ManagedRoute],
    config: SplitterConfig,
    adapters: &[NetworkAdapter],
    internet_gateway: Option<&InternetGateway>,
    native_routes: &[NativeRoute],
) -> (result: Result<RouteHealthPlan, String>)
    ensures
        health_plan_result(result) == desired_with_native(
            current_routes.deep_view(),
            config.profiles@,
            adapters.deep_view(),
            gateway_view(internet_gateway),
            native_routes.deep_view(),
        ),
{
    let mut check: HealthCheck = HealthCheck::start(config);
    check.check_vpn(VpnKind::FortiClient, current_routes, adapters);
    check.check_vpn(VpnKind::F5, current_routes, adapters);
    check.check_vpn(VpnKind::Ivanti, current_routes, adapters);
    let HealthCheck { config: next, routes, disabled_vpns, warnings, full_tunnels } = check;
    let mut prepared: PreparedRoutes = PreparedRoutes::default();
    prepared.routes = routes;
    prepared.warnings = warnings;
    let fallback: Option<InternetFallback<'_>> = select_internet_fallback(
        &next,
        adapters,
        internet_gateway,
    );
    let manage_dns: bool = should_manage_dns_policy(&next, &full_tunnels, fallback);
    let plan: DnsPlan = match DnsPlan::build(&next, adapters, fallback, manage_dns) {
        Ok(plan) => plan,
        Err(reasons) => {
            return Err(join_texts(&reasons, "\n"));
        },
    };
    let bypassed: PreparedRoutes = match append_internet_bypass_routes(
        prepared,
        &next,
        adapters,
        &full_tunnels,
        fallback,
        native_routes,
        current_routes,
    ) {
        Ok(bypassed) => bypassed,
        Err(reasons) => {
            return Err(join_texts(&reasons, "\n"));
        },
    };
    let mut finished: PreparedRoutes = bypassed;
    if manage_dns {
        if let Some(path) = fallback {
            match append_dns_policy(finished, path, &plan) {
                Ok(with_rules) => {
                    finished = with_rules;
                },
                Err(reasons) => {
                    return Err(join_texts(&reasons, "\n"));
                },
            }
        }
    }
    Ok(
        RouteHealthPlan {
            config: next,
            routes: finished.routes,
            dns_rules: finished.dns_rules,
            disabled_vpns,
            warnings: finished.warnings,
        },
    )
}

/// What came of a health check.
#[derive(Debug)]
pub enum RouteHealthOutcome {
    Healthy,
    Updated {
        config: SplitterConfig,
        routes: Vec<ManagedRoute>,
        adapters: Vec<NetworkAdapter>,
        internet_gateway: Option<Box<InternetGateway>>,
        repaired: bool,
        disabled_vpns: Vec<VpnKind>,
        warnings: Vec<String>,
    },
    Failed(String),
}

/// What a `RouteHealthOutcome` stands for.
#[verifier::ext_equal]
pub ghost enum HealthOutcomeView {
    Healthy,
    Updated {
        profiles: Seq<VpnProfile>,
        routes: Seq<RouteView>,
        adapters: Seq<AdapterView>,
        gateway: Option<GatewayView>,
        repaired: bool,
        disabled_vpns: Seq<VpnKind>,
        warnings: Seq<Seq<char>>,
    },
    Failed(Seq<char>),
}

impl DeepView for RouteHealthOutcome {
    type V = HealthOutcomeView;

    open spec fn deep_view(&self) -> HealthOutcomeView {
        match self {
            RouteHealthOutcome::Healthy => HealthOutcomeView::Healthy,
            RouteHealthOutcome::Updated {
                config,
                routes,
                adapters,
                internet_gateway,
                repaired,
                disabled_vpns,
                warnings,
            } => HealthOutcomeView::Updated {
                profiles: config.profiles@,
                routes: routes.deep_view(),
                adapters: adapters.deep_view(),
                gateway: match internet_gateway {
                    Some(gateway) => Some((**gateway).deep_view()),
                    None => None,
                },
                repaired: *repaired,
                disabled_vpns: disabled_vpns@,
                warnings: warnings.deep_view(),
            },
            RouteHealthOutcome::Failed(reason) => HealthOutcomeView::Failed(reason@),
        }
    }
}

/// How the calls of a health check end. What is not called has no bearing on anything.
pub ghost struct HealthReplies {
    pub routes: Result<(), Seq<char>>,
    pub rules: Result<bool, Seq<char>>,
}

/// The routes in force are not those that are wanted.
pub open spec fn needs_repair(plan: HealthPlanView, existing: Seq<RouteView>) -> bool {
    !matching(existing, plan.routes)
}

/// The routes in force are those that are wanted, by now.
pub open spec fn routes_right(
    plan: Result<HealthPlanView, Seq<char>>,
    existing: Seq<RouteView>,
    replies: HealthReplies,
) -> bool {
    plan is Ok && (needs_repair(plan->Ok_0, existing) ==> replies.routes is Ok)
}

/// How a health check ends, given how its calls end.
pub open spec fn health_outcome(
    plan: Result<HealthPlanView, Seq<char>>,
    existing: Seq<RouteView>,
    adapters: Seq<AdapterView>,
    gateway: Option<GatewayView>,
    replies: HealthReplies,
) -> HealthOutcomeView {
    if plan is Err {
        HealthOutcomeView::Failed(plan->Err_0)
    } else if !routes_right(plan, existing, replies) {
        HealthOutcomeView::Failed(
            "自動修復分流路由失敗；將於下次健康檢查重試："@ + replies.routes->Err_0,
        )
    } else {
        match replies.rules {
            Err(reason) => HealthOutcomeView::Failed(
                "自動修復 DNS 分流失敗；將於下次健康檢查重試："@ + reason,
            ),
            Ok(changed) => HealthOutcomeView::Updated {
                profiles: plan->Ok_0.profiles,
                routes: plan->Ok_0.routes,
                adapters,
                gateway,
                repaired: needs_repair(plan->Ok_0, existing) || changed,
                disabled_vpns: plan->Ok_0.disabled_vpns,
                warnings: plan->Ok_0.warnings,
            },
        }
    }
}

/// The replies are such as the calls that are made can give.
pub open spec fn health_possible<
    R: FnMut(&[ManagedRoute], &[ManagedRoute]) -> Result<(), String>,
    D: FnMut(&[ManagedDnsRule]) -> Result<bool, String>,
>(
    plan: Result<HealthPlanView, Seq<char>>,
    existing: Seq<RouteView>,
    replies: HealthReplies,
    apply: R,
    apply_dns: D,
) -> bool {
    &&& plan is Ok && needs_repair(plan->Ok_0, existing) ==> replaces(
        apply,
        existing,
        plan->Ok_0.routes,
        replies.routes,
    )
    &&& routes_right(plan, existing, replies) ==> replaces_rules(
        apply_dns,
        plan->Ok_0.dns_rules,
        replies.rules,
    )
}

/// The calls of a health check can be made, each of them where it is due.
pub open spec fn health_takes<
    R: FnMut(&[ManagedRoute], &[ManagedRoute]) -> Result<(), String>,
    D: FnMut(&[ManagedDnsRule]) -> Result<bool, String>,
>(
    plan: Result<HealthPlanView, Seq<char>>,
    existing: Seq<RouteView>,
    apply: R,
    apply_dns: D,
) -> bool {
    plan matches Ok(wanted) ==> {
        &&& needs_repair(wanted, existing) ==> takes_routes(apply, existing, wanted.routes)
        &&& (needs_repair(wanted, existing) ==> replaces(apply, existing, wanted.routes, Ok(())))
            ==> takes_rules(apply_dns, wanted.dns_rules)
    }
}

/// Puts what a health check wants into force: the routes where they are not those in
/// force, and then the rules for names. Nothing else is called for.
pub fn finish_health_check<
    R: FnMut(&[ManagedRoute], &[ManagedRoute]) -> Result<(), String>,
    D: FnMut(&[ManagedDnsRule]) -> Result<bool, String>,
>(
    plan: Result<RouteHealthPlan, String>,
    existing_routes: Vec<ManagedRoute>,
    adapters: Vec<NetworkAdapter>,
    internet_gateway: Option<InternetGateway>,
    mut apply: R,
    mut apply_dns: D,
) -> (outcome: RouteHealthOutcome)
    requires
        health_takes(
            health_plan_result(plan),
            existing_routes.deep_view(),
            apply,
            apply_dns,
        ),
    ensures
        exists|replies: HealthReplies|
            #[trigger] health_possible(
                health_plan_result(plan),
                existing_routes.deep_view(),
                replies,
                apply,
                apply_dns,
            ) && outcome.deep_view() == health_outcome(
                health_plan_result(plan),
                existing_routes.deep_view(),
                adapters.deep_view(),
                internet_gateway.deep_view(),
                replies,
            ),
{
    let ghost wanted = health_plan_result(plan);
    let ghost existing = existing_routes.deep_view();
    let ghost apply_routes = apply;
    let ghost apply_rules = apply_dns;
    let ghost mut replies = HealthReplies { routes: Ok(()), rules: Ok(false) };
    let plan: RouteHealthPlan = match plan {
        Ok(plan) => plan,
        Err(reason) => {
            assert(health_possible(wanted, existing, replies, apply_routes, apply_rules));
            return RouteHealthOutcome::Failed(reason);
        },
    };
    let existing_slice: &[ManagedRoute] = routes_slice(&existing_routes);
    let wanted_slice: &[ManagedRoute] = routes_slice(&plan.routes);
    let routes_repaired: bool = !routes_match(existing_slice, wanted_slice);
    if routes_repaired {
        let replaced: Result<(), String> = apply(existing_slice, wanted_slice);
        assert(call_ensures(apply_routes, (existing_slice, wanted_slice), replaced));
        proof {
            replies.routes = replaced_view(replaced);
        }
        assert(replaces(apply_routes, existing, wanted->Ok_0.routes, replies.routes));
        if let Err(reason) = replaced {
            let mut message: String = "自動修復分流路由失敗；將於下次健康檢查重試：".to_owned();
            message.append(reason.as_str());
            assert(health_possible(wanted, existing, replies, apply_routes, apply_rules));
            return RouteHealthOutcome::Failed(message);
        }
    }
    let rules_slice: &[ManagedDnsRule] = plan.dns_rules.as_slice();
    assert(rules_slice.deep_view() =~= plan.dns_rules.deep_view());
    let rules_replaced: Result<bool, String> = apply_dns(rules_slice);
    assert(call_ensures(apply_rules, (rules_slice,), rules_replaced));
    proof {
        replies.rules = rules_replaced_view(rules_replaced);
    }
    assert(replaces_rules(apply_rules, wanted->Ok_0.dns_rules, replies.rules));
    assert(health_possible(wanted, existing, replies, apply_routes, apply_rules));
    match rules_replaced {
        Ok(dns_repaired) => RouteHealthOutcome::Updated {
            config: plan.config,
            routes: plan.routes,
            adapters,
            internet_gateway: match internet_gateway {
                Some(gateway) => Some(Box::new(gateway)),
                None => None,
            },
            repaired: routes_repaired || dns_repaired,
            disabled_vpns: plan.disabled_vpns,
            warnings: plan.warnings,
        },
        Err(reason) => {
            let mut message: String = "自動修復 DNS 分流失敗；將於下次健康檢查重試：".to_owned();
            message.append(reason.as_str());
            RouteHealthOutcome::Failed(message)
        },
    }
}

/// What a health check starts from.
pub struct RouteHealthInput {
    pub current_routes: Vec<ManagedRoute>,
    pub config: SplitterConfig,
    pub existing_routes: Vec<ManagedRoute>,
    pub adapters: Vec<NetworkAdapter>,
    pub internet_gateway: Option<InternetGateway>,
    pub native_routes: Vec<NativeRoute>,
}

/// What a health check wants, given what it starts from.
pub open spec fn desired_by(input: RouteHealthInput) -> Result<HealthPlanView, Seq<char>> {
    desired_with_native(
        input.current_routes.deep_view(),
        input.config.profiles@,
        input.adapters.deep_view(),
        input.internet_gateway.deep_view(),
        input.native_routes.deep_view(),
    )
}

/// Checks the routes in force and repairs them, with respect for the routes of the
/// system's own.
pub fn evaluate_route_health_with_native_routes<
    R: FnMut(&[ManagedRoute], &[ManagedRoute]) -> Result<(), String>,
    D: FnMut(&[ManagedDnsRule]) -> Result<bool, String>,
>(input: RouteHealthInput, apply: R, apply_dns: D) -> (outcome: RouteHealthOutcome)
    requires
        health_takes(desired_by(input), input.existing_routes.deep_view(), apply, apply_dns),
    ensures
        exists|replies: HealthReplies|
            #[trigger] health_possible(
                desired_by(input),
                input.existing_routes.deep_view(),
                replies,
                apply,
                apply_dns,
            ) && outcome.deep_view() == health_outcome(
                desired_by(input),
                input.existing_routes.deep_view(),
                input.adapters.deep_view(),
                input.internet_gateway.deep_view(),
                replies,
            ),
{
    let RouteHealthInput {
        current_routes,
        config,
        existing_routes,
        adapters,
        internet_gateway,
        native_routes,
    } = input;
    let native_slice: &[NativeRoute] = native_routes.as_slice();
    assert(native_slice.deep_view() =~= native_routes.deep_view());
    let plan: Result<RouteHealthPlan, String> = desired_routes_for_health_check_with_native_routes(
        routes_slice(&current_routes),
        config,
        adapters_slice(&adapters),
        internet_gateway.as_ref(),
        native_slice,
    );
    finish_health_check(plan, existing_routes, adapters, internet_gateway, apply, apply_dns)
}

/// Interfaces and the ordinary network have to be looked for again.
pub open spec fn endpoints_outdated(
    scheduled: bool,
    previous: Option<RouteTableFingerprint>,
    current: RouteTableFingerprint,
) -> bool {
    scheduled || previous != Some(current)
}

/// Whether interfaces and the ordinary network have to be looked for again: when it is
/// time, or when the routing table is another than it was.
pub fn endpoint_refresh_required(
    scheduled_refresh: bool,
    previous_fingerprint: Option<RouteTableFingerprint>,
    current_fingerprint: RouteTableFingerprint,
) -> (required: bool)
    ensures
        required == endpoints_outdated(
            scheduled_refresh,
            previous_fingerprint,
            current_fingerprint,
        ),
        required == (scheduled_refresh || previous_fingerprint != Some(current_fingerprint)),
{
    scheduled_refresh || match previous_fingerprint {
        Some(previous) => previous != current_fingerprint,
        None => true,
    }
}

}
