//! The operations that run in the background: looking for interfaces and for stale
//! routes, switching a profile, resolving names again, and checking the routes in force.

use vstd::prelude::*;

use crate::domain::{profile_of, SplitterConfig, VpnKind, VpnProfile};
use crate::health::{
    health_outcome, health_possible, health_takes, set_enabled, with_enabled, HealthOutcomeView,
    HealthReplies, RouteHealthOutcome,
};
use crate::physical::{
    physical_asked, physical_prepared, physical_takes, prepare_all_enabled_routes_with_resolver,
};
use crate::physical_health::{desired_physical, evaluate_route_health_with};
use crate::preparation::{prepared_result, PreparedRoutes, PreparedView};
use crate::routes::{
    matching, reconciled, reconciled_routes_for_config, routes_match, routes_slice,
};
use crate::selection::{adapters_slice, any_enabled, needs_periodic_route_refresh};
use crate::text::{join_texts, joined};
use crate::transaction::{
    replaced_view, replaces, replaces_rules, rules_can_fail, rules_replaced_view, takes_routes,
    takes_rules,
};
use crate::validation::AnswerView;
use crate::windows::{
    adapters_result, gateway_result, AdapterView, DnsRuleView, GatewayView, InternetGateway,
    ManagedDnsRule, ManagedRoute, NetworkAdapter, RouteView,
};

verus! {

/// What runs in the background.
#[derive(Debug, Clone, Copy, PartialEq, Eq, Structural)]
pub enum OperationKind {
    RefreshAdapters,
    ToggleProfile { vpn: VpnKind, enabled: bool },
    RefreshDns,
    RouteHealth,
}

impl OperationKind {
    /// The user has asked for the operation and waits for it.
    pub open spec fn is_foreground(self) -> bool {
        self is RefreshAdapters || self is ToggleProfile
    }

    /// The operation may be broken off when the program ends.
    pub open spec fn may_be_broken_off(self) -> bool {
        self is RefreshAdapters || self is RouteHealth
    }

    /// What is going on.
    pub open spec fn progress(self) -> Seq<char> {
        match self {
            OperationKind::RefreshAdapters => "正在重新偵測 VPN，視窗仍可操作…"@,
            OperationKind::ToggleProfile { vpn, enabled } => if enabled {
                "正在啟用 "@ + vpn.text() + " 分流，請稍候…"@
            } else {
                "正在停用 "@ + vpn.text() + " 分流，請稍候…"@
            },
            OperationKind::RefreshDns => "正在背景更新網域路由…"@,
            OperationKind::RouteHealth => "正在背景核對分流路由…"@,
        }
    }

    /// Whether the user has to wait for the operation.
    pub fn blocks_user_interface(self) -> (blocks: bool)
        ensures
            blocks == self.is_foreground(),
    {
        match self {
            OperationKind::RefreshAdapters | OperationKind::ToggleProfile { .. } => true,
            OperationKind::RefreshDns | OperationKind::RouteHealth => false,
        }
    }

    /// What is going on.
    pub fn progress_message(self) -> (message: String)
        ensures
            message@ == self.progress(),
    {
        match self {
            OperationKind::RefreshAdapters => "正在重新偵測 VPN，視窗仍可操作…".to_owned(),
            OperationKind::ToggleProfile { vpn, enabled } => {
                let mut message: String = if enabled {
                    "正在啟用 ".to_owned()
                } else {
                    "正在停用 ".to_owned()
                };
                message.append(vpn.name());
                message.append(" 分流，請稍候…");
                message
            },
            OperationKind::RefreshDns => "正在背景更新網域路由…".to_owned(),
            OperationKind::RouteHealth => "正在背景核對分流路由…".to_owned(),
        }
    }

    /// Whether the operation may be broken off when the program ends: it may where it
    /// only looks for interfaces first.
    pub fn cancel_during_shutdown(self) -> (cancelled: bool)
        ensures
            cancelled == self.may_be_broken_off(),
            cancelled == (self is RefreshAdapters || self is RouteHealth),
    {
        match self {
            OperationKind::RefreshAdapters | OperationKind::RouteHealth => true,
            OperationKind::ToggleProfile { .. } | OperationKind::RefreshDns => false,
        }
    }
}

/// What the user has asked for while something else was running.
#[derive(Debug, Clone, Copy, PartialEq, Eq, Structural)]
pub enum QueuedForegroundAction {
    RefreshAdapters,
    ToggleProfile { vpn: VpnKind, enabled: bool },
}

/// The routes that stay after a reconciliation, and how many have gone.
#[derive(Debug)]
pub struct ReconciledRoutes {
    pub routes: Vec<ManagedRoute>,
    pub removed: usize,
}

/// What a `ReconciledRoutes` stands for.
#[verifier::ext_equal]
pub ghost struct ReconciledView {
    pub routes: Seq<RouteView>,
    pub removed: nat,
}

impl DeepView for ReconciledRoutes {
    type V = ReconciledView;

    open spec fn deep_view(&self) -> ReconciledView {
        ReconciledView { routes: self.routes.deep_view(), removed: self.removed as nat }
    }
}

/// What reconciled routes, or the reason why there are none, stand for.
pub open spec fn reconciled_result(result: Result<ReconciledRoutes, String>) -> Result<
    ReconciledView,
    Seq<char>,
> {
    match result {
        Ok(reconciled) => Ok(reconciled.deep_view()),
        Err(reason) => Err(reason@),
    }
}

/// What a list of routes, or the reason why there is none, stands for.
pub open spec fn routes_result(result: Result<Vec<ManagedRoute>, String>) -> Result<
    Seq<RouteView>,
    Seq<char>,
> {
    match result {
        Ok(routes) => Ok(routes.deep_view()),
        Err(reason) => Err(reason@),
    }
}

/// How a reconciliation ends, given what is in the routing table and how taking away
/// what does not stay ends.
pub open spec fn reconciliation(
    previous: Seq<RouteView>,
    profiles: Seq<VpnProfile>,
    existing: Result<Seq<RouteView>, Seq<char>>,
    reply: Result<(), Seq<char>>,
) -> Result<ReconciledView, Seq<char>> {
    match existing {
        Err(reason) => Err(reason),
        Ok(found) => {
            let kept = reconciled(previous, found, profiles);
            if !matching(found, kept) && reply is Err {
                Err(reply->Err_0)
            } else {
                Ok(
                    ReconciledView {
                        routes: kept,
                        removed: if previous.len() > kept.len() {
                            (previous.len() - kept.len()) as nat
                        } else {
                            0
                        },
                    },
                )
            }
        },
    }
}

/// The reply is one that taking away what does not stay can give, if anything has to be
/// taken away.
pub open spec fn reconciliation_possible<
    R: FnMut(&[ManagedRoute], &[ManagedRoute]) -> Result<(), String>,
>(
    previous: Seq<RouteView>,
    profiles: Seq<VpnProfile>,
    existing: Result<Seq<RouteView>, Seq<char>>,
    reply: Result<(), Seq<char>>,
    apply: R,
) -> bool {
    existing matches Ok(found) ==> {
        let kept = reconciled(previous, found, profiles);
        matching(found, kept) || replaces(apply, found, kept, reply)
    }
}

/// Takes away the routes in the routing table that do not stay: those of VPNs that are
/// not enabled, and those of VPNs that have lost some.
pub fn reconcile_routes<R: FnMut(&[ManagedRoute], &[ManagedRoute]) -> Result<(), String>>(
    previous: Vec<ManagedRoute>,
    config: &SplitterConfig,
    existing: Result<Vec<ManagedRoute>, String>,
    mut apply: R,
) -> (result: Result<ReconciledRoutes, String>)
    requires
        routes_result(existing) matches Ok(found) ==> {
            let kept = reconciled(previous.deep_view(), found, config.profiles@);
            !matching(found, kept) ==> takes_routes(apply, found, kept)
        },
    ensures
        exists|reply: Result<(), Seq<char>>|
            #[trigger] reconciliation_possible(
                previous.deep_view(),
                config.profiles@,
                routes_result(existing),
                reply,
                apply,
            ) && reconciled_result(result) == reconciliation(
                previous.deep_view(),
                config.profiles@,
                routes_result(existing),
                reply,
            ),
{
    let ghost found_view = routes_result(existing);
    let ghost before_view = previous.deep_view();
    let ghost replace = apply;
    let ghost mut reply: Result<(), Seq<char>> = Ok(());
    let found: Vec<ManagedRoute> = match existing {
        Ok(found) => found,
        Err(reason) => {
            assert(reconciliation_possible(
                before_view,
                config.profiles@,
                found_view,
                reply,
                replace,
            ));
            return Err(reason);
        },
    };
    let previous_count: usize = previous.len();
    let found_slice: &[ManagedRoute] = routes_slice(&found);
    let kept: Vec<ManagedRoute> = reconciled_routes_for_config(
        routes_slice(&previous),
        found_slice,
        config,
    );
    let kept_slice: &[ManagedRoute] = routes_slice(&kept);
    if !routes_match(found_slice, kept_slice) {
        let replaced: Result<(), String> = apply(found_slice, kept_slice);
        assert(call_ensures(replace, (found_slice, kept_slice), replaced));
        proof {
            reply = replaced_view(replaced);
        }
        assert(replaces(replace, found_view->Ok_0, kept.deep_view(), reply));
        if let Err(reason) = replaced {
            assert(reconciliation_possible(
                before_view,
                config.profiles@,
                found_view,
                reply,
                replace,
            ));
            return Err(reason);
        }
    }
    assert(reconciliation_possible(before_view, config.profiles@, found_view, reply, replace));
    let removed: usize = previous_count.saturating_sub(kept.len());
    Ok(ReconciledRoutes { routes: kept, removed })
}

/// What looking for interfaces and for stale routes found.
#[derive(Debug)]
pub struct RefreshOutcome {
    pub route_notice: Result<ReconciledRoutes, String>,
    pub dns_notice: Result<bool, String>,
    pub gateway_notice: Result<Option<InternetGateway>, String>,
    pub adapter_notice: Result<Vec<NetworkAdapter>, String>,
}

/// What a `RefreshOutcome` stands for.
#[verifier::ext_equal]
pub ghost struct RefreshView {
    pub routes: Result<ReconciledView, Seq<char>>,
    pub rules: Result<bool, Seq<char>>,
    pub gateway: Result<Option<GatewayView>, Seq<char>>,
    pub adapters: Result<Seq<AdapterView>, Seq<char>>,
}

impl DeepView for RefreshOutcome {
    type V = RefreshView;

    open spec fn deep_view(&self) -> RefreshView {
        RefreshView {
            routes: reconciled_result(self.route_notice),
            rules: rules_replaced_view(self.dns_notice),
            gateway: gateway_result(self.gateway_notice),
            adapters: adapters_result(self.adapter_notice),
        }
    }
}

/// What looking for interfaces and for stale routes found. Where no profile is enabled,
/// the rules for names are taken away too.
pub fn run_refresh<D: FnMut(&[ManagedDnsRule]) -> Result<bool, String>>(
    config: &SplitterConfig,
    route_notice: Result<ReconciledRoutes, String>,
    gateway_notice: Result<Option<InternetGateway>, String>,
    adapter_notice: Result<Vec<NetworkAdapter>, String>,
    mut apply_dns: D,
) -> (outcome: RefreshOutcome)
    requires
        !any_enabled(config.profiles@) ==> takes_rules(apply_dns, Seq::<DnsRuleView>::empty()),
    ensures
        outcome.deep_view().routes == reconciled_result(route_notice),
        outcome.deep_view().gateway == gateway_result(gateway_notice),
        outcome.deep_view().adapters == adapters_result(adapter_notice),
        if any_enabled(config.profiles@) {
            outcome.deep_view().rules == Ok::<bool, Seq<char>>(false)
        } else {
            replaces_rules(apply_dns, Seq::<DnsRuleView>::empty(), outcome.deep_view().rules)
        },
{
    let ghost replace = apply_dns;
    let dns_notice: Result<bool, String> = if needs_periodic_route_refresh(config) {
        Ok(false)
    } else {
        let none: Vec<ManagedDnsRule> = Vec::new();
        let rules: &[ManagedDnsRule] = none.as_slice();
        assert(rules.deep_view() =~= Seq::<DnsRuleView>::empty());
        let replaced: Result<bool, String> = apply_dns(rules);
        assert(call_ensures(replace, (rules,), replaced));
        assert(replaces_rules(replace, Seq::<DnsRuleView>::empty(), rules_replaced_view(replaced)));
        replaced
    };
    RefreshOutcome { route_notice, dns_notice, gateway_notice, adapter_notice }
}

/// How the calls end that put a policy into force. What is not called has no bearing on
/// anything.
pub ghost struct ApplyReplies {
    pub routes: Result<(), Seq<char>>,
    pub rules: Result<bool, Seq<char>>,
    pub rollback: Result<(), Seq<char>>,
}

/// How putting a policy into force ends, given how its calls end: the routes where they
/// are not those in force, then the rules for names. Where these fail, the routes that
/// were in force are put back.
pub open spec fn policy_outcome(
    current: Seq<RouteView>,
    prepared: PreparedView,
    replies: ApplyReplies,
) -> Result<bool, Seq<char>> {
    let changes = !matching(current, prepared.routes);
    if changes && replies.routes is Err {
        Err(replies.routes->Err_0)
    } else {
        match replies.rules {
            Ok(changed) => Ok(changes || changed),
            Err(reason) => if !changes {
                Err(reason)
            } else {
                match replies.rollback {
                    Ok(_) => Err(reason + "\n已將 IPv4 路由回復到套用前狀態。"@),
                    Err(failure) => Err(reason + "\nIPv4 路由回復也失敗："@ + failure),
                }
            },
        }
    }
}

/// The replies are such as the calls that are made can give.
pub open spec fn policy_possible<
    R: FnMut(&[ManagedRoute], &[ManagedRoute]) -> Result<(), String>,
    D: FnMut(&[ManagedDnsRule]) -> Result<bool, String>,
>(
    current: Seq<RouteView>,
    prepared: PreparedView,
    replies: ApplyReplies,
    replace: R,
    replace_rules: D,
) -> bool {
    let changes = !matching(current, prepared.routes);
    &&& changes ==> replaces(replace, current, prepared.routes, replies.routes)
    &&& (changes ==> replies.routes is Ok) ==> replaces_rules(
        replace_rules,
        prepared.dns_rules,
        replies.rules,
    )
    &&& changes && replies.routes is Ok && replies.rules is Err ==> replaces(
        replace,
        prepared.routes,
        current,
        replies.rollback,
    )
}

/// The calls can be made that put a policy into force, each of them where what comes
/// before it can end so that it is due.
pub open spec fn policy_takes<
    R: FnMut(&[ManagedRoute], &[ManagedRoute]) -> Result<(), String>,
    D: FnMut(&[ManagedDnsRule]) -> Result<bool, String>,
>(current: Seq<RouteView>, prepared: PreparedView, replace: R, replace_rules: D) -> bool {
    let changes = !matching(current, prepared.routes);
    &&& changes ==> takes_routes(replace, current, prepared.routes)
    &&& (changes ==> replaces(replace, current, prepared.routes, Ok(()))) ==> {
        &&& takes_rules(replace_rules, prepared.dns_rules)
        &&& changes && rules_can_fail(replace_rules, prepared.dns_rules) ==> takes_routes(
            replace,
            prepared.routes,
            current,
        )
    }
}

/// Puts a policy into force, and tells whether anything changed.
pub fn apply_prepared_policy<
    R: FnMut(&[ManagedRoute], &[ManagedRoute]) -> Result<(), String>,
    D: FnMut(&[ManagedDnsRule]) -> Result<bool, String>,
>(
    current_routes: &[ManagedRoute],
    prepared: &PreparedRoutes,
    mut replace_routes: R,
    mut replace_dns_policy: D,
) -> (result: Result<bool, String>)
    requires
        policy_takes(
            current_routes.deep_view(),
            prepared.deep_view(),
            replace_routes,
            replace_dns_policy,
        ),
    ensures
        exists|replies: ApplyReplies|
            #[trigger] policy_possible(
                current_routes.deep_view(),
                prepared.deep_view(),
                replies,
                replace_routes,
                replace_dns_policy,
            ) && rules_replaced_view(result) == policy_outcome(
                current_routes.deep_view(),
                prepared.deep_view(),
                replies,
            ),
{
    let ghost current = current_routes.deep_view();
    let ghost wanted = prepared.deep_view();
    let ghost replace = replace_routes;
    let ghost replace_rules = replace_dns_policy;
    let ghost mut replies = ApplyReplies { routes: Ok(()), rules: Ok(false), rollback: Ok(()) };
    let wanted_slice: &[ManagedRoute] = routes_slice(&prepared.routes);
    let routes_changed: bool = !routes_match(current_routes, wanted_slice);
    if routes_changed {
        let replaced: Result<(), String> = replace_routes(current_routes, wanted_slice);
        assert(call_ensures(replace, (current_routes, wanted_slice), replaced));
        proof {
            replies.routes = replaced_view(replaced);
        }
        assert(replaces(replace, current, wanted.routes, replies.routes));
        if let Err(reason) = replaced {
            assert(policy_possible(current, wanted, replies, replace, replace_rules));
            return Err(reason);
        }
    }
    let rules_slice: &[ManagedDnsRule] = prepared.dns_rules.as_slice();
    assert(rules_slice.deep_view() =~= wanted.dns_rules);
    let rules_replaced: Result<bool, String> = replace_dns_policy(rules_slice);
    assert(call_ensures(replace_rules, (rules_slice,), rules_replaced));
    proof {
        replies.rules = rules_replaced_view(rules_replaced);
    }
    assert(replaces_rules(replace_rules, wanted.dns_rules, replies.rules));
    match rules_replaced {
        Ok(changed) => {
            assert(policy_possible(current, wanted, replies, replace, replace_rules));
            Ok(routes_changed || changed)
        },
        Err(dns_error) => {
            if !routes_changed {
                assert(policy_possible(current, wanted, replies, replace, replace_rules));
                return Err(dns_error);
            }
            let restored: Result<(), String> = replace_routes(wanted_slice, current_routes);
            assert(call_ensures(replace, (wanted_slice, current_routes), restored));
            proof {
                replies.rollback = replaced_view(restored);
            }
            assert(replaces(replace, wanted.routes, current, replies.rollback));
            assert(policy_possible(current, wanted, replies, replace, replace_rules));
            let mut message: String = dns_error;
            match restored {
                Ok(_) => {
                    message.append("\n已將 IPv4 路由回復到套用前狀態。");
                },
                Err(failure) => {
                    message.append("\nIPv4 路由回復也失敗：");
                    message.append(failure.as_str());
                },
            }
            Err(message)
        },
    }
}

/// What came of switching a profile.
#[derive(Debug)]
pub enum ToggleOutcome {
    Applied {
        vpn: VpnKind,
        enabled: bool,
        config: SplitterConfig,
        routes: Vec<ManagedRoute>,
        warnings: Vec<String>,
    },
    Failed { attempted_enabled: bool, error: String },
}

/// What a `ToggleOutcome` stands for.
#[verifier::ext_equal]
pub ghost enum ToggleView {
    Applied {
        vpn: VpnKind,
        enabled: bool,
        profiles: Seq<VpnProfile>,
        routes: Seq<RouteView>,
        warnings: Seq<Seq<char>>,
    },
    Failed { attempted_enabled: bool, error: Seq<char> },
}

impl DeepView for ToggleOutcome {
    type V = ToggleView;

    open spec fn deep_view(&self) -> ToggleView {
        match self {
            ToggleOutcome::Applied { vpn, enabled, config, routes, warnings } =>
                ToggleView::Applied {
                vpn: *vpn,
                enabled: *enabled,
                profiles: config.profiles@,
                routes: routes.deep_view(),
                warnings: warnings.deep_view(),
            },
            ToggleOutcome::Failed { attempted_enabled, error } => ToggleView::Failed {
                attempted_enabled: *attempted_enabled,
                error: error@,
            },
        }
    }
}

/// What switching a profile starts from.
#[verifier::ext_equal]
pub ghost struct PolicyView {
    pub current: Seq<RouteView>,
    pub profiles: Seq<VpnProfile>,
    pub adapters: Seq<AdapterView>,
    pub gateway: Option<GatewayView>,
}

impl PolicyView {
    /// The same with a profile enabled or disabled.
    pub open spec fn switched(self, vpn: VpnKind, enabled: bool) -> PolicyView {
        PolicyView { profiles: with_enabled(self.profiles, vpn, enabled), ..self }
    }

    /// What is to be put into force, given the answers of the name servers.
    pub open spec fn prepared(self, answers: Seq<AnswerView>) -> Result<
        PreparedView,
        Seq<Seq<char>>,
    > {
        physical_prepared(self.profiles, self.adapters, self.gateway, answers)
    }

    /// The answers and the replies are such as the calls that are made can give.
    pub open spec fn possible<
        F: FnMut(VpnKind, &str, &[String]) -> Result<Vec<u32>, String>,
        R: FnMut(&[ManagedRoute], &[ManagedRoute]) -> Result<(), String>,
        D: FnMut(&[ManagedDnsRule]) -> Result<bool, String>,
    >(
        self,
        answers: Seq<AnswerView>,
        replies: ApplyReplies,
        resolve: F,
        replace: R,
        replace_rules: D,
    ) -> bool {
        &&& physical_asked(resolve, self.profiles, self.adapters, self.gateway, answers)
        &&& self.prepared(answers) matches Ok(prepared) ==> policy_possible(
            self.current,
            prepared,
            replies,
            replace,
            replace_rules,
        )
    }

    /// The calls can be made, each of them where what comes before it can end so that it
    /// is due.
    pub open spec fn takes<
        F: FnMut(VpnKind, &str, &[String]) -> Result<Vec<u32>, String>,
        R: FnMut(&[ManagedRoute], &[ManagedRoute]) -> Result<(), String>,
        D: FnMut(&[ManagedDnsRule]) -> Result<bool, String>,
    >(self, resolve: F, replace: R, replace_rules: D) -> bool {
        &&& physical_takes(resolve, self.profiles, self.adapters, self.gateway)
        &&& forall|answers: Seq<AnswerView>|
            #[trigger] physical_asked(
                resolve,
                self.profiles,
                self.adapters,
                self.gateway,
                answers,
            ) ==> (self.prepared(answers) matches Ok(prepared) ==> policy_takes(
                self.current,
                prepared,
                replace,
                replace_rules,
            ))
    }

    /// How switching a profile ends, given what the calls give. The configuration has
    /// the profile switched only where the policy is in force.
    pub open spec fn toggled(
        self,
        vpn: VpnKind,
        enabled: bool,
        answers: Seq<AnswerView>,
        replies: ApplyReplies,
    ) -> ToggleView {
        let next = self.switched(vpn, enabled);
        if profile_of(self.profiles, vpn) is None {
            ToggleView::Failed {
                attempted_enabled: enabled,
                error: "找不到 "@ + vpn.text() + " 設定；開關未變更。"@,
            }
        } else {
            match next.prepared(answers) {
                Err(reasons) => ToggleView::Failed {
                    attempted_enabled: enabled,
                    error: joined(reasons, "\n"@) + "\n開關已恢復原狀。"@,
                },
                Ok(prepared) => match policy_outcome(self.current, prepared, replies) {
                    Err(reason) => ToggleView::Failed {
                        attempted_enabled: enabled,
                        error: reason + "\n開關已恢復原狀。"@,
                    },
                    Ok(_) => ToggleView::Applied {
                        vpn,
                        enabled,
                        profiles: next.profiles,
                        routes: prepared.routes,
                        warnings: prepared.warnings,
                    },
                },
            }
        }
    }

    /// How resolving the names again ends, given what the calls give.
    pub open spec fn resolved_again(
        self,
        answers: Seq<AnswerView>,
        replies: ApplyReplies,
    ) -> DnsRefreshView {
        match self.prepared(answers) {
            Err(reasons) => DnsRefreshView::Failed(
                "自動重新解析網域失敗；目前路由保持不變：\n"@ + joined(reasons, "\n"@),
            ),
            Ok(prepared) => match policy_outcome(self.current, prepared, replies) {
                Err(reason) => DnsRefreshView::Failed(
                    "自動更新 DNS 路由失敗，目前路由保持不變："@ + reason,
                ),
                Ok(changed) => if changed {
                    DnsRefreshView::Updated {
                        routes: prepared.routes,
                        warnings: prepared.warnings,
                    }
                } else {
                    DnsRefreshView::Unchanged
                },
            },
        }
    }
}

/// What an operation starts from.
pub open spec fn policy_view(
    current_routes: &Vec<ManagedRoute>,
    config: SplitterConfig,
    adapters: &Vec<NetworkAdapter>,
    internet_gateway: Option<InternetGateway>,
) -> PolicyView {
    PolicyView {
        current: current_routes.deep_view(),
        profiles: config.profiles@,
        adapters: adapters.deep_view(),
        gateway: internet_gateway.deep_view(),
    }
}

/// Switches a profile: prepares the policy of the configuration with the profile
/// switched, and puts it into force.
pub fn run_toggle<
    F: FnMut(VpnKind, &str, &[String]) -> Result<Vec<u32>, String>,
    R: FnMut(&[ManagedRoute], &[ManagedRoute]) -> Result<(), String>,
    D: FnMut(&[ManagedDnsRule]) -> Result<bool, String>,
>(
    current_routes: Vec<ManagedRoute>,
    config: SplitterConfig,
    adapters: Vec<NetworkAdapter>,
    internet_gateway: Option<InternetGateway>,
    vpn: VpnKind,
    enabled: bool,
    resolve_hostname: F,
    replace_routes: R,
    replace_dns_policy: D,
) -> (outcome: ToggleOutcome)
    requires
        profile_of(config.profiles@, vpn) is Some ==> policy_view(
            &current_routes,
            config,
            &adapters,
            internet_gateway,
        ).switched(vpn, enabled).takes(resolve_hostname, replace_routes, replace_dns_policy),
    ensures
        exists|answers: Seq<AnswerView>, replies: ApplyReplies| #[trigger]
            toggle_explained(
                policy_view(&current_routes, config, &adapters, internet_gateway),
                vpn,
                enabled,
                answers,
                replies,
                resolve_hostname,
                replace_routes,
                replace_dns_policy,
                outcome.deep_view(),
            ),
{
    let ghost view = policy_view(&current_routes, config, &adapters, internet_gateway);
    let ghost resolve = resolve_hostname;
    let ghost replace = replace_routes;
    let ghost replace_rules = replace_dns_policy;
    let ghost none = ApplyReplies { routes: Ok(()), rules: Ok(false), rollback: Ok(()) };
    let mut next_config: SplitterConfig = config;
    if next_config.profile(vpn).is_none() {
        let mut error: String = "找不到 ".to_owned();
        error.append(vpn.name());
        error.append(" 設定；開關未變更。");
        let outcome: ToggleOutcome = ToggleOutcome::Failed { attempted_enabled: enabled, error };
        assert(toggle_explained(
            view,
            vpn,
            enabled,
            Seq::empty(),
            none,
            resolve,
            replace,
            replace_rules,
            outcome.deep_view(),
        ));
        return outcome;
    }
    set_enabled(&mut next_config, vpn, enabled);
    let ghost next = view.switched(vpn, enabled);
    let result: Result<PreparedRoutes, Vec<String>> = prepare_all_enabled_routes_with_resolver(
        &next_config,
        adapters_slice(&adapters),
        internet_gateway.as_ref(),
        resolve_hostname,
    );
    let ghost answers = choose|answers: Seq<AnswerView>|
        #[trigger] physical_asked(
            resolve,
            next.profiles,
            next.adapters,
            next.gateway,
            answers,
        ) && prepared_result(result) == physical_prepared(
            next.profiles,
            next.adapters,
            next.gateway,
            answers,
        );
    assert(prepared_result(result) == next.prepared(answers));
    let prepared: PreparedRoutes = match result {
        Ok(prepared) => prepared,
        Err(reasons) => {
            let mut error: String = join_texts(&reasons, "\n");
            error.append("\n開關已恢復原狀。");
            let outcome: ToggleOutcome = ToggleOutcome::Failed {
                attempted_enabled: enabled,
                error,
            };
            assert(toggle_explained(
                view,
                vpn,
                enabled,
                answers,
                none,
                resolve,
                replace,
                replace_rules,
                outcome.deep_view(),
            ));
            return outcome;
        },
    };
    let applied: Result<bool, String> = apply_prepared_policy(
        routes_slice(&current_routes),
        &prepared,
        replace_routes,
        replace_dns_policy,
    );
    let ghost replies = choose|replies: ApplyReplies|
        #[trigger] policy_possible(
            view.current,
            prepared.deep_view(),
            replies,
            replace,
            replace_rules,
        ) && rules_replaced_view(applied) == policy_outcome(
            view.current,
            prepared.deep_view(),
            replies,
        );
    let outcome: ToggleOutcome = match applied {
        Ok(_) => ToggleOutcome::Applied {
            vpn,
            enabled,
            config: next_config,
            routes: prepared.routes,
            warnings: prepared.warnings,
        },
        Err(reason) => {
            let mut error: String = reason;
            error.append("\n開關已恢復原狀。");
            ToggleOutcome::Failed { attempted_enabled: enabled, error }
        },
    };
    assert(toggle_explained(
        view,
        vpn,
        enabled,
        answers,
        replies,
        resolve,
        replace,
        replace_rules,
        outcome.deep_view(),
    ));
    outcome
}

/// The outcome of switching a profile is the one that the answers and the replies give,
/// and these are such as the calls can give.
pub open spec fn toggle_explained<
    F: FnMut(VpnKind, &str, &[String]) -> Result<Vec<u32>, String>,
    R: FnMut(&[ManagedRoute], &[ManagedRoute]) -> Result<(), String>,
    D: FnMut(&[ManagedDnsRule]) -> Result<bool, String>,
>(
    view: PolicyView,
    vpn: VpnKind,
    enabled: bool,
    answers: Seq<AnswerView>,
    replies: ApplyReplies,
    resolve: F,
    replace: R,
    replace_rules: D,
    outcome: ToggleView,
) -> bool {
    &&& profile_of(view.profiles, vpn) is Some ==> view.switched(vpn, enabled).possible(
        answers,
        replies,
        resolve,
        replace,
        replace_rules,
    )
    &&& outcome == view.toggled(vpn, enabled, answers, replies)
}

/// What came of resolving names again.
#[derive(Debug)]
pub enum DnsRefreshOutcome {
    Unchanged,
    Updated { routes: Vec<ManagedRoute>, warnings: Vec<String> },
    Failed(String),
}

/// What a `DnsRefreshOutcome` stands for.
#[verifier::ext_equal]
pub ghost enum DnsRefreshView {
    Unchanged,
    Updated { routes: Seq<RouteView>, warnings: Seq<Seq<char>> },
    Failed(Seq<char>),
}

impl DeepView for DnsRefreshOutcome {
    type V = DnsRefreshView;

    open spec fn deep_view(&self) -> DnsRefreshView {
        match self {
            DnsRefreshOutcome::Unchanged => DnsRefreshView::Unchanged,
            DnsRefreshOutcome::Updated { routes, warnings } => DnsRefreshView::Updated {
                routes: routes.deep_view(),
                warnings: warnings.deep_view(),
            },
            DnsRefreshOutcome::Failed(reason) => DnsRefreshView::Failed(reason@),
        }
    }
}

/// Resolves the names again, and puts into force what has changed.
pub fn run_dns_refresh<
    F: FnMut(VpnKind, &str, &[String]) -> Result<Vec<u32>, String>,
    R: FnMut(&[ManagedRoute], &[ManagedRoute]) -> Result<(), String>,
    D: FnMut(&[ManagedDnsRule]) -> Result<bool, String>,
>(
    current_routes: Vec<ManagedRoute>,
    config: SplitterConfig,
    adapters: Vec<NetworkAdapter>,
    internet_gateway: Option<InternetGateway>,
    resolve_hostname: F,
    replace_routes: R,
    replace_dns_policy: D,
) -> (outcome: DnsRefreshOutcome)
    requires
        policy_view(&current_routes, config, &adapters, internet_gateway).takes(
            resolve_hostname,
            replace_routes,
            replace_dns_policy,
        ),
    ensures
        exists|answers: Seq<AnswerView>, replies: ApplyReplies|
            #[trigger] policy_view(
                &current_routes,
                config,
                &adapters,
                internet_gateway,
            ).possible(answers, replies, resolve_hostname, replace_routes, replace_dns_policy)
                && outcome.deep_view() == policy_view(
                &current_routes,
                config,
                &adapters,
                internet_gateway,
            ).resolved_again(answers, replies),
{
    let ghost view = policy_view(&current_routes, config, &adapters, internet_gateway);
    let ghost resolve = resolve_hostname;
    let ghost replace = replace_routes;
    let ghost replace_rules = replace_dns_policy;
    let ghost none = ApplyReplies { routes: Ok(()), rules: Ok(false), rollback: Ok(()) };
    let result: Result<PreparedRoutes, Vec<String>> = prepare_all_enabled_routes_with_resolver(
        &config,
        adapters_slice(&adapters),
        internet_gateway.as_ref(),
        resolve_hostname,
    );
    let ghost answers = choose|answers: Seq<AnswerView>|
        #[trigger] physical_asked(
            resolve,
            view.profiles,
            view.adapters,
            view.gateway,
            answers,
        ) && prepared_result(result) == physical_prepared(
            view.profiles,
            view.adapters,
            view.gateway,
            answers,
        );
    assert(prepared_result(result) == view.prepared(answers));
    let prepared: PreparedRoutes = match result {
        Ok(prepared) => prepared,
        Err(reasons) => {
            let mut message: String = "自動重新解析網域失敗；目前路由保持不變：\n".to_owned();
            message.append(join_texts(&reasons, "\n").as_str());
            assert(view.possible(answers, none, resolve, replace, replace_rules));
            return DnsRefreshOutcome::Failed(message);
        },
    };
    let applied: Result<bool, String> = apply_prepared_policy(
        routes_slice(&current_routes),
        &prepared,
        replace_routes,
        replace_dns_policy,
    );
    let ghost replies = choose|replies: ApplyReplies|
        #[trigger] policy_possible(
            view.current,
            prepared.deep_view(),
            replies,
            replace,
            replace_rules,
        ) && rules_replaced_view(applied) == policy_outcome(
            view.current,
            prepared.deep_view(),
            replies,
        );
    assert(view.possible(answers, replies, resolve, replace, replace_rules));
    match applied {
        Ok(changed) => {
            if changed {
                DnsRefreshOutcome::Updated { routes: prepared.routes, warnings: prepared.warnings }
            } else {
                DnsRefreshOutcome::Unchanged
            }
        },
        Err(reason) => {
            let mut message: String = "自動更新 DNS 路由失敗，目前路由保持不變：".to_owned();
            message.append(reason.as_str());
            DnsRefreshOutcome::Failed(message)
        },
    }
}

/// What looking for interfaces and for the ordinary network found.
#[verifier::ext_equal]
pub ghost struct Discovery {
    pub adapters: Result<Seq<AdapterView>, Seq<char>>,
    pub gateway: Result<Option<GatewayView>, Seq<char>>,
}

/// What the findings stand for.
pub open spec fn discovery_view(
    found: (Result<Vec<NetworkAdapter>, String>, Result<Option<InternetGateway>, String>),
) -> Discovery {
    Discovery { adapters: adapters_result(found.0), gateway: gateway_result(found.1) }
}

/// Interfaces have to be looked for: when it is time, or when the routes in force are
/// not those that are managed.
pub open spec fn looks_for_interfaces(
    existing: Result<Seq<RouteView>, Seq<char>>,
    current: Seq<RouteView>,
    refresh: bool,
) -> bool {
    existing matches Ok(found) && (refresh || !matching(found, current))
}

/// How a check of the routes in force ends, given what the calls give.
pub open spec fn health_run_outcome(
    current: Seq<RouteView>,
    profiles: Seq<VpnProfile>,
    refresh: bool,
    existing: Result<Seq<RouteView>, Seq<char>>,
    discovery: Discovery,
    replies: HealthReplies,
) -> HealthOutcomeView {
    match existing {
        Err(reason) => HealthOutcomeView::Failed(
            "無法核對 ActiveStore 分流路由；將稍後重試："@ + reason,
        ),
        Ok(found) => if !looks_for_interfaces(existing, current, refresh) {
            HealthOutcomeView::Healthy
        } else {
            match (discovery.adapters, discovery.gateway) {
                (Err(reason), _) => HealthOutcomeView::Failed(
                    "自動修復前無法重新偵測 VPN 介面："@ + reason,
                ),
                (_, Err(reason)) => HealthOutcomeView::Failed(
                    "自動修復前無法重新偵測一般網路閘道："@ + reason,
                ),
                (Ok(adapters), Ok(gateway)) => health_outcome(
                    desired_physical(current, profiles, adapters, gateway),
                    found,
                    adapters,
                    gateway,
                    replies,
                ),
            }
        },
    }
}

/// A call that looks for interfaces can find this.
pub open spec fn discovers<
    F: FnOnce() -> (Result<Vec<NetworkAdapter>, String>, Result<Option<InternetGateway>, String>),
>(discover: F, discovery: Discovery) -> bool {
    exists|found: (Result<Vec<NetworkAdapter>, String>, Result<Option<InternetGateway>, String>)|
        discovery_view(found) == discovery && #[trigger] call_ensures(discover, (), found)
}

/// The findings and the replies are such as the calls that are made can give.
pub open spec fn health_run_possible<
    F: FnOnce() -> (Result<Vec<NetworkAdapter>, String>, Result<Option<InternetGateway>, String>),
    R: FnMut(&[ManagedRoute], &[ManagedRoute]) -> Result<(), String>,
    D: FnMut(&[ManagedDnsRule]) -> Result<bool, String>,
>(
    current: Seq<RouteView>,
    profiles: Seq<VpnProfile>,
    refresh: bool,
    existing: Result<Seq<RouteView>, Seq<char>>,
    discovery: Discovery,
    replies: HealthReplies,
    discover: F,
    apply: R,
    apply_dns: D,
) -> bool {
    looks_for_interfaces(existing, current, refresh) ==> {
        &&& discovers(discover, discovery)
        &&& discovery.adapters is Ok && discovery.gateway is Ok ==> health_possible(
            desired_physical(
                current,
                profiles,
                discovery.adapters->Ok_0,
                discovery.gateway->Ok_0,
            ),
            existing->Ok_0,
            replies,
            apply,
            apply_dns,
        )
    }
}

/// The calls of a check of the routes in force can be made, each of them where what comes
/// before it can end so that it is due.
pub open spec fn health_run_takes<
    F: FnOnce() -> (Result<Vec<NetworkAdapter>, String>, Result<Option<InternetGateway>, String>),
    R: FnMut(&[ManagedRoute], &[ManagedRoute]) -> Result<(), String>,
    D: FnMut(&[ManagedDnsRule]) -> Result<bool, String>,
>(
    current: Seq<RouteView>,
    profiles: Seq<VpnProfile>,
    refresh: bool,
    existing: Result<Seq<RouteView>, Seq<char>>,
    discover: F,
    apply: R,
    apply_dns: D,
) -> bool {
    looks_for_interfaces(existing, current, refresh) ==> {
        &&& call_requires(discover, ())
        &&& forall|discovery: Discovery|
            #[trigger] discovers(discover, discovery) && discovery.adapters is Ok
                && discovery.gateway is Ok ==> health_takes(
                desired_physical(
                    current,
                    profiles,
                    discovery.adapters->Ok_0,
                    discovery.gateway->Ok_0,
                ),
                existing->Ok_0,
                apply,
                apply_dns,
            )
    }
}

/// Checks the routes in force against those that are managed. Where they differ, or
/// when it is time, looks for interfaces and repairs what has to be repaired.
pub fn run_route_health<
    F: FnOnce() -> (Result<Vec<NetworkAdapter>, String>, Result<Option<InternetGateway>, String>),
    R: FnMut(&[ManagedRoute], &[ManagedRoute]) -> Result<(), String>,
    D: FnMut(&[ManagedDnsRule]) -> Result<bool, String>,
>(
    current_routes: Vec<ManagedRoute>,
    config: SplitterConfig,
    refresh_endpoints: bool,
    existing_routes: Result<Vec<ManagedRoute>, String>,
    discover: F,
    apply: R,
    apply_dns: D,
) -> (outcome: RouteHealthOutcome)
    requires
        health_run_takes(
            current_routes.deep_view(),
            config.profiles@,
            refresh_endpoints,
            routes_result(existing_routes),
            discover,
            apply,
            apply_dns,
        ),
    ensures
        exists|discovery: Discovery, replies: HealthReplies|
            #[trigger] health_run_possible(
                current_routes.deep_view(),
                config.profiles@,
                refresh_endpoints,
                routes_result(existing_routes),
                discovery,
                replies,
                discover,
                apply,
                apply_dns,
            ) && outcome.deep_view() == health_run_outcome(
                current_routes.deep_view(),
                config.profiles@,
                refresh_endpoints,
                routes_result(existing_routes),
                discovery,
                replies,
            ),
{
    let ghost current = current_routes.deep_view();
    let ghost profiles = config.profiles@;
    let ghost existing = routes_result(existing_routes);
    let ghost apply_routes = apply;
    let ghost apply_rules = apply_dns;
    let ghost find = discover;
    let ghost none = HealthReplies { routes: Ok(()), rules: Ok(false) };
    let ghost nothing = Discovery { adapters: Ok(Seq::empty()), gateway: Ok(None) };
    let found: Vec<ManagedRoute> = match existing_routes {
        Ok(found) => found,
        Err(reason) => {
            let mut message: String = "無法核對 ActiveStore 分流路由；將稍後重試：".to_owned();
            message.append(reason.as_str());
            assert(health_run_possible(
                current,
                profiles,
                refresh_endpoints,
                existing,
                nothing,
                none,
                find,
                apply_routes,
                apply_rules,
            ));
            return RouteHealthOutcome::Failed(message);
        },
    };
    if !refresh_endpoints && routes_match(routes_slice(&found), routes_slice(&current_routes)) {
        assert(health_run_possible(
            current,
            profiles,
            refresh_endpoints,
            existing,
            nothing,
            none,
            find,
            apply_routes,
            apply_rules,
        ));
        return RouteHealthOutcome::Healthy;
    }
    let findings: (
        Result<Vec<NetworkAdapter>, String>,
        Result<Option<InternetGateway>, String>,
    ) = discover();
    assert(call_ensures(find, (), findings));
    let ghost discovery = discovery_view(findings);
    assert(discovers(find, discovery));
    let adapters: Vec<NetworkAdapter> = match findings.0 {
        Ok(adapters) => adapters,
        Err(reason) => {
            let mut message: String = "自動修復前無法重新偵測 VPN 介面：".to_owned();
            message.append(reason.as_str());
            assert(health_run_possible(
                current,
                profiles,
                refresh_endpoints,
                existing,
                discovery,
                none,
                find,
                apply_routes,
                apply_rules,
            ));
            return RouteHealthOutcome::Failed(message);
        },
    };
    let internet_gateway: Option<InternetGateway> = match findings.1 {
        Ok(gateway) => gateway,
        Err(reason) => {
            let mut message: String = "自動修復前無法重新偵測一般網路閘道：".to_owned();
            message.append(reason.as_str());
            assert(health_run_possible(
                current,
                profiles,
                refresh_endpoints,
                existing,
                discovery,
                none,
                find,
                apply_routes,
                apply_rules,
            ));
            return RouteHealthOutcome::Failed(message);
        },
    };
    let ghost wanted = desired_physical(
        current,
        profiles,
        adapters.deep_view(),
        internet_gateway.deep_view(),
    );
    let outcome: RouteHealthOutcome = evaluate_route_health_with(
        current_routes,
        config,
        found,
        adapters,
        internet_gateway,
        apply,
        apply_dns,
    );
    proof {
        let replies = choose|replies: HealthReplies|
            #[trigger] health_possible(
                wanted,
                existing->Ok_0,
                replies,
                apply_routes,
                apply_rules,
            ) && outcome.deep_view() == health_outcome(
                wanted,
                existing->Ok_0,
                discovery.adapters->Ok_0,
                discovery.gateway->Ok_0,
                replies,
            );
        assert(health_run_possible(
            current,
            profiles,
            refresh_endpoints,
            existing,
            discovery,
            replies,
            find,
            apply_routes,
            apply_rules,
        ));
    }
    outcome
}

/// What an operation in the background came to.
#[derive(Debug)]
pub enum OperationResult {
    Refresh(RefreshOutcome),
    Toggle(ToggleOutcome),
    RefreshDns(DnsRefreshOutcome),
    RouteHealth(RouteHealthOutcome),
}

}
