//! Putting a configuration into force step by step, and taking the steps back when one
//! of them fails.

use vstd::prelude::*;

use crate::dns_plan::{
    all_server_routes, dns_plan, servers_of_plan, DnsPlan, DnsPlanView,
};
use crate::domain::{profile_of, SplitterConfig, VpnKind, VpnProfile};
use crate::fallback::{
    chosen_fallback, fallback_view, gateway_view, manages_dns, select_internet_fallback,
    should_manage_dns_policy, FallbackView, InternetFallback,
};
use crate::policy::{
    all_validated_routes, append_dns_policy, append_internet_bypass_routes,
    no_conflicts, prepare_all_validated_routes, routes_for_policy_transition,
    routes_with_dns_bootstrap, staged, transition, validate_dns_route_target_conflicts,
    with_bypass, with_dns_policy,
};
use crate::preparation::{prepared_result, PreparedRoutes, PreparedView};
use crate::routes::{matching, routes_match, routes_slice};
use crate::selection::{
    all_selected, any_enabled, check_all_selected, enabled_full_tunnel_vpns, full_tunnel_vpns,
    needs_periodic_route_refresh,
};
use crate::text::{join_texts, joined};
use crate::validation::{
    addresses_view, dns_lookups, questions_of, read_config, targets_of, validate_targets, verdict,
    AnswerView, DnsAnswer, ErrorView, HostOwner, OwnerView, ProfileTargets, ValidatedProfile,
    ValidationError,
};
use crate::validation_laws::lemma_validated_profiles_exist;
use crate::windows::{
    AdapterView, DnsRuleView, GatewayView, InternetGateway, ManagedDnsRule, ManagedRoute,
    NativeRoute, NativeRouteView, NetworkAdapter, RouteView,
};

verus! {

/// The messages of the errors.
pub open spec fn messages(errors: Seq<ErrorView>) -> Seq<Seq<char>> {
    Seq::new(errors.len(), |i: int| errors[i].message)
}

/// The messages of the errors.
pub fn error_messages(errors: Vec<ValidationError>) -> (texts: Vec<String>)
    ensures
        texts.deep_view() == messages(errors.deep_view()),
{
    let ghost all = messages(errors.deep_view());
    let mut texts: Vec<String> = Vec::new();
    assert(texts.deep_view() =~= all.take(0));
    for i in 0..errors.len()
        invariant
            all == messages(errors.deep_view()),
            texts.deep_view() == all.take(i as int),
    {
        let ghost before = texts.deep_view();
        texts.push(errors[i].message.clone());
        assert(texts.deep_view() =~= before.push(all[i as int]));
        assert(texts.deep_view() =~= all.take(i + 1));
    }
    assert(all.take(errors.len() as int) =~= all);
    texts
}

/// A call of the resolver about the domain, through the name servers, can end in this
/// answer.
pub open spec fn resolver_replies<F: FnMut(VpnKind, &str, &[String]) -> Result<Vec<u32>, String>>(
    resolver: F,
    servers: Seq<Seq<char>>,
    answer: AnswerView,
) -> bool {
    exists|hostname: &str, list: &[String], reply: Result<Vec<u32>, String>|
        hostname@ == answer.hostname && list.deep_view() == servers && addresses_view(reply)
            == answer.addresses && #[trigger] call_ensures(
            resolver,
            (answer.vpn, hostname, list),
            reply,
        )
}

/// The answer is the resolver's, asked through the name servers that the plan has for
/// the VPN; where the plan has none, that is the answer.
pub open spec fn planned_answer<F: FnMut(VpnKind, &str, &[String]) -> Result<Vec<u32>, String>>(
    resolver: F,
    plan: DnsPlanView,
    answer: AnswerView,
) -> bool {
    match servers_of_plan(plan, answer.vpn) {
        Ok(servers) => resolver_replies(resolver, servers, answer),
        Err(reason) => answer.addresses == Err::<Seq<u32>, Seq<char>>(reason),
    }
}

/// The answers are those to the questions, in their order.
pub open spec fn planned_answers<F: FnMut(VpnKind, &str, &[String]) -> Result<Vec<u32>, String>>(
    resolver: F,
    plan: DnsPlanView,
    questions: Seq<OwnerView>,
    answers: Seq<AnswerView>,
) -> bool {
    &&& answers.len() == questions.len()
    &&& forall|i: int|
        0 <= i < answers.len() ==> {
            &&& (#[trigger] answers[i]).vpn == questions[i].vpn
            &&& answers[i].hostname == questions[i].hostname
            &&& planned_answer(resolver, plan, answers[i])
        }
}

/// The resolver can be asked the question through the name servers.
pub open spec fn takes_query<F: FnMut(VpnKind, &str, &[String]) -> Result<Vec<u32>, String>>(
    resolver: F,
    servers: Seq<Seq<char>>,
    question: OwnerView,
) -> bool {
    forall|hostname: &str, list: &[String]|
        hostname@ == question.hostname && list.deep_view() == servers ==> #[trigger] call_requires(
            resolver,
            (question.vpn, hostname, list),
        )
}

/// The resolver can be asked the question through the name servers that the plan has for
/// the VPN, if it has any.
pub open spec fn takes_planned<F: FnMut(VpnKind, &str, &[String]) -> Result<Vec<u32>, String>>(
    resolver: F,
    plan: DnsPlanView,
    question: OwnerView,
) -> bool {
    servers_of_plan(plan, question.vpn) matches Ok(servers) ==> takes_query(
        resolver,
        servers,
        question,
    )
}

/// The resolver can be asked each of the questions, through the name servers of the plan.
pub open spec fn takes_all_planned<
    F: FnMut(VpnKind, &str, &[String]) -> Result<Vec<u32>, String>,
>(resolver: F, plan: DnsPlanView, questions: Seq<OwnerView>) -> bool {
    forall|i: int|
        0 <= i < questions.len() ==> takes_planned(resolver, plan, #[trigger] questions[i])
}

/// Puts the questions to the resolver, each through the name servers that the plan has
/// for its VPN, and nothing else.
fn resolve_through_plan<F: FnMut(VpnKind, &str, &[String]) -> Result<Vec<u32>, String>>(
    questions: &Vec<HostOwner>,
    plan: &DnsPlan,
    mut resolve_hostname: F,
) -> (answers: Vec<DnsAnswer>)
    requires
        takes_all_planned(resolve_hostname, plan.deep_view(), questions.deep_view()),
    ensures
        planned_answers(
            resolve_hostname,
            plan.deep_view(),
            questions.deep_view(),
            answers.deep_view(),
        ),
{
    let mut answers: Vec<DnsAnswer> = Vec::new();
    let ghost asked = questions.deep_view();
    let ghost resolver = resolve_hostname;
    for i in 0..questions.len()
        invariant
            asked == questions.deep_view(),
            resolve_hostname == resolver,
            takes_all_planned(resolver, plan.deep_view(), asked),
            planned_answers(
                resolver,
                plan.deep_view(),
                asked.take(i as int),
                answers.deep_view(),
            ),
    {
        let ghost before = answers.deep_view();
        let vpn: VpnKind = questions[i].vpn;
        let addresses: Result<Vec<u32>, String> = match plan.server_strings(vpn) {
            Ok(servers) => {
                let hostname: &str = questions[i].hostname.as_str();
                let list: &[String] = servers.as_slice();
                assert(list.deep_view() =~= servers.deep_view());
                assert(takes_planned(resolver, plan.deep_view(), asked[i as int]));
                let reply: Result<Vec<u32>, String> = resolve_hostname(vpn, hostname, list);
                assert(call_ensures(resolver, (vpn, hostname, list), reply));
                reply
            },
            Err(reason) => Err(reason),
        };
        let answer: DnsAnswer = DnsAnswer {
            vpn,
            hostname: questions[i].hostname.clone(),
            addresses,
        };
        let ghost added = answer.deep_view();
        assert(planned_answer(resolver, plan.deep_view(), added));
        answers.push(answer);
        assert(answers.deep_view() =~= before.push(added));
    }
    assert(asked.take(questions.len() as int) =~= asked);
    answers
}

/// The routes and the rules for names of a configuration, given its plan for names and
/// the answers of the name servers.
pub open spec fn prepared_from_plan(
    profiles: Seq<VpnProfile>,
    adapters: Seq<AdapterView>,
    native: Seq<NativeRouteView>,
    managed: Seq<RouteView>,
    full_tunnels: Seq<VpnKind>,
    fallback: Option<FallbackView>,
    manage: bool,
    plan: DnsPlanView,
    answers: Seq<AnswerView>,
) -> Result<PreparedView, Seq<Seq<char>>> {
    match verdict(targets_of(profiles), answers) {
        Err(errors) => Err(messages(errors)),
        Ok(validated) => match all_validated_routes(profiles, validated, adapters) {
            Err(reasons) => Err(reasons),
            Ok(routes) => match with_bypass(
                PreparedView { routes, ..PreparedView::none() },
                profiles,
                adapters,
                full_tunnels,
                fallback,
                native,
                managed,
            ) {
                Err(reasons) => Err(reasons),
                Ok(prepared) => if manage {
                    with_dns_policy(prepared, fallback->0.label(), plan)
                } else {
                    Ok(prepared)
                },
            },
        },
    }
}

/// Prepares the routes and the rules for names of a configuration, given the answers
/// of the name servers.
pub fn prepare_routes_with_answers(
    config: &SplitterConfig,
    adapters: &[NetworkAdapter],
    native_routes: &[NativeRoute],
    managed_routes: &[ManagedRoute],
    full_tunnel_vpns: &Vec<VpnKind>,
    fallback: Option<InternetFallback<'_>>,
    manage_dns: bool,
    dns_plan: &DnsPlan,
    answers: &Vec<DnsAnswer>,
) -> (result: Result<PreparedRoutes, Vec<String>>)
    requires
        manage_dns ==> fallback is Some,
    ensures
        prepared_result(result) == prepared_from_plan(
            config.profiles@,
            adapters.deep_view(),
            native_routes.deep_view(),
            managed_routes.deep_view(),
            full_tunnel_vpns@,
            fallback_view(fallback),
            manage_dns,
            dns_plan.deep_view(),
            answers.deep_view(),
        ),
{
    let targets: Vec<ProfileTargets> = read_config(config);
    let validated: Vec<ValidatedProfile> = match validate_targets(&targets, answers) {
        Ok(validated) => validated,
        Err(errors) => {
            return Err(error_messages(errors));
        },
    };
    proof {
        lemma_validated_profiles_exist(config.profiles@, answers.deep_view());
        let views = validated.deep_view();
        assert forall|i: int| 0 <= i < validated.len() implies profile_of(
            config.profiles@,
            (#[trigger] validated@[i]).vpn,
        ) is Some by {
            assert(views[i].vpn == validated@[i].vpn);
        }
    }
    let routes: Vec<ManagedRoute> = match prepare_all_validated_routes(
        config,
        &validated,
        adapters,
    ) {
        Ok(routes) => routes,
        Err(reasons) => {
            return Err(reasons);
        },
    };
    let mut prepared: PreparedRoutes = PreparedRoutes::default();
    prepared.routes = routes;
    match append_internet_bypass_routes(
        prepared,
        config,
        adapters,
        full_tunnel_vpns,
        fallback,
        native_routes,
        managed_routes,
    ) {
        Ok(with_bypass_routes) => {
            if manage_dns {
                match fallback {
                    Some(path) => append_dns_policy(with_bypass_routes, path, dns_plan),
                    None => Ok(with_bypass_routes),
                }
            } else {
                Ok(with_bypass_routes)
            }
        },
        Err(reasons) => Err(reasons),
    }
}

/// Prepares the routes and the rules for names of a configuration. The resolver is
/// asked about the domains of the enabled profiles, and about nothing else.
pub fn prepare_enabled_routes_from_dns_plan<
    F: FnMut(VpnKind, &str, &[String]) -> Result<Vec<u32>, String>,
>(
    config: &SplitterConfig,
    adapters: &[NetworkAdapter],
    native_routes: &[NativeRoute],
    managed_routes: &[ManagedRoute],
    full_tunnel_vpns: &Vec<VpnKind>,
    fallback: Option<InternetFallback<'_>>,
    manage_dns: bool,
    dns_plan: &DnsPlan,
    resolve_hostname: F,
) -> (result: Result<PreparedRoutes, Vec<String>>)
    requires
        manage_dns ==> fallback is Some,
        takes_all_planned(
            resolve_hostname,
            dns_plan.deep_view(),
            questions_of(targets_of(config.profiles@)),
        ),
    ensures
        exists|answers: Seq<AnswerView>|
            #[trigger] planned_answers(
                resolve_hostname,
                dns_plan.deep_view(),
                questions_of(targets_of(config.profiles@)),
                answers,
            ) && prepared_result(result) == prepared_from_plan(
                config.profiles@,
                adapters.deep_view(),
                native_routes.deep_view(),
                managed_routes.deep_view(),
                full_tunnel_vpns@,
                fallback_view(fallback),
                manage_dns,
                dns_plan.deep_view(),
                answers,
            ),
{
    let questions: Vec<HostOwner> = dns_lookups(&read_config(config));
    let answers: Vec<DnsAnswer> = resolve_through_plan(&questions, dns_plan, resolve_hostname);
    prepare_routes_with_answers(
        config,
        adapters,
        native_routes,
        managed_routes,
        full_tunnel_vpns,
        fallback,
        manage_dns,
        dns_plan,
        &answers,
    )
}

/// The outcome of replacing routes, as far as it counts.
pub open spec fn replaced_view(result: Result<(), String>) -> Result<(), Seq<char>> {
    match result {
        Ok(_) => Ok(()),
        Err(reason) => Err(reason@),
    }
}

/// A call that replaces the one list of routes by the other can end like this.
pub open spec fn replaces<F: FnMut(&[ManagedRoute], &[ManagedRoute]) -> Result<(), String>>(
    replace: F,
    from: Seq<RouteView>,
    to: Seq<RouteView>,
    outcome: Result<(), Seq<char>>,
) -> bool {
    exists|before: &[ManagedRoute], after: &[ManagedRoute], result: Result<(), String>|
        before.deep_view() == from && after.deep_view() == to && replaced_view(result) == outcome
            && #[trigger] call_ensures(replace, (before, after), result)
}

/// The one list of routes can be replaced by the other.
pub open spec fn takes_routes<F: FnMut(&[ManagedRoute], &[ManagedRoute]) -> Result<(), String>>(
    replace: F,
    from: Seq<RouteView>,
    to: Seq<RouteView>,
) -> bool {
    forall|before: &[ManagedRoute], after: &[ManagedRoute]|
        before.deep_view() == from && after.deep_view() == to ==> #[trigger] call_requires(
            replace,
            (before, after),
        )
}

/// Replacing the one list of routes by the other can fail.
pub open spec fn can_fail<F: FnMut(&[ManagedRoute], &[ManagedRoute]) -> Result<(), String>>(
    replace: F,
    from: Seq<RouteView>,
    to: Seq<RouteView>,
) -> bool {
    exists|reason: Seq<char>| #[trigger] replaces(replace, from, to, Err(reason))
}

/// The outcome of replacing rules for names, as far as it counts.
pub open spec fn rules_replaced_view(result: Result<bool, String>) -> Result<bool, Seq<char>> {
    match result {
        Ok(changed) => Ok(changed),
        Err(reason) => Err(reason@),
    }
}

/// A call that puts the rules for names into force can end like this.
pub open spec fn replaces_rules<F: FnMut(&[ManagedDnsRule]) -> Result<bool, String>>(
    replace: F,
    rules: Seq<DnsRuleView>,
    outcome: Result<bool, Seq<char>>,
) -> bool {
    exists|list: &[ManagedDnsRule], result: Result<bool, String>|
        list.deep_view() == rules && rules_replaced_view(result) == outcome
            && #[trigger] call_ensures(replace, (list,), result)
}

/// The rules for names can be put into force.
pub open spec fn takes_rules<F: FnMut(&[ManagedDnsRule]) -> Result<bool, String>>(
    replace: F,
    rules: Seq<DnsRuleView>,
) -> bool {
    forall|list: &[ManagedDnsRule]|
        list.deep_view() == rules ==> #[trigger] call_requires(replace, (list,))
}

/// Putting the rules for names into force can succeed.
pub open spec fn rules_can_succeed<F: FnMut(&[ManagedDnsRule]) -> Result<bool, String>>(
    replace: F,
    rules: Seq<DnsRuleView>,
) -> bool {
    exists|changed: bool| #[trigger] replaces_rules(replace, rules, Ok(changed))
}

/// Putting the rules for names into force can fail.
pub open spec fn rules_can_fail<F: FnMut(&[ManagedDnsRule]) -> Result<bool, String>>(
    replace: F,
    rules: Seq<DnsRuleView>,
) -> bool {
    exists|reason: Seq<char>| #[trigger] replaces_rules(replace, rules, Err(reason))
}

/// The reason, and what became of going back from the routes in force to the original
/// ones. Nothing is done where they match.
pub open spec fn rolled_back(
    active: Seq<RouteView>,
    original: Seq<RouteView>,
    reason: Seq<char>,
    outcome: Result<(), Seq<char>>,
) -> Seq<char> {
    if matching(active, original) {
        reason
    } else {
        match outcome {
            Ok(_) => reason + "\n已將 IPv4 路由回復到套用前狀態。"@,
            Err(failure) => reason + "\nIPv4 路由回復也失敗："@ + failure,
        }
    }
}

/// Goes back from the routes in force to the original ones.
pub fn rollback_policy_routes<
    R: FnMut(&[ManagedRoute], &[ManagedRoute]) -> Result<(), String>,
>(
    active_routes: &[ManagedRoute],
    original_routes: &[ManagedRoute],
    mut replace_routes: R,
    error: String,
) -> (message: String)
    requires
        !matching(active_routes.deep_view(), original_routes.deep_view()) ==> takes_routes(
            replace_routes,
            active_routes.deep_view(),
            original_routes.deep_view(),
        ),
    ensures
        exists|outcome: Result<(), Seq<char>>|
            #![trigger rolled_back(active_routes.deep_view(), original_routes.deep_view(), error@, outcome)]
            {
                &&& matching(active_routes.deep_view(), original_routes.deep_view()) || replaces(
                    replace_routes,
                    active_routes.deep_view(),
                    original_routes.deep_view(),
                    outcome,
                )
                &&& message@ == rolled_back(
                    active_routes.deep_view(),
                    original_routes.deep_view(),
                    error@,
                    outcome,
                )
            },
{
    let ghost replace = replace_routes;
    let ghost from = active_routes.deep_view();
    let ghost to = original_routes.deep_view();
    if routes_match(active_routes, original_routes) {
        assert(error@ == rolled_back(from, to, error@, Ok(())));
        return error;
    }
    let ghost reason = error@;
    let mut message: String = error;
    let result: Result<(), String> = replace_routes(active_routes, original_routes);
    assert(call_ensures(replace, (active_routes, original_routes), result));
    let ghost outcome = replaced_view(result);
    assert(replaces(replace, from, to, outcome));
    match result {
        Ok(_) => {
            message.append("\n已將 IPv4 路由回復到套用前狀態。");
        },
        Err(failure) => {
            message.append("\nIPv4 路由回復也失敗：");
            message.append(failure.as_str());
        },
    }
    assert(message@ == rolled_back(from, to, reason, outcome));
    message
}

/// A policy in force, and whether anything was changed for it.
#[derive(Debug, PartialEq, Eq)]
pub struct AppliedPolicy {
    pub prepared: PreparedRoutes,
    pub changed: bool,
}

/// What an `AppliedPolicy` stands for.
#[verifier::ext_equal]
pub ghost struct AppliedView {
    pub prepared: PreparedView,
    pub changed: bool,
}

impl DeepView for AppliedPolicy {
    type V = AppliedView;

    open spec fn deep_view(&self) -> AppliedView {
        AppliedView { prepared: self.prepared.deep_view(), changed: self.changed }
    }
}

/// What an applied policy, or the reason why there is none, stands for.
pub open spec fn applied_result(result: Result<AppliedPolicy, String>) -> Result<
    AppliedView,
    Seq<char>,
> {
    match result {
        Ok(applied) => Ok(applied.deep_view()),
        Err(reason) => Err(reason@),
    }
}

/// What a transaction starts from.
#[derive(Clone, Copy)]
pub struct PolicyTransactionInput<'a> {
    pub managed_routes: &'a [ManagedRoute],
    pub active_routes: &'a [ManagedRoute],
    pub config: &'a SplitterConfig,
    pub adapters: &'a [NetworkAdapter],
    pub internet_gateway: Option<&'a InternetGateway>,
}

/// What a transaction starts from, with the routes of the system's own.
#[verifier::ext_equal]
pub ghost struct TransactionView {
    pub managed: Seq<RouteView>,
    pub active: Seq<RouteView>,
    pub profiles: Seq<VpnProfile>,
    pub adapters: Seq<AdapterView>,
    pub gateway: Option<GatewayView>,
    pub native: Seq<NativeRouteView>,
}

/// How the calls of a transaction end. What is not called has no bearing on anything.
pub ghost struct Replies {
    pub bootstrap: Result<(), Seq<char>>,
    pub answers: Seq<AnswerView>,
    pub transition: Result<(), Seq<char>>,
    pub rules: Result<bool, Seq<char>>,
    pub cleanup: Result<(), Seq<char>>,
    pub rollback: Result<(), Seq<char>>,
}

impl TransactionView {
    /// The VPNs that take all traffic.
    pub open spec fn full_tunnels(self) -> Seq<VpnKind> {
        full_tunnel_vpns(self.profiles, self.adapters)
    }

    /// The path for everything else.
    pub open spec fn fallback(self) -> Option<FallbackView> {
        chosen_fallback(self.profiles, self.adapters, self.gateway)
    }

    /// The rules for names are managed.
    pub open spec fn manage(self) -> bool {
        manages_dns(self.profiles, self.full_tunnels(), self.fallback())
    }

    /// The plan for names.
    pub open spec fn plan(self) -> Result<DnsPlanView, Seq<Seq<char>>> {
        dns_plan(self.profiles, self.adapters, self.fallback(), self.manage())
    }

    /// The routes before the name servers are asked.
    pub open spec fn staged(self) -> Seq<RouteView> {
        staged(self.managed, all_server_routes(self.plan()->Ok_0.values()))
    }

    /// What is to be put into force.
    pub open spec fn prepared(self, answers: Seq<AnswerView>) -> Result<
        PreparedView,
        Seq<Seq<char>>,
    > {
        prepared_from_plan(
            self.profiles,
            self.adapters,
            self.native,
            self.managed,
            self.full_tunnels(),
            self.fallback(),
            self.manage(),
            self.plan()->Ok_0,
            answers,
        )
    }

    /// The routes while the rules for names are being replaced.
    pub open spec fn transition(self, answers: Seq<AnswerView>) -> Seq<RouteView> {
        transition(self.staged(), self.prepared(answers)->Ok_0.routes)
    }

    /// Nothing has to be called to see that the configuration cannot be put into force.
    pub open spec fn refused(self) -> bool {
        self.plan() is Err || no_conflicts(self.profiles, self.plan()->Ok_0.values()) is Err
    }

    /// The routes to the name servers have to be put into force first.
    pub open spec fn bootstraps(self) -> bool {
        !matching(self.active, self.staged())
    }

    /// The routes to the name servers are in force.
    pub open spec fn is_staged(self, replies: Replies) -> bool {
        !self.refused() && (self.bootstraps() ==> replies.bootstrap is Ok)
    }

    /// The new routes have to be put into force.
    pub open spec fn transits(self, replies: Replies) -> bool {
        !matching(self.staged(), self.transition(replies.answers))
    }

    /// The new routes are in force.
    pub open spec fn has_transited(self, replies: Replies) -> bool {
        self.is_staged(replies) && self.prepared(replies.answers) is Ok && (self.transits(replies)
            ==> replies.transition is Ok)
    }

    /// Routes of the transition have to be taken away in the end.
    pub open spec fn cleans_up(self, replies: Replies) -> bool {
        !matching(self.transition(replies.answers), self.prepared(replies.answers)->Ok_0.routes)
    }

    /// How the transaction ends, given how its calls end.
    pub open spec fn outcome(self, replies: Replies) -> Result<AppliedView, Seq<char>> {
        if self.plan() is Err {
            Err(joined(self.plan()->Err_0, "\n"@))
        } else if self.refused() {
            Err(joined(no_conflicts(self.profiles, self.plan()->Ok_0.values())->Err_0, "\n"@))
        } else if !self.is_staged(replies) {
            Err(replies.bootstrap->Err_0)
        } else if self.prepared(replies.answers) is Err {
            Err(
                rolled_back(
                    self.staged(),
                    self.active,
                    joined(self.prepared(replies.answers)->Err_0, "\n"@),
                    replies.rollback,
                ),
            )
        } else if !self.has_transited(replies) {
            Err(
                rolled_back(
                    self.staged(),
                    self.active,
                    replies.transition->Err_0,
                    replies.rollback,
                ),
            )
        } else {
            let prepared = self.prepared(replies.answers)->Ok_0;
            match replies.rules {
                Err(reason) => Err(
                    rolled_back(
                        self.transition(replies.answers),
                        self.active,
                        reason,
                        replies.rollback,
                    ),
                ),
                Ok(rules_changed) => Ok(
                    AppliedView {
                        prepared: if self.cleans_up(replies) && replies.cleanup is Err {
                            PreparedView {
                                routes: self.transition(replies.answers),
                                ..prepared
                            }.with_warning(
                                "DNS 分流已更新，但舊路由暫時無法清除；健康檢查將自動重試："@
                                    + replies.cleanup->Err_0,
                            )
                        } else {
                            prepared
                        },
                        changed: self.bootstraps() || self.transits(replies) || self.cleans_up(
                            replies,
                        ) || rules_changed,
                    },
                ),
            }
        }
    }

    /// The replies are such as the calls that are made can give.
    pub open spec fn possible<
        F: FnMut(VpnKind, &str, &[String]) -> Result<Vec<u32>, String>,
        R: FnMut(&[ManagedRoute], &[ManagedRoute]) -> Result<(), String>,
        D: FnMut(&[ManagedDnsRule]) -> Result<bool, String>,
    >(self, replies: Replies, resolve: F, replace: R, replace_rules: D) -> bool {
        let prepared = self.prepared(replies.answers);
        let between = self.transition(replies.answers);
        &&& !self.refused() && self.bootstraps() ==> replaces(
            replace,
            self.active,
            self.staged(),
            replies.bootstrap,
        )
        &&& self.is_staged(replies) ==> planned_answers(
            resolve,
            self.plan()->Ok_0,
            questions_of(targets_of(self.profiles)),
            replies.answers,
        )
        &&& self.is_staged(replies) && prepared is Err && !matching(self.staged(), self.active)
            ==> replaces(replace, self.staged(), self.active, replies.rollback)
        &&& self.is_staged(replies) && prepared is Ok && self.transits(replies) ==> replaces(
            replace,
            self.staged(),
            between,
            replies.transition,
        )
        &&& self.is_staged(replies) && prepared is Ok && !self.has_transited(replies) && !matching(
            self.staged(),
            self.active,
        ) ==> replaces(replace, self.staged(), self.active, replies.rollback)
        &&& self.has_transited(replies) ==> replaces_rules(
            replace_rules,
            prepared->Ok_0.dns_rules,
            replies.rules,
        )
        &&& self.has_transited(replies) && replies.rules is Err && !matching(between, self.active)
            ==> replaces(replace, between, self.active, replies.rollback)
        &&& self.has_transited(replies) && replies.rules is Ok && self.cleans_up(replies)
            ==> replaces(replace, between, prepared->Ok_0.routes, replies.cleanup)
    }
}

impl TransactionView {
    /// The routes to the name servers can come into force.
    pub open spec fn can_stage<R: FnMut(&[ManagedRoute], &[ManagedRoute]) -> Result<(), String>>(
        self,
        replace: R,
    ) -> bool {
        !self.refused() && (self.bootstraps() ==> replaces(
            replace,
            self.active,
            self.staged(),
            Ok(()),
        ))
    }

    /// The calls can be made that follow from the answers of the name servers, each of
    /// them where what comes before it can end so that it is due.
    pub open spec fn takes_answers<
        R: FnMut(&[ManagedRoute], &[ManagedRoute]) -> Result<(), String>,
        D: FnMut(&[ManagedDnsRule]) -> Result<bool, String>,
    >(self, answers: Seq<AnswerView>, replace: R, replace_rules: D) -> bool {
        let staged = self.staged();
        let between = self.transition(answers);
        match self.prepared(answers) {
            Err(_) => !matching(staged, self.active) ==> takes_routes(
                replace,
                staged,
                self.active,
            ),
            Ok(prepared) => {
                let transits = !matching(staged, between);
                &&& transits ==> takes_routes(replace, staged, between)
                &&& transits && can_fail(replace, staged, between) && !matching(
                    staged,
                    self.active,
                ) ==> takes_routes(replace, staged, self.active)
                &&& (transits ==> replaces(replace, staged, between, Ok(()))) ==> {
                    let rules = prepared.dns_rules;
                    &&& takes_rules(replace_rules, rules)
                    &&& rules_can_fail(replace_rules, rules) && !matching(between, self.active)
                        ==> takes_routes(replace, between, self.active)
                    &&& rules_can_succeed(replace_rules, rules) && !matching(
                        between,
                        prepared.routes,
                    ) ==> takes_routes(replace, between, prepared.routes)
                }
            },
        }
    }

    /// The calls of the transaction can be made, each of them where what comes before it
    /// can end so that it is due.
    pub open spec fn takes<
        F: FnMut(VpnKind, &str, &[String]) -> Result<Vec<u32>, String>,
        R: FnMut(&[ManagedRoute], &[ManagedRoute]) -> Result<(), String>,
        D: FnMut(&[ManagedDnsRule]) -> Result<bool, String>,
    >(self, resolve: F, replace: R, replace_rules: D) -> bool {
        let questions = questions_of(targets_of(self.profiles));
        &&& !self.refused() && self.bootstraps() ==> takes_routes(
            replace,
            self.active,
            self.staged(),
        )
        &&& self.can_stage(replace) ==> {
            &&& takes_all_planned(resolve, self.plan()->Ok_0, questions)
            &&& forall|answers: Seq<AnswerView>|
                #[trigger] planned_answers(resolve, self.plan()->Ok_0, questions, answers)
                    ==> self.takes_answers(answers, replace, replace_rules)
        }
    }
}

/// What a transaction starts from.
pub open spec fn transaction_view(
    input: PolicyTransactionInput,
    native_routes: &[NativeRoute],
) -> TransactionView {
    TransactionView {
        managed: input.managed_routes.deep_view(),
        active: input.active_routes.deep_view(),
        profiles: input.config.profiles@,
        adapters: input.adapters.deep_view(),
        gateway: gateway_view(input.internet_gateway),
        native: native_routes.deep_view(),
    }
}

/// Puts a configuration into force: first the routes to the name servers, then, once
/// these have answered, the new routes beside the old ones to name servers, then the
/// rules for names, and last what is no longer needed is taken away. Where a step
/// fails, the routes that were in force are put back. Nothing is called for that cannot be
/// due.
pub fn apply_policy_transaction_with_native_routes<
    F: FnMut(VpnKind, &str, &[String]) -> Result<Vec<u32>, String>,
    R: FnMut(&[ManagedRoute], &[ManagedRoute]) -> Result<(), String>,
    D: FnMut(&[ManagedDnsRule]) -> Result<bool, String>,
>(
    input: PolicyTransactionInput<'_>,
    native_routes: &[NativeRoute],
    resolve_hostname: F,
    mut replace_routes: R,
    mut replace_dns_policy: D,
) -> (result: Result<AppliedPolicy, String>)
    requires
        transaction_view(input, native_routes).takes(
            resolve_hostname,
            replace_routes,
            replace_dns_policy,
        ),
    ensures
        exists|replies: Replies|
            #[trigger] transaction_view(input, native_routes).possible(
                replies,
                resolve_hostname,
                replace_routes,
                replace_dns_policy,
            ) && applied_result(result) == transaction_view(input, native_routes).outcome(replies),
{
    let ghost view = transaction_view(input, native_routes);
    let ghost resolve = resolve_hostname;
    let ghost replace = replace_routes;
    let ghost replace_rules = replace_dns_policy;
    let ghost mut replies = Replies {
        bootstrap: Ok(()),
        answers: Seq::empty(),
        transition: Ok(()),
        rules: Ok(false),
        cleanup: Ok(()),
        rollback: Ok(()),
    };
    let config: &SplitterConfig = input.config;
    let adapters: &[NetworkAdapter] = input.adapters;
    let active_routes: &[ManagedRoute] = input.active_routes;
    let full_tunnels: Vec<VpnKind> = enabled_full_tunnel_vpns(config, adapters);
    let fallback: Option<InternetFallback<'_>> = select_internet_fallback(
        config,
        adapters,
        input.internet_gateway,
    );
    let manage_dns: bool = should_manage_dns_policy(config, &full_tunnels, fallback);
    let plan: DnsPlan = match DnsPlan::build(config, adapters, fallback, manage_dns) {
        Ok(plan) => plan,
        Err(reasons) => {
            assert(view.possible(replies, resolve, replace, replace_rules));
            return Err(join_texts(&reasons, "\n"));
        },
    };
    if let Err(reasons) = validate_dns_route_target_conflicts(config, &plan) {
        assert(view.possible(replies, resolve, replace, replace_rules));
        return Err(join_texts(&reasons, "\n"));
    }
    let staged_routes: Vec<ManagedRoute> = routes_with_dns_bootstrap(
        input.managed_routes,
        plan.bootstrap_routes(),
    );
    let staged_slice: &[ManagedRoute] = routes_slice(&staged_routes);
    assert(staged_slice.deep_view() == view.staged());
    let bootstrap_changed: bool = !routes_match(active_routes, staged_slice);
    if bootstrap_changed {
        let replaced: Result<(), String> = replace_routes(active_routes, staged_slice);
        assert(call_ensures(replace, (active_routes, staged_slice), replaced));
        proof {
            replies.bootstrap = replaced_view(replaced);
        }
        assert(replaces(replace, view.active, view.staged(), replies.bootstrap));
        if let Err(reason) = replaced {
            assert(view.possible(replies, resolve, replace, replace_rules));
            return Err(reason);
        }
    }
    assert(view.is_staged(replies));
    let questions: Vec<HostOwner> = dns_lookups(&read_config(config));
    let answers: Vec<DnsAnswer> = resolve_through_plan(&questions, &plan, resolve_hostname);
    proof {
        replies.answers = answers.deep_view();
    }
    let mut prepared: PreparedRoutes = match prepare_routes_with_answers(
        config,
        adapters,
        native_routes,
        input.managed_routes,
        &full_tunnels,
        fallback,
        manage_dns,
        &plan,
        &answers,
    ) {
        Ok(prepared) => prepared,
        Err(reasons) => {
            let reason: String = join_texts(&reasons, "\n");
            let ghost text = reason@;
            let message: String = rollback_policy_routes(
                staged_slice,
                active_routes,
                replace_routes,
                reason,
            );
            proof {
                let outcome = choose|outcome: Result<(), Seq<char>>|
                    #![trigger rolled_back(view.staged(), view.active, text, outcome)]
                    {
                        &&& matching(view.staged(), view.active) || replaces(
                            replace,
                            view.staged(),
                            view.active,
                            outcome,
                        )
                        &&& message@ == rolled_back(view.staged(), view.active, text, outcome)
                    };
                replies.rollback = outcome;
            }
            assert(view.possible(replies, resolve, replace, replace_rules));
            return Err(message);
        },
    };
    let transition_routes: Vec<ManagedRoute> = routes_for_policy_transition(
        staged_slice,
        routes_slice(&prepared.routes),
    );
    let transition_slice: &[ManagedRoute] = routes_slice(&transition_routes);
    assert(transition_slice.deep_view() == view.transition(replies.answers));
    let ghost between = view.transition(replies.answers);
    let transition_changed: bool = !routes_match(staged_slice, transition_slice);
    if transition_changed {
        let replaced: Result<(), String> = replace_routes(staged_slice, transition_slice);
        assert(call_ensures(replace, (staged_slice, transition_slice), replaced));
        proof {
            replies.transition = replaced_view(replaced);
        }
        assert(replaces(replace, view.staged(), between, replies.transition));
        if let Err(reason) = replaced {
            let ghost text = reason@;
            let message: String = rollback_policy_routes(
                staged_slice,
                active_routes,
                replace_routes,
                reason,
            );
            proof {
                let outcome = choose|outcome: Result<(), Seq<char>>|
                    #![trigger rolled_back(view.staged(), view.active, text, outcome)]
                    {
                        &&& matching(view.staged(), view.active) || replaces(
                            replace,
                            view.staged(),
                            view.active,
                            outcome,
                        )
                        &&& message@ == rolled_back(view.staged(), view.active, text, outcome)
                    };
                replies.rollback = outcome;
            }
            assert(view.possible(replies, resolve, replace, replace_rules));
            return Err(message);
        }
    }
    assert(view.has_transited(replies));
    let rules_slice: &[ManagedDnsRule] = prepared.dns_rules.as_slice();
    assert(rules_slice.deep_view() =~= prepared.dns_rules.deep_view());
    let rules_replaced: Result<bool, String> = replace_dns_policy(rules_slice);
    assert(call_ensures(replace_rules, (rules_slice,), rules_replaced));
    proof {
        replies.rules = rules_replaced_view(rules_replaced);
    }
    assert(replaces_rules(replace_rules, prepared.dns_rules.deep_view(), replies.rules));
    let dns_changed: bool = match rules_replaced {
        Ok(changed) => changed,
        Err(reason) => {
            let ghost text = reason@;
            let message: String = rollback_policy_routes(
                transition_slice,
                active_routes,
                replace_routes,
                reason,
            );
            proof {
                let outcome = choose|outcome: Result<(), Seq<char>>|
                    #![trigger rolled_back(between, view.active, text, outcome)]
                    {
                        &&& matching(between, view.active) || replaces(
                            replace,
                            between,
                            view.active,
                            outcome,
                        )
                        &&& message@ == rolled_back(between, view.active, text, outcome)
                    };
                replies.rollback = outcome;
            }
            assert(view.possible(replies, resolve, replace, replace_rules));
            return Err(message);
        },
    };
    let final_slice: &[ManagedRoute] = routes_slice(&prepared.routes);
    let ghost last = prepared.routes.deep_view();
    let cleanup_changed: bool = !routes_match(transition_slice, final_slice);
    let changed: bool = bootstrap_changed || transition_changed || cleanup_changed || dns_changed;
    if cleanup_changed {
        let replaced: Result<(), String> = replace_routes(transition_slice, final_slice);
        assert(call_ensures(replace, (transition_slice, final_slice), replaced));
        proof {
            replies.cleanup = replaced_view(replaced);
        }
        assert(replaces(replace, between, last, replies.cleanup));
        if let Err(reason) = replaced {
            let mut warning: String =
                "DNS 分流已更新，但舊路由暫時無法清除；健康檢查將自動重試：".to_owned();
            warning.append(reason.as_str());
            prepared.routes = transition_routes;
            prepared.add_warning(warning);
        }
    }
    assert(view.possible(replies, resolve, replace, replace_rules));
    Ok(AppliedPolicy { prepared, changed })
}

/// The routes and the rules for names of a whole configuration, given the answers of
/// the name servers. Nothing is asked for where no profile is enabled.
pub open spec fn prepared_for_all(
    profiles: Seq<VpnProfile>,
    adapters: Seq<AdapterView>,
    gateway: Option<GatewayView>,
    native: Seq<NativeRouteView>,
    managed: Seq<RouteView>,
    answers: Seq<AnswerView>,
) -> Result<PreparedView, Seq<Seq<char>>> {
    let view = TransactionView {
        managed,
        active: Seq::empty(),
        profiles,
        adapters,
        gateway,
        native,
    };
    if !any_enabled(profiles) {
        Ok(PreparedView::none())
    } else {
        match all_selected(profiles, profiles, adapters) {
            Err(reasons) => Err(reasons),
            Ok(_) => match view.plan() {
                Err(reasons) => Err(reasons),
                Ok(_) => view.prepared(answers),
            },
        }
    }
}

/// The plan for names of a whole configuration.
pub open spec fn plan_for_all(
    profiles: Seq<VpnProfile>,
    adapters: Seq<AdapterView>,
    gateway: Option<GatewayView>,
) -> Result<DnsPlanView, Seq<Seq<char>>> {
    TransactionView {
        managed: Seq::empty(),
        active: Seq::empty(),
        profiles,
        adapters,
        gateway,
        native: Seq::empty(),
    }.plan()
}

/// Prepares the routes and the rules for names of a whole configuration. The resolver
/// is asked only where every enabled profile has a connected interface and the plan
/// for names can be made.
pub fn prepare_all_enabled_routes_with_context<
    F: FnMut(VpnKind, &str, &[String]) -> Result<Vec<u32>, String>,
>(
    config: &SplitterConfig,
    adapters: &[NetworkAdapter],
    internet_gateway: Option<&InternetGateway>,
    native_routes: &[NativeRoute],
    managed_routes: &[ManagedRoute],
    resolve_hostname: F,
) -> (result: Result<PreparedRoutes, Vec<String>>)
    requires
        any_enabled(config.profiles@) && all_selected(
            config.profiles@,
            config.profiles@,
            adapters.deep_view(),
        ) is Ok ==> (plan_for_all(
            config.profiles@,
            adapters.deep_view(),
            gateway_view(internet_gateway),
        ) matches Ok(plan) ==> takes_all_planned(
            resolve_hostname,
            plan,
            questions_of(targets_of(config.profiles@)),
        )),
    ensures
        exists|answers: Seq<AnswerView>|
            #![trigger prepared_for_all(config.profiles@, adapters.deep_view(), gateway_view(internet_gateway), native_routes.deep_view(), managed_routes.deep_view(), answers)]
            {
                &&& any_enabled(config.profiles@) && all_selected(
                    config.profiles@,
                    config.profiles@,
                    adapters.deep_view(),
                ) is Ok && plan_for_all(
                    config.profiles@,
                    adapters.deep_view(),
                    gateway_view(internet_gateway),
                ) is Ok ==> planned_answers(
                    resolve_hostname,
                    plan_for_all(
                        config.profiles@,
                        adapters.deep_view(),
                        gateway_view(internet_gateway),
                    )->Ok_0,
                    questions_of(targets_of(config.profiles@)),
                    answers,
                )
                &&& prepared_result(result) == prepared_for_all(
                    config.profiles@,
                    adapters.deep_view(),
                    gateway_view(internet_gateway),
                    native_routes.deep_view(),
                    managed_routes.deep_view(),
                    answers,
                )
            },
{
    let ghost view = TransactionView {
        managed: managed_routes.deep_view(),
        active: Seq::empty(),
        profiles: config.profiles@,
        adapters: adapters.deep_view(),
        gateway: gateway_view(internet_gateway),
        native: native_routes.deep_view(),
    };
    let ghost all = |answers: Seq<AnswerView>|
        prepared_for_all(
            view.profiles,
            view.adapters,
            view.gateway,
            view.native,
            view.managed,
            answers,
        );
    if !needs_periodic_route_refresh(config) {
        let prepared: PreparedRoutes = PreparedRoutes::default();
        assert(all(Seq::empty()) == Ok::<PreparedView, Seq<Seq<char>>>(prepared.deep_view()));
        return Ok(prepared);
    }
    if let Err(reasons) = check_all_selected(config, adapters) {
        assert(all(Seq::empty()) == Err::<PreparedView, Seq<Seq<char>>>(reasons.deep_view()));
        return Err(reasons);
    }
    let full_tunnels: Vec<VpnKind> = enabled_full_tunnel_vpns(config, adapters);
    let fallback: Option<InternetFallback<'_>> = select_internet_fallback(
        config,
        adapters,
        internet_gateway,
    );
    let manage_dns: bool = should_manage_dns_policy(config, &full_tunnels, fallback);
    let plan: DnsPlan = match DnsPlan::build(config, adapters, fallback, manage_dns) {
        Ok(plan) => plan,
        Err(reasons) => {
            assert(all(Seq::empty()) == Err::<PreparedView, Seq<Seq<char>>>(reasons.deep_view()));
            return Err(reasons);
        },
    };
    let result: Result<PreparedRoutes, Vec<String>> = prepare_enabled_routes_from_dns_plan(
        config,
        adapters,
        native_routes,
        managed_routes,
        &full_tunnels,
        fallback,
        manage_dns,
        &plan,
        resolve_hostname,
    );
    proof {
        let answers = choose|answers: Seq<AnswerView>|
            #[trigger] planned_answers(
                resolve_hostname,
                plan.deep_view(),
                questions_of(targets_of(view.profiles)),
                answers,
            ) && prepared_result(result) == prepared_from_plan(
                view.profiles,
                view.adapters,
                view.native,
                view.managed,
                full_tunnels@,
                fallback_view(fallback),
                manage_dns,
                plan.deep_view(),
                answers,
            );
        assert(prepared_result(result) == all(answers));
    }
    result
}

/// A transaction that fails has either changed nothing, failed at its first change, or
/// asked for the routes that were in force before it: where these differ from those in
/// force at that moment, it has called for the latter to be replaced by the former.
pub proof fn law_failed_transaction_goes_back<
    F: FnMut(VpnKind, &str, &[String]) -> Result<Vec<u32>, String>,
    R: FnMut(&[ManagedRoute], &[ManagedRoute]) -> Result<(), String>,
    D: FnMut(&[ManagedDnsRule]) -> Result<bool, String>,
>(view: TransactionView, replies: Replies, resolve: F, replace: R, replace_rules: D)
    requires
        view.possible(replies, resolve, replace, replace_rules),
        view.outcome(replies) is Err,
    ensures
        view.refused() || (view.bootstraps() && replies.bootstrap is Err) || ({
            let in_force = if view.has_transited(replies) {
                view.transition(replies.answers)
            } else {
                view.staged()
            };
            matching(in_force, view.active) || replaces(
                replace,
                in_force,
                view.active,
                replies.rollback,
            )
        }),
{
}

/// A transaction that succeeds has put its rules for names into force, and the routes
/// that it reports are those in force: the prepared ones, or those of the transition
/// where the last step failed, about which a warning is given.
pub proof fn law_applied_policy_is_in_force<
    F: FnMut(VpnKind, &str, &[String]) -> Result<Vec<u32>, String>,
    R: FnMut(&[ManagedRoute], &[ManagedRoute]) -> Result<(), String>,
    D: FnMut(&[ManagedDnsRule]) -> Result<bool, String>,
>(view: TransactionView, replies: Replies, resolve: F, replace: R, replace_rules: D)
    requires
        view.possible(replies, resolve, replace, replace_rules),
        view.outcome(replies) is Ok,
    ensures
        ({
            let applied = view.outcome(replies)->Ok_0;
            let between = view.transition(replies.answers);
            let wanted = view.prepared(replies.answers)->Ok_0;
            &&& view.prepared(replies.answers) is Ok
            &&& applied.prepared.dns_rules == wanted.dns_rules
            &&& replies.rules is Ok
            &&& replaces_rules(replace_rules, wanted.dns_rules, replies.rules)
            &&& view.bootstraps() ==> replaces(replace, view.active, view.staged(), Ok(()))
            &&& view.transits(replies) ==> replaces(replace, view.staged(), between, Ok(()))
            &&& if applied.prepared.routes == wanted.routes && applied.prepared.warnings
                == wanted.warnings {
                view.cleans_up(replies) ==> replaces(replace, between, wanted.routes, Ok(()))
            } else {
                applied.prepared.routes == between && applied.prepared.warnings.len()
                    == wanted.warnings.len() + 1
            }
        }),
{
}

/// A transaction that finds the routes as it wants them, and whose rules for names
/// change nothing, changes nothing.
pub proof fn law_settled_transaction_changes_nothing(view: TransactionView, replies: Replies)
    requires
        view.outcome(replies) is Ok,
        !view.bootstraps(),
        !view.transits(replies),
        !view.cleans_up(replies),
        replies.rules == Ok::<bool, Seq<char>>(false),
    ensures
        !view.outcome(replies)->Ok_0.changed,
        view.outcome(replies)->Ok_0.prepared == view.prepared(replies.answers)->Ok_0,
{
}

}
