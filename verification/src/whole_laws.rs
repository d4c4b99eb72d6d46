//! What holds of a whole policy: of its routes, of its rules and of the paths behind them.

use vstd::prelude::*;

use crate::bypass_laws::{
    keeps_way, law_everything_else_keeps_the_way_windows_prefers,
    law_nothing_is_led_back_without_need,
};
use crate::dns_plan::{
    all_server_routes, dns_plan, listed, server_routes, servers_of_plan, DnsPlanView, ProfilePlanView,
};
use crate::domain::{
    domains_among, enabled_profiles, entries_of, lemma_enabled_push, VpnKind, VpnProfile,
};
use crate::fallback::{
    bypass_required, chosen_fallback, manages_dns, ordinary_servers_or_reason,
};
use crate::health::{checked, desired_with_native};
use crate::ipv4::{law_address_round_trip, law_network_round_trip, parsed_address, Ipv4Net};
use crate::lists::{lemma_filter_members, lemma_first_exists};
use crate::physical::{one_full_tunnel, only_vpn, physical_servers};
use crate::physical_health::{desired_physical, named_profiles, physical_checked};
use crate::plan_laws::lists_name;
use crate::policy::{
    all_validated_routes, conflict_in_plans, conflict_in_servers, holding, with_bypass,
    within_networks,
};
use crate::preparation::PreparedView;
use crate::refusal_laws::{all_read, law_names_need_readable_entries};
use crate::routes::of_vpn;
use crate::rule_laws::{
    answers_all_else, answers_names, has_own_names, law_names_go_to_their_networks,
    law_rules_follow_the_plan, leads_to_server, rule_of, texts_of,
};
use crate::selection::{address_texts, all_selected, full_tunnel_vpns, selection};
use crate::transaction::TransactionView;
use crate::validation::{targets_of, verdict, AnswerView, ValidatedView};
use crate::windows::{
    AdapterView, DnsRuleView, GatewayView, NativeRouteView, RouteView,
};

verus! {

/// A plan hands out each VPN's plan: what was put in for a VPN comes out for that VPN, and
/// all that were put in come out one after the other.
pub proof fn law_plan_hands_out_what_was_put_in(
    plan: DnsPlanView,
    profile: ProfilePlanView,
    other: VpnKind,
)
    ensures
        plan.with(profile).get(profile.vpn) == Some(profile),
        other != profile.vpn ==> plan.with(profile).get(other) == plan.get(other),
        plan.with(profile).fallback_servers == plan.fallback_servers,
        forall|one: ProfilePlanView| #[trigger]
            plan.values().contains(one) <==> exists|vpn: VpnKind| #[trigger]
                plan.get(vpn) == Some(one),
        DnsPlanView::none().values().len() == 0,
        plan.values().len() <= 3,
{
    let values = plan.values();
    assert forall|one: ProfilePlanView| #[trigger]
        values.contains(one) <==> exists|vpn: VpnKind| #[trigger] plan.get(vpn) == Some(one) by {
        if values.contains(one) {
            let k = choose|k: int| 0 <= k < values.len() && values[k] == one;
            assert(plan.get(VpnKind::FortiClient) == Some(one) || plan.get(VpnKind::F5) == Some(one)
                || plan.get(VpnKind::Ivanti) == Some(one));
        }
        let a = listed(plan.forticlient);
        let b = listed(plan.f5);
        if plan.get(VpnKind::FortiClient) == Some(one) {
            assert(values[0] == one);
        }
        if plan.get(VpnKind::F5) == Some(one) {
            assert(values[a.len() as int] == one);
        }
        if plan.get(VpnKind::Ivanti) == Some(one) {
            assert(values[(a.len() + b.len()) as int] == one);
        }
    }
}

/// The servers that are asked about a VPN's names are those of its plan; without a plan
/// nothing is asked.
pub proof fn law_planned_servers_are_asked(plan: DnsPlanView, vpn: VpnKind)
    ensures
        servers_of_plan(plan, vpn) is Ok <==> plan.get(vpn) is Some,
        servers_of_plan(plan, vpn) matches Ok(texts) ==> texts_of(
            texts,
            plan.get(vpn)->0.servers,
        ),
{
    if let Some(profile) = plan.get(vpn) {
        let texts = address_texts(profile.servers);
        assert forall|i: int| 0 <= i < texts.len() implies parsed_address(
            #[trigger] texts[i],
        ) == Some(profile.servers[i]) by {
            law_address_round_trip(profile.servers[i]);
        }
    }
}

/// The route leads to this server of the plan, through the interface of the plan.
pub open spec fn leads_to_planned(route: RouteView, plan: ProfilePlanView, s: int) -> bool {
    &&& 0 <= s < plan.servers.len()
    &&& leads_to_server(route, plan.vpn, plan.servers[s], plan.adapter_index, plan.next_hop)
}

/// Some route leads to this server of the plan.
pub open spec fn is_led_to(routes: Seq<RouteView>, plan: ProfilePlanView, s: int) -> bool {
    exists|i: int| 0 <= i < routes.len() && leads_to_planned(#[trigger] routes[i], plan, s)
}

/// The route leads to some server of some plan.
pub open spec fn is_planned(plans: Seq<ProfilePlanView>, route: RouteView) -> bool {
    exists|k: int, s: int|
        0 <= k < plans.len() && #[trigger] leads_to_planned(route, plans[k], s)
}

/// Before anything else the servers of all planned VPNs get a route, each of them through
/// the interface of its VPN, and nothing else gets one.
pub proof fn law_planned_servers_get_routes(plans: Seq<ProfilePlanView>)
    ensures
        forall|k: int, s: int|
            0 <= k < plans.len() && 0 <= s < plans[k].servers.len() ==> #[trigger] is_led_to(
                all_server_routes(plans),
                plans[k],
                s,
            ),
        forall|i: int|
            0 <= i < all_server_routes(plans).len() ==> is_planned(
                plans,
                #[trigger] all_server_routes(plans)[i],
            ),
    decreases plans.len(),
{
    if plans.len() > 0 {
        let front = plans.drop_last();
        let last = plans.last();
        law_planned_servers_get_routes(front);
        let before = all_server_routes(front);
        let own = server_routes(last);
        let all = all_server_routes(plans);
        assert(all == before + own);
        assert(plans[plans.len() - 1] == last);
        assert forall|s: int| 0 <= s < last.servers.len() implies leads_to_planned(
            #[trigger] own[s],
            last,
            s,
        ) by {
            law_network_round_trip(Ipv4Net { addr: last.servers[s], prefix_len: 32 });
        }
        assert forall|k: int, s: int|
            0 <= k < plans.len() && 0 <= s < plans[k].servers.len() implies #[trigger] is_led_to(
            all,
            plans[k],
            s,
        ) by {
            if k < front.len() {
                assert(front[k] == plans[k]);
                assert(is_led_to(before, front[k], s));
                let i = choose|i: int|
                    0 <= i < before.len() && leads_to_planned(#[trigger] before[i], front[k], s);
                assert(all[i] == before[i]);
            } else {
                assert(all[before.len() + s] == own[s]);
            }
        }
        assert forall|i: int| 0 <= i < all.len() implies is_planned(plans, #[trigger] all[i]) by {
            if i < before.len() {
                assert(all[i] == before[i]);
                let (k, s) = choose|k: int, s: int|
                    0 <= k < front.len() && #[trigger] leads_to_planned(before[i], front[k], s);
                assert(plans[k] == front[k]);
                assert(leads_to_planned(all[i], plans[k], s));
            } else {
                assert(all[i] == own[i - before.len()]);
                assert(leads_to_planned(all[i], plans[plans.len() - 1], i - before.len()));
            }
        }
    }
}

/// The rules are those of the plan: the first for all other names, then one for each VPN of
/// the plan.
pub open spec fn rules_of_plan(rules: Seq<DnsRuleView>, plan: DnsPlanView) -> bool {
    &&& rules.len() == 1 + plan.values().len()
    &&& answers_all_else(rules[0], plan.fallback_servers)
    &&& forall|k: int|
        0 <= k < plan.values().len() ==> answers_names(
            rules[1 + k],
            (#[trigger] plan.values()[k]).vpn,
            plan.values()[k].hostnames,
            plan.values()[k].servers,
        )
}

/// A policy that respects the system's own routes has the routes of its targets, keeps each
/// part of the address space on the way that it takes without the enabled VPNs where one of
/// these would take it away, and has the rules of the plan for names where names have to be
/// looked after.
pub proof fn law_policy_keeps_everything_else(
    view: TransactionView,
    answers: Seq<AnswerView>,
    k: int,
)
    requires
        view.plan() is Ok,
        view.prepared(answers) is Ok,
        0 <= k < 16,
    ensures
        ({
            let policy = view.prepared(answers)->Ok_0;
            let tunnels = full_tunnel_vpns(view.profiles, view.adapters);
            let fallback = chosen_fallback(view.profiles, view.adapters, view.gateway);
            let manage = manages_dns(view.profiles, tunnels, fallback);
            let validated = verdict(targets_of(view.profiles), answers)->Ok_0;
            let targets = all_validated_routes(view.profiles, validated, view.adapters)->Ok_0;
            &&& verdict(targets_of(view.profiles), answers) is Ok
            &&& all_validated_routes(view.profiles, validated, view.adapters) is Ok
            &&& view.plan() == dns_plan(view.profiles, view.adapters, fallback, manage)
            &&& policy.routes.len() >= targets.len()
            &&& policy.routes.take(targets.len() as int) == targets
            &&& tunnels.len() > 0 ==> fallback is Some
            &&& tunnels.len() > 0 && bypass_required(
                view.profiles,
                view.adapters,
                tunnels,
                fallback->0,
            ) ==> policy.routes.len() >= targets.len() + 16 && keeps_way(
                view.profiles,
                view.adapters,
                view.native,
                view.managed,
                fallback->0,
                k,
                policy.routes[targets.len() + k],
            )
            &&& manage ==> rules_of_plan(policy.dns_rules, view.plan()->Ok_0)
            &&& !manage ==> policy.dns_rules.len() == 0
        }),
{
    let policy = view.prepared(answers)->Ok_0;
    let tunnels = full_tunnel_vpns(view.profiles, view.adapters);
    let fallback = chosen_fallback(view.profiles, view.adapters, view.gateway);
    let manage = manages_dns(view.profiles, tunnels, fallback);
    let validated = verdict(targets_of(view.profiles), answers)->Ok_0;
    let targets = all_validated_routes(view.profiles, validated, view.adapters)->Ok_0;
    let bare = PreparedView { routes: targets, ..PreparedView::none() };
    let led = with_bypass(
        bare,
        view.profiles,
        view.adapters,
        tunnels,
        fallback,
        view.native,
        view.managed,
    )->Ok_0;
    law_nothing_is_led_back_without_need(
        bare,
        view.profiles,
        view.adapters,
        tunnels,
        fallback,
        view.native,
        view.managed,
    );
    assert(targets.take(targets.len() as int) =~= targets);
    if tunnels.len() > 0 && bypass_required(
        view.profiles,
        view.adapters,
        tunnels,
        fallback->0,
    ) {
        law_everything_else_keeps_the_way_windows_prefers(
            bare,
            view.profiles,
            view.adapters,
            tunnels,
            fallback->0,
            view.native,
            view.managed,
            k,
        );
    }
    if manage {
        let plan = view.plan()->Ok_0;
        law_rules_follow_the_plan(led, fallback->0.label(), plan);
        assert(policy.routes.take(targets.len() as int) =~= policy.routes.take(
            led.routes.len() as int,
        ).take(targets.len() as int));
        if led.routes.len() > targets.len() {
            assert(policy.routes.take(led.routes.len() as int)[targets.len() + k]
                == policy.routes[targets.len() + k]);
        }
        assert forall|r: int| 0 <= r < plan.values().len() implies answers_names(
            policy.dns_rules[1 + r],
            (#[trigger] plan.values()[r]).vpn,
            plan.values()[r].hostnames,
            plan.values()[r].servers,
        ) by {
            assert(led.dns_rules.len() + 1 + r == 1 + r);
        }
    }
}

/// A health check that respects the system's own routes keeps everything else on its way
/// and names with their servers, as a policy does that is put into force anew, for the VPNs
/// that stay switched on.
pub proof fn law_repaired_policy_keeps_everything_else(
    current: Seq<RouteView>,
    profiles: Seq<VpnProfile>,
    adapters: Seq<AdapterView>,
    gateway: Option<GatewayView>,
    native: Seq<NativeRouteView>,
    k: int,
)
    requires
        desired_with_native(current, profiles, adapters, gateway, native) is Ok,
        0 <= k < 16,
    ensures
        ({
            let plan = desired_with_native(current, profiles, adapters, gateway, native)->Ok_0;
            let check = checked(profiles, current, adapters);
            let tunnels = check.full_tunnels;
            let fallback = chosen_fallback(plan.profiles, adapters, gateway);
            let manage = manages_dns(plan.profiles, tunnels, fallback);
            let names = dns_plan(plan.profiles, adapters, fallback, manage);
            let first = check.routes.len();
            &&& names is Ok
            &&& plan.profiles == check.profiles
            &&& plan.disabled_vpns == check.disabled_vpns
            &&& plan.routes.len() >= first
            &&& plan.routes.take(first as int) == check.routes
            &&& tunnels.len() > 0 ==> fallback is Some
            &&& tunnels.len() > 0 && bypass_required(plan.profiles, adapters, tunnels, fallback->0)
                ==> plan.routes.len() >= first + 16 && keeps_way(
                plan.profiles,
                adapters,
                native,
                current,
                fallback->0,
                k,
                plan.routes[first + k],
            )
            &&& manage ==> rules_of_plan(plan.dns_rules, names->Ok_0)
            &&& !manage ==> plan.dns_rules.len() == 0
        }),
{
    let plan = desired_with_native(current, profiles, adapters, gateway, native)->Ok_0;
    let check = checked(profiles, current, adapters);
    let tunnels = check.full_tunnels;
    let fallback = chosen_fallback(plan.profiles, adapters, gateway);
    let manage = manages_dns(plan.profiles, tunnels, fallback);
    let names = dns_plan(plan.profiles, adapters, fallback, manage)->Ok_0;
    let bare = PreparedView {
        routes: check.routes,
        dns_rules: Seq::empty(),
        warnings: check.warnings,
    };
    let led = with_bypass(
        bare,
        plan.profiles,
        adapters,
        tunnels,
        fallback,
        native,
        current,
    )->Ok_0;
    law_nothing_is_led_back_without_need(
        bare,
        plan.profiles,
        adapters,
        tunnels,
        fallback,
        native,
        current,
    );
    assert(check.routes.take(check.routes.len() as int) =~= check.routes);
    if tunnels.len() > 0 && bypass_required(plan.profiles, adapters, tunnels, fallback->0) {
        law_everything_else_keeps_the_way_windows_prefers(
            bare,
            plan.profiles,
            adapters,
            tunnels,
            fallback->0,
            native,
            current,
            k,
        );
    }
    if manage {
        law_rules_follow_the_plan(led, fallback->0.label(), names);
        assert(plan.routes.take(check.routes.len() as int) =~= plan.routes.take(
            led.routes.len() as int,
        ).take(check.routes.len() as int));
        if led.routes.len() > check.routes.len() {
            assert(plan.routes.take(led.routes.len() as int)[check.routes.len() + k]
                == plan.routes[check.routes.len() + k]);
        }
        assert forall|r: int| 0 <= r < names.values().len() implies answers_names(
            plan.dns_rules[1 + r],
            (#[trigger] names.values()[r]).vpn,
            names.values()[r].hostnames,
            names.values()[r].servers,
        ) by {
            assert(led.dns_rules.len() + 1 + r == 1 + r);
        }
    }
}

/// The names of the enabled profiles, one profile after the other: each with its VPN and
/// with just the names that it lists. They can be told just where every enabled profile can
/// be read.
pub proof fn law_enabled_profiles_are_named(profiles: Seq<VpnProfile>)
    ensures
        named_profiles(profiles) is Ok <==> forall|p: int|
            0 <= p < profiles.len() && (#[trigger] profiles[p]).enabled ==> all_read(
                entries_of(profiles[p].networks@),
            ),
        named_profiles(profiles) matches Ok(named) ==> {
            &&& named.len() == enabled_profiles(profiles).len()
            &&& forall|k: int|
                0 <= k < named.len() ==> (#[trigger] named[k]).vpn == enabled_profiles(
                    profiles,
                )[k].vpn
            &&& forall|k: int, name: Seq<char>|
                0 <= k < named.len() ==> (#[trigger] named[k].hostnames.contains(name)
                    <==> lists_name(entries_of(enabled_profiles(profiles)[k].networks@), name))
        },
    decreases profiles.len(),
{
    if profiles.len() > 0 {
        let front = profiles.drop_last();
        let last = profiles.last();
        law_enabled_profiles_are_named(front);
        law_names_need_readable_entries(entries_of(last.networks@));
        lemma_enabled_push(front, last);
        assert(front.push(last) =~= profiles);
        assert(profiles[profiles.len() - 1] == last);
        assert forall|p: int| 0 <= p < front.len() implies front[p] == #[trigger] profiles[p] by {}
        if forall|p: int|
            0 <= p < profiles.len() && (#[trigger] profiles[p]).enabled ==> all_read(
                entries_of(profiles[p].networks@),
            ) {
            assert forall|p: int|
                0 <= p < front.len() && (#[trigger] front[p]).enabled implies all_read(
                entries_of(front[p].networks@),
            ) by {
                assert(profiles[p].enabled);
            }
        }
        if named_profiles(profiles) is Ok {
            assert forall|p: int|
                0 <= p < profiles.len() && (#[trigger] profiles[p]).enabled implies all_read(
                entries_of(profiles[p].networks@),
            ) by {
                if p < front.len() {
                    assert(front[p].enabled);
                }
            }
            let before = named_profiles(front)->Ok_0;
            let named = named_profiles(profiles)->Ok_0;
            assert forall|k: int, name: Seq<char>| 0 <= k < named.len() implies (
            #[trigger] named[k].hostnames.contains(name) <==> lists_name(
                entries_of(enabled_profiles(profiles)[k].networks@),
                name,
            )) by {
                if k < before.len() {
                    assert(named[k] == before[k]);
                    assert(before[k].hostnames.contains(name) <==> lists_name(
                        entries_of(enabled_profiles(front)[k].networks@),
                        name,
                    ));
                } else {
                    assert(named[k].hostnames == domains_among(entries_of(last.networks@))->Ok_0);
                }
            }
        }
    } else {
        assert(enabled_profiles(profiles).len() == 0) by {
            lemma_filter_members(profiles, |profile: VpnProfile| profile.enabled);
        }
    }
}

/// A health check keeps names with their networks, for the VPNs that stay switched on: all
/// other names with the servers of the ordinary network, and those of each VPN with the
/// servers of its interface. Where no VPN stays on there is no rule.
pub proof fn law_repaired_names_go_to_their_networks(
    current: Seq<RouteView>,
    profiles: Seq<VpnProfile>,
    adapters: Seq<AdapterView>,
    gateway: Option<GatewayView>,
)
    requires
        desired_physical(current, profiles, adapters, gateway) is Ok,
    ensures
        ({
            let plan = desired_physical(current, profiles, adapters, gateway)->Ok_0;
            let named = named_profiles(plan.profiles)->Ok_0;
            let ruled = named.filter(
                |one: ValidatedView| has_own_names(plan.profiles, adapters, one),
            );
            &&& named_profiles(plan.profiles) is Ok
            &&& named.len() == 0 ==> plan.dns_rules.len() == 0
            &&& named.len() > 0 ==> {
                &&& gateway is Some
                &&& ordinary_servers_or_reason(adapters, gateway->0) is Ok
                &&& plan.dns_rules.len() == 1 + ruled.len()
                &&& answers_all_else(
                    plan.dns_rules[0],
                    ordinary_servers_or_reason(adapters, gateway->0)->Ok_0,
                )
                &&& forall|k: int|
                    0 <= k < ruled.len() ==> rule_of(
                        plan.dns_rules[1 + k],
                        plan.profiles,
                        adapters,
                        #[trigger] ruled[k],
                    )
            }
        }),
{
    let check = physical_checked(profiles, current, adapters, gateway)->Ok_0;
    let named = named_profiles(check.profiles)->Ok_0;
    if named.len() > 0 {
        law_names_go_to_their_networks(
            PreparedView {
                routes: check.routes,
                dns_rules: Seq::empty(),
                warnings: check.warnings,
            },
            check.profiles,
            adapters,
            named,
            physical_servers(adapters, gateway)->Ok_0,
        );
    }
}

/// Several VPNs that take all traffic cannot be switched on together with the ordinary
/// network behind them; one can.
pub proof fn law_one_tunnel_at_a_time(profiles: Seq<VpnProfile>, adapters: Seq<AdapterView>)
    ensures
        one_full_tunnel(profiles, adapters) is Ok <==> full_tunnel_vpns(profiles, adapters).len()
            <= 1,
{
}

/// Every enabled profile needs its interface, and no disabled one does.
pub proof fn law_enabled_profiles_need_their_interfaces(
    all: Seq<VpnProfile>,
    profiles: Seq<VpnProfile>,
    adapters: Seq<AdapterView>,
)
    ensures
        all_selected(all, profiles, adapters) is Ok <==> forall|p: int|
            0 <= p < profiles.len() && (#[trigger] profiles[p]).enabled ==> selection(
                all,
                profiles[p].vpn,
                adapters,
            ) is Ok,
    decreases profiles.len(),
{
    if profiles.len() > 0 {
        let front = profiles.drop_last();
        law_enabled_profiles_need_their_interfaces(all, front, adapters);
        assert(profiles[profiles.len() - 1] == profiles.last());
        assert forall|p: int| 0 <= p < front.len() implies front[p] == #[trigger] profiles[p] by {}
        if all_selected(all, profiles, adapters) is Ok {
            assert forall|p: int|
                0 <= p < profiles.len() && (#[trigger] profiles[p]).enabled implies selection(
                all,
                profiles[p].vpn,
                adapters,
            ) is Ok by {
                if p < front.len() {
                    assert(front[p].enabled);
                }
            }
        }
        if forall|p: int|
            0 <= p < profiles.len() && (#[trigger] profiles[p]).enabled ==> selection(
                all,
                profiles[p].vpn,
                adapters,
            ) is Ok {
            assert forall|p: int|
                0 <= p < front.len() && (#[trigger] front[p]).enabled implies selection(
                all,
                front[p].vpn,
                adapters,
            ) is Ok by {
                assert(profiles[p].enabled);
            }
        }
    }
}

/// What is prepared for one VPN has the routes of that VPN, in their order, and the rules
/// and warnings of the whole policy.
pub proof fn law_routes_of_one_vpn_are_its_own(
    prepared: Result<PreparedView, Seq<Seq<char>>>,
    vpn: VpnKind,
)
    ensures
        only_vpn(prepared, vpn) is Ok <==> prepared is Ok,
        prepared is Err ==> only_vpn(prepared, vpn) == prepared,
        prepared matches Ok(all) ==> {
            let own = only_vpn(prepared, vpn)->Ok_0;
            &&& own.dns_rules == all.dns_rules
            &&& own.warnings == all.warnings
            &&& forall|route: RouteView| #[trigger]
                own.routes.contains(route) <==> all.routes.contains(route) && route.vpn == vpn
        },
{
    if let Ok(all) = prepared {
        lemma_filter_members(all.routes, of_vpn(vpn));
    }
}

/// A network of one VPN that holds a name server of another VPN's plan is a conflict, and
/// nothing else is one.
pub proof fn law_servers_of_other_vpns_are_not_targets(
    networks: Seq<Ipv4Net>,
    vpn: VpnKind,
    plans: Seq<ProfilePlanView>,
)
    ensures
        conflict_in_plans(networks, vpn, plans) is Some <==> exists|k: int, s: int, n: int|
            0 <= k < plans.len() && plans[k].vpn != vpn && 0 <= s < plans[k].servers.len() && 0 <= n
                < networks.len() && #[trigger] networks[n].covers(
                #[trigger] plans[k].servers[s],
            ),
    decreases plans.len(),
{
    if plans.len() > 0 {
        let front = plans.drop_last();
        let last = plans.last();
        law_servers_of_other_vpns_are_not_targets(networks, vpn, front);
        lemma_conflict_in_servers(networks, vpn, last);
        assert(plans[plans.len() - 1] == last);
        if conflict_in_plans(networks, vpn, plans) is Some {
            if conflict_in_plans(networks, vpn, front) is Some {
                let (k, s, n) = choose|k: int, s: int, n: int|
                    0 <= k < front.len() && front[k].vpn != vpn && 0 <= s < front[k].servers.len()
                        && 0 <= n < networks.len() && #[trigger] networks[n].covers(
                        #[trigger] front[k].servers[s],
                    );
                assert(plans[k] == front[k]);
                assert(networks[n].covers(plans[k].servers[s]));
            } else {
                let (s, n) = choose|s: int, n: int|
                    0 <= s < last.servers.len() && 0 <= n < networks.len()
                        && #[trigger] networks[n].covers(#[trigger] last.servers[s]);
                assert(networks[n].covers(plans[plans.len() - 1].servers[s]));
            }
        }
        if exists|k: int, s: int, n: int|
            0 <= k < plans.len() && plans[k].vpn != vpn && 0 <= s < plans[k].servers.len() && 0 <= n
                < networks.len() && #[trigger] networks[n].covers(
                #[trigger] plans[k].servers[s],
            ) {
            let (k, s, n) = choose|k: int, s: int, n: int|
                0 <= k < plans.len() && plans[k].vpn != vpn && 0 <= s < plans[k].servers.len() && 0
                    <= n < networks.len() && #[trigger] networks[n].covers(
                    #[trigger] plans[k].servers[s],
                );
            if k < front.len() {
                assert(front[k] == plans[k]);
                assert(networks[n].covers(front[k].servers[s]));
            } else {
                assert(networks[n].covers(last.servers[s]));
            }
        }
    }
}

/// One plan conflicts just where a network holds one of its servers.
proof fn lemma_conflict_in_servers(
    networks: Seq<Ipv4Net>,
    vpn: VpnKind,
    plan: ProfilePlanView,
)
    ensures
        conflict_in_servers(networks, vpn, plan) is Some <==> exists|s: int, n: int|
            0 <= s < plan.servers.len() && 0 <= n < networks.len() && #[trigger] networks[n].covers(
                #[trigger] plan.servers[s],
            ),
{
    lemma_first_exists(plan.servers, within_networks(networks));
    if conflict_in_servers(networks, vpn, plan) is Some {
        let s = choose|s: int|
            0 <= s < plan.servers.len() && within_networks(networks)(#[trigger] plan.servers[s]);
        lemma_first_exists(networks, holding(plan.servers[s]));
        let n = choose|n: int|
            0 <= n < networks.len() && holding(plan.servers[s])(#[trigger] networks[n]);
        assert(networks[n].covers(plan.servers[s]));
    }
    if exists|s: int, n: int|
        0 <= s < plan.servers.len() && 0 <= n < networks.len() && #[trigger] networks[n].covers(
            #[trigger] plan.servers[s],
        ) {
        let (s, n) = choose|s: int, n: int|
            0 <= s < plan.servers.len() && 0 <= n < networks.len() && #[trigger] networks[n].covers(
                #[trigger] plan.servers[s],
            );
        lemma_first_exists(networks, holding(plan.servers[s]));
        assert(holding(plan.servers[s])(networks[n]));
        assert(within_networks(networks)(plan.servers[s]));
    }
}

} // verus!
