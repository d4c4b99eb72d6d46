//! What holds of routes that respect the routes of the system's own.

use vstd::prelude::*;

use crate::dns_plan::{DnsPlanView, ProfilePlanView};
use crate::domain::{is_enabled, only_disabled, profile_of, VpnKind, VpnProfile};
use crate::fallback::FallbackView;
use crate::health::{checked, desired_with_native, live_adapter, started, with_enabled, CheckView};
use crate::health_laws::{
    all_given_up, lemma_filter_of_four, lemma_moved, lemma_only_disabled, lemma_with_enabled, live_targets,
};
use crate::ipv4::{law_network_round_trip, parsed_network};
use crate::lists::{lemma_filter_all, lemma_filter_members, lemma_filter_no};
use crate::physical_laws::{
    directs, extends, leads_to_own_server, lemma_covering_target, lemma_extends, lemma_host_prefix,
    lemma_one_owner, lemma_own_server_among_fewer, lemma_servers_extend, own_server, route_covers,
};
use crate::policy::{
    all_validated_routes, best_native, bypass_network, bypass_routes, independent, interface_in_use,
    native_before, target_route, validated_routes, with_bypass, with_dns_profiles,
};
use crate::preparation::{foreign_target, general_rule, target_holds, vpn_rule, PreparedView};
use crate::routes::target_of_vpn;
use crate::selection::selection;
use crate::text::{lemma_text_irreflexive, lemma_text_transitive};
use crate::transaction::prepared_from_plan;
use crate::validation::{targets_of, verdict, AnswerView, ValidatedView};
use crate::windows::{
    AdapterView, GatewayView, ManagedRoutePurpose, NativeRouteView, RouteView,
};

verus! {

/// What Windows does not prefer to a route it does not prefer to a better one either.
proof fn lemma_native_order(a: NativeRouteView, b: NativeRouteView, c: NativeRouteView)
    requires
        !native_before(a, b),
        native_before(c, b),
    ensures
        !native_before(a, c),
{
    if native_before(a, c) {
        if a.prefix.prefix_len == c.prefix.prefix_len && c.prefix.prefix_len
            == b.prefix.prefix_len && a.effective_metric() == c.effective_metric()
            && c.effective_metric() == b.effective_metric() && a.interface_index
            == c.interface_index && c.interface_index == b.interface_index {
            lemma_text_transitive(a.next_hop, c.next_hop, b.next_hop);
        }
    }
}

/// The route that is chosen for an address is one of those that hold it, and Windows
/// prefers no other of them. There is none only where no route holds the address.
pub proof fn law_best_native_route_is_preferred(routes: Seq<NativeRouteView>, address: u32)
    ensures
        match best_native(routes, address) {
            Some(best) => {
                &&& routes.contains(best)
                &&& best.prefix.covers(address)
                &&& forall|i: int|
                    0 <= i < routes.len() && (#[trigger] routes[i]).prefix.covers(address)
                        ==> !native_before(routes[i], best)
            },
            None => forall|i: int|
                0 <= i < routes.len() ==> !(#[trigger] routes[i]).prefix.covers(address),
        },
    decreases routes.len(),
{
    if routes.len() > 0 {
        let front = routes.drop_last();
        let last = routes.last();
        law_best_native_route_is_preferred(front, address);
        let before = best_native(front, address);
        let now = best_native(routes, address);
        if let Some(best) = now {
            if before == Some(best) {
                let k = choose|k: int| 0 <= k < front.len() && front[k] == best;
                assert(routes[k] == best);
            } else {
                assert(routes[routes.len() - 1] == best);
            }
            assert forall|i: int|
                0 <= i < routes.len() && (#[trigger] routes[i]).prefix.covers(address) implies
                !native_before(routes[i], best) by {
                if i < front.len() {
                    assert(front[i] == routes[i]);
                    if before != Some(best) {
                        assert(!native_before(front[i], before->0));
                        lemma_native_order(front[i], before->0, last);
                    }
                } else if best == last {
                    lemma_text_irreflexive(last.next_hop);
                }
            }
        } else {
            assert forall|i: int| 0 <= i < routes.len() implies !(
            #[trigger] routes[i]).prefix.covers(address) by {
                if i < front.len() {
                    assert(front[i] == routes[i]);
                }
            }
        }
    }
}

/// What keeps everything else on its way never uses the interface of an enabled VPN,
/// unless the path for everything else is that interface.
pub proof fn law_bypass_avoids_enabled_vpns(
    prepared: PreparedView,
    profiles: Seq<VpnProfile>,
    adapters: Seq<AdapterView>,
    full_tunnels: Seq<VpnKind>,
    fallback: Option<FallbackView>,
    native: Seq<NativeRouteView>,
    managed: Seq<RouteView>,
)
    requires
        with_bypass(
            prepared,
            profiles,
            adapters,
            full_tunnels,
            fallback,
            native,
            managed,
        ) is Ok,
    ensures
        ({
            let routes = with_bypass(
                prepared,
                profiles,
                adapters,
                full_tunnels,
                fallback,
                native,
                managed,
            )->Ok_0.routes;
            &&& extends(prepared.routes, routes)
            &&& forall|i: int|
                prepared.routes.len() <= i < routes.len() ==> {
                    &&& (#[trigger] routes[i]).purpose == ManagedRoutePurpose::InternetBypass
                    &&& routes[i].vpn == full_tunnels[0]
                    &&& full_tunnels.len() > 0
                    &&& routes[i].prefix == bypass_network(i - prepared.routes.len()).text()
                    &&& i - prepared.routes.len() < 16
                    &&& fallback matches Some(path) && (!interface_in_use(
                        profiles,
                        adapters,
                        routes[i].interface_index,
                    ) || routes[i].interface_index == path.interface_index())
                }
        }),
{
    let all = with_bypass(
        prepared,
        profiles,
        adapters,
        full_tunnels,
        fallback,
        native,
        managed,
    )->Ok_0;
    assert(prepared.routes =~= all.routes.take(prepared.routes.len() as int));
    if all.routes.len() > prepared.routes.len() {
        let path = fallback->0;
        let condition = independent(profiles, adapters, managed);
        let others = native.filter(condition);
        lemma_filter_members(native, condition);
        assert forall|i: int| prepared.routes.len() <= i < all.routes.len() implies {
            &&& (#[trigger] all.routes[i]).purpose == ManagedRoutePurpose::InternetBypass
            &&& all.routes[i].vpn == full_tunnels[0]
            &&& full_tunnels.len() > 0
            &&& all.routes[i].prefix == bypass_network(i - prepared.routes.len()).text()
            &&& i - prepared.routes.len() < 16
            &&& fallback matches Some(path) && (!interface_in_use(
                profiles,
                adapters,
                all.routes[i].interface_index,
            ) || all.routes[i].interface_index == path.interface_index())
        } by {
            let k = i - prepared.routes.len();
            assert(all.routes[i] == bypass_routes(full_tunnels[0], others, path)[k]);
            let address = bypass_network(k).first() as u32;
            law_best_native_route_is_preferred(others, address);
            if let Some(best) = best_native(others, address) {
                assert(others.contains(best));
                assert(condition(best));
            }
        }
    }
}

/// The names of VPNs add routes to name servers and nothing else, behind what is there.
proof fn lemma_dns_profiles_extend(prepared: PreparedView, profiles: Seq<ProfilePlanView>)
    requires
        with_dns_profiles(prepared, profiles) is Ok,
    ensures
        ({
            let all = with_dns_profiles(prepared, profiles)->Ok_0;
            &&& extends(prepared.routes, all.routes)
            &&& forall|i: int|
                prepared.routes.len() <= i < all.routes.len() ==> (#[trigger] all.routes[i]).purpose
                    == ManagedRoutePurpose::VpnDnsServer && leads_to_own_server(
                    prepared.routes,
                    all.routes[i],
                )
        }),
    decreases profiles.len(),
{
    if profiles.len() == 0 {
        assert(prepared.routes =~= prepared.routes.take(prepared.routes.len() as int));
    } else {
        lemma_dns_profiles_extend(prepared, profiles.drop_last());
        let before = with_dns_profiles(prepared, profiles.drop_last())->Ok_0;
        let all = with_dns_profiles(prepared, profiles)->Ok_0;
        let last = profiles.last();
        lemma_servers_extend(
            before.with_rule(vpn_rule(last.vpn, last.hostnames, last.servers)),
            last.vpn,
            last.servers,
            last.adapter_index,
            last.next_hop,
        );
        lemma_extends(prepared.routes, before.routes, all.routes);
        assert forall|i: int| prepared.routes.len() <= i < all.routes.len() implies (
        #[trigger] all.routes[i]).purpose == ManagedRoutePurpose::VpnDnsServer
            && leads_to_own_server(prepared.routes, all.routes[i]) by {
            if i < before.routes.len() {
                assert(all.routes[i] == all.routes.take(before.routes.len() as int)[i]);
            } else {
                lemma_own_server_among_fewer(prepared.routes, before.routes, all.routes[i]);
            }
        }
    }
}

/// The route directs some network of some profile.
pub open spec fn directs_some(
    profiles: Seq<VpnProfile>,
    adapters: Seq<AdapterView>,
    validated: Seq<ValidatedView>,
    route: RouteView,
) -> bool {
    exists|i: int, k: int| directs(profiles, adapters, validated, route, i, k)
}

/// Every network of the profile has a route through the interface of the VPN.
pub open spec fn networks_routed(
    profiles: Seq<VpnProfile>,
    adapters: Seq<AdapterView>,
    validated: ValidatedView,
    routes: Seq<RouteView>,
) -> bool {
    &&& selection(profiles, validated.vpn, adapters) matches Ok(adapter)
    &&& forall|k: int|
        0 <= k < validated.networks.len() ==> routes.contains(
            target_route(validated.vpn, #[trigger] validated.networks[k], adapter),
        )
}

/// The routes of profiles direct their networks and do nothing else.
proof fn lemma_validated_origin(
    profiles: Seq<VpnProfile>,
    validated: Seq<ValidatedView>,
    adapters: Seq<AdapterView>,
)
    requires
        all_validated_routes(profiles, validated, adapters) is Ok,
    ensures
        forall|r: int|
            0 <= r < all_validated_routes(profiles, validated, adapters)->Ok_0.len()
                ==> directs_some(
                profiles,
                adapters,
                validated,
                #[trigger] all_validated_routes(profiles, validated, adapters)->Ok_0[r],
            ),
    decreases validated.len(),
{
    if validated.len() > 0 {
        let front = validated.drop_last();
        lemma_validated_origin(profiles, front, adapters);
        let before = all_validated_routes(profiles, front, adapters)->Ok_0;
        let more = validated_routes(profiles, validated.last(), adapters)->Ok_0;
        let all = all_validated_routes(profiles, validated, adapters)->Ok_0;
        assert(all == before + more);
        assert forall|r: int| 0 <= r < all.len() implies directs_some(
            profiles,
            adapters,
            validated,
            #[trigger] all[r],
        ) by {
            if r < before.len() {
                assert(all[r] == before[r]);
                assert(directs_some(profiles, adapters, front, before[r]));
                let (i, k) = choose|i: int, k: int|
                    directs(profiles, adapters, front, before[r], i, k);
                assert(directs(profiles, adapters, validated, all[r], i, k));
            } else {
                assert(all[r] == more[r - before.len()]);
                assert(directs(
                    profiles,
                    adapters,
                    validated,
                    all[r],
                    validated.len() - 1,
                    r - before.len(),
                ));
            }
        }
    }
}

/// Every network of every profile has a route through the interface of its VPN.
proof fn lemma_networks_routed(
    profiles: Seq<VpnProfile>,
    validated: Seq<ValidatedView>,
    adapters: Seq<AdapterView>,
)
    requires
        all_validated_routes(profiles, validated, adapters) is Ok,
    ensures
        forall|i: int|
            0 <= i < validated.len() ==> networks_routed(
                profiles,
                adapters,
                #[trigger] validated[i],
                all_validated_routes(profiles, validated, adapters)->Ok_0,
            ),
    decreases validated.len(),
{
    if validated.len() > 0 {
        let front = validated.drop_last();
        let last = validated.last();
        lemma_networks_routed(profiles, front, adapters);
        let before = all_validated_routes(profiles, front, adapters)->Ok_0;
        let more = validated_routes(profiles, last, adapters)->Ok_0;
        let all = all_validated_routes(profiles, validated, adapters)->Ok_0;
        assert(all == before + more);
        assert forall|i: int| 0 <= i < validated.len() implies networks_routed(
            profiles,
            adapters,
            #[trigger] validated[i],
            all,
        ) by {
            let one = validated[i];
            if i < front.len() {
                assert(networks_routed(profiles, adapters, front[i], before));
            }
            let adapter = selection(profiles, one.vpn, adapters)->Ok_0;
            assert forall|k: int| 0 <= k < one.networks.len() implies all.contains(
                target_route(one.vpn, #[trigger] one.networks[k], adapter),
            ) by {
                let route = target_route(one.vpn, one.networks[k], adapter);
                if i < front.len() {
                    assert(before.contains(route));
                    let at = choose|at: int| 0 <= at < before.len() && before[at] == route;
                    assert(all[at] == route);
                } else {
                    assert(all[before.len() + k] == more[k]);
                }
            }
        }
    }
}

/// An address that a profile lists goes through the interface of its VPN: there is a
/// route for it through that interface, and every other route that covers it is for a
/// target or a name server of that VPN, or is one of the wide ones that keep everything
/// else on its way. So it does wherever the network that holds it is narrower than
/// those.
pub proof fn law_planned_address_goes_through_its_vpn(
    profiles: Seq<VpnProfile>,
    adapters: Seq<AdapterView>,
    native: Seq<NativeRouteView>,
    managed: Seq<RouteView>,
    full_tunnels: Seq<VpnKind>,
    fallback: Option<FallbackView>,
    manage: bool,
    plan: DnsPlanView,
    answers: Seq<AnswerView>,
    i: int,
    k: int,
    address: u32,
)
    requires
        prepared_from_plan(
            profiles,
            adapters,
            native,
            managed,
            full_tunnels,
            fallback,
            manage,
            plan,
            answers,
        ) is Ok,
        0 <= i < verdict(targets_of(profiles), answers)->Ok_0.len(),
        0 <= k < verdict(targets_of(profiles), answers)->Ok_0[i].networks.len(),
        verdict(targets_of(profiles), answers)->Ok_0[i].networks[k].covers(address),
    ensures
        ({
            let routes = prepared_from_plan(
                profiles,
                adapters,
                native,
                managed,
                full_tunnels,
                fallback,
                manage,
                plan,
                answers,
            )->Ok_0.routes;
            let owner = verdict(targets_of(profiles), answers)->Ok_0[i];
            let adapter = selection(profiles, owner.vpn, adapters)->Ok_0;
            &&& selection(profiles, owner.vpn, adapters) is Ok
            &&& routes.contains(target_route(owner.vpn, owner.networks[k], adapter))
            &&& parsed_network(target_route(owner.vpn, owner.networks[k], adapter).prefix) == Some(
                owner.networks[k],
            )
            &&& forall|r: int|
                0 <= r < routes.len() && route_covers(#[trigger] routes[r], address) ==> {
                    ||| routes[r].purpose == ManagedRoutePurpose::Target && routes[r].vpn
                        == owner.vpn && routes[r].interface_index == adapter.index
                        && routes[r].next_hop == adapter.next_hop
                    ||| routes[r].purpose == ManagedRoutePurpose::VpnDnsServer && routes[r].vpn
                        == owner.vpn
                    ||| routes[r].purpose == ManagedRoutePurpose::InternetBypass
                        && parsed_network(routes[r].prefix)->0.prefix_len == 4
                }
        }),
{
    let validated = verdict(targets_of(profiles), answers)->Ok_0;
    let owner = validated[i];
    let targets = all_validated_routes(profiles, validated, adapters)->Ok_0;
    let start = PreparedView { routes: targets, ..PreparedView::none() };
    let bypassed = with_bypass(
        start,
        profiles,
        adapters,
        full_tunnels,
        fallback,
        native,
        managed,
    )->Ok_0;
    let all = prepared_from_plan(
        profiles,
        adapters,
        native,
        managed,
        full_tunnels,
        fallback,
        manage,
        plan,
        answers,
    )->Ok_0;
    lemma_validated_origin(profiles, validated, adapters);
    lemma_networks_routed(profiles, validated, adapters);
    assert(networks_routed(profiles, adapters, validated[i], targets));
    law_bypass_avoids_enabled_vpns(
        start,
        profiles,
        adapters,
        full_tunnels,
        fallback,
        native,
        managed,
    );
    if manage {
        lemma_dns_profiles_extend(
            bypassed.with_rule(general_rule(plan.fallback_servers)),
            plan.values(),
        );
    } else {
        assert(bypassed.routes =~= all.routes.take(bypassed.routes.len() as int));
    }
    lemma_extends(targets, bypassed.routes, all.routes);
    assert(owner.networks[k] == validated[i].networks[k]);
    let adapter = selection(profiles, owner.vpn, adapters)->Ok_0;
    let own_route = target_route(owner.vpn, owner.networks[k], adapter);
    let own_at = choose|at: int| 0 <= at < targets.len() && targets[at] == own_route;
    assert(targets.contains(own_route));
    assert(all.routes[own_at] == all.routes.take(targets.len() as int)[own_at]);
    assert(bypassed.routes[own_at] == bypassed.routes.take(targets.len() as int)[own_at]);
    assert(directs(profiles, adapters, validated, own_route, i, k));
    lemma_covering_target(profiles, adapters, answers, own_route, i, k, address);
    assert forall|r: int|
        0 <= r < all.routes.len() && route_covers(#[trigger] all.routes[r], address) implies {
        ||| all.routes[r].purpose == ManagedRoutePurpose::Target && all.routes[r].vpn == owner.vpn
            && all.routes[r].interface_index == adapter.index && all.routes[r].next_hop
            == adapter.next_hop
        ||| all.routes[r].purpose == ManagedRoutePurpose::VpnDnsServer && all.routes[r].vpn
            == owner.vpn
        ||| all.routes[r].purpose == ManagedRoutePurpose::InternetBypass && parsed_network(
            all.routes[r].prefix,
        )->0.prefix_len == 4
    } by {
        let route = all.routes[r];
        if r < targets.len() {
            assert(route == all.routes.take(targets.len() as int)[r]);
            assert(directs_some(profiles, adapters, validated, targets[r]));
            let (j, m) = choose|j: int, m: int|
                directs(profiles, adapters, validated, targets[r], j, m);
            lemma_covering_target(profiles, adapters, answers, route, j, m, address);
            lemma_one_owner(profiles, answers, i, j, address);
        } else if r < bypassed.routes.len() {
            assert(route == all.routes.take(bypassed.routes.len() as int)[r]);
            assert(bypassed.routes[r].purpose == ManagedRoutePurpose::InternetBypass);
            law_network_round_trip(bypass_network(r - targets.len()));
        } else {
            assert(leads_to_own_server(bypassed.routes, route));
            let server = choose|server: u32| own_server(bypassed.routes, route, server);
            lemma_host_prefix(server, address);
            if route.vpn != owner.vpn {
                assert(!foreign_target(route.vpn, server)(bypassed.routes[own_at]));
                assert(target_holds(bypassed.routes[own_at], server));
            }
        }
    }
}

/// Where the profile of the VPN is enabled, its interface is connected and it has had
/// routes for its targets.
pub open spec fn is_alive(
    profiles: Seq<VpnProfile>,
    current: Seq<RouteView>,
    adapters: Seq<AdapterView>,
    vpn: VpnKind,
) -> bool {
    is_enabled(profiles, vpn) ==> live_adapter(
        profile_of(profiles, vpn)->0,
        vpn,
        adapters,
    ) is Some && current.filter(target_of_vpn(vpn)).len() > 0
}

/// One step of a health check.
proof fn lemma_native_step(
    check: CheckView,
    vpn: VpnKind,
    current: Seq<RouteView>,
    adapters: Seq<AdapterView>,
)
    ensures
        ({
            let next = check.with_vpn(vpn, current, adapters);
            &&& only_disabled(check.profiles, next.profiles)
            &&& forall|other: VpnKind|
                other != vpn ==> #[trigger] profile_of(next.profiles, other) == profile_of(
                    check.profiles,
                    other,
                )
            &&& is_alive(next.profiles, current, adapters, vpn)
            &&& next.routes == check.routes + live_targets(next.profiles, current, adapters, vpn)
            &&& all_given_up(check.profiles, check.disabled_vpns) ==> all_given_up(
                next.profiles,
                next.disabled_vpns,
            )
        }),
{
    let next = check.with_vpn(vpn, current, adapters);
    lemma_with_enabled(check.profiles, vpn, false);
    let added = live_targets(next.profiles, current, adapters, vpn);
    assert(next.routes =~= check.routes + added);
    if is_enabled(check.profiles, vpn) && !is_enabled(next.profiles, vpn) {
        assert(next.profiles == with_enabled(check.profiles, vpn, false));
        if all_given_up(check.profiles, check.disabled_vpns) {
            assert forall|k: int| 0 <= k < next.disabled_vpns.len() implies profile_of(
                next.profiles,
                #[trigger] next.disabled_vpns[k],
            ) is Some && !is_enabled(next.profiles, next.disabled_vpns[k]) by {
                if k < check.disabled_vpns.len() {
                    assert(next.disabled_vpns[k] == check.disabled_vpns[k]);
                    assert(profile_of(check.profiles, check.disabled_vpns[k]) is Some);
                }
            }
        }
    }
}

/// All steps of a health check.
proof fn lemma_native_checked(
    profiles: Seq<VpnProfile>,
    current: Seq<RouteView>,
    adapters: Seq<AdapterView>,
)
    ensures
        ({
            let check = checked(profiles, current, adapters);
            &&& only_disabled(profiles, check.profiles)
            &&& all_given_up(check.profiles, check.disabled_vpns)
            &&& forall|vpn: VpnKind| #[trigger] is_alive(check.profiles, current, adapters, vpn)
            &&& check.routes == live_targets(
                check.profiles,
                current,
                adapters,
                VpnKind::FortiClient,
            ) + live_targets(check.profiles, current, adapters, VpnKind::F5) + live_targets(
                check.profiles,
                current,
                adapters,
                VpnKind::Ivanti,
            )
        }),
{
    let start = started(profiles);
    let first = start.with_vpn(VpnKind::FortiClient, current, adapters);
    let second = first.with_vpn(VpnKind::F5, current, adapters);
    let check = second.with_vpn(VpnKind::Ivanti, current, adapters);
    lemma_native_step(start, VpnKind::FortiClient, current, adapters);
    lemma_native_step(first, VpnKind::F5, current, adapters);
    lemma_native_step(second, VpnKind::Ivanti, current, adapters);
    lemma_only_disabled(profiles, first.profiles, second.profiles);
    lemma_only_disabled(profiles, second.profiles, check.profiles);
    assert(profile_of(check.profiles, VpnKind::FortiClient) == profile_of(
        second.profiles,
        VpnKind::FortiClient,
    ));
    assert(profile_of(second.profiles, VpnKind::FortiClient) == profile_of(
        first.profiles,
        VpnKind::FortiClient,
    ));
    assert(profile_of(check.profiles, VpnKind::F5) == profile_of(second.profiles, VpnKind::F5));
    let a = live_targets(check.profiles, current, adapters, VpnKind::FortiClient);
    let b = live_targets(check.profiles, current, adapters, VpnKind::F5);
    let c = live_targets(check.profiles, current, adapters, VpnKind::Ivanti);
    assert(first.routes =~= a);
    assert(second.routes =~= a + b);
    assert(check.routes =~= a + b + c);
    assert forall|vpn: VpnKind| #[trigger]
        is_alive(check.profiles, current, adapters, vpn) by {
        match vpn {
            VpnKind::FortiClient => {
                assert(is_alive(first.profiles, current, adapters, vpn));
            },
            VpnKind::F5 => {
                assert(is_alive(second.profiles, current, adapters, vpn));
            },
            VpnKind::Ivanti => {},
        }
    }
}

/// The routes for the targets of a VPN are its own, and no other VPN's.
proof fn lemma_live_targets_filter(
    profiles: Seq<VpnProfile>,
    current: Seq<RouteView>,
    adapters: Seq<AdapterView>,
    vpn: VpnKind,
    other: VpnKind,
)
    ensures
        live_targets(profiles, current, adapters, vpn).filter(target_of_vpn(other)) == if other
            == vpn {
            live_targets(profiles, current, adapters, vpn)
        } else {
            Seq::empty()
        },
{
    let targets = live_targets(profiles, current, adapters, vpn);
    if is_enabled(profiles, vpn) {
        lemma_moved(
            current,
            vpn,
            live_adapter(profile_of(profiles, vpn)->0, vpn, adapters)->0,
        );
    }
    if other == vpn {
        lemma_filter_all(targets, target_of_vpn(other));
    } else {
        lemma_filter_no(targets, target_of_vpn(other));
    }
}

/// Behind the routes for targets stand none that are for targets.
proof fn lemma_native_plan(
    current: Seq<RouteView>,
    profiles: Seq<VpnProfile>,
    adapters: Seq<AdapterView>,
    gateway: Option<GatewayView>,
    native: Seq<NativeRouteView>,
)
    requires
        desired_with_native(current, profiles, adapters, gateway, native) is Ok,
    ensures
        ({
            let plan = desired_with_native(current, profiles, adapters, gateway, native)->Ok_0;
            let check = checked(profiles, current, adapters);
            &&& plan.profiles == check.profiles
            &&& plan.disabled_vpns == check.disabled_vpns
            &&& extends(check.routes, plan.routes)
            &&& forall|i: int|
                check.routes.len() <= i < plan.routes.len() ==> (#[trigger] plan.routes[i]).purpose
                    != ManagedRoutePurpose::Target
        }),
{
    let plan = desired_with_native(current, profiles, adapters, gateway, native)->Ok_0;
    let check = checked(profiles, current, adapters);
    let fallback = crate::fallback::chosen_fallback(check.profiles, adapters, gateway);
    let manage = crate::fallback::manages_dns(check.profiles, check.full_tunnels, fallback);
    let names = crate::dns_plan::dns_plan(check.profiles, adapters, fallback, manage)->Ok_0;
    let start = PreparedView {
        routes: check.routes,
        dns_rules: Seq::empty(),
        warnings: check.warnings,
    };
    let bypassed = with_bypass(
        start,
        check.profiles,
        adapters,
        check.full_tunnels,
        fallback,
        native,
        current,
    )->Ok_0;
    law_bypass_avoids_enabled_vpns(
        start,
        check.profiles,
        adapters,
        check.full_tunnels,
        fallback,
        native,
        current,
    );
    if manage {
        lemma_dns_profiles_extend(
            bypassed.with_rule(general_rule(names.fallback_servers)),
            names.values(),
        );
    } else {
        assert(bypassed.routes =~= plan.routes.take(bypassed.routes.len() as int));
    }
    lemma_extends(check.routes, bypassed.routes, plan.routes);
    assert forall|i: int| check.routes.len() <= i < plan.routes.len() implies (
    #[trigger] plan.routes[i]).purpose != ManagedRoutePurpose::Target by {
        if i < bypassed.routes.len() {
            assert(plan.routes[i] == plan.routes.take(bypassed.routes.len() as int)[i]);
            assert(bypassed.routes[i].purpose == ManagedRoutePurpose::InternetBypass);
        }
    }
}

/// After a health check the profiles are what they were, but that some are disabled, and
/// those reported as disabled are. Every enabled VPN is connected and has the routes for
/// its targets that it had, through its interface as it is now; no other VPN has any.
pub proof fn law_native_health_plan_is_sound(
    current: Seq<RouteView>,
    profiles: Seq<VpnProfile>,
    adapters: Seq<AdapterView>,
    gateway: Option<GatewayView>,
    native: Seq<NativeRouteView>,
)
    requires
        desired_with_native(current, profiles, adapters, gateway, native) is Ok,
    ensures
        ({
            let plan = desired_with_native(current, profiles, adapters, gateway, native)->Ok_0;
            &&& only_disabled(profiles, plan.profiles)
            &&& all_given_up(plan.profiles, plan.disabled_vpns)
            &&& forall|vpn: VpnKind| #[trigger] is_alive(plan.profiles, current, adapters, vpn)
            &&& forall|vpn: VpnKind|
                #![trigger live_targets(plan.profiles, current, adapters, vpn)]
                plan.routes.filter(target_of_vpn(vpn)) == live_targets(
                    plan.profiles,
                    current,
                    adapters,
                    vpn,
                )
        }),
{
    let plan = desired_with_native(current, profiles, adapters, gateway, native)->Ok_0;
    let check = checked(profiles, current, adapters);
    lemma_native_plan(current, profiles, adapters, gateway, native);
    lemma_native_checked(profiles, current, adapters);
    let p = check.profiles;
    assert forall|vpn: VpnKind|
        #![trigger live_targets(plan.profiles, current, adapters, vpn)]
        plan.routes.filter(target_of_vpn(vpn)) == live_targets(p, current, adapters, vpn) by {
        let a = live_targets(p, current, adapters, VpnKind::FortiClient);
        let b = live_targets(p, current, adapters, VpnKind::F5);
        let c = live_targets(p, current, adapters, VpnKind::Ivanti);
        let tail = plan.routes.skip(check.routes.len() as int);
        assert(plan.routes =~= a + b + c + tail) by {
            assert forall|i: int| 0 <= i < check.routes.len() implies plan.routes[i]
                == check.routes[i] by {
                assert(plan.routes.take(check.routes.len() as int)[i] == plan.routes[i]);
            }
        }
        lemma_filter_of_four(a, b, c, tail, target_of_vpn(vpn));
        lemma_filter_no(tail, target_of_vpn(vpn));
        lemma_live_targets_filter(p, current, adapters, VpnKind::FortiClient, vpn);
        lemma_live_targets_filter(p, current, adapters, VpnKind::F5, vpn);
        lemma_live_targets_filter(p, current, adapters, VpnKind::Ivanti, vpn);
        let own = live_targets(p, current, adapters, vpn);
        match vpn {
            VpnKind::FortiClient => {
                assert(plan.routes.filter(target_of_vpn(vpn)) =~= own);
            },
            VpnKind::F5 => {
                assert(plan.routes.filter(target_of_vpn(vpn)) =~= own);
            },
            VpnKind::Ivanti => {
                assert(plan.routes.filter(target_of_vpn(vpn)) =~= own);
            },
        }
    }
}

}
