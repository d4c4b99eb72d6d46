//! What holds of the routes that keep everything else on its way.

use vstd::prelude::*;

use crate::domain::{VpnKind, VpnProfile};
use crate::fallback::{bypass_required, FallbackView};
use crate::ipv4::{block_size, law_network_round_trip, parsed_network, Ipv4Net};
use crate::lists::{first_index, lemma_filter_members, lemma_first_index, lemma_is_first};
use crate::policy::{
    best_native, bypass_network, bypass_route, bypass_routes, independent, interface_in_use,
    is_managed, native_before, profile_uses, same_as_managed, with_bypass,
};
use crate::policy_laws::law_best_native_route_is_preferred;
use crate::preparation::PreparedView;
use crate::selection::selected_up;
use crate::windows::{AdapterView, ManagedRoutePurpose, NativeRouteView, RouteView};

verus! {

/// What a route of the system costs: its own metric and that of its interface together,
/// at most the largest number that Windows keeps.
pub open spec fn cost(route: NativeRouteView) -> int {
    if route.route_metric + route.interface_metric > 0xffff_ffff {
        0xffff_ffff
    } else {
        route.route_metric + route.interface_metric
    }
}

/// The profile is enabled and has chosen the interface, which is connected.
pub open spec fn serves(profile: VpnProfile, adapter: AdapterView) -> bool {
    &&& profile.enabled
    &&& profile.adapter_description is Some
    &&& adapter.matches(profile.vpn)
    &&& adapter.description == profile.adapter_description->0@
    &&& adapter.is_up()
}

/// The interface is the first that the profile can use.
pub open spec fn first_serving(
    profile: VpnProfile,
    adapters: Seq<AdapterView>,
    a: int,
    index: u32,
) -> bool {
    &&& 0 <= a < adapters.len()
    &&& serves(profile, adapters[a])
    &&& adapters[a].index == index
    &&& forall|b: int| 0 <= b < a ==> !serves(profile, #[trigger] adapters[b])
}

/// The interface carries the traffic of an enabled VPN.
pub open spec fn carries_enabled_vpn(
    profiles: Seq<VpnProfile>,
    adapters: Seq<AdapterView>,
    index: u32,
) -> bool {
    exists|p: int, a: int|
        0 <= p < profiles.len() && #[trigger] first_serving(profiles[p], adapters, a, index)
}

/// The route is one that was added before.
pub open spec fn added_before(native: NativeRouteView, managed: Seq<RouteView>) -> bool {
    exists|m: int|
        0 <= m < managed.len() && parsed_network((#[trigger] managed[m]).prefix) == Some(
            native.prefix,
        ) && managed[m].interface_index == native.interface_index && managed[m].next_hop
            == native.next_hop && managed[m].route_metric == native.route_metric
}

/// The route is one of the system's own that holds the address and that no enabled VPN
/// is behind.
pub open spec fn own_way(
    profiles: Seq<VpnProfile>,
    adapters: Seq<AdapterView>,
    native: Seq<NativeRouteView>,
    managed: Seq<RouteView>,
    address: int,
    route: NativeRouteView,
) -> bool {
    &&& native.contains(route)
    &&& route.prefix.first() <= address <= route.prefix.last()
    &&& !carries_enabled_vpn(profiles, adapters, route.interface_index)
    &&& !added_before(route, managed)
}

/// One interface is in use just where it carries an enabled VPN.
proof fn lemma_in_use(profiles: Seq<VpnProfile>, adapters: Seq<AdapterView>, index: u32)
    ensures
        interface_in_use(profiles, adapters, index) <==> carries_enabled_vpn(
            profiles,
            adapters,
            index,
        ),
{
    if interface_in_use(profiles, adapters, index) {
        let p = choose|p: int|
            0 <= p < profiles.len() && profile_uses(#[trigger] profiles[p], adapters, index);
        let profile = profiles[p];
        let condition = selected_up(profile.vpn, profile.adapter_description->0@);
        lemma_first_index(adapters, condition);
        let a = first_index(adapters, condition);
        assert forall|b: int| 0 <= b < a implies !serves(profile, #[trigger] adapters[b]) by {
            assert(!condition(adapters[b]));
        }
        assert(condition(adapters[a]));
        assert(first_serving(profiles[p], adapters, a, index));
    }
    if carries_enabled_vpn(profiles, adapters, index) {
        let (p, a) = choose|p: int, a: int|
            0 <= p < profiles.len() && #[trigger] first_serving(profiles[p], adapters, a, index);
        let profile = profiles[p];
        let condition = selected_up(profile.vpn, profile.adapter_description->0@);
        assert forall|b: int| 0 <= b < a implies !condition(#[trigger] adapters[b]) by {
            assert(!serves(profile, adapters[b]));
        }
        assert(condition(adapters[a]));
        lemma_is_first(adapters, condition, a);
        assert(profile_uses(profiles[p], adapters, index));
    }
}

/// A route is managed just where it was added before.
proof fn lemma_added(native: NativeRouteView, managed: Seq<RouteView>)
    ensures
        is_managed(native, managed) <==> added_before(native, managed),
{
    if is_managed(native, managed) {
        let m = choose|m: int|
            0 <= m < managed.len() && same_as_managed(native, #[trigger] managed[m]);
        assert(parsed_network(managed[m].prefix) == Some(native.prefix));
    }
    if added_before(native, managed) {
        let m = choose|m: int|
            0 <= m < managed.len() && parsed_network((#[trigger] managed[m]).prefix) == Some(
                native.prefix,
            ) && managed[m].interface_index == native.interface_index && managed[m].next_hop
                == native.next_hop && managed[m].route_metric == native.route_metric;
        assert(same_as_managed(native, managed[m]));
    }
}

/// The route that is chosen for an address is the one that Windows takes: it holds the
/// address, none that holds it has a longer prefix, none of that prefix length costs less,
/// and of those that cost the same none has a lower interface.
pub proof fn law_chosen_way_is_the_most_exact_and_cheapest(
    routes: Seq<NativeRouteView>,
    address: u32,
)
    ensures
        best_native(routes, address) is Some <==> exists|i: int|
            0 <= i < routes.len() && (#[trigger] routes[i]).prefix.first() <= address
                <= routes[i].prefix.last(),
        best_native(routes, address) matches Some(best) ==> {
            &&& routes.contains(best)
            &&& best.prefix.first() <= address <= best.prefix.last()
            &&& forall|i: int|
                0 <= i < routes.len() && (#[trigger] routes[i]).prefix.first() <= address
                    <= routes[i].prefix.last() ==> {
                    &&& routes[i].prefix.prefix_len <= best.prefix.prefix_len
                    &&& routes[i].prefix.prefix_len == best.prefix.prefix_len ==> cost(best)
                        <= cost(routes[i])
                    &&& routes[i].prefix.prefix_len == best.prefix.prefix_len && cost(routes[i])
                        == cost(best) ==> best.interface_index <= routes[i].interface_index
                }
        },
{
    law_best_native_route_is_preferred(routes, address);
    if let Some(best) = best_native(routes, address) {
        let k = choose|k: int| 0 <= k < routes.len() && routes[k] == best;
        assert(routes[k].prefix.covers(address));
        assert forall|i: int|
            0 <= i < routes.len() && (#[trigger] routes[i]).prefix.first() <= address
                <= routes[i].prefix.last() implies {
            &&& routes[i].prefix.prefix_len <= best.prefix.prefix_len
            &&& routes[i].prefix.prefix_len == best.prefix.prefix_len ==> cost(best) <= cost(
                routes[i],
            )
            &&& routes[i].prefix.prefix_len == best.prefix.prefix_len && cost(routes[i]) == cost(
                best,
            ) ==> best.interface_index <= routes[i].interface_index
        } by {
            assert(routes[i].prefix.covers(address));
            assert(!native_before(routes[i], best));
        }
    } else {
        assert forall|i: int| 0 <= i < routes.len() implies !((#[trigger] routes[i]).prefix.first()
            <= address <= routes[i].prefix.last()) by {
            assert(!routes[i].prefix.covers(address));
        }
    }
}

/// The way is the one that Windows takes: no other own way for the address is more exact,
/// and none as exact costs less.
pub open spec fn best_way(
    profiles: Seq<VpnProfile>,
    adapters: Seq<AdapterView>,
    native: Seq<NativeRouteView>,
    managed: Seq<RouteView>,
    address: int,
    way: NativeRouteView,
) -> bool {
    &&& own_way(profiles, adapters, native, managed, address, way)
    &&& forall|other: NativeRouteView| #[trigger]
        own_way(profiles, adapters, native, managed, address, other) ==> {
            &&& other.prefix.prefix_len <= way.prefix.prefix_len
            &&& other.prefix.prefix_len == way.prefix.prefix_len ==> cost(way) <= cost(other)
        }
}

/// The route keeps the sixteenth part `k` of the address space on the way that it takes
/// without the VPN.
pub open spec fn keeps_way(
    profiles: Seq<VpnProfile>,
    adapters: Seq<AdapterView>,
    native: Seq<NativeRouteView>,
    managed: Seq<RouteView>,
    fallback: FallbackView,
    k: int,
    route: RouteView,
) -> bool {
    let lowest = k * 0x1000_0000;
    &&& route.purpose == ManagedRoutePurpose::InternetBypass
    &&& parsed_network(route.prefix) == Some(Ipv4Net { addr: lowest as u32, prefix_len: 4 })
    &&& route.route_metric == 5
    &&& (forall|other: NativeRouteView|
        !own_way(profiles, adapters, native, managed, lowest, other)) ==> route.interface_index
        == fallback.interface_index() && route.next_hop == fallback.next_hop()
    &&& (exists|other: NativeRouteView|
        own_way(profiles, adapters, native, managed, lowest, other)) ==> exists|
        way: NativeRouteView,
    | #[trigger]
        best_way(profiles, adapters, native, managed, lowest, way) && route.interface_index
            == way.interface_index && route.next_hop == way.next_hop
}

/// Each of the sixteen parts of the address space goes on as it would without the VPN: as
/// the system's own routes that no enabled VPN is behind lead its lowest address, the most
/// exact of them first and the cheapest of these, and along the path for everything else
/// only where none of them holds that address.
pub proof fn law_everything_else_keeps_the_way_windows_prefers(
    prepared: PreparedView,
    profiles: Seq<VpnProfile>,
    adapters: Seq<AdapterView>,
    full_tunnels: Seq<VpnKind>,
    fallback: FallbackView,
    native: Seq<NativeRouteView>,
    managed: Seq<RouteView>,
    k: int,
)
    requires
        full_tunnels.len() > 0,
        bypass_required(profiles, adapters, full_tunnels, fallback),
        0 <= k < 16,
    ensures
        ({
            let all = with_bypass(
                prepared,
                profiles,
                adapters,
                full_tunnels,
                Some(fallback),
                native,
                managed,
            );
            &&& all is Ok
            &&& all->Ok_0.routes.len() == prepared.routes.len() + 16
            &&& all->Ok_0.routes.take(prepared.routes.len() as int) == prepared.routes
            &&& all->Ok_0.dns_rules == prepared.dns_rules
            &&& all->Ok_0.warnings.len() == prepared.warnings.len() + 1
            &&& all->Ok_0.warnings.drop_last() == prepared.warnings
            &&& all->Ok_0.routes[prepared.routes.len() + k].vpn == full_tunnels[0]
            &&& keeps_way(
                profiles,
                adapters,
                native,
                managed,
                fallback,
                k,
                all->Ok_0.routes[prepared.routes.len() + k],
            )
        }),
{
    let all = with_bypass(
        prepared,
        profiles,
        adapters,
        full_tunnels,
        Some(fallback),
        native,
        managed,
    )->Ok_0;
    let condition = independent(profiles, adapters, managed);
    let others = native.filter(condition);
    let lowest = k * 0x1000_0000;
    let address = lowest as u32;
    let network = bypass_network(k);
    let route = all.routes[prepared.routes.len() + k];
    assert(all.routes == prepared.routes + bypass_routes(full_tunnels[0], others, fallback));
    assert(all.routes.take(prepared.routes.len() as int) =~= prepared.routes);
    assert(route == bypass_routes(full_tunnels[0], others, fallback)[k]);
    assert(route == bypass_route(full_tunnels[0], network, others, fallback));
    assert(network == Ipv4Net { addr: address, prefix_len: 4 });
    law_network_round_trip(network);
    assert(all.warnings.drop_last() =~= prepared.warnings);
    vstd::arithmetic::power2::lemma2_to64();
    assert(block_size(4) == 0x1000_0000);
    assert(lowest % 0x1000_0000 == 0) by (nonlinear_arith)
        requires
            lowest == k * 0x1000_0000,
    ;
    assert(network.first() == lowest);
    lemma_filter_members(native, condition);
    law_chosen_way_is_the_most_exact_and_cheapest(others, address);
    assert forall|other: NativeRouteView|
        own_way(profiles, adapters, native, managed, lowest, other) <==> others.contains(other)
            && other.prefix.first() <= address <= other.prefix.last() by {
        lemma_in_use(profiles, adapters, other.interface_index);
        lemma_added(other, managed);
        assert(others.contains(other) <==> native.contains(other) && condition(other));
    }
    if exists|other: NativeRouteView|
        own_way(profiles, adapters, native, managed, lowest, other) {
        let some = choose|other: NativeRouteView|
            own_way(profiles, adapters, native, managed, lowest, other);
        let i = choose|i: int| 0 <= i < others.len() && others[i] == some;
        assert(others[i].prefix.first() <= address <= others[i].prefix.last());
        let way = best_native(others, address)->0;
        assert(own_way(profiles, adapters, native, managed, lowest, way));
        assert forall|other: NativeRouteView| #[trigger]
            own_way(profiles, adapters, native, managed, lowest, other) implies {
            &&& other.prefix.prefix_len <= way.prefix.prefix_len
            &&& other.prefix.prefix_len == way.prefix.prefix_len ==> cost(way) <= cost(other)
        } by {
            let j = choose|j: int| 0 <= j < others.len() && others[j] == other;
            assert(others[j].prefix.first() <= address <= others[j].prefix.last());
        }
        assert(best_way(profiles, adapters, native, managed, lowest, way));
    } else if let Some(way) = best_native(others, address) {
        assert(own_way(profiles, adapters, native, managed, lowest, way));
    }
}

/// Nothing is added where no enabled VPN takes all traffic, or where Windows takes the path
/// for everything else first anyway. Without such a path nothing can be prepared.
pub proof fn law_nothing_is_led_back_without_need(
    prepared: PreparedView,
    profiles: Seq<VpnProfile>,
    adapters: Seq<AdapterView>,
    full_tunnels: Seq<VpnKind>,
    fallback: Option<FallbackView>,
    native: Seq<NativeRouteView>,
    managed: Seq<RouteView>,
)
    ensures
        ({
            let all = with_bypass(
                prepared,
                profiles,
                adapters,
                full_tunnels,
                fallback,
                native,
                managed,
            );
            &&& all is Err <==> full_tunnels.len() > 0 && fallback is None
            &&& full_tunnels.len() == 0 ==> all == Ok::<PreparedView, Seq<Seq<char>>>(prepared)
            &&& full_tunnels.len() > 0 && fallback is Some && !bypass_required(
                profiles,
                adapters,
                full_tunnels,
                fallback->0,
            ) ==> all->Ok_0.routes == prepared.routes && all->Ok_0.dns_rules == prepared.dns_rules
        }),
{
}

} // verus!
