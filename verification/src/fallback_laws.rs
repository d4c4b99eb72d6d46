//! What holds of the path for everything else and of its name servers.

use vstd::prelude::*;

use crate::domain::{
    entries_of, has_domain, is_enabled, lemma_profile_index, names_enabled_domain, profile_of,
    VpnKind, VpnProfile,
};
use crate::fallback::{
    bypass_required, chosen_fallback, fallback_servers, law_chosen_fallback_is_preferred,
    manages_dns, not_a_vpn_server, ordinary_servers, own_path, reported_by_vpn, tunnel_wins,
    FallbackView,
};
use crate::ipv4::parsed_address;
use crate::lists::{
    first_index, lemma_filter_members, lemma_first_exists, lemma_first_index, lemma_is_first,
};
use crate::selection::{
    distinct_addresses, enabled_full_tunnel, full_tunnel_vpns, law_distinct_addresses,
    selected_full_tunnel,
};
use crate::windows::{AdapterView, GatewayView, RoutePriority};

verus! {

/// Windows takes a default route before another: the more exact one, of two as exact the
/// cheaper one, of two as cheap the one with the lower interface.
pub open spec fn taken_before(
    one: RoutePriority,
    one_index: u32,
    other: RoutePriority,
    other_index: u32,
) -> bool {
    ||| one.prefix_length > other.prefix_length
    ||| one.prefix_length == other.prefix_length && one.effective_metric < other.effective_metric
    ||| one.prefix_length == other.prefix_length && one.effective_metric == other.effective_metric
        && one_index < other_index
}

/// A connected VPN that takes all traffic and that is not switched on here. An interface
/// that could be of several VPNs counts for the first of them.
pub open spec fn native_tunnel(
    profiles: Seq<VpnProfile>,
    adapter: AdapterView,
    vpn: VpnKind,
) -> bool {
    &&& adapter.is_up()
    &&& adapter.full_tunnel_priority is Some
    &&& adapter.matches(vpn)
    &&& vpn == VpnKind::F5 ==> !adapter.matches(VpnKind::FortiClient)
    &&& vpn == VpnKind::Ivanti ==> !adapter.matches(VpnKind::FortiClient) && !adapter.matches(
        VpnKind::F5,
    )
    &&& !is_enabled(profiles, vpn)
}

/// An interface is a path of its own just where it is a native tunnel.
proof fn lemma_own_path(profiles: Seq<VpnProfile>, adapter: AdapterView, vpn: VpnKind)
    ensures
        native_tunnel(profiles, adapter, vpn) <==> own_path(profiles, adapter) == Some(
            (FallbackView::Vpn { vpn, adapter }),
        ),
        own_path(profiles, adapter) matches Some(path) ==> path is Vpn && path->adapter == adapter,
{
}

/// A VPN that stands before the ordinary network was taken before it.
proof fn lemma_before_gateway(
    profiles: Seq<VpnProfile>,
    adapters: Seq<AdapterView>,
    gateway: GatewayView,
)
    ensures
        chosen_fallback(profiles, adapters, Some(gateway)) is Some,
        chosen_fallback(profiles, adapters, Some(gateway))->0 is Vpn ==> chosen_fallback(
            profiles,
            adapters,
            Some(gateway),
        )->0.preferred_to(FallbackView::Physical(gateway)),
        chosen_fallback(profiles, adapters, Some(gateway))->0 is Physical ==> chosen_fallback(
            profiles,
            adapters,
            Some(gateway),
        )->0 == FallbackView::Physical(gateway),
    decreases adapters.len(),
{
    if adapters.len() > 0 {
        lemma_before_gateway(profiles, adapters.drop_last(), gateway);
    }
}

/// A chosen VPN is a native tunnel.
proof fn lemma_chosen_is_native(
    profiles: Seq<VpnProfile>,
    adapters: Seq<AdapterView>,
    gateway: Option<GatewayView>,
)
    ensures
        chosen_fallback(profiles, adapters, gateway) matches Some(
            FallbackView::Vpn { vpn, adapter },
        ) ==> native_tunnel(profiles, adapter, vpn),
    decreases adapters.len(),
{
    if adapters.len() > 0 {
        lemma_chosen_is_native(profiles, adapters.drop_last(), gateway);
        lemma_own_path(profiles, adapters.last(), VpnKind::FortiClient);
        lemma_own_path(profiles, adapters.last(), VpnKind::F5);
        lemma_own_path(profiles, adapters.last(), VpnKind::Ivanti);
    }
}

/// The path for everything else is the one that Windows takes without the VPNs that are
/// switched on here. A VPN is that path only if it is connected, takes all traffic, is not
/// switched on here, comes before the ordinary network, and no other such VPN comes before
/// it. The ordinary network is that path only if no such VPN comes before it; one whose
/// default route is not known comes last.
pub proof fn law_everything_else_takes_the_path_of_windows(
    profiles: Seq<VpnProfile>,
    adapters: Seq<AdapterView>,
    gateway: Option<GatewayView>,
)
    ensures
        match chosen_fallback(profiles, adapters, gateway) {
            None => gateway is None && forall|i: int, vpn: VpnKind|
                0 <= i < adapters.len() ==> !#[trigger] native_tunnel(profiles, adapters[i], vpn),
            Some(FallbackView::Vpn { vpn, adapter }) => {
                &&& adapters.contains(adapter)
                &&& native_tunnel(profiles, adapter, vpn)
                &&& gateway is Some && gateway->0.route_priority is Some ==> taken_before(
                    adapter.full_tunnel_priority->0,
                    adapter.index,
                    gateway->0.route_priority->0,
                    gateway->0.interface_index,
                )
                &&& forall|i: int, other: VpnKind|
                    0 <= i < adapters.len() && #[trigger] native_tunnel(
                        profiles,
                        adapters[i],
                        other,
                    ) ==> !taken_before(
                        adapters[i].full_tunnel_priority->0,
                        adapters[i].index,
                        adapter.full_tunnel_priority->0,
                        adapter.index,
                    )
            },
            Some(FallbackView::Physical(network)) => {
                &&& gateway == Some(network)
                &&& forall|i: int, other: VpnKind|
                    0 <= i < adapters.len() && #[trigger] native_tunnel(
                        profiles,
                        adapters[i],
                        other,
                    ) ==> network.route_priority is Some && !taken_before(
                        adapters[i].full_tunnel_priority->0,
                        adapters[i].index,
                        network.route_priority->0,
                        network.interface_index,
                    )
            },
        },
{
    law_chosen_fallback_is_preferred(profiles, adapters, gateway);
    lemma_chosen_is_native(profiles, adapters, gateway);
    if gateway is Some {
        lemma_before_gateway(profiles, adapters, gateway->0);
    }
    assert forall|i: int, vpn: VpnKind|
        0 <= i < adapters.len() && #[trigger] native_tunnel(
            profiles,
            adapters[i],
            vpn,
        ) implies own_path(profiles, adapters[i]) == Some(
        (FallbackView::Vpn { vpn, adapter: adapters[i] }),
    ) by {
        lemma_own_path(profiles, adapters[i], vpn);
    }
}

/// The interface is one that takes all traffic and that the profile, switched on, has
/// chosen.
pub open spec fn takes_all_traffic(profile: VpnProfile, adapter: AdapterView) -> bool {
    &&& profile.adapter_description is Some
    &&& adapter.matches(profile.vpn)
    &&& adapter.description == profile.adapter_description->0@
    &&& adapter.is_up()
    &&& adapter.full_tunnel_priority is Some
}

/// A VPN counts as one that takes all traffic just where a profile of it is switched on
/// and has chosen a connected interface with a default route.
pub proof fn law_full_tunnels_are_those_switched_on(
    profiles: Seq<VpnProfile>,
    adapters: Seq<AdapterView>,
    vpn: VpnKind,
)
    ensures
        full_tunnel_vpns(profiles, adapters).len() <= profiles.len(),
        full_tunnel_vpns(profiles, adapters).contains(vpn) <==> exists|p: int, a: int|
            0 <= p < profiles.len() && 0 <= a < adapters.len() && profiles[p].vpn == vpn
                && profiles[p].enabled && #[trigger] takes_all_traffic(profiles[p], adapters[a]),
    decreases profiles.len(),
{
    if profiles.len() > 0 {
        let front = profiles.drop_last();
        let last = profiles.last();
        let before = full_tunnel_vpns(front, adapters);
        let all = full_tunnel_vpns(profiles, adapters);
        law_full_tunnels_are_those_switched_on(front, adapters, vpn);
        assert(profiles[profiles.len() - 1] == last);
        if last.adapter_description is Some {
            let condition = selected_full_tunnel(last.vpn, last.adapter_description->0@);
            lemma_first_exists(adapters, condition);
            assert forall|a: int| 0 <= a < adapters.len() implies condition(#[trigger] adapters[a])
                == takes_all_traffic(last, adapters[a]) by {}
        }
        if all.contains(vpn) {
            let k = choose|k: int| 0 <= k < all.len() && all[k] == vpn;
            if k < before.len() {
                assert(before.contains(vpn));
                let (p, a) = choose|p: int, a: int|
                    0 <= p < front.len() && 0 <= a < adapters.len() && front[p].vpn == vpn
                        && front[p].enabled && #[trigger] takes_all_traffic(front[p], adapters[a]);
                assert(profiles[p] == front[p]);
                assert(takes_all_traffic(profiles[p], adapters[a]));
            } else {
                let condition = selected_full_tunnel(last.vpn, last.adapter_description->0@);
                let a = choose|a: int| 0 <= a < adapters.len() && condition(#[trigger] adapters[a]);
                assert(takes_all_traffic(profiles[profiles.len() - 1], adapters[a]));
            }
        }
        if exists|p: int, a: int|
            0 <= p < profiles.len() && 0 <= a < adapters.len() && profiles[p].vpn == vpn
                && profiles[p].enabled && #[trigger] takes_all_traffic(profiles[p], adapters[a]) {
            let (p, a) = choose|p: int, a: int|
                0 <= p < profiles.len() && 0 <= a < adapters.len() && profiles[p].vpn == vpn
                    && profiles[p].enabled && #[trigger] takes_all_traffic(
                    profiles[p],
                    adapters[a],
                );
            if p < front.len() {
                assert(takes_all_traffic(front[p], adapters[a]));
                assert(before.contains(vpn));
                let k = choose|k: int| 0 <= k < before.len() && before[k] == vpn;
                assert(all[k] == vpn);
            } else {
                let condition = selected_full_tunnel(last.vpn, last.adapter_description->0@);
                assert(condition(adapters[a]));
                assert(enabled_full_tunnel(adapters)(last));
                assert(all[before.len() as int] == vpn);
            }
        }
    }
}

/// The interface is the first that takes all traffic for the VPN's profile.
pub open spec fn tunnel_of(
    profiles: Seq<VpnProfile>,
    adapters: Seq<AdapterView>,
    vpn: VpnKind,
    a: int,
) -> bool {
    &&& profile_of(profiles, vpn) is Some
    &&& 0 <= a < adapters.len()
    &&& takes_all_traffic(profile_of(profiles, vpn)->0, adapters[a])
    &&& forall|b: int|
        0 <= b < a ==> !takes_all_traffic(profile_of(profiles, vpn)->0, #[trigger] adapters[b])
}

/// Windows does not take the path for everything else before the VPN's interface.
pub open spec fn tunnel_comes_first(
    profiles: Seq<VpnProfile>,
    adapters: Seq<AdapterView>,
    vpn: VpnKind,
    fallback: FallbackView,
) -> bool {
    forall|a: int| #[trigger]
        tunnel_of(profiles, adapters, vpn, a) ==> !(fallback.priority() is Some && taken_before(
            fallback.priority()->0,
            fallback.interface_index(),
            adapters[a].full_tunnel_priority->0,
            adapters[a].index,
        ))
}

/// What keeps everything else on its way is left out just where Windows takes the path for
/// everything else before every VPN that takes all traffic anyway.
pub proof fn law_bypass_is_needed_where_a_tunnel_comes_first(
    profiles: Seq<VpnProfile>,
    adapters: Seq<AdapterView>,
    full_tunnels: Seq<VpnKind>,
    fallback: FallbackView,
)
    ensures
        bypass_required(profiles, adapters, full_tunnels, fallback) <==> exists|i: int|
            0 <= i < full_tunnels.len() && tunnel_comes_first(
                profiles,
                adapters,
                #[trigger] full_tunnels[i],
                fallback,
            ),
{
    assert forall|i: int| 0 <= i < full_tunnels.len() implies tunnel_wins(
        profiles,
        adapters,
        #[trigger] full_tunnels[i],
        fallback,
    ) == tunnel_comes_first(profiles, adapters, full_tunnels[i], fallback) by {
        lemma_tunnel(profiles, adapters, full_tunnels[i], fallback);
    }
}

/// The path for everything else is known by the default route and the interface that it
/// has: the ordinary network's, or the VPN's.
pub proof fn law_path_is_known_by_its_route(fallback: FallbackView)
    ensures
        match fallback {
            FallbackView::Physical(gateway) => fallback.priority() == gateway.route_priority
                && fallback.interface_index() == gateway.interface_index && fallback.next_hop()
                == gateway.next_hop,
            FallbackView::Vpn { vpn, adapter } => fallback.priority()
                == adapter.full_tunnel_priority && fallback.interface_index() == adapter.index
                && fallback.next_hop() == adapter.next_hop,
        },
{
}

/// One VPN that takes all traffic comes first just where the path for everything else does
/// not come before its interface.
proof fn lemma_tunnel(
    profiles: Seq<VpnProfile>,
    adapters: Seq<AdapterView>,
    vpn: VpnKind,
    fallback: FallbackView,
)
    ensures
        tunnel_wins(profiles, adapters, vpn, fallback) == tunnel_comes_first(
            profiles,
            adapters,
            vpn,
            fallback,
        ),
{
    if let Some(profile) = profile_of(profiles, vpn) {
        lemma_profile_index(profiles, vpn);
        assert(profile.vpn == vpn);
        if let Some(description) = profile.adapter_description {
            let condition = selected_full_tunnel(vpn, description@);
            lemma_first_index(adapters, condition);
            let at = first_index(adapters, condition);
            assert forall|a: int| 0 <= a < adapters.len() implies condition(#[trigger] adapters[a])
                == takes_all_traffic(profile, adapters[a]) by {}
            if at < adapters.len() {
                assert(tunnel_of(profiles, adapters, vpn, at));
            }
            assert forall|a: int| #[trigger] tunnel_of(profiles, adapters, vpn, a) implies a
                == at by {
                lemma_is_first(adapters, condition, a);
            }
        }
    }
}

/// Names are looked after just where an enabled VPN takes all traffic, an enabled profile
/// lists a name, or everything else goes through a VPN.
pub proof fn law_names_are_looked_after_where_needed(
    profiles: Seq<VpnProfile>,
    full_tunnels: Seq<VpnKind>,
    fallback: Option<FallbackView>,
)
    ensures
        manages_dns(profiles, full_tunnels, fallback) <==> full_tunnels.len() > 0 || (
        fallback is Some && fallback->0 is Vpn) || exists|p: int, e: int|
            0 <= p < profiles.len() && profiles[p].enabled && 0 <= e < entries_of(
                #[trigger] profiles[p].networks@,
            ).len() && #[trigger] entries_of(
                profiles[p].networks@,
            )[e].target is Domain,
{
    if names_enabled_domain(profiles) {
        let p = choose|p: int|
            0 <= p < profiles.len() && (#[trigger] profiles[p]).enabled
                && has_domain(
                entries_of(profiles[p].networks@),
            );
        let entries = entries_of(profiles[p].networks@);
        let e = choose|e: int| 0 <= e < entries.len() && (#[trigger] entries[e]).target is Domain;
        assert(entries_of(profiles[p].networks@)[e].target is Domain);
    }
    if exists|p: int, e: int|
        0 <= p < profiles.len() && profiles[p].enabled && 0 <= e < entries_of(
            #[trigger] profiles[p].networks@,
        ).len() && #[trigger] entries_of(
            profiles[p].networks@,
        )[e].target is Domain {
        let (p, e) = choose|p: int, e: int|
            0 <= p < profiles.len() && profiles[p].enabled && 0 <= e < entries_of(
                #[trigger] profiles[p].networks@,
            ).len() && #[trigger] entries_of(
                profiles[p].networks@,
            )[e].target is Domain;
        assert(has_domain(entries_of(profiles[p].networks@)));
        assert(profiles[p].enabled);
    }
}

/// Some text of the list is the address.
pub open spec fn names_address(texts: Seq<Seq<char>>, address: u32) -> bool {
    exists|i: int| 0 <= i < texts.len() && parsed_address(#[trigger] texts[i]) == Some(address)
}

/// A connected interface of a VPN has the name server.
pub open spec fn vpn_has_server(adapters: Seq<AdapterView>, server: u32) -> bool {
    exists|a: int|
        0 <= a < adapters.len() && (#[trigger] adapters[a]).is_up() && names_address(
            adapters[a].dns_servers,
            server,
        )
}

/// A connected VPN reports a name server just where one of its texts is that address.
proof fn lemma_vpn_has_server(adapters: Seq<AdapterView>, server: u32)
    ensures
        vpn_has_server(adapters, server) <==> reported_by_vpn(adapters, server),
{
    assert forall|a: int| 0 <= a < adapters.len() implies distinct_addresses(
        (#[trigger] adapters[a]).dns_servers,
    ).contains(server) == names_address(adapters[a].dns_servers, server) by {
        law_distinct_addresses(adapters[a].dns_servers);
    }
}

/// Names that no enabled VPN owns go to the name servers of the path for everything else,
/// all of them: a VPN's own where it is that path, else those that the ordinary network
/// uses and no connected VPN has, and those that it was set up with where there is no such
/// one. Where none is left this fails.
pub proof fn law_other_names_keep_their_servers(
    fallback: FallbackView,
    adapters: Seq<AdapterView>,
    server: u32,
)
    ensures
        ({
            let servers = fallback_servers(fallback, adapters);
            let own = match fallback {
                FallbackView::Vpn { vpn, adapter } => names_address(adapter.dns_servers, server),
                FallbackView::Physical(gateway) => !vpn_has_server(adapters, server) && if exists|
                    other: u32,
                |
                    #![trigger names_address(gateway.dns_servers, other)]
                    names_address(gateway.dns_servers, other) && !vpn_has_server(adapters, other) {
                    names_address(gateway.dns_servers, server)
                } else {
                    names_address(gateway.fallback_dns_servers, server)
                },
            };
            &&& own ==> servers is Ok
            &&& servers is Ok ==> servers->Ok_0.len() > 0 && servers->Ok_0.no_duplicates()
            &&& servers is Ok ==> (servers->Ok_0.contains(server) <==> own)
        }),
{
    match fallback {
        FallbackView::Vpn { vpn, adapter } => {
            law_distinct_addresses(adapter.dns_servers);
            let all = distinct_addresses(adapter.dns_servers);
            assert(all.contains(server) <==> names_address(adapter.dns_servers, server));
            if all.len() == 0 {
                assert(!all.contains(server));
            }
        },
        FallbackView::Physical(gateway) => {
            let condition = not_a_vpn_server(adapters);
            let now = distinct_addresses(gateway.dns_servers);
            let then = distinct_addresses(gateway.fallback_dns_servers);
            law_distinct_addresses(gateway.dns_servers);
            law_distinct_addresses(gateway.fallback_dns_servers);
            lemma_filter_members(now, condition);
            lemma_filter_members(then, condition);
            lemma_vpn_has_server(adapters, server);
            lemma_filter_distinct(now, condition);
            lemma_filter_distinct(then, condition);
            assert(now.contains(server) <==> names_address(gateway.dns_servers, server));
            assert(then.contains(server) <==> names_address(gateway.fallback_dns_servers, server));
            if exists|other: u32|
                #![trigger names_address(gateway.dns_servers, other)]
                names_address(gateway.dns_servers, other) && !vpn_has_server(adapters, other) {
                let other = choose|other: u32|
                    #![trigger names_address(gateway.dns_servers, other)]
                    names_address(gateway.dns_servers, other) && !vpn_has_server(adapters, other);
                lemma_vpn_has_server(adapters, other);
                assert(now.contains(other));
                assert(now.filter(condition).contains(other));
            } else if now.filter(condition).len() > 0 {
                let other = now.filter(condition)[0];
                assert(now.filter(condition).contains(other));
                assert(now.contains(other) && condition(other));
                lemma_vpn_has_server(adapters, other);
                assert(names_address(gateway.dns_servers, other));
            }
            if ordinary_servers(adapters, gateway).len() == 0 {
                assert(!ordinary_servers(adapters, gateway).contains(server));
            }
        },
    }
}

/// What is left of a list without repetition has none either.
proof fn lemma_filter_distinct(items: Seq<u32>, condition: spec_fn(u32) -> bool)
    requires
        items.no_duplicates(),
    ensures
        items.filter(condition).no_duplicates(),
    decreases items.len(),
{
    reveal(Seq::filter);
    if items.len() > 0 {
        let front = items.drop_last();
        lemma_filter_distinct(front, condition);
        lemma_filter_members(front, condition);
        if condition(items.last()) && front.filter(condition).contains(items.last()) {
            assert(front.contains(items.last()));
            let k = choose|k: int| 0 <= k < front.len() && front[k] == items.last();
            assert(items[k] == items[items.len() - 1]);
        }
    }
}

/// The text is the first of the list that is this address.
pub open spec fn first_named(texts: Seq<Seq<char>>, address: u32, k: int) -> bool {
    &&& 0 <= k < texts.len()
    &&& parsed_address(texts[k]) == Some(address)
    &&& forall|j: int| 0 <= j < k ==> parsed_address(#[trigger] texts[j]) != Some(address)
}

/// The addresses of a list stand in the order in which they first occur.
pub proof fn law_addresses_keep_their_order(
    texts: Seq<Seq<char>>,
    one: u32,
    other: u32,
    k: int,
    l: int,
)
    requires
        first_named(texts, one, k),
        first_named(texts, other, l),
        k < l,
    ensures
        ({
            let all = distinct_addresses(texts);
            exists|i: int, j: int|
                #![trigger all[i], all[j]]
                0 <= i < j < all.len() && all[i] == one && all[j] == other
        }),
    decreases texts.len(),
{
    let front = texts.drop_last();
    let before = distinct_addresses(front);
    let all = distinct_addresses(texts);
    law_distinct_addresses(front);
    if l < front.len() {
        assert(first_named(front, one, k)) by {
            assert forall|j: int| 0 <= j < k implies parsed_address(#[trigger] front[j]) != Some(
                one,
            ) by {
                assert(front[j] == texts[j]);
            }
        }
        assert(first_named(front, other, l)) by {
            assert forall|j: int| 0 <= j < l implies parsed_address(#[trigger] front[j]) != Some(
                other,
            ) by {
                assert(front[j] == texts[j]);
            }
        }
        law_addresses_keep_their_order(front, one, other, k, l);
        let (i, j) = choose|i: int, j: int|
            #![trigger before[i], before[j]]
            0 <= i < j < before.len() && before[i] == one && before[j] == other;
        assert(all[i] == one && all[j] == other);
    } else {
        assert(parsed_address(front[k]) == Some(one));
        assert(before.contains(one));
        let i = choose|i: int| 0 <= i < before.len() && before[i] == one;
        if before.contains(other) {
            let m = choose|m: int|
                0 <= m < front.len() && parsed_address(#[trigger] front[m]) == Some(other);
            assert(texts[m] == front[m]);
        }
        assert(all[i] == one && all[before.len() as int] == other);
    }
}

} // verus!
