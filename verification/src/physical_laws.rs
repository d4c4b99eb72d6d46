//! What holds of the routes that a configuration asks for.

use vstd::prelude::*;

use crate::domain::{distinct_vpns, enabled_vpn, is_enabled, lemma_enabled_vpn, VpnKind, VpnProfile};
use crate::lists::lemma_first_exists;
use crate::ipv4::{block_size, law_network_round_trip, overlap, parsed_network, Ipv4Net};
use crate::physical::{
    all_profile_routes, physical_bypass_route, physical_bypass_routes, physical_prepared,
    profile_routes, ready_servers, with_all_names, INTERNET_BYPASS_PREFIXES,
};
use crate::policy::{bypass_network, bypass_networks, target_route, target_routes};
use crate::preparation::{
    foreign_target, host_prefix, server_route, target_holds, with_servers, PreparedView, ROUTE_METRIC,
};
use crate::selection::{any_enabled, distinct_addresses, selection};
use crate::text::decimal;
use crate::validation::{targets_of, verdict, AnswerView, ValidatedView};
use crate::validation_laws::{
    faithful, law_accepted_profiles_are_faithful, law_accepted_profiles_do_not_overlap,
    law_read_targets_are_normal, lemma_validated_profiles_exist, normal,
};
use crate::windows::{AdapterView, GatewayView, ManagedRoutePurpose, RouteView};

verus! {

/// The route is one that an enabled profile asks for: through the interface of its VPN
/// for a target or a name server, and through the ordinary network for everything else,
/// which it leads back only where the VPN takes all traffic.
pub open spec fn route_fits(
    profiles: Seq<VpnProfile>,
    adapters: Seq<AdapterView>,
    gateway: Option<GatewayView>,
    route: RouteView,
) -> bool {
    &&& enabled_vpn(profiles, route.vpn)
    &&& route.route_metric == ROUTE_METRIC
    &&& selection(profiles, route.vpn, adapters) matches Ok(adapter)
    &&& if route.purpose == ManagedRoutePurpose::InternetBypass {
        &&& adapter.full_tunnel_priority is Some
        &&& gateway matches Some(found)
        &&& route.interface_index == found.interface_index
        &&& route.next_hop == found.next_hop
    } else {
        &&& route.interface_index == adapter.index
        &&& route.next_hop == adapter.next_hop
    }
}

/// Every route is one that an enabled profile asks for.
pub open spec fn all_fit(
    profiles: Seq<VpnProfile>,
    adapters: Seq<AdapterView>,
    gateway: Option<GatewayView>,
    routes: Seq<RouteView>,
) -> bool {
    forall|i: int|
        0 <= i < routes.len() ==> route_fits(profiles, adapters, gateway, #[trigger] routes[i])
}

/// The longer list starts with the shorter one.
pub open spec fn extends(shorter: Seq<RouteView>, longer: Seq<RouteView>) -> bool {
    shorter.len() <= longer.len() && shorter == longer.take(shorter.len() as int)
}

/// Extending is transitive.
pub proof fn lemma_extends(a: Seq<RouteView>, b: Seq<RouteView>, c: Seq<RouteView>)
    requires
        extends(a, b),
        extends(b, c),
    ensures
        extends(a, c),
{
    assert(a =~= c.take(a.len() as int)) by {
        assert forall|i: int| 0 <= i < a.len() implies a[i] == c[i] by {
            assert(a[i] == b.take(a.len() as int)[i]);
            assert(b[i] == c.take(b.len() as int)[i]);
        }
    }
}

/// What a list has, a longer one has too.
proof fn lemma_extends_contains(shorter: Seq<RouteView>, longer: Seq<RouteView>, route: RouteView)
    requires
        extends(shorter, longer),
        shorter.contains(route),
    ensures
        longer.contains(route),
{
    let i = choose|i: int| 0 <= i < shorter.len() && shorter[i] == route;
    assert(longer.take(shorter.len() as int)[i] == route);
    assert(longer[i] == route);
}

/// The name servers of a VPN add routes to themselves and nothing else, behind what is
/// there.
pub proof fn lemma_servers_extend(
    prepared: PreparedView,
    vpn: VpnKind,
    servers: Seq<u32>,
    interface_index: u32,
    next_hop: Seq<char>,
)
    requires
        with_servers(prepared, vpn, servers, interface_index, next_hop) is Ok,
    ensures
        ({
            let all = with_servers(prepared, vpn, servers, interface_index, next_hop)->Ok_0;
            &&& extends(prepared.routes, all.routes)
            &&& all.dns_rules == prepared.dns_rules
            &&& all.warnings == prepared.warnings
            &&& forall|i: int|
                prepared.routes.len() <= i < all.routes.len() ==> {
                    &&& (#[trigger] all.routes[i]).vpn == vpn
                    &&& all.routes[i].purpose == ManagedRoutePurpose::VpnDnsServer
                    &&& all.routes[i].interface_index == interface_index
                    &&& all.routes[i].next_hop == next_hop
                    &&& all.routes[i].route_metric == ROUTE_METRIC
                    &&& leads_to_own_server(prepared.routes, all.routes[i])
                }
        }),
    decreases servers.len(),
{
    if servers.len() == 0 {
        assert(prepared.routes =~= prepared.routes.take(prepared.routes.len() as int));
    } else {
        lemma_servers_extend(prepared, vpn, servers.drop_last(), interface_index, next_hop);
        let before = with_servers(
            prepared,
            vpn,
            servers.drop_last(),
            interface_index,
            next_hop,
        )->Ok_0;
        let all = with_servers(prepared, vpn, servers, interface_index, next_hop)->Ok_0;
        assert(extends(before.routes, all.routes)) by {
            assert(before.routes =~= all.routes.take(before.routes.len() as int));
        }
        lemma_extends(prepared.routes, before.routes, all.routes);
        let address = servers.last();
        lemma_first_exists(before.routes, foreign_target(vpn, address));
        assert forall|i: int| prepared.routes.len() <= i < all.routes.len() implies {
            &&& (#[trigger] all.routes[i]).vpn == vpn
            &&& all.routes[i].purpose == ManagedRoutePurpose::VpnDnsServer
            &&& all.routes[i].interface_index == interface_index
            &&& all.routes[i].next_hop == next_hop
            &&& all.routes[i].route_metric == ROUTE_METRIC
            &&& leads_to_own_server(prepared.routes, all.routes[i])
        } by {
            if i < before.routes.len() {
                assert(all.routes[i] == all.routes.take(before.routes.len() as int)[i]);
                assert(leads_to_own_server(prepared.routes, before.routes[i]));
            } else {
                assert(all.routes[i] == server_route(vpn, address, interface_index, next_hop));
                assert forall|j: int| 0 <= j < prepared.routes.len() implies !foreign_target(
                    vpn,
                    address,
                )(#[trigger] prepared.routes[j]) by {
                    assert(prepared.routes[j] == before.routes.take(
                        prepared.routes.len() as int,
                    )[j]);
                    assert(!foreign_target(vpn, address)(before.routes[j]));
                }
                assert(own_server(prepared.routes, all.routes[i], address));
            }
        }
    }
}

/// The route leads to the address alone, which lies in no target of another VPN.
pub open spec fn own_server(routes: Seq<RouteView>, route: RouteView, address: u32) -> bool {
    &&& route.prefix == host_prefix(address)
    &&& forall|j: int|
        0 <= j < routes.len() ==> !foreign_target(route.vpn, address)(#[trigger] routes[j])
}

/// The route leads to a single address, which lies in no target of another VPN.
pub open spec fn leads_to_own_server(routes: Seq<RouteView>, route: RouteView) -> bool {
    exists|address: u32| own_server(routes, route, address)
}

/// A target of another VPN among fewer routes is one among all of them.
pub proof fn lemma_own_server_among_fewer(
    fewer: Seq<RouteView>,
    routes: Seq<RouteView>,
    route: RouteView,
)
    requires
        extends(fewer, routes),
        leads_to_own_server(routes, route),
    ensures
        leads_to_own_server(fewer, route),
{
    let address = choose|address: u32| own_server(routes, route, address);
    assert forall|j: int| 0 <= j < fewer.len() implies !foreign_target(route.vpn, address)(
        #[trigger] fewer[j],
    ) by {
        assert(fewer[j] == routes.take(fewer.len() as int)[j]);
        assert(!foreign_target(route.vpn, address)(routes[j]));
    }
    assert(own_server(fewer, route, address));
}

/// The names of profiles add routes to name servers and nothing else, behind what is
/// there.
pub proof fn lemma_names_extend(
    prepared: PreparedView,
    profiles: Seq<VpnProfile>,
    adapters: Seq<AdapterView>,
    validated: Seq<ValidatedView>,
)
    requires
        with_all_names(prepared, profiles, adapters, validated) is Ok,
    ensures
        ({
            let all = with_all_names(prepared, profiles, adapters, validated)->Ok_0;
            &&& extends(prepared.routes, all.routes)
            &&& forall|i: int|
                prepared.routes.len() <= i < all.routes.len() ==> server_route_of(
                    profiles,
                    adapters,
                    validated,
                    #[trigger] all.routes[i],
                ) && leads_to_own_server(prepared.routes, all.routes[i])
        }),
    decreases validated.len(),
{
    if validated.len() == 0 {
        assert(prepared.routes =~= prepared.routes.take(prepared.routes.len() as int));
    } else {
        let front = validated.drop_last();
        lemma_names_extend(prepared, profiles, adapters, front);
        let before = with_all_names(prepared, profiles, adapters, front)->Ok_0;
        let all = with_all_names(prepared, profiles, adapters, validated)->Ok_0;
        let last = validated.last();
        if last.hostnames.len() > 0 {
            let adapter = selection(profiles, last.vpn, adapters)->Ok_0;
            let servers = distinct_addresses(adapter.dns_servers);
            if servers.len() > 0 {
                let ruled = before.with_rule(
                    crate::preparation::vpn_rule(last.vpn, last.hostnames, servers),
                );
                lemma_servers_extend(ruled, last.vpn, servers, adapter.index, adapter.next_hop);
            } else {
                assert(before.routes =~= all.routes.take(before.routes.len() as int));
            }
        } else {
            assert(before.routes =~= all.routes.take(before.routes.len() as int));
        }
        lemma_extends(prepared.routes, before.routes, all.routes);
        assert forall|i: int| prepared.routes.len() <= i < all.routes.len() implies server_route_of(
            profiles,
            adapters,
            validated,
            #[trigger] all.routes[i],
        ) && leads_to_own_server(prepared.routes, all.routes[i]) by {
            if i < before.routes.len() {
                assert(all.routes[i] == all.routes.take(before.routes.len() as int)[i]);
                assert(server_route_of(profiles, adapters, front, before.routes[i]));
                let k = choose|k: int|
                    0 <= k < front.len() && (#[trigger] front[k]).vpn == before.routes[i].vpn;
                assert(validated[k].vpn == all.routes[i].vpn);
            } else {
                assert(validated[validated.len() - 1].vpn == all.routes[i].vpn);
                lemma_own_server_among_fewer(prepared.routes, before.routes, all.routes[i]);
            }
        }
    }
}

/// The route leads to a name server of one of the VPNs, through its interface.
pub open spec fn server_route_of(
    profiles: Seq<VpnProfile>,
    adapters: Seq<AdapterView>,
    validated: Seq<ValidatedView>,
    route: RouteView,
) -> bool {
    &&& exists|k: int| 0 <= k < validated.len() && (#[trigger] validated[k]).vpn == route.vpn
    &&& route.purpose == ManagedRoutePurpose::VpnDnsServer
    &&& route.route_metric == ROUTE_METRIC
    &&& selection(profiles, route.vpn, adapters) matches Ok(adapter)
    &&& route.interface_index == adapter.index
    &&& route.next_hop == adapter.next_hop
}

/// The routes of enabled profiles are those that they ask for, and all of them.
proof fn lemma_profile_routes_fit(
    profiles: Seq<VpnProfile>,
    validated: Seq<ValidatedView>,
    adapters: Seq<AdapterView>,
    gateway: Option<GatewayView>,
)
    requires
        all_profile_routes(profiles, validated, adapters, gateway) is Ok,
        forall|i: int|
            0 <= i < validated.len() ==> enabled_vpn(profiles, (#[trigger] validated[i]).vpn),
    ensures
        ({
            let routes = all_profile_routes(profiles, validated, adapters, gateway)->Ok_0.routes;
            &&& all_fit(profiles, adapters, gateway, routes)
            &&& forall|i: int|
                0 <= i < validated.len() ==> is_routed(
                    profiles,
                    adapters,
                    gateway,
                    #[trigger] validated[i],
                    routes,
                )
        }),
    decreases validated.len(),
{
    if validated.len() > 0 {
        let front = validated.drop_last();
        let last = validated.last();
        assert forall|i: int| 0 <= i < front.len() implies enabled_vpn(
            profiles,
            (#[trigger] front[i]).vpn,
        ) by {
            assert(front[i] == validated[i]);
        }
        assert(enabled_vpn(profiles, validated[validated.len() - 1].vpn));
        lemma_profile_routes_fit(profiles, front, adapters, gateway);
        let before = all_profile_routes(profiles, front, adapters, gateway)->Ok_0.routes;
        let more = profile_routes(profiles, last, adapters, gateway)->Ok_0.routes;
        let all = all_profile_routes(profiles, validated, adapters, gateway)->Ok_0.routes;
        let adapter = selection(profiles, last.vpn, adapters)->Ok_0;
        let targets = target_routes(last.vpn, last.networks, adapter);
        assert(all == before + more);
        assert forall|i: int| 0 <= i < all.len() implies route_fits(
            profiles,
            adapters,
            gateway,
            #[trigger] all[i],
        ) by {
            if i < before.len() {
                assert(all[i] == before[i]);
            } else {
                assert(all[i] == more[i - before.len()]);
                if i - before.len() < targets.len() {
                    assert(more[i - before.len()] == targets[i - before.len()]);
                }
            }
        }
        assert forall|i: int| 0 <= i < validated.len() implies is_routed(
            profiles,
            adapters,
            gateway,
            #[trigger] validated[i],
            all,
        ) by {
            if i < front.len() {
                assert(is_routed(profiles, adapters, gateway, front[i], before));
                lemma_routed_stays(profiles, adapters, gateway, front[i], before, all);
            } else {
                assert forall|k: int| 0 <= k < last.networks.len() implies all.contains(
                    target_route(last.vpn, #[trigger] last.networks[k], adapter),
                ) by {
                    assert(all[before.len() + k] == targets[k]);
                }
                if adapter.full_tunnel_priority is Some {
                    assert forall|k: int| 0 <= k < 4 implies all.contains(
                        #[trigger] physical_bypass_route(last.vpn, k, gateway->0),
                    ) by {
                        assert(all[before.len() + targets.len() + k] == physical_bypass_routes(
                            last.vpn,
                            gateway->0,
                        )[k]);
                    }
                }
            }
        }
    }
}

/// What is routed stays so when more routes are added.
proof fn lemma_routed_stays(
    profiles: Seq<VpnProfile>,
    adapters: Seq<AdapterView>,
    gateway: Option<GatewayView>,
    validated: ValidatedView,
    shorter: Seq<RouteView>,
    longer: Seq<RouteView>,
)
    requires
        is_routed(profiles, adapters, gateway, validated, shorter),
        shorter.len() <= longer.len(),
        forall|i: int| 0 <= i < shorter.len() ==> shorter[i] == longer[i],
    ensures
        is_routed(profiles, adapters, gateway, validated, longer),
{
    assert(shorter =~= longer.take(shorter.len() as int));
    let adapter = selection(profiles, validated.vpn, adapters)->Ok_0;
    assert forall|k: int| 0 <= k < validated.networks.len() implies longer.contains(
        target_route(validated.vpn, #[trigger] validated.networks[k], adapter),
    ) by {
        lemma_extends_contains(
            shorter,
            longer,
            target_route(validated.vpn, validated.networks[k], adapter),
        );
    }
    if adapter.full_tunnel_priority is Some {
        assert forall|k: int| 0 <= k < 4 implies longer.contains(
            #[trigger] physical_bypass_route(validated.vpn, k, gateway->0),
        ) by {
            lemma_extends_contains(
                shorter,
                longer,
                physical_bypass_route(validated.vpn, k, gateway->0),
            );
        }
    }
}

/// Every network of the profile has a route through the interface of the VPN, and where
/// the VPN takes all traffic, everything else has one back to the ordinary network.
pub open spec fn is_routed(
    profiles: Seq<VpnProfile>,
    adapters: Seq<AdapterView>,
    gateway: Option<GatewayView>,
    validated: ValidatedView,
    routes: Seq<RouteView>,
) -> bool {
    &&& selection(profiles, validated.vpn, adapters) matches Ok(adapter)
    &&& forall|k: int|
        0 <= k < validated.networks.len() ==> routes.contains(
            target_route(validated.vpn, #[trigger] validated.networks[k], adapter),
        )
    &&& adapter.full_tunnel_priority is Some ==> gateway is Some && forall|k: int|
        0 <= k < 4 ==> routes.contains(
            #[trigger] physical_bypass_route(validated.vpn, k, gateway->0),
        )
}

/// Every route of a prepared configuration is one that an enabled profile asks for, and
/// every network of every enabled profile is routed.
pub proof fn law_prepared_routes_fit(
    profiles: Seq<VpnProfile>,
    adapters: Seq<AdapterView>,
    gateway: Option<GatewayView>,
    answers: Seq<AnswerView>,
)
    requires
        physical_prepared(profiles, adapters, gateway, answers) is Ok,
    ensures
        ({
            let routes = physical_prepared(profiles, adapters, gateway, answers)->Ok_0.routes;
            &&& all_fit(profiles, adapters, gateway, routes)
            &&& any_enabled(profiles) ==> verdict(targets_of(profiles), answers) is Ok
                && forall|i: int|
                0 <= i < verdict(targets_of(profiles), answers)->Ok_0.len() ==> is_routed(
                    profiles,
                    adapters,
                    gateway,
                    #[trigger] verdict(targets_of(profiles), answers)->Ok_0[i],
                    routes,
                )
        }),
{
    if any_enabled(profiles) {
        let physical = ready_servers(profiles, adapters, gateway)->Ok_0;
        let validated = verdict(targets_of(profiles), answers)->Ok_0;
        let start = all_profile_routes(profiles, validated, adapters, gateway)->Ok_0;
        let all = physical_prepared(profiles, adapters, gateway, answers)->Ok_0;
        lemma_validated_profiles_exist(profiles, answers);
        lemma_profile_routes_fit(profiles, validated, adapters, gateway);
        let ruled = start.with_rule(crate::preparation::general_rule(physical));
        lemma_names_extend(ruled, profiles, adapters, validated);
        assert forall|i: int| 0 <= i < all.routes.len() implies route_fits(
            profiles,
            adapters,
            gateway,
            #[trigger] all.routes[i],
        ) by {
            if i < start.routes.len() {
                assert(all.routes[i] == all.routes.take(start.routes.len() as int)[i]);
                assert(route_fits(profiles, adapters, gateway, start.routes[i]));
            } else {
                assert(server_route_of(profiles, adapters, validated, all.routes[i]));
                let k = choose|k: int|
                    0 <= k < validated.len() && (#[trigger] validated[k]).vpn
                        == all.routes[i].vpn;
                assert(enabled_vpn(profiles, validated[k].vpn));
            }
        }
        assert forall|i: int| 0 <= i < validated.len() implies is_routed(
            profiles,
            adapters,
            gateway,
            #[trigger] validated[i],
            all.routes,
        ) by {
            assert(is_routed(profiles, adapters, gateway, validated[i], start.routes));
            assert forall|k: int| 0 <= k < start.routes.len() implies start.routes[k]
                == all.routes[k] by {
                assert(all.routes[k] == all.routes.take(start.routes.len() as int)[k]);
            }
            lemma_routed_stays(
                profiles,
                adapters,
                gateway,
                validated[i],
                start.routes,
                all.routes,
            );
        }
    }
}

/// Disabling a profile removes its routes: a prepared configuration has none for a VPN
/// that is not enabled.
pub proof fn law_disabled_vpn_has_no_routes(
    profiles: Seq<VpnProfile>,
    adapters: Seq<AdapterView>,
    gateway: Option<GatewayView>,
    answers: Seq<AnswerView>,
    vpn: VpnKind,
)
    requires
        distinct_vpns(profiles),
        !is_enabled(profiles, vpn),
        physical_prepared(profiles, adapters, gateway, answers) is Ok,
    ensures
        forall|i: int|
            0 <= i < physical_prepared(profiles, adapters, gateway, answers)->Ok_0.routes.len()
                ==> (#[trigger] physical_prepared(
                profiles,
                adapters,
                gateway,
                answers,
            )->Ok_0.routes[i]).vpn != vpn,
{
    law_prepared_routes_fit(profiles, adapters, gateway, answers);
    let routes = physical_prepared(profiles, adapters, gateway, answers)->Ok_0.routes;
    assert forall|i: int| 0 <= i < routes.len() implies (#[trigger] routes[i]).vpn != vpn by {
        assert(route_fits(profiles, adapters, gateway, routes[i]));
        lemma_enabled_vpn(profiles, routes[i].vpn);
    }
}

/// The four networks in their notation.
proof fn lemma_bypass_prefixes()
    ensures
        forall|k: int|
            0 <= k < 4 ==> (#[trigger] INTERNET_BYPASS_PREFIXES[k])@ == quarter(k).text(),
{
    reveal_strlit("0.0.0.0/2");
    reveal_strlit("64.0.0.0/2");
    reveal_strlit("128.0.0.0/2");
    reveal_strlit("192.0.0.0/2");
    reveal_with_fuel(decimal, 4);
    assert forall|k: int| 0 <= k < 4 implies (#[trigger] INTERNET_BYPASS_PREFIXES[k])@ == quarter(
        k,
    ).text() by {
        if k == 0 {
            assert(INTERNET_BYPASS_PREFIXES[0]@ =~= quarter(0).text());
        } else if k == 1 {
            assert(INTERNET_BYPASS_PREFIXES[1]@ =~= quarter(1).text());
        } else if k == 2 {
            assert(INTERNET_BYPASS_PREFIXES[2]@ =~= quarter(2).text());
        } else {
            assert(INTERNET_BYPASS_PREFIXES[3]@ =~= quarter(3).text());
        }
    }
}

/// One of the four networks that make up the whole address space.
pub open spec fn quarter(index: int) -> Ipv4Net {
    Ipv4Net { addr: (index * 0x4000_0000) as u32, prefix_len: 2 }
}

/// Every address lies in exactly one of the four networks that lead everything back.
pub proof fn law_bypass_prefixes_cover_every_address(address: u32)
    ensures
        forall|k: int|
            0 <= k < 4 ==> parsed_network((#[trigger] INTERNET_BYPASS_PREFIXES[k])@) == Some(
                quarter(k),
            ) && (quarter(k).covers(address) <==> k == address / 0x4000_0000),
{
    lemma_bypass_prefixes();
    vstd::arithmetic::power2::lemma2_to64();
    assert forall|k: int| 0 <= k < 4 implies parsed_network(
        (#[trigger] INTERNET_BYPASS_PREFIXES[k])@,
    ) == Some(quarter(k)) && (quarter(k).covers(address) <==> k == address / 0x4000_0000) by {
        law_network_round_trip(quarter(k));
        assert(block_size(2) == 0x4000_0000);
        assert(quarter(k).first() == k * 0x4000_0000);
    }
}

/// Every address lies in exactly one of the sixteen networks that keep everything else
/// on its way.
pub proof fn law_bypass_networks_cover_every_address(address: u32)
    ensures
        forall|k: int|
            0 <= k < 16 ==> ((#[trigger] bypass_networks()[k]).covers(address) <==> k == address
                / 0x1000_0000),
{
    vstd::arithmetic::power2::lemma2_to64();
    assert forall|k: int| 0 <= k < 16 implies ((#[trigger] bypass_networks()[k]).covers(address)
        <==> k == address / 0x1000_0000) by {
        assert(block_size(4) == 0x1000_0000);
        assert(bypass_networks()[k] == bypass_network(k));
        assert(bypass_network(k).addr == k * 0x1000_0000);
        assert((k * 0x1000_0000) % 0x1000_0000 == 0);
        assert(bypass_networks()[k].first() == k * 0x1000_0000);
    }
}

/// The route directs that network of that profile to the interface of its VPN.
pub open spec fn directs(
    profiles: Seq<VpnProfile>,
    adapters: Seq<AdapterView>,
    validated: Seq<ValidatedView>,
    route: RouteView,
    i: int,
    k: int,
) -> bool {
    &&& 0 <= i < validated.len()
    &&& 0 <= k < validated[i].networks.len()
    &&& selection(profiles, validated[i].vpn, adapters) matches Ok(adapter)
    &&& route == target_route(validated[i].vpn, validated[i].networks[k], adapter)
}

/// The route leads one of the four networks back to the ordinary network.
pub open spec fn leads_back(route: RouteView, k: int) -> bool {
    &&& 0 <= k < 4
    &&& route.purpose == ManagedRoutePurpose::InternetBypass
    &&& route.prefix == INTERNET_BYPASS_PREFIXES[k]@
}

/// The route directs some network of some profile, or leads something back.
pub open spec fn directs_or_leads_back(
    profiles: Seq<VpnProfile>,
    adapters: Seq<AdapterView>,
    validated: Seq<ValidatedView>,
    route: RouteView,
) -> bool {
    (exists|i: int, k: int| directs(profiles, adapters, validated, route, i, k)) || (exists|k: int|
        leads_back(route, k))
}

/// The routes of profiles direct their networks and lead something back, and do nothing
/// else.
proof fn lemma_origin(
    profiles: Seq<VpnProfile>,
    validated: Seq<ValidatedView>,
    adapters: Seq<AdapterView>,
    gateway: Option<GatewayView>,
)
    requires
        all_profile_routes(profiles, validated, adapters, gateway) is Ok,
    ensures
        forall|r: int|
            0 <= r < all_profile_routes(profiles, validated, adapters, gateway)->Ok_0.routes.len()
                ==> directs_or_leads_back(
                profiles,
                adapters,
                validated,
                #[trigger] all_profile_routes(
                    profiles,
                    validated,
                    adapters,
                    gateway,
                )->Ok_0.routes[r],
            ),
    decreases validated.len(),
{
    if validated.len() > 0 {
        let front = validated.drop_last();
        let last = validated.last();
        lemma_origin(profiles, front, adapters, gateway);
        let before = all_profile_routes(profiles, front, adapters, gateway)->Ok_0.routes;
        let more = profile_routes(profiles, last, adapters, gateway)->Ok_0.routes;
        let all = all_profile_routes(profiles, validated, adapters, gateway)->Ok_0.routes;
        let adapter = selection(profiles, last.vpn, adapters)->Ok_0;
        let targets = target_routes(last.vpn, last.networks, adapter);
        assert(all == before + more);
        assert forall|r: int| 0 <= r < all.len() implies directs_or_leads_back(
            profiles,
            adapters,
            validated,
            #[trigger] all[r],
        ) by {
            if r < before.len() {
                assert(all[r] == before[r]);
                assert(directs_or_leads_back(profiles, adapters, front, before[r]));
                if exists|i: int, k: int| directs(profiles, adapters, front, before[r], i, k) {
                    let (i, k) = choose|i: int, k: int|
                        directs(profiles, adapters, front, before[r], i, k);
                    assert(directs(profiles, adapters, validated, all[r], i, k));
                }
            } else {
                let at = r - before.len();
                assert(all[r] == more[at]);
                if at < targets.len() {
                    assert(more[at] == targets[at]);
                    assert(directs(
                        profiles,
                        adapters,
                        validated,
                        all[r],
                        validated.len() - 1,
                        at,
                    ));
                } else {
                    assert(leads_back(all[r], at - targets.len()));
                }
            }
        }
    }
}

/// The network that the route is for holds the address.
pub open spec fn route_covers(route: RouteView, address: u32) -> bool {
    parsed_network(route.prefix) matches Some(network) && network.covers(address)
}

/// A network of a profile holds the address.
pub open spec fn lists(validated: ValidatedView, address: u32) -> bool {
    exists|k: int|
        0 <= k < validated.networks.len() && (#[trigger] validated.networks[k]).covers(address)
}

/// Networks that hold a common address belong to one profile.
pub proof fn lemma_one_owner(
    profiles: Seq<VpnProfile>,
    answers: Seq<AnswerView>,
    i: int,
    j: int,
    address: u32,
)
    requires
        verdict(targets_of(profiles), answers) is Ok,
        0 <= i < verdict(targets_of(profiles), answers)->Ok_0.len(),
        0 <= j < verdict(targets_of(profiles), answers)->Ok_0.len(),
        lists(verdict(targets_of(profiles), answers)->Ok_0[i], address),
        lists(verdict(targets_of(profiles), answers)->Ok_0[j], address),
    ensures
        i == j,
{
    let targets = targets_of(profiles);
    let validated = verdict(targets, answers)->Ok_0;
    law_read_targets_are_normal(profiles);
    law_accepted_profiles_are_faithful(targets, answers);
    let a = choose|a: int|
        0 <= a < validated[i].networks.len() && (#[trigger] validated[i].networks[a]).covers(
            address,
        );
    let b = choose|b: int|
        0 <= b < validated[j].networks.len() && (#[trigger] validated[j].networks[b]).covers(
            address,
        );
    if i < j {
        law_accepted_profiles_do_not_overlap(targets, answers, i, j);
        assert(overlap(validated[i].networks[a], validated[j].networks[b]));
    } else if j < i {
        law_accepted_profiles_do_not_overlap(targets, answers, j, i);
        assert(overlap(validated[j].networks[b], validated[i].networks[a]));
    }
}

/// A route for a target that covers an address does so because its profile lists it.
pub proof fn lemma_covering_target(
    profiles: Seq<VpnProfile>,
    adapters: Seq<AdapterView>,
    answers: Seq<AnswerView>,
    route: RouteView,
    i: int,
    k: int,
    address: u32,
)
    requires
        verdict(targets_of(profiles), answers) is Ok,
        directs(
            profiles,
            adapters,
            verdict(targets_of(profiles), answers)->Ok_0,
            route,
            i,
            k,
        ),
    ensures
        parsed_network(route.prefix) == Some(
            verdict(targets_of(profiles), answers)->Ok_0[i].networks[k],
        ),
        route_covers(route, address) ==> lists(
            verdict(targets_of(profiles), answers)->Ok_0[i],
            address,
        ),
{
    let targets = targets_of(profiles);
    let validated = verdict(targets, answers)->Ok_0;
    law_read_targets_are_normal(profiles);
    law_accepted_profiles_are_faithful(targets, answers);
    assert(faithful(targets[i], answers, validated[i]));
    assert(normal(validated[i].networks[k]));
    law_network_round_trip(validated[i].networks[k]);
}

/// The single address of a prefix is the only one that it covers.
pub proof fn lemma_host_prefix(address: u32, other: u32)
    ensures
        parsed_network(host_prefix(address)) matches Some(network) && (network.covers(other)
            <==> other == address),
{
    law_network_round_trip(Ipv4Net { addr: address, prefix_len: 32 });
}

/// An address that a profile lists goes through the interface of its VPN: there is a
/// route for it through that interface, and every other route that covers it leads
/// there too or is one of the wide ones that lead everything back. So it does wherever
/// the network that holds it is narrower than those.
pub proof fn law_listed_address_goes_through_its_vpn(
    profiles: Seq<VpnProfile>,
    adapters: Seq<AdapterView>,
    gateway: Option<GatewayView>,
    answers: Seq<AnswerView>,
    i: int,
    k: int,
    address: u32,
)
    requires
        any_enabled(profiles),
        physical_prepared(profiles, adapters, gateway, answers) is Ok,
        0 <= i < verdict(targets_of(profiles), answers)->Ok_0.len(),
        0 <= k < verdict(targets_of(profiles), answers)->Ok_0[i].networks.len(),
        verdict(targets_of(profiles), answers)->Ok_0[i].networks[k].covers(address),
    ensures
        ({
            let routes = physical_prepared(profiles, adapters, gateway, answers)->Ok_0.routes;
            let owner = verdict(targets_of(profiles), answers)->Ok_0[i];
            let adapter = selection(profiles, owner.vpn, adapters)->Ok_0;
            &&& selection(profiles, owner.vpn, adapters) is Ok
            &&& routes.contains(target_route(owner.vpn, owner.networks[k], adapter))
            &&& parsed_network(target_route(owner.vpn, owner.networks[k], adapter).prefix) == Some(
                owner.networks[k],
            )
            &&& forall|r: int|
                0 <= r < routes.len() && route_covers(#[trigger] routes[r], address) ==> {
                    ||| routes[r].vpn == owner.vpn && routes[r].purpose
                        != ManagedRoutePurpose::InternetBypass && routes[r].interface_index
                        == adapter.index && routes[r].next_hop == adapter.next_hop
                    ||| routes[r].purpose == ManagedRoutePurpose::InternetBypass
                        && parsed_network(routes[r].prefix)->0.prefix_len == 2
                }
        }),
{
    let all = physical_prepared(profiles, adapters, gateway, answers)->Ok_0;
    let validated = verdict(targets_of(profiles), answers)->Ok_0;
    let owner = validated[i];
    let adapter = selection(profiles, owner.vpn, adapters)->Ok_0;
    let start = all_profile_routes(profiles, validated, adapters, gateway)->Ok_0;
    let physical = ready_servers(profiles, adapters, gateway)->Ok_0;
    let own_route = target_route(owner.vpn, owner.networks[k], adapter);
    law_prepared_routes_fit(profiles, adapters, gateway, answers);
    assert(is_routed(profiles, adapters, gateway, owner, all.routes));
    lemma_origin(profiles, validated, adapters, gateway);
    lemma_names_extend(
        start.with_rule(crate::preparation::general_rule(physical)),
        profiles,
        adapters,
        validated,
    );
    assert(directs(profiles, adapters, validated, own_route, i, k));
    lemma_covering_target(profiles, adapters, answers, own_route, i, k, address);
    lemma_validated_profiles_exist(profiles, answers);
    lemma_profile_routes_fit(profiles, validated, adapters, gateway);
    assert(is_routed(profiles, adapters, gateway, validated[i], start.routes));
    let own_at = choose|at: int| 0 <= at < start.routes.len() && start.routes[at] == own_route;
    assert(start.routes.contains(own_route));
    assert forall|r: int|
        0 <= r < all.routes.len() && route_covers(#[trigger] all.routes[r], address) implies {
        ||| all.routes[r].vpn == owner.vpn && all.routes[r].purpose
            != ManagedRoutePurpose::InternetBypass && all.routes[r].interface_index == adapter.index
            && all.routes[r].next_hop == adapter.next_hop
        ||| all.routes[r].purpose == ManagedRoutePurpose::InternetBypass && parsed_network(
            all.routes[r].prefix,
        )->0.prefix_len == 2
    } by {
        let route = all.routes[r];
        if r < start.routes.len() {
            assert(route == all.routes.take(start.routes.len() as int)[r]);
            assert(directs_or_leads_back(profiles, adapters, validated, start.routes[r]));
            if exists|j: int, m: int| directs(profiles, adapters, validated, route, j, m) {
                let (j, m) = choose|j: int, m: int|
                    directs(profiles, adapters, validated, route, j, m);
                lemma_covering_target(profiles, adapters, answers, route, j, m, address);
                lemma_one_owner(profiles, answers, i, j, address);
            } else {
                let m = choose|m: int| leads_back(route, m);
                law_bypass_prefixes_cover_every_address(address);
                assert(parsed_network(INTERNET_BYPASS_PREFIXES[m]@) == Some(quarter(m)));
            }
        } else {
            assert(server_route_of(profiles, adapters, validated, route));
            assert(leads_to_own_server(start.routes, route));
            let server = choose|server: u32| own_server(start.routes, route, server);
            lemma_host_prefix(server, address);
            if route.vpn != owner.vpn {
                assert(!foreign_target(route.vpn, server)(start.routes[own_at]));
                assert(target_holds(start.routes[own_at], server));
            }
        }
    }
}

/// An address that no profile lists keeps its way: every route that covers it leads it
/// back to the ordinary network, or it is the address of a name server of a VPN, whose
/// route goes through the interface of that VPN.
pub proof fn law_unlisted_address_keeps_its_way(
    profiles: Seq<VpnProfile>,
    adapters: Seq<AdapterView>,
    gateway: Option<GatewayView>,
    answers: Seq<AnswerView>,
    address: u32,
)
    requires
        any_enabled(profiles),
        physical_prepared(profiles, adapters, gateway, answers) is Ok,
        forall|i: int|
            0 <= i < verdict(targets_of(profiles), answers)->Ok_0.len() ==> !lists(
                #[trigger] verdict(targets_of(profiles), answers)->Ok_0[i],
                address,
            ),
    ensures
        ({
            let routes = physical_prepared(profiles, adapters, gateway, answers)->Ok_0.routes;
            forall|r: int|
                0 <= r < routes.len() && route_covers(#[trigger] routes[r], address) ==> {
                    ||| routes[r].purpose == ManagedRoutePurpose::InternetBypass && gateway is Some
                        && routes[r].interface_index == gateway->0.interface_index
                        && routes[r].next_hop == gateway->0.next_hop
                    ||| routes[r].purpose == ManagedRoutePurpose::VpnDnsServer && routes[r].prefix
                        == host_prefix(address)
                }
        }),
{
    let all = physical_prepared(profiles, adapters, gateway, answers)->Ok_0;
    let validated = verdict(targets_of(profiles), answers)->Ok_0;
    let start = all_profile_routes(profiles, validated, adapters, gateway)->Ok_0;
    let physical = ready_servers(profiles, adapters, gateway)->Ok_0;
    law_prepared_routes_fit(profiles, adapters, gateway, answers);
    lemma_origin(profiles, validated, adapters, gateway);
    lemma_names_extend(
        start.with_rule(crate::preparation::general_rule(physical)),
        profiles,
        adapters,
        validated,
    );
    assert forall|r: int|
        0 <= r < all.routes.len() && route_covers(#[trigger] all.routes[r], address) implies {
        ||| all.routes[r].purpose == ManagedRoutePurpose::InternetBypass && gateway is Some
            && all.routes[r].interface_index == gateway->0.interface_index
            && all.routes[r].next_hop == gateway->0.next_hop
        ||| all.routes[r].purpose == ManagedRoutePurpose::VpnDnsServer && all.routes[r].prefix
            == host_prefix(address)
    } by {
        let route = all.routes[r];
        assert(route_fits(profiles, adapters, gateway, route));
        if r < start.routes.len() {
            assert(route == all.routes.take(start.routes.len() as int)[r]);
            assert(directs_or_leads_back(profiles, adapters, validated, start.routes[r]));
            if exists|j: int, m: int| directs(profiles, adapters, validated, route, j, m) {
                let (j, m) = choose|j: int, m: int|
                    directs(profiles, adapters, validated, route, j, m);
                lemma_covering_target(profiles, adapters, answers, route, j, m, address);
            }
        } else {
            assert(server_route_of(profiles, adapters, validated, route));
            assert(leads_to_own_server(start.routes, route));
            let server = choose|server: u32| own_server(start.routes, route, server);
            lemma_host_prefix(server, address);
        }
    }
}

}
