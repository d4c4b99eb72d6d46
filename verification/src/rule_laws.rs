//! What holds of the rules for names and of the routes to name servers.

use vstd::prelude::*;

use crate::dns_plan::{DnsPlanView, ProfilePlanView};
use crate::domain::{VpnKind, VpnProfile};
use crate::fallback::ordinary_servers_or_reason;
use crate::ipv4::{law_address_round_trip, law_network_round_trip, parsed_address, parsed_network, Ipv4Net};
use crate::lists::lemma_first_exists;
use crate::physical::{
    asked_servers, physical_prepared, physical_servers, with_all_names, with_names,
};
use crate::policy::{inside_target, with_dns_policy, with_dns_profiles};
use crate::preparation::{
    any_target, dns_route, foreign_target, host_prefix, own_target, target_holds, with_server,
    with_servers, PreparedView,
};
use crate::selection::{any_enabled, distinct_addresses, selection};
use crate::validation::{targets_of, verdict, AnswerView, ValidatedView};
use crate::windows::{AdapterView, DnsRuleView, GatewayView, ManagedRoutePurpose, RouteView};

verus! {

/// The route leads to a target of the VPN's that holds the address.
pub open spec fn leads_to_target(route: RouteView, address: u32) -> bool {
    &&& route.purpose == ManagedRoutePurpose::Target
    &&& parsed_network(route.prefix) matches Some(network)
    &&& network.first() <= address <= network.last()
}

/// The route leads to this one name server through the interface.
pub open spec fn leads_to_server(
    route: RouteView,
    vpn: VpnKind,
    address: u32,
    interface_index: u32,
    next_hop: Seq<char>,
) -> bool {
    &&& route.vpn == vpn
    &&& route.purpose == ManagedRoutePurpose::VpnDnsServer
    &&& parsed_network(route.prefix) == Some((Ipv4Net { addr: address, prefix_len: 32 }))
    &&& route.interface_index == interface_index
    &&& route.next_hop == next_hop
    &&& route.route_metric == 5
}

/// One name server of a VPN is reached through the VPN: over a target of the VPN that holds
/// it, else over a route of its own. Where a target of another VPN holds it, or it has the
/// route of a name server already, there is no way and preparing fails.
pub proof fn law_server_is_reached_through_its_vpn(
    prepared: PreparedView,
    vpn: VpnKind,
    address: u32,
    interface_index: u32,
    next_hop: Seq<char>,
)
    ensures
        ({
            let all = with_server(prepared, vpn, address, interface_index, next_hop);
            let foreign = exists|i: int|
                0 <= i < prepared.routes.len() && (#[trigger] prepared.routes[i]).vpn != vpn
                    && leads_to_target(prepared.routes[i], address);
            let own = exists|i: int|
                0 <= i < prepared.routes.len() && (#[trigger] prepared.routes[i]).vpn == vpn
                    && leads_to_target(prepared.routes[i], address);
            let taken = exists|i: int|
                0 <= i < prepared.routes.len() && (#[trigger] prepared.routes[i]).purpose
                    == ManagedRoutePurpose::VpnDnsServer && prepared.routes[i].prefix == (Ipv4Net {
                    addr: address,
                    prefix_len: 32,
                }).text();
            &&& all is Ok <==> !foreign && (own || !taken)
            &&& all is Ok && own ==> all->Ok_0 == prepared
            &&& all is Ok && !own ==> {
                &&& all->Ok_0.routes.len() == prepared.routes.len() + 1
                &&& all->Ok_0.routes.drop_last() == prepared.routes
                &&& leads_to_server(
                    all->Ok_0.routes.last(),
                    vpn,
                    address,
                    interface_index,
                    next_hop,
                )
                &&& all->Ok_0.dns_rules == prepared.dns_rules
                &&& all->Ok_0.warnings == prepared.warnings
            }
        }),
{
    let routes = prepared.routes;
    lemma_first_exists(routes, foreign_target(vpn, address));
    lemma_first_exists(routes, own_target(vpn, address));
    lemma_first_exists(routes, dns_route(host_prefix(address)));
    law_network_round_trip(Ipv4Net { addr: address, prefix_len: 32 });
    assert forall|i: int| 0 <= i < routes.len() implies target_holds(#[trigger] routes[i], address)
        == leads_to_target(routes[i], address) by {}
    assert forall|i: int| 0 <= i < routes.len() implies foreign_target(vpn, address)(
        #[trigger] routes[i],
    ) == (routes[i].vpn != vpn && leads_to_target(routes[i], address)) by {}
    assert forall|i: int| 0 <= i < routes.len() implies own_target(vpn, address)(
        #[trigger] routes[i],
    ) == (routes[i].vpn == vpn && leads_to_target(routes[i], address)) by {}
    let all = with_server(prepared, vpn, address, interface_index, next_hop);
    if all is Ok && all->Ok_0 != prepared {
        assert(all->Ok_0.routes.drop_last() =~= routes);
    }
}

/// Some route reaches the name server through its VPN.
pub open spec fn is_reached(
    routes: Seq<RouteView>,
    vpn: VpnKind,
    address: u32,
    interface_index: u32,
    next_hop: Seq<char>,
) -> bool {
    exists|i: int|
        0 <= i < routes.len() && (leads_to_server(
            #[trigger] routes[i],
            vpn,
            address,
            interface_index,
            next_hop,
        ) || (routes[i].vpn == vpn && leads_to_target(routes[i], address)))
}

/// What is reached stays reached when routes are added.
proof fn lemma_stays_reached(
    routes: Seq<RouteView>,
    more: Seq<RouteView>,
    vpn: VpnKind,
    address: u32,
    interface_index: u32,
    next_hop: Seq<char>,
)
    requires
        is_reached(routes, vpn, address, interface_index, next_hop),
        routes.len() <= more.len(),
        more.take(routes.len() as int) == routes,
    ensures
        is_reached(more, vpn, address, interface_index, next_hop),
{
    let i = choose|i: int|
        0 <= i < routes.len() && (leads_to_server(
            #[trigger] routes[i],
            vpn,
            address,
            interface_index,
            next_hop,
        ) || (routes[i].vpn == vpn && leads_to_target(routes[i], address)));
    assert(more.take(routes.len() as int)[i] == more[i]);
    assert(more[i] == routes[i]);
}

/// All name servers of a VPN are reached through the VPN, and nothing else is added.
pub proof fn law_servers_are_reached_through_their_vpn(
    prepared: PreparedView,
    vpn: VpnKind,
    servers: Seq<u32>,
    interface_index: u32,
    next_hop: Seq<char>,
)
    requires
        with_servers(prepared, vpn, servers, interface_index, next_hop) is Ok,
    ensures
        ({
            let all = with_servers(prepared, vpn, servers, interface_index, next_hop)->Ok_0;
            &&& all.dns_rules == prepared.dns_rules
            &&& all.warnings == prepared.warnings
            &&& prepared.routes.len() <= all.routes.len()
            &&& all.routes.take(prepared.routes.len() as int) == prepared.routes
            &&& forall|k: int|
                0 <= k < servers.len() ==> is_reached(
                    all.routes,
                    vpn,
                    #[trigger] servers[k],
                    interface_index,
                    next_hop,
                )
            &&& forall|i: int|
                prepared.routes.len() <= i < all.routes.len() ==> exists|k: int|
                    0 <= k < servers.len() && leads_to_server(
                        #[trigger] all.routes[i],
                        vpn,
                        #[trigger] servers[k],
                        interface_index,
                        next_hop,
                    )
        }),
    decreases servers.len(),
{
    if servers.len() == 0 {
        assert(prepared.routes.take(prepared.routes.len() as int) =~= prepared.routes);
    } else {
        let front = servers.drop_last();
        let last = servers.last();
        law_servers_are_reached_through_their_vpn(prepared, vpn, front, interface_index, next_hop);
        let before = with_servers(prepared, vpn, front, interface_index, next_hop)->Ok_0;
        let all = with_servers(prepared, vpn, servers, interface_index, next_hop)->Ok_0;
        law_server_is_reached_through_its_vpn(before, vpn, last, interface_index, next_hop);
        assert(servers[servers.len() - 1] == last);
        assert(all.routes.take(before.routes.len() as int) =~= before.routes);
        assert(all.routes.take(prepared.routes.len() as int) =~= before.routes.take(
            prepared.routes.len() as int,
        ));
        assert(is_reached(all.routes, vpn, last, interface_index, next_hop)) by {
            if all.routes.len() > before.routes.len() {
                assert(all.routes[all.routes.len() - 1] == all.routes.last());
            }
        }
        assert forall|k: int| 0 <= k < servers.len() implies is_reached(
            all.routes,
            vpn,
            #[trigger] servers[k],
            interface_index,
            next_hop,
        ) by {
            if k < front.len() {
                assert(front[k] == servers[k]);
                lemma_stays_reached(
                    before.routes,
                    all.routes,
                    vpn,
                    front[k],
                    interface_index,
                    next_hop,
                );
            }
        }
        assert forall|i: int| prepared.routes.len() <= i < all.routes.len() implies exists|k: int|
            0 <= k < servers.len() && leads_to_server(
                #[trigger] all.routes[i],
                vpn,
                #[trigger] servers[k],
                interface_index,
                next_hop,
            ) by {
            if i < before.routes.len() {
                assert(all.routes.take(before.routes.len() as int)[i] == all.routes[i]);
                let k = choose|k: int|
                    0 <= k < front.len() && leads_to_server(
                        before.routes[i],
                        vpn,
                        #[trigger] front[k],
                        interface_index,
                        next_hop,
                    );
                assert(servers[k] == front[k]);
            } else {
                assert(all.routes[i] == all.routes.last());
                assert(leads_to_server(
                    all.routes[i],
                    vpn,
                    servers[servers.len() - 1],
                    interface_index,
                    next_hop,
                ));
            }
        }
    }
}

/// The texts are the addresses, one for one.
pub open spec fn texts_of(texts: Seq<Seq<char>>, addresses: Seq<u32>) -> bool {
    &&& texts.len() == addresses.len()
    &&& forall|i: int|
        0 <= i < texts.len() ==> parsed_address(#[trigger] texts[i]) == Some(addresses[i])
}

/// The rule sends all names that no other rule is for to the servers.
pub open spec fn answers_all_else(rule: DnsRuleView, servers: Seq<u32>) -> bool {
    &&& rule.vpn is None
    &&& rule.namespaces == seq!["."@]
    &&& texts_of(rule.name_servers, servers)
}

/// The rule sends the names of the VPN to the servers.
pub open spec fn answers_names(
    rule: DnsRuleView,
    vpn: VpnKind,
    hostnames: Seq<Seq<char>>,
    servers: Seq<u32>,
) -> bool {
    &&& rule.vpn == Some(vpn)
    &&& rule.namespaces == hostnames
    &&& texts_of(rule.name_servers, servers)
}

/// Addresses written out read as themselves.
proof fn lemma_texts(addresses: Seq<u32>)
    ensures
        texts_of(crate::selection::address_texts(addresses), addresses),
{
    assert forall|i: int| 0 <= i < addresses.len() implies parsed_address(
        #[trigger] crate::selection::address_texts(addresses)[i],
    ) == Some(addresses[i]) by {
        law_address_round_trip(addresses[i]);
    }
}

/// The plans of the VPNs give one rule each, with the names and the servers of the plan,
/// and every server is reached through the VPN's own interface.
proof fn lemma_profile_rules(prepared: PreparedView, plans: Seq<ProfilePlanView>)
    requires
        with_dns_profiles(prepared, plans) is Ok,
    ensures
        ({
            let all = with_dns_profiles(prepared, plans)->Ok_0;
            &&& all.warnings == prepared.warnings
            &&& all.dns_rules.len() == prepared.dns_rules.len() + plans.len()
            &&& all.dns_rules.take(prepared.dns_rules.len() as int) == prepared.dns_rules
            &&& all.routes.len() >= prepared.routes.len()
            &&& all.routes.take(prepared.routes.len() as int) == prepared.routes
            &&& forall|k: int|
                0 <= k < plans.len() ==> answers_names(
                    all.dns_rules[prepared.dns_rules.len() + k],
                    (#[trigger] plans[k]).vpn,
                    plans[k].hostnames,
                    plans[k].servers,
                )
            &&& forall|k: int, s: int|
                0 <= k < plans.len() && 0 <= s < plans[k].servers.len() ==> is_reached(
                    all.routes,
                    plans[k].vpn,
                    #[trigger] plans[k].servers[s],
                    plans[k].adapter_index,
                    plans[k].next_hop,
                )
        }),
    decreases plans.len(),
{
    if plans.len() == 0 {
        assert(prepared.routes.take(prepared.routes.len() as int) =~= prepared.routes);
        assert(prepared.dns_rules.take(prepared.dns_rules.len() as int) =~= prepared.dns_rules);
    } else {
        let front = plans.drop_last();
        let plan = plans.last();
        lemma_profile_rules(prepared, front);
        let before = with_dns_profiles(prepared, front)->Ok_0;
        let all = with_dns_profiles(prepared, plans)->Ok_0;
        let ruled = before.with_rule(
            crate::preparation::vpn_rule(plan.vpn, plan.hostnames, plan.servers),
        );
        law_servers_are_reached_through_their_vpn(
            ruled,
            plan.vpn,
            plan.servers,
            plan.adapter_index,
            plan.next_hop,
        );
        lemma_texts(plan.servers);
        assert(plans[plans.len() - 1] == plan);
        assert(all.dns_rules == ruled.dns_rules);
        assert(all.dns_rules.take(prepared.dns_rules.len() as int) =~= before.dns_rules.take(
            prepared.dns_rules.len() as int,
        ));
        assert(all.routes.take(prepared.routes.len() as int) =~= before.routes.take(
            prepared.routes.len() as int,
        )) by {
            assert(all.routes.take(before.routes.len() as int).take(prepared.routes.len() as int)
                =~= all.routes.take(prepared.routes.len() as int));
        }
        assert forall|k: int| 0 <= k < plans.len() implies answers_names(
            all.dns_rules[prepared.dns_rules.len() + k],
            (#[trigger] plans[k]).vpn,
            plans[k].hostnames,
            plans[k].servers,
        ) by {
            if k < front.len() {
                assert(front[k] == plans[k]);
                assert(all.dns_rules[prepared.dns_rules.len() + k]
                    == before.dns_rules[prepared.dns_rules.len() + k]);
            }
        }
        assert forall|k: int, s: int|
            0 <= k < plans.len() && 0 <= s < plans[k].servers.len() implies is_reached(
            all.routes,
            plans[k].vpn,
            #[trigger] plans[k].servers[s],
            plans[k].adapter_index,
            plans[k].next_hop,
        ) by {
            if k < front.len() {
                assert(front[k] == plans[k]);
                assert(is_reached(
                    before.routes,
                    front[k].vpn,
                    front[k].servers[s],
                    front[k].adapter_index,
                    front[k].next_hop,
                ));
                lemma_stays_reached(
                    before.routes,
                    all.routes,
                    plans[k].vpn,
                    plans[k].servers[s],
                    plans[k].adapter_index,
                    plans[k].next_hop,
                );
            } else {
                assert(plan.servers[s] == plans[k].servers[s]);
            }
        }
    }
}

/// A plan for names becomes rules one for one: first the rule for all other names, with
/// the servers for everything else, then one for each VPN of the plan, with its names and
/// its servers. Each server of a VPN is reached through that VPN's interface, and a server
/// for everything else is never led into a VPN by a target.
pub proof fn law_rules_follow_the_plan(prepared: PreparedView, label: Seq<char>, plan: DnsPlanView)
    requires
        with_dns_policy(prepared, label, plan) is Ok,
    ensures
        ({
            let all = with_dns_policy(prepared, label, plan)->Ok_0;
            let first = prepared.dns_rules.len() as int;
            let plans = plan.values();
            &&& all.dns_rules.len() == first + 1 + plans.len()
            &&& all.dns_rules.take(first) == prepared.dns_rules
            &&& answers_all_else(all.dns_rules[first], plan.fallback_servers)
            &&& forall|k: int|
                0 <= k < plans.len() ==> answers_names(
                    all.dns_rules[first + 1 + k],
                    (#[trigger] plans[k]).vpn,
                    plans[k].hostnames,
                    plans[k].servers,
                )
            &&& forall|k: int, s: int|
                0 <= k < plans.len() && 0 <= s < plans[k].servers.len() ==> is_reached(
                    all.routes,
                    plans[k].vpn,
                    #[trigger] plans[k].servers[s],
                    plans[k].adapter_index,
                    plans[k].next_hop,
                )
            &&& forall|s: int, i: int|
                0 <= s < plan.fallback_servers.len() && 0 <= i < prepared.routes.len()
                    ==> !leads_to_target(
                    #[trigger] prepared.routes[i],
                    #[trigger] plan.fallback_servers[s],
                )
            &&& all.routes.len() >= prepared.routes.len()
            &&& all.routes.take(prepared.routes.len() as int) == prepared.routes
            &&& all.warnings == prepared.warnings
        }),
{
    let all = with_dns_policy(prepared, label, plan)->Ok_0;
    let first = prepared.dns_rules.len() as int;
    let ruled = prepared.with_rule(crate::preparation::general_rule(plan.fallback_servers));
    lemma_no_server_in_target(prepared.routes, plan.fallback_servers);
    lemma_profile_rules(ruled, plan.values());
    lemma_texts(plan.fallback_servers);
    assert(all.dns_rules.take(first) =~= ruled.dns_rules.take(first));
    assert(ruled.dns_rules.take(first) =~= prepared.dns_rules);
    assert(all.dns_rules[first] == all.dns_rules.take(first + 1)[first]);
    assert forall|k: int| 0 <= k < plan.values().len() implies answers_names(
        all.dns_rules[first + 1 + k],
        (#[trigger] plan.values()[k]).vpn,
        plan.values()[k].hostnames,
        plan.values()[k].servers,
    ) by {
        assert(ruled.dns_rules.len() + k == first + 1 + k);
    }
}

/// Where no server is inside a target, no target holds a server.
proof fn lemma_no_server_in_target(routes: Seq<RouteView>, servers: Seq<u32>)
    requires
        crate::lists::first_that(servers, inside_target(routes)) is None,
    ensures
        forall|s: int, i: int|
            0 <= s < servers.len() && 0 <= i < routes.len() ==> !leads_to_target(
                #[trigger] routes[i],
                #[trigger] servers[s],
            ),
{
    lemma_first_exists(servers, inside_target(routes));
    assert forall|s: int, i: int|
        0 <= s < servers.len() && 0 <= i < routes.len() implies !leads_to_target(
        #[trigger] routes[i],
        #[trigger] servers[s],
    ) by {
        assert(!inside_target(routes)(servers[s]));
        lemma_first_exists(routes, any_target(servers[s]));
        assert(!any_target(servers[s])(routes[i]));
    }
}

/// A rule for the names of the profile, with the servers that its interface reports.
pub open spec fn rule_of(
    rule: DnsRuleView,
    profiles: Seq<VpnProfile>,
    adapters: Seq<AdapterView>,
    validated: ValidatedView,
) -> bool {
    &&& selection(profiles, validated.vpn, adapters) matches Ok(adapter)
    &&& answers_names(
        rule,
        validated.vpn,
        validated.hostnames,
        distinct_addresses(adapter.dns_servers),
    )
}

/// The profile lists names, and its interface reports a server for them.
pub open spec fn has_own_names(
    profiles: Seq<VpnProfile>,
    adapters: Seq<AdapterView>,
    validated: ValidatedView,
) -> bool {
    &&& validated.hostnames.len() > 0
    &&& selection(profiles, validated.vpn, adapters) matches Ok(adapter)
    &&& distinct_addresses(adapter.dns_servers).len() > 0
}

/// The profiles that list names and have servers for them get a rule, one each and in
/// their order, and their servers are reached through their interfaces.
proof fn lemma_name_rules(
    prepared: PreparedView,
    profiles: Seq<VpnProfile>,
    adapters: Seq<AdapterView>,
    validated: Seq<ValidatedView>,
)
    requires
        with_all_names(prepared, profiles, adapters, validated) is Ok,
    ensures
        ({
            let all = with_all_names(prepared, profiles, adapters, validated)->Ok_0;
            let named = validated.filter(
                |one: ValidatedView| has_own_names(profiles, adapters, one),
            );
            &&& all.dns_rules.len() == prepared.dns_rules.len() + named.len()
            &&& all.dns_rules.take(prepared.dns_rules.len() as int) == prepared.dns_rules
            &&& all.routes.len() >= prepared.routes.len()
            &&& all.routes.take(prepared.routes.len() as int) == prepared.routes
            &&& forall|k: int|
                0 <= k < named.len() ==> rule_of(
                    all.dns_rules[prepared.dns_rules.len() + k],
                    profiles,
                    adapters,
                    #[trigger] named[k],
                )
            &&& forall|k: int, server: u32|
                0 <= k < validated.len() && has_own_names(
                    profiles,
                    adapters,
                    #[trigger] validated[k],
                ) && #[trigger] distinct_addresses(
                    selection(profiles, validated[k].vpn, adapters)->Ok_0.dns_servers,
                ).contains(server) ==> is_reached(
                    all.routes,
                    validated[k].vpn,
                    server,
                    selection(profiles, validated[k].vpn, adapters)->Ok_0.index,
                    selection(profiles, validated[k].vpn, adapters)->Ok_0.next_hop,
                )
        }),
    decreases validated.len(),
{
    reveal(Seq::filter);
    let condition = |one: ValidatedView| has_own_names(profiles, adapters, one);
    if validated.len() == 0 {
        assert(prepared.routes.take(prepared.routes.len() as int) =~= prepared.routes);
        assert(prepared.dns_rules.take(prepared.dns_rules.len() as int) =~= prepared.dns_rules);
    } else {
        let front = validated.drop_last();
        let one = validated.last();
        lemma_name_rules(prepared, profiles, adapters, front);
        let before = with_all_names(prepared, profiles, adapters, front)->Ok_0;
        let all = with_all_names(prepared, profiles, adapters, validated)->Ok_0;
        let earlier = front.filter(condition);
        let named = validated.filter(condition);
        assert(validated[validated.len() - 1] == one);
        assert(before.routes.take(before.routes.len() as int) =~= before.routes);
        assert(before.dns_rules.take(before.dns_rules.len() as int) =~= before.dns_rules);
        if has_own_names(profiles, adapters, one) {
            let adapter = selection(profiles, one.vpn, adapters)->Ok_0;
            let servers = distinct_addresses(adapter.dns_servers);
            let ruled = before.with_rule(
                crate::preparation::vpn_rule(one.vpn, one.hostnames, servers),
            );
            law_servers_are_reached_through_their_vpn(
                ruled,
                one.vpn,
                servers,
                adapter.index,
                adapter.next_hop,
            );
            lemma_texts(servers);
            assert(named == earlier.push(one));
            assert(all.dns_rules == ruled.dns_rules);
            assert(all.dns_rules.take(before.dns_rules.len() as int) =~= before.dns_rules);
            assert forall|server: u32| servers.contains(server) implies is_reached(
                all.routes,
                one.vpn,
                server,
                adapter.index,
                adapter.next_hop,
            ) by {
                let s = choose|s: int| 0 <= s < servers.len() && servers[s] == server;
                assert(is_reached(
                    all.routes,
                    one.vpn,
                    servers[s],
                    adapter.index,
                    adapter.next_hop,
                ));
            }
        } else {
            assert(named == earlier);
            assert(all.dns_rules == before.dns_rules);
            assert(all.routes == before.routes);
        }
        assert(all.routes.take(prepared.routes.len() as int) =~= before.routes.take(
            prepared.routes.len() as int,
        )) by {
            assert(all.routes.take(before.routes.len() as int).take(prepared.routes.len() as int)
                =~= all.routes.take(prepared.routes.len() as int));
        }
        assert(all.dns_rules.take(prepared.dns_rules.len() as int) =~= before.dns_rules.take(
            prepared.dns_rules.len() as int,
        )) by {
            assert(all.dns_rules.take(before.dns_rules.len() as int).take(
                prepared.dns_rules.len() as int,
            ) =~= all.dns_rules.take(prepared.dns_rules.len() as int));
        }
        assert forall|k: int| 0 <= k < named.len() implies rule_of(
            all.dns_rules[prepared.dns_rules.len() + k],
            profiles,
            adapters,
            #[trigger] named[k],
        ) by {
            if k < earlier.len() {
                assert(named[k] == earlier[k]);
                assert(all.dns_rules.take(before.dns_rules.len() as int)[prepared.dns_rules.len()
                    + k] == all.dns_rules[prepared.dns_rules.len() + k]);
            }
        }
        assert forall|k: int, server: u32|
            0 <= k < validated.len() && has_own_names(
                profiles,
                adapters,
                #[trigger] validated[k],
            ) && #[trigger] distinct_addresses(
                selection(profiles, validated[k].vpn, adapters)->Ok_0.dns_servers,
            ).contains(server) implies is_reached(
            all.routes,
            validated[k].vpn,
            server,
            selection(profiles, validated[k].vpn, adapters)->Ok_0.index,
            selection(profiles, validated[k].vpn, adapters)->Ok_0.next_hop,
        ) by {
            if k < front.len() {
                assert(front[k] == validated[k]);
                assert(has_own_names(profiles, adapters, front[k]));
                lemma_stays_reached(
                    before.routes,
                    all.routes,
                    validated[k].vpn,
                    server,
                    selection(profiles, validated[k].vpn, adapters)->Ok_0.index,
                    selection(profiles, validated[k].vpn, adapters)->Ok_0.next_hop,
                );
            }
        }
    }
}

/// The rules of a switched-on VPN: the first is for all other names and has the servers of
/// the ordinary network. Behind it stands one for each profile that lists names and whose
/// interface reports servers, with these names and these servers, and there is no other.
/// Each of these servers is reached through the interface of its VPN, and no target holds a
/// server of the ordinary network.
pub proof fn law_names_go_to_their_networks(
    prepared: PreparedView,
    profiles: Seq<VpnProfile>,
    adapters: Seq<AdapterView>,
    validated: Seq<ValidatedView>,
    physical: Seq<u32>,
)
    requires
        with_names(prepared, profiles, adapters, validated, physical) is Ok,
    ensures
        ({
            let all = with_names(prepared, profiles, adapters, validated, physical)->Ok_0;
            let first = prepared.dns_rules.len() as int;
            let named = validated.filter(
                |one: ValidatedView| has_own_names(profiles, adapters, one),
            );
            &&& all.dns_rules.len() == first + 1 + named.len()
            &&& all.dns_rules.take(first) == prepared.dns_rules
            &&& answers_all_else(all.dns_rules[first], physical)
            &&& forall|k: int|
                0 <= k < named.len() ==> rule_of(
                    all.dns_rules[first + 1 + k],
                    profiles,
                    adapters,
                    #[trigger] named[k],
                )
            &&& all.routes.len() >= prepared.routes.len()
            &&& all.routes.take(prepared.routes.len() as int) == prepared.routes
            &&& forall|k: int, server: u32|
                0 <= k < validated.len() && has_own_names(
                    profiles,
                    adapters,
                    #[trigger] validated[k],
                ) && #[trigger] distinct_addresses(
                    selection(profiles, validated[k].vpn, adapters)->Ok_0.dns_servers,
                ).contains(server) ==> is_reached(
                    all.routes,
                    validated[k].vpn,
                    server,
                    selection(profiles, validated[k].vpn, adapters)->Ok_0.index,
                    selection(profiles, validated[k].vpn, adapters)->Ok_0.next_hop,
                )
            &&& forall|s: int, i: int|
                0 <= s < physical.len() && 0 <= i < prepared.routes.len() ==> !leads_to_target(
                    #[trigger] prepared.routes[i],
                    #[trigger] physical[s],
                )
        }),
{
    let all = with_names(prepared, profiles, adapters, validated, physical)->Ok_0;
    let first = prepared.dns_rules.len() as int;
    let ruled = prepared.with_rule(crate::preparation::general_rule(physical));
    let named = validated.filter(|one: ValidatedView| has_own_names(profiles, adapters, one));
    lemma_no_server_in_target(prepared.routes, physical);
    lemma_name_rules(ruled, profiles, adapters, validated);
    lemma_texts(physical);
    assert(all.dns_rules.take(first) =~= ruled.dns_rules.take(first));
    assert(ruled.dns_rules.take(first) =~= prepared.dns_rules);
    assert(all.dns_rules[first] == all.dns_rules.take(first + 1)[first]);
    assert forall|k: int| 0 <= k < named.len() implies rule_of(
        all.dns_rules[first + 1 + k],
        profiles,
        adapters,
        #[trigger] named[k],
    ) by {
        assert(ruled.dns_rules.len() + k == first + 1 + k);
    }
}

/// The rules of a policy that is prepared are those for its targets: where nothing is
/// switched on there is neither a route nor a rule, and otherwise the rule for all other
/// names has the servers of the ordinary network.
pub proof fn law_prepared_policy_has_its_rules(
    profiles: Seq<VpnProfile>,
    adapters: Seq<AdapterView>,
    gateway: Option<GatewayView>,
    answers: Seq<AnswerView>,
)
    requires
        physical_prepared(profiles, adapters, gateway, answers) is Ok,
    ensures
        ({
            let all = physical_prepared(profiles, adapters, gateway, answers)->Ok_0;
            let validated = verdict(targets_of(profiles), answers)->Ok_0;
            let named = validated.filter(
                |one: ValidatedView| has_own_names(profiles, adapters, one),
            );
            &&& !any_enabled(profiles) ==> all.routes.len() == 0 && all.dns_rules.len() == 0
                && all.warnings.len() == 0
            &&& any_enabled(profiles) ==> {
                &&& gateway is Some
                &&& ordinary_servers_or_reason(adapters, gateway->0) is Ok
                &&& all.dns_rules.len() == 1 + named.len()
                &&& answers_all_else(
                    all.dns_rules[0],
                    ordinary_servers_or_reason(adapters, gateway->0)->Ok_0,
                )
                &&& forall|k: int|
                    0 <= k < named.len() ==> rule_of(
                        all.dns_rules[1 + k],
                        profiles,
                        adapters,
                        #[trigger] named[k],
                    )
            }
        }),
{
    if any_enabled(profiles) {
        let validated = verdict(targets_of(profiles), answers)->Ok_0;
        let routed = crate::physical::all_profile_routes(
            profiles,
            validated,
            adapters,
            gateway,
        )->Ok_0;
        assert(routed.dns_rules.len() == 0);
        law_names_go_to_their_networks(
            routed,
            profiles,
            adapters,
            validated,
            physical_servers(adapters, gateway)->Ok_0,
        );
    }
}

/// A listed name is looked up where the VPN's own names are: with the servers that its
/// interface reports, and with those of the ordinary network only where it reports none.
pub proof fn law_names_are_looked_up_with_their_vpn(
    profiles: Seq<VpnProfile>,
    adapters: Seq<AdapterView>,
    physical: Seq<u32>,
    vpn: VpnKind,
)
    ensures
        asked_servers(profiles, adapters, physical, vpn) is Ok <==> selection(
            profiles,
            vpn,
            adapters,
        ) is Ok,
        asked_servers(profiles, adapters, physical, vpn) matches Ok(texts) ==> ({
            let own = distinct_addresses(selection(profiles, vpn, adapters)->Ok_0.dns_servers);
            if own.len() > 0 {
                texts_of(texts, own)
            } else {
                texts_of(texts, physical)
            }
        }),
{
    if let Ok(adapter) = selection(profiles, vpn, adapters) {
        lemma_texts(distinct_addresses(adapter.dns_servers));
        lemma_texts(physical);
    }
}

} // verus!
