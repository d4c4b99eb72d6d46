//! The routes and the rules for names that a configuration asks for, while they are
//! being put together.

use vstd::prelude::*;

use crate::domain::VpnKind;
use crate::ipv4::{address_text, address_to_text, parsed_network, Ipv4Net};
use crate::lists::{first_index, first_that, lemma_is_first};
use crate::selection::{address_texts, addresses_to_texts, one_text};
use crate::text::same_text;
use crate::validation::clone_texts;
use crate::windows::{DnsRuleView, ManagedDnsRule, ManagedRoute, ManagedRoutePurpose, RouteView};

verus! {

/// The metric of every route that this program manages.
pub const ROUTE_METRIC: u16 = 5;

/// Routes, rules for names, and what the user should know about them.
#[derive(Debug, PartialEq, Eq)]
pub struct PreparedRoutes {
    pub routes: Vec<ManagedRoute>,
    pub dns_rules: Vec<ManagedDnsRule>,
    pub warnings: Vec<String>,
}

/// What a `PreparedRoutes` stands for.
#[verifier::ext_equal]
pub ghost struct PreparedView {
    pub routes: Seq<RouteView>,
    pub dns_rules: Seq<DnsRuleView>,
    pub warnings: Seq<Seq<char>>,
}

impl DeepView for PreparedRoutes {
    type V = PreparedView;

    open spec fn deep_view(&self) -> PreparedView {
        PreparedView {
            routes: self.routes.deep_view(),
            dns_rules: self.dns_rules.deep_view(),
            warnings: self.warnings.deep_view(),
        }
    }
}

impl PreparedView {
    /// Nothing is asked for.
    pub open spec fn none() -> PreparedView {
        PreparedView { routes: Seq::empty(), dns_rules: Seq::empty(), warnings: Seq::empty() }
    }

    /// One more route.
    pub open spec fn with_route(self, route: RouteView) -> PreparedView {
        PreparedView { routes: self.routes.push(route), ..self }
    }

    /// One more rule for names.
    pub open spec fn with_rule(self, rule: DnsRuleView) -> PreparedView {
        PreparedView { dns_rules: self.dns_rules.push(rule), ..self }
    }

    /// One more thing that the user should know.
    pub open spec fn with_warning(self, warning: Seq<char>) -> PreparedView {
        PreparedView { warnings: self.warnings.push(warning), ..self }
    }
}

impl Default for PreparedRoutes {
    fn default() -> (prepared: Self)
        ensures
            prepared.deep_view() == PreparedView::none(),
    {
        let prepared: PreparedRoutes = PreparedRoutes {
            routes: Vec::new(),
            dns_rules: Vec::new(),
            warnings: Vec::new(),
        };
        assert(prepared.deep_view() =~= PreparedView::none());
        prepared
    }
}

impl PreparedRoutes {
    /// Adds a route.
    pub fn add_route(&mut self, route: ManagedRoute)
        ensures
            final(self).deep_view() == old(self).deep_view().with_route(route.deep_view()),
    {
        let ghost before = self.deep_view();
        let ghost added = route.deep_view();
        self.routes.push(route);
        assert(self.deep_view() =~= before.with_route(added));
    }

    /// Adds a rule for names.
    pub fn add_rule(&mut self, rule: ManagedDnsRule)
        ensures
            final(self).deep_view() == old(self).deep_view().with_rule(rule.deep_view()),
    {
        let ghost before = self.deep_view();
        let ghost added = rule.deep_view();
        self.dns_rules.push(rule);
        assert(self.deep_view() =~= before.with_rule(added));
    }

    /// Adds something that the user should know.
    pub fn add_warning(&mut self, warning: String)
        ensures
            final(self).deep_view() == old(self).deep_view().with_warning(warning@),
    {
        let ghost before = self.deep_view();
        let ghost added = warning@;
        self.warnings.push(warning);
        assert(self.deep_view() =~= before.with_warning(added));
    }
}

/// What prepared routes, or the reasons why there are none, stand for.
pub open spec fn prepared_result(result: Result<PreparedRoutes, Vec<String>>) -> Result<
    PreparedView,
    Seq<Seq<char>>,
> {
    match result {
        Ok(prepared) => Ok(prepared.deep_view()),
        Err(reasons) => Err(reasons.deep_view()),
    }
}

/// The rule for all names that no other rule names.
pub open spec fn general_rule(servers: Seq<u32>) -> DnsRuleView {
    DnsRuleView {
        vpn: None,
        namespaces: seq!["."@],
        name_servers: address_texts(servers),
    }
}

/// The rule for the names of a VPN.
pub open spec fn vpn_rule(
    vpn: VpnKind,
    hostnames: Seq<Seq<char>>,
    servers: Seq<u32>,
) -> DnsRuleView {
    DnsRuleView {
        vpn: Some(vpn),
        namespaces: hostnames,
        name_servers: address_texts(servers),
    }
}

/// The rule for all names that no other rule names.
pub fn general_dns_rule(servers: &Vec<u32>) -> (rule: ManagedDnsRule)
    ensures
        rule.deep_view() == general_rule(servers@),
{
    ManagedDnsRule {
        vpn: None,
        namespaces: one_text(".".to_owned()),
        name_servers: addresses_to_texts(servers),
    }
}

/// The rule for the names of a VPN.
pub fn vpn_dns_rule(vpn: VpnKind, hostnames: &Vec<String>, servers: &Vec<u32>) -> (rule:
    ManagedDnsRule)
    ensures
        rule.deep_view() == vpn_rule(vpn, hostnames.deep_view(), servers@),
{
    ManagedDnsRule {
        vpn: Some(vpn),
        namespaces: clone_texts(hostnames),
        name_servers: addresses_to_texts(servers),
    }
}

/// The route is for a target and its network holds the address.
pub open spec fn target_holds(route: RouteView, address: u32) -> bool {
    route.purpose == ManagedRoutePurpose::Target && parsed_network(route.prefix) is Some
        && parsed_network(route.prefix)->0.covers(address)
}

/// A target of any VPN holds the address.
pub open spec fn any_target(address: u32) -> spec_fn(RouteView) -> bool {
    |route: RouteView| target_holds(route, address)
}

/// A target of another VPN holds the address.
pub open spec fn foreign_target(vpn: VpnKind, address: u32) -> spec_fn(RouteView) -> bool {
    |route: RouteView| route.vpn != vpn && target_holds(route, address)
}

/// A target of the VPN itself holds the address.
pub open spec fn own_target(vpn: VpnKind, address: u32) -> spec_fn(RouteView) -> bool {
    |route: RouteView| route.vpn == vpn && target_holds(route, address)
}

/// The route leads to a name server with that prefix.
pub open spec fn dns_route(prefix: Seq<char>) -> spec_fn(RouteView) -> bool {
    |route: RouteView|
        route.purpose == ManagedRoutePurpose::VpnDnsServer && route.prefix == prefix
}

/// The prefix of a single address.
pub open spec fn host_prefix(address: u32) -> Seq<char> {
    Ipv4Net { addr: address, prefix_len: 32 }.text()
}

/// Whether the route is for a target and its network holds the address.
fn route_holds(route: &ManagedRoute, address: u32) -> (holds: bool)
    ensures
        holds == target_holds(route.deep_view(), address),
{
    if route.purpose != ManagedRoutePurpose::Target {
        return false;
    }
    match Ipv4Net::parse(route.prefix.as_str()) {
        Some(network) => network.contains(address),
        None => false,
    }
}

/// The position of the first target that holds the address.
pub fn find_any_target(routes: &Vec<ManagedRoute>, address: u32) -> (index: usize)
    ensures
        index == first_index(routes.deep_view(), any_target(address)),
        index <= routes.len(),
{
    let ghost views = routes.deep_view();
    let ghost condition = any_target(address);
    let mut index: usize = 0;
    while index < routes.len() && !route_holds(&routes[index], address)
        invariant
            views == routes.deep_view(),
            condition == any_target(address),
            index <= routes.len(),
            forall|i: int| 0 <= i < index ==> !condition(#[trigger] views[i]),
        decreases routes.len() - index,
    {
        assert(!condition(views[index as int]));
        index = index + 1;
    }
    proof {
        if index < routes.len() {
            assert(condition(views[index as int]));
        }
        lemma_is_first(views, condition, index as int);
    }
    index
}

/// The position of the first target of another VPN that holds the address.
fn find_foreign_target(routes: &Vec<ManagedRoute>, vpn: VpnKind, address: u32) -> (index: usize)
    ensures
        index == first_index(routes.deep_view(), foreign_target(vpn, address)),
        index <= routes.len(),
{
    let ghost views = routes.deep_view();
    let ghost condition = foreign_target(vpn, address);
    let mut index: usize = 0;
    while index < routes.len() && !(routes[index].vpn != vpn && route_holds(
        &routes[index],
        address,
    ))
        invariant
            views == routes.deep_view(),
            condition == foreign_target(vpn, address),
            index <= routes.len(),
            forall|i: int| 0 <= i < index ==> !condition(#[trigger] views[i]),
        decreases routes.len() - index,
    {
        assert(!condition(views[index as int]));
        index = index + 1;
    }
    proof {
        if index < routes.len() {
            assert(condition(views[index as int]));
        }
        lemma_is_first(views, condition, index as int);
    }
    index
}

/// The position of the first target of the VPN itself that holds the address.
fn find_own_target(routes: &Vec<ManagedRoute>, vpn: VpnKind, address: u32) -> (index: usize)
    ensures
        index == first_index(routes.deep_view(), own_target(vpn, address)),
        index <= routes.len(),
{
    let ghost views = routes.deep_view();
    let ghost condition = own_target(vpn, address);
    let mut index: usize = 0;
    while index < routes.len() && !(routes[index].vpn == vpn && route_holds(
        &routes[index],
        address,
    ))
        invariant
            views == routes.deep_view(),
            condition == own_target(vpn, address),
            index <= routes.len(),
            forall|i: int| 0 <= i < index ==> !condition(#[trigger] views[i]),
        decreases routes.len() - index,
    {
        assert(!condition(views[index as int]));
        index = index + 1;
    }
    proof {
        if index < routes.len() {
            assert(condition(views[index as int]));
        }
        lemma_is_first(views, condition, index as int);
    }
    index
}

/// The position of the first route to a name server with that prefix.
fn find_dns_route(routes: &Vec<ManagedRoute>, prefix: &str) -> (index: usize)
    ensures
        index == first_index(routes.deep_view(), dns_route(prefix@)),
        index <= routes.len(),
{
    let ghost views = routes.deep_view();
    let ghost condition = dns_route(prefix@);
    let mut index: usize = 0;
    while index < routes.len() && !(routes[index].purpose == ManagedRoutePurpose::VpnDnsServer
        && same_text(routes[index].prefix.as_str(), prefix))
        invariant
            views == routes.deep_view(),
            condition == dns_route(prefix@),
            index <= routes.len(),
            forall|i: int| 0 <= i < index ==> !condition(#[trigger] views[i]),
        decreases routes.len() - index,
    {
        assert(!condition(views[index as int]));
        index = index + 1;
    }
    proof {
        if index < routes.len() {
            assert(condition(views[index as int]));
        }
        lemma_is_first(views, condition, index as int);
    }
    index
}

/// A name server of one VPN lies in a target of another.
pub open spec fn server_in_foreign_target(
    vpn: VpnKind,
    address: u32,
    route: RouteView,
) -> Seq<char> {
    vpn.text() + " 的 DNS server "@ + address_text(address) + " 被 "@ + route.vpn.text()
        + " 的目標「"@ + route.prefix + "」涵蓋，無法同時建立正確 DNS 路由。"@
}

/// Two VPNs have the same name server.
pub open spec fn server_shared(owner: VpnKind, vpn: VpnKind, address: u32) -> Seq<char> {
    owner.text() + " 與 "@ + vpn.text() + " 使用同一個 VPN DNS server "@ + address_text(address)
        + "，但 Windows 只能選擇一條介面路由。"@
}

/// Says that a name server of one VPN lies in a target of another.
pub fn server_in_foreign_target_text(vpn: VpnKind, address: u32, owner: VpnKind, prefix: &str) -> (
    message: String)
    ensures
        message@ == vpn.text() + " 的 DNS server "@ + address_text(address) + " 被 "@ + owner.text()
            + " 的目標「"@ + prefix@ + "」涵蓋，無法同時建立正確 DNS 路由。"@,
{
    let address_name: String = address_to_text(address);
    let mut message: String = vpn.name().to_owned();
    message.append(" 的 DNS server ");
    message.append(address_name.as_str());
    message.append(" 被 ");
    message.append(owner.name());
    message.append(" 的目標「");
    message.append(prefix);
    message.append("」涵蓋，無法同時建立正確 DNS 路由。");
    message
}

fn server_shared_text(owner: VpnKind, vpn: VpnKind, address: u32) -> (message: String)
    ensures
        message@ == server_shared(owner, vpn, address),
{
    let address_name: String = address_to_text(address);
    let mut message: String = owner.name().to_owned();
    message.append(" 與 ");
    message.append(vpn.name());
    message.append(" 使用同一個 VPN DNS server ");
    message.append(address_name.as_str());
    message.append("，但 Windows 只能選擇一條介面路由。");
    message
}

/// The route to a name server through the interface of its VPN.
pub open spec fn server_route(
    vpn: VpnKind,
    address: u32,
    interface_index: u32,
    next_hop: Seq<char>,
) -> RouteView {
    RouteView {
        vpn,
        purpose: ManagedRoutePurpose::VpnDnsServer,
        prefix: host_prefix(address),
        interface_index,
        next_hop,
        route_metric: ROUTE_METRIC,
    }
}

/// The route to a name server through the interface of its VPN.
pub fn make_server_route(vpn: VpnKind, address: u32, interface_index: u32, next_hop: &String) -> (
    route: ManagedRoute)
    ensures
        route.deep_view() == server_route(vpn, address, interface_index, next_hop@),
{
    ManagedRoute {
        vpn,
        purpose: ManagedRoutePurpose::VpnDnsServer,
        prefix: Ipv4Net::host(address).to_text(),
        interface_index,
        next_hop: next_hop.clone(),
        route_metric: ROUTE_METRIC,
    }
}

/// One more name server of a VPN: it must not lie in a target of another VPN, needs no
/// route where it lies in a target of its own, and must not be the server of another
/// VPN already.
pub open spec fn with_server(
    prepared: PreparedView,
    vpn: VpnKind,
    address: u32,
    interface_index: u32,
    next_hop: Seq<char>,
) -> Result<PreparedView, Seq<Seq<char>>> {
    match first_that(prepared.routes, foreign_target(vpn, address)) {
        Some(route) => Err(seq![server_in_foreign_target(vpn, address, route)]),
        None => if first_that(prepared.routes, own_target(vpn, address)) is Some {
            Ok(prepared)
        } else {
            match first_that(prepared.routes, dns_route(host_prefix(address))) {
                Some(existing) => Err(seq![server_shared(existing.vpn, vpn, address)]),
                None => Ok(
                    prepared.with_route(server_route(vpn, address, interface_index, next_hop)),
                ),
            }
        },
    }
}

/// More name servers of a VPN, one after the other.
pub open spec fn with_servers(
    prepared: PreparedView,
    vpn: VpnKind,
    servers: Seq<u32>,
    interface_index: u32,
    next_hop: Seq<char>,
) -> Result<PreparedView, Seq<Seq<char>>>
    decreases servers.len(),
{
    if servers.len() == 0 {
        Ok(prepared)
    } else {
        match with_servers(prepared, vpn, servers.drop_last(), interface_index, next_hop) {
            Err(reasons) => Err(reasons),
            Ok(before) => with_server(before, vpn, servers.last(), interface_index, next_hop),
        }
    }
}

/// A failure at the first servers is the failure at all of them.
pub proof fn lemma_first_server_failure(
    prepared: PreparedView,
    vpn: VpnKind,
    servers: Seq<u32>,
    interface_index: u32,
    next_hop: Seq<char>,
    count: int,
)
    requires
        0 <= count <= servers.len(),
        with_servers(prepared, vpn, servers.take(count), interface_index, next_hop) is Err,
    ensures
        with_servers(prepared, vpn, servers, interface_index, next_hop) == with_servers(
            prepared,
            vpn,
            servers.take(count),
            interface_index,
            next_hop,
        ),
    decreases servers.len() - count,
{
    if count < servers.len() {
        assert(servers.take(count + 1).drop_last() =~= servers.take(count));
        lemma_first_server_failure(
            prepared,
            vpn,
            servers,
            interface_index,
            next_hop,
            count + 1,
        );
    } else {
        assert(servers.take(count) =~= servers);
    }
}

/// Adds a name server of a VPN.
fn add_server(
    initial: PreparedRoutes,
    vpn: VpnKind,
    address: u32,
    interface_index: u32,
    next_hop: &String,
) -> (result: Result<PreparedRoutes, Vec<String>>)
    ensures
        prepared_result(result) == with_server(
            initial.deep_view(),
            vpn,
            address,
            interface_index,
            next_hop@,
        ),
{
    let mut prepared: PreparedRoutes = initial;
    let foreign: usize = find_foreign_target(&prepared.routes, vpn, address);
    if foreign < prepared.routes.len() {
        let route: &ManagedRoute = &prepared.routes[foreign];
        return Err(
            one_text(
                server_in_foreign_target_text(vpn, address, route.vpn, route.prefix.as_str()),
            ),
        );
    }
    if find_own_target(&prepared.routes, vpn, address) < prepared.routes.len() {
        return Ok(prepared);
    }
    let route: ManagedRoute = make_server_route(vpn, address, interface_index, next_hop);
    let existing: usize = find_dns_route(&prepared.routes, route.prefix.as_str());
    if existing < prepared.routes.len() {
        return Err(one_text(server_shared_text(prepared.routes[existing].vpn, vpn, address)));
    }
    prepared.add_route(route);
    Ok(prepared)
}

/// Adds the name servers of a VPN.
pub fn add_servers(
    initial: PreparedRoutes,
    vpn: VpnKind,
    servers: &Vec<u32>,
    interface_index: u32,
    next_hop: &String,
) -> (result: Result<PreparedRoutes, Vec<String>>)
    ensures
        prepared_result(result) == with_servers(
            initial.deep_view(),
            vpn,
            servers@,
            interface_index,
            next_hop@,
        ),
{
    let ghost start = initial.deep_view();
    let mut prepared: PreparedRoutes = initial;
    for i in 0..servers.len()
        invariant
            start == initial.deep_view(),
            with_servers(start, vpn, servers@.take(i as int), interface_index, next_hop@) == Ok::<
                PreparedView,
                Seq<Seq<char>>,
            >(prepared.deep_view()),
    {
        assert(servers@.take(i + 1).drop_last() =~= servers@.take(i as int));
        assert(servers@.take(i + 1).last() == servers@[i as int]);
        match add_server(prepared, vpn, servers[i], interface_index, next_hop) {
            Ok(next) => {
                prepared = next;
            },
            Err(reasons) => {
                proof {
                    lemma_first_server_failure(
                        start,
                        vpn,
                        servers@,
                        interface_index,
                        next_hop@,
                        i + 1,
                    );
                }
                return Err(reasons);
            },
        }
    }
    assert(servers@.take(servers.len() as int) =~= servers@);
    Ok(prepared)
}

}
