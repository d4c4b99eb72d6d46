//! Which path takes the traffic and the names that no enabled VPN is to carry.

use vstd::prelude::*;

use crate::domain::{
    is_enabled, names_enabled_domain, profile_of, has_enabled_dns_targets, SplitterConfig, VpnKind,
    VpnProfile,
};
use crate::lists::first_that;
use crate::selection::{
    contains_address, distinct_addresses, find_full_tunnel, normalized_ipv4_addresses, one_text,
    selected_full_tunnel,
};
use crate::windows::{AdapterView, GatewayView, InternetGateway, NetworkAdapter, RoutePriority};

verus! {

/// The path for everything else: the ordinary network, or a VPN that is not enabled
/// here and takes all traffic by itself.
#[derive(Debug, Clone, Copy)]
pub enum InternetFallback<'a> {
    Physical(&'a InternetGateway),
    Vpn { vpn: VpnKind, adapter: &'a NetworkAdapter },
}

/// What an `InternetFallback` stands for.
#[verifier::ext_equal]
pub ghost enum FallbackView {
    Physical(GatewayView),
    Vpn { vpn: VpnKind, adapter: AdapterView },
}

impl<'a> DeepView for InternetFallback<'a> {
    type V = FallbackView;

    open spec fn deep_view(&self) -> FallbackView {
        match self {
            InternetFallback::Physical(gateway) => FallbackView::Physical(gateway.deep_view()),
            InternetFallback::Vpn { vpn, adapter } => FallbackView::Vpn {
                vpn: *vpn,
                adapter: adapter.deep_view(),
            },
        }
    }
}

impl FallbackView {
    /// The interface of the path.
    pub open spec fn interface_index(self) -> u32 {
        match self {
            FallbackView::Physical(gateway) => gateway.interface_index,
            FallbackView::Vpn { vpn, adapter } => adapter.index,
        }
    }

    /// The next hop of the path.
    pub open spec fn next_hop(self) -> Seq<char> {
        match self {
            FallbackView::Physical(gateway) => gateway.next_hop,
            FallbackView::Vpn { vpn, adapter } => adapter.next_hop,
        }
    }

    /// How Windows ranks the path.
    pub open spec fn priority(self) -> Option<RoutePriority> {
        match self {
            FallbackView::Physical(gateway) => gateway.route_priority,
            FallbackView::Vpn { vpn, adapter } => adapter.full_tunnel_priority,
        }
    }

    /// The path as users read it.
    pub open spec fn label(self) -> Seq<char> {
        match self {
            FallbackView::Physical(gateway) => gateway.interface_alias,
            FallbackView::Vpn { vpn, adapter } => "未啟用分流的 "@ + vpn.text() + "（"@ + adapter.name
                + "）"@,
        }
    }

    /// The path was inferred from the route that a VPN keeps to its own server.
    pub open spec fn inferred(self) -> bool {
        self matches FallbackView::Physical(gateway) && gateway.inferred_from_escape_route
    }

    /// Windows prefers this path to the other: it has a priority where the other has
    /// none, or a longer prefix, or a lower metric, or the lower interface number.
    pub open spec fn preferred_to(self, other: FallbackView) -> bool {
        match (self.priority(), other.priority()) {
            (Some(mine), Some(theirs)) => {
                ||| mine.prefix_length > theirs.prefix_length
                ||| mine.prefix_length == theirs.prefix_length && (mine.effective_metric
                    < theirs.effective_metric || (mine.effective_metric == theirs.effective_metric
                    && self.interface_index() < other.interface_index()))
            },
            (Some(_), None) => true,
            _ => false,
        }
    }
}

impl<'a> InternetFallback<'a> {
    /// The interface of the path.
    pub fn interface_index(self) -> (index: u32)
        ensures
            index == self.deep_view().interface_index(),
    {
        match self {
            InternetFallback::Physical(gateway) => gateway.interface_index,
            InternetFallback::Vpn { vpn, adapter } => adapter.index,
        }
    }

    /// The next hop of the path.
    pub fn next_hop(self) -> (hop: &'a str)
        ensures
            hop@ == self.deep_view().next_hop(),
    {
        match self {
            InternetFallback::Physical(gateway) => gateway.next_hop.as_str(),
            InternetFallback::Vpn { vpn, adapter } => adapter.next_hop.as_str(),
        }
    }

    /// How Windows ranks the path.
    pub fn priority(self) -> (priority: Option<RoutePriority>)
        ensures
            priority == self.deep_view().priority(),
    {
        match self {
            InternetFallback::Physical(gateway) => gateway.route_priority,
            InternetFallback::Vpn { vpn, adapter } => adapter.full_tunnel_priority,
        }
    }

    /// The path as users read it.
    pub fn label(self) -> (label: String)
        ensures
            label@ == self.deep_view().label(),
    {
        match self {
            InternetFallback::Physical(gateway) => gateway.interface_alias.clone(),
            InternetFallback::Vpn { vpn, adapter } => {
                let mut label: String = "未啟用分流的 ".to_owned();
                label.append(vpn.name());
                label.append("（");
                label.append(adapter.name.as_str());
                label.append("）");
                label
            },
        }
    }

    /// Whether the path was inferred from the route that a VPN keeps to its own server.
    pub fn inferred_from_escape_route(self) -> (inferred: bool)
        ensures
            inferred == self.deep_view().inferred(),
    {
        match self {
            InternetFallback::Physical(gateway) => gateway.inferred_from_escape_route,
            InternetFallback::Vpn { vpn, adapter } => false,
        }
    }

    /// Whether the path is a VPN.
    pub fn is_vpn(self) -> (vpn: bool)
        ensures
            vpn == (self.deep_view() is Vpn),
    {
        match self {
            InternetFallback::Physical(_) => false,
            InternetFallback::Vpn { vpn, adapter } => true,
        }
    }
}

/// What a path, where there is one, stands for.
pub open spec fn fallback_view(fallback: Option<InternetFallback>) -> Option<FallbackView> {
    match fallback {
        Some(path) => Some(path.deep_view()),
        None => None,
    }
}

/// What a gateway, where there is one, stands for.
pub open spec fn gateway_view(gateway: Option<&InternetGateway>) -> Option<GatewayView> {
    match gateway {
        Some(found) => Some(found.deep_view()),
        None => None,
    }
}

/// Whether Windows prefers the candidate to the current path.
pub fn fallback_is_preferred(candidate: InternetFallback<'_>, current: InternetFallback<'_>) -> (
    preferred: bool)
    ensures
        preferred == candidate.deep_view().preferred_to(current.deep_view()),
{
    match (candidate.priority(), current.priority()) {
        (Some(mine), Some(theirs)) => {
            mine.prefix_length > theirs.prefix_length || (mine.prefix_length
                == theirs.prefix_length && (mine.effective_metric < theirs.effective_metric || (
            mine.effective_metric == theirs.effective_metric && candidate.interface_index()
                < current.interface_index())))
        },
        (Some(_), None) => true,
        _ => false,
    }
}

/// The first VPN that the interface belongs to.
pub open spec fn kind_of(adapter: AdapterView) -> Option<VpnKind> {
    if adapter.matches(VpnKind::FortiClient) {
        Some(VpnKind::FortiClient)
    } else if adapter.matches(VpnKind::F5) {
        Some(VpnKind::F5)
    } else if adapter.matches(VpnKind::Ivanti) {
        Some(VpnKind::Ivanti)
    } else {
        None
    }
}

/// The first VPN that the interface belongs to.
pub fn adapter_vpn_kind(adapter: &NetworkAdapter) -> (vpn: Option<VpnKind>)
    ensures
        vpn == kind_of(adapter.deep_view()),
{
    if adapter.matches(VpnKind::FortiClient) {
        Some(VpnKind::FortiClient)
    } else if adapter.matches(VpnKind::F5) {
        Some(VpnKind::F5)
    } else if adapter.matches(VpnKind::Ivanti) {
        Some(VpnKind::Ivanti)
    } else {
        None
    }
}

/// The interface is a path of its own: it is connected, takes all traffic, and belongs
/// to a VPN that is not enabled here.
pub open spec fn own_path(profiles: Seq<VpnProfile>, adapter: AdapterView) -> Option<FallbackView> {
    if adapter.is_up() && adapter.full_tunnel_priority is Some {
        match kind_of(adapter) {
            Some(vpn) => if is_enabled(profiles, vpn) {
                None
            } else {
                Some(FallbackView::Vpn { vpn, adapter })
            },
            None => None,
        }
    } else {
        None
    }
}

/// The path that Windows prefers among the ordinary network and the interfaces that
/// are paths of their own; of equals the one that comes first.
pub open spec fn chosen_fallback(
    profiles: Seq<VpnProfile>,
    adapters: Seq<AdapterView>,
    gateway: Option<GatewayView>,
) -> Option<FallbackView>
    decreases adapters.len(),
{
    if adapters.len() == 0 {
        match gateway {
            Some(found) => Some(FallbackView::Physical(found)),
            None => None,
        }
    } else {
        let before = chosen_fallback(profiles, adapters.drop_last(), gateway);
        match own_path(profiles, adapters.last()) {
            Some(candidate) => if before is None || candidate.preferred_to(before->0) {
                Some(candidate)
            } else {
                before
            },
            None => before,
        }
    }
}

/// The path that takes everything else.
pub fn select_internet_fallback<'a>(
    config: &SplitterConfig,
    adapters: &'a [NetworkAdapter],
    internet_gateway: Option<&'a InternetGateway>,
) -> (fallback: Option<InternetFallback<'a>>)
    ensures
        fallback_view(fallback) == chosen_fallback(
            config.profiles@,
            adapters.deep_view(),
            gateway_view(internet_gateway),
        ),
{
    let ghost views = adapters.deep_view();
    let mut chosen: Option<InternetFallback<'a>> = match internet_gateway {
        Some(gateway) => Some(InternetFallback::Physical(gateway)),
        None => None,
    };
    for i in 0..adapters.len()
        invariant
            views == adapters.deep_view(),
            fallback_view(chosen) == chosen_fallback(
                config.profiles@,
                views.take(i as int),
                gateway_view(internet_gateway),
            ),
    {
        assert(views.take(i + 1).drop_last() =~= views.take(i as int));
        assert(views.take(i + 1).last() == adapters@[i as int].deep_view());
        let adapter: &'a NetworkAdapter = &adapters[i];
        if adapter.full_tunnel_priority.is_some() && adapter.is_up() {
            if let Some(vpn) = adapter_vpn_kind(adapter) {
                if !config.is_profile_enabled(vpn) {
                    let candidate: InternetFallback<'a> = InternetFallback::Vpn { vpn, adapter };
                    let better: bool = match chosen {
                        Some(current) => fallback_is_preferred(candidate, current),
                        None => true,
                    };
                    if better {
                        chosen = Some(candidate);
                    }
                }
            }
        }
    }
    assert(views.take(adapters.len() as int) =~= views);
    chosen
}

/// Some connected interface reports the name server.
pub open spec fn reported_by_vpn(adapters: Seq<AdapterView>, server: u32) -> bool {
    exists|i: int|
        0 <= i < adapters.len() && (#[trigger] adapters[i]).is_up() && distinct_addresses(
            adapters[i].dns_servers,
        ).contains(server)
}

/// The name server is one of the ordinary network only.
pub open spec fn not_a_vpn_server(adapters: Seq<AdapterView>) -> spec_fn(u32) -> bool {
    |server: u32| !reported_by_vpn(adapters, server)
}

/// The name servers of the ordinary network: those that the gateway uses now, else
/// those that it is set up with, without those that a connected VPN reports.
pub open spec fn ordinary_servers(adapters: Seq<AdapterView>, gateway: GatewayView) -> Seq<u32> {
    let active = distinct_addresses(gateway.dns_servers).filter(not_a_vpn_server(adapters));
    if active.len() == 0 {
        distinct_addresses(gateway.fallback_dns_servers).filter(not_a_vpn_server(adapters))
    } else {
        active
    }
}

/// The ordinary network has no name server of its own.
pub open spec fn no_ordinary_server(gateway: GatewayView) -> Seq<char> {
    gateway.interface_alias
        + " 沒有可辨識的一般網路 IPv4 DNS server；為避免讓未指定服務繼續使用 VPN DNS，已停止啟用分流。"@
}

/// What a list of addresses, or the reasons why there is none, stands for.
pub open spec fn servers_result(result: Result<Vec<u32>, Vec<String>>) -> Result<
    Seq<u32>,
    Seq<Seq<char>>,
> {
    match result {
        Ok(servers) => Ok(servers@),
        Err(reasons) => Err(reasons.deep_view()),
    }
}

/// Whether some connected interface reports the name server.
fn is_reported_by_vpn(adapters: &[NetworkAdapter], server: u32) -> (reported: bool)
    ensures
        reported == reported_by_vpn(adapters.deep_view(), server),
{
    let ghost views = adapters.deep_view();
    for i in 0..adapters.len()
        invariant
            views == adapters.deep_view(),
            forall|k: int|
                0 <= k < i && (#[trigger] views[k]).is_up() ==> !distinct_addresses(
                    views[k].dns_servers,
                ).contains(server),
    {
        assert(views[i as int] == adapters@[i as int].deep_view());
        if adapters[i].is_up() {
            let servers: Vec<u32> = normalized_ipv4_addresses(&adapters[i].dns_servers);
            if contains_address(&servers, server) {
                assert(views[i as int].is_up());
                return true;
            }
        }
    }
    false
}

/// The name servers that no connected interface reports, in their order.
fn without_vpn_servers(servers: &Vec<u32>, adapters: &[NetworkAdapter]) -> (kept: Vec<u32>)
    ensures
        kept@ == servers@.filter(not_a_vpn_server(adapters.deep_view())),
{
    let ghost condition = not_a_vpn_server(adapters.deep_view());
    let mut kept: Vec<u32> = Vec::new();
    proof {
        crate::lists::lemma_filter_none(servers@, condition);
    }
    for i in 0..servers.len()
        invariant
            condition == not_a_vpn_server(adapters.deep_view()),
            kept@ == servers@.take(i as int).filter(condition),
    {
        proof {
            crate::lists::lemma_filter_step(servers@, i as int, condition);
        }
        if !is_reported_by_vpn(adapters, servers[i]) {
            kept.push(servers[i]);
        }
    }
    assert(servers@.take(servers.len() as int) =~= servers@);
    kept
}

/// The name servers of the ordinary network.
pub open spec fn ordinary_servers_or_reason(
    adapters: Seq<AdapterView>,
    gateway: GatewayView,
) -> Result<Seq<u32>, Seq<Seq<char>>> {
    let servers = ordinary_servers(adapters, gateway);
    if servers.len() == 0 {
        Err(seq![no_ordinary_server(gateway)])
    } else {
        Ok(servers)
    }
}

/// The name servers of the ordinary network.
pub fn current_network_dns_servers(adapters: &[NetworkAdapter], gateway: &InternetGateway) -> (
    result: Result<Vec<u32>, Vec<String>>)
    ensures
        servers_result(result) == ordinary_servers_or_reason(
            adapters.deep_view(),
            gateway.deep_view(),
        ),
{
    let active: Vec<u32> = without_vpn_servers(
        &normalized_ipv4_addresses(&gateway.dns_servers),
        adapters,
    );
    let servers: Vec<u32> = if active.len() == 0 {
        without_vpn_servers(&normalized_ipv4_addresses(&gateway.fallback_dns_servers), adapters)
    } else {
        active
    };
    if servers.len() == 0 {
        let mut message: String = gateway.interface_alias.clone();
        message.append(
            " 沒有可辨識的一般網路 IPv4 DNS server；為避免讓未指定服務繼續使用 VPN DNS，已停止啟用分流。",
        );
        return Err(one_text(message));
    }
    Ok(servers)
}

/// The name servers of the path that takes everything else.
pub open spec fn fallback_servers(
    fallback: FallbackView,
    adapters: Seq<AdapterView>,
) -> Result<Seq<u32>, Seq<Seq<char>>> {
    match fallback {
        FallbackView::Physical(gateway) => ordinary_servers_or_reason(adapters, gateway),
        FallbackView::Vpn { vpn, adapter } => {
            let servers = distinct_addresses(adapter.dns_servers);
            if servers.len() == 0 {
                Err(
                    seq![
                        vpn.text() + " 已連線且其原生通道應處理未指定流量，但介面「"@
                            + adapter.description
                            + "」沒有可辨識的 IPv4 DNS server；為避免改變未啟用分流時的 DNS 行為，已停止套用。"@,
                    ],
                )
            } else {
                Ok(servers)
            }
        },
    }
}

/// The name servers of the path that takes everything else.
pub fn fallback_dns_servers(fallback: InternetFallback<'_>, adapters: &[NetworkAdapter]) -> (result:
    Result<Vec<u32>, Vec<String>>)
    ensures
        servers_result(result) == fallback_servers(fallback.deep_view(), adapters.deep_view()),
{
    match fallback {
        InternetFallback::Physical(gateway) => current_network_dns_servers(adapters, gateway),
        InternetFallback::Vpn { vpn, adapter } => {
            let servers: Vec<u32> = normalized_ipv4_addresses(&adapter.dns_servers);
            if servers.len() == 0 {
                let mut message: String = vpn.name().to_owned();
                message.append(" 已連線且其原生通道應處理未指定流量，但介面「");
                message.append(adapter.description.as_str());
                message.append(
                    "」沒有可辨識的 IPv4 DNS server；為避免改變未啟用分流時的 DNS 行為，已停止套用。",
                );
                return Err(one_text(message));
            }
            Ok(servers)
        },
    }
}

/// The rules for names have to be managed: an enabled VPN takes all traffic, some
/// enabled profile names a domain, or another VPN takes everything else.
pub open spec fn manages_dns(
    profiles: Seq<VpnProfile>,
    full_tunnels: Seq<VpnKind>,
    fallback: Option<FallbackView>,
) -> bool {
    full_tunnels.len() > 0 || names_enabled_domain(profiles) || fallback matches Some(
        FallbackView::Vpn { vpn, adapter },
    )
}

/// Whether the rules for names have to be managed.
pub fn should_manage_dns_policy(
    config: &SplitterConfig,
    full_tunnel_vpns: &Vec<VpnKind>,
    fallback: Option<InternetFallback<'_>>,
) -> (manage: bool)
    ensures
        manage == manages_dns(config.profiles@, full_tunnel_vpns@, fallback_view(fallback)),
{
    full_tunnel_vpns.len() > 0 || has_enabled_dns_targets(config) || match fallback {
        Some(path) => path.is_vpn(),
        None => false,
    }
}

/// The interface that takes all traffic for the first profile of the VPN.
pub open spec fn full_tunnel_adapter(
    profiles: Seq<VpnProfile>,
    adapters: Seq<AdapterView>,
    vpn: VpnKind,
) -> Option<AdapterView> {
    match profile_of(profiles, vpn) {
        Some(profile) => match profile.adapter_description {
            Some(description) => first_that(adapters, selected_full_tunnel(vpn, description@)),
            None => None,
        },
        None => None,
    }
}

/// The path does not win over the VPN that takes all traffic.
pub open spec fn tunnel_wins(
    profiles: Seq<VpnProfile>,
    adapters: Seq<AdapterView>,
    vpn: VpnKind,
    fallback: FallbackView,
) -> bool {
    match full_tunnel_adapter(profiles, adapters, vpn) {
        Some(adapter) => !fallback.preferred_to(FallbackView::Vpn { vpn, adapter }),
        None => true,
    }
}

/// Routes are needed so that everything else takes the path: some VPN that takes all
/// traffic would win over it.
pub open spec fn bypass_required(
    profiles: Seq<VpnProfile>,
    adapters: Seq<AdapterView>,
    full_tunnels: Seq<VpnKind>,
    fallback: FallbackView,
) -> bool {
    exists|i: int|
        0 <= i < full_tunnels.len() && tunnel_wins(
            profiles,
            adapters,
            #[trigger] full_tunnels[i],
            fallback,
        )
}

/// Whether the path does not win over the VPN that takes all traffic.
fn does_tunnel_win(
    config: &SplitterConfig,
    adapters: &[NetworkAdapter],
    vpn: VpnKind,
    fallback: InternetFallback<'_>,
) -> (wins: bool)
    ensures
        wins == tunnel_wins(
            config.profiles@,
            adapters.deep_view(),
            vpn,
            fallback.deep_view(),
        ),
{
    if let Some(profile) = config.profile(vpn) {
        if let Some(description) = &profile.adapter_description {
            let index: usize = find_full_tunnel(adapters, vpn, description.as_str());
            if index < adapters.len() {
                let tunnel: InternetFallback = InternetFallback::Vpn {
                    vpn,
                    adapter: &adapters[index],
                };
                return !fallback_is_preferred(fallback, tunnel);
            }
        }
    }
    true
}

/// Whether routes are needed so that everything else takes the path.
pub fn internet_bypass_routes_are_required(
    config: &SplitterConfig,
    adapters: &[NetworkAdapter],
    full_tunnel_vpns: &Vec<VpnKind>,
    fallback: InternetFallback<'_>,
) -> (required: bool)
    ensures
        required == bypass_required(
            config.profiles@,
            adapters.deep_view(),
            full_tunnel_vpns@,
            fallback.deep_view(),
        ),
{
    for i in 0..full_tunnel_vpns.len()
        invariant
            forall|k: int|
                0 <= k < i ==> !tunnel_wins(
                    config.profiles@,
                    adapters.deep_view(),
                    #[trigger] full_tunnel_vpns@[k],
                    fallback.deep_view(),
                ),
    {
        if does_tunnel_win(config, adapters, full_tunnel_vpns[i], fallback) {
            return true;
        }
    }
    false
}

/// Preference is transitive.
proof fn lemma_preference_transitive(a: FallbackView, b: FallbackView, c: FallbackView)
    requires
        a.preferred_to(b),
        b.preferred_to(c),
    ensures
        a.preferred_to(c),
{
}

/// Windows prefers no other path to the chosen one: neither the ordinary network nor
/// any connected VPN that takes all traffic and is not enabled here. There is none only
/// where there is nothing to choose from, and it is never a VPN that is enabled here.
pub proof fn law_chosen_fallback_is_preferred(
    profiles: Seq<VpnProfile>,
    adapters: Seq<AdapterView>,
    gateway: Option<GatewayView>,
)
    ensures
        match chosen_fallback(profiles, adapters, gateway) {
            Some(chosen) => {
                &&& gateway matches Some(found) ==> !FallbackView::Physical(found).preferred_to(
                    chosen,
                )
                &&& forall|i: int|
                    0 <= i < adapters.len() ==> (own_path(profiles, #[trigger] adapters[i]) matches
                        Some(candidate) ==> !candidate.preferred_to(chosen))
                &&& chosen matches FallbackView::Vpn { vpn, adapter } ==> {
                    &&& adapters.contains(adapter)
                    &&& adapter.is_up()
                    &&& adapter.full_tunnel_priority is Some
                    &&& adapter.matches(vpn)
                    &&& !is_enabled(profiles, vpn)
                }
                &&& chosen matches FallbackView::Physical(found) ==> gateway == Some(found)
            },
            None => {
                &&& gateway is None
                &&& forall|i: int|
                    0 <= i < adapters.len() ==> own_path(profiles, #[trigger] adapters[i]) is None
            },
        },
    decreases adapters.len(),
{
    if adapters.len() > 0 {
        let before = adapters.drop_last();
        let last = adapters.last();
        law_chosen_fallback_is_preferred(profiles, before, gateway);
        let earlier = chosen_fallback(profiles, before, gateway);
        let chosen = chosen_fallback(profiles, adapters, gateway);
        assert(adapters[adapters.len() - 1] == last);
        if let Some(FallbackView::Vpn { vpn, adapter }) = earlier {
            let k = choose|k: int| 0 <= k < before.len() && before[k] == adapter;
            assert(adapters[k] == adapter);
        }
        if chosen is Some {
            assert forall|i: int| 0 <= i < adapters.len() implies (own_path(
                profiles,
                #[trigger] adapters[i],
            ) matches Some(candidate) ==> !candidate.preferred_to(chosen->0)) by {
                if i < before.len() {
                    assert(adapters[i] == before[i]);
                    if let Some(candidate) = own_path(profiles, adapters[i]) {
                        assert(earlier is Some);
                        if chosen != earlier && candidate.preferred_to(chosen->0) {
                            lemma_preference_transitive(candidate, chosen->0, earlier->0);
                        }
                    }
                }
            }
            if let Some(found) = gateway {
                let physical = FallbackView::Physical(found);
                if chosen != earlier && physical.preferred_to(chosen->0) {
                    lemma_preference_transitive(physical, chosen->0, earlier->0);
                }
            }
        } else {
            assert forall|i: int| 0 <= i < adapters.len() implies own_path(
                profiles,
                #[trigger] adapters[i],
            ) is None by {
                if i < before.len() {
                    assert(adapters[i] == before[i]);
                }
            }
        }
    }
}

/// Names that no enabled VPN owns stay on the ordinary network: none of its name
/// servers is one that a connected VPN reports.
pub proof fn law_ordinary_servers_are_no_vpn_servers(
    adapters: Seq<AdapterView>,
    gateway: GatewayView,
)
    ensures
        forall|server: u32| #[trigger]
            ordinary_servers(adapters, gateway).contains(server) ==> {
                &&& !reported_by_vpn(adapters, server)
                &&& distinct_addresses(gateway.dns_servers).contains(server) || distinct_addresses(
                    gateway.fallback_dns_servers,
                ).contains(server)
            },
{
    let condition = not_a_vpn_server(adapters);
    crate::lists::lemma_filter_members(distinct_addresses(gateway.dns_servers), condition);
    crate::lists::lemma_filter_members(
        distinct_addresses(gateway.fallback_dns_servers),
        condition,
    );
    assert forall|server: u32| #[trigger]
        ordinary_servers(adapters, gateway).contains(server) implies {
        &&& !reported_by_vpn(adapters, server)
        &&& distinct_addresses(gateway.dns_servers).contains(server) || distinct_addresses(
            gateway.fallback_dns_servers,
        ).contains(server)
    } by {
        assert(condition(server));
    }
}

}
