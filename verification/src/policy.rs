//! The routes and the rules for names of a whole configuration, with respect for the
//! routes that the system has by itself.

use vstd::prelude::*;

use crate::bypass_laws::cost;
use crate::dns_plan::{DnsPlan, DnsPlanView, ProfileDnsPlan, ProfilePlanView};
use crate::domain::{
    configured_static_networks, entries_of, networks_among, profile_of, SplitterConfig, VpnKind,
    VpnProfile,
};
use crate::fallback::{
    bypass_required, fallback_view, internet_bypass_routes_are_required, FallbackView,
    InternetFallback,
};
use crate::ipv4::{address_text, address_to_text, parsed_network, Ipv4Net};
use crate::lists::{
    first_index, first_that, lemma_filter_none, lemma_filter_step, lemma_first_index, lemma_is_first,
};
use crate::preparation::{
    add_servers, any_target, find_any_target, general_dns_rule, general_rule, prepared_result,
    server_in_foreign_target_text, vpn_dns_rule, vpn_rule, with_servers, PreparedRoutes, PreparedView, ROUTE_METRIC,
};
use crate::routes::{append_routes, clone_routes, contains_route, routes_slice};
use crate::selection::{
    check_result, find_selected_up, one_text, selected_adapter_for_profile, selected_up, selection,
};
use crate::text::{is_text_less, join_texts, joined, same_text, text_less};
use crate::validation::{ValidatedProfile, ValidatedView};
use crate::windows::{
    AdapterView, ManagedRoute, ManagedRoutePurpose, NativeRoute, NativeRouteView, NetworkAdapter,
    RouteView,
};

verus! {

/// The route that directs a network to the VPN's interface.
pub open spec fn target_route(vpn: VpnKind, network: Ipv4Net, adapter: AdapterView) -> RouteView {
    RouteView {
        vpn,
        purpose: ManagedRoutePurpose::Target,
        prefix: network.text(),
        interface_index: adapter.index,
        next_hop: adapter.next_hop,
        route_metric: ROUTE_METRIC,
    }
}

/// The routes that direct the networks to the VPN's interface.
pub open spec fn target_routes(
    vpn: VpnKind,
    networks: Seq<Ipv4Net>,
    adapter: AdapterView,
) -> Seq<RouteView> {
    Seq::new(networks.len(), |i: int| target_route(vpn, networks[i], adapter))
}

/// The routes for what was validated of one profile.
pub open spec fn validated_routes(
    profiles: Seq<VpnProfile>,
    validated: ValidatedView,
    adapters: Seq<AdapterView>,
) -> Result<Seq<RouteView>, Seq<Seq<char>>> {
    match selection(profiles, validated.vpn, adapters) {
        Err(reasons) => Err(reasons),
        Ok(adapter) => Ok(target_routes(validated.vpn, validated.networks, adapter)),
    }
}

/// The routes for what was validated of all profiles, in their order.
pub open spec fn all_validated_routes(
    profiles: Seq<VpnProfile>,
    validated: Seq<ValidatedView>,
    adapters: Seq<AdapterView>,
) -> Result<Seq<RouteView>, Seq<Seq<char>>>
    decreases validated.len(),
{
    if validated.len() == 0 {
        Ok(Seq::empty())
    } else {
        match all_validated_routes(profiles, validated.drop_last(), adapters) {
            Err(reasons) => Err(reasons),
            Ok(before) => match validated_routes(profiles, validated.last(), adapters) {
                Err(reasons) => Err(reasons),
                Ok(routes) => Ok(before + routes),
            },
        }
    }
}

/// A failure at the first profiles is the failure at all of them.
pub proof fn lemma_first_route_failure(
    profiles: Seq<VpnProfile>,
    validated: Seq<ValidatedView>,
    adapters: Seq<AdapterView>,
    count: int,
)
    requires
        0 <= count <= validated.len(),
        all_validated_routes(profiles, validated.take(count), adapters) is Err,
    ensures
        all_validated_routes(profiles, validated, adapters) == all_validated_routes(
            profiles,
            validated.take(count),
            adapters,
        ),
    decreases validated.len() - count,
{
    if count < validated.len() {
        assert(validated.take(count + 1).drop_last() =~= validated.take(count));
        lemma_first_route_failure(profiles, validated, adapters, count + 1);
    } else {
        assert(validated.take(count) =~= validated);
    }
}

/// What a list of routes, or the reasons why there is none, stands for.
pub open spec fn routes_result(result: Result<Vec<ManagedRoute>, Vec<String>>) -> Result<
    Seq<RouteView>,
    Seq<Seq<char>>,
> {
    match result {
        Ok(routes) => Ok(routes.deep_view()),
        Err(reasons) => Err(reasons.deep_view()),
    }
}

/// The routes that direct the networks to the VPN's interface.
pub fn make_target_routes(vpn: VpnKind, networks: &Vec<Ipv4Net>, adapter: &NetworkAdapter) -> (
    routes: Vec<ManagedRoute>)
    ensures
        routes.deep_view() == target_routes(vpn, networks@, adapter.deep_view()),
{
    let ghost all = target_routes(vpn, networks@, adapter.deep_view());
    let mut routes: Vec<ManagedRoute> = Vec::new();
    assert(routes.deep_view() =~= all.take(0));
    for i in 0..networks.len()
        invariant
            all == target_routes(vpn, networks@, adapter.deep_view()),
            routes.deep_view() == all.take(i as int),
    {
        let ghost before = routes.deep_view();
        routes.push(
            ManagedRoute {
                vpn,
                purpose: ManagedRoutePurpose::Target,
                prefix: networks[i].to_text(),
                interface_index: adapter.index,
                next_hop: adapter.next_hop.clone(),
                route_metric: ROUTE_METRIC,
            },
        );
        assert(routes.deep_view() =~= before.push(all[i as int]));
        assert(routes.deep_view() =~= all.take(i + 1));
    }
    assert(all.take(networks.len() as int) =~= all);
    routes
}

/// The routes for what was validated of one profile.
pub fn prepare_validated_profile_routes(
    config: &SplitterConfig,
    validated_profile: &ValidatedProfile,
    adapters: &[NetworkAdapter],
) -> (result: Result<Vec<ManagedRoute>, Vec<String>>)
    requires
        profile_of(config.profiles@, validated_profile.vpn) is Some,
    ensures
        routes_result(result) == validated_routes(
            config.profiles@,
            validated_profile.deep_view(),
            adapters.deep_view(),
        ),
{
    match selected_adapter_for_profile(config, validated_profile.vpn, adapters) {
        Ok(adapter) => Ok(
            make_target_routes(validated_profile.vpn, &validated_profile.networks, adapter),
        ),
        Err(reasons) => Err(reasons),
    }
}

/// The routes for what was validated of all profiles, in their order.
pub fn prepare_all_validated_routes(
    config: &SplitterConfig,
    validated: &Vec<ValidatedProfile>,
    adapters: &[NetworkAdapter],
) -> (result: Result<Vec<ManagedRoute>, Vec<String>>)
    requires
        forall|i: int|
            0 <= i < validated.len() ==> profile_of(
                config.profiles@,
                (#[trigger] validated@[i]).vpn,
            ) is Some,
    ensures
        routes_result(result) == all_validated_routes(
            config.profiles@,
            validated.deep_view(),
            adapters.deep_view(),
        ),
{
    let ghost views = validated.deep_view();
    let mut routes: Vec<ManagedRoute> = Vec::new();
    assert(routes.deep_view() =~= Seq::empty());
    for i in 0..validated.len()
        invariant
            views == validated.deep_view(),
            forall|i: int|
                0 <= i < validated.len() ==> profile_of(
                    config.profiles@,
                    (#[trigger] validated@[i]).vpn,
                ) is Some,
            all_validated_routes(
                config.profiles@,
                views.take(i as int),
                adapters.deep_view(),
            ) == Ok::<Seq<RouteView>, Seq<Seq<char>>>(routes.deep_view()),
    {
        assert(views.take(i + 1).drop_last() =~= views.take(i as int));
        assert(views.take(i + 1).last() == validated@[i as int].deep_view());
        match prepare_validated_profile_routes(config, &validated[i], adapters) {
            Ok(more) => {
                append_routes(&mut routes, more);
            },
            Err(reasons) => {
                proof {
                    lemma_first_route_failure(
                        config.profiles@,
                        views,
                        adapters.deep_view(),
                        i + 1,
                    );
                }
                return Err(reasons);
            },
        }
    }
    assert(views.take(validated.len() as int) =~= views);
    Ok(routes)
}

/// One of the sixteen networks that make up the whole address space.
pub open spec fn bypass_network(index: int) -> Ipv4Net {
    Ipv4Net { addr: (index * 0x1000_0000) as u32, prefix_len: 4 }
}

/// The sixteen networks that make up the whole address space.
pub open spec fn bypass_networks() -> Seq<Ipv4Net> {
    Seq::new(16, |i: int| bypass_network(i))
}

/// The sixteen networks that make up the whole address space.
pub fn internet_bypass_networks() -> (networks: Vec<Ipv4Net>)
    ensures
        networks@ == bypass_networks(),
{
    let mut networks: Vec<Ipv4Net> = Vec::new();
    for i in 0u32..16
        invariant
            networks@ == bypass_networks().take(i as int),
    {
        networks.push(Ipv4Net { addr: i * 0x1000_0000, prefix_len: 4 });
        assert(networks@ =~= bypass_networks().take(i + 1));
    }
    assert(bypass_networks().take(16) =~= bypass_networks());
    networks
}

/// The interface is the one that some enabled profile uses.
pub open spec fn interface_in_use(
    profiles: Seq<VpnProfile>,
    adapters: Seq<AdapterView>,
    index: u32,
) -> bool {
    exists|i: int|
        0 <= i < profiles.len() && profile_uses(#[trigger] profiles[i], adapters, index)
}

/// The interface is the one that the profile, being enabled, uses.
pub open spec fn profile_uses(
    profile: VpnProfile,
    adapters: Seq<AdapterView>,
    index: u32,
) -> bool {
    &&& profile.enabled
    &&& profile.adapter_description matches Some(description)
    &&& first_that(adapters, selected_up(profile.vpn, description@)) matches Some(adapter)
    &&& adapter.index == index
}

/// The route of the system is one that this program manages.
pub open spec fn same_as_managed(native: NativeRouteView, managed: RouteView) -> bool {
    &&& parsed_network(managed.prefix) == Some(native.prefix)
    &&& managed.interface_index == native.interface_index
    &&& managed.next_hop == native.next_hop
    &&& managed.route_metric as u32 == native.route_metric
}

/// The route of the system is one of those that this program manages.
pub open spec fn is_managed(native: NativeRouteView, managed: Seq<RouteView>) -> bool {
    exists|i: int| 0 <= i < managed.len() && same_as_managed(native, #[trigger] managed[i])
}

/// The system chose the route by itself, and not through a VPN that is enabled here.
pub open spec fn independent(
    profiles: Seq<VpnProfile>,
    adapters: Seq<AdapterView>,
    managed: Seq<RouteView>,
) -> spec_fn(NativeRouteView) -> bool {
    |route: NativeRouteView|
        !interface_in_use(profiles, adapters, route.interface_index) && !is_managed(route, managed)
}

/// Windows prefers the left route to the right one: the longer prefix, then the lower
/// metric, the lower interface number and the lesser next hop.
pub open spec fn native_before(left: NativeRouteView, right: NativeRouteView) -> bool {
    if left.prefix.prefix_len != right.prefix.prefix_len {
        left.prefix.prefix_len > right.prefix.prefix_len
    } else if left.effective_metric() != right.effective_metric() {
        left.effective_metric() < right.effective_metric()
    } else if left.interface_index != right.interface_index {
        left.interface_index < right.interface_index
    } else {
        text_less(left.next_hop, right.next_hop)
    }
}

/// The route that Windows prefers for the address among those that hold it.
pub open spec fn best_native(routes: Seq<NativeRouteView>, address: u32) -> Option<NativeRouteView>
    decreases routes.len(),
{
    if routes.len() == 0 {
        None
    } else {
        let before = best_native(routes.drop_last(), address);
        let last = routes.last();
        if !last.prefix.covers(address) {
            before
        } else {
            match before {
                Some(best) => if native_before(last, best) {
                    Some(last)
                } else {
                    Some(best)
                },
                None => Some(last),
            }
        }
    }
}

/// The route that keeps one of the sixteen networks on the way that it takes without
/// the VPN: the system's own route for it, else the path for everything else.
pub open spec fn bypass_route(
    owner: VpnKind,
    network: Ipv4Net,
    native: Seq<NativeRouteView>,
    fallback: FallbackView,
) -> RouteView {
    let best = best_native(native, network.first() as u32);
    RouteView {
        vpn: owner,
        purpose: ManagedRoutePurpose::InternetBypass,
        prefix: network.text(),
        interface_index: match best {
            Some(route) => route.interface_index,
            None => fallback.interface_index(),
        },
        next_hop: match best {
            Some(route) => route.next_hop,
            None => fallback.next_hop(),
        },
        route_metric: ROUTE_METRIC,
    }
}

/// The routes that keep all sixteen networks on the way that they take without the
/// VPN.
pub open spec fn bypass_routes(
    owner: VpnKind,
    native: Seq<NativeRouteView>,
    fallback: FallbackView,
) -> Seq<RouteView> {
    Seq::new(16, |i: int| bypass_route(owner, bypass_network(i), native, fallback))
}

/// The names of the VPNs.
pub open spec fn vpn_names(vpns: Seq<VpnKind>) -> Seq<Seq<char>> {
    Seq::new(vpns.len(), |i: int| vpns[i].text())
}

/// Says which VPNs take all traffic, up to the words that follow.
pub open spec fn tunnel_state(vpns: Seq<VpnKind>) -> Seq<char> {
    if vpns.len() == 1 {
        joined(vpn_names(vpns), "、"@) + " 是"@
    } else {
        joined(vpn_names(vpns), "、"@) + " 同時是"@
    }
}

/// Everything else keeps its way around the VPNs that take all traffic.
pub open spec fn with_bypass(
    prepared: PreparedView,
    profiles: Seq<VpnProfile>,
    adapters: Seq<AdapterView>,
    full_tunnels: Seq<VpnKind>,
    fallback: Option<FallbackView>,
    native: Seq<NativeRouteView>,
    managed: Seq<RouteView>,
) -> Result<PreparedView, Seq<Seq<char>>> {
    if full_tunnels.len() == 0 {
        Ok(prepared)
    } else {
        match fallback {
            None => Err(
                seq![
                    tunnel_state(full_tunnels)
                        + " Full Tunnel，但找不到可接手未指定流量的原生 VPN 或一般網路；為避免套用後仍無法連線，已停止。請按「重新偵測 VPN」後再試。"@,
                ],
            ),
            Some(path) => if bypass_required(profiles, adapters, full_tunnels, path) {
                let others = native.filter(independent(profiles, adapters, managed));
                Ok(
                    PreparedView {
                        routes: prepared.routes + bypass_routes(full_tunnels[0], others, path),
                        ..prepared
                    }.with_warning(
                        tunnel_state(full_tunnels)
                            + " Full Tunnel；非指定 IPv4 流量會逐段保留其他已連線 VPN 或一般網路的 Windows 原生選路"@
                            + (if path.inferred() {
                            "（由 VPN 保留的伺服器繞行路由推定）"@
                        } else {
                            Seq::empty()
                        }) + "。若 VPN 公司策略強制封鎖繞行，連線仍可能受限。"@,
                    ),
                )
            } else {
                Ok(
                    prepared.with_warning(
                        tunnel_state(full_tunnels) + " Full Tunnel；"@ + path.label()
                            + " 的原生路由已優先處理非指定 IPv4 流量，本程式不會建立重複的全網路 fallback 路由。"@,
                    ),
                )
            },
        }
    }
}

/// Whether the interface is the one that some enabled profile uses.
fn is_interface_in_use(config: &SplitterConfig, adapters: &[NetworkAdapter], index: u32) -> (used:
    bool)
    ensures
        used == interface_in_use(config.profiles@, adapters.deep_view(), index),
{
    for i in 0..config.profiles.len()
        invariant
            forall|k: int|
                0 <= k < i ==> !profile_uses(
                    #[trigger] config.profiles@[k],
                    adapters.deep_view(),
                    index,
                ),
    {
        let profile: &VpnProfile = &config.profiles[i];
        if profile.enabled {
            if let Some(description) = &profile.adapter_description {
                let at: usize = find_selected_up(adapters, profile.vpn, description.as_str());
                if at < adapters.len() && adapters[at].index == index {
                    assert(profile_uses(
                        config.profiles@[i as int],
                        adapters.deep_view(),
                        index,
                    ));
                    return true;
                }
            }
        }
    }
    false
}

/// Whether the route of the system is one of those that this program manages.
fn is_managed_route(native: &NativeRoute, managed: &[ManagedRoute]) -> (found: bool)
    ensures
        found == is_managed(native.deep_view(), managed.deep_view()),
{
    let ghost views = managed.deep_view();
    for i in 0..managed.len()
        invariant
            views == managed.deep_view(),
            forall|k: int|
                0 <= k < i ==> !same_as_managed(native.deep_view(), #[trigger] views[k]),
    {
        let route: &ManagedRoute = &managed[i];
        let same_prefix: bool = match Ipv4Net::parse(route.prefix.as_str()) {
            Some(network) => network == native.prefix,
            None => false,
        };
        if same_prefix && route.interface_index == native.interface_index && same_text(
            route.next_hop.as_str(),
            native.next_hop.as_str(),
        ) && route.route_metric as u32 == native.route_metric {
            assert(same_as_managed(native.deep_view(), views[i as int]));
            return true;
        }
        assert(!same_as_managed(native.deep_view(), views[i as int]));
    }
    false
}

/// The routes that the system chose by itself, and not through a VPN that is enabled
/// here.
fn independent_routes<'a>(
    config: &SplitterConfig,
    adapters: &[NetworkAdapter],
    native_routes: &'a [NativeRoute],
    managed_routes: &[ManagedRoute],
) -> (kept: Vec<&'a NativeRoute>)
    ensures
        kept.deep_view() == native_routes.deep_view().filter(
            independent(config.profiles@, adapters.deep_view(), managed_routes.deep_view()),
        ),
{
    let ghost views = native_routes.deep_view();
    let ghost condition = independent(
        config.profiles@,
        adapters.deep_view(),
        managed_routes.deep_view(),
    );
    let mut kept: Vec<&'a NativeRoute> = Vec::new();
    proof {
        crate::lists::lemma_filter_none(views, condition);
    }
    assert(kept.deep_view() =~= views.take(0).filter(condition));
    for i in 0..native_routes.len()
        invariant
            views == native_routes.deep_view(),
            condition == independent(
                config.profiles@,
                adapters.deep_view(),
                managed_routes.deep_view(),
            ),
            kept.deep_view() == views.take(i as int).filter(condition),
    {
        let ghost before = kept.deep_view();
        proof {
            crate::lists::lemma_filter_step(views, i as int, condition);
        }
        let route: &'a NativeRoute = &native_routes[i];
        if !is_interface_in_use(config, adapters, route.interface_index) && !is_managed_route(
            route,
            managed_routes,
        ) {
            kept.push(route);
            assert(kept.deep_view() =~= before.push(views[i as int]));
        }
    }
    assert(views.take(native_routes.len() as int) =~= views);
    kept
}

/// Whether Windows prefers the left route to the right one.
fn is_native_before(left: &NativeRoute, right: &NativeRoute) -> (before: bool)
    ensures
        before == native_before(left.deep_view(), right.deep_view()),
        left.prefix.prefix_len != right.prefix.prefix_len ==> before == (left.prefix.prefix_len
            > right.prefix.prefix_len),
        left.prefix.prefix_len == right.prefix.prefix_len && cost(left.deep_view()) != cost(
            right.deep_view(),
        ) ==> before == (cost(left.deep_view()) < cost(right.deep_view())),
{
    if left.prefix.prefix_len != right.prefix.prefix_len {
        left.prefix.prefix_len > right.prefix.prefix_len
    } else if left.effective_metric() != right.effective_metric() {
        left.effective_metric() < right.effective_metric()
    } else if left.interface_index != right.interface_index {
        left.interface_index < right.interface_index
    } else {
        is_text_less(left.next_hop.as_str(), right.next_hop.as_str())
    }
}

/// The route that Windows prefers for the address among those that hold it.
fn find_best_native<'a>(routes: &Vec<&'a NativeRoute>, address: u32) -> (best: Option<
    &'a NativeRoute,
>)
    ensures
        best.deep_view() == best_native(routes.deep_view(), address),
{
    let ghost views = routes.deep_view();
    let mut best: Option<&'a NativeRoute> = None;
    for i in 0..routes.len()
        invariant
            views == routes.deep_view(),
            best.deep_view() == best_native(views.take(i as int), address),
    {
        assert(views.take(i + 1).drop_last() =~= views.take(i as int));
        assert(views.take(i + 1).last() == routes@[i as int].deep_view());
        let route: &'a NativeRoute = routes[i];
        if route.prefix.contains(address) {
            let better: bool = match best {
                Some(current) => is_native_before(route, current),
                None => true,
            };
            if better {
                best = Some(route);
            }
        }
    }
    assert(views.take(routes.len() as int) =~= views);
    best
}

/// The routes that keep all sixteen networks on the way that they take without the
/// VPN.
fn make_bypass_routes(
    owner: VpnKind,
    native: &Vec<&NativeRoute>,
    fallback: InternetFallback<'_>,
) -> (routes: Vec<ManagedRoute>)
    ensures
        routes.deep_view() == bypass_routes(owner, native.deep_view(), fallback.deep_view()),
{
    let networks: Vec<Ipv4Net> = internet_bypass_networks();
    let ghost all = bypass_routes(owner, native.deep_view(), fallback.deep_view());
    let mut routes: Vec<ManagedRoute> = Vec::new();
    assert(routes.deep_view() =~= all.take(0));
    for i in 0..networks.len()
        invariant
            networks@ == bypass_networks(),
            all == bypass_routes(owner, native.deep_view(), fallback.deep_view()),
            routes.deep_view() == all.take(i as int),
    {
        let ghost before = routes.deep_view();
        let network: Ipv4Net = networks[i];
        let (interface_index, next_hop): (u32, String) = match find_best_native(
            native,
            network.network(),
        ) {
            Some(route) => (route.interface_index, route.next_hop.clone()),
            None => (fallback.interface_index(), fallback.next_hop().to_owned()),
        };
        routes.push(
            ManagedRoute {
                vpn: owner,
                purpose: ManagedRoutePurpose::InternetBypass,
                prefix: network.to_text(),
                interface_index,
                next_hop,
                route_metric: ROUTE_METRIC,
            },
        );
        assert(routes.deep_view() =~= before.push(all[i as int]));
        assert(routes.deep_view() =~= all.take(i + 1));
    }
    assert(all.take(16) =~= all);
    routes
}

/// The names of the VPNs, with `、` between them.
pub fn join_vpn_names(vpns: &Vec<VpnKind>) -> (names: String)
    ensures
        names@ == joined(vpn_names(vpns@), "、"@),
{
    let mut names: Vec<String> = Vec::new();
    assert(names.deep_view() =~= vpn_names(vpns@).take(0));
    for i in 0..vpns.len()
        invariant
            names.deep_view() == vpn_names(vpns@).take(i as int),
    {
        let ghost before = names.deep_view();
        names.push(vpns[i].name().to_owned());
        assert(names.deep_view() =~= before.push(vpns@[i as int].text()));
        assert(names.deep_view() =~= vpn_names(vpns@).take(i + 1));
    }
    assert(vpn_names(vpns@).take(vpns.len() as int) =~= vpn_names(vpns@));
    join_texts(&names, "、")
}

/// Says which VPNs take all traffic, up to the words that follow.
fn tunnel_state_text(vpns: &Vec<VpnKind>) -> (text: String)
    ensures
        text@ == tunnel_state(vpns@),
{
    let mut text: String = join_vpn_names(vpns);
    if vpns.len() == 1 {
        text.append(" 是");
    } else {
        text.append(" 同時是");
    }
    text
}

/// Lets everything else keep its way around the VPNs that take all traffic.
pub fn append_internet_bypass_routes(
    initial: PreparedRoutes,
    config: &SplitterConfig,
    adapters: &[NetworkAdapter],
    full_tunnel_vpns: &Vec<VpnKind>,
    fallback: Option<InternetFallback<'_>>,
    native_routes: &[NativeRoute],
    managed_routes: &[ManagedRoute],
) -> (result: Result<PreparedRoutes, Vec<String>>)
    ensures
        prepared_result(result) == with_bypass(
            initial.deep_view(),
            config.profiles@,
            adapters.deep_view(),
            full_tunnel_vpns@,
            fallback_view(fallback),
            native_routes.deep_view(),
            managed_routes.deep_view(),
        ),
{
    if full_tunnel_vpns.len() == 0 {
        return Ok(initial);
    }
    let mut text: String = tunnel_state_text(full_tunnel_vpns);
    let path: InternetFallback<'_> = match fallback {
        Some(path) => path,
        None => {
            text.append(
                " Full Tunnel，但找不到可接手未指定流量的原生 VPN 或一般網路；為避免套用後仍無法連線，已停止。請按「重新偵測 VPN」後再試。",
            );
            return Err(one_text(text));
        },
    };
    let mut prepared: PreparedRoutes = initial;
    if internet_bypass_routes_are_required(config, adapters, full_tunnel_vpns, path) {
        let native: Vec<&NativeRoute> = independent_routes(
            config,
            adapters,
            native_routes,
            managed_routes,
        );
        let ghost before = prepared.deep_view();
        append_routes(
            &mut prepared.routes,
            make_bypass_routes(full_tunnel_vpns[0], &native, path),
        );
        text.append(
            " Full Tunnel；非指定 IPv4 流量會逐段保留其他已連線 VPN 或一般網路的 Windows 原生選路",
        );
        if path.inferred_from_escape_route() {
            text.append("（由 VPN 保留的伺服器繞行路由推定）");
        } else {
            assert(text@ + Seq::<char>::empty() =~= text@);
        }
        text.append("。若 VPN 公司策略強制封鎖繞行，連線仍可能受限。");
        prepared.add_warning(text);
    } else {
        let label: String = path.label();
        text.append(" Full Tunnel；");
        text.append(label.as_str());
        text.append(
            " 的原生路由已優先處理非指定 IPv4 流量，本程式不會建立重複的全網路 fallback 路由。",
        );
        prepared.add_warning(text);
    }
    Ok(prepared)
}

/// Some target holds the address.
pub open spec fn inside_target(routes: Seq<RouteView>) -> spec_fn(u32) -> bool {
    |address: u32| first_that(routes, any_target(address)) is Some
}

/// A name server for everything else lies in a target.
pub open spec fn general_server_in_target(
    label: Seq<char>,
    address: u32,
    route: RouteView,
) -> Seq<char> {
    "未指定名稱所使用的 "@ + label + " DNS "@ + address_text(address) + " 被 "@ + route.vpn.text()
        + " 的目標「"@ + route.prefix + "」涵蓋；這會改變未啟用分流時的 DNS 行為，已停止套用。"@
}

/// The rule for the names of one VPN, and the routes to its name servers.
pub open spec fn with_dns_profile(
    prepared: PreparedView,
    profile: ProfilePlanView,
) -> Result<PreparedView, Seq<Seq<char>>> {
    with_servers(
        prepared.with_rule(vpn_rule(profile.vpn, profile.hostnames, profile.servers)),
        profile.vpn,
        profile.servers,
        profile.adapter_index,
        profile.next_hop,
    )
}

/// The rules for the names of several VPNs, and the routes to their name servers.
pub open spec fn with_dns_profiles(
    prepared: PreparedView,
    profiles: Seq<ProfilePlanView>,
) -> Result<PreparedView, Seq<Seq<char>>>
    decreases profiles.len(),
{
    if profiles.len() == 0 {
        Ok(prepared)
    } else {
        match with_dns_profiles(prepared, profiles.drop_last()) {
            Err(reasons) => Err(reasons),
            Ok(before) => with_dns_profile(before, profiles.last()),
        }
    }
}

/// A failure at the first profiles is the failure at all of them.
proof fn lemma_first_dns_failure(
    prepared: PreparedView,
    profiles: Seq<ProfilePlanView>,
    count: int,
)
    requires
        0 <= count <= profiles.len(),
        with_dns_profiles(prepared, profiles.take(count)) is Err,
    ensures
        with_dns_profiles(prepared, profiles) == with_dns_profiles(
            prepared,
            profiles.take(count),
        ),
    decreases profiles.len() - count,
{
    if count < profiles.len() {
        assert(profiles.take(count + 1).drop_last() =~= profiles.take(count));
        lemma_first_dns_failure(prepared, profiles, count + 1);
    } else {
        assert(profiles.take(count) =~= profiles);
    }
}

/// The rules for all names, and the routes to the name servers of the VPNs.
pub open spec fn with_dns_policy(
    prepared: PreparedView,
    label: Seq<char>,
    plan: DnsPlanView,
) -> Result<PreparedView, Seq<Seq<char>>> {
    match first_that(plan.fallback_servers, inside_target(prepared.routes)) {
        Some(address) => Err(
            seq![
                general_server_in_target(
                    label,
                    address,
                    first_that(prepared.routes, any_target(address))->0,
                ),
            ],
        ),
        None => with_dns_profiles(
            prepared.with_rule(general_rule(plan.fallback_servers)),
            plan.values(),
        ),
    }
}

/// The position of the first address that some target holds.
pub fn find_inside_target(addresses: &Vec<u32>, routes: &Vec<ManagedRoute>) -> (index: usize)
    ensures
        index == first_index(addresses@, inside_target(routes.deep_view())),
        index <= addresses.len(),
{
    let ghost condition = inside_target(routes.deep_view());
    let mut index: usize = 0;
    while index < addresses.len() && find_any_target(routes, addresses[index]) == routes.len()
        invariant
            condition == inside_target(routes.deep_view()),
            index <= addresses.len(),
            forall|i: int| 0 <= i < index ==> !condition(#[trigger] addresses@[i]),
        decreases addresses.len() - index,
    {
        assert(!condition(addresses@[index as int]));
        index = index + 1;
    }
    proof {
        if index < addresses.len() {
            lemma_first_index(routes.deep_view(), any_target(addresses@[index as int]));
            assert(condition(addresses@[index as int]));
        }
        lemma_is_first(addresses@, condition, index as int);
    }
    index
}

/// Adds the rules for all names, and the routes to the name servers of the VPNs.
pub fn append_dns_policy(
    initial: PreparedRoutes,
    fallback: InternetFallback<'_>,
    dns_plan: &DnsPlan,
) -> (result: Result<PreparedRoutes, Vec<String>>)
    ensures
        prepared_result(result) == with_dns_policy(
            initial.deep_view(),
            fallback.deep_view().label(),
            dns_plan.deep_view(),
        ),
{
    let mut prepared: PreparedRoutes = initial;
    let inside: usize = find_inside_target(&dns_plan.fallback_servers, &prepared.routes);
    if inside < dns_plan.fallback_servers.len() {
        let address: u32 = dns_plan.fallback_servers[inside];
        let at: usize = find_any_target(&prepared.routes, address);
        proof {
            lemma_first_index(
                dns_plan.fallback_servers@,
                inside_target(initial.deep_view().routes),
            );
            assert(inside_target(initial.deep_view().routes)(address));
        }
        let route: &ManagedRoute = &prepared.routes[at];
        let label: String = fallback.label();
        let address_name: String = address_to_text(address);
        let mut message: String = "未指定名稱所使用的 ".to_owned();
        message.append(label.as_str());
        message.append(" DNS ");
        message.append(address_name.as_str());
        message.append(" 被 ");
        message.append(route.vpn.name());
        message.append(" 的目標「");
        message.append(route.prefix.as_str());
        message.append("」涵蓋；這會改變未啟用分流時的 DNS 行為，已停止套用。");
        return Err(one_text(message));
    }
    prepared.add_rule(general_dns_rule(&dns_plan.fallback_servers));
    let ghost start = prepared.deep_view();
    let profiles: Vec<&ProfileDnsPlan> = dns_plan.values();
    let ghost views = profiles.deep_view();
    for i in 0..profiles.len()
        invariant
            views == profiles.deep_view(),
            with_dns_policy(
                initial.deep_view(),
                fallback.deep_view().label(),
                dns_plan.deep_view(),
            ) == with_dns_profiles(start, views),
            with_dns_profiles(start, views.take(i as int)) == Ok::<PreparedView, Seq<Seq<char>>>(
                prepared.deep_view(),
            ),
    {
        assert(views.take(i + 1).drop_last() =~= views.take(i as int));
        assert(views.take(i + 1).last() == profiles@[i as int].deep_view());
        let profile: &ProfileDnsPlan = profiles[i];
        prepared.add_rule(vpn_dns_rule(profile.vpn, &profile.hostnames, &profile.servers));
        match add_servers(
            prepared,
            profile.vpn,
            &profile.servers,
            profile.adapter_index,
            &profile.next_hop,
        ) {
            Ok(next) => {
                prepared = next;
            },
            Err(reasons) => {
                proof {
                    lemma_first_dns_failure(start, views, i + 1);
                }
                return Err(reasons);
            },
        }
    }
    assert(views.take(profiles.len() as int) =~= views);
    Ok(prepared)
}

/// The network holds the address.
pub open spec fn holding(address: u32) -> spec_fn(Ipv4Net) -> bool {
    |network: Ipv4Net| network.covers(address)
}

/// Some of the networks holds the address.
pub open spec fn within_networks(networks: Seq<Ipv4Net>) -> spec_fn(u32) -> bool {
    |address: u32| first_that(networks, holding(address)) is Some
}

/// A name server of one VPN lies in a network that another VPN is to carry.
pub open spec fn conflict_in_servers(
    networks: Seq<Ipv4Net>,
    vpn: VpnKind,
    plan: ProfilePlanView,
) -> Option<Seq<char>> {
    match first_that(plan.servers, within_networks(networks)) {
        Some(address) => Some(
            plan.vpn.text() + " 的 DNS server "@ + address_text(address) + " 被 "@ + vpn.text()
                + " 的目標「"@ + first_that(networks, holding(address))->0.text()
                + "」涵蓋，無法同時建立正確 DNS 路由。"@,
        ),
        None => None,
    }
}

/// The first such name server among the other VPNs.
pub open spec fn conflict_in_plans(
    networks: Seq<Ipv4Net>,
    vpn: VpnKind,
    plans: Seq<ProfilePlanView>,
) -> Option<Seq<char>>
    decreases plans.len(),
{
    if plans.len() == 0 {
        None
    } else {
        match conflict_in_plans(networks, vpn, plans.drop_last()) {
            Some(message) => Some(message),
            None => if plans.last().vpn != vpn {
                conflict_in_servers(networks, vpn, plans.last())
            } else {
                None
            },
        }
    }
}

/// No enabled profile lists a network in which a name server of another VPN lies.
pub open spec fn no_conflicts(
    profiles: Seq<VpnProfile>,
    plans: Seq<ProfilePlanView>,
) -> Result<(), Seq<Seq<char>>>
    decreases profiles.len(),
{
    if profiles.len() == 0 {
        Ok(())
    } else {
        match no_conflicts(profiles.drop_last(), plans) {
            Err(reasons) => Err(reasons),
            Ok(_) => if !profiles.last().enabled {
                Ok(())
            } else {
                match networks_among(entries_of(profiles.last().networks@)) {
                    Err(reason) => Err(
                        seq![profiles.last().vpn.text() + " 的目標無效："@ + reason],
                    ),
                    Ok(networks) => match conflict_in_plans(
                        networks,
                        profiles.last().vpn,
                        plans,
                    ) {
                        Some(message) => Err(seq![message]),
                        None => Ok(()),
                    },
                }
            },
        }
    }
}

/// A failure at the first profiles is the failure at all of them.
proof fn lemma_first_conflict(
    profiles: Seq<VpnProfile>,
    plans: Seq<ProfilePlanView>,
    count: int,
)
    requires
        0 <= count <= profiles.len(),
        no_conflicts(profiles.take(count), plans) is Err,
    ensures
        no_conflicts(profiles, plans) == no_conflicts(profiles.take(count), plans),
    decreases profiles.len() - count,
{
    if count < profiles.len() {
        assert(profiles.take(count + 1).drop_last() =~= profiles.take(count));
        lemma_first_conflict(profiles, plans, count + 1);
    } else {
        assert(profiles.take(count) =~= profiles);
    }
}

/// The position of the first network that holds the address.
fn find_holding(networks: &Vec<Ipv4Net>, address: u32) -> (index: usize)
    ensures
        index == first_index(networks@, holding(address)),
        index <= networks.len(),
{
    let ghost condition = holding(address);
    let mut index: usize = 0;
    while index < networks.len() && !networks[index].contains(address)
        invariant
            condition == holding(address),
            index <= networks.len(),
            forall|i: int| 0 <= i < index ==> !condition(#[trigger] networks@[i]),
        decreases networks.len() - index,
    {
        assert(!condition(networks@[index as int]));
        index = index + 1;
    }
    proof {
        if index < networks.len() {
            assert(condition(networks@[index as int]));
        }
        lemma_is_first(networks@, condition, index as int);
    }
    index
}

/// What a message, where there is one, stands for.
pub open spec fn message_view(message: Option<String>) -> Option<Seq<char>> {
    match message {
        Some(text) => Some(text@),
        None => None,
    }
}

/// Looks for a name server of one VPN in a network that another VPN is to carry.
fn find_conflict_in_servers(networks: &Vec<Ipv4Net>, vpn: VpnKind, plan: &ProfileDnsPlan) -> (
    message: Option<String>)
    ensures
        message_view(message) == conflict_in_servers(networks@, vpn, plan.deep_view()),
{
    let ghost condition = within_networks(networks@);
    for i in 0..plan.servers.len()
        invariant
            condition == within_networks(networks@),
            forall|k: int| 0 <= k < i ==> !condition(#[trigger] plan.servers@[k]),
    {
        let address: u32 = plan.servers[i];
        let at: usize = find_holding(networks, address);
        if at < networks.len() {
            proof {
                assert(condition(plan.servers@[i as int]));
                lemma_is_first(plan.servers@, condition, i as int);
            }
            let network_name: String = networks[at].to_text();
            return Some(
                server_in_foreign_target_text(plan.vpn, address, vpn, network_name.as_str()),
            );
        }
        proof {
            lemma_first_index(networks@, holding(address));
            assert(!condition(plan.servers@[i as int]));
        }
    }
    proof {
        lemma_is_first(plan.servers@, condition, plan.servers@.len() as int);
    }
    None
}

/// The first conflict among the first plans is the first among all.
proof fn lemma_first_plan_conflict(
    networks: Seq<Ipv4Net>,
    vpn: VpnKind,
    plans: Seq<ProfilePlanView>,
    count: int,
)
    requires
        0 <= count <= plans.len(),
        conflict_in_plans(networks, vpn, plans.take(count)) is Some,
    ensures
        conflict_in_plans(networks, vpn, plans) == conflict_in_plans(
            networks,
            vpn,
            plans.take(count),
        ),
    decreases plans.len() - count,
{
    if count < plans.len() {
        assert(plans.take(count + 1).drop_last() =~= plans.take(count));
        lemma_first_plan_conflict(networks, vpn, plans, count + 1);
    } else {
        assert(plans.take(count) =~= plans);
    }
}

/// Looks for such a name server among the other VPNs.
fn find_conflict_in_plans(networks: &Vec<Ipv4Net>, vpn: VpnKind, plans: &Vec<&ProfileDnsPlan>) -> (
    message: Option<String>)
    ensures
        message_view(message) == conflict_in_plans(networks@, vpn, plans.deep_view()),
{
    let ghost views = plans.deep_view();
    for i in 0..plans.len()
        invariant
            views == plans.deep_view(),
            conflict_in_plans(networks@, vpn, views.take(i as int)) is None,
    {
        assert(views.take(i + 1).drop_last() =~= views.take(i as int));
        assert(views.take(i + 1).last() == plans@[i as int].deep_view());
        if plans[i].vpn != vpn {
            let found: Option<String> = find_conflict_in_servers(networks, vpn, plans[i]);
            if found.is_some() {
                proof {
                    lemma_first_plan_conflict(networks@, vpn, views, i + 1);
                }
                return found;
            }
        }
    }
    assert(views.take(plans.len() as int) =~= views);
    None
}

/// Checks that no enabled profile lists a network in which a name server of another
/// VPN lies.
pub fn validate_dns_route_target_conflicts(config: &SplitterConfig, dns_plan: &DnsPlan) -> (result:
    Result<(), Vec<String>>)
    ensures
        check_result(result) == no_conflicts(config.profiles@, dns_plan.deep_view().values()),
{
    let plans: Vec<&ProfileDnsPlan> = dns_plan.values();
    let ghost views = plans.deep_view();
    let ghost profiles = config.profiles@;
    for i in 0..config.profiles.len()
        invariant
            views == plans.deep_view(),
            views == dns_plan.deep_view().values(),
            profiles == config.profiles@,
            no_conflicts(profiles.take(i as int), views) is Ok,
    {
        assert(profiles.take(i + 1).drop_last() =~= profiles.take(i as int));
        let profile: &VpnProfile = &config.profiles[i];
        if profile.enabled {
            match configured_static_networks(profile) {
                Ok(networks) => {
                    if let Some(message) = find_conflict_in_plans(
                        &networks,
                        profile.vpn,
                        &plans,
                    ) {
                        proof {
                            lemma_first_conflict(profiles, views, i + 1);
                        }
                        return Err(one_text(message));
                    }
                },
                Err(reason) => {
                    proof {
                        lemma_first_conflict(profiles, views, i + 1);
                    }
                    let mut message: String = profile.vpn.name().to_owned();
                    message.append(" 的目標無效：");
                    message.append(reason.as_str());
                    return Err(one_text(message));
                },
            }
        }
    }
    assert(profiles.take(config.profiles.len() as int) =~= profiles);
    Ok(())
}

/// The route has another prefix.
pub open spec fn other_prefix(prefix: Seq<char>) -> spec_fn(RouteView) -> bool {
    |route: RouteView| route.prefix != prefix
}

/// The routes with one more, which takes the place of any other with its prefix.
pub open spec fn with_staged(routes: Seq<RouteView>, route: RouteView) -> Seq<RouteView> {
    if routes.contains(route) {
        routes
    } else {
        routes.filter(other_prefix(route.prefix)).push(route)
    }
}

/// The routes with more, each of which takes the place of any other with its prefix.
pub open spec fn staged(current: Seq<RouteView>, more: Seq<RouteView>) -> Seq<RouteView>
    decreases more.len(),
{
    if more.len() == 0 {
        current
    } else {
        with_staged(staged(current, more.drop_last()), more.last())
    }
}

/// The current routes, and those to the name servers.
pub fn routes_with_dns_bootstrap(
    current_routes: &[ManagedRoute],
    dns_routes: Vec<ManagedRoute>,
) -> (routes: Vec<ManagedRoute>)
    ensures
        routes.deep_view() == staged(current_routes.deep_view(), dns_routes.deep_view()),
{
    let ghost start = current_routes.deep_view();
    let ghost more = dns_routes.deep_view();
    let mut routes: Vec<ManagedRoute> = clone_routes(current_routes);
    for i in 0..dns_routes.len()
        invariant
            more == dns_routes.deep_view(),
            routes.deep_view() == staged(start, more.take(i as int)),
    {
        assert(more.take(i + 1).drop_last() =~= more.take(i as int));
        let ghost route = more[i as int];
        if !contains_route(routes_slice(&routes), &dns_routes[i]) {
            let ghost before = routes.deep_view();
            let mut kept: Vec<ManagedRoute> = Vec::new();
            proof {
                lemma_filter_none(before, other_prefix(route.prefix));
            }
            assert(kept.deep_view() =~= before.take(0).filter(other_prefix(route.prefix)));
            for j in 0..routes.len()
                invariant
                    i < dns_routes.len(),
                    route == dns_routes@[i as int].deep_view(),
                    before == routes.deep_view(),
                    kept.deep_view() == before.take(j as int).filter(other_prefix(route.prefix)),
            {
                let ghost so_far = kept.deep_view();
                proof {
                    lemma_filter_step(before, j as int, other_prefix(route.prefix));
                }
                if !same_text(routes[j].prefix.as_str(), dns_routes[i].prefix.as_str()) {
                    kept.push(routes[j].clone());
                    assert(kept.deep_view() =~= so_far.push(before[j as int]));
                }
            }
            assert(before.take(routes.len() as int) =~= before);
            let ghost so_far = kept.deep_view();
            kept.push(dns_routes[i].clone());
            assert(kept.deep_view() =~= so_far.push(route));
            routes = kept;
        }
    }
    assert(more.take(dns_routes.len() as int) =~= more);
    routes
}

/// Some route of the list has the prefix.
pub open spec fn has_prefix(routes: Seq<RouteView>, prefix: Seq<char>) -> bool {
    exists|i: int| 0 <= i < routes.len() && (#[trigger] routes[i]).prefix == prefix
}

/// The final routes, and behind them the staged ones to name servers whose prefix is
/// not taken.
pub open spec fn transition(staged: Seq<RouteView>, last: Seq<RouteView>) -> Seq<RouteView>
    decreases staged.len(),
{
    if staged.len() == 0 {
        last
    } else {
        let before = transition(staged.drop_last(), last);
        let route = staged.last();
        if route.purpose == ManagedRoutePurpose::VpnDnsServer && !has_prefix(
            before,
            route.prefix,
        ) {
            before.push(route)
        } else {
            before
        }
    }
}

/// Whether some route of the list has the prefix.
fn contains_prefix(routes: &Vec<ManagedRoute>, prefix: &str) -> (found: bool)
    ensures
        found == has_prefix(routes.deep_view(), prefix@),
{
    let ghost views = routes.deep_view();
    for i in 0..routes.len()
        invariant
            views == routes.deep_view(),
            forall|k: int| 0 <= k < i ==> (#[trigger] views[k]).prefix != prefix@,
    {
        if same_text(routes[i].prefix.as_str(), prefix) {
            assert(views[i as int].prefix == prefix@);
            return true;
        }
        assert(views[i as int].prefix != prefix@);
    }
    false
}

/// The routes that stand while the rules for names are being replaced.
pub fn routes_for_policy_transition(
    staged_routes: &[ManagedRoute],
    final_routes: &[ManagedRoute],
) -> (routes: Vec<ManagedRoute>)
    ensures
        routes.deep_view() == transition(staged_routes.deep_view(), final_routes.deep_view()),
{
    let ghost views = staged_routes.deep_view();
    let mut routes: Vec<ManagedRoute> = clone_routes(final_routes);
    for i in 0..staged_routes.len()
        invariant
            views == staged_routes.deep_view(),
            routes.deep_view() == transition(views.take(i as int), final_routes.deep_view()),
    {
        assert(views.take(i + 1).drop_last() =~= views.take(i as int));
        assert(views.take(i + 1).last() == staged_routes@[i as int].deep_view());
        let ghost before = routes.deep_view();
        let route: &ManagedRoute = &staged_routes[i];
        if route.purpose == ManagedRoutePurpose::VpnDnsServer && !contains_prefix(
            &routes,
            route.prefix.as_str(),
        ) {
            routes.push(route.clone());
            assert(routes.deep_view() =~= before.push(views[i as int]));
        }
    }
    assert(views.take(staged_routes.len() as int) =~= views);
    routes
}

}
