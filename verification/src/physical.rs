//! The routes and the rules for names of a whole configuration, where everything else
//! goes back to the ordinary network.

use vstd::prelude::*;

use crate::domain::{profile_of, texts_result, SplitterConfig, VpnKind, VpnProfile};
use crate::fallback::{
    current_network_dns_servers, gateway_view, ordinary_servers_or_reason, servers_result,
};
use crate::ipv4::{address_text, address_to_text};
use crate::lists::{first_that, lemma_first_index};
use crate::policy::{
    find_inside_target, inside_target, join_vpn_names, make_target_routes, target_routes, vpn_names,
};
use crate::preparation::{
    add_servers, any_target, find_any_target, general_dns_rule, general_rule, prepared_result,
    vpn_dns_rule, vpn_rule, with_servers, PreparedRoutes, PreparedView, ROUTE_METRIC,
};
use crate::routes::{append_routes, of_vpn, routes_of_vpn, routes_slice};
use crate::selection::{
    address_texts, addresses_to_texts, all_selected, any_enabled, check_all_selected, check_result,
    distinct_addresses, enabled_full_tunnel_vpns, full_tunnel_vpns, needs_periodic_route_refresh,
    normalized_ipv4_addresses, one_text, selected_adapter_for_profile, selection,
};
use crate::text::{join_texts, joined};
use crate::transaction::{error_messages, messages, resolver_replies, takes_query};
use crate::validation::{
    dns_lookups, questions_of, read_config, targets_of, validate_targets, verdict, AnswerView,
    DnsAnswer, HostOwner, OwnerView, ProfileTargets, ValidatedProfile, ValidatedView,
};
use crate::validation_laws::{lemma_question_profiles_exist, lemma_validated_profiles_exist};
use crate::windows::{
    AdapterView, DnsRuleView, GatewayView, InternetGateway, ManagedRoute, ManagedRoutePurpose,
    NetworkAdapter, RouteView,
};

verus! {

/// The four networks that make up the whole address space. They are narrower than the
/// two halves by which a VPN may itself take all traffic.
pub const INTERNET_BYPASS_PREFIXES: [&'static str; 4] = [
    "0.0.0.0/2",
    "64.0.0.0/2",
    "128.0.0.0/2",
    "192.0.0.0/2",
];

/// The route that leads one of the four networks back to the ordinary network.
pub open spec fn physical_bypass_route(vpn: VpnKind, index: int, gateway: GatewayView) -> RouteView {
    RouteView {
        vpn,
        purpose: ManagedRoutePurpose::InternetBypass,
        prefix: INTERNET_BYPASS_PREFIXES[index]@,
        interface_index: gateway.interface_index,
        next_hop: gateway.next_hop,
        route_metric: ROUTE_METRIC,
    }
}

/// The routes that lead everything back to the ordinary network.
pub open spec fn physical_bypass_routes(vpn: VpnKind, gateway: GatewayView) -> Seq<RouteView> {
    Seq::new(4, |i: int| physical_bypass_route(vpn, i, gateway))
}

/// The routes that lead everything back to the ordinary network.
pub fn make_physical_bypass_routes(vpn: VpnKind, gateway: &InternetGateway) -> (routes: Vec<
    ManagedRoute,
>)
    ensures
        routes.deep_view() == physical_bypass_routes(vpn, gateway.deep_view()),
{
    let ghost all = physical_bypass_routes(vpn, gateway.deep_view());
    let mut routes: Vec<ManagedRoute> = Vec::new();
    assert(routes.deep_view() =~= all.take(0));
    for i in 0usize..4
        invariant
            all == physical_bypass_routes(vpn, gateway.deep_view()),
            routes.deep_view() == all.take(i as int),
    {
        let ghost before = routes.deep_view();
        routes.push(
            ManagedRoute {
                vpn,
                purpose: ManagedRoutePurpose::InternetBypass,
                prefix: INTERNET_BYPASS_PREFIXES[i].to_owned(),
                interface_index: gateway.interface_index,
                next_hop: gateway.next_hop.clone(),
                route_metric: ROUTE_METRIC,
            },
        );
        assert(routes.deep_view() =~= before.push(all[i as int]));
        assert(routes.deep_view() =~= all.take(i + 1));
    }
    assert(all.take(4) =~= all);
    routes
}

/// At most one enabled VPN takes all traffic.
pub open spec fn one_full_tunnel(
    profiles: Seq<VpnProfile>,
    adapters: Seq<AdapterView>,
) -> Result<(), Seq<Seq<char>>> {
    let vpns = full_tunnel_vpns(profiles, adapters);
    if vpns.len() > 1 {
        Err(
            seq![
                joined(vpn_names(vpns), "、"@)
                    + " 同時是 Full Tunnel；多條全流量 VPN 會互相競爭預設路由，已阻擋套用。請一次只啟用其中一個 Full Tunnel。"@,
            ],
        )
    } else {
        Ok(())
    }
}

/// Checks that at most one enabled VPN takes all traffic.
pub fn validate_full_tunnel_count_for(config: &SplitterConfig, adapters: &[NetworkAdapter]) -> (
    result: Result<(), Vec<String>>)
    ensures
        check_result(result) == one_full_tunnel(config.profiles@, adapters.deep_view()),
{
    let vpns: Vec<VpnKind> = enabled_full_tunnel_vpns(config, adapters);
    if vpns.len() > 1 {
        let mut message: String = join_vpn_names(&vpns);
        message.append(
            " 同時是 Full Tunnel；多條全流量 VPN 會互相競爭預設路由，已阻擋套用。請一次只啟用其中一個 Full Tunnel。",
        );
        return Err(one_text(message));
    }
    Ok(())
}

/// The name servers of the ordinary network.
pub open spec fn physical_servers(
    adapters: Seq<AdapterView>,
    gateway: Option<GatewayView>,
) -> Result<Seq<u32>, Seq<Seq<char>>> {
    match gateway {
        Some(found) => ordinary_servers_or_reason(adapters, found),
        None => Err(seq!["找不到目前 Wi-Fi／有線網路的閘道，無法建立一般 DNS 分流。"@]),
    }
}

/// The name servers of the ordinary network.
pub fn physical_dns_servers(
    adapters: &[NetworkAdapter],
    internet_gateway: Option<&InternetGateway>,
) -> (result: Result<Vec<u32>, Vec<String>>)
    ensures
        servers_result(result) == physical_servers(
            adapters.deep_view(),
            gateway_view(internet_gateway),
        ),
{
    match internet_gateway {
        Some(gateway) => current_network_dns_servers(adapters, gateway),
        None => Err(
            one_text("找不到目前 Wi-Fi／有線網路的閘道，無法建立一般 DNS 分流。".to_owned()),
        ),
    }
}

/// A name server of the ordinary network lies in a target.
pub open spec fn ordinary_server_in_target(address: u32, route: RouteView) -> Seq<char> {
    "一般網路 DNS "@ + address_text(address) + " 被 "@ + route.vpn.text() + " 的目標「"@ + route.prefix
        + "」涵蓋；這會讓未指定名稱無法繼續使用目前網路，已停止套用。"@
}

/// The rule for the names of one profile, and the routes to the name servers that its
/// interface reports. Where it reports none, the names stay with the ordinary network.
pub open spec fn with_profile_names(
    prepared: PreparedView,
    profiles: Seq<VpnProfile>,
    adapters: Seq<AdapterView>,
    validated: ValidatedView,
) -> Result<PreparedView, Seq<Seq<char>>> {
    if validated.hostnames.len() == 0 {
        Ok(prepared)
    } else {
        match selection(profiles, validated.vpn, adapters) {
            Err(reasons) => Err(reasons),
            Ok(adapter) => {
                let servers = distinct_addresses(adapter.dns_servers);
                if servers.len() == 0 {
                    Ok(
                        prepared.with_warning(
                            validated.vpn.text()
                                + " 沒有提供 IPv4 DNS server；其網域目標會使用目前網路 DNS 解析，再將結果導向 VPN。"@,
                        ),
                    )
                } else {
                    with_servers(
                        prepared.with_rule(
                            vpn_rule(validated.vpn, validated.hostnames, servers),
                        ),
                        validated.vpn,
                        servers,
                        adapter.index,
                        adapter.next_hop,
                    )
                }
            },
        }
    }
}

/// The rules for the names of several profiles, and the routes to their name servers.
pub open spec fn with_all_names(
    prepared: PreparedView,
    profiles: Seq<VpnProfile>,
    adapters: Seq<AdapterView>,
    validated: Seq<ValidatedView>,
) -> Result<PreparedView, Seq<Seq<char>>>
    decreases validated.len(),
{
    if validated.len() == 0 {
        Ok(prepared)
    } else {
        match with_all_names(prepared, profiles, adapters, validated.drop_last()) {
            Err(reasons) => Err(reasons),
            Ok(before) => with_profile_names(before, profiles, adapters, validated.last()),
        }
    }
}

/// A failure at the first profiles is the failure at all of them.
proof fn lemma_first_name_failure(
    prepared: PreparedView,
    profiles: Seq<VpnProfile>,
    adapters: Seq<AdapterView>,
    validated: Seq<ValidatedView>,
    count: int,
)
    requires
        0 <= count <= validated.len(),
        with_all_names(prepared, profiles, adapters, validated.take(count)) is Err,
    ensures
        with_all_names(prepared, profiles, adapters, validated) == with_all_names(
            prepared,
            profiles,
            adapters,
            validated.take(count),
        ),
    decreases validated.len() - count,
{
    if count < validated.len() {
        assert(validated.take(count + 1).drop_last() =~= validated.take(count));
        lemma_first_name_failure(prepared, profiles, adapters, validated, count + 1);
    } else {
        assert(validated.take(count) =~= validated);
    }
}

/// The rules for all names, and the routes to the name servers of the VPNs.
pub open spec fn with_names(
    prepared: PreparedView,
    profiles: Seq<VpnProfile>,
    adapters: Seq<AdapterView>,
    validated: Seq<ValidatedView>,
    physical: Seq<u32>,
) -> Result<PreparedView, Seq<Seq<char>>> {
    match first_that(physical, inside_target(prepared.routes)) {
        Some(address) => Err(
            seq![
                ordinary_server_in_target(
                    address,
                    first_that(prepared.routes, any_target(address))->0,
                ),
            ],
        ),
        None => with_all_names(
            prepared.with_rule(general_rule(physical)),
            profiles,
            adapters,
            validated,
        ),
    }
}

/// Adds the rule for the names of one profile, and the routes to its name servers.
fn add_profile_names(
    initial: PreparedRoutes,
    config: &SplitterConfig,
    adapters: &[NetworkAdapter],
    validated: &ValidatedProfile,
) -> (result: Result<PreparedRoutes, Vec<String>>)
    requires
        validated.hostnames.len() > 0 ==> profile_of(config.profiles@, validated.vpn) is Some,
    ensures
        prepared_result(result) == with_profile_names(
            initial.deep_view(),
            config.profiles@,
            adapters.deep_view(),
            validated.deep_view(),
        ),
{
    if validated.hostnames.len() == 0 {
        return Ok(initial);
    }
    let mut prepared: PreparedRoutes = initial;
    match selected_adapter_for_profile(config, validated.vpn, adapters) {
        Ok(adapter) => {
            let servers: Vec<u32> = normalized_ipv4_addresses(&adapter.dns_servers);
            if servers.len() == 0 {
                let mut warning: String = validated.vpn.name().to_owned();
                warning.append(
                    " 沒有提供 IPv4 DNS server；其網域目標會使用目前網路 DNS 解析，再將結果導向 VPN。",
                );
                prepared.add_warning(warning);
                return Ok(prepared);
            }
            prepared.add_rule(vpn_dns_rule(validated.vpn, &validated.hostnames, &servers));
            add_servers(prepared, validated.vpn, &servers, adapter.index, &adapter.next_hop)
        },
        Err(reasons) => Err(reasons),
    }
}

/// Adds the rules for all names, and the routes to the name servers of the VPNs.
pub fn append_dns_policy(
    initial: PreparedRoutes,
    validated: &Vec<ValidatedProfile>,
    config: &SplitterConfig,
    adapters: &[NetworkAdapter],
    physical_dns: &Vec<u32>,
) -> (result: Result<PreparedRoutes, Vec<String>>)
    requires
        forall|i: int|
            0 <= i < validated.len() && (#[trigger] validated@[i]).hostnames.len() > 0
                ==> profile_of(config.profiles@, validated@[i].vpn) is Some,
    ensures
        prepared_result(result) == with_names(
            initial.deep_view(),
            config.profiles@,
            adapters.deep_view(),
            validated.deep_view(),
            physical_dns@,
        ),
{
    let mut prepared: PreparedRoutes = initial;
    let inside: usize = find_inside_target(physical_dns, &prepared.routes);
    if inside < physical_dns.len() {
        let address: u32 = physical_dns[inside];
        let at: usize = find_any_target(&prepared.routes, address);
        proof {
            lemma_first_index(physical_dns@, inside_target(initial.deep_view().routes));
            assert(inside_target(initial.deep_view().routes)(address));
        }
        let route: &ManagedRoute = &prepared.routes[at];
        let address_name: String = address_to_text(address);
        let mut message: String = "一般網路 DNS ".to_owned();
        message.append(address_name.as_str());
        message.append(" 被 ");
        message.append(route.vpn.name());
        message.append(" 的目標「");
        message.append(route.prefix.as_str());
        message.append("」涵蓋；這會讓未指定名稱無法繼續使用目前網路，已停止套用。");
        return Err(one_text(message));
    }
    prepared.add_rule(general_dns_rule(physical_dns));
    let ghost start = prepared.deep_view();
    let ghost views = validated.deep_view();
    for i in 0..validated.len()
        invariant
            views == validated.deep_view(),
            forall|i: int|
                0 <= i < validated.len() && (#[trigger] validated@[i]).hostnames.len() > 0
                    ==> profile_of(config.profiles@, validated@[i].vpn) is Some,
            with_names(
                initial.deep_view(),
                config.profiles@,
                adapters.deep_view(),
                views,
                physical_dns@,
            ) == with_all_names(start, config.profiles@, adapters.deep_view(), views),
            with_all_names(
                start,
                config.profiles@,
                adapters.deep_view(),
                views.take(i as int),
            ) == Ok::<PreparedView, Seq<Seq<char>>>(prepared.deep_view()),
    {
        assert(views.take(i + 1).drop_last() =~= views.take(i as int));
        assert(views.take(i + 1).last() == validated@[i as int].deep_view());
        match add_profile_names(prepared, config, adapters, &validated[i]) {
            Ok(next) => {
                prepared = next;
            },
            Err(reasons) => {
                proof {
                    lemma_first_name_failure(
                        start,
                        config.profiles@,
                        adapters.deep_view(),
                        views,
                        i + 1,
                    );
                }
                return Err(reasons);
            },
        }
    }
    assert(views.take(validated.len() as int) =~= views);
    Ok(prepared)
}

/// The routes for what was validated of one profile: those for its targets, and where
/// the VPN takes all traffic those that lead everything else back.
pub open spec fn profile_routes(
    profiles: Seq<VpnProfile>,
    validated: ValidatedView,
    adapters: Seq<AdapterView>,
    gateway: Option<GatewayView>,
) -> Result<PreparedView, Seq<Seq<char>>> {
    match selection(profiles, validated.vpn, adapters) {
        Err(reasons) => Err(reasons),
        Ok(adapter) => {
            let routes = target_routes(validated.vpn, validated.networks, adapter);
            if adapter.full_tunnel_priority is None {
                Ok(PreparedView { routes, ..PreparedView::none() })
            } else {
                match gateway {
                    None => Err(
                        seq![
                            validated.vpn.text()
                                + " 是 Full Tunnel，但找不到原本的一般網路閘道；為避免套用後仍無法上網，已停止。請先中斷 VPN、按「重新偵測 VPN」，再重新連線及偵測。"@,
                        ],
                    ),
                    Some(found) => Ok(
                        PreparedView {
                            routes: routes + physical_bypass_routes(validated.vpn, found),
                            ..PreparedView::none()
                        }.with_warning(
                            validated.vpn.text() + " 是 Full Tunnel；已透過 "@ + found.interface_alias
                                + " 將非指定 IPv4 流量導回一般網路"@ + (
                            if found.inferred_from_escape_route {
                                "（由 F5 保留的伺服器繞行路由推定）"@
                            } else {
                                Seq::empty()
                            }) + "。若公司策略強制封鎖本機繞行，連線仍可能受限。"@,
                        ),
                    ),
                }
            }
        },
    }
}

/// Prepares the routes for what was validated of one profile.
pub fn prepare_validated_profile_for(
    config: &SplitterConfig,
    validated_profile: &ValidatedProfile,
    adapters: &[NetworkAdapter],
    internet_gateway: Option<&InternetGateway>,
) -> (result: Result<PreparedRoutes, Vec<String>>)
    requires
        profile_of(config.profiles@, validated_profile.vpn) is Some,
    ensures
        prepared_result(result) == profile_routes(
            config.profiles@,
            validated_profile.deep_view(),
            adapters.deep_view(),
            gateway_view(internet_gateway),
        ),
{
    let vpn: VpnKind = validated_profile.vpn;
    let adapter: &NetworkAdapter = match selected_adapter_for_profile(config, vpn, adapters) {
        Ok(adapter) => adapter,
        Err(reasons) => {
            return Err(reasons);
        },
    };
    let mut prepared: PreparedRoutes = PreparedRoutes::default();
    prepared.routes = make_target_routes(vpn, &validated_profile.networks, adapter);
    if adapter.full_tunnel_priority.is_some() {
        match internet_gateway {
            Some(gateway) => {
                append_routes(&mut prepared.routes, make_physical_bypass_routes(vpn, gateway));
                let mut warning: String = vpn.name().to_owned();
                warning.append(" 是 Full Tunnel；已透過 ");
                warning.append(gateway.interface_alias.as_str());
                warning.append(" 將非指定 IPv4 流量導回一般網路");
                if gateway.inferred_from_escape_route {
                    warning.append("（由 F5 保留的伺服器繞行路由推定）");
                } else {
                    assert(warning@ + Seq::<char>::empty() =~= warning@);
                }
                warning.append("。若公司策略強制封鎖本機繞行，連線仍可能受限。");
                prepared.add_warning(warning);
            },
            None => {
                let mut message: String = vpn.name().to_owned();
                message.append(
                    " 是 Full Tunnel，但找不到原本的一般網路閘道；為避免套用後仍無法上網，已停止。請先中斷 VPN、按「重新偵測 VPN」，再重新連線及偵測。",
                );
                return Err(one_text(message));
            },
        }
    }
    Ok(prepared)
}

/// The routes for what was validated of all profiles, in their order.
pub open spec fn all_profile_routes(
    profiles: Seq<VpnProfile>,
    validated: Seq<ValidatedView>,
    adapters: Seq<AdapterView>,
    gateway: Option<GatewayView>,
) -> Result<PreparedView, Seq<Seq<char>>>
    decreases validated.len(),
{
    if validated.len() == 0 {
        Ok(PreparedView::none())
    } else {
        match all_profile_routes(profiles, validated.drop_last(), adapters, gateway) {
            Err(reasons) => Err(reasons),
            Ok(before) => match profile_routes(profiles, validated.last(), adapters, gateway) {
                Err(reasons) => Err(reasons),
                Ok(more) => Ok(
                    PreparedView {
                        routes: before.routes + more.routes,
                        dns_rules: Seq::empty(),
                        warnings: before.warnings + more.warnings,
                    },
                ),
            },
        }
    }
}

/// A failure at the first profiles is the failure at all of them.
proof fn lemma_first_profile_failure(
    profiles: Seq<VpnProfile>,
    validated: Seq<ValidatedView>,
    adapters: Seq<AdapterView>,
    gateway: Option<GatewayView>,
    count: int,
)
    requires
        0 <= count <= validated.len(),
        all_profile_routes(profiles, validated.take(count), adapters, gateway) is Err,
    ensures
        all_profile_routes(profiles, validated, adapters, gateway) == all_profile_routes(
            profiles,
            validated.take(count),
            adapters,
            gateway,
        ),
    decreases validated.len() - count,
{
    if count < validated.len() {
        assert(validated.take(count + 1).drop_last() =~= validated.take(count));
        lemma_first_profile_failure(profiles, validated, adapters, gateway, count + 1);
    } else {
        assert(validated.take(count) =~= validated);
    }
}

/// Appends texts to a list.
pub fn append_texts(texts: &mut Vec<String>, more: Vec<String>)
    ensures
        final(texts).deep_view() == old(texts).deep_view() + more.deep_view(),
{
    let ghost before = texts.deep_view();
    let ghost added = more.deep_view();
    for i in 0..more.len()
        invariant
            added == more.deep_view(),
            texts.deep_view() == before + added.take(i as int),
    {
        let ghost now = texts.deep_view();
        texts.push(more[i].clone());
        assert(texts.deep_view() =~= now.push(added[i as int]));
        assert(texts.deep_view() =~= before + added.take(i + 1));
    }
    assert(added.take(more.len() as int) =~= added);
}

/// Prepares the routes for what was validated of all profiles, in their order.
fn prepare_all_profiles(
    config: &SplitterConfig,
    validated: &Vec<ValidatedProfile>,
    adapters: &[NetworkAdapter],
    internet_gateway: Option<&InternetGateway>,
) -> (result: Result<PreparedRoutes, Vec<String>>)
    requires
        forall|i: int|
            0 <= i < validated.len() ==> profile_of(
                config.profiles@,
                (#[trigger] validated@[i]).vpn,
            ) is Some,
    ensures
        prepared_result(result) == all_profile_routes(
            config.profiles@,
            validated.deep_view(),
            adapters.deep_view(),
            gateway_view(internet_gateway),
        ),
{
    let ghost views = validated.deep_view();
    let ghost gateway = gateway_view(internet_gateway);
    let mut prepared: PreparedRoutes = PreparedRoutes::default();
    for i in 0..validated.len()
        invariant
            views == validated.deep_view(),
            gateway == gateway_view(internet_gateway),
            forall|i: int|
                0 <= i < validated.len() ==> profile_of(
                    config.profiles@,
                    (#[trigger] validated@[i]).vpn,
                ) is Some,
            prepared.dns_rules.deep_view() == Seq::<DnsRuleView>::empty(),
            all_profile_routes(
                config.profiles@,
                views.take(i as int),
                adapters.deep_view(),
                gateway,
            ) == Ok::<PreparedView, Seq<Seq<char>>>(prepared.deep_view()),
    {
        assert(views.take(i + 1).drop_last() =~= views.take(i as int));
        assert(views.take(i + 1).last() == validated@[i as int].deep_view());
        match prepare_validated_profile_for(config, &validated[i], adapters, internet_gateway) {
            Ok(more) => {
                append_routes(&mut prepared.routes, more.routes);
                append_texts(&mut prepared.warnings, more.warnings);
            },
            Err(reasons) => {
                proof {
                    lemma_first_profile_failure(
                        config.profiles@,
                        views,
                        adapters.deep_view(),
                        gateway,
                        i + 1,
                    );
                }
                return Err(reasons);
            },
        }
    }
    assert(views.take(validated.len() as int) =~= views);
    Ok(prepared)
}

/// The name servers to ask about a domain of the VPN: those of its interface, and those
/// of the ordinary network where the interface reports none.
pub open spec fn asked_servers(
    profiles: Seq<VpnProfile>,
    adapters: Seq<AdapterView>,
    physical: Seq<u32>,
    vpn: VpnKind,
) -> Result<Seq<Seq<char>>, Seq<char>> {
    match selection(profiles, vpn, adapters) {
        Err(reasons) => Err(joined(reasons, "\n"@)),
        Ok(adapter) => {
            let own = distinct_addresses(adapter.dns_servers);
            Ok(
                address_texts(
                    if own.len() == 0 {
                        physical
                    } else {
                        own
                    },
                ),
            )
        },
    }
}

/// The answer is the resolver's, asked through the name servers for the VPN.
pub open spec fn asked_answer<F: FnMut(VpnKind, &str, &[String]) -> Result<Vec<u32>, String>>(
    resolver: F,
    profiles: Seq<VpnProfile>,
    adapters: Seq<AdapterView>,
    physical: Seq<u32>,
    answer: AnswerView,
) -> bool {
    match asked_servers(profiles, adapters, physical, answer.vpn) {
        Ok(servers) => resolver_replies(resolver, servers, answer),
        Err(reason) => answer.addresses == Err::<Seq<u32>, Seq<char>>(reason),
    }
}

/// The answers are those to the questions, in their order.
pub open spec fn asked_answers<F: FnMut(VpnKind, &str, &[String]) -> Result<Vec<u32>, String>>(
    resolver: F,
    profiles: Seq<VpnProfile>,
    adapters: Seq<AdapterView>,
    physical: Seq<u32>,
    questions: Seq<OwnerView>,
    answers: Seq<AnswerView>,
) -> bool {
    &&& answers.len() == questions.len()
    &&& forall|i: int|
        0 <= i < answers.len() ==> {
            &&& (#[trigger] answers[i]).vpn == questions[i].vpn
            &&& answers[i].hostname == questions[i].hostname
            &&& asked_answer(resolver, profiles, adapters, physical, answers[i])
        }
}

/// The resolver can be asked the question through the name servers for the VPN, if there
/// are any.
pub open spec fn takes_asked<F: FnMut(VpnKind, &str, &[String]) -> Result<Vec<u32>, String>>(
    resolver: F,
    profiles: Seq<VpnProfile>,
    adapters: Seq<AdapterView>,
    physical: Seq<u32>,
    question: OwnerView,
) -> bool {
    asked_servers(profiles, adapters, physical, question.vpn) matches Ok(servers) ==> takes_query(
        resolver,
        servers,
        question,
    )
}

/// The resolver can be asked each of the questions, through the name servers for its VPN.
pub open spec fn takes_all_asked<F: FnMut(VpnKind, &str, &[String]) -> Result<Vec<u32>, String>>(
    resolver: F,
    profiles: Seq<VpnProfile>,
    adapters: Seq<AdapterView>,
    physical: Seq<u32>,
    questions: Seq<OwnerView>,
) -> bool {
    forall|i: int|
        0 <= i < questions.len() ==> takes_asked(
            resolver,
            profiles,
            adapters,
            physical,
            #[trigger] questions[i],
        )
}

/// The name servers to ask about a domain of the VPN.
pub fn servers_to_ask(
    config: &SplitterConfig,
    adapters: &[NetworkAdapter],
    physical_dns: &Vec<u32>,
    vpn: VpnKind,
) -> (result: Result<Vec<String>, String>)
    requires
        profile_of(config.profiles@, vpn) is Some,
    ensures
        texts_result(result) == asked_servers(
            config.profiles@,
            adapters.deep_view(),
            physical_dns@,
            vpn,
        ),
{
    match selected_adapter_for_profile(config, vpn, adapters) {
        Ok(adapter) => {
            let own: Vec<u32> = normalized_ipv4_addresses(&adapter.dns_servers);
            if own.len() == 0 {
                Ok(addresses_to_texts(physical_dns))
            } else {
                Ok(addresses_to_texts(&own))
            }
        },
        Err(reasons) => Err(join_texts(&reasons, "\n")),
    }
}

/// Puts the questions about the domains of the enabled profiles to the resolver, each
/// through the name servers for its VPN, and nothing else.
fn resolve_through_interfaces<F: FnMut(VpnKind, &str, &[String]) -> Result<Vec<u32>, String>>(
    config: &SplitterConfig,
    adapters: &[NetworkAdapter],
    physical_dns: &Vec<u32>,
    mut resolve_hostname: F,
) -> (answers: Vec<DnsAnswer>)
    requires
        takes_all_asked(
            resolve_hostname,
            config.profiles@,
            adapters.deep_view(),
            physical_dns@,
            questions_of(targets_of(config.profiles@)),
        ),
    ensures
        asked_answers(
            resolve_hostname,
            config.profiles@,
            adapters.deep_view(),
            physical_dns@,
            questions_of(targets_of(config.profiles@)),
            answers.deep_view(),
        ),
{
    let questions: Vec<HostOwner> = dns_lookups(&read_config(config));
    let mut answers: Vec<DnsAnswer> = Vec::new();
    let ghost asked = questions.deep_view();
    let ghost resolver = resolve_hostname;
    for i in 0..questions.len()
        invariant
            asked == questions.deep_view(),
            asked == questions_of(targets_of(config.profiles@)),
            resolve_hostname == resolver,
            takes_all_asked(
                resolver,
                config.profiles@,
                adapters.deep_view(),
                physical_dns@,
                asked,
            ),
            asked_answers(
                resolver,
                config.profiles@,
                adapters.deep_view(),
                physical_dns@,
                asked.take(i as int),
                answers.deep_view(),
            ),
    {
        let ghost before = answers.deep_view();
        let vpn: VpnKind = questions[i].vpn;
        proof {
            assert(asked[i as int].vpn == vpn);
            lemma_question_profiles_exist(config.profiles@, i as int);
        }
        let addresses: Result<Vec<u32>, String> = match servers_to_ask(
            config,
            adapters,
            physical_dns,
            vpn,
        ) {
            Ok(servers) => {
                let hostname: &str = questions[i].hostname.as_str();
                let list: &[String] = servers.as_slice();
                assert(list.deep_view() =~= servers.deep_view());
                assert(takes_asked(
                    resolver,
                    config.profiles@,
                    adapters.deep_view(),
                    physical_dns@,
                    asked[i as int],
                ));
                let reply: Result<Vec<u32>, String> = resolve_hostname(vpn, hostname, list);
                assert(call_ensures(resolver, (vpn, hostname, list), reply));
                reply
            },
            Err(reason) => Err(reason),
        };
        let answer: DnsAnswer = DnsAnswer {
            vpn,
            hostname: questions[i].hostname.clone(),
            addresses,
        };
        let ghost added = answer.deep_view();
        assert(asked_answer(
            resolver,
            config.profiles@,
            adapters.deep_view(),
            physical_dns@,
            added,
        ));
        answers.push(answer);
        assert(answers.deep_view() =~= before.push(added));
    }
    assert(asked.take(questions.len() as int) =~= asked);
    answers
}

/// The routes and the rules for names of a configuration, given the name servers of the
/// ordinary network and the answers of all name servers.
pub open spec fn physical_from_answers(
    profiles: Seq<VpnProfile>,
    adapters: Seq<AdapterView>,
    gateway: Option<GatewayView>,
    physical: Seq<u32>,
    answers: Seq<AnswerView>,
) -> Result<PreparedView, Seq<Seq<char>>> {
    match verdict(targets_of(profiles), answers) {
        Err(errors) => Err(messages(errors)),
        Ok(validated) => match all_profile_routes(profiles, validated, adapters, gateway) {
            Err(reasons) => Err(reasons),
            Ok(prepared) => with_names(prepared, profiles, adapters, validated, physical),
        },
    }
}

/// Prepares the routes and the rules for names of a configuration, given the answers of
/// the name servers.
pub fn prepare_routes_from_answers(
    config: &SplitterConfig,
    adapters: &[NetworkAdapter],
    internet_gateway: Option<&InternetGateway>,
    physical_dns: &Vec<u32>,
    answers: &Vec<DnsAnswer>,
) -> (result: Result<PreparedRoutes, Vec<String>>)
    ensures
        prepared_result(result) == physical_from_answers(
            config.profiles@,
            adapters.deep_view(),
            gateway_view(internet_gateway),
            physical_dns@,
            answers.deep_view(),
        ),
{
    let targets: Vec<ProfileTargets> = read_config(config);
    let validated: Vec<ValidatedProfile> = match validate_targets(&targets, answers) {
        Ok(validated) => validated,
        Err(errors) => {
            return Err(error_messages(errors));
        },
    };
    proof {
        lemma_validated_profiles_exist(config.profiles@, answers.deep_view());
        let views = validated.deep_view();
        assert forall|i: int| 0 <= i < validated.len() implies profile_of(
            config.profiles@,
            (#[trigger] validated@[i]).vpn,
        ) is Some by {
            assert(views[i].vpn == validated@[i].vpn);
        }
    }
    match prepare_all_profiles(config, &validated, adapters, internet_gateway) {
        Ok(prepared) => append_dns_policy(prepared, &validated, config, adapters, physical_dns),
        Err(reasons) => Err(reasons),
    }
}

/// The name servers of the ordinary network, once it is clear that at most one enabled
/// VPN takes all traffic and that every enabled profile has a connected interface.
pub open spec fn ready_servers(
    profiles: Seq<VpnProfile>,
    adapters: Seq<AdapterView>,
    gateway: Option<GatewayView>,
) -> Result<Seq<u32>, Seq<Seq<char>>> {
    match one_full_tunnel(profiles, adapters) {
        Err(reasons) => Err(reasons),
        Ok(_) => match all_selected(profiles, profiles, adapters) {
            Err(reasons) => Err(reasons),
            Ok(_) => physical_servers(adapters, gateway),
        },
    }
}

/// The routes and the rules for names of a whole configuration, given the answers of
/// the name servers. Nothing is asked for where no profile is enabled.
pub open spec fn physical_prepared(
    profiles: Seq<VpnProfile>,
    adapters: Seq<AdapterView>,
    gateway: Option<GatewayView>,
    answers: Seq<AnswerView>,
) -> Result<PreparedView, Seq<Seq<char>>> {
    if !any_enabled(profiles) {
        Ok(PreparedView::none())
    } else {
        match ready_servers(profiles, adapters, gateway) {
            Err(reasons) => Err(reasons),
            Ok(physical) => physical_from_answers(profiles, adapters, gateway, physical, answers),
        }
    }
}

/// The answers are those that preparing the configuration asks for.
pub open spec fn physical_asked<F: FnMut(VpnKind, &str, &[String]) -> Result<Vec<u32>, String>>(
    resolver: F,
    profiles: Seq<VpnProfile>,
    adapters: Seq<AdapterView>,
    gateway: Option<GatewayView>,
    answers: Seq<AnswerView>,
) -> bool {
    any_enabled(profiles) && ready_servers(profiles, adapters, gateway) is Ok ==> asked_answers(
        resolver,
        profiles,
        adapters,
        ready_servers(profiles, adapters, gateway)->Ok_0,
        questions_of(targets_of(profiles)),
        answers,
    )
}

/// The questions can be asked that preparing the configuration asks.
pub open spec fn physical_takes<F: FnMut(VpnKind, &str, &[String]) -> Result<Vec<u32>, String>>(
    resolver: F,
    profiles: Seq<VpnProfile>,
    adapters: Seq<AdapterView>,
    gateway: Option<GatewayView>,
) -> bool {
    any_enabled(profiles) && ready_servers(profiles, adapters, gateway) is Ok ==> takes_all_asked(
        resolver,
        profiles,
        adapters,
        ready_servers(profiles, adapters, gateway)->Ok_0,
        questions_of(targets_of(profiles)),
    )
}

/// Where no profile is enabled, none takes all traffic.
proof fn lemma_no_full_tunnel(profiles: Seq<VpnProfile>, adapters: Seq<AdapterView>)
    requires
        !any_enabled(profiles),
    ensures
        full_tunnel_vpns(profiles, adapters) == Seq::<VpnKind>::empty(),
    decreases profiles.len(),
{
    if profiles.len() > 0 {
        let before = profiles.drop_last();
        assert forall|i: int| 0 <= i < before.len() implies !(#[trigger] before[i]).enabled by {
            assert(before[i] == profiles[i]);
        }
        lemma_no_full_tunnel(before, adapters);
        assert(!profiles[profiles.len() - 1].enabled);
    }
}

/// Prepares the routes and the rules for names of a whole configuration. The resolver
/// is asked about the domains of the enabled profiles and about nothing else, and only
/// where the name servers of the ordinary network are known.
pub fn prepare_all_enabled_routes_with_resolver<
    F: FnMut(VpnKind, &str, &[String]) -> Result<Vec<u32>, String>,
>(
    config: &SplitterConfig,
    adapters: &[NetworkAdapter],
    internet_gateway: Option<&InternetGateway>,
    resolve_hostname: F,
) -> (result: Result<PreparedRoutes, Vec<String>>)
    requires
        physical_takes(
            resolve_hostname,
            config.profiles@,
            adapters.deep_view(),
            gateway_view(internet_gateway),
        ),
    ensures
        exists|answers: Seq<AnswerView>|
            #[trigger] physical_asked(
                resolve_hostname,
                config.profiles@,
                adapters.deep_view(),
                gateway_view(internet_gateway),
                answers,
            ) && prepared_result(result) == physical_prepared(
                config.profiles@,
                adapters.deep_view(),
                gateway_view(internet_gateway),
                answers,
            ),
{
    let ghost resolver = resolve_hostname;
    let ghost profiles = config.profiles@;
    let ghost gateway = gateway_view(internet_gateway);
    if let Err(reasons) = validate_full_tunnel_count_for(config, adapters) {
        proof {
            if !any_enabled(profiles) {
                lemma_no_full_tunnel(profiles, adapters.deep_view());
            }
        }
        assert(physical_asked(resolver, profiles, adapters.deep_view(), gateway, Seq::empty()));
        return Err(reasons);
    }
    if !needs_periodic_route_refresh(config) {
        assert(physical_asked(resolver, profiles, adapters.deep_view(), gateway, Seq::empty()));
        return Ok(PreparedRoutes::default());
    }
    if let Err(reasons) = check_all_selected(config, adapters) {
        assert(physical_asked(resolver, profiles, adapters.deep_view(), gateway, Seq::empty()));
        return Err(reasons);
    }
    let physical_dns: Vec<u32> = match physical_dns_servers(adapters, internet_gateway) {
        Ok(servers) => servers,
        Err(reasons) => {
            assert(physical_asked(
                resolver,
                profiles,
                adapters.deep_view(),
                gateway,
                Seq::empty(),
            ));
            return Err(reasons);
        },
    };
    let answers: Vec<DnsAnswer> = resolve_through_interfaces(
        config,
        adapters,
        &physical_dns,
        resolve_hostname,
    );
    assert(physical_asked(
        resolver,
        profiles,
        adapters.deep_view(),
        gateway,
        answers.deep_view(),
    ));
    prepare_routes_from_answers(config, adapters, internet_gateway, &physical_dns, &answers)
}

/// The routes of one VPN among the prepared ones.
pub open spec fn only_vpn(
    prepared: Result<PreparedView, Seq<Seq<char>>>,
    vpn: VpnKind,
) -> Result<PreparedView, Seq<Seq<char>>> {
    match prepared {
        Ok(all) => Ok(PreparedView { routes: all.routes.filter(of_vpn(vpn)), ..all }),
        Err(reasons) => Err(reasons),
    }
}

/// Prepares the routes of one VPN. The rules for names and the warnings are those of
/// the whole configuration.
pub fn prepare_profile_routes_for<
    F: FnMut(VpnKind, &str, &[String]) -> Result<Vec<u32>, String>,
>(
    config: &SplitterConfig,
    vpn: VpnKind,
    adapters: &[NetworkAdapter],
    internet_gateway: Option<&InternetGateway>,
    resolve_hostname: F,
) -> (result: Result<PreparedRoutes, Vec<String>>)
    requires
        physical_takes(
            resolve_hostname,
            config.profiles@,
            adapters.deep_view(),
            gateway_view(internet_gateway),
        ),
    ensures
        exists|answers: Seq<AnswerView>|
            #[trigger] physical_asked(
                resolve_hostname,
                config.profiles@,
                adapters.deep_view(),
                gateway_view(internet_gateway),
                answers,
            ) && prepared_result(result) == only_vpn(
                physical_prepared(
                    config.profiles@,
                    adapters.deep_view(),
                    gateway_view(internet_gateway),
                    answers,
                ),
                vpn,
            ),
{
    match prepare_all_enabled_routes_with_resolver(
        config,
        adapters,
        internet_gateway,
        resolve_hostname,
    ) {
        Ok(all) => {
            let mut prepared: PreparedRoutes = all;
            prepared.routes = routes_of_vpn(routes_slice(&prepared.routes), vpn);
            Ok(prepared)
        },
        Err(reasons) => Err(reasons),
    }
}

}
