//! What Windows reports about network interfaces and routes, what is asked of it, and
//! what its replies mean.

use vstd::prelude::*;

use crate::domain::VpnKind;
use crate::ipv4::{
    address_text, address_to_text, parse_address, parsed_address, parsed_network, Ipv4Net,
};
use crate::text::{
    append_decimal, chars_of, contains_chars, decimal, equal_ignoring_ascii_case, has_text,
    is_text_less, lower_char, same_text, text_less, to_lower, trim_text, trimmed,
};
use crate::windows_laws::{
    law_every_answered_address_is_kept, law_row_leads_where_its_route_leads,
};

verus! {

/// Which of several routes wins: the longer prefix, then the lower metric.
#[derive(Debug, Clone, Copy, PartialEq, Eq, Structural)]
pub struct RoutePriority {
    pub prefix_length: u8,
    pub effective_metric: u32,
}

/// A network interface that may belong to a VPN.
#[derive(Debug, PartialEq, Eq)]
pub struct NetworkAdapter {
    pub index: u32,
    pub name: String,
    pub description: String,
    pub status: String,
    pub next_hop: String,
    pub full_tunnel_priority: Option<RoutePriority>,
    pub dns_servers: Vec<String>,
}

/// What a `NetworkAdapter` stands for.
#[verifier::ext_equal]
pub ghost struct AdapterView {
    pub index: u32,
    pub name: Seq<char>,
    pub description: Seq<char>,
    pub status: Seq<char>,
    pub next_hop: Seq<char>,
    pub full_tunnel_priority: Option<RoutePriority>,
    pub dns_servers: Seq<Seq<char>>,
}

impl DeepView for NetworkAdapter {
    type V = AdapterView;

    open spec fn deep_view(&self) -> AdapterView {
        AdapterView {
            index: self.index,
            name: self.name@,
            description: self.description@,
            status: self.status@,
            next_hop: self.next_hop@,
            full_tunnel_priority: self.full_tunnel_priority,
            dns_servers: self.dns_servers.deep_view(),
        }
    }
}

impl Clone for NetworkAdapter {
    fn clone(&self) -> (copy: Self)
        ensures
            copy.deep_view() == self.deep_view(),
    {
        let copy: NetworkAdapter = NetworkAdapter {
            index: self.index,
            name: self.name.clone(),
            description: self.description.clone(),
            status: self.status.clone(),
            next_hop: self.next_hop.clone(),
            full_tunnel_priority: self.full_tunnel_priority,
            dns_servers: self.dns_servers.clone(),
        };
        assert(copy.dns_servers.deep_view() =~= self.dns_servers.deep_view());
        copy
    }
}

impl AdapterView {
    /// The name and the description, in lower case.
    pub open spec fn label(self) -> Seq<char> {
        to_lower(self.name + " "@ + self.description)
    }

    /// The interface belongs to the VPN, as its name and its description tell.
    pub open spec fn matches(self, vpn: VpnKind) -> bool {
        match vpn {
            VpnKind::FortiClient => has_text(self.label(), "forti"@),
            VpnKind::F5 => has_text(self.label(), "f5"@) || has_text(self.label(), "big-ip"@),
            VpnKind::Ivanti => has_text(self.label(), "ivanti"@) || has_text(
                self.label(),
                "juniper"@,
            ) || has_text(self.label(), "pulse secure"@),
        }
    }

    /// The interface is connected.
    pub open spec fn is_up(self) -> bool {
        to_lower(self.status) == to_lower("up"@)
    }

    /// The interface as users read it.
    pub open spec fn display_label(self) -> Seq<char> {
        self.description + " · ifIndex "@ + decimal(self.index as nat) + " · "@ + self.status
    }
}

impl NetworkAdapter {
    /// The characters of the name and the description, in lower case.
    fn label_chars(&self) -> (label: Vec<char>)
        ensures
            label@ == self.deep_view().label(),
    {
        let mut text: String = self.name.clone();
        text.append(" ");
        text.append(self.description.as_str());
        let chars: Vec<char> = chars_of(text.as_str());
        let mut label: Vec<char> = Vec::new();
        for i in 0..chars.len()
            invariant
                label@ == to_lower(chars@).take(i as int),
        {
            label.push(lower_char(chars[i]));
            assert(label@ =~= to_lower(chars@).take(i + 1));
        }
        assert(label@ =~= to_lower(chars@));
        label
    }

    /// Whether the interface belongs to the VPN, as its name and its description tell.
    pub fn matches(&self, vpn: VpnKind) -> (matching: bool)
        ensures
            matching == self.deep_view().matches(vpn),
    {
        let label: Vec<char> = self.label_chars();
        match vpn {
            VpnKind::FortiClient => contains_chars(&label, &chars_of("forti")),
            VpnKind::F5 => contains_chars(&label, &chars_of("f5")) || contains_chars(
                &label,
                &chars_of("big-ip"),
            ),
            VpnKind::Ivanti => contains_chars(&label, &chars_of("ivanti")) || contains_chars(
                &label,
                &chars_of("juniper"),
            ) || contains_chars(&label, &chars_of("pulse secure")),
        }
    }

    /// Whether the interface is connected.
    pub fn is_up(&self) -> (up: bool)
        ensures
            up == self.deep_view().is_up(),
    {
        equal_ignoring_ascii_case(self.status.as_str(), "up")
    }

    /// The interface as users read it.
    pub fn display_label(&self) -> (label: String)
        ensures
            label@ == self.deep_view().display_label(),
    {
        let mut label: String = self.description.clone();
        label.append(" · ifIndex ");
        append_decimal(&mut label, self.index as u64);
        label.append(" · ");
        label.append(self.status.as_str());
        label
    }
}

/// The way to the ordinary network.
#[derive(Debug, PartialEq, Eq)]
pub struct InternetGateway {
    pub interface_index: u32,
    pub interface_alias: String,
    pub interface_description: String,
    pub next_hop: String,
    pub inferred_from_escape_route: bool,
    pub route_priority: Option<RoutePriority>,
    pub dns_servers: Vec<String>,
    pub fallback_dns_servers: Vec<String>,
}

/// What an `InternetGateway` stands for.
#[verifier::ext_equal]
pub ghost struct GatewayView {
    pub interface_index: u32,
    pub interface_alias: Seq<char>,
    pub interface_description: Seq<char>,
    pub next_hop: Seq<char>,
    pub inferred_from_escape_route: bool,
    pub route_priority: Option<RoutePriority>,
    pub dns_servers: Seq<Seq<char>>,
    pub fallback_dns_servers: Seq<Seq<char>>,
}

impl DeepView for InternetGateway {
    type V = GatewayView;

    open spec fn deep_view(&self) -> GatewayView {
        GatewayView {
            interface_index: self.interface_index,
            interface_alias: self.interface_alias@,
            interface_description: self.interface_description@,
            next_hop: self.next_hop@,
            inferred_from_escape_route: self.inferred_from_escape_route,
            route_priority: self.route_priority,
            dns_servers: self.dns_servers.deep_view(),
            fallback_dns_servers: self.fallback_dns_servers.deep_view(),
        }
    }
}

impl Clone for InternetGateway {
    fn clone(&self) -> (copy: Self)
        ensures
            copy.deep_view() == self.deep_view(),
    {
        let copy: InternetGateway = InternetGateway {
            interface_index: self.interface_index,
            interface_alias: self.interface_alias.clone(),
            interface_description: self.interface_description.clone(),
            next_hop: self.next_hop.clone(),
            inferred_from_escape_route: self.inferred_from_escape_route,
            route_priority: self.route_priority,
            dns_servers: self.dns_servers.clone(),
            fallback_dns_servers: self.fallback_dns_servers.clone(),
        };
        assert(copy.dns_servers.deep_view() =~= self.dns_servers.deep_view());
        assert(copy.fallback_dns_servers.deep_view() =~= self.fallback_dns_servers.deep_view());
        copy
    }
}

/// What a route is for.
#[derive(Debug, Clone, Copy, PartialEq, Eq, Structural)]
pub enum ManagedRoutePurpose {
    Target,
    InternetBypass,
    VpnDnsServer,
}

impl Default for ManagedRoutePurpose {
    fn default() -> (purpose: Self)
        ensures
            purpose == ManagedRoutePurpose::Target,
    {
        ManagedRoutePurpose::Target
    }
}

/// A route that this program manages.
#[derive(Debug, PartialEq, Eq)]
pub struct ManagedRoute {
    pub vpn: VpnKind,
    pub purpose: ManagedRoutePurpose,
    pub prefix: String,
    pub interface_index: u32,
    pub next_hop: String,
    pub route_metric: u16,
}

/// What a `ManagedRoute` stands for.
#[verifier::ext_equal]
pub ghost struct RouteView {
    pub vpn: VpnKind,
    pub purpose: ManagedRoutePurpose,
    pub prefix: Seq<char>,
    pub interface_index: u32,
    pub next_hop: Seq<char>,
    pub route_metric: u16,
}

impl DeepView for ManagedRoute {
    type V = RouteView;

    open spec fn deep_view(&self) -> RouteView {
        RouteView {
            vpn: self.vpn,
            purpose: self.purpose,
            prefix: self.prefix@,
            interface_index: self.interface_index,
            next_hop: self.next_hop@,
            route_metric: self.route_metric,
        }
    }
}

impl Clone for ManagedRoute {
    fn clone(&self) -> (copy: Self)
        ensures
            copy == *self,
    {
        ManagedRoute {
            vpn: self.vpn,
            purpose: self.purpose,
            prefix: self.prefix.clone(),
            interface_index: self.interface_index,
            next_hop: self.next_hop.clone(),
            route_metric: self.route_metric,
        }
    }
}

impl ManagedRoute {
    /// Whether the two routes agree in every field.
    pub fn same_as(&self, other: &ManagedRoute) -> (same: bool)
        ensures
            same == (self.deep_view() == other.deep_view()),
    {
        self.vpn == other.vpn && self.purpose == other.purpose && same_text(
            self.prefix.as_str(),
            other.prefix.as_str(),
        ) && self.interface_index == other.interface_index && same_text(
            self.next_hop.as_str(),
            other.next_hop.as_str(),
        ) && self.route_metric == other.route_metric
    }
}

/// The name servers for some names.
#[derive(Debug, PartialEq, Eq)]
pub struct ManagedDnsRule {
    pub vpn: Option<VpnKind>,
    pub namespaces: Vec<String>,
    pub name_servers: Vec<String>,
}

/// What a `ManagedDnsRule` stands for.
#[verifier::ext_equal]
pub ghost struct DnsRuleView {
    pub vpn: Option<VpnKind>,
    pub namespaces: Seq<Seq<char>>,
    pub name_servers: Seq<Seq<char>>,
}

impl DeepView for ManagedDnsRule {
    type V = DnsRuleView;

    open spec fn deep_view(&self) -> DnsRuleView {
        DnsRuleView {
            vpn: self.vpn,
            namespaces: self.namespaces.deep_view(),
            name_servers: self.name_servers.deep_view(),
        }
    }
}

impl Clone for ManagedDnsRule {
    fn clone(&self) -> (copy: Self)
        ensures
            copy.deep_view() == self.deep_view(),
    {
        let copy: ManagedDnsRule = ManagedDnsRule {
            vpn: self.vpn,
            namespaces: self.namespaces.clone(),
            name_servers: self.name_servers.clone(),
        };
        assert(copy.namespaces.deep_view() =~= self.namespaces.deep_view());
        assert(copy.name_servers.deep_view() =~= self.name_servers.deep_view());
        copy
    }
}

/// Whether replacing the rules changed anything.
#[derive(Debug, Clone, Copy, PartialEq, Eq, Structural)]
pub struct DnsApplyResult {
    pub changed: bool,
}

/// A route of the system's own.
#[derive(Debug, PartialEq, Eq)]
pub struct NativeRoute {
    pub prefix: Ipv4Net,
    pub interface_index: u32,
    pub next_hop: String,
    pub route_metric: u32,
    pub interface_metric: u32,
}

/// What a `NativeRoute` stands for.
#[verifier::ext_equal]
pub ghost struct NativeRouteView {
    pub prefix: Ipv4Net,
    pub interface_index: u32,
    pub next_hop: Seq<char>,
    pub route_metric: u32,
    pub interface_metric: u32,
}

impl NativeRouteView {
    /// The metric by which Windows ranks the route: that of the route and that of the
    /// interface together.
    pub open spec fn effective_metric(self) -> int {
        if self.route_metric + self.interface_metric <= u32::MAX {
            self.route_metric + self.interface_metric
        } else {
            u32::MAX as int
        }
    }
}

impl DeepView for NativeRoute {
    type V = NativeRouteView;

    open spec fn deep_view(&self) -> NativeRouteView {
        NativeRouteView {
            prefix: self.prefix,
            interface_index: self.interface_index,
            next_hop: self.next_hop@,
            route_metric: self.route_metric,
            interface_metric: self.interface_metric,
        }
    }
}

impl NativeRoute {
    /// The metric by which Windows ranks the route.
    pub fn effective_metric(&self) -> (metric: u32)
        ensures
            metric == self.deep_view().effective_metric(),
    {
        self.route_metric.saturating_add(self.interface_metric)
    }
}

/// A number that changes when the routing table does.
#[derive(Debug, Clone, Copy, PartialEq, Eq, Structural)]
pub struct RouteTableFingerprint(pub u64);

/// A row of the system's IPv4 routing table. An address of another family is none.
#[derive(Debug, Clone, Copy, PartialEq, Eq, Structural)]
pub struct RouteRow {
    pub destination: Option<u32>,
    pub prefix_length: u8,
    pub interface_index: u32,
    pub next_hop: Option<u32>,
    pub metric: u32,
}

/// The row is the route: the same destination, interface, next hop and metric.
pub open spec fn row_is_route(row: RouteRow, route: RouteView) -> bool {
    match (row.destination, row.next_hop) {
        (Some(destination), Some(next_hop)) => {
            &&& row.interface_index == route.interface_index
            &&& row.metric == route.route_metric
            &&& address_text(destination) + "/"@ + decimal(row.prefix_length as nat) == route.prefix
            &&& address_text(next_hop) == route.next_hop
        },
        _ => false,
    }
}

/// Some row is the route.
pub open spec fn in_table(rows: Seq<RouteRow>, route: RouteView) -> bool {
    exists|i: int| 0 <= i < rows.len() && row_is_route(#[trigger] rows[i], route)
}

/// The routes that the table has, in their order.
pub open spec fn routes_in_table(routes: Seq<RouteView>, rows: Seq<RouteRow>) -> Seq<RouteView> {
    routes.filter(|route: RouteView| in_table(rows, route))
}

/// Whether the row is the route.
pub fn route_row_matches(row: &RouteRow, route: &ManagedRoute) -> (matching: bool)
    ensures
        matching == row_is_route(*row, route.deep_view()),
        matching ==> row.next_hop is Some && parsed_address(route.next_hop@) == row.next_hop,
        matching ==> row.interface_index == route.interface_index && row.metric
            == route.route_metric,
        matching && row.prefix_length <= 32 ==> parsed_network(route.prefix@) == Some(
            (Ipv4Net { addr: row.destination->0, prefix_len: row.prefix_length }),
        ),
{
    proof {
        if row_is_route(*row, route.deep_view()) {
            law_row_leads_where_its_route_leads(*row, route.deep_view());
        }
    }
    match (row.destination, row.next_hop) {
        (Some(destination), Some(next_hop)) => {
            if row.interface_index != route.interface_index || row.metric
                != route.route_metric as u32 {
                return false;
            }
            let mut prefix: String = address_to_text(destination);
            prefix.append("/");
            append_decimal(&mut prefix, row.prefix_length as u64);
            let hop: String = address_to_text(next_hop);
            same_text(prefix.as_str(), route.prefix.as_str()) && same_text(
                hop.as_str(),
                route.next_hop.as_str(),
            )
        },
        _ => false,
    }
}

/// The routes that the table has, in their order.
pub fn existing_managed_routes(routes: &[ManagedRoute], rows: &[RouteRow]) -> (existing: Vec<
    ManagedRoute,
>)
    ensures
        existing.deep_view() == routes_in_table(routes.deep_view(), rows@),
{
    let ghost views = routes.deep_view();
    let mut existing: Vec<ManagedRoute> = Vec::new();
    assert(existing.deep_view() =~= routes_in_table(views.take(0), rows@)) by {
        reveal(Seq::filter);
    }
    for i in 0..routes.len()
        invariant
            views == routes.deep_view(),
            existing.deep_view() == routes_in_table(views.take(i as int), rows@),
    {
        let ghost before = existing.deep_view();
        let mut found: bool = false;
        for k in 0..rows.len()
            invariant
                i < routes.len(),
                found == in_table(rows@.take(k as int), routes@[i as int].deep_view()),
        {
            let ghost route = routes@[i as int].deep_view();
            let matching: bool = route_row_matches(&rows[k], &routes[i]);
            proof {
                let now = rows@.take(k + 1);
                if matching {
                    assert(row_is_route(now[k as int], route));
                }
                if found {
                    let j = choose|j: int|
                        0 <= j < k && row_is_route(#[trigger] rows@.take(k as int)[j], route);
                    assert(row_is_route(now[j], route));
                }
                if in_table(now, route) && !matching {
                    let j = choose|j: int| 0 <= j < now.len() && row_is_route(#[trigger] now[j], route);
                    assert(row_is_route(rows@.take(k as int)[j], route));
                }
            }
            found = found || matching;
        }
        assert(rows@.take(rows.len() as int) =~= rows@);
        assert(views.take(i + 1).drop_last() =~= views.take(i as int));
        assert(routes_in_table(views.take(i + 1), rows@) == if found {
            before.push(views[i as int])
        } else {
            before
        }) by {
            reveal(Seq::filter);
        }
        if found {
            existing.push(routes[i].clone());
            assert(existing.deep_view() =~= before.push(views[i as int]));
        }
    }
    assert(views.take(routes.len() as int) =~= views);
    existing
}

/// The order of interfaces: the connected ones first, then by their descriptions.
pub open spec fn adapter_before(left: AdapterView, right: AdapterView) -> bool {
    if left.is_up() != right.is_up() {
        left.is_up()
    } else {
        text_less(left.description, right.description)
    }
}

/// The list with the interface put before the first one that comes after it.
pub open spec fn insert_adapter(list: Seq<AdapterView>, adapter: AdapterView) -> Seq<AdapterView>
    decreases list.len(),
{
    if list.len() == 0 {
        seq![adapter]
    } else if adapter_before(adapter, list[0]) {
        seq![adapter] + list
    } else {
        seq![list[0]] + insert_adapter(list.skip(1), adapter)
    }
}

/// The interfaces in their order; those of the same rank stay in the order in which
/// they came.
pub open spec fn ordered_adapters(adapters: Seq<AdapterView>) -> Seq<AdapterView>
    decreases adapters.len(),
{
    if adapters.len() == 0 {
        Seq::empty()
    } else {
        insert_adapter(ordered_adapters(adapters.drop_last()), adapters.last())
    }
}

/// Whether the one interface comes before the other.
fn is_adapter_before(left: &NetworkAdapter, right: &NetworkAdapter) -> (before: bool)
    ensures
        before == adapter_before(left.deep_view(), right.deep_view()),
{
    let left_up: bool = left.is_up();
    let right_up: bool = right.is_up();
    if left_up != right_up {
        left_up
    } else {
        is_text_less(left.description.as_str(), right.description.as_str())
    }
}

/// Puts an interface into an ordered list.
fn insert_into_adapters(list: &mut Vec<NetworkAdapter>, adapter: NetworkAdapter)
    ensures
        final(list).deep_view() == insert_adapter(old(list).deep_view(), adapter.deep_view()),
{
    let ghost before = list.deep_view();
    let ghost added = adapter.deep_view();
    let mut at: usize = 0;
    assert(before.skip(0) =~= before);
    assert(before.take(0) + insert_adapter(before.skip(0), added) =~= insert_adapter(
        before,
        added,
    ));
    while at < list.len() && !is_adapter_before(&adapter, &list[at])
        invariant
            *list == *old(list),
            before == list.deep_view(),
            added == adapter.deep_view(),
            at <= list.len(),
            insert_adapter(before, added) == before.take(at as int) + insert_adapter(
                before.skip(at as int),
                added,
            ),
        decreases list.len() - at,
    {
        assert(before.skip(at as int).skip(1) =~= before.skip(at + 1));
        assert(before.take(at as int) + insert_adapter(before.skip(at as int), added)
            =~= before.take(at + 1) + insert_adapter(before.skip(at + 1), added));
        at = at + 1;
    }
    list.insert(at, adapter);
    assert(list.deep_view() =~= insert_adapter(before, added));
}

/// The interfaces in their order.
pub fn sort_adapters(adapters: Vec<NetworkAdapter>) -> (sorted: Vec<NetworkAdapter>)
    ensures
        sorted.deep_view() == ordered_adapters(adapters.deep_view()),
{
    let ghost views = adapters.deep_view();
    let mut sorted: Vec<NetworkAdapter> = Vec::new();
    assert(sorted.deep_view() =~= ordered_adapters(views.take(0)));
    for i in 0..adapters.len()
        invariant
            views == adapters.deep_view(),
            sorted.deep_view() == ordered_adapters(views.take(i as int)),
    {
        assert(views.take(i + 1).drop_last() =~= views.take(i as int));
        insert_into_adapters(&mut sorted, adapters[i].clone());
    }
    assert(views.take(adapters.len() as int) =~= views);
    sorted
}

/// What a script printed, and whether it ended well.
#[derive(Debug, PartialEq, Eq)]
pub struct ScriptOutput {
    pub success: bool,
    pub stdout: String,
    pub stderr: String,
}

/// What a `ScriptOutput` stands for.
#[verifier::ext_equal]
pub ghost struct OutputView {
    pub success: bool,
    pub stdout: Seq<char>,
    pub stderr: Seq<char>,
}

impl DeepView for ScriptOutput {
    type V = OutputView;

    open spec fn deep_view(&self) -> OutputView {
        OutputView { success: self.success, stdout: self.stdout@, stderr: self.stderr@ }
    }
}

/// Why a script failed: what it printed as an error, else what it printed at all.
pub open spec fn failure_of(output: OutputView) -> Seq<char> {
    if trimmed(output.stderr).len() > 0 {
        "Windows PowerShell 執行失敗："@ + trimmed(output.stderr)
    } else if trimmed(output.stdout).len() > 0 {
        "Windows PowerShell 執行失敗："@ + trimmed(output.stdout)
    } else {
        "Windows PowerShell 執行失敗，沒有回傳詳細訊息。"@
    }
}

/// Why a script failed.
pub fn powershell_failure(output: &ScriptOutput) -> (reason: String)
    ensures
        reason@ == failure_of(output.deep_view()),
{
    let stderr: String = trim_text(output.stderr.as_str());
    let stdout: String = trim_text(output.stdout.as_str());
    if stderr.as_str().unicode_len() > 0 {
        let mut reason: String = "Windows PowerShell 執行失敗：".to_owned();
        reason.append(stderr.as_str());
        reason
    } else if stdout.as_str().unicode_len() > 0 {
        let mut reason: String = "Windows PowerShell 執行失敗：".to_owned();
        reason.append(stdout.as_str());
        reason
    } else {
        "Windows PowerShell 執行失敗，沒有回傳詳細訊息。".to_owned()
    }
}

/// What the discovery of interfaces found, given what the script printed as data or
/// why that is no data: the interfaces in their order.
pub open spec fn discovered_adapters(
    output: OutputView,
    parsed: Result<Seq<AdapterView>, Seq<char>>,
) -> Result<Seq<AdapterView>, Seq<char>> {
    if !output.success {
        Err(failure_of(output))
    } else {
        match parsed {
            Ok(adapters) => Ok(ordered_adapters(adapters)),
            Err(reason) => Err("無法解析 Windows 網路介面資料："@ + reason),
        }
    }
}

/// What a list of interfaces, or the reason why there is none, stands for.
pub open spec fn adapters_result(result: Result<Vec<NetworkAdapter>, String>) -> Result<
    Seq<AdapterView>,
    Seq<char>,
> {
    match result {
        Ok(adapters) => Ok(adapters.deep_view()),
        Err(reason) => Err(reason@),
    }
}

/// What the discovery of interfaces found.
pub fn discover_vpn_adapters(
    output: &ScriptOutput,
    parsed: Result<Vec<NetworkAdapter>, String>,
) -> (result: Result<Vec<NetworkAdapter>, String>)
    ensures
        adapters_result(result) == discovered_adapters(
            output.deep_view(),
            adapters_result(parsed),
        ),
{
    if !output.success {
        return Err(powershell_failure(output));
    }
    match parsed {
        Ok(adapters) => Ok(sort_adapters(adapters)),
        Err(reason) => {
            let mut message: String = "無法解析 Windows 網路介面資料：".to_owned();
            message.append(reason.as_str());
            Err(message)
        },
    }
}

/// What the discovery of the ordinary network found.
pub open spec fn discovered_gateway(
    output: OutputView,
    parsed: Result<Option<GatewayView>, Seq<char>>,
) -> Result<Option<GatewayView>, Seq<char>> {
    if !output.success {
        Err(failure_of(output))
    } else {
        match parsed {
            Ok(gateway) => Ok(gateway),
            Err(reason) => Err("無法解析一般網路閘道資料："@ + reason),
        }
    }
}

/// What a gateway, or the reason why there is none, stands for.
pub open spec fn gateway_result(result: Result<Option<InternetGateway>, String>) -> Result<
    Option<GatewayView>,
    Seq<char>,
> {
    match result {
        Ok(gateway) => Ok(gateway.deep_view()),
        Err(reason) => Err(reason@),
    }
}

/// What the discovery of the ordinary network found.
pub fn discover_internet_gateway(
    output: &ScriptOutput,
    parsed: Result<Option<InternetGateway>, String>,
) -> (result: Result<Option<InternetGateway>, String>)
    ensures
        gateway_result(result) == discovered_gateway(output.deep_view(), gateway_result(parsed)),
{
    if !output.success {
        return Err(powershell_failure(output));
    }
    match parsed {
        Ok(gateway) => Ok(gateway),
        Err(reason) => {
            let mut message: String = "無法解析一般網路閘道資料：".to_owned();
            message.append(reason.as_str());
            Err(message)
        },
    }
}

/// What the script that replaces routes replied.
#[derive(Debug, PartialEq, Eq)]
pub struct ApplyResponse {
    pub ok: bool,
    pub message: String,
}

/// What a text, or the reason why there is none, stands for.
pub open spec fn text_result(result: Result<String, String>) -> Result<Seq<char>, Seq<char>> {
    match result {
        Ok(text) => Ok(text@),
        Err(reason) => Err(reason@),
    }
}

/// How replacing routes ended: well where the script ended well and its reply says so.
pub open spec fn routes_applied(output: OutputView, response: Option<ApplyResponse>) -> Result<
    Seq<char>,
    Seq<char>,
> {
    match response {
        Some(reply) => if reply.ok && output.success {
            Ok(reply.message@)
        } else {
            Err(reply.message@)
        },
        None => Err(failure_of(output)),
    }
}

/// How replacing routes ended, given the reply of the script, if it could be read: the
/// script has to say so and to have ended well.
pub fn apply_routes(output: &ScriptOutput, response: Option<ApplyResponse>) -> (result: Result<
    String,
    String,
>)
    ensures
        text_result(result) == routes_applied(output.deep_view(), response),
        text_result(result) == match response {
            Some(reply) => if reply.ok && output.success {
                Ok(reply.message@)
            } else {
                Err(reply.message@)
            },
            None => Err(failure_of(output.deep_view())),
        },
{
    match response {
        Some(reply) => {
            if reply.ok && output.success {
                Ok(reply.message)
            } else {
                Err(reply.message)
            }
        },
        None => Err(powershell_failure(output)),
    }
}

/// What the script that replaces the rules for names replied.
#[derive(Debug, PartialEq, Eq)]
pub struct DnsApplyResponse {
    pub ok: bool,
    pub changed: bool,
    pub message: String,
}

/// What the outcome of replacing the rules for names stands for.
pub open spec fn dns_apply_result(result: Result<DnsApplyResult, String>) -> Result<
    DnsApplyResult,
    Seq<char>,
> {
    match result {
        Ok(applied) => Ok(applied),
        Err(reason) => Err(reason@),
    }
}

/// How replacing the rules for names ended: well where the script ended well and its reply
/// says so.
pub open spec fn rules_applied(output: OutputView, response: Option<DnsApplyResponse>) -> Result<
    DnsApplyResult,
    Seq<char>,
> {
    match response {
        Some(reply) => if reply.ok && output.success {
            Ok(DnsApplyResult { changed: reply.changed })
        } else {
            Err(reply.message@)
        },
        None => Err(failure_of(output)),
    }
}

/// How replacing the rules for names ended, given the reply of the script, if it could
/// be read: the script has to say so and to have ended well.
pub fn apply_dns_policy(output: &ScriptOutput, response: Option<DnsApplyResponse>) -> (result:
    Result<DnsApplyResult, String>)
    ensures
        dns_apply_result(result) == rules_applied(output.deep_view(), response),
        dns_apply_result(result) == match response {
            Some(reply) => if reply.ok && output.success {
                Ok(DnsApplyResult { changed: reply.changed })
            } else {
                Err(reply.message@)
            },
            None => Err(failure_of(output.deep_view())),
        },
{
    match response {
        Some(reply) => {
            if reply.ok && output.success {
                Ok(DnsApplyResult { changed: reply.changed })
            } else {
                Err(reply.message)
            }
        },
        None => Err(powershell_failure(output)),
    }
}

/// What the script that asks name servers replied.
#[derive(Debug, PartialEq, Eq)]
pub struct DnsResolutionResponse {
    pub ok: bool,
    pub addresses: Vec<String>,
    pub message: String,
}

/// The addresses that the texts name; the first text that names none, where there is
/// one.
pub open spec fn addresses_named(texts: Seq<Seq<char>>) -> Result<Seq<u32>, Seq<char>>
    decreases texts.len(),
{
    if texts.len() == 0 {
        Ok(Seq::empty())
    } else {
        match addresses_named(texts.drop_last()) {
            Err(reason) => Err(reason),
            Ok(addresses) => match parsed_address(texts.last()) {
                Some(address) => Ok(addresses.push(address)),
                None => Err(
                    "DNS 回傳無效 IPv4 位址 "@ + texts.last() + "：invalid IPv4 address syntax"@,
                ),
            },
        }
    }
}

/// A failure among the first texts is the failure of all of them.
proof fn lemma_first_bad_address(texts: Seq<Seq<char>>, count: int)
    requires
        0 <= count <= texts.len(),
    ensures
        addresses_named(texts.take(count)) is Err ==> addresses_named(texts) == addresses_named(
            texts.take(count),
        ),
    decreases texts.len() - count,
{
    if count < texts.len() {
        assert(texts.take(count + 1).drop_last() =~= texts.take(count));
        lemma_first_bad_address(texts, count + 1);
    } else {
        assert(texts.take(count) =~= texts);
    }
}

/// What the name servers answered, given the reply of the script, if it could be read.
pub open spec fn resolution(
    output: OutputView,
    response: Option<DnsResolutionResponse>,
) -> Result<Seq<u32>, Seq<char>> {
    match response {
        Some(reply) => if !reply.ok || !output.success {
            Err(reply.message@)
        } else {
            addresses_named(reply.addresses.deep_view())
        },
        None => Err(failure_of(output)),
    }
}

/// What the name servers answered.
pub fn resolve_ipv4_with_dns_servers(
    output: &ScriptOutput,
    response: Option<DnsResolutionResponse>,
) -> (result: Result<Vec<u32>, String>)
    ensures
        crate::validation::addresses_view(result) == resolution(output.deep_view(), response),
        result is Ok <==> output.success && response is Some && response->0.ok && forall|i: int|
            0 <= i < response->0.addresses@.len() ==> parsed_address(
                (#[trigger] response->0.addresses@[i])@,
            ) is Some,
        result matches Ok(addresses) ==> addresses@.len() == response->0.addresses@.len()
            && forall|i: int|
            0 <= i < addresses@.len() ==> Some(#[trigger] addresses@[i]) == parsed_address(
                response->0.addresses@[i]@,
            ),
{
    proof {
        law_every_answered_address_is_kept(output.deep_view(), response);
    }
    match response {
        Some(reply) => {
            if !reply.ok || !output.success {
                return Err(reply.message);
            }
            let ghost texts = reply.addresses.deep_view();
            let mut addresses: Vec<u32> = Vec::new();
            for i in 0..reply.addresses.len()
                invariant
                    texts == reply.addresses.deep_view(),
                    addresses_named(texts.take(i as int)) == Ok::<Seq<u32>, Seq<char>>(
                        addresses@,
                    ),
                    response == Some(reply),
                    reply.ok && output.success,
            {
                assert(texts.take(i + 1).drop_last() =~= texts.take(i as int));
                proof {
                    lemma_first_bad_address(texts, i + 1);
                }
                match parse_address(reply.addresses[i].as_str()) {
                    Some(address) => {
                        addresses.push(address);
                    },
                    None => {
                        let mut message: String = "DNS 回傳無效 IPv4 位址 ".to_owned();
                        message.append(reply.addresses[i].as_str());
                        message.append("：invalid IPv4 address syntax");
                        return Err(message);
                    },
                }
            }
            assert(texts.take(reply.addresses.len() as int) =~= texts);
            Ok(addresses)
        },
        None => Err(powershell_failure(output)),
    }
}

/// No later interface comes before an earlier one.
pub open spec fn adapters_in_order(adapters: Seq<AdapterView>) -> bool {
    forall|i: int, j: int|
        0 <= i < j < adapters.len() ==> !adapter_before(
            #[trigger] adapters[j],
            #[trigger] adapters[i],
        )
}

/// The order of interfaces is transitive where it counts.
proof fn lemma_adapter_order(a: AdapterView, b: AdapterView, c: AdapterView)
    requires
        adapter_before(a, b),
        !adapter_before(c, b),
    ensures
        !adapter_before(c, a),
{
    if adapter_before(c, a) {
        if c.is_up() == a.is_up() && a.is_up() == b.is_up() {
            crate::text::lemma_text_transitive(c.description, a.description, b.description);
        }
    }
}

/// Inserting keeps the order and adds the interface to those of the list.
proof fn lemma_insert_adapter(list: Seq<AdapterView>, adapter: AdapterView)
    ensures
        adapters_in_order(list) ==> adapters_in_order(insert_adapter(list, adapter)),
        insert_adapter(list, adapter).to_multiset() == list.to_multiset().insert(adapter),
    decreases list.len(),
{
    broadcast use vstd::seq_lib::group_to_multiset_ensures;

    let result = insert_adapter(list, adapter);
    if list.len() == 0 {
        assert(result =~= list.push(adapter));
    } else if adapter_before(adapter, list[0]) {
        assert(result =~= list.insert(0, adapter));
        vstd::seq_lib::to_multiset_insert(list, 0, adapter);
        if adapters_in_order(list) {
            assert forall|i: int, j: int| 0 <= i < j < result.len() implies !adapter_before(
                #[trigger] result[j],
                #[trigger] result[i],
            ) by {
                if i == 0 {
                    if j == 1 {
                        if adapter_before(list[0], adapter) && list[0].is_up() == adapter.is_up() {
                            crate::text::lemma_text_transitive(
                                adapter.description,
                                list[0].description,
                                adapter.description,
                            );
                            crate::text::lemma_text_irreflexive(adapter.description);
                        }
                    } else {
                        lemma_adapter_order(adapter, list[0], list[j - 1]);
                    }
                } else {
                    assert(result[i] == list[i - 1] && result[j] == list[j - 1]);
                }
            }
        }
    } else {
        let rest = list.skip(1);
        let inserted = insert_adapter(rest, adapter);
        lemma_insert_adapter(rest, adapter);
        assert(result =~= inserted.insert(0, list[0]));
        vstd::seq_lib::to_multiset_insert(inserted, 0, list[0]);
        assert(list =~= rest.insert(0, list[0]));
        vstd::seq_lib::to_multiset_insert(rest, 0, list[0]);
        assert(result.to_multiset() =~= list.to_multiset().insert(adapter));
        if adapters_in_order(list) {
            assert forall|i: int, j: int| 0 <= i < j < rest.len() implies !adapter_before(
                #[trigger] rest[j],
                #[trigger] rest[i],
            ) by {
                assert(rest[i] == list[i + 1] && rest[j] == list[j + 1]);
            }
            assert forall|i: int, j: int| 0 <= i < j < result.len() implies !adapter_before(
                #[trigger] result[j],
                #[trigger] result[i],
            ) by {
                assert(result[j] == inserted[j - 1]);
                if i > 0 {
                    assert(result[i] == inserted[i - 1]);
                } else {
                    assert(inserted.to_multiset().count(inserted[j - 1]) > 0) by {
                        assert(inserted.contains(inserted[j - 1]));
                    }
                    if inserted[j - 1] != adapter {
                        assert(rest.to_multiset().count(inserted[j - 1]) > 0);
                        assert(rest.contains(inserted[j - 1]));
                        let k = choose|k: int| 0 <= k < rest.len() && rest[k] == inserted[j - 1];
                        assert(rest[k] == list[k + 1]);
                    }
                }
            }
        }
    }
}

/// Sorting interfaces keeps each of them and puts the connected ones first, and those
/// in the order of their descriptions.
pub proof fn law_adapters_are_sorted(adapters: Seq<AdapterView>)
    ensures
        adapters_in_order(ordered_adapters(adapters)),
        ordered_adapters(adapters).to_multiset() == adapters.to_multiset(),
    decreases adapters.len(),
{
    broadcast use vstd::seq_lib::group_to_multiset_ensures;

    if adapters.len() > 0 {
        let before = adapters.drop_last();
        law_adapters_are_sorted(before);
        lemma_insert_adapter(ordered_adapters(before), adapters.last());
        assert(adapters =~= before.push(adapters.last()));
    } else {
        assert(ordered_adapters(adapters) =~= adapters);
    }
}

/// What is found in the table are the routes that some row of the table is, and no
/// other.
pub proof fn law_existing_routes_are_managed(routes: Seq<RouteView>, rows: Seq<RouteRow>)
    ensures
        forall|route: RouteView| #[trigger]
            routes_in_table(routes, rows).contains(route) <==> routes.contains(route) && in_table(
                rows,
                route,
            ),
        routes_in_table(routes, rows).len() <= routes.len(),
    decreases routes.len(),
{
    reveal(Seq::filter);
    if routes.len() > 0 {
        let before = routes.drop_last();
        let found = routes_in_table(before, rows);
        law_existing_routes_are_managed(before, rows);
        let all = routes_in_table(routes, rows);
        assert(all == if in_table(rows, routes.last()) {
            found.push(routes.last())
        } else {
            found
        });
        assert forall|route: RouteView| #[trigger] all.contains(route) <==> routes.contains(route)
            && in_table(rows, route) by {
            if all.contains(route) {
                let i = choose|i: int| 0 <= i < all.len() && all[i] == route;
                if i < found.len() {
                    assert(found.contains(route));
                    let k = choose|k: int| 0 <= k < before.len() && before[k] == route;
                    assert(routes[k] == route);
                }
                assert(routes[routes.len() - 1] == routes.last());
            }
            if routes.contains(route) && in_table(rows, route) {
                let k = choose|k: int| 0 <= k < routes.len() && routes[k] == route;
                if k < before.len() {
                    assert(before[k] == route);
                    assert(found.contains(route));
                    let i = choose|i: int| 0 <= i < found.len() && found[i] == route;
                    assert(all[i] == route);
                } else {
                    assert(all[found.len() as int] == route);
                }
            }
        }
    }
}

}
