//! What holds of the messages that users read: that they tell what they are about.

use vstd::prelude::*;

use crate::dns_plan::{
    bad_dns_targets, no_own_server, server_claimed_twice, servers_indistinguishable,
};
use crate::domain::{SplitterConfig, VpnKind, VpnProfile};
use crate::fallback::{bypass_required, FallbackView};
use crate::health::RouteHealthOutcome;
use crate::ipv4::{address_text, Ipv4Net};
use crate::operations::{DnsRefreshOutcome, OperationKind, RefreshOutcome, ToggleOutcome};
use crate::physical::{ordinary_server_in_target, profile_routes};
use crate::physical_health::rival_warning;
use crate::policy::{general_server_in_target, tunnel_state, vpn_names, with_bypass};
use crate::preparation::{server_in_foreign_target, server_shared, PreparedView};
use crate::routes::count_of;
use crate::selection::{chosen_down, chosen_missing, none_chosen, selection};
use crate::session::{warning_lines, BannerView, SaveView, SessionView};
use crate::state::cleanup_failure;
use crate::text::{decimal, has_text, joined, occurs_at};
use crate::validation::{
    default_route_listed, domain_shared, ipv6_listed, networks_overlap, no_address, not_a_target,
    not_resolved, nothing_listed, ValidatedView,
};
use crate::windows::{AdapterView, GatewayView, ManagedRoute, NativeRouteView, RouteView};

verus! {

/// A text says what stands inside it.
proof fn lemma_inside(before: Seq<char>, text: Seq<char>, after: Seq<char>)
    ensures
        has_text(before + text + after, text),
{
    let whole = before + text + after;
    let at = before.len() as int;
    assert(whole.subrange(at, at + text.len()) =~= text);
    assert(occurs_at(whole, text, at));
}

/// What a part of a text says, the text says.
proof fn lemma_part(before: Seq<char>, part: Seq<char>, after: Seq<char>, text: Seq<char>)
    requires
        has_text(part, text),
    ensures
        has_text(before + part + after, text),
{
    let at = choose|at: int| occurs_at(part, text, at);
    let whole = before + part + after;
    assert(whole.subrange(before.len() + at, before.len() + at + text.len()) =~= part.subrange(
        at,
        at + text.len(),
    ));
    assert(occurs_at(whole, text, before.len() + at));
}

/// A text says what it ends with.
proof fn lemma_end(before: Seq<char>, text: Seq<char>)
    ensures
        has_text(before + text, text),
{
    let none = Seq::<char>::empty();
    lemma_inside(before, text, none);
    assert(before + text + none =~= before + text);
}

/// A text that goes on still says what it has said.
proof fn lemma_goes_on(before: Seq<char>, after: Seq<char>, text: Seq<char>)
    requires
        has_text(before, text),
    ensures
        has_text(before + after, text),
{
    let none = Seq::<char>::empty();
    lemma_part(none, before, after, text);
    assert(none + before + after =~= before + after);
}

/// Joined texts say each of their parts.
proof fn lemma_joined_says(parts: Seq<Seq<char>>, separator: Seq<char>, k: int)
    requires
        0 <= k < parts.len(),
    ensures
        has_text(joined(parts, separator), parts[k]),
    decreases parts.len(),
{
    let none = Seq::<char>::empty();
    if parts.len() == 1 {
        lemma_inside(none, parts[0], none);
        assert(none + parts[0] + none =~= parts[0]);
    } else {
        let front = parts.drop_last();
        let whole = joined(parts, separator);
        if k < front.len() {
            assert(front[k] == parts[k]);
            lemma_joined_says(front, separator, k);
            lemma_part(none, joined(front, separator), separator + parts.last(), parts[k]);
            assert(none + joined(front, separator) + (separator + parts.last()) =~= whole);
        } else {
            lemma_inside(joined(front, separator) + separator, parts.last(), none);
            assert(joined(front, separator) + separator + parts.last() + none =~= whole);
        }
    }
}

/// The lines of warnings say each warning.
proof fn lemma_warning_said(before: Seq<char>, warnings: Seq<Seq<char>>, k: int)
    requires
        0 <= k < warnings.len(),
    ensures
        has_text(before + warning_lines(warnings), warnings[k]),
{
    let none = Seq::<char>::empty();
    lemma_joined_says(warnings, "\n"@, k);
    lemma_part(before + "\n"@, joined(warnings, "\n"@), none, warnings[k]);
    assert(before + "\n"@ + joined(warnings, "\n"@) + none =~= before + warning_lines(warnings));
}

/// A finding names the VPNs that it is about, in its list and in its words, and quotes what
/// was written.
pub proof fn law_findings_name_what_they_are_about(
    vpn: VpnKind,
    other: VpnKind,
    token: Seq<char>,
    text: Seq<char>,
    reason: Seq<char>,
)
    ensures
        nothing_listed(vpn).vpns == seq![vpn],
        has_text(nothing_listed(vpn).message, vpn.text()),
        default_route_listed(vpn).vpns == seq![vpn],
        has_text(default_route_listed(vpn).message, vpn.text()),
        domain_shared(text, other, vpn).vpns == seq![other, vpn],
        has_text(domain_shared(text, other, vpn).message, text),
        has_text(domain_shared(text, other, vpn).message, vpn.text()),
        has_text(domain_shared(text, other, vpn).message, other.text()),
        no_address(vpn, token).vpns == seq![vpn],
        has_text(no_address(vpn, token).message, token),
        not_resolved(vpn, token, text, reason).vpns == seq![vpn],
        has_text(not_resolved(vpn, token, text, reason).message, token),
        has_text(not_resolved(vpn, token, text, reason).message, text),
        has_text(not_resolved(vpn, token, text, reason).message, reason),
        ipv6_listed(vpn, token).vpns == seq![vpn],
        has_text(ipv6_listed(vpn, token).message, token),
        not_a_target(vpn, token, reason).vpns == seq![vpn],
        has_text(not_a_target(vpn, token, reason).message, token),
        has_text(not_a_target(vpn, token, reason).message, reason),
{
    let none = Seq::<char>::empty();
    let m = nothing_listed(vpn).message;
    lemma_inside(none, vpn.text(), m.skip(vpn.text().len() as int));
    assert(none + vpn.text() + m.skip(vpn.text().len() as int) =~= m);
    let m = default_route_listed(vpn).message;
    lemma_inside(none, vpn.text(), m.skip(vpn.text().len() as int));
    assert(none + vpn.text() + m.skip(vpn.text().len() as int) =~= m);
    let m = domain_shared(text, other, vpn).message;
    let a = "網域 "@;
    let b = " 同時指定給 "@;
    let c = " 與 "@;
    let d = "；同一名稱只能使用一組 VPN DNS。"@;
    lemma_inside(a, text, b + other.text() + c + vpn.text() + d);
    assert(a + text + (b + other.text() + c + vpn.text() + d) =~= m);
    lemma_inside(a + text + b, other.text(), c + vpn.text() + d);
    assert(a + text + b + other.text() + (c + vpn.text() + d) =~= m);
    lemma_inside(a + text + b + other.text() + c, vpn.text(), d);
    let m = no_address(vpn, token).message;
    lemma_inside(vpn.text() + " 的「"@, token, "」沒有解析到任何 IPv4 位址。"@);
    let m = not_resolved(vpn, token, text, reason).message;
    let open = vpn.text() + " 無法解析「"@;
    let named = "」的網域 "@;
    lemma_inside(open, token, named + text + "："@ + reason);
    assert(open + token + (named + text + "："@ + reason) =~= m);
    lemma_inside(open + token + named, text, "："@ + reason);
    assert(open + token + named + text + ("："@ + reason) =~= m);
    lemma_inside(open + token + named + text + "："@, reason, none);
    assert(open + token + named + text + "："@ + reason + none =~= m);
    let m = ipv6_listed(vpn, token).message;
    lemma_inside(vpn.text() + " 的「"@, token, "」是 IPv6；目前只支援 IPv4。"@);
    let m = not_a_target(vpn, token, reason).message;
    let head = vpn.text() + " 的「"@;
    let middle = "」不是有效的 CIDR、網域或網址："@;
    lemma_inside(head, token, middle + reason);
    assert(head + token + (middle + reason) =~= m);
    lemma_inside(head + token + middle, reason, none);
    assert(head + token + middle + reason + none =~= m);
}

/// An overlap names both VPNs, and quotes both networks and what was written for them.
pub proof fn law_overlap_names_both_sides(
    left: VpnKind,
    left_source: Seq<char>,
    left_network: Ipv4Net,
    right: VpnKind,
    right_source: Seq<char>,
    right_network: Ipv4Net,
)
    ensures
        ({
            let finding = networks_overlap(
                left,
                left_source,
                left_network,
                right,
                right_source,
                right_network,
            );
            &&& finding.vpns == seq![left, right]
            &&& has_text(finding.message, left_source)
            &&& has_text(finding.message, left_network.text())
            &&& has_text(finding.message, right_source)
            &&& has_text(finding.message, right_network.text())
        }),
{
    let m = networks_overlap(
        left,
        left_source,
        left_network,
        right,
        right_source,
        right_network,
    ).message;
    let one = left_network.text();
    let two = right_network.text();
    let start = left.text() + " 的「"@;
    let first = start + left_source + "」所產生的 "@;
    let second = first + one + " 與 "@ + right.text() + " 的「"@;
    let third = second + right_source + "」所產生的 "@;
    assert(m == third + two + " 重疊，已阻擋套用。"@);
    lemma_end(start, left_source);
    lemma_goes_on(start + left_source, "」所產生的 "@, left_source);
    lemma_goes_on(first, one, left_source);
    lemma_end(first, one);
    lemma_goes_on(first + one, " 與 "@, left_source);
    lemma_goes_on(first + one, " 與 "@, one);
    lemma_goes_on(first + one + " 與 "@, right.text(), left_source);
    lemma_goes_on(first + one + " 與 "@, right.text(), one);
    lemma_goes_on(first + one + " 與 "@ + right.text(), " 的「"@, left_source);
    lemma_goes_on(first + one + " 與 "@ + right.text(), " 的「"@, one);
    lemma_goes_on(second, right_source, left_source);
    lemma_goes_on(second, right_source, one);
    lemma_end(second, right_source);
    lemma_goes_on(second + right_source, "」所產生的 "@, left_source);
    lemma_goes_on(second + right_source, "」所產生的 "@, one);
    lemma_goes_on(second + right_source, "」所產生的 "@, right_source);
    lemma_goes_on(third, two, left_source);
    lemma_goes_on(third, two, one);
    lemma_goes_on(third, two, right_source);
    lemma_end(third, two);
    lemma_goes_on(third + two, " 重疊，已阻擋套用。"@, left_source);
    lemma_goes_on(third + two, " 重疊，已阻擋套用。"@, one);
    lemma_goes_on(third + two, " 重疊，已阻擋套用。"@, right_source);
    lemma_goes_on(third + two, " 重疊，已阻擋套用。"@, two);
}

/// An interface is shown with its description, its number and its status.
pub proof fn law_shown_interface_can_be_recognised(adapter: AdapterView)
    ensures
        has_text(adapter.display_label(), adapter.description),
        has_text(adapter.display_label(), decimal(adapter.index as nat)),
        has_text(adapter.display_label(), adapter.status),
{
    let none = Seq::<char>::empty();
    let label = adapter.display_label();
    let number = decimal(adapter.index as nat);
    let a = " · ifIndex "@;
    let b = " · "@;
    lemma_inside(none, adapter.description, a + number + b + adapter.status);
    assert(none + adapter.description + (a + number + b + adapter.status) =~= label);
    lemma_inside(adapter.description + a, number, b + adapter.status);
    assert(adapter.description + a + number + (b + adapter.status) =~= label);
    lemma_inside(adapter.description + a + number + b, adapter.status, none);
    assert(adapter.description + a + number + b + adapter.status + none =~= label);
}

/// A switch that was carried out is told with its VPN and every warning, and a VPN that was
/// switched on with the number of its routes.
pub proof fn law_switch_is_told_with_its_warnings(
    session: SessionView,
    vpn: VpnKind,
    enabled: bool,
    config: SplitterConfig,
    routes: Vec<ManagedRoute>,
    warnings: Vec<String>,
    now: u64,
    k: int,
)
    ensures
        ({
            let outcome = ToggleOutcome::Applied { vpn, enabled, config, routes, warnings };
            let told = session.toggled(outcome, now).banner;
            &&& told matches BannerView::Success(text) && has_text(text, vpn.text()) && (enabled
                ==> has_text(
                text,
                decimal(count_of(routes.deep_view(), vpn)),
            )) && (0 <= k < warnings@.len() ==> has_text(text, warnings@[k]@))
        }),
{
    let outcome = ToggleOutcome::Applied { vpn, enabled, config, routes, warnings };
    let text = session.toggled(outcome, now).banner->Success_0;
    let none = Seq::<char>::empty();
    let lines = warning_lines(warnings.deep_view());
    let count = decimal(count_of(routes.deep_view(), vpn));
    let rest = text.skip(vpn.text().len() as int);
    lemma_inside(none, vpn.text(), rest);
    assert(none + vpn.text() + rest =~= text);
    if enabled {
        let a = vpn.text() + " 分流已開啟，目前管理 "@;
        let b = " 條路由。"@;
        lemma_inside(a, count, b + lines);
        assert(a + count + (b + lines) =~= text);
        if 0 <= k < warnings@.len() {
            lemma_warning_said(a + count + b, warnings.deep_view(), k);
        }
    } else if 0 <= k < warnings@.len() {
        lemma_warning_said(
            vpn.text() + " 分流已關閉，本程式建立的相關路由已移除。"@,
            warnings.deep_view(),
            k,
        );
    }
}

/// Names that were resolved again are told with the number of routes and every warning.
pub proof fn law_new_routes_are_told_with_their_warnings(
    session: SessionView,
    routes: Vec<ManagedRoute>,
    warnings: Vec<String>,
    k: int,
)
    ensures
        ({
            let outcome = DnsRefreshOutcome::Updated { routes, warnings };
            let told = session.names_refreshed(outcome).banner;
            told matches BannerView::Success(text) && has_text(
                text,
                decimal(routes@.len()),
            ) && (0 <= k < warnings@.len() ==> has_text(text, warnings@[k]@))
        }),
{
    let outcome = DnsRefreshOutcome::Updated { routes, warnings };
    let text = session.names_refreshed(outcome).banner->Success_0;
    let a = "網域已重新解析並更新，目前管理 "@;
    let b = " 條路由。"@;
    let count = decimal(routes.deep_view().len());
    let lines = warning_lines(warnings.deep_view());
    lemma_inside(a, count, b + lines);
    assert(a + count + (b + lines) =~= text);
    if 0 <= k < warnings@.len() {
        lemma_warning_said(a + count + b, warnings.deep_view(), k);
    }
}

/// Looking for interfaces tells how many routes were removed, or how many interfaces were
/// found where none was; what failed is told with its reason.
pub proof fn law_search_is_told_with_its_numbers(session: SessionView, outcome: RefreshOutcome)
    requires
        outcome.adapter_notice is Ok,
    ensures
        ({
            let told = session.refreshed(outcome).banner;
            let routes = outcome.route_notice;
            let gateway = outcome.gateway_notice;
            let rules = outcome.dns_notice;
            &&& gateway is Err ==> has_text(told->Error_0, gateway->Err_0@)
            &&& gateway is Ok && rules is Err ==> has_text(told->Error_0, rules->Err_0@)
            &&& gateway is Ok && rules is Ok && routes is Err ==> told->Error_0 == routes->Err_0@
            &&& gateway is Ok && rules is Ok && routes is Ok && routes->Ok_0.removed > 0
                ==> has_text(told->Info_0, decimal(routes->Ok_0.removed as nat))
            &&& gateway is Ok && rules is Ok && routes is Ok && routes->Ok_0.removed == 0
                ==> has_text(told->Info_0, decimal(outcome.adapter_notice->Ok_0@.len()))
        }),
{
    let none = Seq::<char>::empty();
    let routes = outcome.route_notice;
    let gateway = outcome.gateway_notice;
    let rules = outcome.dns_notice;
    let told = session.refreshed(outcome).banner;
    if gateway is Err {
        let a = "VPN 介面已重新偵測，但無法偵測一般網路閘道："@;
        lemma_inside(a, gateway->Err_0@, none);
        assert(a + gateway->Err_0@ + none =~= told->Error_0);
    } else if rules is Err {
        let a = "VPN 介面已重新偵測，但無法清除先前殘留的 DNS 分流："@;
        lemma_inside(a, rules->Err_0@, none);
        assert(a + rules->Err_0@ + none =~= told->Error_0);
    } else if routes is Ok {
        if routes->Ok_0.removed > 0 {
            lemma_inside(
                "已重新偵測介面；另清除 "@,
                decimal(routes->Ok_0.removed as nat),
                " 條 VPN 已斷線後殘留的 ActiveStore 路由，開關狀態已同步。"@,
            );
        } else {
            lemma_inside(
                "已重新偵測到 "@,
                decimal(outcome.adapter_notice->Ok_0@.len()),
                " 個可能的 VPN 網路介面。"@,
            );
        }
    }
}

/// A health check tells every warning where it switched a VPN off, and the number of routes
/// where it repaired them.
pub proof fn law_repair_is_told(session: SessionView, outcome: RouteHealthOutcome, now: u64, k: int)
    requires
        outcome is Updated,
    ensures
        ({
            let told = session.health_checked(outcome, now).banner;
            &&& outcome->disabled_vpns@.len() > 0 && 0 <= k < outcome->warnings@.len() ==> has_text(
                told->Info_0,
                outcome->warnings@[k]@,
            )
            &&& outcome->disabled_vpns@.len() == 0 && outcome->repaired ==> has_text(
                told->Success_0,
                decimal(outcome->routes@.len()),
            )
        }),
{
    if outcome->disabled_vpns@.len() > 0 {
        if 0 <= k < outcome->warnings@.len() {
            lemma_joined_says(outcome->warnings.deep_view(), "\n"@, k);
        }
    } else if outcome->repaired {
        lemma_inside(
            "偵測到 VPN 或網路介面改寫路由，已自動修復 "@,
            decimal(outcome->routes.deep_view().len()),
            " 條管理路由。"@,
        );
    }
}

/// A text with the parts in this order says the middle one.
proof fn lemma_says(whole: Seq<char>, before: Seq<char>, text: Seq<char>, after: Seq<char>)
    requires
        whole == before + text + after,
    ensures
        has_text(whole, text),
{
    lemma_inside(before, text, after);
}

/// A refusal for a profile starts with the name of its VPN and tells the interface, or the
/// reason, that stands in the way.
pub proof fn law_refused_profile_is_told_with_its_interface(
    vpn: VpnKind,
    fallback: FallbackView,
    description: Seq<char>,
    reason: Seq<char>,
)
    ensures
        vpn.text().is_prefix_of(none_chosen(vpn)),
        vpn.text().is_prefix_of(chosen_missing(vpn, description)),
        has_text(chosen_missing(vpn, description), description),
        vpn.text().is_prefix_of(chosen_down(vpn, description)),
        has_text(chosen_down(vpn, description), description),
        vpn.text().is_prefix_of(no_own_server(vpn, description)),
        has_text(no_own_server(vpn, description), description),
        vpn.text().is_prefix_of(bad_dns_targets(vpn, reason)),
        has_text(bad_dns_targets(vpn, reason), reason),
        vpn.text().is_prefix_of(servers_indistinguishable(vpn, fallback)),
        has_text(servers_indistinguishable(vpn, fallback), fallback.label()),
        has_text(cleanup_failure(reason), reason),
{
    lemma_inside(vpn.text() + " 找不到已選擇的介面「"@, description, "」，請重新偵測。"@);
    lemma_inside(vpn.text() + " 的介面「"@, description, "」尚未連線。"@);
    lemma_inside(
        vpn.text() + " 的介面「"@,
        description,
        "」沒有可與未指定流量路徑分離的 IPv4 DNS server；為避免 DNS 串線，已停止套用。"@,
    );
    lemma_end(vpn.text() + " 的 DNS 目標無效："@, reason);
    lemma_inside(
        vpn.text() + " 與 "@,
        fallback.label(),
        " 回報相同、無法分辨歸屬的 IPv4 DNS server；為避免未指定名稱誤用已啟用分流 VPN 的 DNS，已停止套用。"@,
    );
    lemma_end("關閉時重試 3 次仍無法移除全部管理路由；已保留路由清單供下次啟動復原："@, reason);
}

/// Two VPNs that cannot work together are told apart: the message starts with the first of
/// them, names the other one too, and gives the name server that both want.
pub proof fn law_rivals_are_both_named(vpn: VpnKind, other: VpnKind, address: u32)
    ensures
        vpn.text().is_prefix_of(rival_warning(vpn, other)),
        has_text(rival_warning(vpn, other).skip(vpn.text().len() as int), other.text()),
        vpn.text().is_prefix_of(server_shared(vpn, other, address)),
        has_text(server_shared(vpn, other, address).skip(vpn.text().len() as int), other.text()),
        has_text(server_shared(vpn, other, address), address_text(address)),
        vpn.text().is_prefix_of(server_claimed_twice(vpn, other, address)),
        has_text(
            server_claimed_twice(vpn, other, address).skip(vpn.text().len() as int),
            other.text(),
        ),
        has_text(server_claimed_twice(vpn, other, address), address_text(address)),
{
    let from = vpn.text().len() as int;
    let a = " 在分流啟用後變成 Full Tunnel；為避免和 "@;
    let b = " 競爭全流量路由，已自動移除其管理路由並關閉該分流。"@;
    let rest = rival_warning(vpn, other).skip(from);
    assert(rest =~= a + other.text() + b);
    lemma_says(rest, a, other.text(), b);
    let a = " 與 "@;
    let b = " 使用同一個 VPN DNS server "@;
    let c = "，但 Windows 只能選擇一條介面路由。"@;
    let rest = server_shared(vpn, other, address).skip(from);
    assert(rest =~= a + other.text() + (b + address_text(address) + c));
    lemma_says(rest, a, other.text(), b + address_text(address) + c);
    lemma_inside(vpn.text() + a + other.text() + b, address_text(address), c);
    let b = " 的網路介面都宣告 DNS server "@;
    let c = "；Windows 無法把同一目的 IP 同時固定到兩條 VPN，已停止套用以避免 DNS 串線。"@;
    let rest = server_claimed_twice(vpn, other, address).skip(from);
    assert(rest =~= a + other.text() + (b + address_text(address) + c));
    lemma_says(rest, a, other.text(), b + address_text(address) + c);
    lemma_inside(vpn.text() + a + other.text() + b, address_text(address), c);
}

/// A text that is put together from parts says each of three that stand in it.
proof fn lemma_three_said(
    a: Seq<char>,
    x: Seq<char>,
    b: Seq<char>,
    y: Seq<char>,
    c: Seq<char>,
    z: Seq<char>,
    d: Seq<char>,
)
    ensures
        has_text(a + x + b + y + c + z + d, x),
        has_text(a + x + b + y + c + z + d, y),
        has_text(a + x + b + y + c + z + d, z),
{
    lemma_end(a, x);
    lemma_goes_on(a + x, b, x);
    lemma_goes_on(a + x + b, y, x);
    lemma_goes_on(a + x + b + y, c, x);
    lemma_goes_on(a + x + b + y + c, z, x);
    lemma_goes_on(a + x + b + y + c + z, d, x);
    lemma_end(a + x + b, y);
    lemma_goes_on(a + x + b + y, c, y);
    lemma_goes_on(a + x + b + y + c, z, y);
    lemma_goes_on(a + x + b + y + c + z, d, y);
    lemma_inside(a + x + b + y + c, z, d);
}

/// A name server that lies in a target is told with its address, with the target and with
/// the VPN of the target; where it is the server of a VPN, the message starts with that one.
pub proof fn law_server_in_a_target_is_told(
    vpn: VpnKind,
    label: Seq<char>,
    address: u32,
    route: RouteView,
)
    ensures
        ({
            let told = server_in_foreign_target(vpn, address, route);
            let rest = told.skip(vpn.text().len() as int);
            &&& vpn.text().is_prefix_of(told)
            &&& has_text(rest, address_text(address))
            &&& has_text(rest, route.vpn.text())
            &&& has_text(rest, route.prefix)
        }),
        ({
            let told = general_server_in_target(label, address, route);
            &&& has_text(told, label)
            &&& has_text(told, address_text(address))
            &&& has_text(told, route.vpn.text())
            &&& has_text(told, route.prefix)
        }),
        ({
            let told = ordinary_server_in_target(address, route);
            &&& has_text(told, address_text(address))
            &&& has_text(told, route.vpn.text())
            &&& has_text(told, route.prefix)
        }),
{
    let at = address_text(address);
    let name = route.vpn.text();
    let by = " 被 "@;
    let of = " 的目標「"@;
    let a = " 的 DNS server "@;
    let c = "」涵蓋，無法同時建立正確 DNS 路由。"@;
    assert(server_in_foreign_target(vpn, address, route).skip(vpn.text().len() as int) =~= a + at
        + by + name + of + route.prefix + c);
    lemma_three_said(a, at, by, name, of, route.prefix, c);
    let a = "未指定名稱所使用的 "@;
    let b = " DNS "@;
    let c = "」涵蓋；這會改變未啟用分流時的 DNS 行為，已停止套用。"@;
    lemma_three_said(a + label + b, at, by, name, of, route.prefix, c);
    lemma_inside(a, label, b);
    lemma_goes_on(a + label + b, at, label);
    lemma_goes_on(a + label + b + at, by, label);
    lemma_goes_on(a + label + b + at + by, name, label);
    lemma_goes_on(a + label + b + at + by + name, of, label);
    lemma_goes_on(a + label + b + at + by + name + of, route.prefix, label);
    lemma_goes_on(a + label + b + at + by + name + of + route.prefix, c, label);
    let a = "一般網路 DNS "@;
    let c = "」涵蓋；這會讓未指定名稱無法繼續使用目前網路，已停止套用。"@;
    lemma_three_said(a, at, by, name, of, route.prefix, c);
}

/// Every VPN that takes all traffic is named where it is told what that means, whether
/// something is done about it or not.
pub proof fn law_tunnels_are_named(full_tunnels: Seq<VpnKind>, k: int)
    requires
        0 <= k < full_tunnels.len(),
    ensures
        has_text(tunnel_state(full_tunnels), full_tunnels[k].text()),
{
    let names = vpn_names(full_tunnels);
    lemma_joined_says(names, "、"@, k);
    lemma_goes_on(joined(names, "、"@), " 是"@, names[k]);
    lemma_goes_on(joined(names, "、"@), " 同時是"@, names[k]);
}

/// Where everything else is led around the tunnels, the user is told that the way was
/// only inferred just where it was: the message is longer then than for a way that
/// Windows reports, be it that of a VPN or of the ordinary network.
pub proof fn law_inferred_way_is_told(
    prepared: PreparedView,
    profiles: Seq<VpnProfile>,
    adapters: Seq<AdapterView>,
    full_tunnels: Seq<VpnKind>,
    reported: FallbackView,
    inferred: GatewayView,
    native: Seq<NativeRouteView>,
    managed: Seq<RouteView>,
)
    requires
        full_tunnels.len() > 0,
        reported matches FallbackView::Physical(gateway) ==> !gateway.inferred_from_escape_route,
        inferred.inferred_from_escape_route,
        bypass_required(profiles, adapters, full_tunnels, reported),
        bypass_required(profiles, adapters, full_tunnels, FallbackView::Physical(inferred)),
    ensures
        ({
            let plain = with_bypass(
                prepared,
                profiles,
                adapters,
                full_tunnels,
                Some(reported),
                native,
                managed,
            );
            let noted = with_bypass(
                prepared,
                profiles,
                adapters,
                full_tunnels,
                Some(FallbackView::Physical(inferred)),
                native,
                managed,
            );
            &&& plain is Ok && noted is Ok
            &&& plain->Ok_0.warnings.len() == prepared.warnings.len() + 1
            &&& noted->Ok_0.warnings.len() == prepared.warnings.len() + 1
            &&& plain->Ok_0.warnings.last().len() < noted->Ok_0.warnings.last().len()
        }),
{
    reveal_strlit("（由 VPN 保留的伺服器繞行路由推定）");
}

/// A profile whose VPN takes all traffic is told with the ordinary network that everything
/// else is led to; the message is longer where that network was only inferred.
pub proof fn law_way_around_a_tunnel_is_told(
    profiles: Seq<VpnProfile>,
    validated: ValidatedView,
    adapters: Seq<AdapterView>,
    reported: GatewayView,
)
    requires
        !reported.inferred_from_escape_route,
        selection(profiles, validated.vpn, adapters) is Ok,
        selection(profiles, validated.vpn, adapters)->Ok_0.full_tunnel_priority is Some,
    ensures
        ({
            let inferred = GatewayView { inferred_from_escape_route: true, ..reported };
            let plain = profile_routes(profiles, validated, adapters, Some(reported));
            let noted = profile_routes(profiles, validated, adapters, Some(inferred));
            &&& plain is Ok && noted is Ok
            &&& plain->Ok_0.warnings.len() == 1 && noted->Ok_0.warnings.len() == 1
            &&& validated.vpn.text().is_prefix_of(plain->Ok_0.warnings[0])
            &&& has_text(plain->Ok_0.warnings[0], reported.interface_alias)
            &&& has_text(noted->Ok_0.warnings[0], reported.interface_alias)
            &&& plain->Ok_0.warnings[0].len() < noted->Ok_0.warnings[0].len()
        }),
{
    let note = "（由 F5 保留的伺服器繞行路由推定）"@;
    reveal_strlit("（由 F5 保留的伺服器繞行路由推定）");
    let a = validated.vpn.text() + " 是 Full Tunnel；已透過 "@;
    let alias = reported.interface_alias;
    let b = " 將非指定 IPv4 流量導回一般網路"@;
    let c = "。若公司策略強制封鎖本機繞行，連線仍可能受限。"@;
    lemma_inside(a, alias, b);
    lemma_goes_on(a + alias + b, note, alias);
    lemma_goes_on(a + alias + b + note, c, alias);
    lemma_goes_on(a + alias + b, Seq::empty(), alias);
    lemma_goes_on(a + alias + b + Seq::empty(), c, alias);
}

/// A state that could not be saved is told with the reason where the user has asked for the
/// change.
pub proof fn law_failed_save_is_told_with_its_reason(
    session: SessionView,
    request: SaveView,
    reason: Seq<char>,
)
    requires
        request is AfterToggle || request is AfterDnsRefresh,
    ensures
        session.save_failed(request, reason).banner matches BannerView::Error(text) && has_text(
            text,
            reason,
        ),
{
    if request is AfterToggle {
        lemma_end("路由已套用，但設定保存失敗："@, reason);
    } else {
        lemma_end("DNS 路由已更新，但設定保存失敗："@, reason);
    }
}

/// What the user has asked for is told once it starts or waits; what runs in the background
/// starts without a word.
pub proof fn law_start_is_told_where_it_was_asked_for(session: SessionView, kind: OperationKind)
    ensures
        session.pending is None ==> ({
            let after = session.started(kind);
            &&& after.pending == Some(kind)
            &&& kind is RefreshAdapters || kind is ToggleProfile ==> after.banner
                == BannerView::Info(kind.progress())
            &&& kind is RefreshDns || kind is RouteHealth ==> after.banner == session.banner
            &&& after.profiles == session.profiles
            &&& after.routes == session.routes
            &&& after.adapters == session.adapters
            &&& after.gateway == session.gateway
            &&& after.dialog == session.dialog
            &&& after.queued == session.queued
        }),
        session.pending is Some ==> session.started(kind) == session,
        kind matches OperationKind::ToggleProfile { vpn, enabled } ==> has_text(
            kind.progress(),
            vpn.text(),
        ),
{
    if let OperationKind::ToggleProfile { vpn, enabled } = kind {
        if enabled {
            lemma_inside("正在啟用 "@, vpn.text(), " 分流，請稍候…"@);
        } else {
            lemma_inside("正在停用 "@, vpn.text(), " 分流，請稍候…"@);
        }
    }
}

} // verus!
