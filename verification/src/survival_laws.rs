//! What holds of a health check: which VPNs stay switched on and which routes they get.

use vstd::prelude::*;

use crate::choice_laws::leads_its_vpn;
use crate::domain::{lemma_profile_index, profile_index, VpnKind, VpnProfile};
use crate::effect_laws::law_switch_changes_one_profile;
use crate::health::{
    checked, desired_with_native, health_outcome, live_adapter, moved_routes, started, CheckView,
    HealthOutcomeView, HealthPlanView, HealthReplies,
};
use crate::lists::{first_index, lemma_filter_members, lemma_first_exists, lemma_first_index};
use crate::operations::{health_run_outcome, Discovery};
use crate::physical_health::{
    bypass_of_vpn, desired_physical, has_bypass, kept_tunnel, one_tunnel_started, physical_checked,
    physical_step, without_rivals,
};
use crate::routes::target_of_vpn;
use crate::selection::{full_tunnel_vpns, selected_up};
use crate::windows::{
    AdapterView, GatewayView, ManagedRoutePurpose, NativeRouteView, RouteView,
};

verus! {

/// The interface is the one that the profile has chosen, and it is connected.
pub open spec fn is_live(profile: VpnProfile, adapter: AdapterView) -> bool {
    &&& profile.adapter_description is Some
    &&& adapter.matches(profile.vpn)
    &&& adapter.description == profile.adapter_description->0@
    &&& adapter.is_up()
}

/// A VPN can go on: the interface that its profile has chosen is connected, and a route to
/// one of its targets is known.
pub open spec fn can_stay(
    profile: VpnProfile,
    current: Seq<RouteView>,
    adapters: Seq<AdapterView>,
) -> bool {
    &&& exists|a: int| 0 <= a < adapters.len() && is_live(profile, #[trigger] adapters[a])
    &&& exists|i: int|
        0 <= i < current.len() && (#[trigger] current[i]).vpn == profile.vpn && current[i].purpose
            == ManagedRoutePurpose::Target
}

/// The interface that a profile uses is the first live one.
pub proof fn law_profile_uses_its_first_live_interface(
    profile: VpnProfile,
    adapters: Seq<AdapterView>,
)
    ensures
        live_adapter(profile, profile.vpn, adapters) is Some <==> exists|a: int|
            0 <= a < adapters.len() && is_live(profile, #[trigger] adapters[a]),
        live_adapter(profile, profile.vpn, adapters) matches Some(adapter) ==> exists|a: int|
            0 <= a < adapters.len() && adapter == adapters[a] && is_live(
                profile,
                #[trigger] adapters[a],
            ) && forall|b: int| 0 <= b < a ==> !is_live(profile, #[trigger] adapters[b]),
{
    if let Some(description) = profile.adapter_description {
        let condition = selected_up(profile.vpn, description@);
        lemma_first_index(adapters, condition);
        lemma_first_exists(adapters, condition);
        assert forall|a: int| 0 <= a < adapters.len() implies condition(#[trigger] adapters[a])
            == is_live(profile, adapters[a]) by {}
        let at = first_index(adapters, condition);
        if at < adapters.len() {
            assert(is_live(profile, adapters[at]));
            assert forall|b: int| 0 <= b < at implies !is_live(profile, #[trigger] adapters[b]) by {
                assert(!condition(adapters[b]));
            }
        }
    }
}

/// A VPN has a route to a target just where the list of these is not empty.
proof fn lemma_targets(current: Seq<RouteView>, vpn: VpnKind)
    ensures
        current.filter(target_of_vpn(vpn)).len() > 0 <==> exists|i: int|
            0 <= i < current.len() && (#[trigger] current[i]).vpn == vpn && current[i].purpose
                == ManagedRoutePurpose::Target,
{
    let own = target_of_vpn(vpn);
    lemma_filter_members(current, own);
    if current.filter(own).len() > 0 {
        let route = current.filter(own)[0];
        assert(current.filter(own).contains(route));
        assert(current.contains(route));
        let i = choose|i: int| 0 <= i < current.len() && current[i] == route;
        assert(current[i].vpn == vpn);
    }
    if exists|i: int|
        0 <= i < current.len() && (#[trigger] current[i]).vpn == vpn && current[i].purpose
            == ManagedRoutePurpose::Target {
        let i = choose|i: int|
            0 <= i < current.len() && (#[trigger] current[i]).vpn == vpn && current[i].purpose
                == ManagedRoutePurpose::Target;
        assert(current.contains(current[i]));
        assert(current.filter(own).contains(current[i]));
    }
}

/// The profiles are the same but for being switched on.
pub open spec fn same_but_switches(left: Seq<VpnProfile>, right: Seq<VpnProfile>) -> bool {
    &&& left.len() == right.len()
    &&& forall|p: int|
        0 <= p < left.len() ==> {
            &&& (#[trigger] right[p]).vpn == left[p].vpn
            &&& right[p].networks == left[p].networks
            &&& right[p].adapter_description == left[p].adapter_description
        }
}

/// Profiles that agree but for their switches lead their VPNs alike.
proof fn lemma_leads_alike(left: Seq<VpnProfile>, right: Seq<VpnProfile>, p: int)
    requires
        same_but_switches(left, right),
    ensures
        leads_its_vpn(left, p) <==> leads_its_vpn(right, p),
{
    assert forall|q: int| 0 <= q < p && p < left.len() implies right[q].vpn == (
    #[trigger] left[q]).vpn by {
        assert(right[q].vpn == left[q].vpn);
    }
    if 0 <= p < left.len() {
        assert(right[p].vpn == left[p].vpn);
    }
}

/// What was reported stays reported.
pub open spec fn all_reported(some: Seq<VpnKind>, all: Seq<VpnKind>) -> bool {
    forall|k: int| 0 <= k < some.len() ==> all.contains(#[trigger] some[k])
}

/// What is reported in the end was reported at some time.
proof fn lemma_reported(some: Seq<VpnKind>, all: Seq<VpnKind>, vpn: VpnKind)
    requires
        all_reported(some, all),
        some.contains(vpn),
    ensures
        all.contains(vpn),
{
    let k = choose|k: int| 0 <= k < some.len() && some[k] == vpn;
    assert(all.contains(some[k]));
}

/// One VPN's turn switches its profile off where it cannot go on, reports it then, and does
/// nothing else to the profiles.
proof fn lemma_turn(
    check: CheckView,
    vpn: VpnKind,
    current: Seq<RouteView>,
    adapters: Seq<AdapterView>,
    p: int,
)
    requires
        0 <= p < check.profiles.len(),
    ensures
        ({
            let next = check.with_vpn(vpn, current, adapters);
            let goes = leads_its_vpn(check.profiles, p) && check.profiles[p].vpn == vpn
                && check.profiles[p].enabled && !can_stay(check.profiles[p], current, adapters);
            &&& same_but_switches(check.profiles, next.profiles)
            &&& next.profiles[p].enabled == (check.profiles[p].enabled && !goes)
            &&& check.profiles[p].vpn == vpn && leads_its_vpn(check.profiles, p)
                ==> next.disabled_vpns == (if goes {
                check.disabled_vpns.push(vpn)
            } else {
                check.disabled_vpns
            })
            &&& goes ==> next.disabled_vpns.contains(vpn)
            &&& all_reported(check.disabled_vpns, next.disabled_vpns)
        }),
{
    let next = check.with_vpn(vpn, current, adapters);
    assert(all_reported(check.disabled_vpns, next.disabled_vpns)) by {
        assert forall|k: int| 0 <= k < check.disabled_vpns.len() implies next.disabled_vpns.contains(
            #[trigger] check.disabled_vpns[k],
        ) by {
            assert(next.disabled_vpns[k] == check.disabled_vpns[k]);
        }
    }
    lemma_profile_index(check.profiles, vpn);
    let index = profile_index(check.profiles, vpn);
    if index < check.profiles.len() {
        let profile = check.profiles[index];
        law_profile_uses_its_first_live_interface(profile, adapters);
        lemma_targets(current, vpn);
        assert(can_stay(profile, current, adapters) <==> live_adapter(
            profile,
            vpn,
            adapters,
        ) is Some && current.filter(target_of_vpn(vpn)).len() > 0);
    }
    assert forall|q: int| 0 <= q < check.profiles.len() implies {
        &&& (#[trigger] next.profiles[q]).vpn == check.profiles[q].vpn
        &&& next.profiles[q].networks == check.profiles[q].networks
        &&& next.profiles[q].adapter_description == check.profiles[q].adapter_description
    } by {
        law_switch_changes_one_profile(check.profiles, vpn, false, q);
    }
    law_switch_changes_one_profile(check.profiles, vpn, false, p);
    if leads_its_vpn(check.profiles, p) && check.profiles[p].vpn == vpn {
        assert(index == p) by {
            if index < p {
                assert(check.profiles[index].vpn != check.profiles[p].vpn);
            }
        }
        if next.disabled_vpns.len() > check.disabled_vpns.len() {
            assert(next.disabled_vpns[check.disabled_vpns.len() as int] == vpn);
        }
    } else if index == p {
        assert(leads_its_vpn(check.profiles, p));
    }
}

/// What can stay does not depend on the switch.
proof fn lemma_stay_alike(
    left: VpnProfile,
    right: VpnProfile,
    current: Seq<RouteView>,
    adapters: Seq<AdapterView>,
)
    requires
        left.vpn == right.vpn,
        left.adapter_description == right.adapter_description,
    ensures
        can_stay(left, current, adapters) == can_stay(right, current, adapters),
{
    assert forall|a: int| 0 <= a < adapters.len() implies is_live(left, #[trigger] adapters[a])
        == is_live(right, adapters[a]) by {}
}

/// What all three turns do to one profile.
proof fn lemma_three_turns(
    first: CheckView,
    second: CheckView,
    third: CheckView,
    last: CheckView,
    current: Seq<RouteView>,
    adapters: Seq<AdapterView>,
    p: int,
)
    requires
        0 <= p < first.profiles.len(),
        second.profiles == first.with_vpn(VpnKind::FortiClient, current, adapters).profiles,
        second.disabled_vpns == first.with_vpn(
            VpnKind::FortiClient,
            current,
            adapters,
        ).disabled_vpns,
        third.profiles == second.with_vpn(VpnKind::F5, current, adapters).profiles,
        third.disabled_vpns == second.with_vpn(VpnKind::F5, current, adapters).disabled_vpns,
        last.profiles == third.with_vpn(VpnKind::Ivanti, current, adapters).profiles,
        last.disabled_vpns == third.with_vpn(VpnKind::Ivanti, current, adapters).disabled_vpns,
    ensures
        same_but_switches(first.profiles, last.profiles),
        last.profiles[p].enabled == (first.profiles[p].enabled && !(leads_its_vpn(
            first.profiles,
            p,
        ) && !can_stay(first.profiles[p], current, adapters))),
        first.profiles[p].enabled && !last.profiles[p].enabled ==> last.disabled_vpns.contains(
            first.profiles[p].vpn,
        ),
        first.disabled_vpns.contains(first.profiles[p].vpn) ==> last.disabled_vpns.contains(
            first.profiles[p].vpn,
        ),
{
    lemma_turn(first, VpnKind::FortiClient, current, adapters, p);
    lemma_leads_alike(first.profiles, second.profiles, p);
    lemma_stay_alike(first.profiles[p], second.profiles[p], current, adapters);
    lemma_turn(second, VpnKind::F5, current, adapters, p);
    lemma_leads_alike(second.profiles, third.profiles, p);
    lemma_stay_alike(second.profiles[p], third.profiles[p], current, adapters);
    lemma_turn(third, VpnKind::Ivanti, current, adapters, p);
    let own = first.profiles[p].vpn;
    if first.disabled_vpns.contains(own) {
        lemma_reported(first.disabled_vpns, second.disabled_vpns, own);
    }
    if second.disabled_vpns.contains(own) {
        lemma_reported(second.disabled_vpns, third.disabled_vpns, own);
    }
    if third.disabled_vpns.contains(own) {
        lemma_reported(third.disabled_vpns, last.disabled_vpns, own);
    }
    assert forall|q: int| 0 <= q < first.profiles.len() implies {
        &&& (#[trigger] last.profiles[q]).vpn == first.profiles[q].vpn
        &&& last.profiles[q].networks == first.profiles[q].networks
        &&& last.profiles[q].adapter_description == first.profiles[q].adapter_description
    } by {
        assert(third.profiles[q].vpn == second.profiles[q].vpn);
        assert(second.profiles[q].vpn == first.profiles[q].vpn);
    }
}

/// A health check that respects the system's own routes switches off just the VPNs that
/// cannot go on: those whose chosen interface is not connected, or that have no route to a
/// target left. Nothing else of a profile changes, and what is switched off is reported.
pub proof fn law_only_lost_vpns_are_switched_off(
    current: Seq<RouteView>,
    profiles: Seq<VpnProfile>,
    adapters: Seq<AdapterView>,
    gateway: Option<GatewayView>,
    native: Seq<NativeRouteView>,
    p: int,
)
    requires
        desired_with_native(current, profiles, adapters, gateway, native) is Ok,
        0 <= p < profiles.len(),
    ensures
        ({
            let plan = desired_with_native(current, profiles, adapters, gateway, native)->Ok_0;
            &&& same_but_switches(profiles, plan.profiles)
            &&& plan.profiles[p].enabled == (profiles[p].enabled && (leads_its_vpn(profiles, p)
                ==> can_stay(profiles[p], current, adapters)))
            &&& profiles[p].enabled && !plan.profiles[p].enabled ==> plan.disabled_vpns.contains(
                profiles[p].vpn,
            )
        }),
{
    let first = started(profiles);
    let second = first.with_vpn(VpnKind::FortiClient, current, adapters);
    let third = second.with_vpn(VpnKind::F5, current, adapters);
    let last = third.with_vpn(VpnKind::Ivanti, current, adapters);
    assert(last == checked(profiles, current, adapters));
    lemma_three_turns(first, second, third, last, current, adapters, p);
}

/// The VPN had a route that leads everything else back.
pub open spec fn led_back(current: Seq<RouteView>, vpn: VpnKind) -> bool {
    exists|i: int|
        0 <= i < current.len() && (#[trigger] current[i]).vpn == vpn && current[i].purpose
            == ManagedRoutePurpose::InternetBypass
}

/// Of several VPNs that take all traffic the one stays that has led everything else back so
/// far, the first of them where several have; where none has, the first stays.
pub proof fn law_tunnel_in_use_stays(full_tunnels: Seq<VpnKind>, current: Seq<RouteView>)
    requires
        full_tunnels.len() > 0,
    ensures
        full_tunnels.contains(kept_tunnel(full_tunnels, current)),
        (exists|k: int| 0 <= k < full_tunnels.len() && led_back(current, #[trigger] full_tunnels[k]))
            ==> led_back(current, kept_tunnel(full_tunnels, current)) && exists|k: int|
            0 <= k < full_tunnels.len() && #[trigger] full_tunnels[k] == kept_tunnel(
                full_tunnels,
                current,
            ) && forall|j: int| 0 <= j < k ==> !led_back(current, #[trigger] full_tunnels[j]),
        (forall|k: int|
            0 <= k < full_tunnels.len() ==> !led_back(current, #[trigger] full_tunnels[k]))
            ==> kept_tunnel(full_tunnels, current) == full_tunnels[0],
{
    let property = has_bypass(current);
    assert forall|vpn: VpnKind| #[trigger] property(vpn) == led_back(current, vpn) by {
        lemma_first_exists(current, bypass_of_vpn(vpn));
        if property(vpn) {
            let i = choose|i: int|
                0 <= i < current.len() && bypass_of_vpn(vpn)(#[trigger] current[i]);
            assert(current[i].vpn == vpn);
        }
        if led_back(current, vpn) {
            let i = choose|i: int|
                0 <= i < current.len() && (#[trigger] current[i]).vpn == vpn && current[i].purpose
                    == ManagedRoutePurpose::InternetBypass;
            assert(bypass_of_vpn(vpn)(current[i]));
        }
    }
    lemma_first_index(full_tunnels, property);
    let at = first_index(full_tunnels, property);
    if at < full_tunnels.len() {
        assert(full_tunnels[at] == kept_tunnel(full_tunnels, current));
        assert(property(full_tunnels[at]));
        assert forall|j: int| 0 <= j < at implies !led_back(current, #[trigger] full_tunnels[j]) by {
            assert(!property(full_tunnels[j]));
        }
    } else {
        assert forall|k: int| 0 <= k < full_tunnels.len() implies !led_back(
            current,
            #[trigger] full_tunnels[k],
        ) by {
            assert(!property(full_tunnels[k]));
        }
    }
}

/// Rivals are switched off, and nobody else.
proof fn lemma_rivals(check: CheckView, full_tunnels: Seq<VpnKind>, kept: VpnKind, p: int)
    requires
        0 <= p < check.profiles.len(),
    ensures
        ({
            let after = without_rivals(check, full_tunnels, kept);
            &&& same_but_switches(check.profiles, after.profiles)
            &&& after.profiles[p].enabled == (check.profiles[p].enabled && !(leads_its_vpn(
                check.profiles,
                p,
            ) && check.profiles[p].vpn != kept && full_tunnels.contains(check.profiles[p].vpn)))
            &&& check.profiles[p].enabled && !after.profiles[p].enabled
                ==> after.disabled_vpns.contains(check.profiles[p].vpn)
        }),
    decreases full_tunnels.len(),
{
    if full_tunnels.len() > 0 {
        let front = full_tunnels.drop_last();
        let vpn = full_tunnels.last();
        let before = without_rivals(check, front, kept);
        let after = without_rivals(check, full_tunnels, kept);
        lemma_rivals(check, front, kept, p);
        lemma_leads_alike(check.profiles, before.profiles, p);
        law_switch_changes_one_profile(before.profiles, vpn, false, p);
        assert forall|q: int| 0 <= q < check.profiles.len() implies {
            &&& (#[trigger] after.profiles[q]).vpn == check.profiles[q].vpn
            &&& after.profiles[q].networks == check.profiles[q].networks
            &&& after.profiles[q].adapter_description == check.profiles[q].adapter_description
        } by {
            assert(before.profiles[q].vpn == check.profiles[q].vpn);
            law_switch_changes_one_profile(before.profiles, vpn, false, q);
        }
        let own = check.profiles[p].vpn;
        assert(all_reported(before.disabled_vpns, after.disabled_vpns)) by {
            assert forall|k: int|
                0 <= k < before.disabled_vpns.len() implies after.disabled_vpns.contains(
                #[trigger] before.disabled_vpns[k],
            ) by {
                assert(after.disabled_vpns[k] == before.disabled_vpns[k]);
            }
        }
        if before.disabled_vpns.contains(own) {
            lemma_reported(before.disabled_vpns, after.disabled_vpns, own);
        }
        if after.disabled_vpns.len() > before.disabled_vpns.len() {
            assert(after.disabled_vpns[before.disabled_vpns.len() as int] == vpn);
        }
        assert(full_tunnels.contains(own) <==> front.contains(own) || vpn == own) by {
            if full_tunnels.contains(own) {
                let k = choose|k: int| 0 <= k < full_tunnels.len() && full_tunnels[k] == own;
                if k < front.len() {
                    assert(front[k] == own);
                }
            }
            if front.contains(own) {
                let k = choose|k: int| 0 <= k < front.len() && front[k] == own;
                assert(full_tunnels[k] == own);
            }
            assert(full_tunnels[full_tunnels.len() - 1] == vpn);
        }
    }
}

/// A VPN that takes all traffic while another one stays in its place.
pub open spec fn is_rival(
    profiles: Seq<VpnProfile>,
    current: Seq<RouteView>,
    adapters: Seq<AdapterView>,
    vpn: VpnKind,
) -> bool {
    let full_tunnels = full_tunnel_vpns(profiles, adapters);
    &&& full_tunnels.len() > 1
    &&& full_tunnels.contains(vpn)
    &&& vpn != kept_tunnel(full_tunnels, current)
}

/// A health check switches off just the VPNs that cannot go on and the rivals of the VPN
/// that takes all traffic. Nothing else of a profile changes, and what is switched off is
/// reported.
pub proof fn law_only_lost_vpns_and_rivals_are_switched_off(
    current: Seq<RouteView>,
    profiles: Seq<VpnProfile>,
    adapters: Seq<AdapterView>,
    gateway: Option<GatewayView>,
    p: int,
)
    requires
        desired_physical(current, profiles, adapters, gateway) is Ok,
        0 <= p < profiles.len(),
    ensures
        ({
            let plan = desired_physical(current, profiles, adapters, gateway)->Ok_0;
            &&& same_but_switches(profiles, plan.profiles)
            &&& plan.profiles[p].enabled == (profiles[p].enabled && (leads_its_vpn(profiles, p)
                ==> can_stay(profiles[p], current, adapters) && !is_rival(
                profiles,
                current,
                adapters,
                profiles[p].vpn,
            )))
            &&& profiles[p].enabled && !plan.profiles[p].enabled ==> plan.disabled_vpns.contains(
                profiles[p].vpn,
            )
        }),
{
    let first = one_tunnel_started(profiles, current, adapters);
    let second = physical_step(first, VpnKind::FortiClient, current, adapters, gateway)->Ok_0;
    let third = physical_step(second, VpnKind::F5, current, adapters, gateway)->Ok_0;
    let last = physical_step(third, VpnKind::Ivanti, current, adapters, gateway)->Ok_0;
    assert(physical_checked(profiles, current, adapters, gateway) == Ok::<CheckView, Seq<char>>(
        last,
    ));
    let full_tunnels = full_tunnel_vpns(profiles, adapters);
    if full_tunnels.len() > 1 {
        lemma_rivals(
            started(profiles),
            full_tunnels,
            kept_tunnel(full_tunnels, current),
            p,
        );
    }
    assert(same_but_switches(profiles, first.profiles));
    lemma_three_turns(first, second, third, last, current, adapters, p);
    lemma_leads_alike(profiles, first.profiles, p);
    lemma_stay_alike(profiles[p], first.profiles[p], current, adapters);
    let plan = desired_physical(current, profiles, adapters, gateway)->Ok_0;
    assert(plan.profiles == last.profiles);
    assert forall|q: int| 0 <= q < profiles.len() implies {
        &&& (#[trigger] plan.profiles[q]).vpn == profiles[q].vpn
        &&& plan.profiles[q].networks == profiles[q].networks
        &&& plan.profiles[q].adapter_description == profiles[q].adapter_description
    } by {
        assert(first.profiles[q].vpn == profiles[q].vpn);
    }
}

/// Routes that are moved to an interface lead through it, to where they led before.
pub proof fn law_moved_routes_lead_through_the_interface(
    routes: Seq<RouteView>,
    adapter: AdapterView,
    i: int,
)
    requires
        0 <= i < routes.len(),
    ensures
        moved_routes(routes, adapter).len() == routes.len(),
        moved_routes(routes, adapter)[i].interface_index == adapter.index,
        moved_routes(routes, adapter)[i].next_hop == adapter.next_hop,
        moved_routes(routes, adapter)[i].prefix == routes[i].prefix,
        moved_routes(routes, adapter)[i].vpn == routes[i].vpn,
        moved_routes(routes, adapter)[i].purpose == routes[i].purpose,
        moved_routes(routes, adapter)[i].route_metric == routes[i].route_metric,
{
}

/// A health check that knows what it wants reports just that once it is in force: the
/// routes have to be replaced where they are not the wanted ones, the rules always, and a
/// failure at either is told. It counts as a repair where something changed.
pub proof fn law_repair_is_reported_where_it_happened(
    plan: Result<HealthPlanView, Seq<char>>,
    existing: Seq<RouteView>,
    adapters: Seq<AdapterView>,
    gateway: Option<GatewayView>,
    replies: HealthReplies,
)
    ensures
        ({
            let wanted = plan->Ok_0;
            let right = existing.len() == wanted.routes.len() && forall|i: int|
                0 <= i < existing.len() ==> wanted.routes.contains(#[trigger] existing[i]);
            let outcome = health_outcome(plan, existing, adapters, gateway, replies);
            &&& outcome is Updated <==> plan is Ok && (right || replies.routes is Ok)
                && replies.rules is Ok
            &&& outcome is Updated || outcome is Failed
            &&& plan is Err ==> outcome == HealthOutcomeView::Failed(plan->Err_0)
            &&& outcome is Updated ==> {
                &&& outcome->routes == wanted.routes
                &&& outcome->profiles == wanted.profiles
                &&& outcome->adapters == adapters
                &&& outcome->gateway == gateway
                &&& outcome->disabled_vpns == wanted.disabled_vpns
                &&& outcome->warnings == wanted.warnings
                &&& outcome->repaired == (!right || replies.rules->Ok_0)
            }
        }),
{
}

/// A look at the routes goes on to repair only where the table is not what it should be, or
/// where the interfaces have to be looked at anyway; otherwise everything is in order. What
/// cannot be read is a failure.
pub proof fn law_routes_in_order_are_left_alone(
    current: Seq<RouteView>,
    profiles: Seq<VpnProfile>,
    refresh: bool,
    existing: Result<Seq<RouteView>, Seq<char>>,
    discovery: Discovery,
    replies: HealthReplies,
)
    ensures
        ({
            let found = existing->Ok_0;
            let right = found.len() == current.len() && forall|i: int|
                0 <= i < found.len() ==> current.contains(#[trigger] found[i]);
            let outcome = health_run_outcome(
                current,
                profiles,
                refresh,
                existing,
                discovery,
                replies,
            );
            &&& existing is Err ==> outcome is Failed
            &&& existing is Ok && !refresh && right ==> outcome is Healthy
            &&& existing is Ok && (refresh || !right) ==> outcome !is Healthy
            &&& existing is Ok && (refresh || !right) && (discovery.adapters is Err
                || discovery.gateway is Err) ==> outcome is Failed
            &&& existing is Ok && (refresh || !right) && discovery.adapters is Ok
                && discovery.gateway is Ok ==> outcome == health_outcome(
                desired_physical(
                    current,
                    profiles,
                    discovery.adapters->Ok_0,
                    discovery.gateway->Ok_0,
                ),
                found,
                discovery.adapters->Ok_0,
                discovery.gateway->Ok_0,
                replies,
            )
        }),
{
}

} // verus!
