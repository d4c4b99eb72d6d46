//! What holds of the routes that a health check wants.

use vstd::prelude::*;

use crate::domain::{
    distinct_vpns, is_enabled, lemma_only_profile, lemma_profile_index, only_disabled,
    profile_index, profile_of, VpnKind, VpnProfile,
};
use crate::health::{live_adapter, moved_routes, started, with_enabled, CheckView};
use crate::lists::{
    lemma_filter_all, lemma_filter_members, lemma_filter_no, lemma_first_index, lemma_is_first,
};
use crate::physical::{physical_bypass_routes, physical_servers, with_all_names};
use crate::physical_health::{
    bypass_of_vpn, desired_physical, kept_tunnel, named_profiles, one_tunnel_started,
    physical_checked, physical_step, without_rivals,
};
use crate::physical_laws::{extends, lemma_names_extend, server_route_of};
use crate::preparation::{general_rule, vpn_rule, with_servers, PreparedView};
use crate::routes::target_of_vpn;
use crate::selection::{
    distinct_addresses, enabled_full_tunnel, full_tunnel_vpns, selected, selected_up, selection,
};
use crate::validation::ValidatedView;
use crate::windows::{AdapterView, GatewayView, ManagedRoutePurpose, RouteView};

verus! {

/// Enabling or disabling a profile changes that profile and no other.
pub proof fn lemma_with_enabled(profiles: Seq<VpnProfile>, vpn: VpnKind, enabled: bool)
    ensures
        with_enabled(profiles, vpn, enabled).len() == profiles.len(),
        forall|other: VpnKind|
            #![trigger profile_of(with_enabled(profiles, vpn, enabled), other)]
            profile_of(with_enabled(profiles, vpn, enabled), other) == if other == vpn {
                match profile_of(profiles, vpn) {
                    Some(profile) => Some(VpnProfile { enabled, ..profile }),
                    None => None,
                }
            } else {
                profile_of(profiles, other)
            },
        !enabled ==> only_disabled(profiles, with_enabled(profiles, vpn, enabled)) || !is_enabled(
            profiles,
            vpn,
        ),
{
    let after = with_enabled(profiles, vpn, enabled);
    lemma_profile_index(profiles, vpn);
    assert forall|other: VpnKind|
        #![trigger profile_of(after, other)]
        profile_of(after, other) == if other == vpn {
            match profile_of(profiles, vpn) {
                Some(profile) => Some(VpnProfile { enabled, ..profile }),
                None => None,
            }
        } else {
            profile_of(profiles, other)
        } by {
        lemma_profile_index(profiles, other);
        lemma_profile_index(after, other);
        let old_index = profile_index(profiles, other);
        let new_index = profile_index(after, other);
        assert(forall|i: int| 0 <= i < profiles.len() ==> (#[trigger] after[i]).vpn == profiles[i].vpn);
        if new_index < old_index {
            assert(after[new_index].vpn == profiles[new_index].vpn);
        }
        if old_index < new_index {
            assert(after[old_index].vpn == profiles[old_index].vpn);
        }
    }
}

/// Being disabled in two steps is being disabled.
pub proof fn lemma_only_disabled(a: Seq<VpnProfile>, b: Seq<VpnProfile>, c: Seq<VpnProfile>)
    requires
        only_disabled(a, b),
        only_disabled(b, c),
    ensures
        only_disabled(a, c),
{
    assert forall|i: int| 0 <= i < a.len() implies (#[trigger] c[i]) == a[i] || (a[i].enabled
        && c[i] == VpnProfile { enabled: false, ..a[i] }) by {
        assert(b[i] == a[i] || (a[i].enabled && b[i] == VpnProfile { enabled: false, ..a[i] }));
    }
}

/// What a VPN adds to the routes: those for its targets through its interface as it is
/// now, and where it takes all traffic those that lead everything else back.
pub open spec fn segment(
    profiles: Seq<VpnProfile>,
    current: Seq<RouteView>,
    adapters: Seq<AdapterView>,
    gateway: Option<GatewayView>,
    vpn: VpnKind,
) -> Seq<RouteView> {
    if !is_enabled(profiles, vpn) {
        Seq::empty()
    } else {
        let adapter = live_adapter(profile_of(profiles, vpn)->0, vpn, adapters)->0;
        let targets = moved_routes(current.filter(target_of_vpn(vpn)), adapter);
        if adapter.full_tunnel_priority is Some {
            targets + physical_bypass_routes(vpn, gateway->0)
        } else {
            targets
        }
    }
}

/// Where the profile of the VPN is enabled, it can go on.
pub open spec fn can_go_on(
    profiles: Seq<VpnProfile>,
    current: Seq<RouteView>,
    adapters: Seq<AdapterView>,
    gateway: Option<GatewayView>,
    vpn: VpnKind,
) -> bool {
    is_enabled(profiles, vpn) ==> {
        &&& live_adapter(profile_of(profiles, vpn)->0, vpn, adapters) matches Some(adapter)
        &&& current.filter(target_of_vpn(vpn)).len() > 0
        &&& adapter.full_tunnel_priority is Some ==> gateway is Some
    }
}

/// The VPNs in the list have a profile, which is disabled.
pub open spec fn all_given_up(profiles: Seq<VpnProfile>, vpns: Seq<VpnKind>) -> bool {
    forall|k: int|
        0 <= k < vpns.len() ==> profile_of(profiles, #[trigger] vpns[k]) is Some && !is_enabled(
            profiles,
            vpns[k],
        )
}

/// One step of a health check.
proof fn lemma_step(
    check: CheckView,
    vpn: VpnKind,
    current: Seq<RouteView>,
    adapters: Seq<AdapterView>,
    gateway: Option<GatewayView>,
)
    requires
        physical_step(check, vpn, current, adapters, gateway) is Ok,
    ensures
        ({
            let next = physical_step(check, vpn, current, adapters, gateway)->Ok_0;
            &&& only_disabled(check.profiles, next.profiles)
            &&& forall|other: VpnKind|
                other != vpn ==> #[trigger] profile_of(next.profiles, other) == profile_of(
                    check.profiles,
                    other,
                )
            &&& can_go_on(next.profiles, current, adapters, gateway, vpn)
            &&& next.routes == check.routes + segment(
                next.profiles,
                current,
                adapters,
                gateway,
                vpn,
            )
            &&& all_given_up(check.profiles, check.disabled_vpns) ==> all_given_up(
                next.profiles,
                next.disabled_vpns,
            )
        }),
{
    let next = physical_step(check, vpn, current, adapters, gateway)->Ok_0;
    lemma_with_enabled(check.profiles, vpn, false);
    let added = segment(next.profiles, current, adapters, gateway, vpn);
    if is_enabled(check.profiles, vpn) {
        if is_enabled(next.profiles, vpn) {
            let adapter = live_adapter(
                profile_of(check.profiles, vpn)->0,
                vpn,
                adapters,
            )->0;
            let targets = moved_routes(current.filter(target_of_vpn(vpn)), adapter);
            assert(next.profiles == check.profiles);
            if adapter.full_tunnel_priority is Some {
                assert(next.routes =~= check.routes + added);
            } else {
                assert(next.routes =~= check.routes + added);
            }
        } else {
            assert(next.profiles == with_enabled(check.profiles, vpn, false));
            assert(next.routes =~= check.routes + added);
            if all_given_up(check.profiles, check.disabled_vpns) {
                assert forall|k: int| 0 <= k < next.disabled_vpns.len() implies profile_of(
                    next.profiles,
                    #[trigger] next.disabled_vpns[k],
                ) is Some && !is_enabled(next.profiles, next.disabled_vpns[k]) by {
                    if k < check.disabled_vpns.len() {
                        assert(next.disabled_vpns[k] == check.disabled_vpns[k]);
                        assert(profile_of(check.profiles, check.disabled_vpns[k]) is Some);
                    }
                }
            }
        }
    } else {
        assert(next == check);
        assert(next.routes =~= check.routes + added);
    }
}

/// Disabling the rivals of a VPN.
proof fn lemma_without_rivals(check: CheckView, vpns: Seq<VpnKind>, kept: VpnKind)
    requires
        forall|k: int|
            0 <= k < vpns.len() ==> profile_of(check.profiles, #[trigger] vpns[k]) is Some,
        all_given_up(check.profiles, check.disabled_vpns),
    ensures
        ({
            let next = without_rivals(check, vpns, kept);
            &&& only_disabled(check.profiles, next.profiles)
            &&& next.routes == check.routes
            &&& next.full_tunnels == check.full_tunnels
            &&& all_given_up(next.profiles, next.disabled_vpns)
            &&& forall|k: int|
                0 <= k < vpns.len() && (#[trigger] vpns[k]) != kept ==> !is_enabled(
                    next.profiles,
                    vpns[k],
                )
            &&& forall|vpn: VpnKind| #[trigger]
                profile_of(next.profiles, vpn) is Some <==> profile_of(check.profiles, vpn) is Some
        }),
    decreases vpns.len(),
{
    if vpns.len() > 0 {
        let front = vpns.drop_last();
        let last = vpns.last();
        assert forall|k: int| 0 <= k < front.len() implies profile_of(
            check.profiles,
            #[trigger] front[k],
        ) is Some by {
            assert(front[k] == vpns[k]);
        }
        lemma_without_rivals(check, front, kept);
        let before = without_rivals(check, front, kept);
        let next = without_rivals(check, vpns, kept);
        assert(profile_of(check.profiles, vpns[vpns.len() - 1]) is Some);
        if last != kept {
            lemma_with_enabled(before.profiles, last, false);
            lemma_profile_index(before.profiles, last);
            assert(only_disabled(before.profiles, next.profiles)) by {
                if !is_enabled(before.profiles, last) {
                    assert(next.profiles =~= before.profiles);
                }
            }
            lemma_only_disabled(check.profiles, before.profiles, next.profiles);
            assert forall|k: int| 0 <= k < next.disabled_vpns.len() implies profile_of(
                next.profiles,
                #[trigger] next.disabled_vpns[k],
            ) is Some && !is_enabled(next.profiles, next.disabled_vpns[k]) by {
                if k < before.disabled_vpns.len() {
                    assert(next.disabled_vpns[k] == before.disabled_vpns[k]);
                    assert(profile_of(before.profiles, before.disabled_vpns[k]) is Some);
                }
            }
        }
        assert forall|k: int| 0 <= k < vpns.len() && (#[trigger] vpns[k]) != kept implies !is_enabled(
            next.profiles,
            vpns[k],
        ) by {
            if k < front.len() {
                assert(front[k] == vpns[k]);
                assert(!is_enabled(before.profiles, front[k]));
            }
        }
    }
}

/// The VPNs that take all traffic are those of the profiles that do.
proof fn lemma_full_tunnel_members(profiles: Seq<VpnProfile>, adapters: Seq<AdapterView>)
    ensures
        forall|i: int|
            0 <= i < profiles.len() && enabled_full_tunnel(adapters)(#[trigger] profiles[i])
                ==> full_tunnel_vpns(profiles, adapters).contains(profiles[i].vpn),
        forall|k: int|
            0 <= k < full_tunnel_vpns(profiles, adapters).len() ==> profile_of(
                profiles,
                #[trigger] full_tunnel_vpns(profiles, adapters)[k],
            ) is Some,
    decreases profiles.len(),
{
    if profiles.len() > 0 {
        let front = profiles.drop_last();
        lemma_full_tunnel_members(front, adapters);
        let before = full_tunnel_vpns(front, adapters);
        let all = full_tunnel_vpns(profiles, adapters);
        assert forall|i: int|
            0 <= i < profiles.len() && enabled_full_tunnel(adapters)(
                #[trigger] profiles[i],
            ) implies all.contains(profiles[i].vpn) by {
            if i < front.len() {
                assert(enabled_full_tunnel(adapters)(front[i]));
                assert(before.contains(front[i].vpn));
                let k = choose|k: int| 0 <= k < before.len() && before[k] == front[i].vpn;
                assert(all[k] == before[k]);
            } else {
                assert(all[before.len() as int] == profiles[i].vpn);
            }
        }
        assert forall|k: int| 0 <= k < all.len() implies profile_of(
            profiles,
            #[trigger] all[k],
        ) is Some by {
            lemma_profile_index(profiles, all[k]);
            if k < before.len() {
                assert(profile_of(front, before[k]) is Some);
                lemma_profile_index(front, before[k]);
                let at = profile_index(front, before[k]);
                assert(profiles[at] == front[at]);
            } else {
                assert(profiles[profiles.len() - 1].vpn == all[k]);
            }
        }
    }
}

/// Where only profiles of one VPN take all traffic, and no VPN has two, at most one
/// does.
proof fn lemma_at_most_one(profiles: Seq<VpnProfile>, adapters: Seq<AdapterView>, kept: VpnKind)
    requires
        distinct_vpns(profiles),
        forall|i: int|
            0 <= i < profiles.len() && enabled_full_tunnel(adapters)(#[trigger] profiles[i])
                ==> profiles[i].vpn == kept,
    ensures
        full_tunnel_vpns(profiles, adapters).len() <= 1,
        full_tunnel_vpns(profiles, adapters).len() == 1 ==> exists|i: int|
            0 <= i < profiles.len() && (#[trigger] profiles[i]).vpn == kept,
    decreases profiles.len(),
{
    if profiles.len() > 0 {
        let front = profiles.drop_last();
        assert forall|i: int, j: int| 0 <= i < j < front.len() implies (#[trigger] front[i]).vpn
            != (#[trigger] front[j]).vpn by {
            assert(profiles[i].vpn != profiles[j].vpn);
        }
        assert forall|i: int|
            0 <= i < front.len() && enabled_full_tunnel(adapters)(#[trigger] front[i]) implies
            front[i].vpn == kept by {
            assert(enabled_full_tunnel(adapters)(profiles[i]));
        }
        lemma_at_most_one(front, adapters, kept);
        let last = profiles.len() - 1;
        if enabled_full_tunnel(adapters)(profiles[last]) {
            if full_tunnel_vpns(front, adapters).len() == 1 {
                let i = choose|i: int| 0 <= i < front.len() && (#[trigger] front[i]).vpn == kept;
                assert(profiles[i].vpn != profiles[last].vpn);
            }
            assert(profiles[last].vpn == kept);
        } else if full_tunnel_vpns(front, adapters).len() == 1 {
            let i = choose|i: int| 0 <= i < front.len() && (#[trigger] front[i]).vpn == kept;
            assert(profiles[i].vpn == kept);
        }
    }
}

/// Disabling profiles makes no more of them take all traffic.
proof fn lemma_fewer_full_tunnels(
    earlier: Seq<VpnProfile>,
    later: Seq<VpnProfile>,
    adapters: Seq<AdapterView>,
)
    requires
        only_disabled(earlier, later),
    ensures
        full_tunnel_vpns(later, adapters).len() <= full_tunnel_vpns(earlier, adapters).len(),
    decreases earlier.len(),
{
    if earlier.len() > 0 {
        let a = earlier.drop_last();
        let b = later.drop_last();
        assert forall|i: int| 0 <= i < a.len() implies (#[trigger] b[i]) == a[i] || (a[i].enabled
            && b[i] == VpnProfile { enabled: false, ..a[i] }) by {
            assert(b[i] == later[i] && a[i] == earlier[i]);
        }
        lemma_fewer_full_tunnels(a, b, adapters);
        let last = earlier.len() - 1;
        assert(later[last] == earlier[last] || (earlier[last].enabled && later[last]
            == VpnProfile { enabled: false, ..earlier[last] }));
    }
}

/// Disabling profiles leaves the VPNs distinct.
proof fn lemma_distinct_stays(earlier: Seq<VpnProfile>, later: Seq<VpnProfile>)
    requires
        only_disabled(earlier, later),
        distinct_vpns(earlier),
    ensures
        distinct_vpns(later),
{
    assert forall|i: int, j: int| 0 <= i < j < later.len() implies (#[trigger] later[i]).vpn != (
    #[trigger] later[j]).vpn by {
        assert(later[i].vpn == earlier[i].vpn && later[j].vpn == earlier[j].vpn);
    }
}

/// A health check starts with at most one VPN that takes all traffic.
proof fn lemma_one_tunnel_started(
    profiles: Seq<VpnProfile>,
    current: Seq<RouteView>,
    adapters: Seq<AdapterView>,
)
    ensures
        ({
            let start = one_tunnel_started(profiles, current, adapters);
            &&& only_disabled(profiles, start.profiles)
            &&& start.routes == Seq::<RouteView>::empty()
            &&& all_given_up(start.profiles, start.disabled_vpns)
            &&& distinct_vpns(profiles) ==> full_tunnel_vpns(start.profiles, adapters).len() <= 1
        }),
{
    let start = one_tunnel_started(profiles, current, adapters);
    let tunnels = full_tunnel_vpns(profiles, adapters);
    lemma_full_tunnel_members(profiles, adapters);
    if tunnels.len() > 1 {
        let kept = kept_tunnel(tunnels, current);
        lemma_without_rivals(started(profiles), tunnels, kept);
        if distinct_vpns(profiles) {
            lemma_distinct_stays(profiles, start.profiles);
            assert forall|i: int|
                0 <= i < start.profiles.len() && enabled_full_tunnel(adapters)(
                    #[trigger] start.profiles[i],
                ) implies start.profiles[i].vpn == kept by {
                assert(start.profiles[i] == profiles[i]);
                let vpn = profiles[i].vpn;
                assert(tunnels.contains(vpn));
                let k = choose|k: int| 0 <= k < tunnels.len() && tunnels[k] == vpn;
                lemma_only_profile(start.profiles, i);
                assert(is_enabled(start.profiles, tunnels[k]));
            }
            lemma_at_most_one(start.profiles, adapters, kept);
        }
    }
}

/// All steps of a health check.
proof fn lemma_checked(
    profiles: Seq<VpnProfile>,
    current: Seq<RouteView>,
    adapters: Seq<AdapterView>,
    gateway: Option<GatewayView>,
)
    requires
        physical_checked(profiles, current, adapters, gateway) is Ok,
    ensures
        ({
            let check = physical_checked(profiles, current, adapters, gateway)->Ok_0;
            &&& only_disabled(profiles, check.profiles)
            &&& distinct_vpns(profiles) ==> full_tunnel_vpns(check.profiles, adapters).len() <= 1
            &&& all_given_up(check.profiles, check.disabled_vpns)
            &&& forall|vpn: VpnKind| #[trigger]
                can_go_on(check.profiles, current, adapters, gateway, vpn)
            &&& check.routes == segment(
                check.profiles,
                current,
                adapters,
                gateway,
                VpnKind::FortiClient,
            ) + segment(check.profiles, current, adapters, gateway, VpnKind::F5) + segment(
                check.profiles,
                current,
                adapters,
                gateway,
                VpnKind::Ivanti,
            )
        }),
{
    let start = one_tunnel_started(profiles, current, adapters);
    lemma_one_tunnel_started(profiles, current, adapters);
    lemma_step(start, VpnKind::FortiClient, current, adapters, gateway);
    let first = physical_step(start, VpnKind::FortiClient, current, adapters, gateway)->Ok_0;
    lemma_step(first, VpnKind::F5, current, adapters, gateway);
    let second = physical_step(first, VpnKind::F5, current, adapters, gateway)->Ok_0;
    lemma_step(second, VpnKind::Ivanti, current, adapters, gateway);
    let check = physical_step(second, VpnKind::Ivanti, current, adapters, gateway)->Ok_0;
    lemma_only_disabled(profiles, start.profiles, first.profiles);
    lemma_only_disabled(profiles, first.profiles, second.profiles);
    lemma_only_disabled(profiles, second.profiles, check.profiles);
    lemma_fewer_full_tunnels(start.profiles, first.profiles, adapters);
    lemma_fewer_full_tunnels(first.profiles, second.profiles, adapters);
    lemma_fewer_full_tunnels(second.profiles, check.profiles, adapters);
    assert(profile_of(check.profiles, VpnKind::FortiClient) == profile_of(
        second.profiles,
        VpnKind::FortiClient,
    ));
    assert(profile_of(second.profiles, VpnKind::FortiClient) == profile_of(
        first.profiles,
        VpnKind::FortiClient,
    ));
    assert(profile_of(check.profiles, VpnKind::F5) == profile_of(second.profiles, VpnKind::F5));
    let a = segment(check.profiles, current, adapters, gateway, VpnKind::FortiClient);
    let b = segment(check.profiles, current, adapters, gateway, VpnKind::F5);
    let c = segment(check.profiles, current, adapters, gateway, VpnKind::Ivanti);
    assert(first.routes =~= a);
    assert(second.routes =~= a + b);
    assert(check.routes =~= a + b + c);
    assert forall|vpn: VpnKind| #[trigger]
        can_go_on(check.profiles, current, adapters, gateway, vpn) by {
        match vpn {
            VpnKind::FortiClient => {
                assert(can_go_on(first.profiles, current, adapters, gateway, vpn));
            },
            VpnKind::F5 => {
                assert(can_go_on(second.profiles, current, adapters, gateway, vpn));
            },
            VpnKind::Ivanti => {},
        }
    }
}

/// Routes that are moved stay routes of their VPN for its targets, and lead through the
/// interface.
pub proof fn lemma_moved(current: Seq<RouteView>, vpn: VpnKind, adapter: AdapterView)
    ensures
        forall|i: int|
            0 <= i < moved_routes(current.filter(target_of_vpn(vpn)), adapter).len()
                ==> moved_to(
                #[trigger] moved_routes(current.filter(target_of_vpn(vpn)), adapter)[i],
                vpn,
                adapter,
            ),
{
    let own = current.filter(target_of_vpn(vpn));
    lemma_filter_members(current, target_of_vpn(vpn));
    assert forall|i: int| 0 <= i < moved_routes(own, adapter).len() implies moved_to(
        #[trigger] moved_routes(own, adapter)[i],
        vpn,
        adapter,
    ) by {
        assert(own.contains(own[i]));
        assert(target_of_vpn(vpn)(own[i]));
    }
}

/// The route directs a target of the VPN to the interface.
pub open spec fn moved_to(route: RouteView, vpn: VpnKind, adapter: AdapterView) -> bool {
    &&& route.vpn == vpn
    &&& route.purpose == ManagedRoutePurpose::Target
    &&& route.interface_index == adapter.index
    &&& route.next_hop == adapter.next_hop
}

/// What a VPN adds are routes of its own: those for its targets, and those that lead
/// everything else back.
proof fn lemma_segment(
    profiles: Seq<VpnProfile>,
    current: Seq<RouteView>,
    adapters: Seq<AdapterView>,
    gateway: Option<GatewayView>,
    vpn: VpnKind,
    other: VpnKind,
)
    requires
        can_go_on(profiles, current, adapters, gateway, vpn),
    ensures
        segment(profiles, current, adapters, gateway, vpn).filter(target_of_vpn(other)) == if other
            == vpn {
            live_targets(profiles, current, adapters, vpn)
        } else {
            Seq::empty()
        },
        segment(profiles, current, adapters, gateway, vpn).filter(bypass_of_vpn(other)) == if other
            == vpn {
            live_bypass(profiles, adapters, gateway, vpn)
        } else {
            Seq::empty()
        },
        forall|i: int|
            0 <= i < segment(profiles, current, adapters, gateway, vpn).len() ==> live_fits(
                profiles,
                adapters,
                gateway,
                #[trigger] segment(profiles, current, adapters, gateway, vpn)[i],
            ),
{
    let all = segment(profiles, current, adapters, gateway, vpn);
    if !is_enabled(profiles, vpn) {
        lemma_filter_no(all, target_of_vpn(other));
        lemma_filter_no(all, bypass_of_vpn(other));
    } else {
        let adapter = live_adapter(profile_of(profiles, vpn)->0, vpn, adapters)->0;
        let targets = moved_routes(current.filter(target_of_vpn(vpn)), adapter);
        let back = live_bypass(profiles, adapters, gateway, vpn);
        lemma_moved(current, vpn, adapter);
        assert(all =~= targets + back);
        Seq::filter_distributes_over_add(targets, back, target_of_vpn(other));
        Seq::filter_distributes_over_add(targets, back, bypass_of_vpn(other));
        lemma_filter_no(back, target_of_vpn(other));
        lemma_filter_no(targets, bypass_of_vpn(other));
        if other == vpn {
            lemma_filter_all(targets, target_of_vpn(other));
            lemma_filter_all(back, bypass_of_vpn(other));
        } else {
            lemma_filter_no(targets, target_of_vpn(other));
            lemma_filter_no(back, bypass_of_vpn(other));
        }
        assert(targets + Seq::<RouteView>::empty() =~= targets);
        assert(Seq::<RouteView>::empty() + back =~= back);
        assert(Seq::<RouteView>::empty() + Seq::<RouteView>::empty() =~= Seq::<
            RouteView,
        >::empty());
        assert forall|i: int| 0 <= i < all.len() implies live_fits(
            profiles,
            adapters,
            gateway,
            #[trigger] all[i],
        ) by {
            if i < targets.len() {
                assert(all[i] == targets[i]);
            } else {
                assert(all[i] == back[i - targets.len()]);
            }
        }
    }
}

/// The routes for the targets of an enabled VPN, through its interface as it is now.
pub open spec fn live_targets(
    profiles: Seq<VpnProfile>,
    current: Seq<RouteView>,
    adapters: Seq<AdapterView>,
    vpn: VpnKind,
) -> Seq<RouteView> {
    if is_enabled(profiles, vpn) {
        moved_routes(
            current.filter(target_of_vpn(vpn)),
            live_adapter(profile_of(profiles, vpn)->0, vpn, adapters)->0,
        )
    } else {
        Seq::empty()
    }
}

/// The routes that lead everything else back for an enabled VPN that takes all traffic.
pub open spec fn live_bypass(
    profiles: Seq<VpnProfile>,
    adapters: Seq<AdapterView>,
    gateway: Option<GatewayView>,
    vpn: VpnKind,
) -> Seq<RouteView> {
    if is_enabled(profiles, vpn) && live_adapter(
        profile_of(profiles, vpn)->0,
        vpn,
        adapters,
    )->0.full_tunnel_priority is Some {
        physical_bypass_routes(vpn, gateway->0)
    } else {
        Seq::empty()
    }
}

/// The route belongs to an enabled VPN whose interface is connected, and leads through
/// that interface, or back to the ordinary network where the VPN takes all traffic.
pub open spec fn live_fits(
    profiles: Seq<VpnProfile>,
    adapters: Seq<AdapterView>,
    gateway: Option<GatewayView>,
    route: RouteView,
) -> bool {
    &&& is_enabled(profiles, route.vpn)
    &&& live_adapter(profile_of(profiles, route.vpn)->0, route.vpn, adapters) matches Some(adapter)
    &&& if route.purpose == ManagedRoutePurpose::InternetBypass {
        &&& adapter.full_tunnel_priority is Some
        &&& gateway matches Some(found)
        &&& route.interface_index == found.interface_index
        &&& route.next_hop == found.next_hop
    } else {
        &&& route.interface_index == adapter.index
        &&& route.next_hop == adapter.next_hop
    }
}

/// The interface that a profile uses is its first connected one with the description.
proof fn lemma_selection_is_live(
    profiles: Seq<VpnProfile>,
    vpn: VpnKind,
    adapters: Seq<AdapterView>,
)
    requires
        profile_of(profiles, vpn) is Some,
        selection(profiles, vpn, adapters) is Ok,
    ensures
        live_adapter(profile_of(profiles, vpn)->0, vpn, adapters) == Some(
            selection(profiles, vpn, adapters)->Ok_0,
        ),
{
    let description = profile_of(profiles, vpn)->0.adapter_description->0@;
    let one = selected(vpn, description);
    let up = selected_up(vpn, description);
    lemma_first_index(adapters, one);
    let at = crate::lists::first_index(adapters, one);
    assert forall|i: int| 0 <= i < at implies !up(#[trigger] adapters[i]) by {
        assert(!one(adapters[i]));
    }
    lemma_is_first(adapters, up, at);
}

/// The profiles with names are enabled ones.
proof fn lemma_named(profiles: Seq<VpnProfile>)
    requires
        named_profiles(profiles) is Ok,
    ensures
        forall|k: int|
            0 <= k < named_profiles(profiles)->Ok_0.len() ==> crate::domain::enabled_vpn(
                profiles,
                (#[trigger] named_profiles(profiles)->Ok_0[k]).vpn,
            ),
    decreases profiles.len(),
{
    if profiles.len() > 0 {
        let front = profiles.drop_last();
        lemma_named(front);
        let before = named_profiles(front)->Ok_0;
        let named = named_profiles(profiles)->Ok_0;
        assert forall|k: int| 0 <= k < named.len() implies crate::domain::enabled_vpn(
            profiles,
            (#[trigger] named[k]).vpn,
        ) by {
            if k < before.len() {
                assert(crate::domain::enabled_vpn(front, before[k].vpn));
                let i = choose|i: int|
                    0 <= i < front.len() && (#[trigger] front[i]).enabled && front[i].vpn
                        == before[k].vpn;
                assert(profiles[i].enabled);
            } else {
                assert(profiles[profiles.len() - 1].enabled);
            }
        }
    }
}

/// The routes of a plan are those of the check, and behind them routes to name servers.
proof fn lemma_plan(
    current: Seq<RouteView>,
    profiles: Seq<VpnProfile>,
    adapters: Seq<AdapterView>,
    gateway: Option<GatewayView>,
)
    requires
        desired_physical(current, profiles, adapters, gateway) is Ok,
    ensures
        ({
            let plan = desired_physical(current, profiles, adapters, gateway)->Ok_0;
            let check = physical_checked(profiles, current, adapters, gateway)->Ok_0;
            let named = named_profiles(check.profiles)->Ok_0;
            &&& physical_checked(profiles, current, adapters, gateway) is Ok
            &&& named_profiles(check.profiles) is Ok
            &&& plan.profiles == check.profiles
            &&& plan.disabled_vpns == check.disabled_vpns
            &&& check.routes.len() <= plan.routes.len()
            &&& plan.routes == check.routes + plan.routes.skip(check.routes.len() as int)
            &&& forall|i: int|
                0 <= i < plan.routes.skip(check.routes.len() as int).len() ==> server_route_of(
                    check.profiles,
                    adapters,
                    named,
                    #[trigger] plan.routes.skip(check.routes.len() as int)[i],
                )
        }),
{
    let plan = desired_physical(current, profiles, adapters, gateway)->Ok_0;
    let check = physical_checked(profiles, current, adapters, gateway)->Ok_0;
    let named = named_profiles(check.profiles)->Ok_0;
    let prepared = PreparedView {
        routes: check.routes,
        dns_rules: Seq::empty(),
        warnings: check.warnings,
    };
    let tail = plan.routes.skip(check.routes.len() as int);
    if named.len() > 0 {
        let physical = physical_servers(adapters, gateway)->Ok_0;
        lemma_names_extend(
            prepared.with_rule(general_rule(physical)),
            check.profiles,
            adapters,
            named,
        );
        assert(extends(check.routes, plan.routes));
        assert forall|i: int| 0 <= i < tail.len() implies server_route_of(
            check.profiles,
            adapters,
            named,
            #[trigger] tail[i],
        ) by {
            assert(tail[i] == plan.routes[check.routes.len() + i]);
        }
        assert(plan.routes =~= check.routes + tail) by {
            assert forall|i: int| 0 <= i < check.routes.len() implies plan.routes[i]
                == check.routes[i] by {
                assert(plan.routes.take(check.routes.len() as int)[i] == plan.routes[i]);
            }
        }
    } else {
        assert(plan.routes =~= check.routes + tail);
    }
}

/// The routes of a plan for the targets of a VPN, and those that lead everything else
/// back for it.
proof fn lemma_plan_routes_of(
    current: Seq<RouteView>,
    profiles: Seq<VpnProfile>,
    adapters: Seq<AdapterView>,
    gateway: Option<GatewayView>,
    vpn: VpnKind,
)
    requires
        desired_physical(current, profiles, adapters, gateway) is Ok,
    ensures
        ({
            let plan = desired_physical(current, profiles, adapters, gateway)->Ok_0;
            &&& plan.routes.filter(target_of_vpn(vpn)) == live_targets(
                plan.profiles,
                current,
                adapters,
                vpn,
            )
            &&& plan.routes.filter(bypass_of_vpn(vpn)) == live_bypass(
                plan.profiles,
                adapters,
                gateway,
                vpn,
            )
        }),
{
    let plan = desired_physical(current, profiles, adapters, gateway)->Ok_0;
    lemma_plan(current, profiles, adapters, gateway);
    lemma_checked(profiles, current, adapters, gateway);
    let check = physical_checked(profiles, current, adapters, gateway)->Ok_0;
    let p = check.profiles;
    let a = segment(p, current, adapters, gateway, VpnKind::FortiClient);
    let b = segment(p, current, adapters, gateway, VpnKind::F5);
    let c = segment(p, current, adapters, gateway, VpnKind::Ivanti);
    let tail = plan.routes.skip(check.routes.len() as int);
    assert(can_go_on(p, current, adapters, gateway, VpnKind::FortiClient));
    assert(can_go_on(p, current, adapters, gateway, VpnKind::F5));
    assert(can_go_on(p, current, adapters, gateway, VpnKind::Ivanti));
    lemma_segment(p, current, adapters, gateway, VpnKind::FortiClient, vpn);
    lemma_segment(p, current, adapters, gateway, VpnKind::F5, vpn);
    lemma_segment(p, current, adapters, gateway, VpnKind::Ivanti, vpn);
    lemma_filter_of_four(a, b, c, tail, target_of_vpn(vpn));
    lemma_filter_of_four(a, b, c, tail, bypass_of_vpn(vpn));
    lemma_filter_no(tail, target_of_vpn(vpn));
    lemma_filter_no(tail, bypass_of_vpn(vpn));
    let targets = live_targets(p, current, adapters, vpn);
    let back = live_bypass(p, adapters, gateway, vpn);
    match vpn {
        VpnKind::FortiClient => {
            assert(plan.routes.filter(target_of_vpn(vpn)) =~= targets);
            assert(plan.routes.filter(bypass_of_vpn(vpn)) =~= back);
        },
        VpnKind::F5 => {
            assert(plan.routes.filter(target_of_vpn(vpn)) =~= targets);
            assert(plan.routes.filter(bypass_of_vpn(vpn)) =~= back);
        },
        VpnKind::Ivanti => {
            assert(plan.routes.filter(target_of_vpn(vpn)) =~= targets);
            assert(plan.routes.filter(bypass_of_vpn(vpn)) =~= back);
        },
    }
}

/// Filtering four lists one behind the other.
pub proof fn lemma_filter_of_four(
    a: Seq<RouteView>,
    b: Seq<RouteView>,
    c: Seq<RouteView>,
    d: Seq<RouteView>,
    condition: spec_fn(RouteView) -> bool,
)
    ensures
        (a + b + c + d).filter(condition) == a.filter(condition) + b.filter(condition) + c.filter(
            condition,
        ) + d.filter(condition),
{
    Seq::filter_distributes_over_add(a + b + c, d, condition);
    Seq::filter_distributes_over_add(a + b, c, condition);
    Seq::filter_distributes_over_add(a, b, condition);
}

/// All the routes belong to enabled VPNs that are connected.
pub open spec fn all_live(
    profiles: Seq<VpnProfile>,
    adapters: Seq<AdapterView>,
    gateway: Option<GatewayView>,
    routes: Seq<RouteView>,
) -> bool {
    forall|i: int|
        0 <= i < routes.len() ==> live_fits(profiles, adapters, gateway, #[trigger] routes[i])
}

/// Two such lists make one.
proof fn lemma_live_together(
    profiles: Seq<VpnProfile>,
    adapters: Seq<AdapterView>,
    gateway: Option<GatewayView>,
    left: Seq<RouteView>,
    right: Seq<RouteView>,
)
    requires
        all_live(profiles, adapters, gateway, left),
        all_live(profiles, adapters, gateway, right),
    ensures
        all_live(profiles, adapters, gateway, left + right),
{
    assert forall|i: int| 0 <= i < (left + right).len() implies live_fits(
        profiles,
        adapters,
        gateway,
        #[trigger] (left + right)[i],
    ) by {
        if i < left.len() {
            assert((left + right)[i] == left[i]);
        } else {
            assert((left + right)[i] == right[i - left.len()]);
        }
    }
}

/// The routes to the name servers of enabled VPNs lead through their interfaces.
proof fn lemma_servers_live(
    profiles: Seq<VpnProfile>,
    adapters: Seq<AdapterView>,
    gateway: Option<GatewayView>,
    routes: Seq<RouteView>,
)
    requires
        distinct_vpns(profiles),
        named_profiles(profiles) is Ok,
        forall|i: int|
            0 <= i < routes.len() ==> server_route_of(
                profiles,
                adapters,
                named_profiles(profiles)->Ok_0,
                #[trigger] routes[i],
            ),
    ensures
        all_live(profiles, adapters, gateway, routes),
{
    let named = named_profiles(profiles)->Ok_0;
    lemma_named(profiles);
    assert forall|i: int| 0 <= i < routes.len() implies live_fits(
        profiles,
        adapters,
        gateway,
        #[trigger] routes[i],
    ) by {
        let route = routes[i];
        assert(server_route_of(profiles, adapters, named, route));
        let k = choose|k: int| 0 <= k < named.len() && (#[trigger] named[k]).vpn == route.vpn;
        assert(crate::domain::enabled_vpn(profiles, named[k].vpn));
        crate::domain::lemma_enabled_vpn(profiles, route.vpn);
        lemma_selection_is_live(profiles, route.vpn, adapters);
    }
}

/// Every route of a plan belongs to an enabled VPN that is connected.
proof fn lemma_plan_fits(
    current: Seq<RouteView>,
    profiles: Seq<VpnProfile>,
    adapters: Seq<AdapterView>,
    gateway: Option<GatewayView>,
)
    requires
        distinct_vpns(profiles),
        desired_physical(current, profiles, adapters, gateway) is Ok,
    ensures
        ({
            let plan = desired_physical(current, profiles, adapters, gateway)->Ok_0;
            all_live(plan.profiles, adapters, gateway, plan.routes)
        }),
{
    let plan = desired_physical(current, profiles, adapters, gateway)->Ok_0;
    lemma_plan(current, profiles, adapters, gateway);
    lemma_checked(profiles, current, adapters, gateway);
    let check = physical_checked(profiles, current, adapters, gateway)->Ok_0;
    let p = check.profiles;
    let named = named_profiles(p)->Ok_0;
    let a = segment(p, current, adapters, gateway, VpnKind::FortiClient);
    let b = segment(p, current, adapters, gateway, VpnKind::F5);
    let c = segment(p, current, adapters, gateway, VpnKind::Ivanti);
    let tail = plan.routes.skip(check.routes.len() as int);
    assert(all_live(p, adapters, gateway, a)) by {
        assert(can_go_on(p, current, adapters, gateway, VpnKind::FortiClient));
        lemma_segment(p, current, adapters, gateway, VpnKind::FortiClient, VpnKind::FortiClient);
    }
    assert(all_live(p, adapters, gateway, b)) by {
        assert(can_go_on(p, current, adapters, gateway, VpnKind::F5));
        lemma_segment(p, current, adapters, gateway, VpnKind::F5, VpnKind::F5);
    }
    assert(all_live(p, adapters, gateway, c)) by {
        assert(can_go_on(p, current, adapters, gateway, VpnKind::Ivanti));
        lemma_segment(p, current, adapters, gateway, VpnKind::Ivanti, VpnKind::Ivanti);
    }
    lemma_distinct_stays(profiles, p);
    lemma_servers_live(p, adapters, gateway, tail);
    lemma_live_together(p, adapters, gateway, a, b);
    lemma_live_together(p, adapters, gateway, a + b, c);
    lemma_live_together(p, adapters, gateway, a + b + c, tail);
}

/// After a health check every route belongs to an enabled VPN that is connected, and
/// leads through its interface, or back to the ordinary network where the VPN takes all
/// traffic. Every enabled VPN has the routes for its targets that it had, through its
/// interface as it is now, and leads everything else back exactly where it takes all
/// traffic. The profiles are what they were, but that some are disabled; those reported
/// as disabled are. At most one enabled VPN takes all traffic.
pub proof fn law_health_plan_is_sound(
    current: Seq<RouteView>,
    profiles: Seq<VpnProfile>,
    adapters: Seq<AdapterView>,
    gateway: Option<GatewayView>,
)
    requires
        distinct_vpns(profiles),
        desired_physical(current, profiles, adapters, gateway) is Ok,
    ensures
        ({
            let plan = desired_physical(current, profiles, adapters, gateway)->Ok_0;
            &&& only_disabled(profiles, plan.profiles)
            &&& all_given_up(plan.profiles, plan.disabled_vpns)
            &&& full_tunnel_vpns(plan.profiles, adapters).len() <= 1
            &&& all_live(plan.profiles, adapters, gateway, plan.routes)
            &&& forall|vpn: VpnKind| #[trigger]
                can_go_on(plan.profiles, current, adapters, gateway, vpn)
            &&& forall|vpn: VpnKind|
                #![trigger live_targets(plan.profiles, current, adapters, vpn)]
                plan.routes.filter(target_of_vpn(vpn)) == live_targets(
                    plan.profiles,
                    current,
                    adapters,
                    vpn,
                )
            &&& forall|vpn: VpnKind|
                #![trigger live_bypass(plan.profiles, adapters, gateway, vpn)]
                plan.routes.filter(bypass_of_vpn(vpn)) == live_bypass(
                    plan.profiles,
                    adapters,
                    gateway,
                    vpn,
                )
        }),
{
    let plan = desired_physical(current, profiles, adapters, gateway)->Ok_0;
    lemma_plan(current, profiles, adapters, gateway);
    lemma_checked(profiles, current, adapters, gateway);
    lemma_plan_fits(current, profiles, adapters, gateway);
    assert forall|vpn: VpnKind|
        #![trigger live_targets(plan.profiles, current, adapters, vpn)]
        plan.routes.filter(target_of_vpn(vpn)) == live_targets(
            plan.profiles,
            current,
            adapters,
            vpn,
        ) by {
        lemma_plan_routes_of(current, profiles, adapters, gateway, vpn);
    }
    assert forall|vpn: VpnKind|
        #![trigger live_bypass(plan.profiles, adapters, gateway, vpn)]
        plan.routes.filter(bypass_of_vpn(vpn)) == live_bypass(
            plan.profiles,
            adapters,
            gateway,
            vpn,
        ) by {
        lemma_plan_routes_of(current, profiles, adapters, gateway, vpn);
    }
}

/// Two results agree in everything but the warnings.
pub open spec fn agree(
    left: Result<PreparedView, Seq<Seq<char>>>,
    right: Result<PreparedView, Seq<Seq<char>>>,
) -> bool {
    match (left, right) {
        (Ok(a), Ok(b)) => a.routes == b.routes && a.dns_rules == b.dns_rules,
        (Err(a), Err(b)) => a == b,
        _ => false,
    }
}

/// Warnings have no bearing on the name servers of a VPN.
proof fn lemma_servers_agree(
    left: PreparedView,
    right: PreparedView,
    vpn: VpnKind,
    servers: Seq<u32>,
    interface_index: u32,
    next_hop: Seq<char>,
)
    requires
        agree(Ok(left), Ok(right)),
    ensures
        agree(
            with_servers(left, vpn, servers, interface_index, next_hop),
            with_servers(right, vpn, servers, interface_index, next_hop),
        ),
    decreases servers.len(),
{
    if servers.len() > 0 {
        lemma_servers_agree(left, right, vpn, servers.drop_last(), interface_index, next_hop);
    }
}

/// Warnings have no bearing on the names of profiles.
proof fn lemma_names_agree(
    left: PreparedView,
    right: PreparedView,
    profiles: Seq<VpnProfile>,
    adapters: Seq<AdapterView>,
    validated: Seq<ValidatedView>,
)
    requires
        agree(Ok(left), Ok(right)),
    ensures
        agree(
            with_all_names(left, profiles, adapters, validated),
            with_all_names(right, profiles, adapters, validated),
        ),
    decreases validated.len(),
{
    if validated.len() > 0 {
        let front = validated.drop_last();
        lemma_names_agree(left, right, profiles, adapters, front);
        let a = with_all_names(left, profiles, adapters, front);
        let b = with_all_names(right, profiles, adapters, front);
        if a is Ok {
            let last = validated.last();
            if let Ok(adapter) = selection(profiles, last.vpn, adapters) {
                let servers = distinct_addresses(adapter.dns_servers);
                let rule = vpn_rule(last.vpn, last.hostnames, servers);
                lemma_servers_agree(
                    a->Ok_0.with_rule(rule),
                    b->Ok_0.with_rule(rule),
                    last.vpn,
                    servers,
                    adapter.index,
                    adapter.next_hop,
                );
            }
        }
    }
}

/// A step at which the profile can go on disables nothing.
proof fn lemma_step_goes_on(
    check: CheckView,
    vpn: VpnKind,
    current: Seq<RouteView>,
    adapters: Seq<AdapterView>,
    gateway: Option<GatewayView>,
)
    requires
        can_go_on(check.profiles, current, adapters, gateway, vpn),
    ensures
        physical_step(check, vpn, current, adapters, gateway) matches Ok(next) && {
            &&& next.profiles == check.profiles
            &&& next.disabled_vpns == check.disabled_vpns
            &&& next.routes == check.routes + segment(
                check.profiles,
                current,
                adapters,
                gateway,
                vpn,
            )
        },
{
    let added = segment(check.profiles, current, adapters, gateway, vpn);
    let result = physical_step(check, vpn, current, adapters, gateway);
    if is_enabled(check.profiles, vpn) {
        assert(result->Ok_0.routes =~= check.routes + added);
    } else {
        assert(result->Ok_0.routes =~= check.routes + added);
    }
}

/// Moving routes twice is moving them once.
proof fn lemma_moved_segment(
    profiles: Seq<VpnProfile>,
    current: Seq<RouteView>,
    later: Seq<RouteView>,
    adapters: Seq<AdapterView>,
    gateway: Option<GatewayView>,
    vpn: VpnKind,
)
    requires
        can_go_on(profiles, current, adapters, gateway, vpn),
        later.filter(target_of_vpn(vpn)) == live_targets(profiles, current, adapters, vpn),
    ensures
        can_go_on(profiles, later, adapters, gateway, vpn),
        segment(profiles, later, adapters, gateway, vpn) == segment(
            profiles,
            current,
            adapters,
            gateway,
            vpn,
        ),
{
    if is_enabled(profiles, vpn) {
        let adapter = live_adapter(profile_of(profiles, vpn)->0, vpn, adapters)->0;
        let once = moved_routes(current.filter(target_of_vpn(vpn)), adapter);
        assert(moved_routes(once, adapter) =~= once);
    }
}

/// Checking again what a health check wants changes nothing in what a VPN adds.
proof fn lemma_segment_again(
    current: Seq<RouteView>,
    profiles: Seq<VpnProfile>,
    adapters: Seq<AdapterView>,
    gateway: Option<GatewayView>,
    vpn: VpnKind,
)
    requires
        desired_physical(current, profiles, adapters, gateway) is Ok,
    ensures
        ({
            let plan = desired_physical(current, profiles, adapters, gateway)->Ok_0;
            &&& can_go_on(plan.profiles, plan.routes, adapters, gateway, vpn)
            &&& segment(plan.profiles, plan.routes, adapters, gateway, vpn) == segment(
                plan.profiles,
                current,
                adapters,
                gateway,
                vpn,
            )
        }),
{
    let plan = desired_physical(current, profiles, adapters, gateway)->Ok_0;
    assert(can_go_on(plan.profiles, current, adapters, gateway, vpn)) by {
        lemma_plan(current, profiles, adapters, gateway);
        lemma_checked(profiles, current, adapters, gateway);
    }
    lemma_plan_routes_of(current, profiles, adapters, gateway, vpn);
    lemma_moved_segment(plan.profiles, current, plan.routes, adapters, gateway, vpn);
}

/// A health check is done once: checking what it wants, with the interfaces and the
/// ordinary network as they were, wants the same, and disables nothing more.
pub proof fn law_health_check_converges(
    current: Seq<RouteView>,
    profiles: Seq<VpnProfile>,
    adapters: Seq<AdapterView>,
    gateway: Option<GatewayView>,
)
    requires
        distinct_vpns(profiles),
        desired_physical(current, profiles, adapters, gateway) is Ok,
    ensures
        ({
            let plan = desired_physical(current, profiles, adapters, gateway)->Ok_0;
            desired_physical(plan.routes, plan.profiles, adapters, gateway) matches Ok(again) && {
                &&& again.profiles == plan.profiles
                &&& again.routes == plan.routes
                &&& again.dns_rules == plan.dns_rules
                &&& again.disabled_vpns == Seq::<VpnKind>::empty()
            }
        }),
{
    let plan = desired_physical(current, profiles, adapters, gateway)->Ok_0;
    let p = plan.profiles;
    lemma_plan(current, profiles, adapters, gateway);
    lemma_checked(profiles, current, adapters, gateway);
    let check = physical_checked(profiles, current, adapters, gateway)->Ok_0;
    let start = one_tunnel_started(p, plan.routes, adapters);
    assert(start == started(p));
    lemma_segment_again(current, profiles, adapters, gateway, VpnKind::FortiClient);
    lemma_segment_again(current, profiles, adapters, gateway, VpnKind::F5);
    lemma_segment_again(current, profiles, adapters, gateway, VpnKind::Ivanti);
    lemma_step_goes_on(start, VpnKind::FortiClient, plan.routes, adapters, gateway);
    let first = physical_step(start, VpnKind::FortiClient, plan.routes, adapters, gateway)->Ok_0;
    lemma_step_goes_on(first, VpnKind::F5, plan.routes, adapters, gateway);
    let second = physical_step(first, VpnKind::F5, plan.routes, adapters, gateway)->Ok_0;
    lemma_step_goes_on(second, VpnKind::Ivanti, plan.routes, adapters, gateway);
    let third = physical_step(second, VpnKind::Ivanti, plan.routes, adapters, gateway)->Ok_0;
    assert(physical_checked(p, plan.routes, adapters, gateway) == Ok::<CheckView, Seq<char>>(
        third,
    ));
    let a = segment(p, current, adapters, gateway, VpnKind::FortiClient);
    let b = segment(p, current, adapters, gateway, VpnKind::F5);
    let c = segment(p, current, adapters, gateway, VpnKind::Ivanti);
    assert(first.routes =~= a);
    assert(second.routes =~= a + b);
    assert(third.routes =~= a + b + c);
    assert(third.routes == check.routes);
    let named = named_profiles(p)->Ok_0;
    let before = PreparedView {
        routes: check.routes,
        dns_rules: Seq::empty(),
        warnings: check.warnings,
    };
    let after = PreparedView {
        routes: third.routes,
        dns_rules: Seq::empty(),
        warnings: third.warnings,
    };
    if named.len() > 0 {
        let physical = physical_servers(adapters, gateway)->Ok_0;
        lemma_names_agree(
            before.with_rule(general_rule(physical)),
            after.with_rule(general_rule(physical)),
            p,
            adapters,
            named,
        );
    }
}

}
