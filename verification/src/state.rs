//! What is kept from one run to the next: the configuration, and the routes that may
//! still be in force.

use vstd::prelude::*;

use crate::domain::{SplitterConfig, VpnKind, VpnProfile};
use crate::lists::{first_index, first_that, lemma_is_first};
use crate::routes::{clone_routes, routes_slice};
use crate::selection::{any_enabled, needs_periodic_route_refresh};
use crate::text::same_text;
use crate::windows::{ManagedRoute, ManagedRoutePurpose, RouteView};

verus! {

/// How often removing the routes is tried when the program ends.
pub const SHUTDOWN_CLEANUP_ATTEMPTS: usize = 3;

/// The configuration, and the routes that may still be in force.
#[derive(Debug, PartialEq, Eq)]
pub struct PersistedState {
    pub config: SplitterConfig,
    pub managed_routes: Vec<ManagedRoute>,
}

/// What a `PersistedState` stands for.
#[verifier::ext_equal]
pub ghost struct StateView {
    pub profiles: Seq<VpnProfile>,
    pub routes: Seq<RouteView>,
}

impl DeepView for PersistedState {
    type V = StateView;

    open spec fn deep_view(&self) -> StateView {
        StateView { profiles: self.config.profiles@, routes: self.managed_routes.deep_view() }
    }
}

impl Clone for PersistedState {
    fn clone(&self) -> (copy: Self)
        ensures
            copy.deep_view() == self.deep_view(),
    {
        PersistedState {
            config: self.config.clone(),
            managed_routes: clone_routes(routes_slice(&self.managed_routes)),
        }
    }
}

impl Default for PersistedState {
    /// One profile for each VPN, none of them enabled, and no routes.
    fn default() -> (state: Self)
        ensures
            state.config.profiles.len() == 3,
            forall|i: int|
                0 <= i < 3 ==> {
                    &&& (#[trigger] state.config.profiles[i]).vpn == VpnKind::ALL[i]
                    &&& !state.config.profiles[i].enabled
                    &&& state.config.profiles[i].networks@ == Seq::<char>::empty()
                    &&& state.config.profiles[i].adapter_description is None
                },
            state.managed_routes.deep_view() == Seq::<RouteView>::empty(),
    {
        let state: PersistedState = PersistedState {
            config: SplitterConfig::default(),
            managed_routes: Vec::new(),
        };
        assert(state.managed_routes.deep_view() =~= Seq::<RouteView>::empty());
        state
    }
}

/// The profiles, none of them enabled.
pub open spec fn all_disabled(profiles: Seq<VpnProfile>) -> Seq<VpnProfile> {
    Seq::new(profiles.len(), |i: int| VpnProfile { enabled: false, ..profiles[i] })
}

/// Disables every profile. The routes stay.
pub fn disable_all_profiles(state: &mut PersistedState)
    ensures
        final(state).deep_view() == (StateView {
            profiles: all_disabled(old(state).deep_view().profiles),
            ..old(state).deep_view()
        }),
{
    let ghost before = state.deep_view();
    let ghost after = all_disabled(before.profiles);
    let count: usize = state.config.profiles.len();
    for i in 0..count
        invariant
            count == before.profiles.len(),
            after == all_disabled(before.profiles),
            state.config.profiles@ == after.take(i as int) + before.profiles.skip(i as int),
            state.managed_routes.deep_view() == before.routes,
    {
        let ghost now = state.config.profiles@;
        state.config.profiles[i].enabled = false;
        assert(now[i as int] == before.profiles[i as int]);
        assert(state.config.profiles@ =~= after.take(i + 1) + before.profiles.skip(i + 1));
    }
    assert(state.config.profiles@ =~= after);
}

/// Anything may be in force.
pub open spec fn may_be_in_force(state: StateView) -> bool {
    state.routes.len() > 0 || any_enabled(state.profiles)
}

/// Whether anything may be in force: managed routes, or the rules of an enabled
/// profile.
pub fn had_active_policy(state: &PersistedState) -> (active: bool)
    ensures
        active == may_be_in_force(state.deep_view()),
        active == (state.deep_view().routes.len() > 0 || any_enabled(state.deep_view().profiles)),
{
    state.managed_routes.len() > 0 || needs_periodic_route_refresh(&state.config)
}

/// A call that removes the routes can end like this.
pub open spec fn removes<F: FnMut(&[ManagedRoute]) -> Result<(), String>>(
    remove: F,
    routes: Seq<RouteView>,
    outcome: Result<(), Seq<char>>,
) -> bool {
    exists|list: &[ManagedRoute], result: Result<(), String>|
        list.deep_view() == routes && crate::transaction::replaced_view(result) == outcome
            && #[trigger] call_ensures(remove, (list,), result)
}

/// The routes can be asked to be removed.
pub open spec fn takes_removal<F: FnMut(&[ManagedRoute]) -> Result<(), String>>(
    remove: F,
    routes: Seq<RouteView>,
) -> bool {
    forall|list: &[ManagedRoute]|
        list.deep_view() == routes ==> #[trigger] call_requires(remove, (list,))
}

/// The routes could not be removed.
pub open spec fn cleanup_failure(reason: Seq<char>) -> Seq<char> {
    "關閉時重試 3 次仍無法移除全部管理路由；已保留路由清單供下次啟動復原："@ + reason
}

/// How removing the routes went: these are attempts, three at most, each with all the
/// routes, of which only the last can have succeeded.
pub open spec fn cleanup_attempts<F: FnMut(&[ManagedRoute]) -> Result<(), String>>(
    remove: F,
    routes: Seq<RouteView>,
    attempts: Seq<Result<(), Seq<char>>>,
) -> bool {
    &&& if routes.len() == 0 {
        attempts.len() == 0
    } else {
        1 <= attempts.len() <= 3
    }
    &&& forall|i: int|
        0 <= i < attempts.len() ==> #[trigger] removes(remove, routes, attempts[i])
    &&& forall|i: int| 0 <= i < attempts.len() - 1 ==> (#[trigger] attempts[i]) is Err
    &&& 0 < attempts.len() < 3 ==> attempts.last() is Ok
}

/// What is left after removing the routes: nothing where it succeeded, and all of them
/// where it did not. Every profile is disabled in either case.
pub open spec fn cleaned_up(before: StateView, attempts: Seq<Result<(), Seq<char>>>) -> (
    StateView,
    Result<(), Seq<char>>,
) {
    let failed = attempts.len() > 0 && attempts.last() is Err;
    (
        StateView {
            profiles: all_disabled(before.profiles),
            routes: if failed {
                before.routes
            } else {
                Seq::empty()
            },
        },
        if failed {
            Err(cleanup_failure(attempts.last()->Err_0))
        } else {
            Ok(())
        },
    )
}

/// Disables every profile and removes the routes, with a few attempts, each of them with
/// all the routes. Where they fail, the routes stay in the list, for the next run.
pub fn cleanup_managed_routes_with<F: FnMut(&[ManagedRoute]) -> Result<(), String>>(
    state: &mut PersistedState,
    remove_routes: F,
) -> (result: Result<(), String>)
    requires
        old(state).deep_view().routes.len() > 0 ==> takes_removal(
            remove_routes,
            old(state).deep_view().routes,
        ),
    ensures
        exists|attempts: Seq<Result<(), Seq<char>>>|
            #[trigger] cleanup_attempts(remove_routes, old(state).deep_view().routes, attempts)
                && (final(state).deep_view(), crate::transaction::replaced_view(result))
                == cleaned_up(old(state).deep_view(), attempts),
{
    let ghost before = state.deep_view();
    let ghost remove = remove_routes;
    let mut try_removing: F = remove_routes;
    let ghost mut attempts: Seq<Result<(), Seq<char>>> = Seq::empty();
    disable_all_profiles(state);
    if state.managed_routes.len() == 0 {
        assert(before.routes =~= Seq::empty());
        assert(cleanup_attempts(remove, before.routes, attempts));
        return Ok(());
    }
    let mut last_error: String = "未知錯誤".to_owned();
    for i in 0..SHUTDOWN_CLEANUP_ATTEMPTS
        invariant
            state.deep_view() == (StateView {
                profiles: all_disabled(before.profiles),
                ..before
            }),
            before.routes.len() > 0,
            try_removing == remove,
            remove == remove_routes,
            takes_removal(remove, before.routes),
            attempts.len() == i,
            before == old(state).deep_view(),
            i > 0 ==> attempts.last() == Err::<(), Seq<char>>(last_error@),
            forall|k: int|
                0 <= k < attempts.len() ==> #[trigger] removes(
                    remove,
                    before.routes,
                    attempts[k],
                ),
            forall|k: int| 0 <= k < attempts.len() ==> (#[trigger] attempts[k]) is Err,
    {
        let ghost tried = attempts;
        let inventory: &[ManagedRoute] = routes_slice(&state.managed_routes);
        let removed: Result<(), String> = try_removing(inventory);
        assert(call_ensures(remove, (inventory,), removed));
        let ghost outcome = crate::transaction::replaced_view(removed);
        assert(removes(remove, before.routes, outcome));
        proof {
            attempts = tried.push(outcome);
            assert forall|k: int| 0 <= k < attempts.len() implies #[trigger] removes(
                remove,
                before.routes,
                attempts[k],
            ) by {
                if k < tried.len() {
                    assert(removes(remove, before.routes, tried[k]));
                }
            }
            assert forall|k: int| 0 <= k < attempts.len() - 1 implies (
            #[trigger] attempts[k]) is Err by {
                assert(tried[k] is Err);
            }
        }
        match removed {
            Ok(_) => {
                state.managed_routes = Vec::new();
                assert(state.deep_view().routes =~= Seq::empty());
                assert(cleanup_attempts(remove, before.routes, attempts));
                return Ok(());
            },
            Err(reason) => {
                last_error = reason;
            },
        }
    }
    assert(cleanup_attempts(remove, before.routes, attempts));
    let mut message: String =
        "關閉時重試 3 次仍無法移除全部管理路由；已保留路由清單供下次啟動復原：".to_owned();
    message.append(last_error.as_str());
    Err(message)
}

/// The route leads one half of all addresses for the VPN.
pub open spec fn half_route(vpn: VpnKind, prefix: Seq<char>) -> spec_fn(RouteView) -> bool {
    |route: RouteView| route.vpn == vpn && route.prefix == prefix
}

/// The prefix is one half of all addresses.
pub open spec fn is_half(prefix: Seq<char>) -> bool {
    prefix == "0.0.0.0/1"@ || prefix == "128.0.0.0/1"@
}

/// The route of the VPN leads something else, and not to where that route leads.
pub open spec fn leads_elsewhere(vpn: VpnKind, half: RouteView) -> spec_fn(RouteView) -> bool {
    |route: RouteView|
        route.vpn == vpn && !is_half(route.prefix) && (route.interface_index
            != half.interface_index || route.next_hop != half.next_hop)
}

/// The VPN has a pair of routes that together lead everything back to the ordinary
/// network: both halves lead to one place, and something else leads to another.
pub open spec fn has_legacy_pair(routes: Seq<RouteView>, vpn: VpnKind) -> bool {
    match (
        first_that(routes, half_route(vpn, "0.0.0.0/1"@)),
        first_that(routes, half_route(vpn, "128.0.0.0/1"@)),
    ) {
        (Some(lower), Some(upper)) => {
            &&& lower.interface_index == upper.interface_index
            &&& lower.next_hop == upper.next_hop
            &&& lower.route_metric == upper.route_metric
            &&& first_that(routes, leads_elsewhere(vpn, lower)) is Some
        },
        _ => false,
    }
}

/// The route with the purpose of leading everything back, where it is a half for the
/// VPN.
pub open spec fn as_bypass(route: RouteView, vpn: VpnKind) -> RouteView {
    if route.vpn == vpn && is_half(route.prefix) {
        RouteView { purpose: ManagedRoutePurpose::InternetBypass, ..route }
    } else {
        route
    }
}

/// The routes with the pair of the VPN, if it has one, marked as what it is.
pub open spec fn migrated_for(routes: Seq<RouteView>, vpn: VpnKind) -> Seq<RouteView> {
    if has_legacy_pair(routes, vpn) {
        Seq::new(routes.len(), |i: int| as_bypass(routes[i], vpn))
    } else {
        routes
    }
}

/// The routes with the pairs of all VPNs marked as what they are.
pub open spec fn migrated(routes: Seq<RouteView>) -> Seq<RouteView> {
    migrated_for(
        migrated_for(migrated_for(routes, VpnKind::FortiClient), VpnKind::F5),
        VpnKind::Ivanti,
    )
}

/// The position of the first route that leads that half for the VPN.
fn find_half(routes: &Vec<ManagedRoute>, vpn: VpnKind, prefix: &str) -> (index: usize)
    ensures
        index == first_index(routes.deep_view(), half_route(vpn, prefix@)),
        index <= routes.len(),
{
    let ghost views = routes.deep_view();
    let ghost condition = half_route(vpn, prefix@);
    let mut index: usize = 0;
    while index < routes.len() && !(routes[index].vpn == vpn && same_text(
        routes[index].prefix.as_str(),
        prefix,
    ))
        invariant
            views == routes.deep_view(),
            condition == half_route(vpn, prefix@),
            index <= routes.len(),
            forall|i: int| 0 <= i < index ==> !condition(#[trigger] views[i]),
        decreases routes.len() - index,
    {
        assert(!condition(views[index as int]));
        index = index + 1;
    }
    proof {
        if index < routes.len() {
            assert(condition(views[index as int]));
        }
        lemma_is_first(views, condition, index as int);
    }
    index
}

/// Whether the prefix is one half of all addresses.
fn names_half(prefix: &str) -> (half: bool)
    ensures
        half == is_half(prefix@),
{
    same_text(prefix, "0.0.0.0/1") || same_text(prefix, "128.0.0.0/1")
}

/// Whether the VPN has a pair of routes that together lead everything back.
fn finds_legacy_pair(routes: &Vec<ManagedRoute>, vpn: VpnKind) -> (found: bool)
    ensures
        found == has_legacy_pair(routes.deep_view(), vpn),
{
    let ghost views = routes.deep_view();
    let lower: usize = find_half(routes, vpn, "0.0.0.0/1");
    let upper: usize = find_half(routes, vpn, "128.0.0.0/1");
    if lower == routes.len() || upper == routes.len() {
        return false;
    }
    let same_endpoint: bool = routes[lower].interface_index == routes[upper].interface_index
        && same_text(routes[lower].next_hop.as_str(), routes[upper].next_hop.as_str())
        && routes[lower].route_metric == routes[upper].route_metric;
    if !same_endpoint {
        return false;
    }
    let ghost condition = leads_elsewhere(vpn, views[lower as int]);
    let mut index: usize = 0;
    while index < routes.len() && !(routes[index].vpn == vpn && !names_half(
        routes[index].prefix.as_str(),
    ) && (routes[index].interface_index != routes[lower].interface_index || !same_text(
        routes[index].next_hop.as_str(),
        routes[lower].next_hop.as_str(),
    )))
        invariant
            views == routes.deep_view(),
            lower < routes.len(),
            condition == leads_elsewhere(vpn, views[lower as int]),
            index <= routes.len(),
            forall|i: int| 0 <= i < index ==> !condition(#[trigger] views[i]),
        decreases routes.len() - index,
    {
        assert(!condition(views[index as int]));
        index = index + 1;
    }
    proof {
        if index < routes.len() {
            assert(condition(views[index as int]));
        }
        lemma_is_first(views, condition, index as int);
    }
    index < routes.len()
}

/// Marks the pair of the VPN, if it has one, as what it is.
fn migrate_vpn(routes: &mut Vec<ManagedRoute>, vpn: VpnKind)
    ensures
        final(routes).deep_view() == migrated_for(old(routes).deep_view(), vpn),
{
    let ghost before = routes.deep_view();
    if !finds_legacy_pair(routes, vpn) {
        return;
    }
    let ghost after = migrated_for(before, vpn);
    let count: usize = routes.len();
    for i in 0..count
        invariant
            count == before.len(),
            after.len() == before.len(),
            routes.len() == before.len(),
            forall|k: int| 0 <= k < after.len() ==> #[trigger] after[k] == as_bypass(before[k], vpn),
            routes.deep_view() == after.take(i as int) + before.skip(i as int),
    {
        let ghost now = routes.deep_view();
        assert(now[i as int] == before[i as int]);
        assert(routes@[i as int].deep_view() == before[i as int]);
        assert(after[i as int] == as_bypass(before[i as int], vpn));
        if routes[i].vpn == vpn && names_half(routes[i].prefix.as_str()) {
            routes[i].purpose = ManagedRoutePurpose::InternetBypass;
        }
        assert(routes@[i as int].deep_view() == after[i as int]);
        assert(routes.deep_view() =~= after.take(i + 1) + before.skip(i + 1)) by {
            assert forall|k: int| 0 <= k < routes.len() implies routes.deep_view()[k] == (
            after.take(i + 1) + before.skip(i + 1))[k] by {
                if k != i {
                    assert(routes@[k].deep_view() == now[k]);
                }
            }
        }
    }
    assert(routes.deep_view() =~= after);
}

/// Marks the pairs of routes that lead everything back as what they are. They carry no
/// purpose of their own where they were saved before routes had one.
pub fn migrate_legacy_route_purposes(state: &mut PersistedState)
    ensures
        final(state).deep_view() == (StateView {
            routes: migrated(old(state).deep_view().routes),
            ..old(state).deep_view()
        }),
{
    migrate_vpn(&mut state.managed_routes, VpnKind::FortiClient);
    migrate_vpn(&mut state.managed_routes, VpnKind::F5);
    migrate_vpn(&mut state.managed_routes, VpnKind::Ivanti);
}

}
