//! Lists of managed routes.

use vstd::prelude::*;

use crate::domain::{is_enabled, SplitterConfig, VpnKind, VpnProfile};
use crate::lists::{
    lemma_filter_all, lemma_filter_members, lemma_filter_no, lemma_filter_none, lemma_filter_step,
    lemma_filter_twice,
};
use crate::windows::{ManagedRoute, ManagedRoutePurpose, RouteView};

verus! {

/// The route belongs to the VPN.
pub open spec fn of_vpn(vpn: VpnKind) -> spec_fn(RouteView) -> bool {
    |route: RouteView| route.vpn == vpn
}

/// The route belongs to another VPN.
pub open spec fn of_other_vpn(vpn: VpnKind) -> spec_fn(RouteView) -> bool {
    |route: RouteView| route.vpn != vpn
}

/// How many routes belong to the VPN.
pub open spec fn count_of(routes: Seq<RouteView>, vpn: VpnKind) -> nat {
    routes.filter(of_vpn(vpn)).len()
}

/// The routes of the other VPNs, and behind them the replacement.
pub open spec fn with_vpn_routes(
    current: Seq<RouteView>,
    vpn: VpnKind,
    replacement: Seq<RouteView>,
) -> Seq<RouteView> {
    current.filter(of_other_vpn(vpn)) + replacement
}

/// The lists are of the same length, and every route of the left one is in the right
/// one.
pub open spec fn matching(left: Seq<RouteView>, right: Seq<RouteView>) -> bool {
    left.len() == right.len() && forall|i: int|
        0 <= i < left.len() ==> right.contains(#[trigger] left[i])
}

/// The VPN of the route has as many routes in the one list as in the other.
pub open spec fn set_is_complete(
    previous: Seq<RouteView>,
    existing: Seq<RouteView>,
) -> spec_fn(RouteView) -> bool {
    |route: RouteView| count_of(previous, route.vpn) == count_of(existing, route.vpn)
}

/// The existing routes of the VPNs that have lost none of their routes.
pub open spec fn complete_sets(previous: Seq<RouteView>, existing: Seq<RouteView>) -> Seq<
    RouteView,
> {
    existing.filter(set_is_complete(previous, existing))
}

/// The profile of the route's VPN is enabled.
pub open spec fn owner_enabled(profiles: Seq<VpnProfile>) -> spec_fn(RouteView) -> bool {
    |route: RouteView| is_enabled(profiles, route.vpn)
}

/// The existing routes that stay: those of enabled VPNs that have lost none.
pub open spec fn reconciled(
    previous: Seq<RouteView>,
    existing: Seq<RouteView>,
    profiles: Seq<VpnProfile>,
) -> Seq<RouteView> {
    complete_sets(previous, existing).filter(owner_enabled(profiles))
}

/// A copy of a list of routes.
pub fn clone_routes(routes: &[ManagedRoute]) -> (copy: Vec<ManagedRoute>)
    ensures
        copy.deep_view() == routes.deep_view(),
{
    let mut copy: Vec<ManagedRoute> = Vec::new();
    let ghost views = routes.deep_view();
    for i in 0..routes.len()
        invariant
            views == routes.deep_view(),
            copy.deep_view() == views.take(i as int),
    {
        let ghost before = copy.deep_view();
        copy.push(routes[i].clone());
        assert(copy.deep_view() =~= before.push(views[i as int]));
    }
    assert(views.take(routes.len() as int) =~= views);
    copy
}

/// A list of routes as a slice.
pub fn routes_slice(routes: &Vec<ManagedRoute>) -> (slice: &[ManagedRoute])
    ensures
        slice.deep_view() == routes.deep_view(),
        slice@ == routes@,
{
    let slice: &[ManagedRoute] = routes.as_slice();
    assert(slice.deep_view() =~= routes.deep_view());
    slice
}

/// Whether the list has a route that agrees with this one in every field.
pub fn contains_route(routes: &[ManagedRoute], route: &ManagedRoute) -> (found: bool)
    ensures
        found == routes.deep_view().contains(route.deep_view()),
{
    let ghost views = routes.deep_view();
    for i in 0..routes.len()
        invariant
            views == routes.deep_view(),
            forall|k: int| 0 <= k < i ==> views[k] != route.deep_view(),
    {
        if routes[i].same_as(route) {
            assert(views[i as int] == route.deep_view());
            return true;
        }
        assert(views[i as int] != route.deep_view());
    }
    false
}

/// Whether the lists have the same routes in the same order.
pub fn same_routes(left: &[ManagedRoute], right: &[ManagedRoute]) -> (same: bool)
    ensures
        same == (left.deep_view() == right.deep_view()),
{
    if left.len() != right.len() {
        assert(left.deep_view().len() != right.deep_view().len());
        return false;
    }
    for i in 0..left.len()
        invariant
            left.len() == right.len(),
            forall|k: int| 0 <= k < i ==> left.deep_view()[k] == right.deep_view()[k],
    {
        if !left[i].same_as(&right[i]) {
            assert(left.deep_view()[i as int] != right.deep_view()[i as int]);
            return false;
        }
    }
    assert(left.deep_view() =~= right.deep_view());
    true
}

/// The routes with those of one VPN replaced.
pub fn replace_vpn_routes(
    current: &[ManagedRoute],
    vpn: VpnKind,
    replacement: Vec<ManagedRoute>,
) -> (routes: Vec<ManagedRoute>)
    ensures
        routes.deep_view() == with_vpn_routes(
            current.deep_view(),
            vpn,
            replacement.deep_view(),
        ),
{
    let ghost views = current.deep_view();
    let mut routes: Vec<ManagedRoute> = Vec::new();
    proof {
        lemma_filter_none(views, of_other_vpn(vpn));
    }
    assert(routes.deep_view() =~= views.take(0).filter(of_other_vpn(vpn)));
    for i in 0..current.len()
        invariant
            views == current.deep_view(),
            routes.deep_view() == views.take(i as int).filter(of_other_vpn(vpn)),
    {
        let ghost before = routes.deep_view();
        proof {
            lemma_filter_step(views, i as int, of_other_vpn(vpn));
        }
        if current[i].vpn != vpn {
            routes.push(current[i].clone());
            assert(routes.deep_view() =~= before.push(views[i as int]));
        }
    }
    assert(views.take(current.len() as int) =~= views);
    append_routes(&mut routes, replacement);
    routes
}

/// Appends routes to a list.
pub fn append_routes(routes: &mut Vec<ManagedRoute>, more: Vec<ManagedRoute>)
    ensures
        final(routes).deep_view() == old(routes).deep_view() + more.deep_view(),
{
    let ghost before = routes.deep_view();
    let ghost added = more.deep_view();
    for i in 0..more.len()
        invariant
            added == more.deep_view(),
            routes.deep_view() == before + added.take(i as int),
    {
        let ghost now = routes.deep_view();
        routes.push(more[i].clone());
        assert(routes.deep_view() =~= now.push(added[i as int]));
        assert(routes.deep_view() =~= before + added.take(i + 1));
    }
    assert(added.take(more.len() as int) =~= added);
}

/// Whether the lists are of the same length and every route of the left one is in the
/// right one.
pub fn routes_match(left: &[ManagedRoute], right: &[ManagedRoute]) -> (same: bool)
    ensures
        same == matching(left.deep_view(), right.deep_view()),
{
    if left.len() != right.len() {
        return false;
    }
    let ghost views = left.deep_view();
    for i in 0..left.len()
        invariant
            views == left.deep_view(),
            left.len() == right.len(),
            forall|k: int| 0 <= k < i ==> right.deep_view().contains(#[trigger] views[k]),
    {
        if !contains_route(right, &left[i]) {
            assert(!right.deep_view().contains(views[i as int]));
            return false;
        }
    }
    true
}

/// How many routes belong to the VPN.
pub fn count_routes(routes: &[ManagedRoute], vpn: VpnKind) -> (count: usize)
    ensures
        count == count_of(routes.deep_view(), vpn),
{
    let ghost views = routes.deep_view();
    let mut count: usize = 0;
    proof {
        lemma_filter_none(views, of_vpn(vpn));
    }
    for i in 0..routes.len()
        invariant
            views == routes.deep_view(),
            count <= i,
            count == views.take(i as int).filter(of_vpn(vpn)).len(),
    {
        proof {
            lemma_filter_step(views, i as int, of_vpn(vpn));
        }
        if routes[i].vpn == vpn {
            count = count + 1;
        }
    }
    assert(views.take(routes.len() as int) =~= views);
    count
}

/// The existing routes of the VPNs that have lost none of their routes.
pub fn discard_incomplete_vpn_route_sets(
    previous: &[ManagedRoute],
    existing: &[ManagedRoute],
) -> (routes: Vec<ManagedRoute>)
    ensures
        routes.deep_view() == complete_sets(previous.deep_view(), existing.deep_view()),
{
    let ghost views = existing.deep_view();
    let ghost condition = set_is_complete(previous.deep_view(), views);
    let mut routes: Vec<ManagedRoute> = Vec::new();
    proof {
        lemma_filter_none(views, condition);
    }
    assert(routes.deep_view() =~= views.take(0).filter(condition));
    for i in 0..existing.len()
        invariant
            views == existing.deep_view(),
            condition == set_is_complete(previous.deep_view(), views),
            routes.deep_view() == views.take(i as int).filter(condition),
    {
        let ghost before = routes.deep_view();
        proof {
            lemma_filter_step(views, i as int, condition);
        }
        let vpn: VpnKind = existing[i].vpn;
        if count_routes(previous, vpn) == count_routes(existing, vpn) {
            routes.push(existing[i].clone());
            assert(routes.deep_view() =~= before.push(views[i as int]));
        }
    }
    assert(views.take(existing.len() as int) =~= views);
    routes
}

/// The existing routes that stay: those of enabled VPNs that have lost none.
pub fn reconciled_routes_for_config(
    previous: &[ManagedRoute],
    existing: &[ManagedRoute],
    config: &SplitterConfig,
) -> (routes: Vec<ManagedRoute>)
    ensures
        routes.deep_view() == reconciled(
            previous.deep_view(),
            existing.deep_view(),
            config.profiles@,
        ),
{
    let complete: Vec<ManagedRoute> = discard_incomplete_vpn_route_sets(previous, existing);
    let ghost views = complete.deep_view();
    let ghost condition = owner_enabled(config.profiles@);
    let mut routes: Vec<ManagedRoute> = Vec::new();
    proof {
        lemma_filter_none(views, condition);
    }
    assert(routes.deep_view() =~= views.take(0).filter(condition));
    for i in 0..complete.len()
        invariant
            views == complete.deep_view(),
            condition == owner_enabled(config.profiles@),
            routes.deep_view() == views.take(i as int).filter(condition),
    {
        let ghost before = routes.deep_view();
        proof {
            lemma_filter_step(views, i as int, condition);
        }
        if config.is_profile_enabled(complete[i].vpn) {
            routes.push(complete[i].clone());
            assert(routes.deep_view() =~= before.push(views[i as int]));
        }
    }
    assert(views.take(complete.len() as int) =~= views);
    routes
}

/// The routes of one VPN that are for its targets.
pub open spec fn target_of_vpn(vpn: VpnKind) -> spec_fn(RouteView) -> bool {
    |route: RouteView| route.vpn == vpn && route.purpose == ManagedRoutePurpose::Target
}

/// The routes of one VPN that are for its targets.
pub fn target_routes_of(routes: &[ManagedRoute], vpn: VpnKind) -> (targets: Vec<ManagedRoute>)
    ensures
        targets.deep_view() == routes.deep_view().filter(target_of_vpn(vpn)),
{
    let ghost views = routes.deep_view();
    let mut targets: Vec<ManagedRoute> = Vec::new();
    proof {
        lemma_filter_none(views, target_of_vpn(vpn));
    }
    assert(targets.deep_view() =~= views.take(0).filter(target_of_vpn(vpn)));
    for i in 0..routes.len()
        invariant
            views == routes.deep_view(),
            targets.deep_view() == views.take(i as int).filter(target_of_vpn(vpn)),
    {
        let ghost before = targets.deep_view();
        proof {
            lemma_filter_step(views, i as int, target_of_vpn(vpn));
        }
        if routes[i].vpn == vpn && routes[i].purpose == ManagedRoutePurpose::Target {
            targets.push(routes[i].clone());
            assert(targets.deep_view() =~= before.push(views[i as int]));
        }
    }
    assert(views.take(routes.len() as int) =~= views);
    targets
}

/// The routes of one VPN.
pub fn routes_of_vpn(routes: &[ManagedRoute], vpn: VpnKind) -> (own: Vec<ManagedRoute>)
    ensures
        own.deep_view() == routes.deep_view().filter(of_vpn(vpn)),
{
    let ghost views = routes.deep_view();
    let mut own: Vec<ManagedRoute> = Vec::new();
    proof {
        lemma_filter_none(views, of_vpn(vpn));
    }
    assert(own.deep_view() =~= views.take(0).filter(of_vpn(vpn)));
    for i in 0..routes.len()
        invariant
            views == routes.deep_view(),
            own.deep_view() == views.take(i as int).filter(of_vpn(vpn)),
    {
        let ghost before = own.deep_view();
        proof {
            lemma_filter_step(views, i as int, of_vpn(vpn));
        }
        if routes[i].vpn == vpn {
            own.push(routes[i].clone());
            assert(own.deep_view() =~= before.push(views[i as int]));
        }
    }
    assert(views.take(routes.len() as int) =~= views);
    own
}

/// Replacing the routes of one VPN leaves those of every other VPN as they are, in
/// their order.
pub proof fn law_replacing_leaves_other_vpns_alone(
    current: Seq<RouteView>,
    vpn: VpnKind,
    replacement: Seq<RouteView>,
    other: VpnKind,
)
    requires
        other != vpn,
        forall|i: int| 0 <= i < replacement.len() ==> (#[trigger] replacement[i]).vpn == vpn,
    ensures
        with_vpn_routes(current, vpn, replacement).filter(of_vpn(other)) == current.filter(
            of_vpn(other),
        ),
        with_vpn_routes(current, vpn, replacement).filter(of_vpn(vpn)) == replacement,
        with_vpn_routes(with_vpn_routes(current, vpn, replacement), vpn, Seq::empty())
            == with_vpn_routes(current, vpn, Seq::empty()),
{
    let kept = current.filter(of_other_vpn(vpn));
    Seq::filter_distributes_over_add(kept, replacement, of_vpn(other));
    Seq::filter_distributes_over_add(kept, replacement, of_vpn(vpn));
    Seq::filter_distributes_over_add(kept, replacement, of_other_vpn(vpn));
    lemma_filter_twice(current, of_other_vpn(vpn), of_vpn(other), of_vpn(other));
    lemma_filter_twice(current, of_other_vpn(vpn), of_other_vpn(vpn), of_other_vpn(vpn));
    lemma_filter_no(replacement, of_vpn(other));
    lemma_filter_all(replacement, of_vpn(vpn));
    lemma_filter_no(replacement, of_other_vpn(vpn));
    lemma_filter_members(current, of_other_vpn(vpn));
    assert forall|i: int| 0 <= i < kept.len() implies !of_vpn(vpn)(#[trigger] kept[i]) by {
        assert(kept.contains(kept[i]));
    }
    lemma_filter_no(kept, of_vpn(vpn));
    assert(kept.filter(of_vpn(other)) + Seq::<RouteView>::empty() =~= kept.filter(of_vpn(other)));
    assert(Seq::<RouteView>::empty() + replacement =~= replacement);
    assert(kept.filter(of_other_vpn(vpn)) + Seq::<RouteView>::empty() =~= kept.filter(
        of_other_vpn(vpn),
    ));
}

/// What stays after a reconciliation is some of the existing routes, each of an enabled
/// VPN that has lost no route. A VPN that has lost one keeps none.
pub proof fn law_reconciliation_keeps_whole_sets(
    previous: Seq<RouteView>,
    existing: Seq<RouteView>,
    profiles: Seq<VpnProfile>,
)
    ensures
        forall|route: RouteView| #[trigger]
            reconciled(previous, existing, profiles).contains(route) <==> {
                &&& existing.contains(route)
                &&& count_of(previous, route.vpn) == count_of(existing, route.vpn)
                &&& is_enabled(profiles, route.vpn)
            },
{
    lemma_filter_members(existing, set_is_complete(previous, existing));
    lemma_filter_members(complete_sets(previous, existing), owner_enabled(profiles));
    let complete = complete_sets(previous, existing);
    assert forall|route: RouteView| #[trigger]
        reconciled(previous, existing, profiles).contains(route) <==> {
            &&& existing.contains(route)
            &&& count_of(previous, route.vpn) == count_of(existing, route.vpn)
            &&& is_enabled(profiles, route.vpn)
        } by {
        assert(complete.contains(route) <==> existing.contains(route) && set_is_complete(
            previous,
            existing,
        )(route));
    }
}

/// Where no profile is enabled, nothing that an earlier run left behind stays.
pub proof fn law_startup_keeps_no_routes(
    previous: Seq<RouteView>,
    existing: Seq<RouteView>,
    profiles: Seq<VpnProfile>,
)
    requires
        forall|i: int| 0 <= i < profiles.len() ==> !(#[trigger] profiles[i]).enabled,
    ensures
        reconciled(previous, existing, profiles) == Seq::<RouteView>::empty(),
{
    let complete = complete_sets(previous, existing);
    assert forall|i: int| 0 <= i < complete.len() implies !owner_enabled(profiles)(
        #[trigger] complete[i],
    ) by {
        crate::domain::lemma_profile_index(profiles, complete[i].vpn);
    }
    lemma_filter_no(complete, owner_enabled(profiles));
}

/// A list of distinct routes that matches another list has the same routes as it, so
/// that matching holds the other way round too.
pub proof fn law_matching_lists_have_the_same_routes(left: Seq<RouteView>, right: Seq<RouteView>)
    requires
        matching(left, right),
        left.no_duplicates(),
    ensures
        forall|route: RouteView| left.contains(route) <==> right.contains(route),
        matching(right, left),
{
    let a = left.to_set();
    let b = right.to_set();
    left.unique_seq_to_set();
    vstd::seq_lib::seq_to_set_is_finite(right);
    right.lemma_cardinality_of_set();
    assert(a.subset_of(b)) by {
        assert forall|route: RouteView| a.contains(route) implies b.contains(route) by {
            let i = choose|i: int| 0 <= i < left.len() && left[i] == route;
            assert(right.contains(left[i]));
        }
    }
    vstd::seq_lib::seq_to_set_is_finite(left);
    vstd::set_lib::lemma_len_subset(a, b);
    vstd::set_lib::lemma_subset_equality(a, b);
    assert forall|route: RouteView| left.contains(route) <==> right.contains(route) by {
        assert(a.contains(route) <==> b.contains(route));
    }
}

}
