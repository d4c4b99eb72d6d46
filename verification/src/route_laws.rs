//! What holds of lists of routes: how they are replaced, staged and found again.

use vstd::prelude::*;

use crate::domain::{is_enabled, VpnKind, VpnProfile};
use crate::lists::{
    lemma_filter_all, lemma_filter_members, lemma_filter_no, lemma_filter_twice,
};
use crate::operations::{reconciliation, ReconciledView};
use crate::policy::{has_prefix, other_prefix, staged, transition, with_staged};
use crate::routes::{
    matching, of_other_vpn, of_vpn, owner_enabled, reconciled,
    set_is_complete, with_vpn_routes,
};
use crate::state::{cleaned_up, StateView};
use crate::windows::{ManagedRoutePurpose, RouteView};

verus! {

/// Replacing the routes of one VPN takes away its routes and no other, and puts the new
/// ones behind what is left.
pub proof fn law_replaced_routes_stand_last(
    current: Seq<RouteView>,
    vpn: VpnKind,
    replacement: Seq<RouteView>,
)
    ensures
        ({
            let all = with_vpn_routes(current, vpn, replacement);
            let kept = all.len() - replacement.len();
            &&& kept >= 0
            &&& all.skip(kept) == replacement
            &&& forall|route: RouteView| #[trigger]
                all.take(kept).contains(route) <==> current.contains(route) && route.vpn != vpn
            &&& (forall|i: int| 0 <= i < current.len() ==> (#[trigger] current[i]).vpn != vpn)
                ==> all.take(kept) == current
        }),
{
    let all = with_vpn_routes(current, vpn, replacement);
    let left = current.filter(of_other_vpn(vpn));
    lemma_filter_members(current, of_other_vpn(vpn));
    assert(all.skip(left.len() as int) =~= replacement);
    assert(all.take(left.len() as int) =~= left);
    if forall|i: int| 0 <= i < current.len() ==> (#[trigger] current[i]).vpn != vpn {
        lemma_filter_all(current, of_other_vpn(vpn));
    }
}

/// A VPN's routes are kept all together or not at all: all of them, in their order, where
/// the table has as many as were added and the VPN is still switched on, and otherwise
/// none.
pub proof fn law_routes_are_kept_together(
    previous: Seq<RouteView>,
    existing: Seq<RouteView>,
    profiles: Seq<VpnProfile>,
    vpn: VpnKind,
)
    ensures
        ({
            let own = |route: RouteView| route.vpn == vpn;
            let kept = reconciled(previous, existing, profiles).filter(own);
            if is_enabled(profiles, vpn) && previous.filter(own).len() == existing.filter(
                own,
            ).len() {
                kept == existing.filter(own)
            } else {
                kept == Seq::<RouteView>::empty()
            }
        }),
{
    let own = |route: RouteView| route.vpn == vpn;
    assert(own =~= of_vpn(vpn));
    let first = set_is_complete(previous, existing);
    let second = owner_enabled(profiles);
    let both = |route: RouteView| first(route) && second(route);
    let all = |route: RouteView| both(route) && own(route);
    lemma_filter_twice(existing, first, second, both);
    lemma_filter_twice(existing, both, own, all);
    let kept = reconciled(previous, existing, profiles).filter(own);
    assert(kept == existing.filter(all));
    let whole = is_enabled(profiles, vpn) && previous.filter(own).len() == existing.filter(
        own,
    ).len();
    if whole {
        assert(all =~= own);
    } else {
        assert forall|i: int| 0 <= i < existing.len() implies !all(#[trigger] existing[i]) by {}
        lemma_filter_no(existing, all);
    }
}

/// Looking for stale routes ends well just where the table could be read and what had to
/// go could be taken away, or nothing had to go. It then gives the routes that stay and
/// how many fewer they are than before.
pub proof fn law_search_for_stale_routes_ends_well(
    previous: Seq<RouteView>,
    profiles: Seq<VpnProfile>,
    existing: Result<Seq<RouteView>, Seq<char>>,
    reply: Result<(), Seq<char>>,
)
    ensures
        ({
            let outcome = reconciliation(previous, profiles, existing, reply);
            let kept = reconciled(previous, existing->Ok_0, profiles);
            let nothing_goes = existing->Ok_0.len() == kept.len() && forall|i: int|
                0 <= i < kept.len() ==> kept.contains(#[trigger] existing->Ok_0[i]);
            &&& outcome is Ok <==> existing is Ok && (nothing_goes || reply is Ok)
            &&& outcome is Ok ==> outcome->Ok_0.routes == kept
            &&& outcome is Ok && previous.len() >= kept.len() ==> outcome->Ok_0.removed
                == previous.len() - kept.len()
            &&& outcome is Ok && previous.len() < kept.len() ==> outcome->Ok_0.removed == 0
            &&& existing is Err ==> outcome == Err::<ReconciledView, Seq<char>>(existing->Err_0)
            &&& existing is Ok && outcome is Err ==> outcome == Err::<ReconciledView, Seq<char>>(
                reply->Err_0,
            )
        }),
{
}

/// Staging one route puts it into the list in place of all others with its prefix, and
/// leaves every route with another prefix in the list. One that is there already changes
/// nothing.
pub proof fn law_staged_route_takes_its_destination(routes: Seq<RouteView>, route: RouteView)
    ensures
        with_staged(routes, route).contains(route),
        forall|other: RouteView|
            other.prefix != route.prefix ==> (#[trigger] with_staged(routes, route).contains(other)
                <==> routes.contains(other)),
        forall|other: RouteView| #[trigger]
            with_staged(routes, route).contains(other) ==> routes.contains(other) || other == route,
        !routes.contains(route) ==> forall|other: RouteView| #[trigger]
            with_staged(routes, route).contains(other) && other.prefix == route.prefix ==> other
                == route,
        routes.contains(route) ==> with_staged(routes, route) == routes,
{
    if !routes.contains(route) {
        let left = routes.filter(other_prefix(route.prefix));
        lemma_filter_members(routes, other_prefix(route.prefix));
        let all = with_staged(routes, route);
        assert(all[left.len() as int] == route);
        assert forall|other: RouteView| #[trigger] all.contains(other) <==> left.contains(other)
            || other == route by {
            if all.contains(other) {
                let i = choose|i: int| 0 <= i < all.len() && all[i] == other;
                if i < left.len() {
                    assert(left[i] == other);
                }
            }
            if left.contains(other) {
                let i = choose|i: int| 0 <= i < left.len() && left[i] == other;
                assert(all[i] == other);
            }
        }
    }
}

/// Staging brings in every new route, the last one where two have one prefix, and loses no
/// route to a destination that no new route leads to. Nothing else is brought in.
pub proof fn law_staging_adds_without_losing(current: Seq<RouteView>, more: Seq<RouteView>)
    ensures
        forall|i: int|
            0 <= i < more.len() && (forall|j: int|
                i < j < more.len() ==> (#[trigger] more[j]).prefix != more[i].prefix) ==> staged(
                current,
                more,
            ).contains(#[trigger] more[i]),
        forall|route: RouteView|
            current.contains(route) && !has_prefix(more, route.prefix) ==> #[trigger] staged(
                current,
                more,
            ).contains(route),
        forall|route: RouteView| #[trigger]
            staged(current, more).contains(route) ==> current.contains(route) || more.contains(
                route,
            ),
    decreases more.len(),
{
    if more.len() > 0 {
        let front = more.drop_last();
        let last = more.last();
        let before = staged(current, front);
        let all = staged(current, more);
        law_staging_adds_without_losing(current, front);
        law_staged_route_takes_its_destination(before, last);
        assert(more[more.len() - 1] == last);
        assert forall|i: int|
            0 <= i < more.len() && (forall|j: int|
                i < j < more.len() ==> (#[trigger] more[j]).prefix
                    != more[i].prefix) implies all.contains(#[trigger] more[i]) by {
            if i < front.len() {
                assert(front[i] == more[i]);
                assert(more[more.len() - 1].prefix != more[i].prefix);
                assert forall|j: int| i < j < front.len() implies (#[trigger] front[j]).prefix
                    != front[i].prefix by {
                    assert(front[j] == more[j]);
                }
                assert(before.contains(front[i]));
            }
        }
        assert forall|route: RouteView|
            current.contains(route) && !has_prefix(
                more,
                route.prefix,
            ) implies #[trigger] all.contains(route) by {
            assert(!has_prefix(front, route.prefix)) by {
                if has_prefix(front, route.prefix) {
                    let i = choose|i: int|
                        0 <= i < front.len() && (#[trigger] front[i]).prefix == route.prefix;
                    assert(more[i].prefix == route.prefix);
                }
            }
            assert(before.contains(route));
            assert(more[more.len() - 1].prefix != route.prefix);
        }
        assert forall|route: RouteView| #[trigger] all.contains(route) implies current.contains(
            route,
        ) || more.contains(route) by {
            if before.contains(route) {
                if front.contains(route) {
                    let i = choose|i: int| 0 <= i < front.len() && front[i] == route;
                    assert(more[i] == route);
                }
            }
        }
    }
}

/// On the way to the final routes no name server gets lost: all final routes are there
/// first, in their order, and behind them nothing but staged routes to name servers whose
/// destination no final route has. Each such destination is still led to.
pub proof fn law_transition_keeps_name_servers(before: Seq<RouteView>, last: Seq<RouteView>)
    ensures
        transition(before, last).len() >= last.len(),
        transition(before, last).take(last.len() as int) == last,
        forall|i: int|
            last.len() <= i < transition(before, last).len() ==> {
                &&& (#[trigger] transition(before, last)[i]).purpose
                    == ManagedRoutePurpose::VpnDnsServer
                &&& before.contains(transition(before, last)[i])
                &&& !has_prefix(last, transition(before, last)[i].prefix)
            },
        forall|i: int|
            0 <= i < before.len() && (#[trigger] before[i]).purpose
                == ManagedRoutePurpose::VpnDnsServer ==> has_prefix(
                transition(before, last),
                before[i].prefix,
            ),
    decreases before.len(),
{
    if before.len() == 0 {
        assert(last.take(last.len() as int) =~= last);
    } else {
        let front = before.drop_last();
        let route = before.last();
        law_transition_keeps_name_servers(front, last);
        let some = transition(front, last);
        let all = transition(before, last);
        assert(before[before.len() - 1] == route);
        assert(all.take(last.len() as int) =~= some.take(last.len() as int));
        assert forall|prefix: Seq<char>| has_prefix(some, prefix) implies #[trigger] has_prefix(
            all,
            prefix,
        ) by {
            let k = choose|k: int| 0 <= k < some.len() && (#[trigger] some[k]).prefix == prefix;
            assert(all[k].prefix == prefix);
        }
        assert forall|prefix: Seq<char>| has_prefix(last, prefix) implies #[trigger] has_prefix(
            some,
            prefix,
        ) by {
            let k = choose|k: int| 0 <= k < last.len() && (#[trigger] last[k]).prefix == prefix;
            assert(some.take(last.len() as int)[k] == some[k]);
            assert(some[k].prefix == prefix);
        }
        assert forall|i: int| last.len() <= i < all.len() implies {
            &&& (#[trigger] all[i]).purpose == ManagedRoutePurpose::VpnDnsServer
            &&& before.contains(all[i])
            &&& !has_prefix(last, all[i].prefix)
        } by {
            if i < some.len() {
                assert(all[i] == some[i]);
                let k = choose|k: int| 0 <= k < front.len() && front[k] == some[i];
                assert(before[k] == some[i]);
            }
        }
        assert forall|i: int|
            0 <= i < before.len() && (#[trigger] before[i]).purpose
                == ManagedRoutePurpose::VpnDnsServer implies has_prefix(all, before[i].prefix) by {
            if i < front.len() {
                assert(front[i] == before[i]);
                assert(has_prefix(some, front[i].prefix));
            } else if !has_prefix(some, route.prefix) {
                assert(all[some.len() as int].prefix == route.prefix);
            }
        }
    }
}

/// Lists of routes match just where they are as long as each other and everything of the
/// first stands in the second.
pub proof fn law_matching_compares_whole_lists(left: Seq<RouteView>, right: Seq<RouteView>)
    ensures
        matching(left, right) <==> left.len() == right.len() && forall|route: RouteView| #[trigger]
            left.contains(route) ==> right.contains(route),
        matching(left, left),
{
    if left.len() == right.len() && forall|route: RouteView| #[trigger]
        left.contains(route) ==> right.contains(route) {
        assert forall|i: int| 0 <= i < left.len() implies right.contains(#[trigger] left[i]) by {
            assert(left.contains(left[i]));
        }
    }
    if matching(left, right) {
        assert forall|route: RouteView| #[trigger] left.contains(route) implies right.contains(
            route,
        ) by {
            let i = choose|i: int| 0 <= i < left.len() && left[i] == route;
            assert(right.contains(left[i]));
        }
    }
}

/// Closing the program switches every VPN off and keeps what the user has entered. Where
/// the routes could be removed none is left, and where they could not, even at the last
/// attempt, all of them are kept for the next start and the failure is told.
pub proof fn law_closing_keeps_what_was_entered(
    before: StateView,
    attempts: Seq<Result<(), Seq<char>>>,
    p: int,
)
    requires
        0 <= p < before.profiles.len(),
    ensures
        ({
            let (after, result) = cleaned_up(before, attempts);
            let failed = attempts.len() > 0 && attempts[attempts.len() - 1] is Err;
            &&& after.profiles.len() == before.profiles.len()
            &&& after.profiles[p].vpn == before.profiles[p].vpn
            &&& after.profiles[p].networks == before.profiles[p].networks
            &&& after.profiles[p].adapter_description == before.profiles[p].adapter_description
            &&& !after.profiles[p].enabled
            &&& failed ==> result is Err && after.routes == before.routes
            &&& !failed ==> result is Ok && after.routes.len() == 0
        }),
{
}

} // verus!
