//! What holds of the program while it runs, from its start to its end.

use vstd::prelude::*;

use crate::domain::{
    distinct_vpns, is_enabled, lemma_profile_index, only_disabled, profile_of, VpnKind, VpnProfile,
};
use crate::health_laws::{lemma_only_disabled, lemma_with_enabled};
use crate::lists::{first_index, lemma_first_index, lemma_is_first};
use crate::operations::{
    policy_outcome, policy_possible, ApplyReplies, DnsRefreshView, OperationKind, OperationResult,
    PolicyView, QueuedForegroundAction, ToggleOutcome,
};
use crate::physical_laws::law_disabled_vpn_has_no_routes;
use crate::preparation::PreparedView;
use crate::routes::{count_of, law_startup_keeps_no_routes, matching, reconciled};
use crate::selection::any_enabled;
use crate::session::{
    auto_selected, auto_selected_for, synced, synced_for, without_vpns, SaveView, SessionView,
};
use crate::state::{
    all_disabled, cleaned_up, half_route, has_legacy_pair, is_half, leads_elsewhere, migrated,
    migrated_for, StateView,
};
use crate::transaction::{replaces, replaces_rules};
use crate::validation::AnswerView;
use crate::windows::{
    ManagedDnsRule, ManagedRoute, ManagedRoutePurpose, NetworkAdapter, RouteView,
};

verus! {

/// Putting a policy into force that fails has either not touched the routes, failed at
/// replacing them, or asked for those that were in force before.
pub proof fn law_failed_policy_goes_back<
    R: FnMut(&[ManagedRoute], &[ManagedRoute]) -> Result<(), String>,
    D: FnMut(&[ManagedDnsRule]) -> Result<bool, String>,
>(
    current: Seq<RouteView>,
    prepared: PreparedView,
    replies: ApplyReplies,
    replace: R,
    replace_rules: D,
)
    requires
        policy_possible(current, prepared, replies, replace, replace_rules),
        policy_outcome(current, prepared, replies) is Err,
    ensures
        matching(current, prepared.routes) || replies.routes is Err || replaces(
            replace,
            prepared.routes,
            current,
            replies.rollback,
        ),
{
}

/// Putting a policy into force that succeeds has put the routes into force, where they
/// were not, and the rules for names.
pub proof fn law_applied_policy_took_effect<
    R: FnMut(&[ManagedRoute], &[ManagedRoute]) -> Result<(), String>,
    D: FnMut(&[ManagedDnsRule]) -> Result<bool, String>,
>(
    current: Seq<RouteView>,
    prepared: PreparedView,
    replies: ApplyReplies,
    replace: R,
    replace_rules: D,
)
    requires
        policy_possible(current, prepared, replies, replace, replace_rules),
        policy_outcome(current, prepared, replies) is Ok,
    ensures
        matching(current, prepared.routes) || replaces(replace, current, prepared.routes, Ok(())),
        replies.rules is Ok && replaces_rules(replace_rules, prepared.dns_rules, replies.rules),
{
}

/// Resolving names again changes nothing where the routes and the rules come out as they
/// were.
pub proof fn law_unchanged_names_change_nothing(
    view: PolicyView,
    answers: Seq<AnswerView>,
    replies: ApplyReplies,
)
    requires
        view.prepared(answers) matches Ok(prepared) && matching(view.current, prepared.routes),
        replies.rules == Ok::<bool, Seq<char>>(false),
    ensures
        view.resolved_again(answers, replies) == DnsRefreshView::Unchanged,
{
}

/// Switching a profile off removes its routes, and changes no other profile.
pub proof fn law_switching_off_removes_routes(
    view: PolicyView,
    vpn: VpnKind,
    answers: Seq<AnswerView>,
    replies: ApplyReplies,
)
    requires
        distinct_vpns(view.profiles),
        view.toggled(vpn, false, answers, replies) is Applied,
    ensures
        ({
            let routes = view.toggled(vpn, false, answers, replies)->routes;
            let profiles = view.toggled(vpn, false, answers, replies)->profiles;
            &&& forall|i: int| 0 <= i < routes.len() ==> (#[trigger] routes[i]).vpn != vpn
            &&& !is_enabled(profiles, vpn)
            &&& forall|other: VpnKind|
                other != vpn ==> #[trigger] profile_of(profiles, other) == profile_of(
                    view.profiles,
                    other,
                )
        }),
{
    let next = view.switched(vpn, false);
    lemma_with_enabled(view.profiles, vpn, false);
    assert forall|i: int, j: int| 0 <= i < j < next.profiles.len() implies (
    #[trigger] next.profiles[i]).vpn != (#[trigger] next.profiles[j]).vpn by {
        lemma_profile_index(view.profiles, vpn);
        assert(view.profiles[i].vpn != view.profiles[j].vpn);
    }
    law_disabled_vpn_has_no_routes(next.profiles, next.adapters, next.gateway, answers, vpn);
}

/// A profile that could not be switched stays as it was, and so do all other profiles,
/// the routes and the plans; nothing is saved.
pub proof fn law_failed_toggle_keeps_the_state(
    session: SessionView,
    outcome: ToggleOutcome,
    now: u64,
)
    requires
        outcome is Failed,
    ensures
        ({
            let after = session.toggled(outcome, now);
            &&& after == (SessionView { banner: after.banner, dialog: after.dialog, ..session })
            &&& outcome->attempted_enabled ==> after.dialog == Some(outcome->error@)
            &&& session.save_after(OperationResult::Toggle(outcome))
                == SaveView::Nothing
        }),
{
}

/// What is saved is what the operation left, but after looking for interfaces: then it
/// is saved before an interface is selected for any profile.
pub proof fn law_saved_state_is_what_was_left(
    session: SessionView,
    result: OperationResult,
    now: u64,
)
    ensures
        ({
            let after = session.with_result(result, now);
            match session.save_after(result) {
                SaveView::Nothing => true,
                SaveView::Quiet(saved) => {
                    &&& saved.routes == after.routes
                    &&& if result is Refresh && result->Refresh_0.adapter_notice is Ok {
                        after.profiles == auto_selected(saved.profiles, after.adapters)
                    } else {
                        saved.profiles == after.profiles
                    }
                },
                SaveView::AfterToggle(saved) | SaveView::AfterDnsRefresh(saved) => {
                    saved == (StateView { profiles: after.profiles, routes: after.routes })
                },
            }
        }),
{
}

/// What runs by itself does not keep the user waiting. What the user asks for meanwhile
/// waits, and has its turn when that has ended.
pub proof fn law_background_operation_does_not_block(
    session: SessionView,
    kind: OperationKind,
    vpn: VpnKind,
    enabled: bool,
    now: u64,
)
    requires
        !kind.is_foreground(),
        session.pending == Some(kind),
        session.queued is None,
    ensures
        !session.is_busy(),
        ({
            let asked = session.asked_to_switch(vpn, enabled);
            &&& asked.pending == session.pending
            &&& asked.queued == Some(QueuedForegroundAction::ToggleProfile { vpn, enabled })
            &&& asked.is_busy()
            &&& SessionView { pending: None, ..asked }.queued_started(now) == SessionView {
                pending: None,
                queued: None,
                ..asked
            }.asked_to_switch(vpn, enabled)
            &&& is_enabled(session.profiles, vpn) != enabled ==> SessionView {
                pending: None,
                ..asked
            }.queued_started(now).pending == Some(
                OperationKind::ToggleProfile { vpn, enabled },
            )
        }),
        ({
            let asked = session.asked_to_refresh(now);
            &&& asked.pending == session.pending
            &&& asked.queued == Some(QueuedForegroundAction::RefreshAdapters)
            &&& asked.is_busy()
            &&& SessionView { pending: None, ..asked }.queued_started(now).pending == Some(
                OperationKind::RefreshAdapters,
            )
        }),
{
}

/// Only one operation runs at a time: while one is running, nothing starts another.
pub proof fn law_one_operation_at_a_time(
    session: SessionView,
    vpn: VpnKind,
    enabled: bool,
    now: u64,
)
    requires
        session.pending is Some,
    ensures
        session.asked_to_switch(vpn, enabled).pending == session.pending,
        session.asked_to_refresh(now).pending == session.pending,
        session.queued_started(now) == session,
        session.health_started(now) == session,
        session.names_started(now) == session,
{
}

/// Nothing is due before the time that is waited for has passed, and something is when
/// it has.
pub proof fn law_nothing_is_due_while_waiting(session: SessionView, now: u64, then: u64)
    requires
        session.pending is None,
        session.quiet_for(now) is Some,
        now <= then,
    ensures
        then < now + session.quiet_for(now)->0 ==> !session.health_due(then) && !session.names_due(
            then,
        ),
        then >= now + session.quiet_for(now)->0 ==> session.health_due(then) || session.names_due(
            then,
        ),
{
}

/// Selecting interfaces changes nothing but which interface a profile uses, and nothing
/// at all of an enabled profile.
pub proof fn law_auto_selection_leaves_enabled_profiles_alone(
    profiles: Seq<VpnProfile>,
    adapters: Seq<NetworkAdapter>,
)
    ensures
        only_interfaces_differ(profiles, auto_selected(profiles, adapters)),
{
    let first = auto_selected_for(profiles, adapters, VpnKind::FortiClient);
    let second = auto_selected_for(first, adapters, VpnKind::F5);
    lemma_profile_index(profiles, VpnKind::FortiClient);
    lemma_profile_index(first, VpnKind::F5);
    lemma_profile_index(second, VpnKind::Ivanti);
    assert(only_interfaces_differ(profiles, first));
    assert(only_interfaces_differ(first, second));
    assert(only_interfaces_differ(second, auto_selected(profiles, adapters)));
}

/// The profiles agree in everything but the interface, and enabled ones in that too.
pub open spec fn only_interfaces_differ(
    earlier: Seq<VpnProfile>,
    later: Seq<VpnProfile>,
) -> bool {
    &&& later.len() == earlier.len()
    &&& forall|i: int|
        0 <= i < earlier.len() ==> {
            &&& (#[trigger] later[i]) == (VpnProfile {
                adapter_description: later[i].adapter_description,
                ..earlier[i]
            })
            &&& earlier[i].enabled ==> later[i] == earlier[i]
        }
}

/// After stale routes have been looked for, a profile is enabled exactly where its VPN
/// has routes.
pub proof fn law_profiles_follow_their_routes(
    profiles: Seq<VpnProfile>,
    routes: Seq<RouteView>,
    vpn: VpnKind,
)
    requires
        profile_of(profiles, vpn) is Some,
    ensures
        is_enabled(synced(profiles, routes), vpn) == (count_of(routes, vpn) > 0),
{
    let first = synced_for(profiles, routes, VpnKind::FortiClient);
    let second = synced_for(first, routes, VpnKind::F5);
    lemma_with_enabled(
        profiles,
        VpnKind::FortiClient,
        count_of(routes, VpnKind::FortiClient) > 0,
    );
    lemma_with_enabled(first, VpnKind::F5, count_of(routes, VpnKind::F5) > 0);
    lemma_with_enabled(second, VpnKind::Ivanti, count_of(routes, VpnKind::Ivanti) > 0);
    assert(profile_of(first, vpn) is Some);
    assert(profile_of(second, vpn) is Some);
    assert(profile_of(synced(profiles, routes), vpn) is Some);
}

/// A health check leaves what the user has edited meanwhile: it only disables profiles,
/// and of those that it reports none stays enabled.
pub proof fn law_health_check_keeps_edits(profiles: Seq<VpnProfile>, vpns: Seq<VpnKind>)
    ensures
        only_disabled(profiles, without_vpns(profiles, vpns)),
        forall|k: int|
            0 <= k < vpns.len() ==> !is_enabled(without_vpns(profiles, vpns), #[trigger] vpns[k]),
    decreases vpns.len(),
{
    if vpns.len() > 0 {
        let front = vpns.drop_last();
        let before = without_vpns(profiles, front);
        let after = without_vpns(profiles, vpns);
        law_health_check_keeps_edits(profiles, front);
        lemma_with_enabled(before, vpns.last(), false);
        lemma_profile_index(before, vpns.last());
        assert(only_disabled(before, after)) by {
            if !is_enabled(before, vpns.last()) {
                assert(after =~= before);
            }
        }
        lemma_only_disabled(profiles, before, after);
        assert forall|k: int| 0 <= k < vpns.len() implies !is_enabled(after, #[trigger] vpns[k]) by {
            if k < front.len() {
                assert(!is_enabled(before, front[k]));
                assert(profile_of(after, vpns[k]) == profile_of(after, front[k]));
            }
        }
    }
}

/// The routes agree in everything but their purposes.
pub open spec fn only_purposes_differ(left: Seq<RouteView>, right: Seq<RouteView>) -> bool {
    &&& left.len() == right.len()
    &&& forall|i: int|
        0 <= i < left.len() ==> (#[trigger] right[i]) == (RouteView {
            purpose: right[i].purpose,
            ..left[i]
        })
}

/// The first route that satisfies a condition is at the same place in both lists where
/// the condition holds in both at the same places.
proof fn lemma_same_first(
    left: Seq<RouteView>,
    right: Seq<RouteView>,
    condition: spec_fn(RouteView) -> bool,
)
    requires
        left.len() == right.len(),
        forall|i: int| 0 <= i < left.len() ==> condition(left[i]) == condition(#[trigger] right[i]),
    ensures
        first_index(left, condition) == first_index(right, condition),
{
    lemma_first_index(left, condition);
    let at = first_index(left, condition);
    assert forall|i: int| 0 <= i < at implies !condition(#[trigger] right[i]) by {
        assert(!condition(left[i]));
    }
    lemma_is_first(right, condition, at);
}

/// Whether a VPN has a pair of routes that lead everything back does not depend on the
/// purposes that the routes carry.
pub proof fn lemma_pair_ignores_purposes(left: Seq<RouteView>, right: Seq<RouteView>, vpn: VpnKind)
    requires
        only_purposes_differ(left, right),
    ensures
        has_legacy_pair(left, vpn) == has_legacy_pair(right, vpn),
{
    lemma_same_first(left, right, half_route(vpn, "0.0.0.0/1"@));
    lemma_same_first(left, right, half_route(vpn, "128.0.0.0/1"@));
    let lower = first_index(left, half_route(vpn, "0.0.0.0/1"@));
    lemma_first_index(left, half_route(vpn, "0.0.0.0/1"@));
    if lower < left.len() {
        assert(right[lower] == (RouteView { purpose: right[lower].purpose, ..left[lower] }));
        lemma_same_first(left, right, leads_elsewhere(vpn, left[lower]));
        assert(leads_elsewhere(vpn, left[lower]) =~= leads_elsewhere(vpn, right[lower]));
    }
    let upper = first_index(left, half_route(vpn, "128.0.0.0/1"@));
    lemma_first_index(left, half_route(vpn, "128.0.0.0/1"@));
    if upper < left.len() {
        assert(right[upper] == (RouteView { purpose: right[upper].purpose, ..left[upper] }));
    }
}

/// Marking old routes changes nothing but purposes, those of halves of all addresses
/// alone, and doing it twice is doing it once.
pub proof fn law_migration_only_marks_halves(routes: Seq<RouteView>)
    ensures
        only_purposes_differ(routes, migrated(routes)),
        forall|i: int|
            0 <= i < routes.len() && (#[trigger] migrated(routes)[i]) != routes[i] ==> is_half(
                routes[i].prefix,
            ) && migrated(routes)[i].purpose == ManagedRoutePurpose::InternetBypass,
        migrated(migrated(routes)) == migrated(routes),
{
    let a = migrated_for(routes, VpnKind::FortiClient);
    let b = migrated_for(a, VpnKind::F5);
    let c = migrated_for(b, VpnKind::Ivanti);
    assert(only_purposes_differ(routes, a));
    assert(only_purposes_differ(a, b));
    assert(only_purposes_differ(b, c));
    assert(only_purposes_differ(a, c));
    assert(only_purposes_differ(routes, c));
    lemma_pair_ignores_purposes(routes, c, VpnKind::FortiClient);
    lemma_pair_ignores_purposes(a, c, VpnKind::F5);
    lemma_pair_ignores_purposes(b, c, VpnKind::Ivanti);
    assert(migrated_for(c, VpnKind::FortiClient) =~= c);
    assert(migrated_for(c, VpnKind::F5) =~= c);
    assert(migrated_for(c, VpnKind::Ivanti) =~= c);
}

/// When the program ends no profile is enabled. Where removing the routes succeeded none
/// is left in the list, and where it did not all of them are, for the next run.
pub proof fn law_shutdown_leaves_nothing_or_all(
    before: StateView,
    attempts: Seq<Result<(), Seq<char>>>,
)
    ensures
        ({
            let (after, result) = cleaned_up(before, attempts);
            &&& !any_enabled(after.profiles)
            &&& result is Ok ==> after.routes == Seq::<RouteView>::empty()
            &&& result is Err ==> after.routes == before.routes
        }),
{
}

/// The program starts with no profile enabled, so that looking for stale routes keeps
/// none of those that an earlier run has left.
pub proof fn law_start_removes_what_was_left(
    profiles: Seq<VpnProfile>,
    routes: Seq<RouteView>,
    existing: Seq<RouteView>,
    now: u64,
)
    ensures
        ({
            let session = SessionView::opened(profiles, routes, now);
            &&& !any_enabled(session.profiles)
            &&& session.routes == routes
            &&& reconciled(session.routes, existing, session.profiles) == Seq::<
                RouteView,
            >::empty()
        }),
{
    law_startup_keeps_no_routes(routes, existing, all_disabled(profiles));
}

}
