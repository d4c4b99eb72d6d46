//! What holds of the session once an operation has ended.

use vstd::prelude::*;

use crate::choice_laws::{law_chosen_interface_is_kept, leads_its_vpn};
use crate::domain::{
    is_enabled, lemma_profile_index, profile_index, profile_of, SplitterConfig, VpnKind,
    VpnProfile,
};
use crate::health::{with_enabled, RouteHealthOutcome};
use crate::lists::lemma_filter_members;
use crate::operations::{
    policy_outcome, ApplyReplies, DnsRefreshOutcome, DnsRefreshView, OperationKind,
    OperationResult, PolicyView, RefreshOutcome, ToggleOutcome, ToggleView,
};
use crate::routes::{count_of, of_vpn};
use crate::session::{
    auto_selected, synced, synced_for, without_vpns, BannerView, SaveView, SessionView,
};
use crate::validation::AnswerView;
use crate::windows::{ManagedRoute, RouteView};

verus! {

/// Nothing has changed but profiles, routes, the message and the times.
pub open spec fn same_surroundings(before: SessionView, after: SessionView) -> bool {
    &&& after.adapters == before.adapters
    &&& after.gateway == before.gateway
    &&& after.pending == before.pending
    &&& after.queued == before.queued
}

/// The times at which something is due are what they were.
pub open spec fn same_times(before: SessionView, after: SessionView) -> bool {
    &&& after.next_dns_refresh_at == before.next_dns_refresh_at
    &&& after.next_route_health_at == before.next_route_health_at
    &&& after.next_endpoint_refresh_at == before.next_endpoint_refresh_at
}

/// A profile of the VPN stands at the place, and none before it.
proof fn lemma_leads(profiles: Seq<VpnProfile>, p: int)
    requires
        leads_its_vpn(profiles, p),
    ensures
        profile_index(profiles, profiles[p].vpn) == p,
        profile_of(profiles, profiles[p].vpn) == Some(profiles[p]),
{
    lemma_profile_index(profiles, profiles[p].vpn);
    let index = profile_index(profiles, profiles[p].vpn);
    if index < p {
        assert(profiles[index].vpn != profiles[p].vpn);
    } else if index > p {
        assert(profiles[p].vpn != profiles[p].vpn);
    }
}

/// The profile of a VPN is the first one of it, and whether the VPN is switched on is what
/// that profile says; a VPN without a profile is off.
pub proof fn law_first_profile_speaks_for_its_vpn(
    profiles: Seq<VpnProfile>,
    vpn: VpnKind,
    p: int,
)
    ensures
        leads_its_vpn(profiles, p) && profiles[p].vpn == vpn ==> profile_of(profiles, vpn) == Some(
            profiles[p],
        ) && is_enabled(profiles, vpn) == profiles[p].enabled,
        (forall|q: int| 0 <= q < profiles.len() ==> (#[trigger] profiles[q]).vpn != vpn)
            ==> profile_of(profiles, vpn) is None && !is_enabled(profiles, vpn),
{
    lemma_profile_index(profiles, vpn);
    if leads_its_vpn(profiles, p) && profiles[p].vpn == vpn {
        lemma_leads(profiles, p);
    }
}

/// Switching a VPN changes the switch of its first profile and nothing else: that profile
/// keeps its targets and its interface, and every other profile is what it was.
pub proof fn law_switch_changes_one_profile(
    profiles: Seq<VpnProfile>,
    vpn: VpnKind,
    enabled: bool,
    p: int,
)
    requires
        0 <= p < profiles.len(),
    ensures
        with_enabled(profiles, vpn, enabled).len() == profiles.len(),
        with_enabled(profiles, vpn, enabled)[p].vpn == profiles[p].vpn,
        with_enabled(profiles, vpn, enabled)[p].networks == profiles[p].networks,
        with_enabled(profiles, vpn, enabled)[p].adapter_description
            == profiles[p].adapter_description,
        with_enabled(profiles, vpn, enabled)[p].enabled == (if profiles[p].vpn == vpn
            && leads_its_vpn(profiles, p) {
            enabled
        } else {
            profiles[p].enabled
        }),
{
    lemma_profile_index(profiles, vpn);
    if leads_its_vpn(profiles, p) {
        lemma_leads(profiles, p);
    } else if profile_index(profiles, vpn) == p {
        assert(leads_its_vpn(profiles, p));
    }
}

/// A switch that was carried out takes effect. The session then has the profiles and the
/// routes that were carried out, and both are what is saved. The VPN's profile is enabled
/// exactly if it was to be enabled, and the next looks are due a whole interval later.
pub proof fn law_applied_switch_takes_effect(
    session: SessionView,
    vpn: VpnKind,
    enabled: bool,
    config: SplitterConfig,
    routes: Vec<ManagedRoute>,
    warnings: Vec<String>,
    now: u64,
)
    ensures
        ({
            let outcome = ToggleOutcome::Applied { vpn, enabled, config, routes, warnings };
            let after = session.with_result(OperationResult::Toggle(outcome), now);
            let saved = session.save_after(OperationResult::Toggle(outcome));
            &&& after == session.toggled(outcome, now)
            &&& after.profiles == config.profiles@
            &&& after.routes == routes.deep_view()
            &&& is_enabled(after.profiles, vpn) == is_enabled(config.profiles@, vpn)
            &&& same_surroundings(session, after)
            &&& after.dialog == session.dialog
            &&& after.banner is Success
            &&& after.next_dns_refresh_at == now + 300_000
            &&& after.next_route_health_at == now + 5_000
            &&& after.next_endpoint_refresh_at == now + 60_000
            &&& saved matches SaveView::AfterToggle(state) && state.profiles == config.profiles@
                && state.routes == routes.deep_view()
        }),
{
}

/// A switch that failed leaves the session as it was but for what is told: the reason, and
/// where a VPN was to be switched on also in a window of its own. Nothing is saved.
pub proof fn law_failed_switch_is_only_told(
    session: SessionView,
    attempted_enabled: bool,
    error: String,
    now: u64,
)
    ensures
        ({
            let outcome = ToggleOutcome::Failed { attempted_enabled, error };
            let after = session.with_result(OperationResult::Toggle(outcome), now);
            &&& after.profiles == session.profiles
            &&& after.routes == session.routes
            &&& same_surroundings(session, after)
            &&& same_times(session, after)
            &&& after.banner == BannerView::Error(error@)
            &&& attempted_enabled ==> after.dialog == Some(error@)
            &&& !attempted_enabled ==> after.dialog == session.dialog
            &&& session.save_after(OperationResult::Toggle(outcome)) is Nothing
        }),
{
}

/// A profile is switched just where everything succeeds: the VPN has a profile, a policy
/// can be prepared for the profiles with that one switched, and it is put into force. The
/// outcome then has that profile switched, every other profile as it was, and the routes
/// that were prepared. Otherwise the switch counts as failed.
pub proof fn law_switched_profile_is_what_was_asked_for(
    view: PolicyView,
    vpn: VpnKind,
    enabled: bool,
    answers: Seq<AnswerView>,
    replies: ApplyReplies,
)
    ensures
        ({
            let next = PolicyView { profiles: with_enabled(view.profiles, vpn, enabled), ..view };
            let prepared = next.prepared(answers);
            match view.toggled(vpn, enabled, answers, replies) {
                ToggleView::Applied { vpn: switched, enabled: on, profiles, routes, warnings } => {
                    &&& profile_of(view.profiles, vpn) is Some
                    &&& prepared is Ok
                    &&& policy_outcome(view.current, prepared->Ok_0, replies) is Ok
                    &&& switched == vpn
                    &&& on == enabled
                    &&& routes == prepared->Ok_0.routes
                    &&& warnings == prepared->Ok_0.warnings
                    &&& is_enabled(profiles, vpn) == enabled
                    &&& profile_of(profiles, vpn)->0.networks == profile_of(
                        view.profiles,
                        vpn,
                    )->0.networks
                    &&& profiles.len() == view.profiles.len()
                    &&& forall|p: int|
                        0 <= p < profiles.len() && view.profiles[p].vpn != vpn ==> (
                        #[trigger] profiles[p]) == view.profiles[p]
                },
                ToggleView::Failed { attempted_enabled, error } => {
                    &&& attempted_enabled == enabled
                    &&& profile_of(view.profiles, vpn) is None || prepared is Err || policy_outcome(
                        view.current,
                        prepared->Ok_0,
                        replies,
                    ) is Err
                },
            }
        }),
{
    lemma_profile_index(view.profiles, vpn);
    let next = with_enabled(view.profiles, vpn, enabled);
    if profile_of(view.profiles, vpn) is Some {
        let p = profile_index(view.profiles, vpn);
        assert(leads_its_vpn(next, p)) by {
            assert forall|q: int| 0 <= q < p implies (#[trigger] next[q]).vpn != next[p].vpn by {
                assert(view.profiles[q].vpn != vpn);
            }
        }
        lemma_leads(next, p);
        assert(next[p].vpn == vpn);
    }
}

/// Asking for a switch and taking over how it ended leaves the VPN as it was asked for:
/// where the switch was carried out, its profile is enabled exactly if it was to be, in the
/// session as in what is saved.
pub proof fn law_switch_ends_as_asked(
    session: SessionView,
    view: PolicyView,
    vpn: VpnKind,
    enabled: bool,
    answers: Seq<AnswerView>,
    replies: ApplyReplies,
    outcome: ToggleOutcome,
    now: u64,
)
    requires
        outcome.deep_view() == view.toggled(vpn, enabled, answers, replies),
        outcome is Applied,
    ensures
        is_enabled(session.with_result(OperationResult::Toggle(outcome), now).profiles, vpn)
            == enabled,
        session.save_after(OperationResult::Toggle(outcome)) matches SaveView::AfterToggle(state)
            && is_enabled(state.profiles, vpn) == enabled,
        session.with_result(OperationResult::Toggle(outcome), now).routes == (PolicyView {
            profiles: with_enabled(view.profiles, vpn, enabled),
            ..view
        }).prepared(answers)->Ok_0.routes,
{
    law_switched_profile_is_what_was_asked_for(view, vpn, enabled, answers, replies);
}

/// A policy is in force just where every step that was due succeeded: the routes only have
/// to be replaced where they are not those in force, the rules for names always. What is
/// reported as changed is whether either of them changed.
pub proof fn law_policy_needs_every_step(
    current: Seq<RouteView>,
    prepared: crate::preparation::PreparedView,
    replies: ApplyReplies,
)
    ensures
        ({
            let alike = current.len() == prepared.routes.len() && forall|i: int|
                0 <= i < current.len() ==> prepared.routes.contains(#[trigger] current[i]);
            let outcome = policy_outcome(current, prepared, replies);
            &&& outcome is Ok <==> (alike || replies.routes is Ok) && replies.rules is Ok
            &&& outcome is Ok ==> outcome->Ok_0 == (!alike || replies.rules->Ok_0)
            &&& !alike && replies.routes is Err ==> outcome == Err::<bool, Seq<char>>(
                replies.routes->Err_0,
            )
            &&& alike && replies.rules is Err ==> outcome == Err::<bool, Seq<char>>(
                replies.rules->Err_0,
            )
        }),
{
}

/// Resolving names again never touches a profile: it fails, leaves everything in place, or
/// gives the routes that were prepared for the profiles as they are.
pub proof fn law_names_are_resolved_for_the_profiles_as_they_are(
    view: PolicyView,
    answers: Seq<AnswerView>,
    replies: ApplyReplies,
)
    ensures
        ({
            let prepared = view.prepared(answers);
            match view.resolved_again(answers, replies) {
                DnsRefreshView::Failed(_) => prepared is Err || policy_outcome(
                    view.current,
                    prepared->Ok_0,
                    replies,
                ) is Err,
                DnsRefreshView::Unchanged => prepared is Ok && policy_outcome(
                    view.current,
                    prepared->Ok_0,
                    replies,
                ) == Ok::<bool, Seq<char>>(false),
                DnsRefreshView::Updated { routes, warnings } => prepared is Ok && routes
                    == prepared->Ok_0.routes && warnings == prepared->Ok_0.warnings
                    && policy_outcome(view.current, prepared->Ok_0, replies) == Ok::<
                    bool,
                    Seq<char>,
                >(true),
            }
        }),
{
}

/// The VPN has a route.
pub open spec fn has_route(routes: Seq<RouteView>, vpn: VpnKind) -> bool {
    exists|i: int| 0 <= i < routes.len() && (#[trigger] routes[i]).vpn == vpn
}

/// A VPN has routes just where some route is its own.
proof fn lemma_has_route(routes: Seq<RouteView>, vpn: VpnKind)
    ensures
        count_of(routes, vpn) > 0 <==> has_route(routes, vpn),
{
    lemma_filter_members(routes, of_vpn(vpn));
    if count_of(routes, vpn) > 0 {
        let kept = routes.filter(of_vpn(vpn))[0];
        assert(routes.filter(of_vpn(vpn)).contains(kept));
        assert(routes.contains(kept));
    }
    if has_route(routes, vpn) {
        let i = choose|i: int| 0 <= i < routes.len() && (#[trigger] routes[i]).vpn == vpn;
        assert(routes.contains(routes[i]));
        assert(routes.filter(of_vpn(vpn)).contains(routes[i]));
    }
}

/// After stale routes have been looked for, a profile is enabled exactly if its VPN has a
/// route left, and it is otherwise what it was. A profile behind another one of its VPN is
/// left alone.
pub proof fn law_profiles_are_on_where_routes_are(
    profiles: Seq<VpnProfile>,
    routes: Seq<RouteView>,
    p: int,
)
    requires
        0 <= p < profiles.len(),
    ensures
        synced(profiles, routes).len() == profiles.len(),
        synced(profiles, routes)[p] == (VpnProfile {
            enabled: if leads_its_vpn(profiles, p) {
                has_route(routes, profiles[p].vpn)
            } else {
                profiles[p].enabled
            },
            ..profiles[p]
        }),
{
    let first = synced_for(profiles, routes, VpnKind::FortiClient);
    let second = synced_for(first, routes, VpnKind::F5);
    let third = synced(profiles, routes);
    lemma_has_route(routes, VpnKind::FortiClient);
    lemma_has_route(routes, VpnKind::F5);
    lemma_has_route(routes, VpnKind::Ivanti);
    law_switch_changes_one_profile(
        profiles,
        VpnKind::FortiClient,
        count_of(routes, VpnKind::FortiClient) > 0,
        p,
    );
    assert forall|q: int| 0 <= q < profiles.len() implies (#[trigger] first[q]).vpn
        == profiles[q].vpn by {
        law_switch_changes_one_profile(
            profiles,
            VpnKind::FortiClient,
            count_of(routes, VpnKind::FortiClient) > 0,
            q,
        );
    }
    assert forall|q: int| 0 <= q < first.len() implies (#[trigger] second[q]).vpn
        == first[q].vpn by {
        law_switch_changes_one_profile(first, VpnKind::F5, count_of(routes, VpnKind::F5) > 0, q);
    }
    law_switch_changes_one_profile(first, VpnKind::F5, count_of(routes, VpnKind::F5) > 0, p);
    law_switch_changes_one_profile(
        second,
        VpnKind::Ivanti,
        count_of(routes, VpnKind::Ivanti) > 0,
        p,
    );
    assert(leads_its_vpn(profiles, p) <==> leads_its_vpn(first, p)) by {
        assert forall|q: int| 0 <= q < p implies first[q].vpn == (#[trigger] profiles[q]).vpn by {}
    }
    assert(leads_its_vpn(first, p) <==> leads_its_vpn(second, p)) by {
        assert forall|q: int| 0 <= q < p implies second[q].vpn == (#[trigger] first[q]).vpn by {}
    }
}

/// Looking for interfaces and stale routes takes over what was found, and only that: the
/// routes, the gateway and the interfaces each where they could be found, and otherwise
/// what the session had. Targets are never touched. The profiles follow the routes that
/// were found, and then get their interfaces from the interfaces that were found.
pub proof fn law_refresh_takes_over_what_was_found(session: SessionView, outcome: RefreshOutcome)
    ensures
        ({
            let after = session.refreshed(outcome);
            let followed = if outcome.route_notice is Ok {
                synced(session.profiles, outcome.route_notice->Ok_0.routes.deep_view())
            } else {
                session.profiles
            };
            &&& after.routes == (if outcome.route_notice is Ok {
                outcome.route_notice->Ok_0.routes.deep_view()
            } else {
                session.routes
            })
            &&& after.gateway == (if outcome.gateway_notice is Ok {
                outcome.gateway_notice->Ok_0.deep_view()
            } else {
                session.gateway
            })
            &&& after.adapters == (if outcome.adapter_notice is Ok {
                outcome.adapter_notice->Ok_0@
            } else {
                session.adapters
            })
            &&& after.profiles.len() == session.profiles.len()
            &&& forall|p: int|
                0 <= p < session.profiles.len() ==> {
                    &&& (#[trigger] after.profiles[p]).vpn == session.profiles[p].vpn
                    &&& after.profiles[p].networks == session.profiles[p].networks
                    &&& after.profiles[p].enabled == (if outcome.route_notice is Ok
                        && leads_its_vpn(session.profiles, p) {
                        has_route(after.routes, session.profiles[p].vpn)
                    } else {
                        session.profiles[p].enabled
                    })
                }
            &&& outcome.adapter_notice is Ok ==> after.profiles == auto_selected(
                followed,
                after.adapters,
            )
            &&& outcome.adapter_notice is Err ==> after.profiles == followed && after.banner
                == BannerView::Error(outcome.adapter_notice->Err_0@)
            &&& outcome.adapter_notice is Ok && (outcome.gateway_notice is Err
                || outcome.dns_notice is Err || outcome.route_notice is Err)
                ==> after.banner is Error
            &&& outcome.adapter_notice is Ok && outcome.gateway_notice is Ok
                && outcome.dns_notice is Ok && outcome.route_notice is Ok ==> after.banner is Info
            &&& after.dialog == session.dialog
            &&& after.pending == session.pending
            &&& after.queued == session.queued
            &&& same_times(session, after)
        }),
{
    let after = session.refreshed(outcome);
    let followed = if outcome.route_notice is Ok {
        synced(session.profiles, outcome.route_notice->Ok_0.routes.deep_view())
    } else {
        session.profiles
    };
    assert(followed.len() == session.profiles.len()) by {
        if outcome.route_notice is Ok && session.profiles.len() > 0 {
            law_profiles_are_on_where_routes_are(
                session.profiles,
                outcome.route_notice->Ok_0.routes.deep_view(),
                0,
            );
        } else if outcome.route_notice is Ok {
            lemma_profile_index(session.profiles, VpnKind::FortiClient);
            lemma_profile_index(session.profiles, VpnKind::F5);
            lemma_profile_index(session.profiles, VpnKind::Ivanti);
        }
    }
    if outcome.adapter_notice is Ok {
        crate::session_laws::law_auto_selection_leaves_enabled_profiles_alone(
            followed,
            outcome.adapter_notice->Ok_0@,
        );
    }
    assert forall|p: int| 0 <= p < session.profiles.len() implies {
        &&& (#[trigger] after.profiles[p]).vpn == session.profiles[p].vpn
        &&& after.profiles[p].networks == session.profiles[p].networks
        &&& after.profiles[p].enabled == (if outcome.route_notice is Ok && leads_its_vpn(
            session.profiles,
            p,
        ) {
            has_route(after.routes, session.profiles[p].vpn)
        } else {
            session.profiles[p].enabled
        })
    } by {
        if outcome.route_notice is Ok {
            law_profiles_are_on_where_routes_are(
                session.profiles,
                outcome.route_notice->Ok_0.routes.deep_view(),
                p,
            );
        }
        if outcome.adapter_notice is Ok {
            law_chosen_interface_is_kept(followed, outcome.adapter_notice->Ok_0@, p);
        }
    }
}

/// Names that were resolved again change the routes only, and only where there are new
/// ones. A failure is told and changes nothing else.
pub proof fn law_resolved_names_change_routes_only(
    session: SessionView,
    outcome: DnsRefreshOutcome,
    now: u64,
)
    ensures
        ({
            let after = session.with_result(OperationResult::RefreshDns(outcome), now);
            let saved = session.save_after(OperationResult::RefreshDns(outcome));
            &&& after.profiles == session.profiles
            &&& same_surroundings(session, after)
            &&& same_times(session, after)
            &&& after.dialog == session.dialog
            &&& match outcome {
                DnsRefreshOutcome::Unchanged => after == session && saved is Nothing,
                DnsRefreshOutcome::Updated { routes, warnings } => {
                    &&& after.routes == routes.deep_view()
                    &&& after.banner is Success
                    &&& saved matches SaveView::AfterDnsRefresh(state) && state.profiles
                        == session.profiles && state.routes == routes.deep_view()
                },
                DnsRefreshOutcome::Failed(reason) => {
                    &&& after.routes == session.routes
                    &&& after.banner == BannerView::Error(reason@)
                    &&& saved is Nothing
                },
            }
        }),
{
}

/// A profile that a health check disables is the first one of a VPN that it reports.
proof fn lemma_disabled_where_reported(profiles: Seq<VpnProfile>, vpns: Seq<VpnKind>, p: int)
    requires
        0 <= p < profiles.len(),
    ensures
        without_vpns(profiles, vpns).len() == profiles.len(),
        without_vpns(profiles, vpns)[p].vpn == profiles[p].vpn,
        without_vpns(profiles, vpns)[p] == (VpnProfile {
            enabled: profiles[p].enabled && !(leads_its_vpn(profiles, p) && vpns.contains(
                profiles[p].vpn,
            )),
            ..profiles[p]
        }),
    decreases vpns.len(),
{
    if vpns.len() > 0 {
        let front = vpns.drop_last();
        let before = without_vpns(profiles, front);
        lemma_disabled_where_reported(profiles, front, p);
        law_switch_changes_one_profile(before, vpns.last(), false, p);
        assert(leads_its_vpn(profiles, p) <==> leads_its_vpn(before, p)) by {
            assert forall|q: int| 0 <= q < p implies (#[trigger] before[q]).vpn
                == profiles[q].vpn by {
                lemma_disabled_where_reported(profiles, front, q);
            }
            assert forall|q: int| 0 <= q < p implies before[q].vpn == (
            #[trigger] profiles[q]).vpn by {
                lemma_disabled_where_reported(profiles, front, q);
            }
        }
        assert(vpns.contains(profiles[p].vpn) <==> front.contains(profiles[p].vpn) || vpns.last()
            == profiles[p].vpn) by {
            if vpns.contains(profiles[p].vpn) {
                let k = choose|k: int| 0 <= k < vpns.len() && vpns[k] == profiles[p].vpn;
                if k < front.len() {
                    assert(front[k] == vpns[k]);
                }
            }
            if front.contains(profiles[p].vpn) {
                let k = choose|k: int| 0 <= k < front.len() && front[k] == profiles[p].vpn;
                assert(vpns[k] == front[k]);
            }
            assert(vpns[vpns.len() - 1] == vpns.last());
        }
    }
}

/// A health check that repaired something takes effect: the session has the routes, the
/// interfaces and the gateway that were found, the VPNs that were reported are off, and
/// nothing else of a profile changes. It is saved just where routes or profiles are not
/// what they were. A check that found everything in order changes nothing, and one that
/// failed is repeated after one interval.
pub proof fn law_health_check_takes_effect(
    session: SessionView,
    outcome: RouteHealthOutcome,
    now: u64,
)
    ensures
        ({
            let after = session.with_result(OperationResult::RouteHealth(outcome), now);
            let saved = session.save_after(OperationResult::RouteHealth(outcome));
            &&& after.pending == session.pending
            &&& after.queued == session.queued
            &&& after.dialog == session.dialog
            &&& after.next_dns_refresh_at == session.next_dns_refresh_at
            &&& after.next_route_health_at == session.next_route_health_at
            &&& match outcome {
                RouteHealthOutcome::Healthy => after == session && saved is Nothing,
                RouteHealthOutcome::Failed(reason) => {
                    &&& after.profiles == session.profiles
                    &&& after.routes == session.routes
                    &&& after.adapters == session.adapters
                    &&& after.gateway == session.gateway
                    &&& after.next_endpoint_refresh_at == now + 5_000
                    &&& after.banner == BannerView::Error(reason@)
                    &&& saved is Nothing
                },
                RouteHealthOutcome::Updated {
                    config,
                    routes,
                    adapters,
                    internet_gateway,
                    repaired,
                    disabled_vpns,
                    warnings,
                } => {
                    &&& after.routes == routes.deep_view()
                    &&& after.adapters == adapters@
                    &&& after.gateway is Some <==> internet_gateway is Some
                    &&& internet_gateway is Some ==> after.gateway->0
                        == internet_gateway->0.deep_view()
                    &&& after.next_endpoint_refresh_at == session.next_endpoint_refresh_at
                    &&& forall|p: int|
                        0 <= p < session.profiles.len() ==> (#[trigger] after.profiles[p]) == (
                        VpnProfile {
                            enabled: session.profiles[p].enabled && !(leads_its_vpn(
                                session.profiles,
                                p,
                            ) && disabled_vpns@.contains(session.profiles[p].vpn)),
                            ..session.profiles[p]
                        })
                    &&& disabled_vpns@.len() > 0 ==> after.banner is Info
                    &&& disabled_vpns@.len() == 0 && repaired ==> after.banner is Success
                    &&& disabled_vpns@.len() == 0 && !repaired ==> after.banner == session.banner
                    &&& if after.routes == session.routes && after.profiles == session.profiles {
                        saved is Nothing
                    } else {
                        saved matches SaveView::Quiet(state) && state.profiles == after.profiles
                            && state.routes == after.routes
                    }
                },
            }
        }),
{
    if let RouteHealthOutcome::Updated { disabled_vpns, .. } = outcome {
        let after = session.with_result(OperationResult::RouteHealth(outcome), now);
        assert forall|p: int| 0 <= p < session.profiles.len() implies (#[trigger] after.profiles[p])
            == (VpnProfile {
            enabled: session.profiles[p].enabled && !(leads_its_vpn(session.profiles, p)
                && disabled_vpns@.contains(session.profiles[p].vpn)),
            ..session.profiles[p]
        }) by {
            lemma_disabled_where_reported(session.profiles, disabled_vpns@, p);
        }
    }
}

/// Stale routes that were removed are saved at once; a search that removed none, or that
/// failed, saves nothing.
pub proof fn law_removed_routes_are_saved(session: SessionView, outcome: RefreshOutcome)
    ensures
        ({
            let saved = session.save_after(OperationResult::Refresh(outcome));
            let found = outcome.route_notice;
            if found is Ok && found->Ok_0.removed > 0 {
                saved matches SaveView::Quiet(state) && state.routes
                    == found->Ok_0.routes.deep_view() && state.profiles == synced(
                    session.profiles,
                    found->Ok_0.routes.deep_view(),
                )
            } else {
                saved is Nothing
            }
        }),
{
}

/// An operation that could not be carried out is told. It changes nothing else, but where a
/// VPN was to be switched on the user is shown why it was not.
pub proof fn law_failed_operation_changes_nothing(
    session: SessionView,
    kind: OperationKind,
    error: Seq<char>,
)
    ensures
        ({
            let after = session.failed(kind, error);
            &&& after.profiles == session.profiles
            &&& after.routes == session.routes
            &&& same_surroundings(session, after)
            &&& same_times(session, after)
            &&& after.banner == BannerView::Error(error)
            &&& after.dialog == (match kind {
                OperationKind::ToggleProfile { vpn, enabled: true } => Some(error),
                _ => session.dialog,
            })
        }),
{
}

/// A state that could not be saved is told where the user has asked for the change, and
/// nothing else changes.
pub proof fn law_failed_save_is_told(session: SessionView, request: SaveView, reason: Seq<char>)
    ensures
        ({
            let after = session.save_failed(request, reason);
            &&& after.profiles == session.profiles
            &&& after.routes == session.routes
            &&& same_surroundings(session, after)
            &&& same_times(session, after)
            &&& after.dialog == session.dialog
            &&& request is Nothing || request is Quiet ==> after.banner == session.banner
            &&& request is AfterToggle || request is AfterDnsRefresh ==> after.banner is Error
        }),
{
}

/// What is due when. Routes are looked at every five seconds while a profile is enabled or
/// a route is left, interfaces once a minute at such a look, and names every five minutes
/// while an enabled profile lists one; never while something else is running.
pub proof fn law_looks_are_due_at_their_intervals(session: SessionView, now: u64)
    ensures
        session.health_due(now) <==> session.pending is None && now >= session.next_route_health_at
            && (session.routes.len() > 0 || exists|i: int|
            0 <= i < session.profiles.len() && (#[trigger] session.profiles[i]).enabled),
        session.endpoints_due(now) <==> now >= session.next_endpoint_refresh_at,
        session.health_due(now) ==> ({
            let after = session.health_started(now);
            &&& after.pending == Some(OperationKind::RouteHealth)
            &&& after.next_route_health_at == now + 5_000
            &&& after.next_endpoint_refresh_at == (if now >= session.next_endpoint_refresh_at {
                now + 60_000
            } else {
                session.next_endpoint_refresh_at
            })
            &&& after.next_dns_refresh_at == session.next_dns_refresh_at
            &&& after.profiles == session.profiles
            &&& after.routes == session.routes
            &&& after.banner == session.banner
            &&& after.queued == session.queued
        }),
        !session.health_due(now) ==> session.health_started(now) == session,
        session.names_due(now) ==> ({
            let after = session.names_started(now);
            &&& session.pending is None
            &&& now >= session.next_dns_refresh_at
            &&& after.pending == Some(OperationKind::RefreshDns)
            &&& after.next_dns_refresh_at == now + 300_000
            &&& after.next_route_health_at == session.next_route_health_at
            &&& after.next_endpoint_refresh_at == session.next_endpoint_refresh_at
            &&& after.profiles == session.profiles
            &&& after.routes == session.routes
            &&& after.banner == session.banner
            &&& after.queued == session.queued
        }),
        !session.names_due(now) ==> session.names_started(now) == session,
{
}

/// A request of the user is carried out at once where nothing is running, waits where
/// something runs in the background, and is dropped where another request is running. A
/// switch that stands already is not set again.
pub proof fn law_request_runs_waits_or_is_dropped(
    session: SessionView,
    vpn: VpnKind,
    enabled: bool,
    now: u64,
)
    ensures
        ({
            let after = session.asked_to_switch(vpn, enabled);
            let kind = OperationKind::ToggleProfile { vpn, enabled };
            &&& after.profiles == session.profiles
            &&& after.routes == session.routes
            &&& same_times(session, after)
            &&& match session.pending {
                None => if is_enabled(session.profiles, vpn) == enabled {
                    after == session
                } else {
                    after.pending == Some(kind) && after.queued == session.queued
                },
                Some(OperationKind::ToggleProfile { .. })
                | Some(OperationKind::RefreshAdapters) => after == session,
                Some(OperationKind::RefreshDns)
                | Some(OperationKind::RouteHealth) => after.pending == session.pending
                    && after.queued == Some(
                    crate::operations::QueuedForegroundAction::ToggleProfile { vpn, enabled },
                ),
            }
        }),
        ({
            let after = session.asked_to_refresh(now);
            &&& after.profiles == session.profiles
            &&& after.routes == session.routes
            &&& match session.pending {
                None => after.pending == Some(OperationKind::RefreshAdapters) && after.queued
                    == session.queued && after.next_dns_refresh_at == now
                    && after.next_endpoint_refresh_at == now && after.next_route_health_at
                    == session.next_route_health_at,
                Some(OperationKind::ToggleProfile { .. })
                | Some(OperationKind::RefreshAdapters) => after == session,
                Some(OperationKind::RefreshDns)
                | Some(OperationKind::RouteHealth) => after.pending == session.pending
                    && same_times(session, after) && after.queued == Some(
                    crate::operations::QueuedForegroundAction::RefreshAdapters,
                ),
            }
        }),
        session.pending is None && session.queued is None ==> session.queued_started(now)
            == session,
        session.pending is None && session.queued is Some ==> session.queued_started(
            now,
        ).queued is None,
        session.is_busy() <==> session.queued is Some || session.pending == Some(
            OperationKind::RefreshAdapters,
        ) || (session.pending is Some && session.pending->0 is ToggleProfile),
{
}

} // verus!
