//! What holds of the program from its start to its end, and of the scripts that it runs.

use vstd::prelude::*;

use crate::domain::{VpnKind, VpnProfile};
use crate::health::endpoints_outdated;
use crate::lists::{first_index, lemma_first_exists, lemma_first_index, lemma_is_first};
use crate::operations::OperationKind;
use crate::powershell::{step_after, Cancellation, EventView, StepView};
use crate::session::SessionView;
use crate::session_laws::{lemma_pair_ignores_purposes, only_purposes_differ};
use crate::state::{
    cleanup_attempts, half_route, has_legacy_pair, leads_elsewhere, may_be_in_force, migrated,
    migrated_for, removes, StateView,
};
use crate::windows::{
    ManagedRoute, ManagedRoutePurpose, OutputView, RouteTableFingerprint, RouteView,
};

verus! {

/// Interfaces are looked for again unless it is not yet time and the routing table is the
/// one that was last seen.
pub proof fn law_changed_table_is_looked_at(
    scheduled: bool,
    previous: Option<RouteTableFingerprint>,
    current: RouteTableFingerprint,
)
    ensures
        scheduled ==> endpoints_outdated(scheduled, previous, current),
        previous is None ==> endpoints_outdated(scheduled, previous, current),
        previous is Some && previous != Some(current) ==> endpoints_outdated(
            scheduled,
            previous,
            current,
        ),
        !scheduled && previous == Some(current) ==> !endpoints_outdated(
            scheduled,
            previous,
            current,
        ),
{
}

/// Nothing is in force only where no route is left and no profile is switched on.
pub proof fn law_nothing_in_force_means_nothing_left(state: StateView)
    ensures
        !may_be_in_force(state) <==> state.routes.len() == 0 && forall|p: int|
            0 <= p < state.profiles.len() ==> !(#[trigger] state.profiles[p]).enabled,
{
}

/// What the user waits for are the two operations that the user starts. When the program
/// ends, an operation is broken off only if no change that was asked for gets lost: never a
/// switch, and never names that are being resolved.
pub proof fn law_what_was_asked_for_is_finished(kind: OperationKind)
    ensures
        kind.is_foreground() <==> kind is ToggleProfile || kind is RefreshAdapters,
        kind is ToggleProfile || kind is RefreshDns ==> !kind.may_be_broken_off(),
        kind is RefreshAdapters || kind is RouteHealth ==> kind.may_be_broken_off(),
{
}

/// Removing the routes at the end is tried until it succeeds, three times at most, always
/// with all of them; without routes nothing is tried.
pub proof fn law_removal_is_tried_three_times<F: FnMut(&[ManagedRoute]) -> Result<(), String>>(
    remove: F,
    routes: Seq<RouteView>,
    attempts: Seq<Result<(), Seq<char>>>,
)
    requires
        cleanup_attempts(remove, routes, attempts),
    ensures
        routes.len() == 0 <==> attempts.len() == 0,
        attempts.len() <= 3,
        forall|i: int| 0 <= i < attempts.len() - 1 ==> (#[trigger] attempts[i]) is Err,
        attempts.len() > 0 && attempts[attempts.len() - 1] is Err ==> attempts.len() == 3,
        forall|i: int|
            0 <= i < attempts.len() ==> removes(
                remove,
                routes,
                #[trigger] attempts[i],
            ),
{
}

/// The program starts with every VPN off, with what the user has entered and with the
/// routes that were left, and everything is due at once.
pub proof fn law_start_keeps_what_was_entered(
    profiles: Seq<VpnProfile>,
    routes: Seq<RouteView>,
    now: u64,
    p: int,
)
    requires
        0 <= p < profiles.len(),
    ensures
        ({
            let session = SessionView::opened(profiles, routes, now);
            &&& session.profiles.len() == profiles.len()
            &&& session.profiles[p].vpn == profiles[p].vpn
            &&& session.profiles[p].networks == profiles[p].networks
            &&& session.profiles[p].adapter_description == profiles[p].adapter_description
            &&& !session.profiles[p].enabled
            &&& session.routes == routes
            &&& session.adapters.len() == 0
            &&& session.gateway is None
            &&& session.dialog is None
            &&& session.pending is None
            &&& session.queued is None
            &&& session.next_dns_refresh_at == now
            &&& session.next_route_health_at == now
            &&& session.next_endpoint_refresh_at == now
        }),
{
}

/// The route is the first of the VPN to this half of all addresses.
pub open spec fn first_half(
    routes: Seq<RouteView>,
    vpn: VpnKind,
    half: Seq<char>,
    i: int,
) -> bool {
    &&& 0 <= i < routes.len()
    &&& routes[i].vpn == vpn
    &&& routes[i].prefix == half
    &&& forall|j: int|
        0 <= j < i ==> !((#[trigger] routes[j]).vpn == vpn && routes[j].prefix == half)
}

/// The VPN has both halves of all addresses, led the same way, while another route of it
/// leads another way: the halves lead everything else back.
pub open spec fn halves_lead_back(routes: Seq<RouteView>, vpn: VpnKind, l: int, u: int) -> bool {
    &&& first_half(routes, vpn, "0.0.0.0/1"@, l)
    &&& first_half(routes, vpn, "128.0.0.0/1"@, u)
    &&& routes[l].interface_index == routes[u].interface_index
    &&& routes[l].next_hop == routes[u].next_hop
    &&& routes[l].route_metric == routes[u].route_metric
    &&& exists|k: int|
        0 <= k < routes.len() && (#[trigger] routes[k]).vpn == vpn && routes[k].prefix
            != "0.0.0.0/1"@ && routes[k].prefix != "128.0.0.0/1"@ && (routes[k].interface_index
            != routes[l].interface_index || routes[k].next_hop != routes[l].next_hop)
}

/// A VPN has an old pair just where both halves lead back.
proof fn lemma_halves(routes: Seq<RouteView>, vpn: VpnKind)
    ensures
        has_legacy_pair(routes, vpn) <==> exists|l: int, u: int|
            halves_lead_back(routes, vpn, l, u),
{
    let low = half_route(vpn, "0.0.0.0/1"@);
    let high = half_route(vpn, "128.0.0.0/1"@);
    lemma_first_index(routes, low);
    lemma_first_index(routes, high);
    let l = first_index(routes, low);
    let u = first_index(routes, high);
    assert forall|i: int| first_half(routes, vpn, "0.0.0.0/1"@, i) <==> i == l && l
        < routes.len() by {
        if first_half(routes, vpn, "0.0.0.0/1"@, i) {
            assert forall|j: int| 0 <= j < i implies !low(#[trigger] routes[j]) by {}
            lemma_is_first(routes, low, i);
        }
        if i == l && l < routes.len() {
            assert forall|j: int| 0 <= j < i implies !((#[trigger] routes[j]).vpn == vpn
                && routes[j].prefix == "0.0.0.0/1"@) by {
                assert(!low(routes[j]));
            }
        }
    }
    assert forall|i: int| first_half(routes, vpn, "128.0.0.0/1"@, i) <==> i == u && u
        < routes.len() by {
        if first_half(routes, vpn, "128.0.0.0/1"@, i) {
            assert forall|j: int| 0 <= j < i implies !high(#[trigger] routes[j]) by {}
            lemma_is_first(routes, high, i);
        }
        if i == u && u < routes.len() {
            assert forall|j: int| 0 <= j < i implies !((#[trigger] routes[j]).vpn == vpn
                && routes[j].prefix == "128.0.0.0/1"@) by {
                assert(!high(routes[j]));
            }
        }
    }
    if l < routes.len() && u < routes.len() {
        let elsewhere = leads_elsewhere(vpn, routes[l]);
        lemma_first_exists(routes, elsewhere);
        assert(first_half(routes, vpn, "0.0.0.0/1"@, l));
        assert(first_half(routes, vpn, "128.0.0.0/1"@, u));
        if has_legacy_pair(routes, vpn) {
            let k = choose|k: int| 0 <= k < routes.len() && elsewhere(#[trigger] routes[k]);
            assert(routes[k].vpn == vpn);
            assert(halves_lead_back(routes, vpn, l, u));
        }
        if exists|a: int, b: int| halves_lead_back(routes, vpn, a, b) {
            let (a, b) = choose|a: int, b: int| halves_lead_back(routes, vpn, a, b);
            assert(a == l && b == u);
            let k = choose|k: int|
                0 <= k < routes.len() && (#[trigger] routes[k]).vpn == vpn && routes[k].prefix
                    != "0.0.0.0/1"@ && routes[k].prefix != "128.0.0.0/1"@ && (
                routes[k].interface_index != routes[l].interface_index || routes[k].next_hop
                    != routes[l].next_hop);
            assert(elsewhere(routes[k]));
        }
    } else if exists|a: int, b: int| halves_lead_back(routes, vpn, a, b) {
        let (a, b) = choose|a: int, b: int| halves_lead_back(routes, vpn, a, b);
        assert(a == l && b == u);
    }
}

/// Routes of an older version are marked just where they lead everything else back: the
/// halves of all addresses of a VPN that has both of them, led the same way, and a route of
/// its own that leads another way. No other route changes.
pub proof fn law_old_halves_are_recognised(routes: Seq<RouteView>, i: int)
    requires
        0 <= i < routes.len(),
    ensures
        migrated(routes).len() == routes.len(),
        migrated(routes)[i] == (if (routes[i].prefix == "0.0.0.0/1"@ || routes[i].prefix
            == "128.0.0.0/1"@) && exists|l: int, u: int|
            halves_lead_back(routes, routes[i].vpn, l, u) {
            RouteView { purpose: ManagedRoutePurpose::InternetBypass, ..routes[i] }
        } else {
            routes[i]
        }),
{
    let a = migrated_for(routes, VpnKind::FortiClient);
    let b = migrated_for(a, VpnKind::F5);
    let c = migrated_for(b, VpnKind::Ivanti);
    assert(only_purposes_differ(routes, a));
    assert(only_purposes_differ(a, b));
    assert(only_purposes_differ(routes, b));
    lemma_pair_ignores_purposes(routes, a, VpnKind::F5);
    lemma_pair_ignores_purposes(routes, b, VpnKind::Ivanti);
    lemma_halves(routes, routes[i].vpn);
    assert(a[i].vpn == routes[i].vpn && a[i].prefix == routes[i].prefix);
    assert(b[i].vpn == routes[i].vpn && b[i].prefix == routes[i].prefix);
    assert(c[i].vpn == routes[i].vpn);
}

/// A script is run step by step: it is looked whether to start at all, the process is
/// started, it gets its input, and its output is collected once it has exited. One that may
/// be stopped at any time is looked at again and again until it has exited, and between two
/// looks it is asked whether to stop.
pub proof fn law_script_is_run_step_by_step(cancellation: Cancellation, output: OutputView)
    ensures
        step_after(
            StepView::CheckBeforeStart,
            cancellation,
            EventView::CancelRequested(false),
        ) == StepView::Spawn,
        step_after(StepView::Spawn, cancellation, EventView::Done) == StepView::WriteInput,
        step_after(StepView::WriteInput, cancellation, EventView::Done) == (if cancellation
            == Cancellation::Always {
            StepView::CheckWhileRunning
        } else {
            StepView::Collect
        }),
        step_after(
            StepView::CheckWhileRunning,
            cancellation,
            EventView::CancelRequested(false),
        ) == StepView::Poll,
        step_after(StepView::Poll, cancellation, EventView::Exited(false)) == StepView::Sleep,
        step_after(StepView::Poll, cancellation, EventView::Exited(true)) == StepView::Collect,
        step_after(StepView::Sleep, cancellation, EventView::Done) == StepView::CheckWhileRunning,
        step_after(StepView::Collect, cancellation, EventView::Output(output))
            == StepView::Finished(Ok(output)),
{
}

/// A request to stop is heeded just where the run may be stopped: before it starts unless it
/// may never be stopped, and while it runs only if it may be stopped at any time. Otherwise
/// the run goes on.
pub proof fn law_request_to_stop_is_heeded_where_allowed(cancellation: Cancellation)
    ensures
        ({
            let asked = EventView::CancelRequested(true);
            let before = step_after(StepView::CheckBeforeStart, cancellation, asked);
            let during = step_after(StepView::CheckWhileRunning, cancellation, asked);
            &&& before is Finished <==> cancellation != Cancellation::Never
            &&& before is Finished ==> before->Finished_0 is Err
            &&& cancellation == Cancellation::Never ==> before == StepView::Spawn
            &&& during == StepView::Kill <==> cancellation == Cancellation::Always
            &&& cancellation != Cancellation::Always ==> during == StepView::Poll
        }),
{
}

/// A step that fails ends the run with its reason, and so does a run that is stopped; a run
/// that has ended stays so.
pub proof fn law_failed_step_ends_the_run(
    step: StepView,
    cancellation: Cancellation,
    reason: Seq<char>,
    event: EventView,
)
    ensures
        step is Spawn || step is WriteInput || step is Poll || step is Collect ==> ({
            let after = step_after(step, cancellation, EventView::Failed(reason));
            &&& after is Finished
            &&& after->Finished_0 is Err
            &&& after->Finished_0->Err_0.len() >= reason.len()
            &&& after->Finished_0->Err_0.skip(after->Finished_0->Err_0.len() - reason.len())
                == reason
        }),
        step is Kill ==> step_after(step, cancellation, event) is Finished && step_after(
            step,
            cancellation,
            event,
        )->Finished_0 is Err,
        step is Finished ==> step_after(step, cancellation, event) == step,
{
    if step is Spawn || step is WriteInput || step is Poll || step is Collect {
        let after = step_after(step, cancellation, EventView::Failed(reason));
        let told = after->Finished_0->Err_0;
        assert(told.skip(told.len() - reason.len()) =~= reason);
    }
}

} // verus!
