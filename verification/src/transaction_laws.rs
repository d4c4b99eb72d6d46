//! What holds of a policy that is put into force step by step.

use vstd::prelude::*;

use crate::dns_plan::{all_server_routes, ProfilePlanView};
use crate::domain::{entries_of, networks_among, VpnProfile};
use crate::policy::{conflict_in_plans, no_conflicts, staged, transition};
use crate::routes::matching;
use crate::transaction::{rolled_back, Replies, TransactionView};
use crate::windows::RouteView;

verus! {

/// No target of an enabled profile holds a name server that another VPN is planned with,
/// and every list can be read.
pub open spec fn targets_fit(
    profiles: Seq<VpnProfile>,
    plans: Seq<ProfilePlanView>,
    p: int,
) -> bool {
    let networks = networks_among(entries_of(profiles[p].networks@));
    &&& networks is Ok
    &&& conflict_in_plans(networks->Ok_0, profiles[p].vpn, plans) is None
}

/// A plan for names goes with the targets just where it does so for every enabled profile.
pub proof fn law_every_enabled_profile_has_to_fit(
    profiles: Seq<VpnProfile>,
    plans: Seq<ProfilePlanView>,
)
    ensures
        no_conflicts(profiles, plans) is Ok <==> forall|p: int|
            0 <= p < profiles.len() && (#[trigger] profiles[p]).enabled ==> targets_fit(
                profiles,
                plans,
                p,
            ),
    decreases profiles.len(),
{
    if profiles.len() > 0 {
        let front = profiles.drop_last();
        law_every_enabled_profile_has_to_fit(front, plans);
        assert(profiles[profiles.len() - 1] == profiles.last());
        assert forall|p: int| 0 <= p < front.len() implies targets_fit(front, plans, p)
            == targets_fit(profiles, plans, p) && front[p] == #[trigger] profiles[p] by {}
        if no_conflicts(profiles, plans) is Ok {
            assert forall|p: int|
                0 <= p < profiles.len() && (#[trigger] profiles[p]).enabled implies targets_fit(
                profiles,
                plans,
                p,
            ) by {
                if p < front.len() {
                    assert(front[p].enabled);
                }
            }
        }
        if forall|p: int|
            0 <= p < profiles.len() && (#[trigger] profiles[p]).enabled ==> targets_fit(
                profiles,
                plans,
                p,
            ) {
            assert forall|p: int|
                0 <= p < front.len() && (#[trigger] front[p]).enabled implies targets_fit(
                front,
                plans,
                p,
            ) by {
                assert(profiles[p].enabled);
            }
            if profiles.last().enabled {
                assert(targets_fit(profiles, plans, profiles.len() - 1));
            }
        }
    }
}

/// A policy is in force just where every step that was due succeeded: the plan for names
/// could be made and goes with the targets, the routes to the name servers came into force,
/// the policy could be prepared with what they answered, the routes on the way to the final
/// ones came into force, and so did the rules. What is left over from before may stay a
/// while. It counts as a change where any of the steps was due or the rules changed.
pub proof fn law_policy_comes_into_force_step_by_step(view: TransactionView, replies: Replies)
    ensures
        ({
            let first = staged(view.managed, all_server_routes(view.plan()->Ok_0.values()));
            let policy = view.prepared(replies.answers);
            let between = transition(first, policy->Ok_0.routes);
            let outcome = view.outcome(replies);
            &&& outcome is Ok <==> {
                &&& view.plan() is Ok
                &&& no_conflicts(view.profiles, view.plan()->Ok_0.values()) is Ok
                &&& matching(view.active, first) || replies.bootstrap is Ok
                &&& policy is Ok
                &&& matching(first, between) || replies.transition is Ok
                &&& replies.rules is Ok
            }
            &&& outcome is Ok ==> {
                let stays = !matching(between, policy->Ok_0.routes) && replies.cleanup is Err;
                &&& outcome->Ok_0.prepared.routes == (if stays {
                    between
                } else {
                    policy->Ok_0.routes
                })
                &&& outcome->Ok_0.prepared.dns_rules == policy->Ok_0.dns_rules
                &&& !stays ==> outcome->Ok_0.prepared.warnings == policy->Ok_0.warnings
                &&& stays ==> outcome->Ok_0.prepared.warnings.len()
                    == policy->Ok_0.warnings.len() + 1
                &&& outcome->Ok_0.changed == (!matching(view.active, first) || !matching(
                    first,
                    between,
                ) || !matching(between, policy->Ok_0.routes) || replies.rules->Ok_0)
            }
        }),
{
}

/// A failure is told with its reason, and with how going back ended where that was due.
pub proof fn law_failure_tells_how_going_back_ended(
    active: Seq<RouteView>,
    original: Seq<RouteView>,
    reason: Seq<char>,
    outcome: Result<(), Seq<char>>,
)
    ensures
        ({
            let told = rolled_back(active, original, reason, outcome);
            &&& told.len() >= reason.len()
            &&& told.take(reason.len() as int) == reason
            &&& matching(active, original) ==> told == reason
            &&& !matching(active, original) && outcome is Err ==> told.len()
                >= outcome->Err_0.len() && told.skip(told.len() - outcome->Err_0.len())
                == outcome->Err_0
        }),
{
    let told = rolled_back(active, original, reason, outcome);
    assert(told.take(reason.len() as int) =~= reason);
    if !matching(active, original) && outcome is Err {
        assert(told.skip(told.len() - outcome->Err_0.len()) =~= outcome->Err_0);
    }
}

} // verus!
