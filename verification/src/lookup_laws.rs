//! What holds of the names that are looked up and of the answers to them.

use vstd::prelude::*;

use crate::domain::{TargetEntryView, TargetView, VpnKind};
use crate::validation::{
    answer_about, lookups_of, owner_of, questions_of, AnswerView, LookupsView, OwnerView,
    ProfileTargetsView,
};

verus! {

/// The answer is the first about this name of this VPN.
pub open spec fn first_answer(
    answers: Seq<AnswerView>,
    vpn: VpnKind,
    hostname: Seq<char>,
    k: int,
) -> bool {
    &&& 0 <= k < answers.len()
    &&& answers[k].vpn == vpn
    &&& answers[k].hostname == hostname
    &&& forall|j: int|
        0 <= j < k ==> !((#[trigger] answers[j]).vpn == vpn && answers[j].hostname == hostname)
}

/// What counts for a name of a VPN is the first answer about that name of that VPN. An
/// answer about another name, or for another VPN, never counts, and without an answer the
/// name has no address.
pub proof fn law_first_answer_about_a_name_counts(
    answers: Seq<AnswerView>,
    vpn: VpnKind,
    hostname: Seq<char>,
    k: int,
)
    ensures
        first_answer(answers, vpn, hostname, k) ==> answer_about(answers, vpn, hostname)
            == answers[k].addresses,
        (forall|j: int|
            0 <= j < answers.len() ==> !((#[trigger] answers[j]).vpn == vpn && answers[j].hostname
                == hostname)) ==> answer_about(answers, vpn, hostname) == Ok::<
            Seq<u32>,
            Seq<char>,
        >(Seq::empty()),
    decreases answers.len(),
{
    if answers.len() > 0 && !(answers[0].vpn == vpn && answers[0].hostname == hostname) {
        let rest = answers.skip(1);
        law_first_answer_about_a_name_counts(rest, vpn, hostname, k - 1);
        if first_answer(answers, vpn, hostname, k) {
            assert(first_answer(rest, vpn, hostname, k - 1)) by {
                assert forall|j: int| 0 <= j < k - 1 implies !((#[trigger] rest[j]).vpn == vpn
                    && rest[j].hostname == hostname) by {
                    assert(rest[j] == answers[j + 1]);
                }
            }
        }
        if forall|j: int|
            0 <= j < answers.len() ==> !((#[trigger] answers[j]).vpn == vpn && answers[j].hostname
                == hostname) {
            assert forall|j: int| 0 <= j < rest.len() implies !((#[trigger] rest[j]).vpn == vpn
                && rest[j].hostname == hostname) by {
                assert(rest[j] == answers[j + 1]);
            }
        }
    } else if answers.len() > 0 && first_answer(answers, vpn, hostname, k) && k > 0 {
        assert(!(answers[0].vpn == vpn && answers[0].hostname == hostname));
    }
}

/// The entries list the name.
pub open spec fn names(entries: Seq<TargetEntryView>, hostname: Seq<char>) -> bool {
    exists|j: int|
        0 <= j < entries.len() && (#[trigger] entries[j]).target == TargetView::Domain(hostname)
}

/// Every name that has an owner was asked for, with that owner.
pub open spec fn owners_asked(lookups: LookupsView) -> bool {
    forall|name: Seq<char>|
        #![trigger owner_of(lookups.owners, name)]
        owner_of(lookups.owners, name) matches Some(vpn) ==> lookups.asked.contains(
            (OwnerView { hostname: name, vpn }),
        )
}

/// One more entry is asked for where it is a name, unless another VPN owns the name.
proof fn lemma_entry(lookups: LookupsView, vpn: VpnKind, entry: TargetEntryView)
    requires
        owners_asked(lookups),
    ensures
        ({
            let after = lookups.with_entry(vpn, entry);
            &&& owners_asked(after)
            &&& forall|question: OwnerView| #[trigger]
                lookups.asked.contains(question) ==> after.asked.contains(question)
            &&& forall|question: OwnerView| #[trigger]
                after.asked.contains(question) ==> lookups.asked.contains(question) || (
                question.vpn == vpn && entry.target == TargetView::Domain(question.hostname))
            &&& entry.target matches TargetView::Domain(name) ==> exists|owner: VpnKind|
                after.asked.contains((#[trigger] owned_by(name, owner)))
        }),
{
    let after = lookups.with_entry(vpn, entry);
    if let TargetView::Domain(name) = entry.target {
        let question = OwnerView { hostname: name, vpn };
        let owner = owner_of(lookups.owners, name);
        if owner is Some && owner != Some(vpn) {
            assert(after.asked.contains(owned_by(name, owner->0)));
        } else {
            assert(after.owners.drop_last() =~= lookups.owners);
            assert forall|other: OwnerView| #[trigger]
                lookups.asked.contains(other) implies after.asked.contains(other) by {
                let k = choose|k: int| 0 <= k < lookups.asked.len() && lookups.asked[k] == other;
                assert(after.asked[k] == other);
            }
            assert(after.asked.contains(question)) by {
                if !lookups.asked.contains(question) {
                    assert(after.asked[lookups.asked.len() as int] == question);
                }
            }
            assert forall|other: OwnerView| #[trigger]
                after.asked.contains(other) implies lookups.asked.contains(other) || (other.vpn
                == vpn && entry.target == TargetView::Domain(other.hostname)) by {
                let k = choose|k: int| 0 <= k < after.asked.len() && after.asked[k] == other;
                if k < lookups.asked.len() {
                    assert(lookups.asked[k] == other);
                }
            }
            assert forall|other: Seq<char>|
                #![trigger owner_of(after.owners, other)]
                owner_of(after.owners, other) is Some implies after.asked.contains(
                (OwnerView { hostname: other, vpn: owner_of(after.owners, other)->0 }),
            ) by {
                if owner_of(lookups.owners, other) is Some {
                    assert(lookups.asked.contains(
                        (OwnerView { hostname: other, vpn: owner_of(lookups.owners, other)->0 }),
                    ));
                }
            }
            assert(after.asked.contains(owned_by(name, vpn)));
        }
    }
}

/// The question for the name, with its owner.
pub open spec fn owned_by(hostname: Seq<char>, vpn: VpnKind) -> OwnerView {
    OwnerView { hostname, vpn }
}

/// More entries are asked for where they are names.
proof fn lemma_entries(lookups: LookupsView, vpn: VpnKind, entries: Seq<TargetEntryView>)
    requires
        owners_asked(lookups),
    ensures
        ({
            let after = lookups.with_entries(vpn, entries);
            &&& owners_asked(after)
            &&& forall|question: OwnerView| #[trigger]
                lookups.asked.contains(question) ==> after.asked.contains(question)
            &&& forall|question: OwnerView| #[trigger]
                after.asked.contains(question) ==> lookups.asked.contains(question) || (
                question.vpn == vpn && names(entries, question.hostname))
            &&& forall|name: Seq<char>| #[trigger]
                names(entries, name) ==> exists|owner: VpnKind|
                    after.asked.contains((#[trigger] owned_by(name, owner)))
        }),
    decreases entries.len(),
{
    if entries.len() > 0 {
        let front = entries.drop_last();
        let last = entries.last();
        let before = lookups.with_entries(vpn, front);
        let after = lookups.with_entries(vpn, entries);
        lemma_entries(lookups, vpn, front);
        lemma_entry(before, vpn, last);
        assert(entries[entries.len() - 1] == last);
        assert forall|question: OwnerView| #[trigger]
            after.asked.contains(question) implies lookups.asked.contains(question) || (
        question.vpn == vpn && names(entries, question.hostname)) by {
            if before.asked.contains(question) && names(front, question.hostname) {
                let j = choose|j: int|
                    0 <= j < front.len() && (#[trigger] front[j]).target == TargetView::Domain(
                        question.hostname,
                    );
                assert(entries[j] == front[j]);
            }
        }
        assert forall|name: Seq<char>| #[trigger] names(entries, name) implies exists|
            owner: VpnKind,
        | after.asked.contains((#[trigger] owned_by(name, owner))) by {
            let j = choose|j: int|
                0 <= j < entries.len() && (#[trigger] entries[j]).target == TargetView::Domain(
                    name,
                );
            if j < front.len() {
                assert(front[j] == entries[j]);
                assert(names(front, name));
                let owner = choose|owner: VpnKind|
                    before.asked.contains((#[trigger] owned_by(name, owner)));
                assert(after.asked.contains(owned_by(name, owner)));
            }
        }
    }
}

/// Every name is looked up: what is asked for is a name that a profile of that VPN lists,
/// and each name that a profile lists is asked for, with the servers of that VPN unless a
/// profile of another VPN lists it too.
pub proof fn law_listed_names_are_looked_up(targets: Seq<ProfileTargetsView>)
    ensures
        forall|question: OwnerView| #[trigger]
            questions_of(targets).contains(question) ==> exists|i: int|
                0 <= i < targets.len() && (#[trigger] targets[i]).vpn == question.vpn && names(
                    targets[i].entries,
                    question.hostname,
                ),
        forall|i: int, name: Seq<char>|
            0 <= i < targets.len() && #[trigger] names(targets[i].entries, name) ==> exists|
                owner: VpnKind,
            | questions_of(targets).contains((#[trigger] owned_by(name, owner))),
        forall|i: int, name: Seq<char>|
            0 <= i < targets.len() && #[trigger] names(targets[i].entries, name) && (forall|k: int|
                0 <= k < targets.len() && names((#[trigger] targets[k]).entries, name)
                    ==> targets[k].vpn == targets[i].vpn) ==> questions_of(targets).contains(
                owned_by(name, targets[i].vpn),
            ),
{
    lemma_looked_up(targets);
    assert forall|i: int, name: Seq<char>|
        0 <= i < targets.len() && #[trigger] names(targets[i].entries, name) && (forall|k: int|
            0 <= k < targets.len() && names((#[trigger] targets[k]).entries, name)
                ==> targets[k].vpn == targets[i].vpn) implies questions_of(targets).contains(
        owned_by(name, targets[i].vpn),
    ) by {
        let owner = choose|owner: VpnKind|
            questions_of(targets).contains((#[trigger] owned_by(name, owner)));
        let k = choose|k: int|
            0 <= k < targets.len() && (#[trigger] targets[k]).vpn == owner && names(
                targets[k].entries,
                name,
            );
        assert(targets[k].vpn == targets[i].vpn);
    }
}

/// What is asked for, profile by profile.
proof fn lemma_looked_up(targets: Seq<ProfileTargetsView>)
    ensures
        owners_asked(lookups_of(targets)),
        forall|question: OwnerView| #[trigger]
            lookups_of(targets).asked.contains(question) ==> exists|i: int|
                0 <= i < targets.len() && (#[trigger] targets[i]).vpn == question.vpn && names(
                    targets[i].entries,
                    question.hostname,
                ),
        forall|i: int, name: Seq<char>|
            0 <= i < targets.len() && #[trigger] names(targets[i].entries, name) ==> exists|
                owner: VpnKind,
            | lookups_of(targets).asked.contains((#[trigger] owned_by(name, owner))),
    decreases targets.len(),
{
    if targets.len() > 0 {
        let front = targets.drop_last();
        let last = targets.last();
        let before = lookups_of(front);
        let after = lookups_of(targets);
        lemma_looked_up(front);
        lemma_entries(before, last.vpn, last.entries);
        assert(targets[targets.len() - 1] == last);
        assert forall|question: OwnerView| #[trigger]
            after.asked.contains(question) implies exists|i: int|
            0 <= i < targets.len() && (#[trigger] targets[i]).vpn == question.vpn && names(
                targets[i].entries,
                question.hostname,
            ) by {
            if before.asked.contains(question) {
                let i = choose|i: int|
                    0 <= i < front.len() && (#[trigger] front[i]).vpn == question.vpn && names(
                        front[i].entries,
                        question.hostname,
                    );
                assert(targets[i] == front[i]);
            }
        }
        assert forall|i: int, name: Seq<char>|
            0 <= i < targets.len() && #[trigger] names(targets[i].entries, name) implies exists|
            owner: VpnKind,
        | after.asked.contains((#[trigger] owned_by(name, owner))) by {
            if i < front.len() {
                assert(front[i] == targets[i]);
                assert(names(front[i].entries, name));
                let owner = choose|owner: VpnKind|
                    before.asked.contains((#[trigger] owned_by(name, owner)));
                assert(after.asked.contains(owned_by(name, owner)));
            }
        }
    }
}

} // verus!
