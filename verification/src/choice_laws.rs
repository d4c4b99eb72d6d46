//! What holds of the interfaces that the profiles use.

use vstd::prelude::*;

use crate::domain::{lemma_profile_index, profile_index, profile_of, VpnKind, VpnProfile};
use crate::lists::{
    first_index, lemma_filter_members, lemma_filter_no, lemma_first_exists, lemma_first_index,
    lemma_is_first,
};
use crate::selection::{selected, selection};
use crate::session::{
    auto_selected, auto_selected_for, belongs_to, connected_of, described, selected_description,
};
use crate::windows::{AdapterView, NetworkAdapter};

verus! {

/// The item is the only one that has the property.
pub open spec fn only_one<A>(items: Seq<A>, property: spec_fn(A) -> bool, at: int) -> bool {
    &&& 0 <= at < items.len()
    &&& property(items[at])
    &&& forall|i: int| 0 <= i < items.len() && i != at ==> !property(#[trigger] items[i])
}

/// Two items with the property are two in the list of those that have it.
pub proof fn lemma_two_kept<A>(items: Seq<A>, property: spec_fn(A) -> bool, one: int, other: int)
    requires
        0 <= one < other < items.len(),
        property(items[one]),
        property(items[other]),
    ensures
        items.filter(property).len() >= 2,
{
    let front = items.take(other);
    let back = items.skip(other);
    assert(items =~= front + back);
    Seq::filter_distributes_over_add(front, back, property);
    lemma_filter_members(front, property);
    lemma_filter_members(back, property);
    assert(front[one] == items[one]);
    assert(front.contains(items[one]));
    assert(back[0] == items[other]);
    assert(back.contains(items[other]));
    assert(front.filter(property).contains(items[one]));
    assert(back.filter(property).contains(items[other]));
}

/// The only item with the property is all that is left of the list.
pub proof fn lemma_one_kept<A>(items: Seq<A>, property: spec_fn(A) -> bool, at: int)
    requires
        only_one(items, property, at),
    ensures
        items.filter(property) == seq![items[at]],
{
    let front = items.take(at);
    let middle = seq![items[at]];
    let back = items.skip(at + 1);
    assert(items =~= front + (middle + back));
    Seq::filter_distributes_over_add(front, middle + back, property);
    Seq::filter_distributes_over_add(middle, back, property);
    assert forall|i: int| 0 <= i < front.len() implies !property(#[trigger] front[i]) by {
        assert(front[i] == items[i]);
    }
    assert forall|i: int| 0 <= i < back.len() implies !property(#[trigger] back[i]) by {
        assert(back[i] == items[at + 1 + i]);
    }
    lemma_filter_no(front, property);
    lemma_filter_no(back, property);
    crate::lists::lemma_filter_all(middle, property);
    assert(items.filter(property) =~= middle);
}

/// One item is left of a list just where only one has the property.
pub proof fn lemma_one_left<A>(items: Seq<A>, property: spec_fn(A) -> bool)
    ensures
        items.filter(property).len() == 1 <==> exists|at: int| only_one(items, property, at),
{
    if items.filter(property).len() == 1 {
        lemma_filter_members(items, property);
        let kept = items.filter(property)[0];
        assert(items.filter(property).contains(kept));
        assert(items.contains(kept));
        let at = choose|at: int| 0 <= at < items.len() && items[at] == kept;
        assert forall|i: int| 0 <= i < items.len() && i != at implies !property(
            #[trigger] items[i],
        ) by {
            if property(items[i]) {
                if i < at {
                    lemma_two_kept(items, property, i, at);
                } else {
                    lemma_two_kept(items, property, at, i);
                }
            }
        }
        assert(only_one(items, property, at));
    }
    if exists|at: int| only_one(items, property, at) {
        lemma_one_kept(items, property, choose|at: int| only_one(items, property, at));
    }
}

/// The interface is one of the VPN and connected.
pub open spec fn is_connected(adapter: NetworkAdapter, vpn: VpnKind) -> bool {
    adapter.deep_view().matches(vpn) && adapter.deep_view().is_up()
}

/// The interface is the only connected one of the VPN.
pub open spec fn only_connected(adapters: Seq<NetworkAdapter>, vpn: VpnKind, at: int) -> bool {
    &&& 0 <= at < adapters.len()
    &&& is_connected(adapters[at], vpn)
    &&& forall|i: int|
        0 <= i < adapters.len() && i != at ==> !is_connected(#[trigger] adapters[i], vpn)
}

/// Some interface of the VPN has the description.
pub open spec fn still_there(
    adapters: Seq<NetworkAdapter>,
    vpn: VpnKind,
    description: Seq<char>,
) -> bool {
    exists|i: int|
        0 <= i < adapters.len() && (#[trigger] adapters[i]).deep_view().matches(vpn)
            && adapters[i].description@ == description
}

/// The interface is the first one of the VPN.
pub open spec fn first_of_vpn(adapters: Seq<NetworkAdapter>, vpn: VpnKind, at: int) -> bool {
    &&& 0 <= at < adapters.len()
    &&& adapters[at].deep_view().matches(vpn)
    &&& forall|i: int| 0 <= i < at ==> !(#[trigger] adapters[i]).deep_view().matches(vpn)
}

/// The interface that is selected is the right one: the only connected one, else the one
/// that has been chosen while it is there, else the first one, else none.
pub open spec fn rightly_chosen(
    before: Option<String>,
    after: Option<String>,
    vpn: VpnKind,
    adapters: Seq<NetworkAdapter>,
) -> bool {
    let connected = exists|a: int| only_connected(adapters, vpn, a);
    let kept = before is Some && still_there(adapters, vpn, before->0@);
    &&& forall|a: int| #[trigger]
        only_connected(adapters, vpn, a) ==> after == Some(adapters[a].description)
    &&& !connected && kept ==> after == before
    &&& !connected && !kept ==> forall|a: int| #[trigger]
        first_of_vpn(adapters, vpn, a) ==> after == Some(adapters[a].description)
    &&& !connected && !kept && (forall|i: int|
        0 <= i < adapters.len() ==> !(#[trigger] adapters[i]).deep_view().matches(vpn))
        ==> after is None
}

/// One profile gets the right interface.
proof fn lemma_rightly_chosen(profile: VpnProfile, vpn: VpnKind, adapters: Seq<NetworkAdapter>)
    ensures
        rightly_chosen(
            profile.adapter_description,
            selected_description(profile, vpn, adapters),
            vpn,
            adapters,
        ),
{
    let property = connected_of(vpn);
    lemma_one_left(adapters, property);
    assert forall|a: int| only_connected(adapters, vpn, a) <==> only_one(adapters, property, a) by {
        if only_connected(adapters, vpn, a) {
            assert forall|i: int| 0 <= i < adapters.len() && i != a implies !property(
                #[trigger] adapters[i],
            ) by {
                assert(!is_connected(adapters[i], vpn));
            }
        }
        if only_one(adapters, property, a) {
            assert forall|i: int| 0 <= i < adapters.len() && i != a implies !is_connected(
                #[trigger] adapters[i],
                vpn,
            ) by {
                assert(!property(adapters[i]));
            }
        }
    }
    assert forall|a: int| #[trigger] only_connected(adapters, vpn, a) implies selected_description(
        profile,
        vpn,
        adapters,
    ) == Some(adapters[a].description) by {
        assert(only_one(adapters, property, a));
        lemma_one_kept(adapters, property, a);
    }
    let connected = exists|a: int| only_connected(adapters, vpn, a);
    if adapters.filter(property).len() == 1 {
        let a = choose|a: int| only_one(adapters, property, a);
        assert(only_connected(adapters, vpn, a));
    }
    if profile.adapter_description is Some {
        let text = profile.adapter_description->0@;
        lemma_first_exists(adapters, described(vpn, text));
        if still_there(adapters, vpn, text) {
            let i = choose|i: int|
                0 <= i < adapters.len() && (#[trigger] adapters[i]).deep_view().matches(vpn)
                    && adapters[i].description@ == text;
            assert(described(vpn, text)(adapters[i]));
        }
        if exists|i: int| 0 <= i < adapters.len() && described(vpn, text)(#[trigger] adapters[i]) {
            let i = choose|i: int|
                0 <= i < adapters.len() && described(vpn, text)(#[trigger] adapters[i]);
            assert(adapters[i].deep_view().matches(vpn));
        }
    }
    let own = belongs_to(vpn);
    lemma_first_index(adapters, own);
    assert forall|a: int| #[trigger] first_of_vpn(adapters, vpn, a) implies first_index(
        adapters,
        own,
    ) == a by {
        assert forall|i: int| 0 <= i < a implies !own(#[trigger] adapters[i]) by {
            assert(!adapters[i].deep_view().matches(vpn));
        }
        lemma_is_first(adapters, own, a);
    }
    if first_index(adapters, own) < adapters.len() {
        assert(adapters[first_index(adapters, own)].deep_view().matches(vpn));
    }
}

/// The profile is the first one of its VPN.
pub open spec fn leads_its_vpn(profiles: Seq<VpnProfile>, p: int) -> bool {
    &&& 0 <= p < profiles.len()
    &&& forall|q: int| 0 <= q < p ==> (#[trigger] profiles[q]).vpn != profiles[p].vpn
}

/// What one VPN's turn does to a profile.
proof fn lemma_turn(profiles: Seq<VpnProfile>, adapters: Seq<NetworkAdapter>, vpn: VpnKind, p: int)
    requires
        0 <= p < profiles.len(),
    ensures
        ({
            let after = auto_selected_for(profiles, adapters, vpn);
            &&& after.len() == profiles.len()
            &&& forall|q: int|
                0 <= q < profiles.len() ==> (#[trigger] after[q]).vpn == profiles[q].vpn
                    && after[q].enabled == profiles[q].enabled
            &&& if leads_its_vpn(profiles, p) && profiles[p].vpn == vpn && !profiles[p].enabled {
                after[p] == VpnProfile {
                    adapter_description: selected_description(profiles[p], vpn, adapters),
                    ..profiles[p]
                }
            } else {
                after[p] == profiles[p]
            }
        }),
{
    lemma_profile_index(profiles, vpn);
    let index = profile_index(profiles, vpn);
    if leads_its_vpn(profiles, p) && profiles[p].vpn == vpn {
        assert(index <= p);
        if index < p {
            assert(profiles[index].vpn != profiles[p].vpn);
        }
    } else if index == p {
        assert(leads_its_vpn(profiles, p));
    }
}

/// Selecting interfaces keeps what the user has chosen: where not exactly one interface of
/// the VPN is connected and the chosen one is still there, a disabled profile stays with
/// it. Where exactly one is connected, the profile uses that one. An enabled profile is left
/// alone, and so is one behind another of the same VPN.
pub proof fn law_chosen_interface_is_kept(
    profiles: Seq<VpnProfile>,
    adapters: Seq<NetworkAdapter>,
    p: int,
)
    requires
        0 <= p < profiles.len(),
    ensures
        ({
            let after = auto_selected(profiles, adapters)[p];
            &&& auto_selected(profiles, adapters).len() == profiles.len()
            &&& after.vpn == profiles[p].vpn
            &&& after.enabled == profiles[p].enabled
            &&& after.networks == profiles[p].networks
            &&& if leads_its_vpn(profiles, p) && !profiles[p].enabled {
                rightly_chosen(
                    profiles[p].adapter_description,
                    after.adapter_description,
                    profiles[p].vpn,
                    adapters,
                )
            } else {
                after == profiles[p]
            }
        }),
{
    let first = auto_selected_for(profiles, adapters, VpnKind::FortiClient);
    let second = auto_selected_for(first, adapters, VpnKind::F5);
    lemma_turn(profiles, adapters, VpnKind::FortiClient, p);
    lemma_turn(first, adapters, VpnKind::F5, p);
    lemma_turn(second, adapters, VpnKind::Ivanti, p);
    assert(leads_its_vpn(profiles, p) <==> leads_its_vpn(first, p)) by {
        assert forall|q: int| 0 <= q < p implies (#[trigger] first[q]).vpn == profiles[q].vpn by {}
        assert forall|q: int| 0 <= q < p implies first[q].vpn == (#[trigger] profiles[q]).vpn by {}
    }
    assert(leads_its_vpn(first, p) <==> leads_its_vpn(second, p)) by {
        assert forall|q: int| 0 <= q < p implies (#[trigger] second[q]).vpn == first[q].vpn by {}
        assert forall|q: int| 0 <= q < p implies second[q].vpn == (#[trigger] first[q]).vpn by {}
    }
    lemma_rightly_chosen(profiles[p], profiles[p].vpn, adapters);
}

/// The interface that a profile's traffic goes through is the one that it has chosen: the
/// first one of the VPN with the description, and only while it is connected.
pub proof fn law_selected_interface_is_the_chosen_one(
    profiles: Seq<VpnProfile>,
    vpn: VpnKind,
    adapters: Seq<AdapterView>,
    profile: VpnProfile,
)
    requires
        profile_of(profiles, vpn) == Some(profile),
    ensures
        selection(profiles, vpn, adapters) is Ok <==> profile.adapter_description is Some
            && exists|a: int|
            0 <= a < adapters.len() && (#[trigger] adapters[a]).is_up() && is_chosen(
                adapters,
                vpn,
                profile.adapter_description->0@,
                a,
            ),
        selection(profiles, vpn, adapters) matches Ok(adapter) ==> adapter.is_up() && exists|a: int|
            adapter == adapters[a] && #[trigger] is_chosen(
                adapters,
                vpn,
                profile.adapter_description->0@,
                a,
            ),
{
    if let Some(description) = profile.adapter_description {
        let property = selected(vpn, description@);
        lemma_first_index(adapters, property);
        let at = first_index(adapters, property);
        assert forall|a: int| #[trigger] is_chosen(adapters, vpn, description@, a) implies a == at by {
            assert forall|i: int| 0 <= i < a implies !property(#[trigger] adapters[i]) by {}
            lemma_is_first(adapters, property, a);
        }
        if at < adapters.len() {
            assert forall|i: int| 0 <= i < at implies !((#[trigger] adapters[i]).matches(vpn)
                && adapters[i].description == description@) by {
                assert(!property(adapters[i]));
            }
            assert(is_chosen(adapters, vpn, description@, at));
            if adapters[at].is_up() {
                assert(selection(profiles, vpn, adapters) == Ok::<AdapterView, Seq<Seq<char>>>(
                    adapters[at],
                ));
            }
        }
    }
}

/// The interface is the first one of the VPN with the description.
pub open spec fn is_chosen(
    adapters: Seq<AdapterView>,
    vpn: VpnKind,
    description: Seq<char>,
    a: int,
) -> bool {
    &&& 0 <= a < adapters.len()
    &&& adapters[a].matches(vpn)
    &&& adapters[a].description == description
    &&& forall|i: int|
        0 <= i < a ==> !((#[trigger] adapters[i]).matches(vpn) && adapters[i].description
            == description)
}

} // verus!
