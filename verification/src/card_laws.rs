//! What holds of the card of a profile.

use vstd::prelude::*;

use crate::card::{card_of, choice_of, shown_adapter, ChoiceView};
use crate::choice_laws::{
    is_connected, lemma_one_left, lemma_two_kept, only_connected, only_one, still_there,
};
use crate::domain::{VpnKind, VpnProfile};
use crate::lists::{lemma_filter_members, lemma_first_exists};
use crate::session::{belongs_to, connected_of, described};
use crate::windows::{GatewayView, NetworkAdapter};

verus! {

/// Two interfaces of the VPN are connected.
pub open spec fn two_connected(
    adapters: Seq<NetworkAdapter>,
    vpn: VpnKind,
    i: int,
    j: int,
) -> bool {
    &&& 0 <= i < j < adapters.len()
    &&& is_connected(adapters[i], vpn)
    &&& is_connected(adapters[j], vpn)
}

/// More than one interface is left of a list just where two of it have the property.
proof fn lemma_two_connected(adapters: Seq<NetworkAdapter>, vpn: VpnKind)
    ensures
        adapters.filter(connected_of(vpn)).len() > 1 <==> exists|i: int, j: int|
            two_connected(adapters, vpn, i, j),
        adapters.filter(connected_of(vpn)).len() == 1 <==> exists|a: int|
            only_connected(adapters, vpn, a),
{
    let property = connected_of(vpn);
    lemma_one_left(adapters, property);
    lemma_filter_members(adapters, property);
    assert forall|a: int| only_connected(adapters, vpn, a) <==> only_one(adapters, property, a) by {
        if only_connected(adapters, vpn, a) {
            assert forall|i: int| 0 <= i < adapters.len() && i != a implies !property(
                #[trigger] adapters[i],
            ) by {
                assert(!is_connected(adapters[i], vpn));
            }
        }
        if only_one(adapters, property, a) {
            assert forall|i: int| 0 <= i < adapters.len() && i != a implies !is_connected(
                #[trigger] adapters[i],
                vpn,
            ) by {
                assert(!property(adapters[i]));
            }
        }
    }
    if adapters.filter(property).len() == 1 {
        let a = choose|a: int| only_one(adapters, property, a);
        assert(only_connected(adapters, vpn, a));
    }
    if exists|a: int| only_connected(adapters, vpn, a) {
        let a = choose|a: int| only_connected(adapters, vpn, a);
        assert(only_one(adapters, property, a));
    }
    if exists|i: int, j: int| two_connected(adapters, vpn, i, j) {
        let (i, j) = choose|i: int, j: int| two_connected(adapters, vpn, i, j);
        lemma_two_kept(adapters, property, i, j);
    }
    if adapters.filter(property).len() > 1 {
        let kept = adapters.filter(property)[0];
        assert(adapters.filter(property).contains(kept));
        assert(adapters.contains(kept) && property(kept));
        let a = choose|a: int| 0 <= a < adapters.len() && adapters[a] == kept;
        assert(!only_one(adapters, property, a));
        let b = choose|b: int|
            0 <= b < adapters.len() && b != a && property(#[trigger] adapters[b]);
        if a < b {
            assert(two_connected(adapters, vpn, a, b));
        } else {
            assert(two_connected(adapters, vpn, b, a));
        }
    }
}

/// A card shows what can be done. Its switch can be pressed and the profile be edited only
/// while nothing else runs, and an enabled profile cannot be edited and says so. It offers
/// just the interfaces of the VPN, and asks for a choice just where two of them are
/// connected. It tells whether the chosen interface is connected, and warns where that one
/// takes all traffic; the VPN can then be switched on only with an ordinary network to go
/// back to.
pub proof fn law_card_shows_what_can_be_done(
    profile: VpnProfile,
    vpn: VpnKind,
    adapters: Seq<NetworkAdapter>,
    gateway: Option<GatewayView>,
    busy: bool,
)
    ensures
        ({
            let card = card_of(profile, vpn, adapters, gateway, busy);
            let shown = shown_adapter(profile, vpn, adapters);
            &&& card.switchable == !busy
            &&& card.editable == (!busy && !profile.enabled)
            &&& card.locked_hint is Some <==> profile.enabled
            &&& card.switch_label == (if profile.enabled {
                "停用分流"@
            } else {
                "啟用分流"@
            })
            &&& forall|choice: ChoiceView| #[trigger]
                card.candidates.contains(choice) <==> exists|i: int|
                    0 <= i < adapters.len() && (#[trigger] adapters[i]).deep_view().matches(vpn)
                        && choice.description == adapters[i].description@ && choice.label
                        == adapters[i].deep_view().display_label()
            &&& card.requires_choice <==> exists|i: int, j: int|
                two_connected(adapters, vpn, i, j)
            &&& card.chose_connected <==> card.candidates.len() > 1 && exists|a: int|
                only_connected(adapters, vpn, a)
            &&& shown is Some <==> profile.adapter_description is Some && still_there(
                adapters,
                vpn,
                profile.adapter_description->0@,
            )
            &&& shown matches Some(adapter) ==> {
                &&& adapters.contains(adapter)
                &&& adapter.deep_view().matches(vpn)
                &&& adapter.description@ == profile.adapter_description->0@
                &&& card.selected_is_up == Some(adapter.deep_view().is_up())
                &&& card.selected_text == adapter.deep_view().display_label()
                &&& adapter.deep_view().is_up() ==> card.status == "已連線"@
                &&& !adapter.deep_view().is_up() ==> card.status == "未連線"@
                &&& card.full_tunnel is Some <==> adapter.full_tunnel_priority is Some
                &&& card.full_tunnel matches Some(notice) ==> notice.1 == (gateway is Some)
            }
            &&& shown is None ==> card.selected_is_up is None && card.full_tunnel is None
            &&& shown is None && profile.adapter_description is Some ==> card.selected_text
                == profile.adapter_description->0@
            &&& shown is None ==> card.status == "尚未偵測到 "@ + vpn.text() + " 虛擬網卡"@
        }),
{
    let card = card_of(profile, vpn, adapters, gateway, busy);
    lemma_two_connected(adapters, vpn);
    let own = adapters.filter(belongs_to(vpn));
    lemma_filter_members(adapters, belongs_to(vpn));
    assert forall|choice: ChoiceView| #[trigger]
        card.candidates.contains(choice) <==> exists|i: int|
            0 <= i < adapters.len() && (#[trigger] adapters[i]).deep_view().matches(vpn)
                && choice.description == adapters[i].description@ && choice.label
                == adapters[i].deep_view().display_label() by {
        if card.candidates.contains(choice) {
            let k = choose|k: int|
                0 <= k < card.candidates.len() && card.candidates[k] == choice;
            assert(choice == choice_of(own[k]));
            assert(own.contains(own[k]));
            assert(adapters.contains(own[k]));
            let i = choose|i: int| 0 <= i < adapters.len() && adapters[i] == own[k];
            assert(adapters[i].deep_view().matches(vpn));
        }
        if exists|i: int|
            0 <= i < adapters.len() && (#[trigger] adapters[i]).deep_view().matches(vpn)
                && choice.description == adapters[i].description@ && choice.label
                == adapters[i].deep_view().display_label() {
            let i = choose|i: int|
                0 <= i < adapters.len() && (#[trigger] adapters[i]).deep_view().matches(vpn)
                    && choice.description == adapters[i].description@ && choice.label
                    == adapters[i].deep_view().display_label();
            assert(adapters.contains(adapters[i]));
            assert(own.contains(adapters[i]));
            let k = choose|k: int| 0 <= k < own.len() && own[k] == adapters[i];
            assert(card.candidates[k] == choice_of(own[k]));
            assert(card.candidates[k] == choice);
        }
    }
    if let Some(description) = profile.adapter_description {
        lemma_first_exists(adapters, described(vpn, description@));
        if still_there(adapters, vpn, description@) {
            let i = choose|i: int|
                0 <= i < adapters.len() && (#[trigger] adapters[i]).deep_view().matches(vpn)
                    && adapters[i].description@ == description@;
            assert(described(vpn, description@)(adapters[i]));
        }
        if shown_adapter(profile, vpn, adapters) is Some {
            let i = choose|i: int|
                0 <= i < adapters.len() && described(vpn, description@)(#[trigger] adapters[i]);
            assert(adapters[i].deep_view().matches(vpn));
        }
    }
}

} // verus!
