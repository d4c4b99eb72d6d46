//! What the card of a profile shows.

use vstd::prelude::*;

use crate::domain::{VpnKind, VpnProfile};
use crate::fallback::gateway_view;
use crate::lists::{first_that, lemma_filter_none, lemma_filter_step};
use crate::session::{belongs_to, connected_of, described, find_connected, find_described};
use crate::windows::{GatewayView, InternetGateway, NetworkAdapter};

verus! {

/// What is said of an interface that takes all traffic.
#[derive(Debug, PartialEq, Eq)]
pub struct FullTunnelNotice {
    pub message: String,
    pub can_enable: bool,
}

/// An interface that the user can choose.
#[derive(Debug, PartialEq, Eq)]
pub struct AdapterChoice {
    pub description: String,
    pub label: String,
}

/// What an `AdapterChoice` stands for.
#[verifier::ext_equal]
pub ghost struct ChoiceView {
    pub description: Seq<char>,
    pub label: Seq<char>,
}

impl DeepView for AdapterChoice {
    type V = ChoiceView;

    open spec fn deep_view(&self) -> ChoiceView {
        ChoiceView { description: self.description@, label: self.label@ }
    }
}

/// What the card of a profile shows. The switch turns the profile on or off, and the
/// interface and the targets can be edited only where `editable` says so.
#[derive(Debug, PartialEq, Eq)]
pub struct ProfileCard {
    pub switch_label: String,
    pub switchable: bool,
    pub editable: bool,
    pub locked_hint: Option<String>,
    pub candidates: Vec<AdapterChoice>,
    pub selected_text: String,
    pub requires_choice: bool,
    pub selected_is_up: Option<bool>,
    pub status: String,
    pub chose_connected: bool,
    pub full_tunnel: Option<FullTunnelNotice>,
}

/// What a `ProfileCard` stands for.
#[verifier::ext_equal]
pub ghost struct CardView {
    pub switch_label: Seq<char>,
    pub switchable: bool,
    pub editable: bool,
    pub locked_hint: Option<Seq<char>>,
    pub candidates: Seq<ChoiceView>,
    pub selected_text: Seq<char>,
    pub requires_choice: bool,
    pub selected_is_up: Option<bool>,
    pub status: Seq<char>,
    pub chose_connected: bool,
    pub full_tunnel: Option<(Seq<char>, bool)>,
}

impl View for ProfileCard {
    type V = CardView;

    open spec fn view(&self) -> CardView {
        CardView {
            switch_label: self.switch_label@,
            switchable: self.switchable,
            editable: self.editable,
            locked_hint: match self.locked_hint {
                Some(hint) => Some(hint@),
                None => None,
            },
            candidates: self.candidates.deep_view(),
            selected_text: self.selected_text@,
            requires_choice: self.requires_choice,
            selected_is_up: self.selected_is_up,
            status: self.status@,
            chose_connected: self.chose_connected,
            full_tunnel: match self.full_tunnel {
                Some(notice) => Some((notice.message@, notice.can_enable)),
                None => None,
            },
        }
    }
}

/// The interface that the profile uses, connected or not.
pub open spec fn shown_adapter(
    profile: VpnProfile,
    vpn: VpnKind,
    adapters: Seq<NetworkAdapter>,
) -> Option<NetworkAdapter> {
    match profile.adapter_description {
        Some(description) => first_that(adapters, described(vpn, description@)),
        None => None,
    }
}

/// What the switch of a profile says: what pressing it does.
pub open spec fn switch_text(enabled: bool) -> Seq<char> {
    if enabled {
        "停用分流"@
    } else {
        "啟用分流"@
    }
}

/// Why the targets of a profile cannot be edited while it is enabled.
pub open spec fn locked_text() -> Seq<char> {
    "分流已啟用；請先關閉，成功移除路由與 DNS 規則後才能修改。"@
}

/// An interface as a choice of the user.
pub open spec fn choice_of(adapter: NetworkAdapter) -> ChoiceView {
    ChoiceView {
        description: adapter.description@,
        label: adapter.deep_view().display_label(),
    }
}

/// The interfaces of the VPN, in their order.
pub open spec fn choices_of(adapters: Seq<NetworkAdapter>, vpn: VpnKind) -> Seq<ChoiceView> {
    adapters.filter(belongs_to(vpn)).map_values(|adapter: NetworkAdapter| choice_of(adapter))
}

/// Whether the interface that the profile uses is connected, in words.
pub open spec fn status_text(vpn: VpnKind, shown: Option<NetworkAdapter>) -> Seq<char> {
    match shown {
        Some(adapter) => if adapter.deep_view().is_up() {
            "已連線"@
        } else {
            "未連線"@
        },
        None => "尚未偵測到 "@ + vpn.text() + " 虛擬網卡"@,
    }
}

/// What the card of a profile shows: what its switch does, whether it can be pressed and
/// the profile be edited while the window is `busy` or not, the interface that the
/// profile uses, whether the user has to choose among connected ones, and what to expect
/// where it takes all traffic. An enabled profile cannot be edited.
pub open spec fn card_of(
    profile: VpnProfile,
    vpn: VpnKind,
    adapters: Seq<NetworkAdapter>,
    gateway: Option<GatewayView>,
    busy: bool,
) -> CardView {
    let shown = shown_adapter(profile, vpn, adapters);
    let connected = adapters.filter(connected_of(vpn)).len();
    let candidates = choices_of(adapters, vpn);
    CardView {
        switch_label: switch_text(profile.enabled),
        switchable: !busy,
        editable: !profile.enabled && !busy,
        locked_hint: if profile.enabled {
            Some(locked_text())
        } else {
            None
        },
        candidates,
        selected_text: match shown {
            Some(adapter) => adapter.deep_view().display_label(),
            None => match profile.adapter_description {
                Some(description) => description@,
                None => "尚未選擇"@,
            },
        },
        requires_choice: connected > 1,
        selected_is_up: match shown {
            Some(adapter) => Some(adapter.deep_view().is_up()),
            None => None,
        },
        status: status_text(vpn, shown),
        chose_connected: candidates.len() > 1 && connected == 1,
        full_tunnel: match shown {
            Some(adapter) => if adapter.full_tunnel_priority is None {
                None
            } else {
                match gateway {
                    Some(found) => Some(
                        (
                            "Full Tunnel：啟用分流後，非指定 IPv4 流量會導回 "@
                                + found.interface_alias + "。"@,
                            true,
                        ),
                    ),
                    None => Some(
                        (
                            "Full Tunnel：尚未找到一般網路閘道，暫時不能安全啟用分流。"@,
                            false,
                        ),
                    ),
                }
            },
            None => None,
        },
    }
}

/// The interfaces of the VPN, in their order.
fn find_choices(adapters: &Vec<NetworkAdapter>, vpn: VpnKind) -> (choices: Vec<AdapterChoice>)
    ensures
        choices.deep_view() == choices_of(adapters@, vpn),
{
    let mut choices: Vec<AdapterChoice> = Vec::new();
    proof {
        lemma_filter_none(adapters@, belongs_to(vpn));
    }
    assert(choices.deep_view() =~= choices_of(adapters@.take(0), vpn));
    for i in 0..adapters.len()
        invariant
            choices.deep_view() == choices_of(adapters@.take(i as int), vpn),
    {
        let ghost before = choices.deep_view();
        proof {
            lemma_filter_step(adapters@, i as int, belongs_to(vpn));
        }
        if adapters[i].matches(vpn) {
            let choice: AdapterChoice = AdapterChoice {
                description: adapters[i].description.clone(),
                label: adapters[i].display_label(),
            };
            let ghost added = choice.deep_view();
            choices.push(choice);
            assert(choices.deep_view() =~= before.push(added));
            assert(choices.deep_view() =~= choices_of(adapters@.take(i + 1), vpn));
        }
    }
    assert(adapters@.take(adapters.len() as int) =~= adapters@);
    choices
}

/// What the card of a profile shows while the window is `busy` or not.
pub fn profile_card(
    profile: &VpnProfile,
    vpn: VpnKind,
    adapters: &Vec<NetworkAdapter>,
    internet_gateway: Option<&InternetGateway>,
    busy: bool,
) -> (card: ProfileCard)
    ensures
        card@ == card_of(*profile, vpn, adapters@, gateway_view(internet_gateway), busy),
{
    let index: usize = match &profile.adapter_description {
        Some(description) => find_described(adapters, vpn, description.as_str()),
        None => adapters.len(),
    };
    let connected: usize = find_connected(adapters, vpn).len();
    let candidates: Vec<AdapterChoice> = find_choices(adapters, vpn);
    let shown: bool = index < adapters.len();
    let selected_text: String = if shown {
        adapters[index].display_label()
    } else {
        match &profile.adapter_description {
            Some(description) => description.clone(),
            None => "尚未選擇".to_owned(),
        }
    };
    let full_tunnel: Option<FullTunnelNotice> = if shown
        && adapters[index].full_tunnel_priority.is_some() {
        match internet_gateway {
            Some(gateway) => {
                let mut message: String =
                    "Full Tunnel：啟用分流後，非指定 IPv4 流量會導回 ".to_owned();
                message.append(gateway.interface_alias.as_str());
                message.append("。");
                Some(FullTunnelNotice { message, can_enable: true })
            },
            None => Some(
                FullTunnelNotice {
                    message: "Full Tunnel：尚未找到一般網路閘道，暫時不能安全啟用分流。".to_owned(),
                    can_enable: false,
                },
            ),
        }
    } else {
        None
    };
    let status: String = if shown {
        if adapters[index].is_up() {
            "已連線".to_owned()
        } else {
            "未連線".to_owned()
        }
    } else {
        let mut text: String = "尚未偵測到 ".to_owned();
        text.append(vpn.name());
        text.append(" 虛擬網卡");
        text
    };
    let chose_connected: bool = candidates.len() > 1 && connected == 1;
    ProfileCard {
        switch_label: if profile.enabled {
            "停用分流".to_owned()
        } else {
            "啟用分流".to_owned()
        },
        switchable: !busy,
        editable: !profile.enabled && !busy,
        locked_hint: if profile.enabled {
            Some("分流已啟用；請先關閉，成功移除路由與 DNS 規則後才能修改。".to_owned())
        } else {
            None
        },
        candidates,
        selected_text,
        requires_choice: connected > 1,
        selected_is_up: if shown {
            Some(adapters[index].is_up())
        } else {
            None
        },
        status,
        chose_connected,
        full_tunnel,
    }
}

}
