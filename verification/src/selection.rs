//! Which network interface a profile uses, and which name servers an interface has.

use vstd::prelude::*;

use crate::domain::{profile_of, SplitterConfig, VpnKind, VpnProfile};
use crate::ipv4::{address_text, address_to_text, parse_address, parsed_address};
use crate::lists::{first_index, first_that, lemma_is_first};
use crate::text::same_text;
use crate::windows::{AdapterView, NetworkAdapter};

verus! {

/// The interface belongs to the VPN and has the description.
pub open spec fn selected(vpn: VpnKind, description: Seq<char>) -> spec_fn(AdapterView) -> bool {
    |adapter: AdapterView| adapter.matches(vpn) && adapter.description == description
}

/// The interface belongs to the VPN, has the description and is connected.
pub open spec fn selected_up(vpn: VpnKind, description: Seq<char>) -> spec_fn(AdapterView) -> bool {
    |adapter: AdapterView|
        adapter.matches(vpn) && adapter.description == description && adapter.is_up()
}

/// The interface belongs to the VPN, has the description, is connected and takes all
/// traffic.
pub open spec fn selected_full_tunnel(vpn: VpnKind, description: Seq<char>) -> spec_fn(
    AdapterView,
) -> bool {
    |adapter: AdapterView|
        adapter.matches(vpn) && adapter.description == description && adapter.is_up()
            && adapter.full_tunnel_priority is Some
}

/// A list of interfaces as a slice.
pub fn adapters_slice(adapters: &Vec<NetworkAdapter>) -> (slice: &[NetworkAdapter])
    ensures
        slice.deep_view() == adapters.deep_view(),
        slice@ == adapters@,
{
    let slice: &[NetworkAdapter] = adapters.as_slice();
    assert(slice.deep_view() =~= adapters.deep_view());
    slice
}

/// The position of the first interface of the VPN with the description.
fn find_selected(adapters: &[NetworkAdapter], vpn: VpnKind, description: &str) -> (index: usize)
    ensures
        index == first_index(adapters.deep_view(), selected(vpn, description@)),
        index <= adapters.len(),
{
    let ghost views = adapters.deep_view();
    let ghost condition = selected(vpn, description@);
    let mut index: usize = 0;
    while index < adapters.len() && !(same_text(
        adapters[index].description.as_str(),
        description,
    ) && adapters[index].matches(vpn))
        invariant
            views == adapters.deep_view(),
            condition == selected(vpn, description@),
            index <= adapters.len(),
            forall|i: int| 0 <= i < index ==> !condition(#[trigger] views[i]),
        decreases adapters.len() - index,
    {
        assert(!condition(views[index as int]));
        index = index + 1;
    }
    proof {
        if index < adapters.len() {
            assert(condition(views[index as int]));
        }
        lemma_is_first(views, condition, index as int);
    }
    index
}

/// The position of the first connected interface of the VPN with the description.
pub fn find_selected_up(adapters: &[NetworkAdapter], vpn: VpnKind, description: &str) -> (index:
    usize)
    ensures
        index == first_index(adapters.deep_view(), selected_up(vpn, description@)),
        index <= adapters.len(),
{
    let ghost views = adapters.deep_view();
    let ghost condition = selected_up(vpn, description@);
    let mut index: usize = 0;
    while index < adapters.len() && !(same_text(
        adapters[index].description.as_str(),
        description,
    ) && adapters[index].matches(vpn) && adapters[index].is_up())
        invariant
            views == adapters.deep_view(),
            condition == selected_up(vpn, description@),
            index <= adapters.len(),
            forall|i: int| 0 <= i < index ==> !condition(#[trigger] views[i]),
        decreases adapters.len() - index,
    {
        assert(!condition(views[index as int]));
        index = index + 1;
    }
    proof {
        if index < adapters.len() {
            assert(condition(views[index as int]));
        }
        lemma_is_first(views, condition, index as int);
    }
    index
}

/// The position of the first connected interface of the VPN with the description that
/// takes all traffic.
pub fn find_full_tunnel(adapters: &[NetworkAdapter], vpn: VpnKind, description: &str) -> (index:
    usize)
    ensures
        index == first_index(adapters.deep_view(), selected_full_tunnel(vpn, description@)),
        index <= adapters.len(),
{
    let ghost views = adapters.deep_view();
    let ghost condition = selected_full_tunnel(vpn, description@);
    let mut index: usize = 0;
    while index < adapters.len() && !(adapters[index].full_tunnel_priority.is_some() && same_text(
        adapters[index].description.as_str(),
        description,
    ) && adapters[index].matches(vpn) && adapters[index].is_up())
        invariant
            views == adapters.deep_view(),
            condition == selected_full_tunnel(vpn, description@),
            index <= adapters.len(),
            forall|i: int| 0 <= i < index ==> !condition(#[trigger] views[i]),
        decreases adapters.len() - index,
    {
        assert(!condition(views[index as int]));
        index = index + 1;
    }
    proof {
        if index < adapters.len() {
            assert(condition(views[index as int]));
        }
        lemma_is_first(views, condition, index as int);
    }
    index
}

/// No interface has been chosen.
pub open spec fn none_chosen(vpn: VpnKind) -> Seq<char> {
    vpn.text() + " 已啟用，但尚未選擇 VPN 網路介面。"@
}

/// The chosen interface is not there.
pub open spec fn chosen_missing(vpn: VpnKind, description: Seq<char>) -> Seq<char> {
    vpn.text() + " 找不到已選擇的介面「"@ + description + "」，請重新偵測。"@
}

/// The chosen interface is not connected.
pub open spec fn chosen_down(vpn: VpnKind, description: Seq<char>) -> Seq<char> {
    vpn.text() + " 的介面「"@ + description + "」尚未連線。"@
}

/// The interface that the first profile of the VPN uses: the first one of the VPN with
/// the chosen description, which has to be connected.
pub open spec fn selection(
    profiles: Seq<VpnProfile>,
    vpn: VpnKind,
    adapters: Seq<AdapterView>,
) -> Result<AdapterView, Seq<Seq<char>>> {
    match profile_of(profiles, vpn)->0.adapter_description {
        None => Err(seq![none_chosen(vpn)]),
        Some(description) => match first_that(adapters, selected(vpn, description@)) {
            None => Err(seq![chosen_missing(vpn, description@)]),
            Some(adapter) => if adapter.is_up() {
                Ok(adapter)
            } else {
                Err(seq![chosen_down(vpn, adapter.description)])
            },
        },
    }
}

/// What a chosen interface, or the reasons why there is none, stands for.
pub open spec fn selection_result(result: Result<&NetworkAdapter, Vec<String>>) -> Result<
    AdapterView,
    Seq<Seq<char>>,
> {
    match result {
        Ok(adapter) => Ok(adapter.deep_view()),
        Err(reasons) => Err(reasons.deep_view()),
    }
}

/// A list of one text.
pub fn one_text(text: String) -> (texts: Vec<String>)
    ensures
        texts.deep_view() == seq![text@],
{
    let ghost only = text@;
    let mut texts: Vec<String> = Vec::new();
    texts.push(text);
    assert(texts.deep_view() =~= seq![only]);
    texts
}

/// The interface that the first profile of the VPN uses.
pub fn selected_adapter_for_profile<'a>(
    config: &SplitterConfig,
    vpn: VpnKind,
    adapters: &'a [NetworkAdapter],
) -> (result: Result<&'a NetworkAdapter, Vec<String>>)
    requires
        profile_of(config.profiles@, vpn) is Some,
    ensures
        selection_result(result) == selection(config.profiles@, vpn, adapters.deep_view()),
{
    let profile: &VpnProfile = match config.profile(vpn) {
        Some(profile) => profile,
        None => {
            return Err(Vec::new());
        },
    };
    match &profile.adapter_description {
        None => {
            let mut message: String = vpn.name().to_owned();
            message.append(" 已啟用，但尚未選擇 VPN 網路介面。");
            Err(one_text(message))
        },
        Some(description) => {
            let index: usize = find_selected(adapters, vpn, description.as_str());
            if index == adapters.len() {
                let mut message: String = vpn.name().to_owned();
                message.append(" 找不到已選擇的介面「");
                message.append(description.as_str());
                message.append("」，請重新偵測。");
                return Err(one_text(message));
            }
            if !adapters[index].is_up() {
                let mut message: String = vpn.name().to_owned();
                message.append(" 的介面「");
                message.append(adapters[index].description.as_str());
                message.append("」尚未連線。");
                return Err(one_text(message));
            }
            Ok(&adapters[index])
        },
    }
}

/// The profile is enabled and its interface takes all traffic.
pub open spec fn enabled_full_tunnel(adapters: Seq<AdapterView>) -> spec_fn(VpnProfile) -> bool {
    |profile: VpnProfile|
        profile.enabled && profile.adapter_description is Some && first_that(
            adapters,
            selected_full_tunnel(profile.vpn, profile.adapter_description->0@),
        ) is Some
}

/// The VPNs of the enabled profiles whose interface takes all traffic.
pub open spec fn full_tunnel_vpns(
    profiles: Seq<VpnProfile>,
    adapters: Seq<AdapterView>,
) -> Seq<VpnKind>
    decreases profiles.len(),
{
    if profiles.len() == 0 {
        Seq::empty()
    } else {
        let before = full_tunnel_vpns(profiles.drop_last(), adapters);
        if enabled_full_tunnel(adapters)(profiles.last()) {
            before.push(profiles.last().vpn)
        } else {
            before
        }
    }
}

/// The VPNs of the enabled profiles whose interface takes all traffic.
pub fn enabled_full_tunnel_vpns(config: &SplitterConfig, adapters: &[NetworkAdapter]) -> (vpns: Vec<
    VpnKind,
>)
    ensures
        vpns@ == full_tunnel_vpns(config.profiles@, adapters.deep_view()),
{
    let mut vpns: Vec<VpnKind> = Vec::new();
    for i in 0..config.profiles.len()
        invariant
            vpns@ == full_tunnel_vpns(config.profiles@.take(i as int), adapters.deep_view()),
    {
        assert(config.profiles@.take(i + 1).drop_last() =~= config.profiles@.take(i as int));
        let profile: &VpnProfile = &config.profiles[i];
        if profile.enabled {
            if let Some(description) = &profile.adapter_description {
                if find_full_tunnel(adapters, profile.vpn, description.as_str())
                    < adapters.len() {
                    vpns.push(profile.vpn);
                }
            }
        }
    }
    assert(config.profiles@.take(config.profiles.len() as int) =~= config.profiles@);
    vpns
}

/// The addresses among the texts, each of them once, in the order in which they first
/// occur.
pub open spec fn distinct_addresses(texts: Seq<Seq<char>>) -> Seq<u32>
    decreases texts.len(),
{
    if texts.len() == 0 {
        Seq::empty()
    } else {
        let before = distinct_addresses(texts.drop_last());
        match parsed_address(texts.last()) {
            Some(address) => if before.contains(address) {
                before
            } else {
                before.push(address)
            },
            None => before,
        }
    }
}

/// Whether the address is in the list.
pub fn contains_address(addresses: &Vec<u32>, address: u32) -> (found: bool)
    ensures
        found == addresses@.contains(address),
{
    for i in 0..addresses.len()
        invariant
            forall|k: int| 0 <= k < i ==> addresses@[k] != address,
    {
        if addresses[i] == address {
            assert(addresses@[i as int] == address);
            return true;
        }
    }
    false
}

/// The addresses among the texts, each of them once, in the order in which they first
/// occur.
pub fn normalized_ipv4_addresses(servers: &Vec<String>) -> (addresses: Vec<u32>)
    ensures
        addresses@ == distinct_addresses(servers.deep_view()),
{
    let ghost texts = servers.deep_view();
    let mut addresses: Vec<u32> = Vec::new();
    for i in 0..servers.len()
        invariant
            texts == servers.deep_view(),
            addresses@ == distinct_addresses(texts.take(i as int)),
    {
        assert(texts.take(i + 1).drop_last() =~= texts.take(i as int));
        if let Some(address) = parse_address(servers[i].as_str()) {
            if !contains_address(&addresses, address) {
                addresses.push(address);
            }
        }
    }
    assert(texts.take(servers.len() as int) =~= texts);
    addresses
}

/// The addresses in the notation `a.b.c.d`.
pub open spec fn address_texts(addresses: Seq<u32>) -> Seq<Seq<char>> {
    Seq::new(addresses.len(), |i: int| address_text(addresses[i]))
}

/// The addresses in the notation `a.b.c.d`.
pub fn addresses_to_texts(addresses: &Vec<u32>) -> (texts: Vec<String>)
    ensures
        texts.deep_view() == address_texts(addresses@),
{
    let mut texts: Vec<String> = Vec::new();
    for i in 0..addresses.len()
        invariant
            texts.deep_view() == address_texts(addresses@).take(i as int),
    {
        let ghost before = texts.deep_view();
        texts.push(address_to_text(addresses[i]));
        assert(texts.deep_view() =~= before.push(address_text(addresses@[i as int])));
        assert(texts.deep_view() =~= address_texts(addresses@).take(i + 1));
    }
    assert(address_texts(addresses@).take(addresses.len() as int) =~= address_texts(addresses@));
    texts
}

/// The addresses among the texts, in the notation `a.b.c.d`, each of them once.
pub fn normalized_ipv4_servers(servers: &Vec<String>) -> (texts: Vec<String>)
    ensures
        texts.deep_view() == address_texts(distinct_addresses(servers.deep_view())),
{
    addresses_to_texts(&normalized_ipv4_addresses(servers))
}

/// The addresses of a list are distinct, and are those that the texts name.
pub proof fn law_distinct_addresses(texts: Seq<Seq<char>>)
    ensures
        distinct_addresses(texts).no_duplicates(),
        forall|address: u32| #[trigger]
            distinct_addresses(texts).contains(address) <==> exists|i: int|
                0 <= i < texts.len() && parsed_address(#[trigger] texts[i]) == Some(address),
    decreases texts.len(),
{
    if texts.len() > 0 {
        let before = texts.drop_last();
        law_distinct_addresses(before);
        let all = distinct_addresses(texts);
        let some = distinct_addresses(before);
        assert forall|address: u32| #[trigger] all.contains(address) <==> exists|i: int|
            0 <= i < texts.len() && parsed_address(#[trigger] texts[i]) == Some(address) by {
            if all.contains(address) {
                let k = choose|k: int| 0 <= k < all.len() && all[k] == address;
                if k < some.len() {
                    assert(some.contains(address));
                    let i = choose|i: int|
                        0 <= i < before.len() && parsed_address(#[trigger] before[i]) == Some(
                            address,
                        );
                    assert(texts[i] == before[i]);
                } else {
                    assert(parsed_address(texts[texts.len() - 1]) == Some(address));
                }
            }
            if exists|i: int|
                0 <= i < texts.len() && parsed_address(#[trigger] texts[i]) == Some(address) {
                let i = choose|i: int|
                    0 <= i < texts.len() && parsed_address(#[trigger] texts[i]) == Some(address);
                if i < before.len() {
                    assert(parsed_address(before[i]) == Some(address));
                    assert(some.contains(address));
                    let k = choose|k: int| 0 <= k < some.len() && some[k] == address;
                    assert(all[k] == address);
                } else if !some.contains(address) {
                    assert(all[some.len() as int] == address);
                }
            }
        }
    }
}

/// Every enabled one among the first profiles has a connected interface.
pub open spec fn all_selected(
    all: Seq<VpnProfile>,
    profiles: Seq<VpnProfile>,
    adapters: Seq<AdapterView>,
) -> Result<(), Seq<Seq<char>>>
    decreases profiles.len(),
{
    if profiles.len() == 0 {
        Ok(())
    } else {
        match all_selected(all, profiles.drop_last(), adapters) {
            Err(reasons) => Err(reasons),
            Ok(_) => if profiles.last().enabled {
                match selection(all, profiles.last().vpn, adapters) {
                    Err(reasons) => Err(reasons),
                    Ok(_) => Ok(()),
                }
            } else {
                Ok(())
            },
        }
    }
}

/// A failure at the first profiles is the failure at all of them.
proof fn lemma_first_unselected(
    all: Seq<VpnProfile>,
    profiles: Seq<VpnProfile>,
    adapters: Seq<AdapterView>,
    count: int,
)
    requires
        0 <= count <= profiles.len(),
        all_selected(all, profiles.take(count), adapters) is Err,
    ensures
        all_selected(all, profiles, adapters) == all_selected(all, profiles.take(count), adapters),
    decreases profiles.len() - count,
{
    if count < profiles.len() {
        assert(profiles.take(count + 1).drop_last() =~= profiles.take(count));
        lemma_first_unselected(all, profiles, adapters, count + 1);
    } else {
        assert(profiles.take(count) =~= profiles);
    }
}

/// What the outcome of a check stands for.
pub open spec fn check_result(result: Result<(), Vec<String>>) -> Result<(), Seq<Seq<char>>> {
    match result {
        Ok(_) => Ok(()),
        Err(reasons) => Err(reasons.deep_view()),
    }
}

/// Checks that every enabled profile has a connected interface.
pub fn check_all_selected(config: &SplitterConfig, adapters: &[NetworkAdapter]) -> (result: Result<
    (),
    Vec<String>,
>)
    ensures
        check_result(result) == all_selected(
            config.profiles@,
            config.profiles@,
            adapters.deep_view(),
        ),
{
    let ghost profiles = config.profiles@;
    for i in 0..config.profiles.len()
        invariant
            profiles == config.profiles@,
            all_selected(profiles, profiles.take(i as int), adapters.deep_view()) is Ok,
    {
        assert(profiles.take(i + 1).drop_last() =~= profiles.take(i as int));
        if config.profiles[i].enabled {
            proof {
                crate::domain::lemma_profile_index(profiles, profiles[i as int].vpn);
            }
            if let Err(reasons) = selected_adapter_for_profile(
                config,
                config.profiles[i].vpn,
                adapters,
            ) {
                proof {
                    lemma_first_unselected(profiles, profiles, adapters.deep_view(), i + 1);
                }
                return Err(reasons);
            }
        }
    }
    assert(profiles.take(config.profiles.len() as int) =~= profiles);
    Ok(())
}

/// Some profile is enabled.
pub open spec fn any_enabled(profiles: Seq<VpnProfile>) -> bool {
    exists|i: int| 0 <= i < profiles.len() && (#[trigger] profiles[i]).enabled
}

/// Whether some profile is enabled, so that its routes have to be looked after.
pub fn needs_periodic_route_refresh(config: &SplitterConfig) -> (needed: bool)
    ensures
        needed == any_enabled(config.profiles@),
{
    for i in 0..config.profiles.len()
        invariant
            forall|k: int| 0 <= k < i ==> !(#[trigger] config.profiles@[k]).enabled,
    {
        if config.profiles[i].enabled {
            assert(config.profiles@[i as int].enabled);
            return true;
        }
    }
    false
}

/// Whether names have to be resolved again from time to time.
pub fn should_schedule_dns_refresh(config: &SplitterConfig) -> (needed: bool)
    ensures
        needed == crate::domain::names_enabled_domain(config.profiles@),
{
    crate::domain::has_enabled_dns_targets(config)
}

}
