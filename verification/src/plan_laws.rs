//! What holds of the plan for names: which servers answer for which names.

use vstd::prelude::*;

use crate::dns_plan::{
    address_set, all_within, dns_plan, insert_address, lemma_address_set, lemma_insert_address,
    not_among, own_servers, planned, raws_of, servers_move, ProfilePlanView, RawView,
};
use crate::domain::{
    distinct_vpns, domains_among, entries_of, TargetEntryView, TargetView, VpnKind, VpnProfile,
};
use crate::fallback::{fallback_servers, FallbackView};
use crate::fallback_laws::names_address;
use crate::lists::{lemma_filter_all, lemma_filter_members, lemma_sorted_once};
use crate::selection::{distinct_addresses, law_distinct_addresses, selection};
use crate::text::{increasing_texts, lemma_insert_text};
use crate::windows::AdapterView;

verus! {

/// The addresses stand in increasing order, each of them once.
pub open spec fn increasing(addresses: Seq<u32>) -> bool {
    forall|i: int, j: int|
        0 <= i < j < addresses.len() ==> (#[trigger] addresses[i]) < (#[trigger] addresses[j])
}

/// Putting an address into an increasing list keeps it increasing.
proof fn lemma_insert_increasing(list: Seq<u32>, address: u32)
    requires
        increasing(list),
    ensures
        increasing(insert_address(list, address)),
    decreases list.len(),
{
    lemma_insert_address(list, address);
    if list.len() > 0 && address != list[0] && !(address < list[0]) {
        let rest = list.skip(1);
        assert(increasing(rest)) by {
            assert forall|i: int, j: int| 0 <= i < j < rest.len() implies (#[trigger] rest[i]) < (
            #[trigger] rest[j]) by {
                assert(list[i + 1] < list[j + 1]);
            }
        }
        lemma_insert_increasing(rest, address);
        lemma_insert_address(rest, address);
        let tail = insert_address(rest, address);
        let all = insert_address(list, address);
        assert(all == seq![list[0]] + tail);
        assert forall|i: int, j: int| 0 <= i < j < all.len() implies (#[trigger] all[i]) < (
        #[trigger] all[j]) by {
            assert(all[j] == tail[j - 1]);
            if i > 0 {
                assert(all[i] == tail[i - 1]);
            } else {
                assert(tail.contains(tail[j - 1]));
                if rest.contains(tail[j - 1]) {
                    let k = choose|k: int| 0 <= k < rest.len() && rest[k] == tail[j - 1];
                    assert(list[0] < list[k + 1]);
                }
            }
        }
    }
}

/// A set of addresses is increasing.
pub proof fn lemma_set_increasing(addresses: Seq<u32>)
    ensures
        increasing(address_set(addresses)),
    decreases addresses.len(),
{
    if addresses.len() > 0 {
        lemma_set_increasing(addresses.drop_last());
        lemma_insert_increasing(address_set(addresses.drop_last()), addresses.last());
    }
}

/// Two increasing lists with the same addresses are the same list.
pub proof fn lemma_same_set(left: Seq<u32>, right: Seq<u32>)
    requires
        increasing(left),
        increasing(right),
    ensures
        left == right <==> forall|address: u32| #[trigger]
            left.contains(address) <==> right.contains(address),
{
    let before = |x: u32, y: u32| x < y;
    if forall|address: u32| #[trigger] left.contains(address) <==> right.contains(address) {
        lemma_sorted_once(left, right, before);
    }
}

/// What is left of an increasing list is increasing.
proof fn lemma_filter_increasing(list: Seq<u32>, condition: spec_fn(u32) -> bool)
    requires
        increasing(list),
    ensures
        increasing(list.filter(condition)),
    decreases list.len(),
{
    reveal(Seq::filter);
    if list.len() > 0 {
        let front = list.drop_last();
        lemma_filter_increasing(front, condition);
        lemma_filter_members(front, condition);
        let kept = front.filter(condition);
        let all = list.filter(condition);
        assert forall|i: int, j: int| 0 <= i < j < all.len() implies (#[trigger] all[i]) < (
        #[trigger] all[j]) by {
            if j >= kept.len() {
                assert(kept.contains(kept[i]));
                assert(front.contains(kept[i]));
                let k = choose|k: int| 0 <= k < front.len() && front[k] == kept[i];
                assert(list[k] < list[list.len() - 1]);
            }
        }
    }
}

/// What was read of an enabled profile.
pub open spec fn read_of(
    all: Seq<VpnProfile>,
    profile: VpnProfile,
    adapters: Seq<AdapterView>,
    raw: RawView,
) -> bool {
    &&& profile.enabled
    &&& raw.vpn == profile.vpn
    &&& selection(all, profile.vpn, adapters) == Ok::<AdapterView, Seq<Seq<char>>>(raw.adapter)
    &&& domains_among(entries_of(profile.networks@)) == Ok::<Seq<Seq<char>>, Seq<char>>(
        raw.hostnames,
    )
    &&& raw.reported == address_set(distinct_addresses(raw.adapter.dns_servers))
}

/// Every enabled profile is read once, and nothing else is read.
pub proof fn lemma_read(all: Seq<VpnProfile>, profiles: Seq<VpnProfile>, adapters: Seq<AdapterView>)
    requires
        raws_of(all, profiles, adapters) is Ok,
        distinct_vpns(profiles),
    ensures
        ({
            let raws = raws_of(all, profiles, adapters)->Ok_0.raws;
            &&& forall|p: int|
                0 <= p < profiles.len() && (#[trigger] profiles[p]).enabled ==> exists|r: int|
                    0 <= r < raws.len() && read_of(all, profiles[p], adapters, #[trigger] raws[r])
            &&& forall|r: int|
                0 <= r < raws.len() ==> exists|p: int|
                    0 <= p < profiles.len() && read_of(
                        all,
                        #[trigger] profiles[p],
                        adapters,
                        #[trigger] raws[r],
                    )
            &&& forall|r: int, q: int|
                0 <= r < q < raws.len() ==> (#[trigger] raws[r]).vpn != (#[trigger] raws[q]).vpn
        }),
    decreases profiles.len(),
{
    if profiles.len() > 0 {
        let front = profiles.drop_last();
        let last = profiles.last();
        assert(distinct_vpns(front)) by {
            assert forall|i: int, j: int| 0 <= i < j < front.len() implies (#[trigger] front[i]).vpn
                != (#[trigger] front[j]).vpn by {
                assert(profiles[i].vpn != profiles[j].vpn);
            }
        }
        lemma_read(all, front, adapters);
        let before = raws_of(all, front, adapters)->Ok_0.raws;
        let raws = raws_of(all, profiles, adapters)->Ok_0.raws;
        assert(profiles[profiles.len() - 1] == last);
        if last.enabled {
            assert(raws == before.push(raws.last()));
            assert(read_of(all, last, adapters, raws.last()));
            assert(raws[raws.len() - 1] == raws.last());
        }
        assert forall|p: int|
            0 <= p < profiles.len() && (#[trigger] profiles[p]).enabled implies exists|r: int|
            0 <= r < raws.len() && read_of(all, profiles[p], adapters, #[trigger] raws[r]) by {
            if p < front.len() {
                assert(front[p] == profiles[p]);
                let r = choose|r: int|
                    0 <= r < before.len() && read_of(
                        all,
                        front[p],
                        adapters,
                        #[trigger] before[r],
                    );
                assert(raws[r] == before[r]);
            }
        }
        assert forall|r: int| 0 <= r < raws.len() implies exists|p: int|
            0 <= p < profiles.len() && read_of(
                all,
                #[trigger] profiles[p],
                adapters,
                #[trigger] raws[r],
            ) by {
            if r < before.len() {
                assert(raws[r] == before[r]);
                let p = choose|p: int|
                    0 <= p < front.len() && read_of(
                        all,
                        #[trigger] front[p],
                        adapters,
                        before[r],
                    );
                assert(profiles[p] == front[p]);
            } else {
                assert(read_of(all, profiles[profiles.len() - 1], adapters, raws[r]));
            }
        }
        assert forall|r: int, q: int| 0 <= r < q < raws.len() implies (#[trigger] raws[r]).vpn != (
        #[trigger] raws[q]).vpn by {
            assert(raws[r] == before[r]);
            if q < before.len() {
                assert(raws[q] == before[q]);
            } else {
                let p = choose|p: int|
                    0 <= p < front.len() && read_of(
                        all,
                        #[trigger] front[p],
                        adapters,
                        before[r],
                    );
                assert(profiles[p].vpn != profiles[profiles.len() - 1].vpn);
            }
        }
    }
}

/// What is planned for a profile that was read.
pub open spec fn plan_of(raw: RawView, by_vpn: bool, general: Seq<u32>) -> ProfilePlanView {
    ProfilePlanView {
        vpn: raw.vpn,
        adapter_index: raw.adapter.index,
        next_hop: raw.adapter.next_hop,
        hostnames: raw.hostnames,
        servers: own_servers(raw, by_vpn, general),
    }
}

/// What is planned is planned for what was read, and the servers that a VPN takes over are
/// taken away from everything else.
pub proof fn lemma_planned(raws: Seq<RawView>, fallback: FallbackView, general: Seq<u32>)
    requires
        planned(raws, fallback, general) is Ok,
        forall|r: int, q: int|
            0 <= r < q < raws.len() ==> (#[trigger] raws[r]).vpn != (#[trigger] raws[q]).vpn,
    ensures
        ({
            let state = planned(raws, fallback, general)->Ok_0;
            &&& forall|r: int|
                0 <= r < raws.len() ==> state.plan.get((#[trigger] raws[r]).vpn) == (
                if raws[r].hostnames.len() > 0 {
                    Some(plan_of(raws[r], fallback is Vpn, general))
                } else {
                    None
                })
            &&& forall|vpn: VpnKind|
                (forall|r: int| 0 <= r < raws.len() ==> (#[trigger] raws[r]).vpn != vpn)
                    ==> #[trigger] state.plan.get(vpn) is None
            &&& forall|address: u32| #[trigger]
                state.removals.contains(address) <==> exists|r: int|
                    0 <= r < raws.len() && servers_move(
                        #[trigger] raws[r],
                        fallback is Vpn,
                        general,
                    ) && raws[r].reported.contains(address)
        }),
    decreases raws.len(),
{
    if raws.len() > 0 {
        let front = raws.drop_last();
        let last = raws.last();
        assert forall|r: int, q: int| 0 <= r < q < front.len() implies (#[trigger] front[r]).vpn
            != (#[trigger] front[q]).vpn by {
            assert(raws[r].vpn != raws[q].vpn);
        }
        lemma_planned(front, fallback, general);
        let before = planned(front, fallback, general)->Ok_0;
        let state = planned(raws, fallback, general)->Ok_0;
        assert(raws[raws.len() - 1] == last);
        assert forall|r: int| 0 <= r < front.len() implies front[r] == #[trigger] raws[r]
            && raws[r].vpn != last.vpn by {
            assert(raws[r].vpn != raws[raws.len() - 1].vpn);
        }
        assert(before.plan.get(last.vpn) is None) by {
            assert forall|r: int| 0 <= r < front.len() implies (#[trigger] front[r]).vpn
                != last.vpn by {
                assert(front[r] == raws[r]);
            }
        }
        assert forall|r: int| 0 <= r < raws.len() implies state.plan.get((#[trigger] raws[r]).vpn)
            == (if raws[r].hostnames.len() > 0 {
            Some(plan_of(raws[r], fallback is Vpn, general))
        } else {
            None
        }) by {
            if r < front.len() {
                assert(before.plan.get(front[r].vpn) == state.plan.get(raws[r].vpn));
            }
        }
        assert forall|vpn: VpnKind|
            (forall|r: int| 0 <= r < raws.len() ==> (#[trigger] raws[r]).vpn
                != vpn) implies #[trigger] state.plan.get(vpn) is None by {
            assert forall|r: int| 0 <= r < front.len() implies (#[trigger] front[r]).vpn != vpn by {
                assert(front[r] == raws[r]);
            }
            assert(before.plan.get(vpn) is None);
            assert(raws[raws.len() - 1].vpn != vpn);
        }
        let moves = servers_move(last, fallback is Vpn, general);
        assert forall|address: u32| #[trigger]
            state.removals.contains(address) <==> exists|r: int|
                0 <= r < raws.len() && servers_move(#[trigger] raws[r], fallback is Vpn, general)
                    && raws[r].reported.contains(address) by {
            if state.removals.contains(address) {
                let k = choose|k: int| 0 <= k < state.removals.len() && state.removals[k]
                    == address;
                if k < before.removals.len() {
                    assert(before.removals[k] == address);
                    assert(before.removals.contains(address));
                    let r = choose|r: int|
                        0 <= r < front.len() && servers_move(
                            #[trigger] front[r],
                            fallback is Vpn,
                            general,
                        ) && front[r].reported.contains(address);
                    assert(raws[r] == front[r]);
                } else {
                    assert(last.reported[k - before.removals.len()] == address);
                    assert(raws[raws.len() - 1].reported.contains(address));
                }
            }
            if exists|r: int|
                0 <= r < raws.len() && servers_move(#[trigger] raws[r], fallback is Vpn, general)
                    && raws[r].reported.contains(address) {
                let r = choose|r: int|
                    0 <= r < raws.len() && servers_move(
                        #[trigger] raws[r],
                        fallback is Vpn,
                        general,
                    ) && raws[r].reported.contains(address);
                if r < front.len() {
                    assert(front[r] == raws[r]);
                    assert(before.removals.contains(address));
                    let k = choose|k: int|
                        0 <= k < before.removals.len() && before.removals[k] == address;
                    assert(state.removals[k] == address);
                } else {
                    let k = choose|k: int|
                        0 <= k < last.reported.len() && last.reported[k] == address;
                    assert(state.removals[before.removals.len() + k] == address);
                }
            }
        }
    }
}

/// The servers of the VPN's interface are only some of those for everything else, and
/// everything else goes through another VPN: both have reported them, and they are the
/// enabled VPN's.
pub open spec fn takes_over(
    adapter: AdapterView,
    fallback: FallbackView,
    adapters: Seq<AdapterView>,
) -> bool {
    let general = fallback_servers(fallback, adapters)->Ok_0;
    &&& fallback is Vpn
    &&& forall|server: u32| #[trigger]
        names_address(adapter.dns_servers, server) ==> general.contains(server)
    &&& exists|server: u32| #[trigger]
        general.contains(server) && !names_address(adapter.dns_servers, server)
}

/// The name is listed among the entries.
pub open spec fn lists_name(entries: Seq<TargetEntryView>, name: Seq<char>) -> bool {
    exists|j: int|
        0 <= j < entries.len() && (#[trigger] entries[j]).target == TargetView::Domain(name)
}

/// The names among entries are those that some entry is, in increasing order.
pub proof fn lemma_domains(entries: Seq<TargetEntryView>)
    requires
        domains_among(entries) is Ok,
    ensures
        increasing_texts(domains_among(entries)->Ok_0),
        forall|name: Seq<char>| #[trigger]
            domains_among(entries)->Ok_0.contains(name) <==> lists_name(entries, name),
    decreases entries.len(),
{
    if entries.len() > 0 {
        let front = entries.drop_last();
        lemma_domains(front);
        let before = domains_among(front)->Ok_0;
        let all = domains_among(entries)->Ok_0;
        assert(entries[entries.len() - 1] == entries.last());
        if let TargetView::Domain(name) = entries.last().target {
            lemma_insert_text(before, name);
        }
        assert forall|name: Seq<char>| #[trigger]
            all.contains(name) <==> lists_name(entries, name) by {
            assert(lists_name(entries, name) <==> lists_name(front, name) || entries.last().target
                == TargetView::Domain(name)) by {
                if lists_name(entries, name) {
                    let j = choose|j: int|
                        0 <= j < entries.len() && (#[trigger] entries[j]).target
                            == TargetView::Domain(name);
                    if j < front.len() {
                        assert(front[j] == entries[j]);
                    }
                }
                if lists_name(front, name) {
                    let j = choose|j: int|
                        0 <= j < front.len() && (#[trigger] front[j]).target
                            == TargetView::Domain(name);
                    assert(entries[j] == front[j]);
                }
            }
            assert(before.contains(name) <==> lists_name(front, name));
        }
    }
}

/// A VPN takes servers over just where its list is a proper part of the general one.
pub proof fn lemma_takes_over(raw: RawView, fallback: FallbackView, adapters: Seq<AdapterView>)
    requires
        fallback_servers(fallback, adapters) is Ok,
        raw.reported == address_set(distinct_addresses(raw.adapter.dns_servers)),
    ensures
        ({
            let general = address_set(fallback_servers(fallback, adapters)->Ok_0);
            servers_move(raw, fallback is Vpn, general) == takes_over(
                raw.adapter,
                fallback,
                adapters,
            )
        }),
        forall|server: u32| #[trigger]
            raw.reported.contains(server) <==> names_address(raw.adapter.dns_servers, server),
{
    let servers = fallback_servers(fallback, adapters)->Ok_0;
    let general = address_set(servers);
    let texts = raw.adapter.dns_servers;
    law_distinct_addresses(texts);
    lemma_address_set(distinct_addresses(texts));
    lemma_address_set(servers);
    lemma_set_increasing(distinct_addresses(texts));
    lemma_set_increasing(servers);
    lemma_same_set(raw.reported, general);
    assert forall|server: u32| #[trigger]
        raw.reported.contains(server) <==> names_address(texts, server) by {
        assert(distinct_addresses(texts).contains(server) <==> names_address(texts, server));
    }
    assert(all_within(raw.reported, general) <==> forall|server: u32| #[trigger]
        names_address(texts, server) ==> servers.contains(server)) by {
        if all_within(raw.reported, general) {
            assert forall|server: u32| #[trigger] names_address(texts, server) implies
                servers.contains(server) by {
                assert(raw.reported.contains(server));
                let i = choose|i: int| 0 <= i < raw.reported.len() && raw.reported[i] == server;
                assert(general.contains(raw.reported[i]));
            }
        }
        if forall|server: u32| #[trigger]
            names_address(texts, server) ==> servers.contains(server) {
            assert forall|i: int| 0 <= i < raw.reported.len() implies general.contains(
                #[trigger] raw.reported[i],
            ) by {
                assert(raw.reported.contains(raw.reported[i]));
                assert(names_address(texts, raw.reported[i]));
                assert(servers.contains(raw.reported[i]));
            }
        }
    }
    if takes_over(raw.adapter, fallback, adapters) {
        let server = choose|server: u32| #[trigger]
            servers.contains(server) && !names_address(texts, server);
        assert(general.contains(server));
        assert(!raw.reported.contains(server));
    }
    if all_within(raw.reported, general) && raw.reported != general {
        let server = choose|server: u32| #[trigger]
            raw.reported.contains(server) != general.contains(server);
        if raw.reported.contains(server) {
            let i = choose|i: int| 0 <= i < raw.reported.len() && raw.reported[i] == server;
            assert(general.contains(raw.reported[i]));
        }
        assert(servers.contains(server));
    }
}

/// The servers of a plan are those that the interface reports, without those for
/// everything else unless the VPN takes them over.
pub proof fn lemma_own_servers(raw: RawView, fallback: FallbackView, adapters: Seq<AdapterView>)
    requires
        fallback_servers(fallback, adapters) is Ok,
        raw.reported == address_set(distinct_addresses(raw.adapter.dns_servers)),
    ensures
        ({
            let servers = fallback_servers(fallback, adapters)->Ok_0;
            let own = own_servers(raw, fallback is Vpn, address_set(servers));
            &&& increasing(own)
            &&& forall|server: u32| #[trigger]
                own.contains(server) <==> names_address(raw.adapter.dns_servers, server) && (
                !servers.contains(server) || takes_over(raw.adapter, fallback, adapters))
        }),
{
    let servers = fallback_servers(fallback, adapters)->Ok_0;
    let general = address_set(servers);
    let own = own_servers(raw, fallback is Vpn, general);
    lemma_takes_over(raw, fallback, adapters);
    lemma_set_increasing(distinct_addresses(raw.adapter.dns_servers));
    lemma_filter_increasing(raw.reported, not_among(general));
    lemma_filter_members(raw.reported, not_among(general));
    assert forall|server: u32| #[trigger]
        own.contains(server) <==> names_address(raw.adapter.dns_servers, server) && (
        !servers.contains(server) || takes_over(raw.adapter, fallback, adapters)) by {
        lemma_address_set(servers);
        assert(general.contains(server) <==> servers.contains(server));
        assert(raw.reported.contains(server) <==> names_address(raw.adapter.dns_servers, server));
    }
}

/// What is planned for an enabled profile, given what was read of it.
proof fn lemma_plan_of(
    profiles: Seq<VpnProfile>,
    adapters: Seq<AdapterView>,
    fallback: FallbackView,
    p: int,
) -> (raw: RawView)
    requires
        distinct_vpns(profiles),
        dns_plan(profiles, adapters, Some(fallback), true) is Ok,
        0 <= p < profiles.len(),
        profiles[p].enabled,
    ensures
        read_of(profiles, profiles[p], adapters, raw),
        dns_plan(profiles, adapters, Some(fallback), true)->Ok_0.get(profiles[p].vpn) == (
        if raw.hostnames.len() > 0 {
            Some(
                plan_of(
                    raw,
                    fallback is Vpn,
                    address_set(fallback_servers(fallback, adapters)->Ok_0),
                ),
            )
        } else {
            None
        }),
{
    let general = address_set(fallback_servers(fallback, adapters)->Ok_0);
    let raws = raws_of(profiles, profiles, adapters)->Ok_0.raws;
    let state = planned(raws, fallback, general)->Ok_0;
    lemma_read(profiles, profiles, adapters);
    lemma_planned(raws, fallback, general);
    let plan = dns_plan(profiles, adapters, Some(fallback), true)->Ok_0;
    assert(plan.get(profiles[p].vpn) == state.plan.get(profiles[p].vpn));
    let r = choose|r: int|
        0 <= r < raws.len() && read_of(profiles, profiles[p], adapters, #[trigger] raws[r]);
    assert(state.plan.get(raws[r].vpn) == plan.get(profiles[p].vpn));
    raws[r]
}

/// A VPN that is not switched on has no plan.
proof fn lemma_no_plan(
    profiles: Seq<VpnProfile>,
    adapters: Seq<AdapterView>,
    fallback: FallbackView,
    p: int,
)
    requires
        distinct_vpns(profiles),
        dns_plan(profiles, adapters, Some(fallback), true) is Ok,
        0 <= p < profiles.len(),
        !profiles[p].enabled,
    ensures
        dns_plan(profiles, adapters, Some(fallback), true)->Ok_0.get(profiles[p].vpn) is None,
{
    let general = address_set(fallback_servers(fallback, adapters)->Ok_0);
    let raws = raws_of(profiles, profiles, adapters)->Ok_0.raws;
    let state = planned(raws, fallback, general)->Ok_0;
    let vpn = profiles[p].vpn;
    lemma_read(profiles, profiles, adapters);
    lemma_planned(raws, fallback, general);
    assert(dns_plan(profiles, adapters, Some(fallback), true)->Ok_0.get(vpn) == state.plan.get(
        vpn,
    ));
    assert forall|r: int| 0 <= r < raws.len() implies (#[trigger] raws[r]).vpn != vpn by {
        let q = choose|q: int|
            0 <= q < profiles.len() && read_of(
                profiles,
                #[trigger] profiles[q],
                adapters,
                raws[r],
            );
        if profiles[q].vpn == vpn {
            if q < p {
                assert(profiles[q].vpn != profiles[p].vpn);
            } else if p < q {
                assert(profiles[p].vpn != profiles[q].vpn);
            }
        }
    }
}

/// The names that an enabled VPN lists are answered by that VPN's own servers, through its
/// own interface, and by nothing else. The plan of a VPN has just the names that its
/// profile lists, and just the servers that its interface reports, without those for
/// everything else unless it takes them over. A VPN that is not switched on, or that lists
/// no name, has no plan.
pub proof fn law_listed_names_are_answered_by_their_vpn(
    profiles: Seq<VpnProfile>,
    adapters: Seq<AdapterView>,
    fallback: FallbackView,
    p: int,
)
    requires
        distinct_vpns(profiles),
        dns_plan(profiles, adapters, Some(fallback), true) is Ok,
        0 <= p < profiles.len(),
    ensures
        ({
            let plan = dns_plan(profiles, adapters, Some(fallback), true)->Ok_0.get(
                profiles[p].vpn,
            );
            let entries = entries_of(profiles[p].networks@);
            let selected = selection(profiles, profiles[p].vpn, adapters);
            let general = fallback_servers(fallback, adapters)->Ok_0;
            &&& plan is Some <==> profiles[p].enabled && exists|name: Seq<char>|
                lists_name(entries, name)
            &&& plan matches Some(own) ==> {
                &&& own.vpn == profiles[p].vpn
                &&& selected is Ok
                &&& own.adapter_index == selected->Ok_0.index
                &&& own.next_hop == selected->Ok_0.next_hop
                &&& increasing_texts(own.hostnames)
                &&& forall|name: Seq<char>| #[trigger]
                    own.hostnames.contains(name) <==> lists_name(entries, name)
                &&& increasing(own.servers)
                &&& forall|server: u32| #[trigger]
                    own.servers.contains(server) <==> names_address(
                        selected->Ok_0.dns_servers,
                        server,
                    ) && (!general.contains(server) || takes_over(
                        selected->Ok_0,
                        fallback,
                        adapters,
                    ))
            }
        }),
{
    let entries = entries_of(profiles[p].networks@);
    if profiles[p].enabled {
        let raw = lemma_plan_of(profiles, adapters, fallback, p);
        lemma_domains(entries);
        lemma_own_servers(raw, fallback, adapters);
        if raw.hostnames.len() > 0 {
            assert(raw.hostnames.contains(raw.hostnames[0]));
            assert(lists_name(entries, raw.hostnames[0]));
        } else {
            assert forall|name: Seq<char>| !lists_name(entries, name) by {
                assert(!raw.hostnames.contains(name));
            }
        }
    } else {
        lemma_no_plan(profiles, adapters, fallback, p);
    }
}

/// All other names are answered by the servers of the path for everything else, by all of
/// them but those that an enabled VPN takes over, in their order. Where none is left there
/// is no plan.
pub proof fn law_other_names_are_answered_as_before(
    profiles: Seq<VpnProfile>,
    adapters: Seq<AdapterView>,
    fallback: FallbackView,
    server: u32,
)
    requires
        distinct_vpns(profiles),
        dns_plan(profiles, adapters, Some(fallback), true) is Ok,
    ensures
        ({
            let plan = dns_plan(profiles, adapters, Some(fallback), true)->Ok_0;
            &&& fallback_servers(fallback, adapters) is Ok
            &&& plan.fallback_servers.len() > 0
            &&& plan.fallback_servers.contains(server) <==> fallback_servers(
                fallback,
                adapters,
            )->Ok_0.contains(server) && !exists|p: int|
                0 <= p < profiles.len() && (#[trigger] profiles[p]).enabled && takes_over(
                    selection(profiles, profiles[p].vpn, adapters)->Ok_0,
                    fallback,
                    adapters,
                ) && names_address(
                    selection(profiles, profiles[p].vpn, adapters)->Ok_0.dns_servers,
                    server,
                )
            &&& fallback is Physical ==> plan.fallback_servers == fallback_servers(
                fallback,
                adapters,
            )->Ok_0
        }),
{
    let servers = fallback_servers(fallback, adapters)->Ok_0;
    let general = address_set(servers);
    let raws = raws_of(profiles, profiles, adapters)->Ok_0.raws;
    let state = planned(raws, fallback, general)->Ok_0;
    let plan = dns_plan(profiles, adapters, Some(fallback), true)->Ok_0;
    lemma_read(profiles, profiles, adapters);
    lemma_planned(raws, fallback, general);
    lemma_filter_members(servers, not_among(state.removals));
    let taken = exists|p: int|
        0 <= p < profiles.len() && (#[trigger] profiles[p]).enabled && takes_over(
            selection(profiles, profiles[p].vpn, adapters)->Ok_0,
            fallback,
            adapters,
        ) && names_address(
            selection(profiles, profiles[p].vpn, adapters)->Ok_0.dns_servers,
            server,
        );
    if taken {
        let p = choose|p: int|
            0 <= p < profiles.len() && (#[trigger] profiles[p]).enabled && takes_over(
                selection(profiles, profiles[p].vpn, adapters)->Ok_0,
                fallback,
                adapters,
            ) && names_address(
                selection(profiles, profiles[p].vpn, adapters)->Ok_0.dns_servers,
                server,
            );
        let r = choose|r: int|
            0 <= r < raws.len() && read_of(profiles, profiles[p], adapters, #[trigger] raws[r]);
        lemma_takes_over(raws[r], fallback, adapters);
        assert(raws[r].reported.contains(server));
        assert(state.removals.contains(server));
        assert(!not_among(state.removals)(server));
    }
    if state.removals.contains(server) {
        let r = choose|r: int|
            0 <= r < raws.len() && servers_move(#[trigger] raws[r], fallback is Vpn, general)
                && raws[r].reported.contains(server);
        let p = choose|p: int|
            0 <= p < profiles.len() && read_of(
                profiles,
                #[trigger] profiles[p],
                adapters,
                raws[r],
            );
        lemma_takes_over(raws[r], fallback, adapters);
        assert(names_address(raws[r].adapter.dns_servers, server));
        assert(profiles[p].enabled);
        assert(taken);
    }
    if fallback is Physical {
        assert forall|i: int| 0 <= i < servers.len() implies not_among(state.removals)(
            #[trigger] servers[i],
        ) by {
            assert(!state.removals.contains(servers[i]));
        }
        lemma_filter_all(servers, not_among(state.removals));
    }
}

/// Names are left alone where there is nothing to look after.
pub proof fn law_no_plan_without_need(
    profiles: Seq<VpnProfile>,
    adapters: Seq<AdapterView>,
    fallback: Option<FallbackView>,
    vpn: VpnKind,
)
    ensures
        dns_plan(profiles, adapters, fallback, false) is Ok,
        dns_plan(profiles, adapters, fallback, false)->Ok_0.fallback_servers.len() == 0,
        dns_plan(profiles, adapters, fallback, false)->Ok_0.get(vpn) is None,
        fallback is None ==> dns_plan(profiles, adapters, fallback, true) is Err,
{
}

} // verus!
