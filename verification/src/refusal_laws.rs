//! When a plan for names can be made, and when it cannot.

use vstd::prelude::*;

use crate::dns_plan::{
    address_set, dns_plan, lemma_address_set, lemma_raws_own_domains, not_among, own_servers,
    planned, raws_of, server_owner, servers_move, with_claims, with_server_claims, RawView,
    ServerOwner,
};
use crate::domain::{
    distinct_vpns, domains_among, entries_of, networks_among, TargetEntryView, TargetView, VpnKind,
    VpnProfile,
};
use crate::fallback::{fallback_servers, FallbackView};
use crate::fallback_laws::{law_other_names_keep_their_servers, names_address};
use crate::lists::lemma_filter_members;
use crate::plan_laws::{
    lemma_domains, lemma_own_servers, lemma_planned, lemma_read, lemma_same_set,
    lemma_set_increasing, lemma_takes_over, lists_name, read_of, takes_over,
};
use crate::selection::{distinct_addresses, selection};
use crate::validation::{owner_of, OwnerView};
use crate::windows::AdapterView;

verus! {

/// The entries are all networks or names.
pub open spec fn all_read(entries: Seq<TargetEntryView>) -> bool {
    forall|j: int|
        0 <= j < entries.len() ==> (#[trigger] entries[j]).target is Network
            || entries[j].target is Domain
}

/// The names of a list can be told just where each of its entries is a network or a name.
pub proof fn law_names_need_readable_entries(entries: Seq<TargetEntryView>)
    ensures
        domains_among(entries) is Ok <==> all_read(entries),
        domains_among(entries) is Ok ==> forall|name: Seq<char>| #[trigger]
            domains_among(entries)->Ok_0.contains(name) <==> lists_name(entries, name),
    decreases entries.len(),
{
    if domains_among(entries) is Ok {
        lemma_domains(entries);
    }
    if entries.len() > 0 {
        let front = entries.drop_last();
        law_names_need_readable_entries(front);
        assert(entries[entries.len() - 1] == entries.last());
        assert(all_read(entries) <==> all_read(front) && (entries.last().target is Network
            || entries.last().target is Domain)) by {
            if all_read(entries) {
                assert forall|j: int| 0 <= j < front.len() implies (
                #[trigger] front[j]).target is Network || front[j].target is Domain by {
                    assert(front[j] == entries[j]);
                }
            }
            if all_read(front) && (entries.last().target is Network
                || entries.last().target is Domain) {
                assert forall|j: int| 0 <= j < entries.len() implies (
                #[trigger] entries[j]).target is Network || entries[j].target is Domain by {
                    if j < front.len() {
                        assert(front[j] == entries[j]);
                    }
                }
            }
        }
    }
}

/// The networks of a list are all of its networks, in their order: each entry that is a
/// network gives one, and a name gives none. An entry that is neither, or that is all
/// addresses, makes the whole list fail.
pub proof fn law_networks_of_a_list_are_all_of_them(entries: Seq<TargetEntryView>)
    ensures
        networks_among(entries) is Ok <==> all_read(entries) && forall|j: int|
            0 <= j < entries.len() ==> ((#[trigger] entries[j]).target matches TargetView::Network(
                network,
            ) ==> network.prefix_len > 0),
        networks_among(entries) matches Ok(networks) ==> ({
            let listed = entries.filter(|entry: TargetEntryView| entry.target is Network);
            &&& networks.len() == listed.len()
            &&& forall|k: int|
                0 <= k < networks.len() ==> (#[trigger] listed[k]).target == TargetView::Network(
                    networks[k],
                )
        }),
    decreases entries.len(),
{
    reveal(Seq::filter);
    let is_network = |entry: TargetEntryView| entry.target is Network;
    if entries.len() > 0 {
        let front = entries.drop_last();
        let last = entries.last();
        law_networks_of_a_list_are_all_of_them(front);
        assert(entries[entries.len() - 1] == last);
        assert forall|j: int| 0 <= j < front.len() implies front[j] == #[trigger] entries[j] by {}
        let good = |list: Seq<TargetEntryView>|
            all_read(list) && forall|j: int|
                0 <= j < list.len() ==> ((#[trigger] list[j]).target matches TargetView::Network(
                    network,
                ) ==> network.prefix_len > 0);
        let fine = match last.target {
            TargetView::Network(network) => network.prefix_len > 0,
            TargetView::Domain(_) => true,
            _ => false,
        };
        assert(good(entries) <==> good(front) && fine) by {
            if good(entries) {
                assert forall|j: int| 0 <= j < front.len() implies (
                #[trigger] front[j]).target is Network || front[j].target is Domain by {
                    assert(front[j] == entries[j]);
                }
                assert forall|j: int| 0 <= j < front.len() implies ((
                #[trigger] front[j]).target matches TargetView::Network(network)
                    ==> network.prefix_len > 0) by {
                    assert(front[j] == entries[j]);
                }
            }
            if good(front) && fine {
                assert forall|j: int| 0 <= j < entries.len() implies (
                #[trigger] entries[j]).target is Network || entries[j].target is Domain by {
                    if j < front.len() {
                        assert(front[j] == entries[j]);
                    }
                }
                assert forall|j: int| 0 <= j < entries.len() implies ((
                #[trigger] entries[j]).target matches TargetView::Network(network)
                    ==> network.prefix_len > 0) by {
                    if j < front.len() {
                        assert(front[j] == entries[j]);
                    }
                }
            }
        }
        if networks_among(entries) is Ok {
            let before = front.filter(is_network);
            let listed = entries.filter(is_network);
            let networks = networks_among(entries)->Ok_0;
            assert forall|k: int| 0 <= k < networks.len() implies (#[trigger] listed[k]).target
                == TargetView::Network(networks[k]) by {
                if k < before.len() {
                    assert(listed[k] == before[k]);
                }
            }
        }
    }
}

/// Names can be claimed just where no other VPN owns one of them.
proof fn lemma_claims_iff(owners: Seq<OwnerView>, vpn: VpnKind, names: Seq<Seq<char>>)
    ensures
        with_claims(owners, vpn, names) is Ok <==> forall|i: int|
            0 <= i < names.len() ==> (owner_of(owners, #[trigger] names[i]) is None || owner_of(
                owners,
                names[i],
            ) == Some(vpn)),
        with_claims(owners, vpn, names) matches Ok(all) ==> forall|name: Seq<char>| #[trigger]
            owner_of(all, name) == (if owner_of(owners, name) is Some {
                owner_of(owners, name)
            } else if names.contains(name) {
                Some(vpn)
            } else {
                None
            }),
    decreases names.len(),
{
    if names.len() > 0 {
        let front = names.drop_last();
        let last = names.last();
        lemma_claims_iff(owners, vpn, front);
        assert(names[names.len() - 1] == last);
        assert forall|i: int| 0 <= i < front.len() implies front[i] == #[trigger] names[i] by {}
        assert forall|name: Seq<char>| #[trigger] names.contains(name) <==> front.contains(name)
            || name == last by {
            if names.contains(name) {
                let i = choose|i: int| 0 <= i < names.len() && names[i] == name;
                if i < front.len() {
                    assert(front[i] == name);
                }
            }
            if front.contains(name) {
                let i = choose|i: int| 0 <= i < front.len() && front[i] == name;
                assert(names[i] == name);
            }
        }
        if with_claims(owners, vpn, front) is Ok {
            let before = with_claims(owners, vpn, front)->Ok_0;
            assert(owner_of(before, last) is Some && owner_of(before, last) != Some(vpn)
                <==> owner_of(owners, last) is Some && owner_of(owners, last) != Some(vpn));
            if with_claims(owners, vpn, names) is Ok {
                let all = with_claims(owners, vpn, names)->Ok_0;
                assert(all.drop_last() =~= before);
                assert forall|name: Seq<char>| #[trigger] owner_of(all, name) == (if owner_of(
                    owners,
                    name,
                ) is Some {
                    owner_of(owners, name)
                } else if names.contains(name) {
                    Some(vpn)
                } else {
                    None
                }) by {
                    assert(owner_of(before, name) is Some <==> owner_of(owners, name) is Some
                        || front.contains(name));
                }
                assert forall|i: int| 0 <= i < names.len() implies (owner_of(
                    owners,
                    #[trigger] names[i],
                ) is None || owner_of(owners, names[i]) == Some(vpn)) by {
                    if i < front.len() {
                        assert(front[i] == names[i]);
                    }
                }
            }
        } else {
            let i = choose|i: int|
                0 <= i < front.len() && !(owner_of(owners, #[trigger] front[i]) is None || owner_of(
                    owners,
                    front[i],
                ) == Some(vpn));
            assert(names[i] == front[i]);
        }
    }
}

/// Servers can be claimed just where no other VPN owns one of them.
proof fn lemma_server_claims_iff(owners: Seq<ServerOwner>, vpn: VpnKind, servers: Seq<u32>)
    ensures
        with_server_claims(owners, vpn, servers) is Ok <==> forall|i: int|
            0 <= i < servers.len() ==> (server_owner(owners, #[trigger] servers[i]) is None
                || server_owner(owners, servers[i]) == Some(vpn)),
        with_server_claims(owners, vpn, servers) matches Ok(all) ==> forall|server: u32| #[trigger]
            server_owner(all, server) == (if server_owner(owners, server) is Some {
                server_owner(owners, server)
            } else if servers.contains(server) {
                Some(vpn)
            } else {
                None
            }),
    decreases servers.len(),
{
    if servers.len() > 0 {
        let front = servers.drop_last();
        let last = servers.last();
        lemma_server_claims_iff(owners, vpn, front);
        assert(servers[servers.len() - 1] == last);
        assert forall|i: int| 0 <= i < front.len() implies front[i] == #[trigger] servers[i] by {}
        assert forall|server: u32| #[trigger] servers.contains(server) <==> front.contains(server)
            || server == last by {
            if servers.contains(server) {
                let i = choose|i: int| 0 <= i < servers.len() && servers[i] == server;
                if i < front.len() {
                    assert(front[i] == server);
                }
            }
            if front.contains(server) {
                let i = choose|i: int| 0 <= i < front.len() && front[i] == server;
                assert(servers[i] == server);
            }
        }
        if with_server_claims(owners, vpn, front) is Ok {
            let before = with_server_claims(owners, vpn, front)->Ok_0;
            assert(server_owner(before, last) is Some && server_owner(before, last) != Some(vpn)
                <==> server_owner(owners, last) is Some && server_owner(owners, last) != Some(
                vpn,
            ));
            if with_server_claims(owners, vpn, servers) is Ok {
                let all = with_server_claims(owners, vpn, servers)->Ok_0;
                assert(all.drop_last() =~= before);
                assert forall|server: u32| #[trigger] server_owner(all, server) == (
                if server_owner(owners, server) is Some {
                    server_owner(owners, server)
                } else if servers.contains(server) {
                    Some(vpn)
                } else {
                    None
                }) by {
                    assert(server_owner(before, server) is Some <==> server_owner(
                        owners,
                        server,
                    ) is Some || front.contains(server));
                }
                assert forall|i: int| 0 <= i < servers.len() implies (server_owner(
                    owners,
                    #[trigger] servers[i],
                ) is None || server_owner(owners, servers[i]) == Some(vpn)) by {
                    if i < front.len() {
                        assert(front[i] == servers[i]);
                    }
                }
            }
        } else {
            let i = choose|i: int|
                0 <= i < front.len() && !(server_owner(owners, #[trigger] front[i]) is None
                    || server_owner(owners, front[i]) == Some(vpn));
            assert(servers[i] == front[i]);
        }
    }
}

/// The profile can be read: its interface is connected and each of its entries is a network
/// or a name.
pub open spec fn is_readable(
    all: Seq<VpnProfile>,
    profile: VpnProfile,
    adapters: Seq<AdapterView>,
) -> bool {
    &&& selection(all, profile.vpn, adapters) is Ok
    &&& all_read(entries_of(profile.networks@))
}

/// The two profiles list no name in common.
pub open spec fn names_differ(one: VpnProfile, other: VpnProfile) -> bool {
    forall|name: Seq<char>|
        !(#[trigger] lists_name(entries_of(one.networks@), name) && lists_name(
            entries_of(other.networks@),
            name,
        ))
}

/// The profiles can be read together.
pub open spec fn all_readable(
    all: Seq<VpnProfile>,
    profiles: Seq<VpnProfile>,
    adapters: Seq<AdapterView>,
) -> bool {
    &&& forall|p: int|
        0 <= p < profiles.len() && (#[trigger] profiles[p]).enabled ==> is_readable(
            all,
            profiles[p],
            adapters,
        )
    &&& forall|p: int, q: int|
        0 <= p < q < profiles.len() && (#[trigger] profiles[p]).enabled && (
        #[trigger] profiles[q]).enabled ==> names_differ(profiles[p], profiles[q])
}

/// Fewer profiles can be read where more can.
proof fn lemma_fewer_readable(
    all: Seq<VpnProfile>,
    profiles: Seq<VpnProfile>,
    adapters: Seq<AdapterView>,
)
    requires
        profiles.len() > 0,
        all_readable(all, profiles, adapters),
    ensures
        all_readable(all, profiles.drop_last(), adapters),
{
    let front = profiles.drop_last();
    assert forall|p: int| 0 <= p < front.len() && (#[trigger] front[p]).enabled implies is_readable(
        all,
        front[p],
        adapters,
    ) by {
        assert(profiles[p] == front[p]);
    }
    assert forall|p: int, q: int|
        0 <= p < q < front.len() && (#[trigger] front[p]).enabled && (
        #[trigger] front[q]).enabled implies names_differ(front[p], front[q]) by {
        assert(profiles[p] == front[p] && profiles[q] == front[q]);
    }
}

/// The profiles are read just where they can be read, and a name that was read is owned by
/// the VPN of a profile that lists it.
proof fn lemma_read_iff(all: Seq<VpnProfile>, profiles: Seq<VpnProfile>, adapters: Seq<AdapterView>)
    requires
        distinct_vpns(profiles),
    ensures
        raws_of(all, profiles, adapters) is Ok <==> all_readable(all, profiles, adapters),
        raws_of(all, profiles, adapters) matches Ok(read) ==> forall|name: Seq<char>| #[trigger]
            owner_of(read.owners, name) matches Some(vpn) ==> exists|p: int|
                0 <= p < profiles.len() && (#[trigger] profiles[p]).enabled && profiles[p].vpn
                    == vpn && lists_name(entries_of(profiles[p].networks@), name),
    decreases profiles.len(),
{
    if profiles.len() > 0 {
        let front = profiles.drop_last();
        let last = profiles.last();
        let entries = entries_of(last.networks@);
        assert(profiles[profiles.len() - 1] == last);
        assert(distinct_vpns(front)) by {
            assert forall|i: int, j: int| 0 <= i < j < front.len() implies (#[trigger] front[i]).vpn
                != (#[trigger] front[j]).vpn by {
                assert(profiles[i].vpn != profiles[j].vpn);
            }
        }
        lemma_read_iff(all, front, adapters);
        law_names_need_readable_entries(entries);
        if all_readable(all, profiles, adapters) {
            lemma_fewer_readable(all, profiles, adapters);
        }
        if raws_of(all, front, adapters) is Ok {
            let before = raws_of(all, front, adapters)->Ok_0;
            if last.enabled {
                if is_readable(all, last, adapters) {
                    let names = domains_among(entries)->Ok_0;
                    lemma_claims_iff(before.owners, last.vpn, names);
                    assert(front.push(last) =~= profiles);
                    lemma_last_claims(all, front, adapters, last);
                    assert(raws_of(all, profiles, adapters) is Ok <==> with_claims(
                        before.owners,
                        last.vpn,
                        names,
                    ) is Ok);
                    assert(all_readable(all, profiles, adapters) <==> forall|p: int|
                        0 <= p < front.len() && (#[trigger] front[p]).enabled ==> names_differ(
                            front[p],
                            last,
                        )) by {
                        lemma_one_more(all, profiles, adapters);
                    }
                } else {
                    assert(raws_of(all, profiles, adapters) is Err);
                }
            } else {
                lemma_one_more(all, profiles, adapters);
            }
        }
        if raws_of(all, profiles, adapters) is Ok {
            let before = raws_of(all, front, adapters)->Ok_0;
            let read = raws_of(all, profiles, adapters)->Ok_0;
            assert forall|name: Seq<char>| #[trigger] owner_of(read.owners, name) matches Some(
                vpn,
            ) implies exists|p: int|
                0 <= p < profiles.len() && (#[trigger] profiles[p]).enabled && profiles[p].vpn
                    == owner_of(read.owners, name)->0 && lists_name(
                    entries_of(profiles[p].networks@),
                    name,
                ) by {
                if owner_of(before.owners, name) is Some {
                    if last.enabled {
                        lemma_claims_iff(
                            before.owners,
                            last.vpn,
                            domains_among(entries)->Ok_0,
                        );
                    }
                    let p = choose|p: int|
                        0 <= p < front.len() && (#[trigger] front[p]).enabled && front[p].vpn
                            == owner_of(before.owners, name)->0 && lists_name(
                            entries_of(front[p].networks@),
                            name,
                        );
                    assert(profiles[p] == front[p]);
                } else {
                    lemma_claims_iff(before.owners, last.vpn, domains_among(entries)->Ok_0);
                    assert(lists_name(entries_of(profiles[profiles.len() - 1].networks@), name));
                }
            }
        }
    }
}

/// One profile more can be read where it can be read itself and shares no name.
proof fn lemma_one_more(all: Seq<VpnProfile>, profiles: Seq<VpnProfile>, adapters: Seq<AdapterView>)
    requires
        profiles.len() > 0,
        all_readable(all, profiles.drop_last(), adapters),
    ensures
        all_readable(all, profiles, adapters) <==> (profiles.last().enabled ==> is_readable(
            all,
            profiles.last(),
            adapters,
        ) && forall|p: int|
            0 <= p < profiles.len() - 1 && (#[trigger] profiles.drop_last()[p]).enabled
                ==> names_differ(profiles.drop_last()[p], profiles.last())),
{
    let front = profiles.drop_last();
    let last = profiles.last();
    assert(profiles[profiles.len() - 1] == last);
    let more = last.enabled ==> is_readable(all, last, adapters) && forall|p: int|
        0 <= p < front.len() && (#[trigger] front[p]).enabled ==> names_differ(front[p], last);
    if all_readable(all, profiles, adapters) && last.enabled {
        assert forall|p: int|
            0 <= p < front.len() && (#[trigger] front[p]).enabled implies names_differ(
            front[p],
            last,
        ) by {
            assert(profiles[p] == front[p]);
            assert(names_differ(profiles[p], profiles[profiles.len() - 1]));
        }
    }
    if more {
        assert forall|p: int|
            0 <= p < profiles.len() && (#[trigger] profiles[p]).enabled implies is_readable(
            all,
            profiles[p],
            adapters,
        ) by {
            if p < front.len() {
                assert(front[p] == profiles[p]);
            }
        }
        assert forall|p: int, q: int|
            0 <= p < q < profiles.len() && (#[trigger] profiles[p]).enabled && (
            #[trigger] profiles[q]).enabled implies names_differ(profiles[p], profiles[q]) by {
            assert(front[p] == profiles[p]);
            if q < front.len() {
                assert(front[q] == profiles[q]);
            }
        }
    }
}

/// A name that a profile lists is owned by its VPN once the profile has been read.
proof fn lemma_listed_is_owned(
    all: Seq<VpnProfile>,
    profiles: Seq<VpnProfile>,
    adapters: Seq<AdapterView>,
    p: int,
    name: Seq<char>,
)
    requires
        distinct_vpns(profiles),
        raws_of(all, profiles, adapters) is Ok,
        0 <= p < profiles.len(),
        profiles[p].enabled,
        lists_name(entries_of(profiles[p].networks@), name),
    ensures
        owner_of(raws_of(all, profiles, adapters)->Ok_0.owners, name) == Some(profiles[p].vpn),
{
    let read = raws_of(all, profiles, adapters)->Ok_0;
    let entries = entries_of(profiles[p].networks@);
    lemma_read(all, profiles, adapters);
    lemma_raws_own_domains(all, profiles, adapters);
    let r = choose|r: int|
        0 <= r < read.raws.len() && read_of(all, profiles[p], adapters, #[trigger] read.raws[r]);
    lemma_domains(entries);
    let names = read.raws[r].hostnames;
    assert(domains_among(entries)->Ok_0.contains(name));
    let i = choose|i: int| 0 <= i < names.len() && names[i] == name;
    assert(owner_of(read.owners, read.raws[r].hostnames[i]) == Some(read.raws[r].vpn));
}

/// The last profile can claim its names just where no earlier one lists one of them.
proof fn lemma_last_claims(
    all: Seq<VpnProfile>,
    front: Seq<VpnProfile>,
    adapters: Seq<AdapterView>,
    last: VpnProfile,
)
    requires
        distinct_vpns(front.push(last)),
        raws_of(all, front, adapters) is Ok,
        all_read(entries_of(last.networks@)),
        distinct_vpns(front),
        forall|name: Seq<char>| #[trigger]
            owner_of(raws_of(all, front, adapters)->Ok_0.owners, name) matches Some(vpn) ==> exists|
                p: int,
            |
                0 <= p < front.len() && (#[trigger] front[p]).enabled && front[p].vpn == vpn
                    && lists_name(entries_of(front[p].networks@), name),
    ensures
        with_claims(
            raws_of(all, front, adapters)->Ok_0.owners,
            last.vpn,
            domains_among(entries_of(last.networks@))->Ok_0,
        ) is Ok <==> forall|p: int|
            0 <= p < front.len() && (#[trigger] front[p]).enabled ==> names_differ(front[p], last),
{
    let read = raws_of(all, front, adapters)->Ok_0;
    let entries = entries_of(last.networks@);
    law_names_need_readable_entries(entries);
    let names = domains_among(entries)->Ok_0;
    lemma_claims_iff(read.owners, last.vpn, names);
    let whole = front.push(last);
    assert(whole[front.len() as int] == last);
    if with_claims(read.owners, last.vpn, names) is Ok {
        assert forall|p: int|
            0 <= p < front.len() && (#[trigger] front[p]).enabled implies names_differ(
            front[p],
            last,
        ) by {
            let theirs = entries_of(front[p].networks@);
            assert forall|name: Seq<char>|
                !(#[trigger] lists_name(theirs, name) && lists_name(entries, name)) by {
                if lists_name(theirs, name) && lists_name(entries, name) {
                    lemma_listed_is_owned(all, front, adapters, p, name);
                    assert(domains_among(entries)->Ok_0.contains(name));
                    let j = choose|j: int| 0 <= j < names.len() && names[j] == name;
                    assert(owner_of(read.owners, names[j]) == Some(last.vpn));
                    assert(whole[p].vpn != whole[front.len() as int].vpn);
                }
            }
        }
    }
    if forall|p: int|
        0 <= p < front.len() && (#[trigger] front[p]).enabled ==> names_differ(front[p], last) {
        assert forall|i: int| 0 <= i < names.len() implies (owner_of(
            read.owners,
            #[trigger] names[i],
        ) is None || owner_of(read.owners, names[i]) == Some(last.vpn)) by {
            if owner_of(read.owners, names[i]) is Some {
                let p = choose|p: int|
                    0 <= p < front.len() && (#[trigger] front[p]).enabled && front[p].vpn
                        == owner_of(read.owners, names[i])->0 && lists_name(
                        entries_of(front[p].networks@),
                        names[i],
                    );
                assert(domains_among(entries)->Ok_0.contains(names[i]));
                assert(lists_name(entries, names[i]));
                assert(names_differ(front[p], last));
            }
        }
    }
}

/// One profile that was read can be planned: its servers are not just those for everything
/// else, and where it has names it has servers for them.
pub open spec fn plans_alone(raw: RawView, by_vpn: bool, general: Seq<u32>) -> bool {
    &&& !(by_vpn && raw.reported.len() > 0 && raw.reported == general)
    &&& raw.hostnames.len() > 0 ==> own_servers(raw, by_vpn, general).len() > 0
}

/// The profiles that were read can be planned together.
pub open spec fn plans_together(raws: Seq<RawView>, by_vpn: bool, general: Seq<u32>) -> bool {
    &&& forall|r: int| 0 <= r < raws.len() ==> plans_alone(#[trigger] raws[r], by_vpn, general)
    &&& forall|r: int, q: int, server: u32|
        0 <= r < q < raws.len() ==> !(#[trigger] own_servers(
            raws[r],
            by_vpn,
            general,
        ).contains(server) && #[trigger] own_servers(raws[q], by_vpn, general).contains(server))
}

/// Plans are made just where they can be made, and a server is owned by the VPN of a profile
/// whose own it is.
proof fn lemma_planned_iff(raws: Seq<RawView>, fallback: FallbackView, general: Seq<u32>)
    requires
        forall|r: int, q: int|
            0 <= r < q < raws.len() ==> (#[trigger] raws[r]).vpn != (#[trigger] raws[q]).vpn,
    ensures
        planned(raws, fallback, general) is Ok <==> plans_together(raws, fallback is Vpn, general),
        planned(raws, fallback, general) matches Ok(state) ==> {
            &&& forall|server: u32| #[trigger]
                server_owner(state.owners, server) matches Some(vpn) ==> exists|r: int|
                    0 <= r < raws.len() && (#[trigger] raws[r]).vpn == vpn && own_servers(
                        raws[r],
                        fallback is Vpn,
                        general,
                    ).contains(server)
            &&& forall|r: int, server: u32|
                0 <= r < raws.len() && #[trigger] own_servers(
                    raws[r],
                    fallback is Vpn,
                    general,
                ).contains(server) ==> server_owner(state.owners, server) == Some(raws[r].vpn)
        },
    decreases raws.len(),
{
    let by_vpn = fallback is Vpn;
    if raws.len() > 0 {
        let front = raws.drop_last();
        let last = raws.last();
        assert(raws[raws.len() - 1] == last);
        assert forall|r: int, q: int| 0 <= r < q < front.len() implies (#[trigger] front[r]).vpn
            != (#[trigger] front[q]).vpn by {
            assert(raws[r].vpn != raws[q].vpn);
        }
        lemma_planned_iff(front, fallback, general);
        let servers = own_servers(last, by_vpn, general);
        if plans_together(raws, by_vpn, general) {
            assert(plans_together(front, by_vpn, general)) by {
                assert forall|r: int| 0 <= r < front.len() implies plans_alone(
                    #[trigger] front[r],
                    by_vpn,
                    general,
                ) by {
                    assert(raws[r] == front[r]);
                }
                assert forall|r: int, q: int, server: u32| 0 <= r < q < front.len() implies !(
                #[trigger] own_servers(front[r], by_vpn, general).contains(server)
                    && #[trigger] own_servers(front[q], by_vpn, general).contains(server)) by {
                    assert(raws[r] == front[r] && raws[q] == front[q]);
                }
            }
            assert(plans_alone(raws[raws.len() - 1], by_vpn, general));
        }
        if planned(front, fallback, general) is Ok {
            let before = planned(front, fallback, general)->Ok_0;
            lemma_server_claims_iff(before.owners, last.vpn, servers);
            let free = forall|i: int|
                0 <= i < servers.len() ==> (server_owner(before.owners, #[trigger] servers[i]) is None
                    || server_owner(before.owners, servers[i]) == Some(last.vpn));
            assert(planned(raws, fallback, general) is Ok <==> plans_alone(last, by_vpn, general)
                && free);
            if plans_together(raws, by_vpn, general) {
                assert forall|i: int| 0 <= i < servers.len() implies (server_owner(
                    before.owners,
                    #[trigger] servers[i],
                ) is None || server_owner(before.owners, servers[i]) == Some(last.vpn)) by {
                    if server_owner(before.owners, servers[i]) is Some {
                        let r = choose|r: int|
                            0 <= r < front.len() && (#[trigger] front[r]).vpn == server_owner(
                                before.owners,
                                servers[i],
                            )->0 && own_servers(front[r], by_vpn, general).contains(servers[i]);
                        assert(raws[r] == front[r]);
                        assert(own_servers(raws[r], by_vpn, general).contains(servers[i]));
                        assert(own_servers(
                            raws[raws.len() - 1],
                            by_vpn,
                            general,
                        ).contains(servers[i]));
                    }
                }
            }
            if planned(raws, fallback, general) is Ok {
                let state = planned(raws, fallback, general)->Ok_0;
                assert forall|r: int, q: int, server: u32| 0 <= r < q < raws.len() implies !(
                #[trigger] own_servers(raws[r], by_vpn, general).contains(server)
                    && #[trigger] own_servers(raws[q], by_vpn, general).contains(server)) by {
                    assert(front[r] == raws[r]);
                    if q < front.len() {
                        assert(front[q] == raws[q]);
                        assert(!(own_servers(front[r], by_vpn, general).contains(server)
                            && own_servers(front[q], by_vpn, general).contains(server)));
                    } else if own_servers(raws[r], by_vpn, general).contains(server)
                        && own_servers(raws[q], by_vpn, general).contains(server) {
                        assert(own_servers(front[r], by_vpn, general).contains(server));
                        assert(server_owner(before.owners, server) == Some(front[r].vpn));
                        let i = choose|i: int| 0 <= i < servers.len() && servers[i] == server;
                        assert(server_owner(before.owners, servers[i]) == Some(last.vpn));
                        assert(raws[r].vpn != raws[raws.len() - 1].vpn);
                    }
                }
                assert forall|r: int| 0 <= r < raws.len() implies plans_alone(
                    #[trigger] raws[r],
                    by_vpn,
                    general,
                ) by {
                    if r < front.len() {
                        assert(front[r] == raws[r]);
                    }
                }
                assert forall|server: u32| #[trigger] server_owner(
                    state.owners,
                    server,
                ) is Some implies exists|r: int|
                    0 <= r < raws.len() && (#[trigger] raws[r]).vpn == server_owner(
                        state.owners,
                        server,
                    )->0 && own_servers(raws[r], by_vpn, general).contains(server) by {
                    if server_owner(before.owners, server) is Some {
                        let r = choose|r: int|
                            0 <= r < front.len() && (#[trigger] front[r]).vpn == server_owner(
                                before.owners,
                                server,
                            )->0 && own_servers(front[r], by_vpn, general).contains(server);
                        assert(raws[r] == front[r]);
                    } else {
                        assert(own_servers(
                            raws[raws.len() - 1],
                            by_vpn,
                            general,
                        ).contains(server));
                    }
                }
                assert forall|r: int, server: u32|
                    0 <= r < raws.len() && #[trigger] own_servers(
                        raws[r],
                        by_vpn,
                        general,
                    ).contains(server) implies server_owner(state.owners, server) == Some(
                    raws[r].vpn,
                ) by {
                    if r < front.len() {
                        assert(front[r] == raws[r]);
                        assert(own_servers(front[r], by_vpn, general).contains(server));
                        assert(server_owner(before.owners, server) == Some(front[r].vpn));
                    } else {
                        let i = choose|i: int| 0 <= i < servers.len() && servers[i] == server;
                        assert(server_owner(before.owners, servers[i]) is None || server_owner(
                            before.owners,
                            servers[i],
                        ) == Some(last.vpn));
                    }
                }
            }
        }
    }
}

/// The server is the VPN's own: its interface reports it, and it is not one for everything
/// else unless the VPN takes it over.
pub open spec fn is_own_server(
    adapter: AdapterView,
    fallback: FallbackView,
    adapters: Seq<AdapterView>,
    server: u32,
) -> bool {
    &&& names_address(adapter.dns_servers, server)
    &&& !fallback_servers(fallback, adapters)->Ok_0.contains(server) || takes_over(
        adapter,
        fallback,
        adapters,
    )
}

/// The interface reports just the servers for everything else, and everything else goes
/// through a VPN: nobody can tell whose they are.
pub open spec fn cannot_be_told_apart(
    adapter: AdapterView,
    fallback: FallbackView,
    adapters: Seq<AdapterView>,
) -> bool {
    &&& fallback is Vpn
    &&& forall|server: u32| #[trigger]
        names_address(adapter.dns_servers, server) <==> fallback_servers(
            fallback,
            adapters,
        )->Ok_0.contains(server)
}

/// The interface that an enabled profile uses.
pub open spec fn interface_of(
    profiles: Seq<VpnProfile>,
    adapters: Seq<AdapterView>,
    p: int,
) -> AdapterView {
    selection(profiles, profiles[p].vpn, adapters)->Ok_0
}

/// What was read of a profile can be planned just where its servers can be told apart and
/// its names have a server.
proof fn lemma_plans_alone(
    profiles: Seq<VpnProfile>,
    adapters: Seq<AdapterView>,
    fallback: FallbackView,
    p: int,
    raw: RawView,
)
    requires
        fallback_servers(fallback, adapters) is Ok,
        fallback_servers(fallback, adapters)->Ok_0.len() > 0,
        0 <= p < profiles.len(),
        read_of(profiles, profiles[p], adapters, raw),
    ensures
        ({
            let general = address_set(fallback_servers(fallback, adapters)->Ok_0);
            let adapter = interface_of(profiles, adapters, p);
            &&& plans_alone(raw, fallback is Vpn, general) <==> !cannot_be_told_apart(
                adapter,
                fallback,
                adapters,
            ) && ((exists|name: Seq<char>| lists_name(entries_of(profiles[p].networks@), name))
                ==> exists|server: u32|
                is_own_server(adapter, fallback, adapters, server))
            &&& forall|server: u32| #[trigger]
                own_servers(raw, fallback is Vpn, general).contains(server) <==> is_own_server(
                    adapter,
                    fallback,
                    adapters,
                    server,
                )
        }),
{
    let servers = fallback_servers(fallback, adapters)->Ok_0;
    let general = address_set(servers);
    let adapter = interface_of(profiles, adapters, p);
    let entries = entries_of(profiles[p].networks@);
    assert(adapter == raw.adapter);
    lemma_own_servers(raw, fallback, adapters);
    lemma_takes_over(raw, fallback, adapters);
    lemma_domains(entries);
    lemma_address_set(servers);
    lemma_set_increasing(servers);
    lemma_set_increasing(distinct_addresses(adapter.dns_servers));
    lemma_same_set(raw.reported, general);
    let own = own_servers(raw, fallback is Vpn, general);
    assert(raw.hostnames.len() > 0 <==> exists|name: Seq<char>| lists_name(entries, name)) by {
        if raw.hostnames.len() > 0 {
            assert(raw.hostnames.contains(raw.hostnames[0]));
            assert(lists_name(entries, raw.hostnames[0]));
        }
        if exists|name: Seq<char>| lists_name(entries, name) {
            let name = choose|name: Seq<char>| lists_name(entries, name);
            assert(raw.hostnames.contains(name));
        }
    }
    assert(own.len() > 0 <==> exists|server: u32|
        is_own_server(adapter, fallback, adapters, server)) by {
        if own.len() > 0 {
            assert(own.contains(own[0]));
            assert(is_own_server(adapter, fallback, adapters, own[0]));
        }
        if exists|server: u32| is_own_server(adapter, fallback, adapters, server) {
            let server = choose|server: u32| is_own_server(adapter, fallback, adapters, server);
            assert(own.contains(server));
        }
    }
    assert(raw.reported == general <==> forall|server: u32| #[trigger]
        names_address(adapter.dns_servers, server) <==> servers.contains(server)) by {
        if raw.reported == general {
            assert forall|server: u32| #[trigger]
                names_address(adapter.dns_servers, server) <==> servers.contains(server) by {
                assert(raw.reported.contains(server) <==> general.contains(server));
            }
        }
        if forall|server: u32| #[trigger]
            names_address(adapter.dns_servers, server) <==> servers.contains(server) {
            assert forall|server: u32| #[trigger]
                raw.reported.contains(server) <==> general.contains(server) by {
                assert(names_address(adapter.dns_servers, server) <==> servers.contains(server));
            }
        }
    }
    if raw.reported == general {
        assert(servers.contains(servers[0]));
        assert(general.contains(servers[0]));
    }
}

/// Every enabled profile can be planned: its servers can be told from those for everything
/// else, and where it lists names one of them is its own.
pub open spec fn each_has_servers(
    profiles: Seq<VpnProfile>,
    adapters: Seq<AdapterView>,
    fallback: FallbackView,
) -> bool {
    forall|p: int|
        0 <= p < profiles.len() && (#[trigger] profiles[p]).enabled ==> {
            &&& !cannot_be_told_apart(interface_of(profiles, adapters, p), fallback, adapters)
            &&& (exists|name: Seq<char>| lists_name(entries_of(profiles[p].networks@), name))
                ==> exists|server: u32|
                is_own_server(interface_of(profiles, adapters, p), fallback, adapters, server)
        }
}

/// No two enabled profiles have a server in common.
pub open spec fn servers_differ(
    profiles: Seq<VpnProfile>,
    adapters: Seq<AdapterView>,
    fallback: FallbackView,
) -> bool {
    forall|p: int, q: int, server: u32|
        0 <= p < q < profiles.len() && profiles[p].enabled && profiles[q].enabled ==> !(
        #[trigger] is_own_server(
            interface_of(profiles, adapters, p),
            fallback,
            adapters,
            server,
        ) && #[trigger] is_own_server(
            interface_of(profiles, adapters, q),
            fallback,
            adapters,
            server,
        ))
}

/// The server is one for everything else, and no enabled VPN takes it over.
pub open spec fn is_left_over(
    profiles: Seq<VpnProfile>,
    adapters: Seq<AdapterView>,
    fallback: FallbackView,
    server: u32,
) -> bool {
    &&& fallback_servers(fallback, adapters)->Ok_0.contains(server)
    &&& forall|p: int|
        0 <= p < profiles.len() && (#[trigger] profiles[p]).enabled ==> !(takes_over(
            interface_of(profiles, adapters, p),
            fallback,
            adapters,
        ) && names_address(interface_of(profiles, adapters, p).dns_servers, server))
}

/// A plan for names can be made just where nothing stands in its way. Everything else needs
/// name servers; every enabled profile needs its interface and a list that can be read; no
/// two of them list one name; the servers of each can be told from those for everything
/// else; one that lists names needs a server of its own; no two have a server in common;
/// and of the servers for everything else one has to be left.
pub proof fn law_plan_needs_servers_that_can_be_told_apart(
    profiles: Seq<VpnProfile>,
    adapters: Seq<AdapterView>,
    fallback: FallbackView,
)
    requires
        distinct_vpns(profiles),
    ensures
        dns_plan(profiles, adapters, Some(fallback), true) is Ok <==> {
            &&& fallback_servers(fallback, adapters) is Ok
            &&& all_readable(profiles, profiles, adapters)
            &&& each_has_servers(profiles, adapters, fallback)
            &&& servers_differ(profiles, adapters, fallback)
            &&& exists|server: u32| is_left_over(profiles, adapters, fallback, server)
        },
{
    lemma_read_iff(profiles, profiles, adapters);
    if fallback_servers(fallback, adapters) is Ok && all_readable(profiles, profiles, adapters) {
        let general = address_set(fallback_servers(fallback, adapters)->Ok_0);
        let raws = raws_of(profiles, profiles, adapters)->Ok_0.raws;
        lemma_read_once(profiles, adapters);
        lemma_planned_iff(raws, fallback, general);
        lemma_each(profiles, adapters, fallback);
        lemma_apart(profiles, adapters, fallback);
        assert(plans_together(raws, fallback is Vpn, general) <==> each_plans(
            raws,
            fallback is Vpn,
            general,
        ) && plans_apart(raws, fallback is Vpn, general));
        if planned(raws, fallback, general) is Ok {
            lemma_left_over(profiles, adapters, fallback);
        }
    }
}

/// Each profile that was read can be planned by itself.
pub open spec fn each_plans(raws: Seq<RawView>, by_vpn: bool, general: Seq<u32>) -> bool {
    forall|r: int| 0 <= r < raws.len() ==> plans_alone(#[trigger] raws[r], by_vpn, general)
}

/// No two profiles that were read have a server of their own in common.
pub open spec fn plans_apart(raws: Seq<RawView>, by_vpn: bool, general: Seq<u32>) -> bool {
    forall|r: int, q: int, server: u32|
        0 <= r < q < raws.len() ==> !(#[trigger] own_servers(
            raws[r],
            by_vpn,
            general,
        ).contains(server) && #[trigger] own_servers(raws[q], by_vpn, general).contains(server))
}

/// What was read of an enabled profile.
proof fn lemma_raw_of(profiles: Seq<VpnProfile>, adapters: Seq<AdapterView>, p: int) -> (r: int)
    requires
        distinct_vpns(profiles),
        raws_of(profiles, profiles, adapters) is Ok,
        0 <= p < profiles.len(),
        profiles[p].enabled,
    ensures
        0 <= r < raws_of(profiles, profiles, adapters)->Ok_0.raws.len(),
        read_of(
            profiles,
            profiles[p],
            adapters,
            raws_of(profiles, profiles, adapters)->Ok_0.raws[r],
        ),
{
    let raws = raws_of(profiles, profiles, adapters)->Ok_0.raws;
    lemma_read(profiles, profiles, adapters);
    choose|r: int|
        0 <= r < raws.len() && read_of(profiles, profiles[p], adapters, #[trigger] raws[r])
}

/// The enabled profile of which something was read.
proof fn lemma_profile_of(profiles: Seq<VpnProfile>, adapters: Seq<AdapterView>, r: int) -> (p: int)
    requires
        distinct_vpns(profiles),
        raws_of(profiles, profiles, adapters) is Ok,
        0 <= r < raws_of(profiles, profiles, adapters)->Ok_0.raws.len(),
    ensures
        0 <= p < profiles.len(),
        read_of(
            profiles,
            profiles[p],
            adapters,
            raws_of(profiles, profiles, adapters)->Ok_0.raws[r],
        ),
{
    let raws = raws_of(profiles, profiles, adapters)->Ok_0.raws;
    lemma_read(profiles, profiles, adapters);
    choose|p: int|
        0 <= p < profiles.len() && read_of(profiles, #[trigger] profiles[p], adapters, raws[r])
}

/// Each VPN is read once.
proof fn lemma_read_once(profiles: Seq<VpnProfile>, adapters: Seq<AdapterView>)
    requires
        distinct_vpns(profiles),
        raws_of(profiles, profiles, adapters) is Ok,
    ensures
        ({
            let raws = raws_of(profiles, profiles, adapters)->Ok_0.raws;
            forall|r: int, q: int|
                0 <= r < q < raws.len() ==> (#[trigger] raws[r]).vpn != (#[trigger] raws[q]).vpn
        }),
{
    lemma_read(profiles, profiles, adapters);
}

/// Each profile that was read can be planned just where each enabled profile can.
proof fn lemma_each(profiles: Seq<VpnProfile>, adapters: Seq<AdapterView>, fallback: FallbackView)
    requires
        distinct_vpns(profiles),
        fallback_servers(fallback, adapters) is Ok,
        raws_of(profiles, profiles, adapters) is Ok,
    ensures
        each_plans(
            raws_of(profiles, profiles, adapters)->Ok_0.raws,
            fallback is Vpn,
            address_set(fallback_servers(fallback, adapters)->Ok_0),
        ) <==> each_has_servers(profiles, adapters, fallback),
{
    let general = address_set(fallback_servers(fallback, adapters)->Ok_0);
    let by_vpn = fallback is Vpn;
    let raws = raws_of(profiles, profiles, adapters)->Ok_0.raws;
    law_other_names_keep_their_servers(fallback, adapters, 0);
    lemma_read_once(profiles, adapters);
    if each_plans(raws, by_vpn, general) {
        assert forall|p: int| 0 <= p < profiles.len() && (#[trigger] profiles[p]).enabled implies {
            &&& !cannot_be_told_apart(interface_of(profiles, adapters, p), fallback, adapters)
            &&& (exists|name: Seq<char>| lists_name(entries_of(profiles[p].networks@), name))
                ==> exists|server: u32|
                is_own_server(interface_of(profiles, adapters, p), fallback, adapters, server)
        } by {
            let r = lemma_raw_of(profiles, adapters, p);
            lemma_plans_alone(profiles, adapters, fallback, p, raws[r]);
        }
    }
    if each_has_servers(profiles, adapters, fallback) {
        assert forall|r: int| 0 <= r < raws.len() implies plans_alone(
            #[trigger] raws[r],
            by_vpn,
            general,
        ) by {
            let p = lemma_profile_of(profiles, adapters, r);
            lemma_plans_alone(profiles, adapters, fallback, p, raws[r]);
        }
    }
}

/// Profiles that were read have no server in common just where the enabled ones have none.
proof fn lemma_apart(profiles: Seq<VpnProfile>, adapters: Seq<AdapterView>, fallback: FallbackView)
    requires
        distinct_vpns(profiles),
        fallback_servers(fallback, adapters) is Ok,
        raws_of(profiles, profiles, adapters) is Ok,
    ensures
        plans_apart(
            raws_of(profiles, profiles, adapters)->Ok_0.raws,
            fallback is Vpn,
            address_set(fallback_servers(fallback, adapters)->Ok_0),
        ) <==> servers_differ(profiles, adapters, fallback),
{
    let general = address_set(fallback_servers(fallback, adapters)->Ok_0);
    let by_vpn = fallback is Vpn;
    let raws = raws_of(profiles, profiles, adapters)->Ok_0.raws;
    law_other_names_keep_their_servers(fallback, adapters, 0);
    lemma_read_once(profiles, adapters);
    if plans_apart(raws, by_vpn, general) {
        assert forall|p: int, q: int, server: u32|
            0 <= p < q < profiles.len() && profiles[p].enabled && profiles[q].enabled implies !(
        #[trigger] is_own_server(
            interface_of(profiles, adapters, p),
            fallback,
            adapters,
            server,
        ) && #[trigger] is_own_server(
            interface_of(profiles, adapters, q),
            fallback,
            adapters,
            server,
        )) by {
            let r = lemma_raw_of(profiles, adapters, p);
            let s = lemma_raw_of(profiles, adapters, q);
            assert(profiles[p].vpn != profiles[q].vpn);
            lemma_plans_alone(profiles, adapters, fallback, p, raws[r]);
            lemma_plans_alone(profiles, adapters, fallback, q, raws[s]);
            let one = own_servers(raws[r], by_vpn, general);
            let other = own_servers(raws[s], by_vpn, general);
            assert(!(one.contains(server) && other.contains(server)));
        }
    }
    if servers_differ(profiles, adapters, fallback) {
        assert forall|r: int, s: int, server: u32| 0 <= r < s < raws.len() implies !(
        #[trigger] own_servers(raws[r], by_vpn, general).contains(server) && #[trigger] own_servers(
            raws[s],
            by_vpn,
            general,
        ).contains(server)) by {
            let p = lemma_profile_of(profiles, adapters, r);
            let q = lemma_profile_of(profiles, adapters, s);
            assert(raws[r].vpn != raws[s].vpn);
            lemma_plans_alone(profiles, adapters, fallback, p, raws[r]);
            lemma_plans_alone(profiles, adapters, fallback, q, raws[s]);
            if own_servers(raws[r], by_vpn, general).contains(server) && own_servers(
                raws[s],
                by_vpn,
                general,
            ).contains(server) {
                assert(is_own_server(
                    interface_of(profiles, adapters, p),
                    fallback,
                    adapters,
                    server,
                ));
                assert(is_own_server(
                    interface_of(profiles, adapters, q),
                    fallback,
                    adapters,
                    server,
                ));
            }
        }
    }
}

/// A server for everything else is left just where no enabled VPN takes it over.
proof fn lemma_left_over(
    profiles: Seq<VpnProfile>,
    adapters: Seq<AdapterView>,
    fallback: FallbackView,
)
    requires
        distinct_vpns(profiles),
        fallback_servers(fallback, adapters) is Ok,
        raws_of(profiles, profiles, adapters) is Ok,
        planned(
            raws_of(profiles, profiles, adapters)->Ok_0.raws,
            fallback,
            address_set(fallback_servers(fallback, adapters)->Ok_0),
        ) is Ok,
    ensures
        dns_plan(profiles, adapters, Some(fallback), true) is Ok <==> exists|server: u32|
            is_left_over(profiles, adapters, fallback, server),
{
    let servers = fallback_servers(fallback, adapters)->Ok_0;
    let general = address_set(servers);
    let raws = raws_of(profiles, profiles, adapters)->Ok_0.raws;
    let state = planned(raws, fallback, general)->Ok_0;
    let left = servers.filter(not_among(state.removals));
    lemma_read(profiles, profiles, adapters);
    lemma_planned(raws, fallback, general);
    lemma_filter_members(servers, not_among(state.removals));
    assert forall|server: u32| #[trigger] state.removals.contains(server) <==> exists|p: int|
        0 <= p < profiles.len() && (#[trigger] profiles[p]).enabled && takes_over(
            interface_of(profiles, adapters, p),
            fallback,
            adapters,
        ) && names_address(interface_of(profiles, adapters, p).dns_servers, server) by {
        if state.removals.contains(server) {
            let r = choose|r: int|
                0 <= r < raws.len() && servers_move(#[trigger] raws[r], fallback is Vpn, general)
                    && raws[r].reported.contains(server);
            let p = choose|p: int|
                0 <= p < profiles.len() && read_of(
                    profiles,
                    #[trigger] profiles[p],
                    adapters,
                    raws[r],
                );
            lemma_takes_over(raws[r], fallback, adapters);
            assert(profiles[p].enabled);
        }
        if exists|p: int|
            0 <= p < profiles.len() && (#[trigger] profiles[p]).enabled && takes_over(
                interface_of(profiles, adapters, p),
                fallback,
                adapters,
            ) && names_address(interface_of(profiles, adapters, p).dns_servers, server) {
            let p = choose|p: int|
                0 <= p < profiles.len() && (#[trigger] profiles[p]).enabled && takes_over(
                    interface_of(profiles, adapters, p),
                    fallback,
                    adapters,
                ) && names_address(interface_of(profiles, adapters, p).dns_servers, server);
            let r = choose|r: int|
                0 <= r < raws.len() && read_of(
                    profiles,
                    profiles[p],
                    adapters,
                    #[trigger] raws[r],
                );
            lemma_takes_over(raws[r], fallback, adapters);
            assert(raws[r].reported.contains(server));
        }
    }
    if left.len() > 0 {
        assert(left.contains(left[0]));
        assert(servers.contains(left[0]));
        assert(not_among(state.removals)(left[0]));
        assert(!state.removals.contains(left[0]));
        assert(is_left_over(profiles, adapters, fallback, left[0]));
    }
    if exists|server: u32| is_left_over(profiles, adapters, fallback, server) {
        let server = choose|server: u32| is_left_over(profiles, adapters, fallback, server);
        assert(!state.removals.contains(server));
        assert(left.contains(server));
    }
}

} // verus!
