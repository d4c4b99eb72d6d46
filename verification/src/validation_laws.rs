//! What holds of every validation, whatever the configuration and the answers of the
//! name servers.

use vstd::arithmetic::power2::{lemma2_to64, lemma_pow2_strictly_increases};
use vstd::prelude::*;

use crate::domain::{
    enabled_profiles, enabled_vpn, entries_of, has_domain, lemma_enabled_push, lemma_profile_index,
    lemma_url_is_no_network, named_plainly, names_url, plain_names_read, profile_of, reads_plainly,
    target_of, tokens_of, url_host_of, url_named_by, TargetEntryView, TargetView, VpnKind,
    VpnProfile,
};
use crate::ipv4::{
    law_networks_nest, law_overlap_at_lowest_address, lemma_network_range, lemma_truncated, overlap,
    parsed_network, Ipv4Net,
};
use crate::lists::{lemma_filter_members, lemma_sorted_once, strictly_sorted};
use crate::text::{
    increasing_texts, insert_text, lemma_insert_text, lemma_text_irreflexive, lemma_text_transitive,
    text_less,
};
use crate::validation::{
    answer_about, any_covers, default_route_listed, domain_shared, errors_of, findings_of,
    insert_network, ipv6_listed, lookups_of, minimal_networks, network_before, networks_meet,
    networks_overlap, no_address, not_a_target, not_resolved, nothing_listed, ordered_networks,
    overlaps_of_network, overlaps_of_networks, overlaps_of_profile, overlaps_of_profiles, owner_of,
    questions_of, source_of, targets_of, verdict, without_covered, AnswerView, ErrorView,
    FindingsView, LookupsView, OwnerView, ProfileTargetsView, SourceView, ValidatedView,
};

verus! {

/// The wide network holds every address of the narrow one.
pub open spec fn contains_network(wide: Ipv4Net, narrow: Ipv4Net) -> bool {
    forall|address: u32| narrow.covers(address) ==> wide.covers(address)
}

/// Some network of the list holds every address of the narrow one.
pub open spec fn holds_network(networks: Seq<Ipv4Net>, narrow: Ipv4Net) -> bool {
    exists|k: int| 0 <= k < networks.len() && contains_network(#[trigger] networks[k], narrow)
}

/// No two networks of the list have an address in common.
pub open spec fn disjoint(networks: Seq<Ipv4Net>) -> bool {
    forall|i: int, j: int|
        0 <= i < j < networks.len() ==> !overlap(#[trigger] networks[i], #[trigger] networks[j])
}

/// No later network comes before an earlier one.
pub open spec fn in_order(networks: Seq<Ipv4Net>) -> bool {
    forall|i: int, j: int|
        0 <= i < j < networks.len() ==> !network_before(#[trigger] networks[j], #[trigger] networks[i])
}

/// Every network of the list has a prefix length of at most 32.
pub open spec fn all_valid(networks: Seq<Ipv4Net>) -> bool {
    forall|i: int| 0 <= i < networks.len() ==> (#[trigger] networks[i]).valid()
}

/// Inserting keeps the order and adds the network to those of the list.
proof fn lemma_insert_network(list: Seq<Ipv4Net>, network: Ipv4Net)
    ensures
        in_order(list) ==> in_order(insert_network(list, network)),
        forall|other: Ipv4Net|
            #![trigger insert_network(list, network).contains(other)]
            #![trigger list.contains(other)]
            insert_network(list, network).contains(other) <==> list.contains(other) || other
                == network,
        insert_network(list, network).len() == list.len() + 1,
    decreases list.len(),
{
    let result = insert_network(list, network);
    if list.len() == 0 {
        assert(result == seq![network]);
        assert(result[0] == network);
    } else if network_before(network, list[0]) {
        assert(result == seq![network] + list);
        assert(result[0] == network);
        assert forall|other: Ipv4Net| result.contains(other) <==> list.contains(other) || other
            == network by {
            if list.contains(other) {
                let i = choose|i: int| 0 <= i < list.len() && list[i] == other;
                assert(result[i + 1] == other);
            }
        }
        if in_order(list) {
            assert forall|i: int, j: int| 0 <= i < j < result.len() implies !network_before(
                #[trigger] result[j],
                #[trigger] result[i],
            ) by {
                assert(result[j] == list[j - 1]);
                if i == 0 {
                    if j > 1 {
                        assert(!network_before(list[j - 1], list[0]));
                    }
                } else {
                    assert(result[i] == list[i - 1]);
                }
            }
        }
    } else {
        let rest = list.skip(1);
        let inserted = insert_network(rest, network);
        lemma_insert_network(rest, network);
        assert(result == seq![list[0]] + inserted);
        assert(result[0] == list[0]);
        assert forall|other: Ipv4Net| result.contains(other) <==> list.contains(other) || other
            == network by {
            if list.contains(other) {
                let i = choose|i: int| 0 <= i < list.len() && list[i] == other;
                if i > 0 {
                    assert(rest[i - 1] == other);
                    assert(rest.contains(other));
                    assert(inserted.contains(other));
                } else {
                    assert(result[0] == other);
                }
            }
            if other == network {
                assert(inserted.contains(other));
            }
            if inserted.contains(other) {
                let i = choose|i: int| 0 <= i < inserted.len() && inserted[i] == other;
                assert(result[i + 1] == other);
            }
            if result.contains(other) {
                let i = choose|i: int| 0 <= i < result.len() && result[i] == other;
                if i > 0 {
                    assert(inserted[i - 1] == other);
                    assert(inserted.contains(other));
                    if other != network {
                        assert(rest.contains(other));
                        let k = choose|k: int| 0 <= k < rest.len() && rest[k] == other;
                        assert(list[k + 1] == other);
                    }
                }
            }
        }
        if in_order(list) {
            assert(in_order(rest)) by {
                assert forall|i: int, j: int| 0 <= i < j < rest.len() implies !network_before(
                    #[trigger] rest[j],
                    #[trigger] rest[i],
                ) by {
                    assert(rest[j] == list[j + 1]);
                    assert(rest[i] == list[i + 1]);
                }
            }
            assert forall|i: int, j: int| 0 <= i < j < result.len() implies !network_before(
                #[trigger] result[j],
                #[trigger] result[i],
            ) by {
                assert(result[j] == inserted[j - 1]);
                if i == 0 {
                    assert(inserted.contains(inserted[j - 1]));
                    if inserted[j - 1] != network {
                        let k = choose|k: int| 0 <= k < rest.len() && rest[k] == inserted[j - 1];
                        assert(rest[k] == list[k + 1]);
                        assert(!network_before(list[k + 1], list[0]));
                    }
                } else {
                    assert(result[i] == inserted[i - 1]);
                }
            }
        }
    }
}

/// Ordering a list keeps its networks.
proof fn lemma_ordered_networks(networks: Seq<Ipv4Net>)
    ensures
        in_order(ordered_networks(networks)),
        forall|network: Ipv4Net|
            #![trigger ordered_networks(networks).contains(network)]
            #![trigger networks.contains(network)]
            ordered_networks(networks).contains(network) <==> networks.contains(network),
    decreases networks.len(),
{
    if networks.len() > 0 {
        let before = networks.drop_last();
        lemma_ordered_networks(before);
        lemma_insert_network(ordered_networks(before), networks.last());
        assert forall|network: Ipv4Net|
            ordered_networks(networks).contains(network) <==> networks.contains(network) by {
            if networks.contains(network) {
                let i = choose|i: int| 0 <= i < networks.len() && networks[i] == network;
                if i < before.len() {
                    assert(before[i] == network);
                }
            }
            if before.contains(network) {
                let i = choose|i: int| 0 <= i < before.len() && before[i] == network;
                assert(networks[i] == network);
            }
            assert(networks[networks.len() - 1] == networks.last());
        }
    }
}

/// What is kept of an ordered list holds every address of the list, each of them once.
proof fn lemma_without_covered(networks: Seq<Ipv4Net>)
    requires
        in_order(networks),
        all_valid(networks),
    ensures
        ({
            let kept = without_covered(networks);
            &&& in_order(kept)
            &&& forall|i: int| 0 <= i < kept.len() ==> networks.contains(#[trigger] kept[i])
            &&& forall|i: int|
                0 <= i < networks.len() ==> holds_network(kept, #[trigger] networks[i])
            &&& disjoint(kept)
        }),
    decreases networks.len(),
{
    if networks.len() > 0 {
        let before = networks.drop_last();
        let last = networks.last();
        let kept_before = without_covered(before);
        let kept = without_covered(networks);
        lemma_without_covered(before);
        lemma_network_range(last);
        assert forall|k: int| 0 <= k < kept_before.len() implies networks.contains(
            #[trigger] kept_before[k],
        ) && !network_before(last, kept_before[k]) by {
            let i = choose|i: int| 0 <= i < before.len() && before[i] == kept_before[k];
            assert(networks[i] == kept_before[k]);
        }
        assert(networks[networks.len() - 1] == last);
        if any_covers(kept_before, last.first()) {
            let k = choose|k: int|
                0 <= k < kept_before.len() && (#[trigger] kept_before[k]).covers(
                    last.first() as u32,
                );
            assert(last.covers(last.first() as u32));
            assert(networks.contains(kept_before[k]));
            law_networks_nest(kept_before[k], last, last.first() as u32);
            assert(contains_network(kept_before[k], last));
            assert forall|i: int| 0 <= i < networks.len() implies holds_network(
                kept,
                #[trigger] networks[i],
            ) by {
                if i < before.len() {
                    assert(before[i] == networks[i]);
                }
            }
        } else {
            assert forall|k: int| 0 <= k < kept_before.len() implies !overlap(
                #[trigger] kept_before[k],
                last,
            ) by {
                assert(networks.contains(kept_before[k]));
                law_overlap_at_lowest_address(kept_before[k], last);
                lemma_network_range(kept_before[k]);
                assert(kept_before[k].covers(kept_before[k].first() as u32));
                assert(!kept_before[k].covers(last.first() as u32));
                if overlap(kept_before[k], last) {
                    let common = kept_before[k].first() as u32;
                    assert(last.covers(common));
                    law_networks_nest(kept_before[k], last, common);
                    assert(last.covers(last.first() as u32));
                }
            }
            assert(kept == kept_before.push(last));
            assert forall|i: int| 0 <= i < networks.len() implies holds_network(
                kept,
                #[trigger] networks[i],
            ) by {
                if i < before.len() {
                    assert(before[i] == networks[i]);
                    let k = choose|k: int|
                        0 <= k < kept_before.len() && contains_network(
                            #[trigger] kept_before[k],
                            before[i],
                        );
                    assert(kept[k] == kept_before[k]);
                } else {
                    assert(contains_network(kept[kept_before.len() as int], networks[i]));
                }
            }
            assert forall|i: int, j: int| 0 <= i < j < kept.len() implies !overlap(
                #[trigger] kept[i],
                #[trigger] kept[j],
            ) by {
                if j < kept_before.len() {
                    assert(kept[j] == kept_before[j]);
                }
                assert(kept[i] == kept_before[i]);
            }
            assert forall|i: int, j: int| 0 <= i < j < kept.len() implies !network_before(
                #[trigger] kept[j],
                #[trigger] kept[i],
            ) by {
                if j < kept_before.len() {
                    assert(kept[j] == kept_before[j]);
                }
                assert(kept[i] == kept_before[i]);
            }
        }
    }
}

/// The networks that are left after collapsing are some of the given ones, hold every
/// address of the given ones, have no address in common, and stand in order.
pub proof fn law_minimal_networks(networks: Seq<Ipv4Net>)
    requires
        all_valid(networks),
    ensures
        ({
            let minimal = minimal_networks(networks);
            &&& in_order(minimal)
            &&& forall|i: int| 0 <= i < minimal.len() ==> networks.contains(#[trigger] minimal[i])
            &&& forall|i: int|
                0 <= i < networks.len() ==> holds_network(minimal, #[trigger] networks[i])
            &&& disjoint(minimal)
        }),
{
    let ordered = ordered_networks(networks);
    lemma_ordered_networks(networks);
    assert forall|i: int| 0 <= i < ordered.len() implies (#[trigger] ordered[i]).valid() by {
        assert(networks.contains(ordered[i]));
    }
    lemma_without_covered(ordered);
    let minimal = minimal_networks(networks);
    assert forall|i: int| 0 <= i < networks.len() implies holds_network(
        minimal,
        #[trigger] networks[i],
    ) by {
        assert(networks.contains(networks[i]));
        assert(ordered.contains(networks[i]));
        let j = choose|j: int| 0 <= j < ordered.len() && ordered[j] == networks[i];
        assert(holds_network(minimal, ordered[j]));
    }
    assert forall|i: int| 0 <= i < minimal.len() implies networks.contains(#[trigger] minimal[i]) by {
        assert(ordered.contains(minimal[i]));
    }
}

/// The networks that are left stand in order: the wider ones first, and those as wide as
/// each other by their addresses.
pub proof fn law_wider_networks_come_first(networks: Seq<Ipv4Net>, i: int, j: int)
    requires
        all_valid(networks),
        0 <= i < j < minimal_networks(networks).len(),
    ensures
        minimal_networks(networks)[i].prefix_len <= minimal_networks(networks)[j].prefix_len,
        minimal_networks(networks)[i].prefix_len == minimal_networks(networks)[j].prefix_len
            ==> minimal_networks(networks)[i].addr < minimal_networks(networks)[j].addr,
{
    law_minimal_networks(networks);
    let left = minimal_networks(networks)[i];
    let right = minimal_networks(networks)[j];
    assert(!network_before(right, left));
    assert(!overlap(left, right));
    if left == right {
        lemma_network_range(left);
        assert(left.covers(left.addr));
        assert(right.covers(left.addr));
    }
}

/// The entry is one that a profile may list, and the lists have what it asks for: its
/// network, or its domain and the addresses of its domain.
pub open spec fn entry_carried(
    entry: TargetEntryView,
    vpn: VpnKind,
    answers: Seq<AnswerView>,
    networks: Seq<Ipv4Net>,
    hostnames: Seq<Seq<char>>,
) -> bool {
    match entry.target {
        TargetView::Network(network) => network.prefix_len != 0 && networks.contains(network),
        TargetView::Domain(hostname) => {
            &&& hostnames.contains(hostname)
            &&& answer_about(answers, vpn, hostname) matches Ok(addresses)
            &&& addresses.len() > 0
            &&& forall|k: int|
                0 <= k < addresses.len() ==> networks.contains(
                    Ipv4Net { addr: #[trigger] addresses[k], prefix_len: 32 },
                )
        },
        _ => false,
    }
}

/// The entry asks for the network.
pub open spec fn asks_for(
    entry: TargetEntryView,
    vpn: VpnKind,
    answers: Seq<AnswerView>,
    network: Ipv4Net,
) -> bool {
    match entry.target {
        TargetView::Network(listed) => listed.prefix_len != 0 && listed == network,
        TargetView::Domain(hostname) => {
            &&& answer_about(answers, vpn, hostname) matches Ok(addresses)
            &&& addresses.contains(network.addr)
            &&& network.prefix_len == 32
        },
        _ => false,
    }
}

/// Some entry asks for the network.
pub open spec fn any_asks_for(
    entries: Seq<TargetEntryView>,
    vpn: VpnKind,
    answers: Seq<AnswerView>,
    network: Ipv4Net,
) -> bool {
    exists|j: int| 0 <= j < entries.len() && asks_for(#[trigger] entries[j], vpn, answers, network)
}

/// Some entry names the domain.
pub open spec fn any_names(entries: Seq<TargetEntryView>, hostname: Seq<char>) -> bool {
    exists|j: int|
        0 <= j < entries.len() && (#[trigger] entries[j]).target == TargetView::Domain(hostname)
}

/// `shorter` is the beginning of `longer`.
pub open spec fn begins<A>(shorter: Seq<A>, longer: Seq<A>) -> bool {
    shorter.len() <= longer.len() && forall|i: int|
        0 <= i < shorter.len() ==> #[trigger] shorter[i] == longer[i]
}

/// Addresses add their networks and nothing else.
proof fn lemma_with_addresses(f: FindingsView, vpn: VpnKind, token: Seq<char>, addresses: Seq<u32>)
    ensures
        ({
            let g = f.with_addresses(vpn, token, addresses);
            &&& g.errors == f.errors
            &&& g.owners == f.owners
            &&& g.hostnames == f.hostnames
            &&& g.validated == f.validated
            &&& g.networks.len() == f.networks.len() + addresses.len()
            &&& begins(f.networks, g.networks)
            &&& forall|k: int|
                0 <= k < addresses.len() ==> g.networks[f.networks.len() + k] == (Ipv4Net {
                    addr: #[trigger] addresses[k],
                    prefix_len: 32,
                })
        }),
    decreases addresses.len(),
{
    if addresses.len() > 0 {
        let before = addresses.drop_last();
        lemma_with_addresses(f, vpn, token, before);
        assert forall|k: int| 0 <= k < addresses.len() implies f.with_addresses(
            vpn,
            token,
            addresses,
        ).networks[f.networks.len() + k] == (Ipv4Net {
            addr: #[trigger] addresses[k],
            prefix_len: 32,
        }) by {
            if k < before.len() {
                assert(before[k] == addresses[k]);
            }
        }
    }
}

/// What one more entry does to the findings.
proof fn lemma_with_entry(
    f: FindingsView,
    vpn: VpnKind,
    entry: TargetEntryView,
    answers: Seq<AnswerView>,
)
    ensures
        ({
            let g = f.with_entry(vpn, entry, answers);
            &&& begins(f.errors, g.errors)
            &&& begins(f.networks, g.networks)
            &&& begins(f.owners, g.owners)
            &&& g.validated == f.validated
            &&& increasing_texts(f.hostnames) ==> increasing_texts(g.hostnames)
            &&& forall|name: Seq<char>| #[trigger]
                g.hostnames.contains(name) ==> f.hostnames.contains(name) || entry.target
                    == TargetView::Domain(name)
            &&& forall|name: Seq<char>| #[trigger]
                f.hostnames.contains(name) ==> g.hostnames.contains(name)
            &&& g.errors.len() == f.errors.len() ==> entry_carried(
                entry,
                vpn,
                answers,
                g.networks,
                g.hostnames,
            )
            &&& forall|k: int|
                f.networks.len() <= k < g.networks.len() ==> asks_for(
                    entry,
                    vpn,
                    answers,
                    #[trigger] g.networks[k],
                )
        }),
{
    let g = f.with_entry(vpn, entry, answers);
    match entry.target {
        TargetView::Network(network) => {
            if network.prefix_len != 0 {
                assert(g.networks[f.networks.len() as int] == network);
            }
        },
        TargetView::Domain(hostname) => {
            let owner = owner_of(f.owners, hostname);
            if owner is Some && owner != Some(vpn) {
            } else {
                let owned = FindingsView {
                    owners: f.owners.push(OwnerView { hostname, vpn }),
                    hostnames: insert_text(f.hostnames, hostname),
                    ..f
                };
                lemma_insert_text(f.hostnames, hostname);
                assert(owned.hostnames.contains(hostname));
                if let Ok(addresses) = answer_about(answers, vpn, hostname) {
                    if addresses.len() > 0 {
                        lemma_with_addresses(owned, vpn, entry.token, addresses);
                        assert(g == owned.with_addresses(vpn, entry.token, addresses));
                        assert forall|k: int| 0 <= k < addresses.len() implies g.networks.contains(
                            Ipv4Net { addr: #[trigger] addresses[k], prefix_len: 32 },
                        ) by {
                            assert(g.networks[f.networks.len() + k] == (Ipv4Net {
                                addr: addresses[k],
                                prefix_len: 32,
                            }));
                        }
                        assert forall|k: int| f.networks.len() <= k < g.networks.len() implies asks_for(
                        entry, vpn, answers, #[trigger] g.networks[k]) by {
                            let at = k - f.networks.len();
                            assert(g.networks[f.networks.len() + at] == (Ipv4Net {
                                addr: addresses[at],
                                prefix_len: 32,
                            }));
                        }
                    }
                }
            }
        },
        _ => {},
    }
}

/// An entry that is carried stays carried when more networks and domains follow.
proof fn lemma_still_carried(
    entry: TargetEntryView,
    vpn: VpnKind,
    answers: Seq<AnswerView>,
    f: FindingsView,
    g: FindingsView,
)
    requires
        entry_carried(entry, vpn, answers, f.networks, f.hostnames),
        begins(f.networks, g.networks),
        forall|name: Seq<char>| #[trigger]
            f.hostnames.contains(name) ==> g.hostnames.contains(name),
    ensures
        entry_carried(entry, vpn, answers, g.networks, g.hostnames),
{
    assert forall|network: Ipv4Net| #[trigger]
        f.networks.contains(network) implies g.networks.contains(network) by {
        let i = choose|i: int| 0 <= i < f.networks.len() && f.networks[i] == network;
        assert(g.networks[i] == network);
    }
    if let TargetView::Domain(hostname) = entry.target {
        let addresses = answer_about(answers, vpn, hostname)->Ok_0;
        assert forall|k: int| 0 <= k < addresses.len() implies g.networks.contains(
            Ipv4Net { addr: #[trigger] addresses[k], prefix_len: 32 },
        ) by {
            assert(f.networks.contains(Ipv4Net { addr: addresses[k], prefix_len: 32 }));
        }
    }
}

/// What the entries of one profile do to the findings.
proof fn lemma_with_entries(
    f: FindingsView,
    vpn: VpnKind,
    entries: Seq<TargetEntryView>,
    answers: Seq<AnswerView>,
)
    ensures
        ({
            let g = f.with_entries(vpn, entries, answers);
            &&& begins(f.errors, g.errors)
            &&& begins(f.networks, g.networks)
            &&& begins(f.owners, g.owners)
            &&& g.validated == f.validated
            &&& increasing_texts(f.hostnames) ==> increasing_texts(g.hostnames)
            &&& forall|name: Seq<char>| #[trigger]
                g.hostnames.contains(name) ==> f.hostnames.contains(name) || any_names(
                    entries,
                    name,
                )
            &&& g.errors.len() == f.errors.len() ==> forall|j: int|
                0 <= j < entries.len() ==> entry_carried(
                    #[trigger] entries[j],
                    vpn,
                    answers,
                    g.networks,
                    g.hostnames,
                )
            &&& forall|k: int|
                f.networks.len() <= k < g.networks.len() ==> any_asks_for(
                    entries,
                    vpn,
                    answers,
                    #[trigger] g.networks[k],
                )
        }),
    decreases entries.len(),
{
    if entries.len() > 0 {
        let before = entries.drop_last();
        let last = entries.last();
        let m = f.with_entries(vpn, before, answers);
        let g = f.with_entries(vpn, entries, answers);
        lemma_with_entries(f, vpn, before, answers);
        lemma_with_entry(m, vpn, last, answers);
        assert(entries[entries.len() - 1] == last);
        assert forall|name: Seq<char>| #[trigger] g.hostnames.contains(name) implies f.hostnames.contains(
            name,
        ) || any_names(entries, name) by {
            if m.hostnames.contains(name) && any_names(before, name) {
                let j = choose|j: int|
                    0 <= j < before.len() && (#[trigger] before[j]).target == TargetView::Domain(
                        name,
                    );
                assert(entries[j].target == TargetView::Domain(name));
            }
        }
        if g.errors.len() == f.errors.len() {
            assert forall|j: int| 0 <= j < entries.len() implies entry_carried(
                #[trigger] entries[j],
                vpn,
                answers,
                g.networks,
                g.hostnames,
            ) by {
                if j < before.len() {
                    assert(entries[j] == before[j]);
                    lemma_still_carried(entries[j], vpn, answers, m, g);
                }
            }
        }
        assert forall|k: int| f.networks.len() <= k < g.networks.len() implies any_asks_for(
            entries,
            vpn,
            answers,
            #[trigger] g.networks[k],
        ) by {
            if k < m.networks.len() {
                assert(g.networks[k] == m.networks[k]);
                let j = choose|j: int|
                    0 <= j < before.len() && asks_for(
                        #[trigger] before[j],
                        vpn,
                        answers,
                        m.networks[k],
                    );
                assert(asks_for(entries[j], vpn, answers, g.networks[k]));
            } else {
                assert(asks_for(entries[entries.len() - 1], vpn, answers, g.networks[k]));
            }
        }
    }
}

/// What was validated of one profile is what the profile lists.
pub open spec fn profile_carried(
    profile: ProfileTargetsView,
    answers: Seq<AnswerView>,
    networks: Seq<Ipv4Net>,
    validated: ValidatedView,
) -> bool {
    &&& validated.vpn == profile.vpn
    &&& profile.entries.len() > 0
    &&& validated.networks == minimal_networks(networks)
    &&& increasing_texts(validated.hostnames)
    &&& forall|name: Seq<char>| #[trigger]
        validated.hostnames.contains(name) ==> any_names(profile.entries, name)
    &&& forall|j: int|
        0 <= j < profile.entries.len() ==> entry_carried(
            #[trigger] profile.entries[j],
            profile.vpn,
            answers,
            networks,
            validated.hostnames,
        )
    &&& forall|k: int|
        0 <= k < networks.len() ==> any_asks_for(
            profile.entries,
            profile.vpn,
            answers,
            #[trigger] networks[k],
        )
}

/// What was validated of one profile is what the profile lists, collapsed.
pub open spec fn profile_validated(
    profile: ProfileTargetsView,
    answers: Seq<AnswerView>,
    validated: ValidatedView,
) -> bool {
    exists|networks: Seq<Ipv4Net>| profile_carried(profile, answers, networks, validated)
}

/// What one more profile does to the findings.
proof fn lemma_with_profile(
    f: FindingsView,
    profile: ProfileTargetsView,
    answers: Seq<AnswerView>,
) -> (networks: Seq<Ipv4Net>)
    ensures
        ({
            let g = f.with_profile(profile, answers);
            &&& begins(f.errors, g.errors)
            &&& begins(f.owners, g.owners)
            &&& g.errors.len() == f.errors.len() ==> {
                &&& g.validated.len() == f.validated.len() + 1
                &&& g.validated.drop_last() == f.validated
                &&& profile_carried(profile, answers, networks, g.validated.last())
            }
        }),
{
    let start = f.at_next_profile();
    let read = start.with_entries(profile.vpn, profile.entries, answers);
    lemma_with_entries(start, profile.vpn, profile.entries, answers);
    let g = f.with_profile(profile, answers);
    if profile.entries.len() > 0 {
        assert(g.validated.drop_last() =~= f.validated);
    }
    read.networks
}

/// Without an error each profile has been validated, in the order of the profiles.
proof fn lemma_findings(targets: Seq<ProfileTargetsView>, answers: Seq<AnswerView>)
    requires
        findings_of(targets, answers).errors.len() == 0,
    ensures
        findings_of(targets, answers).validated.len() == targets.len(),
        forall|i: int|
            0 <= i < targets.len() ==> profile_validated(
                #[trigger] targets[i],
                answers,
                findings_of(targets, answers).validated[i],
            ),
    decreases targets.len(),
{
    if targets.len() > 0 {
        let before = targets.drop_last();
        let f = findings_of(before, answers);
        let g = findings_of(targets, answers);
        let networks = lemma_with_profile(f, targets.last(), answers);
        lemma_findings(before, answers);
        assert forall|i: int| 0 <= i < targets.len() implies profile_validated(
            #[trigger] targets[i],
            answers,
            g.validated[i],
        ) by {
            if i < before.len() {
                assert(targets[i] == before[i]);
                assert(g.validated[i] == g.validated.drop_last()[i]);
                assert(profile_validated(before[i], answers, f.validated[i]));
            } else {
                assert(profile_carried(targets[i], answers, networks, g.validated[i]));
            }
        }
    }
}

/// The network has a prefix and is named by its lowest address.
pub open spec fn normal(network: Ipv4Net) -> bool {
    1 <= network.prefix_len <= 32 && network.addr == network.first()
}

/// Every network that the entries list is named by its lowest address.
pub open spec fn entries_normal(entries: Seq<TargetEntryView>) -> bool {
    forall|j: int|
        0 <= j < entries.len() ==> ((#[trigger] entries[j]).target matches TargetView::Network(
            network,
        ) ==> network.valid() && network.addr == network.first())
}

/// Every network that the targets list is named by its lowest address.
pub open spec fn targets_normal(targets: Seq<ProfileTargetsView>) -> bool {
    forall|i: int| 0 <= i < targets.len() ==> entries_normal((#[trigger] targets[i]).entries)
}

/// Reading a configuration names every network by its lowest address.
pub proof fn law_read_targets_are_normal(profiles: Seq<VpnProfile>)
    ensures
        targets_normal(targets_of(profiles)),
{
    let targets = targets_of(profiles);
    assert forall|i: int| 0 <= i < targets.len() implies entries_normal(
        (#[trigger] targets[i]).entries,
    ) by {
        let text = enabled_profiles(profiles)[i].networks@;
        let entries = entries_of(text);
        assert(targets[i].entries == entries);
        assert forall|j: int| 0 <= j < entries.len() implies ((#[trigger] entries[j]).target
            matches TargetView::Network(network) ==> network.valid() && network.addr
            == network.first()) by {
            let token = entries[j].token;
            assert(entries[j].target == target_of(token));
            if let Some(parsed) = parsed_network(token) {
                lemma_truncated(parsed);
            } else if let TargetView::Network(network) = entries[j].target {
                assert(network.prefix_len == 32);
                assert(network.first() == network.addr);
            }
        }
    }
}

/// The entry is one that a profile may list, and what was validated carries it: all
/// addresses of its network, or its domain and the addresses of its domain.
pub open spec fn entry_held(
    entry: TargetEntryView,
    answers: Seq<AnswerView>,
    validated: ValidatedView,
) -> bool {
    match entry.target {
        TargetView::Network(network) => network.prefix_len != 0 && holds_network(
            validated.networks,
            network,
        ),
        TargetView::Domain(hostname) => {
            &&& validated.hostnames.contains(hostname)
            &&& answer_about(answers, validated.vpn, hostname) matches Ok(addresses)
            &&& addresses.len() > 0
            &&& forall|k: int|
                0 <= k < addresses.len() ==> any_covers(
                    validated.networks,
                    #[trigger] addresses[k] as int,
                )
        },
        _ => false,
    }
}

/// What was validated of a profile carries what the profile lists and nothing else, in
/// a normal form.
pub open spec fn faithful(
    profile: ProfileTargetsView,
    answers: Seq<AnswerView>,
    validated: ValidatedView,
) -> bool {
    &&& validated.vpn == profile.vpn
    &&& profile.entries.len() > 0
    &&& forall|j: int|
        0 <= j < profile.entries.len() ==> entry_held(
            #[trigger] profile.entries[j],
            answers,
            validated,
        )
    &&& forall|k: int|
        0 <= k < validated.networks.len() ==> normal(#[trigger] validated.networks[k])
            && any_asks_for(profile.entries, profile.vpn, answers, validated.networks[k])
    &&& in_order(validated.networks)
    &&& disjoint(validated.networks)
    &&& increasing_texts(validated.hostnames)
    &&& forall|name: Seq<char>| #[trigger]
        validated.hostnames.contains(name) <==> any_names(profile.entries, name)
}

/// Networks that normal entries ask for are normal.
proof fn lemma_asked_networks_are_normal(
    entries: Seq<TargetEntryView>,
    vpn: VpnKind,
    answers: Seq<AnswerView>,
    network: Ipv4Net,
)
    requires
        entries_normal(entries),
        any_asks_for(entries, vpn, answers, network),
    ensures
        normal(network),
{
    let j = choose|j: int|
        0 <= j < entries.len() && asks_for(#[trigger] entries[j], vpn, answers, network);
    if let TargetView::Domain(_) = entries[j].target {
        assert(network.prefix_len == 32);
        assert(network.first() == network.addr);
    }
}

/// What was validated of a profile with normal entries is faithful to it.
proof fn lemma_faithful(
    profile: ProfileTargetsView,
    answers: Seq<AnswerView>,
    networks: Seq<Ipv4Net>,
    validated: ValidatedView,
)
    requires
        entries_normal(profile.entries),
        profile_carried(profile, answers, networks, validated),
    ensures
        faithful(profile, answers, validated),
{
    let entries = profile.entries;
    let minimal = validated.networks;
    assert forall|k: int| 0 <= k < networks.len() implies normal(#[trigger] networks[k]) by {
        lemma_asked_networks_are_normal(entries, profile.vpn, answers, networks[k]);
    }
    law_minimal_networks(networks);
    assert forall|j: int| 0 <= j < entries.len() implies entry_held(
        #[trigger] entries[j],
        answers,
        validated,
    ) by {
        assert(entry_carried(entries[j], profile.vpn, answers, networks, validated.hostnames));
        match entries[j].target {
            TargetView::Network(network) => {
                let i = choose|i: int| 0 <= i < networks.len() && networks[i] == network;
                assert(holds_network(minimal, networks[i]));
            },
            TargetView::Domain(hostname) => {
                let addresses = answer_about(answers, profile.vpn, hostname)->Ok_0;
                assert forall|k: int| 0 <= k < addresses.len() implies any_covers(
                    minimal,
                    #[trigger] addresses[k] as int,
                ) by {
                    let host = Ipv4Net { addr: addresses[k], prefix_len: 32 };
                    assert(networks.contains(host));
                    let i = choose|i: int| 0 <= i < networks.len() && networks[i] == host;
                    assert(holds_network(minimal, networks[i]));
                    let m = choose|m: int|
                        0 <= m < minimal.len() && contains_network(#[trigger] minimal[m], host);
                    assert(host.covers(addresses[k]));
                    assert(minimal[m].covers(addresses[k]));
                }
            },
            _ => {},
        }
    }
    assert forall|k: int| 0 <= k < minimal.len() implies normal(#[trigger] minimal[k])
        && any_asks_for(entries, profile.vpn, answers, minimal[k]) by {
        assert(networks.contains(minimal[k]));
        let i = choose|i: int| 0 <= i < networks.len() && networks[i] == minimal[k];
        assert(any_asks_for(entries, profile.vpn, answers, networks[i]));
    }
    assert forall|name: Seq<char>| #[trigger]
        validated.hostnames.contains(name) <==> any_names(entries, name) by {
        if any_names(entries, name) {
            let j = choose|j: int|
                0 <= j < entries.len() && (#[trigger] entries[j]).target == TargetView::Domain(
                    name,
                );
            assert(entry_held(entries[j], answers, validated));
        }
    }
}

/// An accepted configuration has one validated profile for each enabled profile, in
/// the same order. It carries everything that the profile lists and nothing else: its
/// networks have a prefix, are named by their lowest address, have no address in
/// common and stand in order, and its domains are distinct and in order. In
/// particular no enabled profile of it is empty, lists the whole address space, an
/// IPv6 address, something that is no target or a domain without an address.
pub proof fn law_accepted_profiles_are_faithful(
    targets: Seq<ProfileTargetsView>,
    answers: Seq<AnswerView>,
)
    requires
        targets_normal(targets),
        verdict(targets, answers) is Ok,
    ensures
        verdict(targets, answers)->Ok_0.len() == targets.len(),
        forall|i: int|
            0 <= i < targets.len() ==> faithful(
                #[trigger] targets[i],
                answers,
                verdict(targets, answers)->Ok_0[i],
            ),
{
    lemma_findings(targets, answers);
    let validated = findings_of(targets, answers).validated;
    assert forall|i: int| 0 <= i < targets.len() implies faithful(
        #[trigger] targets[i],
        answers,
        validated[i],
    ) by {
        assert(profile_validated(targets[i], answers, validated[i]));
        let networks = choose|networks: Seq<Ipv4Net>|
            profile_carried(targets[i], answers, networks, validated[i]);
        lemma_faithful(targets[i], answers, networks, validated[i]);
    }
}

/// Where no overlap is reported with any network of a list, none meets the network.
proof fn lemma_no_overlap_of_network(
    sources: Seq<SourceView>,
    left: VpnKind,
    network: Ipv4Net,
    right: VpnKind,
    others: Seq<Ipv4Net>,
)
    requires
        overlaps_of_network(sources, left, network, right, others).len() == 0,
    ensures
        forall|b: int| 0 <= b < others.len() ==> !networks_meet(network, #[trigger] others[b]),
    decreases others.len(),
{
    if others.len() > 0 {
        lemma_no_overlap_of_network(sources, left, network, right, others.drop_last());
        assert forall|b: int| 0 <= b < others.len() implies !networks_meet(
            network,
            #[trigger] others[b],
        ) by {
            if b < others.len() - 1 {
                assert(others[b] == others.drop_last()[b]);
            }
        }
    }
}

/// Where no overlap is reported between two profiles, none of their networks meet.
proof fn lemma_no_overlap_of_networks(
    sources: Seq<SourceView>,
    left: VpnKind,
    networks: Seq<Ipv4Net>,
    right: ValidatedView,
)
    requires
        overlaps_of_networks(sources, left, networks, right).len() == 0,
    ensures
        forall|a: int, b: int|
            0 <= a < networks.len() && 0 <= b < right.networks.len() ==> !networks_meet(
                #[trigger] networks[a],
                #[trigger] right.networks[b],
            ),
    decreases networks.len(),
{
    if networks.len() > 0 {
        let before = networks.drop_last();
        lemma_no_overlap_of_networks(sources, left, before, right);
        lemma_no_overlap_of_network(sources, left, networks.last(), right.vpn, right.networks);
        assert forall|a: int, b: int|
            0 <= a < networks.len() && 0 <= b < right.networks.len() implies !networks_meet(
            #[trigger] networks[a],
            #[trigger] right.networks[b],
        ) by {
            if a < before.len() {
                assert(networks[a] == before[a]);
            }
        }
    }
}

/// Where no overlap is reported with any of the other profiles, none is reported with
/// a particular one.
proof fn lemma_no_overlap_of_profile(
    sources: Seq<SourceView>,
    left: ValidatedView,
    others: Seq<ValidatedView>,
    j: int,
)
    requires
        overlaps_of_profile(sources, left, others).len() == 0,
        0 <= j < others.len(),
    ensures
        overlaps_of_networks(sources, left.vpn, left.networks, others[j]).len() == 0,
    decreases others.len(),
{
    if j < others.len() - 1 {
        lemma_no_overlap_of_profile(sources, left, others.drop_last(), j);
    }
}

/// Where no overlap is reported for any of the first profiles, none is reported for a
/// particular one.
proof fn lemma_no_overlap_of_profiles(
    sources: Seq<SourceView>,
    validated: Seq<ValidatedView>,
    count: int,
    i: int,
)
    requires
        overlaps_of_profiles(sources, validated, count).len() == 0,
        0 <= i < count,
    ensures
        overlaps_of_profile(sources, validated[i], validated.skip(i + 1)).len() == 0,
    decreases count,
{
    if i < count - 1 {
        lemma_no_overlap_of_profiles(sources, validated, count - 1, i);
    }
}

/// In an accepted configuration no two profiles carry an address in common.
pub proof fn law_accepted_profiles_do_not_overlap(
    targets: Seq<ProfileTargetsView>,
    answers: Seq<AnswerView>,
    i: int,
    j: int,
)
    requires
        targets_normal(targets),
        verdict(targets, answers) is Ok,
        0 <= i < j < targets.len(),
    ensures
        forall|a: int, b: int|
            0 <= a < verdict(targets, answers)->Ok_0[i].networks.len() && 0 <= b < verdict(
                targets,
                answers,
            )->Ok_0[j].networks.len() ==> !overlap(
                #[trigger] verdict(targets, answers)->Ok_0[i].networks[a],
                #[trigger] verdict(targets, answers)->Ok_0[j].networks[b],
            ),
{
    law_accepted_profiles_are_faithful(targets, answers);
    let found = findings_of(targets, answers);
    let v = found.validated;
    lemma_no_overlap_of_profiles(found.sources, v, v.len() as int, i);
    lemma_no_overlap_of_profile(found.sources, v[i], v.skip(i + 1), j - i - 1);
    lemma_no_overlap_of_networks(found.sources, v[i].vpn, v[i].networks, v[j]);
    assert(faithful(targets[i], answers, v[i]) && faithful(targets[j], answers, v[j]));
    assert forall|a: int, b: int|
        0 <= a < v[i].networks.len() && 0 <= b < v[j].networks.len() implies !overlap(
        #[trigger] v[i].networks[a],
        #[trigger] v[j].networks[b],
    ) by {
        assert(normal(v[i].networks[a]) && normal(v[j].networks[b]));
        law_overlap_at_lowest_address(v[i].networks[a], v[j].networks[b]);
    }
}

/// Two enabled profiles that list networks with an address in common are rejected.
pub proof fn law_overlapping_targets_are_rejected(
    targets: Seq<ProfileTargetsView>,
    answers: Seq<AnswerView>,
    i: int,
    j: int,
    left: Ipv4Net,
    right: Ipv4Net,
)
    requires
        targets_normal(targets),
        0 <= i < j < targets.len(),
        exists|a: int|
            0 <= a < targets[i].entries.len() && (#[trigger] targets[i].entries[a]).target
                == TargetView::Network(left),
        exists|b: int|
            0 <= b < targets[j].entries.len() && (#[trigger] targets[j].entries[b]).target
                == TargetView::Network(right),
        overlap(left, right),
    ensures
        verdict(targets, answers) is Err,
{
    if verdict(targets, answers) is Ok {
        let v = verdict(targets, answers)->Ok_0;
        law_accepted_profiles_are_faithful(targets, answers);
        law_accepted_profiles_do_not_overlap(targets, answers, i, j);
        let a = choose|a: int|
            0 <= a < targets[i].entries.len() && (#[trigger] targets[i].entries[a]).target
                == TargetView::Network(left);
        let b = choose|b: int|
            0 <= b < targets[j].entries.len() && (#[trigger] targets[j].entries[b]).target
                == TargetView::Network(right);
        assert(faithful(targets[i], answers, v[i]) && faithful(targets[j], answers, v[j]));
        assert(entry_held(targets[i].entries[a], answers, v[i]));
        assert(entry_held(targets[j].entries[b], answers, v[j]));
        let k = choose|k: int|
            0 <= k < v[i].networks.len() && contains_network(#[trigger] v[i].networks[k], left);
        let m = choose|m: int|
            0 <= m < v[j].networks.len() && contains_network(#[trigger] v[j].networks[m], right);
        let address = choose|address: u32| left.covers(address) && #[trigger] right.covers(address);
        assert(v[i].networks[k].covers(address) && v[j].networks[m].covers(address));
        assert(overlap(v[i].networks[k], v[j].networks[m]));
    }
}

/// Only the VPNs and the lists of the enabled profiles count: what a profile lists
/// while it is disabled changes nothing, nor does the choice of an adapter.
pub proof fn law_only_enabled_profiles_count(
    some: Seq<VpnProfile>,
    others: Seq<VpnProfile>,
    answers: Seq<AnswerView>,
)
    requires
        enabled_profiles(some).len() == enabled_profiles(others).len(),
        forall|i: int|
            0 <= i < enabled_profiles(some).len() ==> {
                &&& (#[trigger] enabled_profiles(some)[i]).vpn == enabled_profiles(others)[i].vpn
                &&& enabled_profiles(some)[i].networks@ == enabled_profiles(others)[i].networks@
            },
    ensures
        verdict(targets_of(some), answers) == verdict(targets_of(others), answers),
        questions_of(targets_of(some)) == questions_of(targets_of(others)),
{
    assert(targets_of(some) =~= targets_of(others));
}

/// The errors of the findings after the first profiles are among all errors.
proof fn lemma_errors_stay(targets: Seq<ProfileTargetsView>, answers: Seq<AnswerView>, count: int)
    requires
        0 <= count <= targets.len(),
    ensures
        begins(findings_of(targets.take(count), answers).errors, errors_of(targets, answers)),
    decreases targets.len() - count,
{
    if count < targets.len() {
        let next = targets.take(count + 1);
        assert(next.drop_last() =~= targets.take(count));
        lemma_with_profile(findings_of(targets.take(count), answers), next.last(), answers);
        lemma_errors_stay(targets, answers, count + 1);
    } else {
        assert(targets.take(count) =~= targets);
    }
}

/// The errors of the findings after the first entries of a profile are among those
/// after all of its entries.
proof fn lemma_entry_errors_stay(
    f: FindingsView,
    vpn: VpnKind,
    entries: Seq<TargetEntryView>,
    answers: Seq<AnswerView>,
    count: int,
)
    requires
        0 <= count <= entries.len(),
    ensures
        begins(
            f.with_entries(vpn, entries.take(count), answers).errors,
            f.with_entries(vpn, entries, answers).errors,
        ),
    decreases entries.len() - count,
{
    if count < entries.len() {
        let next = entries.take(count + 1);
        assert(next.drop_last() =~= entries.take(count));
        lemma_with_entry(
            f.with_entries(vpn, entries.take(count), answers),
            vpn,
            next.last(),
            answers,
        );
        lemma_entry_errors_stay(f, vpn, entries, answers, count + 1);
    } else {
        assert(entries.take(count) =~= entries);
    }
}

/// An enabled profile that lists nothing is reported.
pub proof fn law_empty_profile_is_reported(
    targets: Seq<ProfileTargetsView>,
    answers: Seq<AnswerView>,
    i: int,
)
    requires
        0 <= i < targets.len(),
        targets[i].entries.len() == 0,
    ensures
        verdict(targets, answers) is Err,
        verdict(targets, answers)->Err_0.contains(nothing_listed(targets[i].vpn)),
{
    let next = targets.take(i + 1);
    assert(next.drop_last() =~= targets.take(i));
    let errors = findings_of(next, answers).errors;
    assert(errors[errors.len() - 1] == nothing_listed(targets[i].vpn));
    lemma_errors_stay(targets, answers, i + 1);
    assert(errors_of(targets, answers)[errors.len() - 1] == nothing_listed(targets[i].vpn));
}

/// What is wrong with an entry, whatever the name servers say.
pub open spec fn fault_of(entry: TargetEntryView, vpn: VpnKind) -> Option<ErrorView> {
    match entry.target {
        TargetView::Network(network) => if network.prefix_len == 0 {
            Some(default_route_listed(vpn))
        } else {
            None
        },
        TargetView::Domain(_) => None,
        TargetView::Ipv6 => Some(ipv6_listed(vpn, entry.token)),
        TargetView::Invalid(reason) => Some(not_a_target(vpn, entry.token, reason)),
    }
}

/// Every entry that asks for the whole address space, for an IPv6 address or for
/// something that is no target is reported.
pub proof fn law_faulty_entry_is_reported(
    targets: Seq<ProfileTargetsView>,
    answers: Seq<AnswerView>,
    i: int,
    j: int,
)
    requires
        0 <= i < targets.len(),
        0 <= j < targets[i].entries.len(),
        fault_of(targets[i].entries[j], targets[i].vpn) is Some,
    ensures
        verdict(targets, answers) is Err,
        verdict(targets, answers)->Err_0.contains(
            fault_of(targets[i].entries[j], targets[i].vpn)->0,
        ),
{
    let vpn = targets[i].vpn;
    let entries = targets[i].entries;
    let fault = fault_of(entries[j], vpn)->0;
    let start = findings_of(targets.take(i), answers).at_next_profile();
    let next = entries.take(j + 1);
    assert(next.drop_last() =~= entries.take(j));
    let errors = start.with_entries(vpn, next, answers).errors;
    assert(errors[errors.len() - 1] == fault);
    lemma_entry_errors_stay(start, vpn, entries, answers, j + 1);
    let profiles = targets.take(i + 1);
    assert(profiles.drop_last() =~= targets.take(i));
    assert(findings_of(profiles, answers).errors[errors.len() - 1] == fault);
    lemma_errors_stay(targets, answers, i + 1);
    assert(errors_of(targets, answers)[errors.len() - 1] == fault);
}

/// The finding is that another VPN owns the domain already.
pub open spec fn tells_shared(error: ErrorView, hostname: Seq<char>, vpn: VpnKind) -> bool {
    exists|owner: VpnKind| owner != vpn && error == #[trigger] domain_shared(hostname, owner, vpn)
}

/// A domain that has no address is reported, with what was written and with the reason
/// where there is one, unless it is reported because another VPN owns it.
pub proof fn law_domain_without_address_is_reported(
    targets: Seq<ProfileTargetsView>,
    answers: Seq<AnswerView>,
    i: int,
    j: int,
    hostname: Seq<char>,
)
    requires
        0 <= i < targets.len(),
        0 <= j < targets[i].entries.len(),
        targets[i].entries[j].target == TargetView::Domain(hostname),
        answer_about(answers, targets[i].vpn, hostname) matches Ok(addresses) ==> addresses.len()
            == 0,
    ensures
        verdict(targets, answers) is Err,
        exists|k: int|
            0 <= k < verdict(targets, answers)->Err_0.len() && (tells_shared(
                #[trigger] verdict(targets, answers)->Err_0[k],
                hostname,
                targets[i].vpn,
            ) || verdict(targets, answers)->Err_0[k] == (match answer_about(
                answers,
                targets[i].vpn,
                hostname,
            ) {
                Ok(_) => no_address(targets[i].vpn, targets[i].entries[j].token),
                Err(reason) => not_resolved(
                    targets[i].vpn,
                    targets[i].entries[j].token,
                    hostname,
                    reason,
                ),
            })),
{
    let vpn = targets[i].vpn;
    let entries = targets[i].entries;
    let start = findings_of(targets.take(i), answers).at_next_profile();
    let next = entries.take(j + 1);
    assert(next.drop_last() =~= entries.take(j));
    assert(next.last() == entries[j]);
    let before = start.with_entries(vpn, entries.take(j), answers);
    let errors = start.with_entries(vpn, next, answers).errors;
    let owner = owner_of(before.owners, hostname);
    let last = errors[errors.len() - 1];
    if owner is Some && owner != Some(vpn) {
        assert(last == domain_shared(hostname, owner->0, vpn));
        assert(tells_shared(last, hostname, vpn));
    }
    lemma_entry_errors_stay(start, vpn, entries, answers, j + 1);
    let profiles = targets.take(i + 1);
    assert(profiles.drop_last() =~= targets.take(i));
    assert(findings_of(profiles, answers).errors[errors.len() - 1] == last);
    lemma_errors_stay(targets, answers, i + 1);
    assert(errors_of(targets, answers)[errors.len() - 1] == last);
    assert(verdict(targets, answers)->Err_0[errors.len() - 1] == last);
}

/// Two networks that have an address in common are reported with what was written for
/// either, and networks that have none are not reported.
pub proof fn law_overlap_is_reported_with_its_sources(
    sources: Seq<SourceView>,
    left: VpnKind,
    network: Ipv4Net,
    right: VpnKind,
    others: Seq<Ipv4Net>,
)
    requires
        network.valid(),
        all_valid(others),
    ensures
        forall|k: int|
            0 <= k < others.len() && overlap(network, #[trigger] others[k])
                ==> overlaps_of_network(sources, left, network, right, others).contains(
                networks_overlap(
                    left,
                    source_of(sources, left, network),
                    network,
                    right,
                    source_of(sources, right, others[k]),
                    others[k],
                ),
            ),
        (forall|k: int| 0 <= k < others.len() ==> !overlap(network, #[trigger] others[k]))
            ==> overlaps_of_network(sources, left, network, right, others).len() == 0,
    decreases others.len(),
{
    if others.len() > 0 {
        let front = others.drop_last();
        let last = others.last();
        assert(all_valid(front)) by {
            assert forall|k: int| 0 <= k < front.len() implies (#[trigger] front[k]).valid() by {
                assert(front[k] == others[k]);
            }
        }
        assert(others[others.len() - 1] == last);
        law_overlap_is_reported_with_its_sources(sources, left, network, right, front);
        law_overlap_at_lowest_address(network, last);
        let before = overlaps_of_network(sources, left, network, right, front);
        let all = overlaps_of_network(sources, left, network, right, others);
        assert forall|k: int| 0 <= k < others.len() && overlap(
            network,
            #[trigger] others[k],
        ) implies all.contains(
            networks_overlap(
                left,
                source_of(sources, left, network),
                network,
                right,
                source_of(sources, right, others[k]),
                others[k],
            ),
        ) by {
            if k < front.len() {
                assert(front[k] == others[k]);
                let error = networks_overlap(
                    left,
                    source_of(sources, left, network),
                    network,
                    right,
                    source_of(sources, right, front[k]),
                    front[k],
                );
                assert(before.contains(error));
                let e = choose|e: int| 0 <= e < before.len() && before[e] == error;
                assert(all[e] == error);
            } else {
                assert(all[before.len() as int] == all.last());
            }
        }
        if forall|k: int| 0 <= k < others.len() ==> !overlap(network, #[trigger] others[k]) {
            assert forall|k: int| 0 <= k < front.len() implies !overlap(
                network,
                #[trigger] front[k],
            ) by {
                assert(front[k] == others[k]);
            }
        }
    }
}

/// The source is the first of this network of this VPN.
pub open spec fn first_source(
    sources: Seq<SourceView>,
    vpn: VpnKind,
    network: Ipv4Net,
    k: int,
) -> bool {
    &&& 0 <= k < sources.len()
    &&& sources[k].vpn == vpn
    &&& sources[k].network == network
    &&& forall|j: int|
        0 <= j < k ==> !((#[trigger] sources[j]).vpn == vpn && sources[j].network == network)
}

/// What is quoted for a network is what the VPN's own list has it from, the first entry
/// where there are several; a network that no entry gave is quoted as it is.
pub proof fn law_network_is_quoted_from_its_own_list(
    sources: Seq<SourceView>,
    vpn: VpnKind,
    network: Ipv4Net,
    k: int,
)
    ensures
        first_source(sources, vpn, network, k) ==> source_of(sources, vpn, network)
            == sources[k].token,
        (forall|j: int|
            0 <= j < sources.len() ==> !((#[trigger] sources[j]).vpn == vpn && sources[j].network
                == network)) ==> source_of(sources, vpn, network) == network.text(),
    decreases sources.len(),
{
    if sources.len() > 0 && !(sources[0].vpn == vpn && sources[0].network == network) {
        let rest = sources.skip(1);
        law_network_is_quoted_from_its_own_list(rest, vpn, network, k - 1);
        if first_source(sources, vpn, network, k) {
            assert(first_source(rest, vpn, network, k - 1)) by {
                assert forall|j: int| 0 <= j < k - 1 implies !((#[trigger] rest[j]).vpn == vpn
                    && rest[j].network == network) by {
                    assert(rest[j] == sources[j + 1]);
                }
            }
        }
        if forall|j: int|
            0 <= j < sources.len() ==> !((#[trigger] sources[j]).vpn == vpn && sources[j].network
                == network) {
            assert forall|j: int| 0 <= j < rest.len() implies !((#[trigger] rest[j]).vpn == vpn
                && rest[j].network == network) by {
                assert(rest[j] == sources[j + 1]);
            }
        }
    } else if sources.len() > 0 && first_source(sources, vpn, network, k) && k > 0 {
        assert(!(sources[0].vpn == vpn && sources[0].network == network));
    }
}

/// A domain keeps its first owner.
proof fn lemma_owner_stays(some: Seq<OwnerView>, more: Seq<OwnerView>, hostname: Seq<char>)
    requires
        begins(some, more),
        owner_of(some, hostname) is Some,
    ensures
        owner_of(more, hostname) == owner_of(some, hostname),
    decreases more.len(),
{
    if more.len() > some.len() {
        assert forall|i: int| 0 <= i < some.len() implies #[trigger] some[i]
            == more.drop_last()[i] by {}
        lemma_owner_stays(some, more.drop_last(), hostname);
    } else {
        assert(some =~= more);
    }
}

/// Without an error the VPN of a profile owns each domain that the profile lists.
proof fn lemma_domains_owned(
    f: FindingsView,
    vpn: VpnKind,
    entries: Seq<TargetEntryView>,
    answers: Seq<AnswerView>,
    hostname: Seq<char>,
)
    requires
        f.with_entries(vpn, entries, answers).errors.len() == f.errors.len(),
        any_names(entries, hostname),
    ensures
        owner_of(f.with_entries(vpn, entries, answers).owners, hostname) == Some(vpn),
    decreases entries.len(),
{
    let before = entries.drop_last();
    let m = f.with_entries(vpn, before, answers);
    let g = f.with_entries(vpn, entries, answers);
    lemma_with_entries(f, vpn, before, answers);
    lemma_with_entry(m, vpn, entries.last(), answers);
    if any_names(before, hostname) {
        lemma_domains_owned(f, vpn, before, answers, hostname);
        lemma_owner_stays(m.owners, g.owners, hostname);
    } else {
        let j = choose|j: int|
            0 <= j < entries.len() && (#[trigger] entries[j]).target == TargetView::Domain(
                hostname,
            );
        if j < before.len() {
            assert(before[j] == entries[j]);
        }
        let owned = m.owners.push(OwnerView { hostname, vpn });
        assert(owned.drop_last() =~= m.owners);
        assert(owner_of(owned, hostname) == Some(vpn));
        if let Ok(addresses) = answer_about(answers, vpn, hostname) {
            let with_owner = FindingsView {
                owners: owned,
                hostnames: insert_text(m.hostnames, hostname),
                ..m
            };
            lemma_with_addresses(with_owner, vpn, entries.last().token, addresses);
        }
    }
}

/// Without an error each domain of each profile is owned by the profile's VPN.
proof fn lemma_all_domains_owned(
    targets: Seq<ProfileTargetsView>,
    answers: Seq<AnswerView>,
    i: int,
    hostname: Seq<char>,
)
    requires
        findings_of(targets, answers).errors.len() == 0,
        0 <= i < targets.len(),
        any_names(targets[i].entries, hostname),
    ensures
        owner_of(findings_of(targets, answers).owners, hostname) == Some(targets[i].vpn),
    decreases targets.len(),
{
    let before = targets.drop_last();
    let f = findings_of(before, answers);
    lemma_with_profile(f, targets.last(), answers);
    if i < before.len() {
        assert(before[i] == targets[i]);
        lemma_all_domains_owned(before, answers, i, hostname);
        lemma_owner_stays(f.owners, findings_of(targets, answers).owners, hostname);
    } else {
        lemma_domains_owned(
            f.at_next_profile(),
            targets[i].vpn,
            targets[i].entries,
            answers,
            hostname,
        );
    }
}

/// A domain that profiles of two VPNs list is rejected.
pub proof fn law_shared_domain_is_rejected(
    targets: Seq<ProfileTargetsView>,
    answers: Seq<AnswerView>,
    i: int,
    j: int,
    hostname: Seq<char>,
)
    requires
        0 <= i < targets.len(),
        0 <= j < targets.len(),
        targets[i].vpn != targets[j].vpn,
        any_names(targets[i].entries, hostname),
        any_names(targets[j].entries, hostname),
    ensures
        verdict(targets, answers) is Err,
{
    if verdict(targets, answers) is Ok {
        lemma_all_domains_owned(targets, answers, i, hostname);
        lemma_all_domains_owned(targets, answers, j, hostname);
    }
}

/// What entries do to the questions.
proof fn lemma_lookups_grow(l: LookupsView, vpn: VpnKind, entries: Seq<TargetEntryView>)
    ensures
        begins(l.asked, l.with_entries(vpn, entries).asked),
        l.asked.no_duplicates() ==> l.with_entries(vpn, entries).asked.no_duplicates(),
    decreases entries.len(),
{
    if entries.len() > 0 {
        lemma_lookups_grow(l, vpn, entries.drop_last());
    }
}

/// The answers agree on the question.
pub open spec fn agree_on(
    some: Seq<AnswerView>,
    others: Seq<AnswerView>,
    question: OwnerView,
) -> bool {
    answer_about(some, question.vpn, question.hostname) == answer_about(
        others,
        question.vpn,
        question.hostname,
    )
}

/// Answers that agree on all questions about the entries have the same effect.
proof fn lemma_same_entries(
    f: FindingsView,
    l: LookupsView,
    vpn: VpnKind,
    entries: Seq<TargetEntryView>,
    some: Seq<AnswerView>,
    others: Seq<AnswerView>,
)
    requires
        f.owners == l.owners,
        forall|question: OwnerView| #[trigger]
            l.with_entries(vpn, entries).asked.contains(question) ==> agree_on(
                some,
                others,
                question,
            ),
    ensures
        f.with_entries(vpn, entries, some) == f.with_entries(vpn, entries, others),
        f.with_entries(vpn, entries, some).owners == l.with_entries(vpn, entries).owners,
    decreases entries.len(),
{
    if entries.len() > 0 {
        let before = entries.drop_last();
        let lb = l.with_entries(vpn, before);
        let la = l.with_entries(vpn, entries);
        assert forall|question: OwnerView| #[trigger] lb.asked.contains(question) implies agree_on(
            some,
            others,
            question,
        ) by {
            let i = choose|i: int| 0 <= i < lb.asked.len() && lb.asked[i] == question;
            assert(la.asked[i] == question);
            assert(la.asked.contains(question));
        }
        lemma_same_entries(f, l, vpn, before, some, others);
        let m = f.with_entries(vpn, before, some);
        if let TargetView::Domain(hostname) = entries.last().target {
            let question = OwnerView { hostname, vpn };
            let owner = owner_of(m.owners, hostname);
            if owner is None || owner == Some(vpn) {
                if !lb.asked.contains(question) {
                    assert(la.asked == lb.asked.push(question));
                    assert(la.asked[lb.asked.len() as int] == question);
                }
                assert(la.asked.contains(question));
                assert(agree_on(some, others, question));
                if let Ok(addresses) = answer_about(some, vpn, hostname) {
                    let owned = FindingsView {
                        owners: m.owners.push(question),
                        hostnames: insert_text(m.hostnames, hostname),
                        ..m
                    };
                    lemma_with_addresses(owned, vpn, entries.last().token, addresses);
                }
            }
        }
    }
}

/// Answers that agree on all questions about the targets have the same effect.
proof fn lemma_same_findings(
    targets: Seq<ProfileTargetsView>,
    some: Seq<AnswerView>,
    others: Seq<AnswerView>,
)
    requires
        forall|question: OwnerView| #[trigger]
            questions_of(targets).contains(question) ==> agree_on(some, others, question),
    ensures
        findings_of(targets, some) == findings_of(targets, others),
        findings_of(targets, some).owners == lookups_of(targets).owners,
    decreases targets.len(),
{
    if targets.len() > 0 {
        let before = targets.drop_last();
        let last = targets.last();
        let l = lookups_of(before);
        lemma_lookups_grow(l, last.vpn, last.entries);
        assert forall|question: OwnerView| #[trigger] questions_of(before).contains(
            question,
        ) implies agree_on(some, others, question) by {
            let i = choose|i: int| 0 <= i < l.asked.len() && l.asked[i] == question;
            assert(lookups_of(targets).asked[i] == question);
            assert(questions_of(targets).contains(question));
        }
        lemma_same_findings(before, some, others);
        let start = findings_of(before, some).at_next_profile();
        assert forall|question: OwnerView| #[trigger] l.with_entries(
            last.vpn,
            last.entries,
        ).asked.contains(question) implies agree_on(some, others, question) by {
            assert(questions_of(targets).contains(question));
        }
        lemma_same_entries(start, l, last.vpn, last.entries, some, others);
    }
}

/// Only the answers to the questions count.
pub proof fn law_only_the_questions_count(
    targets: Seq<ProfileTargetsView>,
    some: Seq<AnswerView>,
    others: Seq<AnswerView>,
)
    requires
        forall|question: OwnerView| #[trigger]
            questions_of(targets).contains(question) ==> agree_on(some, others, question),
    ensures
        verdict(targets, some) == verdict(targets, others),
{
    lemma_same_findings(targets, some, others);
}

/// No question is asked twice.
pub proof fn law_questions_are_distinct(targets: Seq<ProfileTargetsView>)
    ensures
        questions_of(targets).no_duplicates(),
    decreases targets.len(),
{
    if targets.len() > 0 {
        law_questions_are_distinct(targets.drop_last());
        lemma_lookups_grow(
            lookups_of(targets.drop_last()),
            targets.last().vpn,
            targets.last().entries,
        );
    }
}

/// Targets without domains need no name server: nothing is asked, and no answer counts.
pub proof fn law_networks_need_no_lookup(
    targets: Seq<ProfileTargetsView>,
    some: Seq<AnswerView>,
    others: Seq<AnswerView>,
)
    requires
        forall|i: int| 0 <= i < targets.len() ==> !has_domain((#[trigger] targets[i]).entries),
    ensures
        questions_of(targets).len() == 0,
        verdict(targets, some) == verdict(targets, others),
{
    lemma_no_questions(targets);
    law_only_the_questions_count(targets, some, others);
}

/// Targets without domains raise no question.
proof fn lemma_no_questions(targets: Seq<ProfileTargetsView>)
    requires
        forall|i: int| 0 <= i < targets.len() ==> !has_domain((#[trigger] targets[i]).entries),
    ensures
        questions_of(targets).len() == 0,
    decreases targets.len(),
{
    if targets.len() > 0 {
        let before = targets.drop_last();
        assert forall|i: int| 0 <= i < before.len() implies !has_domain(
            (#[trigger] before[i]).entries,
        ) by {
            assert(before[i] == targets[i]);
        }
        lemma_no_questions(before);
        lemma_no_entry_questions(lookups_of(before), targets.last().vpn, targets.last().entries);
    }
}

/// Entries without domains raise no question.
proof fn lemma_no_entry_questions(l: LookupsView, vpn: VpnKind, entries: Seq<TargetEntryView>)
    requires
        !has_domain(entries),
    ensures
        l.with_entries(vpn, entries) == l,
    decreases entries.len(),
{
    if entries.len() > 0 {
        let before = entries.drop_last();
        assert(!has_domain(before)) by {
            assert forall|j: int| 0 <= j < before.len() implies !((
            #[trigger] before[j]).target is Domain) by {
                assert(before[j] == entries[j]);
            }
        }
        lemma_no_entry_questions(l, vpn, before);
        assert(!(entries[entries.len() - 1].target is Domain));
    }
}

/// An enabled profile is one of the profiles.
proof fn lemma_enabled_is_profile(profiles: Seq<VpnProfile>, i: int)
    requires
        0 <= i < enabled_profiles(profiles).len(),
    ensures
        profile_of(profiles, enabled_profiles(profiles)[i].vpn) is Some,
        enabled_vpn(profiles, enabled_profiles(profiles)[i].vpn),
{
    let condition = |profile: VpnProfile| profile.enabled;
    let profile = enabled_profiles(profiles)[i];
    lemma_filter_members(profiles, condition);
    assert(enabled_profiles(profiles) == profiles.filter(condition));
    assert(profiles.filter(condition).contains(profile));
    assert(profiles.contains(profile));
    lemma_profile_index(profiles, profile.vpn);
    let k = choose|k: int| 0 <= k < profiles.len() && profiles[k] == profile;
    assert(condition(profile));
    assert(profiles[k].enabled);
}

/// Every validated profile is an enabled one of the configuration.
pub proof fn lemma_validated_profiles_exist(profiles: Seq<VpnProfile>, answers: Seq<AnswerView>)
    requires
        verdict(targets_of(profiles), answers) is Ok,
    ensures
        forall|i: int|
            0 <= i < verdict(targets_of(profiles), answers)->Ok_0.len() ==> profile_of(
                profiles,
                (#[trigger] verdict(targets_of(profiles), answers)->Ok_0[i]).vpn,
            ) is Some && enabled_vpn(
                profiles,
                verdict(targets_of(profiles), answers)->Ok_0[i].vpn,
            ),
{
    let targets = targets_of(profiles);
    let validated = verdict(targets, answers)->Ok_0;
    law_read_targets_are_normal(profiles);
    law_accepted_profiles_are_faithful(targets, answers);
    assert forall|i: int| 0 <= i < validated.len() implies profile_of(
        profiles,
        (#[trigger] validated[i]).vpn,
    ) is Some && enabled_vpn(profiles, validated[i].vpn) by {
        assert(faithful(targets[i], answers, validated[i]));
        lemma_enabled_is_profile(profiles, i);
    }
}

/// Every question about entries of a profile is asked of that profile's VPN, or was
/// asked before.
proof fn lemma_entry_question_vpns(
    l: LookupsView,
    vpn: VpnKind,
    entries: Seq<TargetEntryView>,
    k: int,
)
    requires
        0 <= k < l.with_entries(vpn, entries).asked.len(),
    ensures
        l.with_entries(vpn, entries).asked[k].vpn == vpn || (k < l.asked.len()
            && l.with_entries(vpn, entries).asked[k] == l.asked[k]),
    decreases entries.len(),
{
    if entries.len() > 0 {
        let before = l.with_entries(vpn, entries.drop_last());
        if k < before.asked.len() {
            lemma_entry_question_vpns(l, vpn, entries.drop_last(), k);
        }
    }
}

/// Every question is asked of the VPN of one of the targets.
proof fn lemma_target_question_vpns(targets: Seq<ProfileTargetsView>, k: int)
    requires
        0 <= k < questions_of(targets).len(),
    ensures
        exists|i: int|
            0 <= i < targets.len() && (#[trigger] targets[i]).vpn == questions_of(targets)[k].vpn,
    decreases targets.len(),
{
    if targets.len() > 0 {
        let before = targets.drop_last();
        let l = lookups_of(before);
        let last = targets.last();
        lemma_entry_question_vpns(l, last.vpn, last.entries, k);
        if questions_of(targets)[k].vpn == last.vpn {
            assert(targets[targets.len() - 1].vpn == questions_of(targets)[k].vpn);
        } else {
            lemma_target_question_vpns(before, k);
            let i = choose|i: int|
                0 <= i < before.len() && (#[trigger] before[i]).vpn == questions_of(before)[k].vpn;
            assert(targets[i] == before[i]);
        }
    }
}

/// Every question is asked of the VPN of a profile of the configuration.
pub proof fn lemma_question_profiles_exist(profiles: Seq<VpnProfile>, k: int)
    requires
        0 <= k < questions_of(targets_of(profiles)).len(),
    ensures
        profile_of(profiles, questions_of(targets_of(profiles))[k].vpn) is Some,
{
    let targets = targets_of(profiles);
    lemma_target_question_vpns(targets, k);
    let i = choose|i: int|
        0 <= i < targets.len() && (#[trigger] targets[i]).vpn == questions_of(targets)[k].vpn;
    lemma_enabled_is_profile(profiles, i);
}

/// Some entry reads as the target.
pub open spec fn reads_as(entries: Seq<TargetEntryView>, target: TargetView) -> bool {
    exists|j: int| 0 <= j < entries.len() && (#[trigger] entries[j]).target == target
}

/// The entries read as the same targets, in any order and each of them any number of
/// times.
pub open spec fn same_targets(left: Seq<TargetEntryView>, right: Seq<TargetEntryView>) -> bool {
    forall|target: TargetView|
        #![trigger reads_as(left, target)]
        #![trigger reads_as(right, target)]
        reads_as(left, target) <==> reads_as(right, target)
}

/// The profiles are for the same VPNs, in the same order, and list the same targets.
pub open spec fn alike(left: Seq<ProfileTargetsView>, right: Seq<ProfileTargetsView>) -> bool {
    &&& left.len() == right.len()
    &&& forall|i: int|
        0 <= i < left.len() ==> (#[trigger] left[i]).vpn == right[i].vpn && same_targets(
            left[i].entries,
            right[i].entries,
        )
}

/// Two networks in their normal form with the same addresses are the same network.
proof fn lemma_same_addresses(left: Ipv4Net, right: Ipv4Net)
    requires
        normal(left),
        normal(right),
        contains_network(left, right),
        contains_network(right, left),
    ensures
        left == right,
{
    lemma_network_range(left);
    lemma_network_range(right);
    lemma2_to64();
    assert(left.covers(left.first() as u32) && left.covers(left.last() as u32));
    assert(right.covers(right.first() as u32) && right.covers(right.last() as u32));
    assert(right.covers(left.first() as u32) && right.covers(left.last() as u32));
    assert(left.covers(right.first() as u32) && left.covers(right.last() as u32));
    if left.prefix_len < right.prefix_len {
        lemma_pow2_strictly_increases(
            (32 - right.prefix_len) as nat,
            (32 - left.prefix_len) as nat,
        );
    } else if right.prefix_len < left.prefix_len {
        lemma_pow2_strictly_increases(
            (32 - left.prefix_len) as nat,
            (32 - right.prefix_len) as nat,
        );
    }
}

/// What is faithful to a profile holds each network of what is faithful to a profile
/// with the same targets.
proof fn lemma_network_held(
    profile: ProfileTargetsView,
    other: ProfileTargetsView,
    answers: Seq<AnswerView>,
    validated: ValidatedView,
    expected: ValidatedView,
    k: int,
)
    requires
        profile.vpn == other.vpn,
        same_targets(profile.entries, other.entries),
        faithful(profile, answers, validated),
        faithful(other, answers, expected),
        0 <= k < validated.networks.len(),
    ensures
        holds_network(expected.networks, validated.networks[k]),
{
    let network = validated.networks[k];
    assert(normal(network) && any_asks_for(profile.entries, profile.vpn, answers, network));
    let j = choose|j: int|
        0 <= j < profile.entries.len() && asks_for(
            #[trigger] profile.entries[j],
            profile.vpn,
            answers,
            network,
        );
    let target = profile.entries[j].target;
    assert(reads_as(profile.entries, target));
    assert(reads_as(other.entries, target));
    let i = choose|i: int|
        0 <= i < other.entries.len() && (#[trigger] other.entries[i]).target == target;
    assert(entry_held(other.entries[i], answers, expected));
    if let TargetView::Domain(hostname) = target {
        let addresses = answer_about(answers, profile.vpn, hostname)->Ok_0;
        let a = choose|a: int| 0 <= a < addresses.len() && addresses[a] == network.addr;
        assert(any_covers(expected.networks, addresses[a] as int));
        let m = choose|m: int|
            0 <= m < expected.networks.len() && (#[trigger] expected.networks[m]).covers(
                network.addr,
            );
        lemma_network_range(network);
        assert forall|address: u32| network.covers(address) implies expected.networks[m].covers(
            address,
        ) by {
            assert(address == network.addr);
        }
        assert(contains_network(expected.networks[m], network));
    }
}

/// Each network of what is faithful to a profile is one of what is faithful to a
/// profile with the same targets.
proof fn lemma_network_shared(
    profile: ProfileTargetsView,
    other: ProfileTargetsView,
    answers: Seq<AnswerView>,
    validated: ValidatedView,
    expected: ValidatedView,
    k: int,
)
    requires
        profile.vpn == other.vpn,
        same_targets(profile.entries, other.entries),
        faithful(profile, answers, validated),
        faithful(other, answers, expected),
        0 <= k < validated.networks.len(),
    ensures
        expected.networks.contains(validated.networks[k]),
{
    let network = validated.networks[k];
    lemma_network_held(profile, other, answers, validated, expected, k);
    let m = choose|m: int|
        0 <= m < expected.networks.len() && contains_network(
            #[trigger] expected.networks[m],
            network,
        );
    let wide = expected.networks[m];
    lemma_network_held(other, profile, answers, expected, validated, m);
    let n = choose|n: int|
        0 <= n < validated.networks.len() && contains_network(
            #[trigger] validated.networks[n],
            wide,
        );
    let widest = validated.networks[n];
    lemma_network_range(network);
    let lowest = network.first() as u32;
    assert(network.covers(lowest));
    assert(wide.covers(lowest));
    assert(widest.covers(lowest));
    if n < k {
        assert(overlap(validated.networks[n], validated.networks[k]));
    } else if k < n {
        assert(overlap(validated.networks[k], validated.networks[n]));
    }
    assert(normal(network) && normal(wide));
    lemma_same_addresses(network, wide);
}

/// What is faithful to profiles of one VPN with the same targets is the same.
proof fn lemma_same_validated(
    profile: ProfileTargetsView,
    other: ProfileTargetsView,
    answers: Seq<AnswerView>,
    validated: ValidatedView,
    expected: ValidatedView,
)
    requires
        profile.vpn == other.vpn,
        same_targets(profile.entries, other.entries),
        faithful(profile, answers, validated),
        faithful(other, answers, expected),
    ensures
        validated == expected,
{
    let network_order = |left: Ipv4Net, right: Ipv4Net| network_before(left, right);
    assert forall|network: Ipv4Net| #[trigger]
        validated.networks.contains(network) <==> expected.networks.contains(network) by {
        if validated.networks.contains(network) {
            let k = choose|k: int|
                0 <= k < validated.networks.len() && validated.networks[k] == network;
            lemma_network_shared(profile, other, answers, validated, expected, k);
        }
        if expected.networks.contains(network) {
            let k = choose|k: int|
                0 <= k < expected.networks.len() && expected.networks[k] == network;
            lemma_network_shared(other, profile, answers, expected, validated, k);
        }
    }
    lemma_strictly_ordered(validated.networks);
    lemma_strictly_ordered(expected.networks);
    lemma_sorted_once(validated.networks, expected.networks, network_order);
    let text_order = |left: Seq<char>, right: Seq<char>| text_less(left, right);
    assert forall|name: Seq<char>| #[trigger]
        validated.hostnames.contains(name) <==> expected.hostnames.contains(name) by {
        let target = TargetView::Domain(name);
        assert(any_names(profile.entries, name) <==> reads_as(profile.entries, target));
        assert(any_names(other.entries, name) <==> reads_as(other.entries, target));
    }
    assert forall|left: Seq<char>, right: Seq<char>| #[trigger] text_order(left, right) implies !text_order(
        right,
        left,
    ) by {
        if text_less(right, left) {
            lemma_text_transitive(left, right, left);
            lemma_text_irreflexive(left);
        }
    }
    assert(strictly_sorted(validated.hostnames, text_order));
    assert(strictly_sorted(expected.hostnames, text_order));
    lemma_sorted_once(validated.hostnames, expected.hostnames, text_order);
}

/// Ordered networks without common addresses are strictly ordered.
proof fn lemma_strictly_ordered(networks: Seq<Ipv4Net>)
    requires
        in_order(networks),
        disjoint(networks),
    ensures
        strictly_sorted(
            networks,
            |left: Ipv4Net, right: Ipv4Net| network_before(left, right),
        ),
{
    assert forall|i: int, j: int| 0 <= i < j < networks.len() implies network_before(
        #[trigger] networks[i],
        #[trigger] networks[j],
    ) by {
        lemma_network_range(networks[i]);
        assert(networks[i].covers(networks[i].first() as u32));
        if networks[i] == networks[j] {
            assert(overlap(networks[i], networks[j]));
        }
    }
}

/// A profile of the VPN may list the target: it has a prefix, or is a domain that no
/// other VPN owns and that has an address.
pub open spec fn acceptable(
    target: TargetView,
    vpn: VpnKind,
    owners: Seq<OwnerView>,
    answers: Seq<AnswerView>,
) -> bool {
    match target {
        TargetView::Network(network) => network.prefix_len != 0,
        TargetView::Domain(hostname) => {
            &&& owner_of(owners, hostname) is None || owner_of(owners, hostname) == Some(vpn)
            &&& answer_about(answers, vpn, hostname) matches Ok(addresses)
            &&& addresses.len() > 0
        },
        _ => false,
    }
}

/// All entries are acceptable.
pub open spec fn all_acceptable(
    entries: Seq<TargetEntryView>,
    vpn: VpnKind,
    owners: Seq<OwnerView>,
    answers: Seq<AnswerView>,
) -> bool {
    forall|j: int|
        0 <= j < entries.len() ==> acceptable((#[trigger] entries[j]).target, vpn, owners, answers)
}

/// One entry raises an error exactly where it is not acceptable, and gives its domain to
/// the VPN otherwise.
proof fn lemma_entry_accepted(
    f: FindingsView,
    vpn: VpnKind,
    entry: TargetEntryView,
    answers: Seq<AnswerView>,
)
    ensures
        ({
            let g = f.with_entry(vpn, entry, answers);
            &&& g.errors.len() == f.errors.len() <==> acceptable(
                entry.target,
                vpn,
                f.owners,
                answers,
            )
            &&& g.errors.len() == f.errors.len() ==> forall|name: Seq<char>| #[trigger]
                owner_of(g.owners, name) == if entry.target == TargetView::Domain(name) {
                    Some(vpn)
                } else {
                    owner_of(f.owners, name)
                }
        }),
{
    let g = f.with_entry(vpn, entry, answers);
    if let TargetView::Domain(hostname) = entry.target {
        let owner = owner_of(f.owners, hostname);
        if owner is None || owner == Some(vpn) {
            let owned = FindingsView {
                owners: f.owners.push(OwnerView { hostname, vpn }),
                hostnames: insert_text(f.hostnames, hostname),
                ..f
            };
            if let Ok(addresses) = answer_about(answers, vpn, hostname) {
                lemma_with_addresses(owned, vpn, entry.token, addresses);
            }
            assert(owned.owners.drop_last() =~= f.owners);
        }
    }
}

/// The entries of a profile raise no error exactly where all are acceptable, and give
/// their domains to the VPN then.
proof fn lemma_entries_accepted(
    f: FindingsView,
    vpn: VpnKind,
    entries: Seq<TargetEntryView>,
    answers: Seq<AnswerView>,
)
    ensures
        ({
            let g = f.with_entries(vpn, entries, answers);
            &&& g.errors.len() == f.errors.len() <==> all_acceptable(
                entries,
                vpn,
                f.owners,
                answers,
            )
            &&& g.errors.len() == f.errors.len() ==> forall|name: Seq<char>| #[trigger]
                owner_of(g.owners, name) == if reads_as(entries, TargetView::Domain(name)) {
                    Some(vpn)
                } else {
                    owner_of(f.owners, name)
                }
        }),
    decreases entries.len(),
{
    if entries.len() > 0 {
        let before = entries.drop_last();
        let last = entries.last();
        let m = f.with_entries(vpn, before, answers);
        let g = f.with_entries(vpn, entries, answers);
        lemma_entries_accepted(f, vpn, before, answers);
        lemma_with_entries(f, vpn, before, answers);
        lemma_with_entry(m, vpn, last, answers);
        lemma_entry_accepted(m, vpn, last, answers);
        assert(entries[entries.len() - 1] == last);
        if m.errors.len() > f.errors.len() {
            let j = choose|j: int|
                0 <= j < before.len() && !acceptable(
                    (#[trigger] before[j]).target,
                    vpn,
                    f.owners,
                    answers,
                );
            assert(entries[j] == before[j]);
        } else {
            assert(acceptable(last.target, vpn, m.owners, answers) <==> acceptable(
                last.target,
                vpn,
                f.owners,
                answers,
            )) by {
                if let TargetView::Domain(hostname) = last.target {
                    if reads_as(before, last.target) {
                        let j = choose|j: int|
                            0 <= j < before.len() && (#[trigger] before[j]).target == last.target;
                        assert(acceptable(before[j].target, vpn, f.owners, answers));
                    }
                }
            }
            assert(all_acceptable(entries, vpn, f.owners, answers) <==> acceptable(
                last.target,
                vpn,
                f.owners,
                answers,
            )) by {
                assert forall|j: int|
                    0 <= j < before.len() implies acceptable(
                    (#[trigger] entries[j]).target,
                    vpn,
                    f.owners,
                    answers,
                ) by {
                    assert(before[j] == entries[j]);
                }
            }
            if g.errors.len() == f.errors.len() {
                assert forall|name: Seq<char>| #[trigger]
                    owner_of(g.owners, name) == if reads_as(entries, TargetView::Domain(name)) {
                        Some(vpn)
                    } else {
                        owner_of(f.owners, name)
                    } by {
                    let target = TargetView::Domain(name);
                    if reads_as(before, target) {
                        let j = choose|j: int|
                            0 <= j < before.len() && (#[trigger] before[j]).target == target;
                        assert(entries[j].target == target);
                    } else if reads_as(entries, target) {
                        let j = choose|j: int|
                            0 <= j < entries.len() && (#[trigger] entries[j]).target == target;
                        if j < before.len() {
                            assert(before[j].target == target);
                        }
                    }
                }
            }
        }
    }
}

/// The findings are both without an error or neither, and without an error agree on what
/// was validated and on who owns each domain.
pub open spec fn findings_agree(f: FindingsView, g: FindingsView) -> bool {
    &&& f.errors.len() == 0 <==> g.errors.len() == 0
    &&& f.errors.len() == 0 ==> {
        &&& f.validated == g.validated
        &&& forall|name: Seq<char>| #[trigger]
            owner_of(f.owners, name) == owner_of(g.owners, name)
    }
}

/// Profiles of one VPN with the same targets do the same to findings that agree.
proof fn lemma_profile_agrees(
    f: FindingsView,
    g: FindingsView,
    profile: ProfileTargetsView,
    other: ProfileTargetsView,
    answers: Seq<AnswerView>,
)
    requires
        findings_agree(f, g),
        profile.vpn == other.vpn,
        same_targets(profile.entries, other.entries),
        entries_normal(profile.entries),
        entries_normal(other.entries),
    ensures
        findings_agree(f.with_profile(profile, answers), g.with_profile(other, answers)),
{
    let vpn = profile.vpn;
    let f_next = f.with_profile(profile, answers);
    let g_next = g.with_profile(other, answers);
    let f_networks = lemma_with_profile(f, profile, answers);
    let g_networks = lemma_with_profile(g, other, answers);
    if f.errors.len() == 0 {
        if profile.entries.len() > 0 {
            assert(reads_as(profile.entries, profile.entries[0].target));
            assert(reads_as(other.entries, profile.entries[0].target));
        }
        if other.entries.len() > 0 {
            assert(reads_as(other.entries, other.entries[0].target));
            assert(reads_as(profile.entries, other.entries[0].target));
        }
        if profile.entries.len() > 0 {
            lemma_entries_accepted(f.at_next_profile(), vpn, profile.entries, answers);
            lemma_entries_accepted(g.at_next_profile(), vpn, other.entries, answers);
            if all_acceptable(profile.entries, vpn, f.owners, answers) {
                lemma_acceptable_alike(
                    profile.entries,
                    other.entries,
                    vpn,
                    f.owners,
                    g.owners,
                    answers,
                );
            }
            if all_acceptable(other.entries, vpn, g.owners, answers) {
                lemma_acceptable_alike(
                    other.entries,
                    profile.entries,
                    vpn,
                    g.owners,
                    f.owners,
                    answers,
                );
            }
            if f_next.errors.len() == 0 {
                lemma_faithful(profile, answers, f_networks, f_next.validated.last());
                lemma_faithful(other, answers, g_networks, g_next.validated.last());
                lemma_same_validated(
                    profile,
                    other,
                    answers,
                    f_next.validated.last(),
                    g_next.validated.last(),
                );
                assert(f_next.validated =~= f.validated.push(f_next.validated.last()));
                assert(g_next.validated =~= g.validated.push(g_next.validated.last()));
                assert forall|name: Seq<char>| #[trigger]
                    owner_of(f_next.owners, name) == owner_of(g_next.owners, name) by {
                    let target = TargetView::Domain(name);
                    assert(reads_as(profile.entries, target) <==> reads_as(other.entries, target));
                    assert(owner_of(f.owners, name) == owner_of(g.owners, name));
                }
            }
        }
    }
}

/// Entries that read as acceptable targets are acceptable.
proof fn lemma_acceptable_alike(
    entries: Seq<TargetEntryView>,
    others: Seq<TargetEntryView>,
    vpn: VpnKind,
    owners: Seq<OwnerView>,
    other_owners: Seq<OwnerView>,
    answers: Seq<AnswerView>,
)
    requires
        same_targets(entries, others),
        forall|name: Seq<char>| #[trigger]
            owner_of(owners, name) == owner_of(other_owners, name),
        all_acceptable(entries, vpn, owners, answers),
    ensures
        all_acceptable(others, vpn, other_owners, answers),
{
    assert forall|j: int| 0 <= j < others.len() implies acceptable(
        (#[trigger] others[j]).target,
        vpn,
        other_owners,
        answers,
    ) by {
        let target = others[j].target;
        assert(reads_as(others, target));
        assert(reads_as(entries, target));
        let i = choose|i: int| 0 <= i < entries.len() && (#[trigger] entries[i]).target == target;
        assert(acceptable(entries[i].target, vpn, owners, answers));
        if let TargetView::Domain(name) = target {
            assert(owner_of(owners, name) == owner_of(other_owners, name));
        }
    }
}

/// Profiles with the same targets lead to findings that agree.
proof fn lemma_findings_agree(
    left: Seq<ProfileTargetsView>,
    right: Seq<ProfileTargetsView>,
    answers: Seq<AnswerView>,
)
    requires
        alike(left, right),
        targets_normal(left),
        targets_normal(right),
    ensures
        findings_agree(findings_of(left, answers), findings_of(right, answers)),
    decreases left.len(),
{
    if left.len() > 0 {
        let some = left.drop_last();
        let others = right.drop_last();
        assert(alike(some, others)) by {
            assert forall|i: int| 0 <= i < some.len() implies (#[trigger] some[i]).vpn
                == others[i].vpn && same_targets(some[i].entries, others[i].entries) by {
                assert(some[i] == left[i]);
            }
        }
        assert(targets_normal(some)) by {
            assert forall|i: int| 0 <= i < some.len() implies entries_normal(
                (#[trigger] some[i]).entries,
            ) by {
                assert(some[i] == left[i]);
            }
        }
        assert(targets_normal(others)) by {
            assert forall|i: int| 0 <= i < others.len() implies entries_normal(
                (#[trigger] others[i]).entries,
            ) by {
                assert(others[i] == right[i]);
            }
        }
        lemma_findings_agree(some, others, answers);
        let last = left.len() - 1;
        assert(entries_normal(left[last].entries) && entries_normal(right[last].entries));
        lemma_profile_agrees(
            findings_of(some, answers),
            findings_of(others, answers),
            left[last],
            right[last],
            answers,
        );
    }
}

/// How many overlaps of a network there are does not depend on where networks come from.
proof fn lemma_overlap_count_of_network(
    some: Seq<SourceView>,
    others: Seq<SourceView>,
    left: VpnKind,
    network: Ipv4Net,
    right: VpnKind,
    networks: Seq<Ipv4Net>,
)
    ensures
        overlaps_of_network(some, left, network, right, networks).len() == overlaps_of_network(
            others,
            left,
            network,
            right,
            networks,
        ).len(),
    decreases networks.len(),
{
    if networks.len() > 0 {
        lemma_overlap_count_of_network(some, others, left, network, right, networks.drop_last());
    }
}

/// How many overlaps of networks there are does not depend on where networks come from.
proof fn lemma_overlap_count_of_networks(
    some: Seq<SourceView>,
    others: Seq<SourceView>,
    left: VpnKind,
    networks: Seq<Ipv4Net>,
    right: ValidatedView,
)
    ensures
        overlaps_of_networks(some, left, networks, right).len() == overlaps_of_networks(
            others,
            left,
            networks,
            right,
        ).len(),
    decreases networks.len(),
{
    if networks.len() > 0 {
        lemma_overlap_count_of_networks(some, others, left, networks.drop_last(), right);
        lemma_overlap_count_of_network(
            some,
            others,
            left,
            networks.last(),
            right.vpn,
            right.networks,
        );
    }
}

/// How many overlaps of a profile there are does not depend on where networks come from.
proof fn lemma_overlap_count_of_profile(
    some: Seq<SourceView>,
    others: Seq<SourceView>,
    left: ValidatedView,
    profiles: Seq<ValidatedView>,
)
    ensures
        overlaps_of_profile(some, left, profiles).len() == overlaps_of_profile(
            others,
            left,
            profiles,
        ).len(),
    decreases profiles.len(),
{
    if profiles.len() > 0 {
        lemma_overlap_count_of_profile(some, others, left, profiles.drop_last());
        lemma_overlap_count_of_networks(some, others, left.vpn, left.networks, profiles.last());
    }
}

/// How many overlaps there are does not depend on where networks come from.
proof fn lemma_overlap_count(
    some: Seq<SourceView>,
    others: Seq<SourceView>,
    validated: Seq<ValidatedView>,
    count: int,
)
    ensures
        overlaps_of_profiles(some, validated, count).len() == overlaps_of_profiles(
            others,
            validated,
            count,
        ).len(),
    decreases count,
{
    if count > 0 {
        lemma_overlap_count(some, others, validated, count - 1);
        lemma_overlap_count_of_profile(
            some,
            others,
            validated[count - 1],
            validated.skip(count),
        );
    }
}

/// Only what the entries of each profile read as counts: profiles with the same targets,
/// in any order, repetition and notation, are accepted alike, and what is accepted of
/// them is equal.
pub proof fn law_only_what_entries_read_as_counts(
    left: Seq<ProfileTargetsView>,
    right: Seq<ProfileTargetsView>,
    answers: Seq<AnswerView>,
)
    requires
        alike(left, right),
        targets_normal(left),
        targets_normal(right),
    ensures
        verdict(left, answers) is Ok <==> verdict(right, answers) is Ok,
        verdict(left, answers) is Ok ==> verdict(left, answers) == verdict(right, answers),
{
    lemma_findings_agree(left, right, answers);
    let f = findings_of(left, answers);
    let g = findings_of(right, answers);
    if f.errors.len() == 0 {
        lemma_overlap_count(f.sources, g.sources, f.validated, f.validated.len() as int);
    }
}

/// Two configurations that differ at most in what their profiles list.
pub open spec fn same_but_lists(left: Seq<VpnProfile>, right: Seq<VpnProfile>) -> bool {
    &&& left.len() == right.len()
    &&& forall|i: int|
        0 <= i < left.len() ==> (#[trigger] left[i]).vpn == right[i].vpn && left[i].enabled
            == right[i].enabled
}

/// Two configurations that differ at most in what their profiles list have the same
/// enabled profiles. The result is the position of one of them among all profiles.
proof fn lemma_enabled_alike(left: Seq<VpnProfile>, right: Seq<VpnProfile>, k: int) -> (i: int)
    requires
        same_but_lists(left, right),
    ensures
        enabled_profiles(left).len() == enabled_profiles(right).len(),
        0 <= k < enabled_profiles(left).len() ==> {
            &&& 0 <= i < left.len()
            &&& enabled_profiles(left)[k] == left[i]
            &&& enabled_profiles(right)[k] == right[i]
        },
    decreases left.len(),
{
    if left.len() == 0 {
        lemma_filter_members(left, |profile: VpnProfile| profile.enabled);
        lemma_filter_members(right, |profile: VpnProfile| profile.enabled);
        0
    } else {
        let some = left.drop_last();
        let others = right.drop_last();
        assert(same_but_lists(some, others)) by {
            assert forall|i: int| 0 <= i < some.len() implies (#[trigger] some[i]).vpn
                == others[i].vpn && some[i].enabled == others[i].enabled by {
                assert(some[i] == left[i]);
            }
        }
        let before = lemma_enabled_alike(some, others, k);
        assert(left =~= some.push(left.last()));
        assert(right =~= others.push(right.last()));
        lemma_enabled_push(some, left.last());
        lemma_enabled_push(others, right.last());
        assert(left[left.len() - 1].enabled == right[left.len() - 1].enabled);
        if k < enabled_profiles(some).len() {
            before
        } else {
            left.len() - 1
        }
    }
}

/// The texts hold the same entries, in any order, repetition and with any separators.
pub open spec fn same_tokens(left: Seq<char>, right: Seq<char>) -> bool {
    forall|token: Seq<char>|
        #![trigger tokens_of(left).contains(token)]
        #![trigger tokens_of(right).contains(token)]
        tokens_of(left).contains(token) <==> tokens_of(right).contains(token)
}

/// What some entry of the one text reads as, some entry of the other reads as.
proof fn lemma_same_tokens(left: Seq<char>, right: Seq<char>, target: TargetView)
    requires
        same_tokens(left, right),
        reads_as(entries_of(left), target),
    ensures
        reads_as(entries_of(right), target),
{
    let entries = entries_of(left);
    let j = choose|j: int| 0 <= j < entries.len() && (#[trigger] entries[j]).target == target;
    let token = tokens_of(left)[j];
    assert(tokens_of(left).contains(token));
    assert(tokens_of(right).contains(token));
    let i = choose|i: int| 0 <= i < tokens_of(right).len() && tokens_of(right)[i] == token;
    assert(entries_of(right)[i].target == target);
}

/// Profiles that raise the same questions one by one raise the same questions.
proof fn lemma_same_lookups(left: Seq<ProfileTargetsView>, right: Seq<ProfileTargetsView>)
    requires
        left.len() == right.len(),
        forall|i: int|
            0 <= i < left.len() ==> (#[trigger] left[i]).vpn == right[i].vpn && (same_reading(
                left[i].entries,
                right[i].entries,
            ) || (!has_domain(left[i].entries) && !has_domain(right[i].entries))),
    ensures
        lookups_of(left) == lookups_of(right),
    decreases left.len(),
{
    if left.len() > 0 {
        let some = left.drop_last();
        let others = right.drop_last();
        assert forall|i: int| 0 <= i < some.len() implies (#[trigger] some[i]).vpn == others[i].vpn
            && (same_reading(some[i].entries, others[i].entries) || (!has_domain(some[i].entries)
            && !has_domain(others[i].entries))) by {
            assert(some[i] == left[i]);
        }
        lemma_same_lookups(some, others);
        let l = lookups_of(some);
        let last = left.len() - 1;
        assert(left[last].vpn == right[last].vpn);
        if same_reading(left[last].entries, right[last].entries) {
            lemma_same_reading_lookups(l, left[last].vpn, left[last].entries, right[last].entries);
        } else {
            lemma_no_entry_questions(l, left[last].vpn, left[last].entries);
            lemma_no_entry_questions(l, left[last].vpn, right[last].entries);
        }
    }
}

/// The entries read as the same targets one by one.
pub open spec fn same_reading(left: Seq<TargetEntryView>, right: Seq<TargetEntryView>) -> bool {
    left.len() == right.len() && forall|j: int|
        0 <= j < left.len() ==> (#[trigger] left[j]).target == right[j].target
}

/// Entries that read as the same targets one by one raise the same questions.
proof fn lemma_same_reading_lookups(
    l: LookupsView,
    vpn: VpnKind,
    left: Seq<TargetEntryView>,
    right: Seq<TargetEntryView>,
)
    requires
        same_reading(left, right),
    ensures
        l.with_entries(vpn, left) == l.with_entries(vpn, right),
    decreases left.len(),
{
    if left.len() > 0 {
        assert forall|j: int| 0 <= j < left.len() - 1 implies (#[trigger] left.drop_last()[j]).target
            == right.drop_last()[j].target by {
            assert(left[j].target == right[j].target);
        }
        lemma_same_reading_lookups(l, vpn, left.drop_last(), right.drop_last());
        assert(left[left.len() - 1].target == right[left.len() - 1].target);
    }
}

/// The order and the repetition of the entries and the separators between them do not
/// count: configurations whose profiles list the same entries are accepted alike, and
/// what is accepted of them is equal. Where no list that was written differently names a
/// domain, the same questions are asked in the same order.
pub proof fn law_order_and_repetition_do_not_count(
    left: Seq<VpnProfile>,
    right: Seq<VpnProfile>,
    answers: Seq<AnswerView>,
)
    requires
        same_but_lists(left, right),
        forall|i: int|
            0 <= i < left.len() ==> same_tokens(
                (#[trigger] left[i]).networks@,
                right[i].networks@,
            ),
    ensures
        verdict(targets_of(left), answers) is Ok <==> verdict(targets_of(right), answers) is Ok,
        verdict(targets_of(left), answers) is Ok ==> verdict(targets_of(left), answers) == verdict(
            targets_of(right),
            answers,
        ),
        (forall|i: int|
            0 <= i < left.len() ==> (#[trigger] left[i]).networks@ == right[i].networks@
                || !has_domain(entries_of(left[i].networks@))) ==> questions_of(targets_of(left))
            == questions_of(targets_of(right)),
{
    let some = targets_of(left);
    let others = targets_of(right);
    lemma_enabled_alike(left, right, 0);
    assert forall|k: int| 0 <= k < some.len() implies (#[trigger] some[k]).vpn == others[k].vpn
        && same_targets(some[k].entries, others[k].entries) by {
        let i = lemma_enabled_alike(left, right, k);
        assert(left[i].vpn == right[i].vpn);
        assert(same_tokens(left[i].networks@, right[i].networks@));
        assert forall|target: TargetView|
            reads_as(some[k].entries, target) <==> reads_as(others[k].entries, target) by {
            if reads_as(some[k].entries, target) {
                lemma_same_tokens(left[i].networks@, right[i].networks@, target);
            }
            if reads_as(others[k].entries, target) {
                lemma_same_tokens(right[i].networks@, left[i].networks@, target);
            }
        }
    }
    law_read_targets_are_normal(left);
    law_read_targets_are_normal(right);
    law_only_what_entries_read_as_counts(some, others, answers);
    if forall|i: int|
        0 <= i < left.len() ==> (#[trigger] left[i]).networks@ == right[i].networks@
            || !has_domain(entries_of(left[i].networks@)) {
        assert forall|k: int| 0 <= k < some.len() implies (#[trigger] some[k]).vpn == others[k].vpn
            && (same_reading(some[k].entries, others[k].entries) || (!has_domain(some[k].entries)
            && !has_domain(others[k].entries))) by {
            let i = lemma_enabled_alike(left, right, k);
            assert(left[i].vpn == right[i].vpn);
            assert(same_tokens(left[i].networks@, right[i].networks@));
            if left[i].networks@ != right[i].networks@ && has_domain(others[k].entries) {
                let entries = others[k].entries;
                let j = choose|j: int|
                    0 <= j < entries.len() && (#[trigger] entries[j]).target is Domain;
                let target = entries[j].target;
                assert(reads_as(entries, target));
                lemma_same_tokens(right[i].networks@, left[i].networks@, target);
                let own = entries_of(left[i].networks@);
                let n = choose|n: int| 0 <= n < own.len() && (#[trigger] own[n]).target == target;
                assert(own[n].target is Domain);
            }
        }
        lemma_same_lookups(some, others);
    }
}

/// Of an entry that is read as a URL only the host counts: two of them whose URLs have
/// the same host read as the same target, whatever their protocols, paths and ports.
pub proof fn law_only_the_host_of_a_url_counts(left: Seq<char>, right: Seq<char>)
    requires
        names_url(left),
        names_url(right),
        url_host_of(url_named_by(left)) == url_host_of(url_named_by(right)),
    ensures
        target_of(left) == target_of(right),
{
    lemma_url_is_no_network(left);
    lemma_url_is_no_network(right);
}

/// The entries are the same, or are read as URLs with the same host.
pub open spec fn same_destination(left: Seq<char>, right: Seq<char>) -> bool {
    left == right || (names_url(left) && names_url(right) && url_host_of(url_named_by(left))
        == url_host_of(url_named_by(right)))
}

/// The texts have the same destinations one by one.
pub open spec fn same_destinations(left: Seq<char>, right: Seq<char>) -> bool {
    tokens_of(left).len() == tokens_of(right).len() && forall|j: int|
        0 <= j < tokens_of(left).len() ==> same_destination(
            #[trigger] tokens_of(left)[j],
            tokens_of(right)[j],
        )
}

/// The protocols, paths and ports of URLs do not count: configurations that list URLs
/// with the same hosts raise the same questions and are accepted alike, and what is
/// accepted of them is equal.
pub proof fn law_only_the_hosts_count(
    left: Seq<VpnProfile>,
    right: Seq<VpnProfile>,
    answers: Seq<AnswerView>,
)
    requires
        same_but_lists(left, right),
        forall|i: int|
            0 <= i < left.len() ==> same_destinations(
                (#[trigger] left[i]).networks@,
                right[i].networks@,
            ),
    ensures
        questions_of(targets_of(left)) == questions_of(targets_of(right)),
        verdict(targets_of(left), answers) is Ok <==> verdict(targets_of(right), answers) is Ok,
        verdict(targets_of(left), answers) is Ok ==> verdict(targets_of(left), answers) == verdict(
            targets_of(right),
            answers,
        ),
{
    let some = targets_of(left);
    let others = targets_of(right);
    lemma_enabled_alike(left, right, 0);
    assert forall|k: int| 0 <= k < some.len() implies (#[trigger] some[k]).vpn == others[k].vpn
        && same_reading(some[k].entries, others[k].entries) && same_targets(
        some[k].entries,
        others[k].entries,
    ) by {
        let i = lemma_enabled_alike(left, right, k);
        let own = tokens_of(left[i].networks@);
        let other = tokens_of(right[i].networks@);
        assert(left[i].vpn == right[i].vpn);
        assert(same_destinations(left[i].networks@, right[i].networks@));
        assert forall|j: int| 0 <= j < own.len() implies (#[trigger] some[k].entries[j]).target
            == others[k].entries[j].target by {
            assert(same_destination(own[j], other[j]));
            if own[j] != other[j] {
                law_only_the_host_of_a_url_counts(own[j], other[j]);
            }
        }
        lemma_same_reading(some[k].entries, others[k].entries);
    }
    lemma_same_lookups(some, others);
    law_read_targets_are_normal(left);
    law_read_targets_are_normal(right);
    law_only_what_entries_read_as_counts(some, others, answers);
}

/// Entries that read as the same targets one by one read as the same targets.
proof fn lemma_same_reading(left: Seq<TargetEntryView>, right: Seq<TargetEntryView>)
    requires
        same_reading(left, right),
    ensures
        same_targets(left, right),
{
    assert forall|target: TargetView| reads_as(left, target) <==> reads_as(right, target) by {
        if reads_as(left, target) {
            let j = choose|j: int| 0 <= j < left.len() && (#[trigger] left[j]).target == target;
            assert(right[j].target == target);
        }
        if reads_as(right, target) {
            let j = choose|j: int| 0 <= j < right.len() && (#[trigger] right[j]).target == target;
            assert(left[j].target == target);
        }
    }
}

/// A profile may list the target, as far as other profiles do not matter: it is a network
/// with a prefix, or a domain for which the name servers of the VPN give an address.
pub open spec fn target_in_order(
    target: TargetView,
    vpn: VpnKind,
    answers: Seq<AnswerView>,
) -> bool {
    match target {
        TargetView::Network(network) => network.prefix_len != 0,
        TargetView::Domain(hostname) => {
            &&& answer_about(answers, vpn, hostname) matches Ok(addresses)
            &&& addresses.len() > 0
        },
        _ => false,
    }
}

/// The profile lists something, and nothing that it may not list.
pub open spec fn profile_in_order(profile: ProfileTargetsView, answers: Seq<AnswerView>) -> bool {
    &&& profile.entries.len() > 0
    &&& forall|j: int|
        0 <= j < profile.entries.len() ==> target_in_order(
            (#[trigger] profile.entries[j]).target,
            profile.vpn,
            answers,
        )
}

/// The profiles are of one VPN, or no domain is listed by both.
pub open spec fn names_apart(left: ProfileTargetsView, right: ProfileTargetsView) -> bool {
    left.vpn == right.vpn || forall|name: Seq<char>|
        !(#[trigger] any_names(left.entries, name) && any_names(right.entries, name))
}

/// No network that the one profile asks for has an address in common with one that the
/// other asks for.
pub open spec fn networks_apart(
    left: ProfileTargetsView,
    right: ProfileTargetsView,
    answers: Seq<AnswerView>,
) -> bool {
    forall|a: Ipv4Net, b: Ipv4Net|
        #[trigger] any_asks_for(left.entries, left.vpn, answers, a) && #[trigger] any_asks_for(
            right.entries,
            right.vpn,
            answers,
            b,
        ) ==> !overlap(a, b)
}

/// Nothing is wrong with the targets: every profile lists something and nothing that it
/// may not list, no domain is listed for two VPNs, and no networks of two profiles have
/// an address in common.
pub open spec fn faultless(targets: Seq<ProfileTargetsView>, answers: Seq<AnswerView>) -> bool {
    &&& forall|i: int|
        0 <= i < targets.len() ==> profile_in_order(#[trigger] targets[i], answers)
    &&& forall|i: int, k: int|
        0 <= i < k < targets.len() ==> names_apart(#[trigger] targets[i], #[trigger] targets[k])
            && networks_apart(targets[i], targets[k], answers)
}

/// Every owner of a domain is the VPN of a profile that lists the domain.
pub open spec fn owners_list(targets: Seq<ProfileTargetsView>, owners: Seq<OwnerView>) -> bool {
    forall|name: Seq<char>| #[trigger]
        owner_of(owners, name) is Some ==> some_lists(targets, owner_of(owners, name)->0, name)
}

/// Some profile of the VPN lists the domain.
pub open spec fn some_lists(
    targets: Seq<ProfileTargetsView>,
    vpn: VpnKind,
    name: Seq<char>,
) -> bool {
    exists|i: int|
        0 <= i < targets.len() && (#[trigger] targets[i]).vpn == vpn && any_names(
            targets[i].entries,
            name,
        )
}

/// Faultless targets raise no error one by one.
proof fn lemma_faultless_findings(
    targets: Seq<ProfileTargetsView>,
    answers: Seq<AnswerView>,
    count: int,
)
    requires
        faultless(targets, answers),
        0 <= count <= targets.len(),
    ensures
        findings_of(targets.take(count), answers).errors.len() == 0,
        owners_list(targets.take(count), findings_of(targets.take(count), answers).owners),
    decreases count,
{
    if count > 0 {
        let before = targets.take(count - 1);
        let now = targets.take(count);
        let profile = targets[count - 1];
        assert(now.drop_last() =~= before);
        assert(now.last() == profile);
        lemma_faultless_findings(targets, answers, count - 1);
        let f = findings_of(before, answers);
        let g = findings_of(now, answers);
        assert(profile_in_order(profile, answers));
        assert(all_acceptable(profile.entries, profile.vpn, f.owners, answers)) by {
            assert forall|j: int| 0 <= j < profile.entries.len() implies acceptable(
                (#[trigger] profile.entries[j]).target,
                profile.vpn,
                f.owners,
                answers,
            ) by {
                assert(target_in_order(profile.entries[j].target, profile.vpn, answers));
                if let TargetView::Domain(name) = profile.entries[j].target {
                    assert(any_names(profile.entries, name));
                    if owner_of(f.owners, name) is Some {
                        let owner = owner_of(f.owners, name)->0;
                        assert(some_lists(before, owner, name));
                        let i = choose|i: int|
                            0 <= i < before.len() && (#[trigger] before[i]).vpn == owner
                                && any_names(before[i].entries, name);
                        assert(before[i] == targets[i]);
                        assert(names_apart(targets[i], targets[count - 1]));
                    }
                }
            }
        }
        lemma_entries_accepted(f.at_next_profile(), profile.vpn, profile.entries, answers);
        assert forall|name: Seq<char>| #[trigger] owner_of(g.owners, name) is Some implies some_lists(
            now,
            owner_of(g.owners, name)->0,
            name,
        ) by {
            if reads_as(profile.entries, TargetView::Domain(name)) {
                assert(any_names(now[count - 1].entries, name));
            } else {
                let owner = owner_of(f.owners, name)->0;
                assert(some_lists(before, owner, name));
                let i = choose|i: int|
                    0 <= i < before.len() && (#[trigger] before[i]).vpn == owner && any_names(
                        before[i].entries,
                        name,
                    );
                assert(now[i] == before[i]);
            }
        }
    } else {
        assert(targets.take(0) =~= Seq::empty());
    }
}

/// A network that meets none of a list overlaps none of it.
proof fn lemma_apart_network(
    sources: Seq<SourceView>,
    left: VpnKind,
    network: Ipv4Net,
    right: VpnKind,
    others: Seq<Ipv4Net>,
)
    requires
        forall|k: int| 0 <= k < others.len() ==> !networks_meet(network, #[trigger] others[k]),
    ensures
        overlaps_of_network(sources, left, network, right, others).len() == 0,
    decreases others.len(),
{
    if others.len() > 0 {
        assert forall|k: int| 0 <= k < others.len() - 1 implies !networks_meet(
            network,
            #[trigger] others.drop_last()[k],
        ) by {
            assert(others.drop_last()[k] == others[k]);
        }
        lemma_apart_network(sources, left, network, right, others.drop_last());
        assert(!networks_meet(network, others[others.len() - 1]));
    }
}

/// No network of the one list meets one of the other.
pub open spec fn none_meet(left: Seq<Ipv4Net>, right: Seq<Ipv4Net>) -> bool {
    forall|a: int, b: int|
        0 <= a < left.len() && 0 <= b < right.len() ==> !networks_meet(
            #[trigger] left[a],
            #[trigger] right[b],
        )
}

/// Networks that meet none of a profile overlap none of it.
proof fn lemma_apart_networks(
    sources: Seq<SourceView>,
    left: VpnKind,
    networks: Seq<Ipv4Net>,
    right: ValidatedView,
)
    requires
        none_meet(networks, right.networks),
    ensures
        overlaps_of_networks(sources, left, networks, right).len() == 0,
    decreases networks.len(),
{
    if networks.len() > 0 {
        let before = networks.drop_last();
        assert forall|a: int, b: int|
            0 <= a < before.len() && 0 <= b < right.networks.len() implies !networks_meet(
            #[trigger] before[a],
            #[trigger] right.networks[b],
        ) by {
            assert(before[a] == networks[a]);
        }
        lemma_apart_networks(sources, left, before, right);
        let last = networks.len() - 1;
        assert(networks[last] == networks.last());
        lemma_apart_network(sources, left, networks.last(), right.vpn, right.networks);
    }
}

/// A profile that meets none of a list overlaps none of it.
proof fn lemma_apart_profile(
    sources: Seq<SourceView>,
    left: ValidatedView,
    others: Seq<ValidatedView>,
)
    requires
        forall|k: int|
            0 <= k < others.len() ==> none_meet(left.networks, (#[trigger] others[k]).networks),
    ensures
        overlaps_of_profile(sources, left, others).len() == 0,
    decreases others.len(),
{
    if others.len() > 0 {
        assert forall|k: int| 0 <= k < others.len() - 1 implies none_meet(
            left.networks,
            (#[trigger] others.drop_last()[k]).networks,
        ) by {
            assert(others.drop_last()[k] == others[k]);
        }
        lemma_apart_profile(sources, left, others.drop_last());
        assert(none_meet(left.networks, others[others.len() - 1].networks));
        lemma_apart_networks(sources, left.vpn, left.networks, others.last());
    }
}

/// Profiles that do not meet do not overlap.
proof fn lemma_apart_profiles(
    sources: Seq<SourceView>,
    validated: Seq<ValidatedView>,
    count: int,
)
    requires
        0 <= count <= validated.len(),
        forall|i: int, k: int|
            0 <= i < k < validated.len() ==> none_meet(
                (#[trigger] validated[i]).networks,
                (#[trigger] validated[k]).networks,
            ),
    ensures
        overlaps_of_profiles(sources, validated, count).len() == 0,
    decreases count,
{
    if count > 0 {
        lemma_apart_profiles(sources, validated, count - 1);
        let others = validated.skip(count);
        assert forall|k: int| 0 <= k < others.len() implies none_meet(
            validated[count - 1].networks,
            (#[trigger] others[k]).networks,
        ) by {
            assert(others[k] == validated[count + k]);
        }
        lemma_apart_profile(sources, validated[count - 1], others);
    }
}

/// Faultless targets are accepted.
proof fn lemma_faultless_is_accepted(
    targets: Seq<ProfileTargetsView>,
    answers: Seq<AnswerView>,
)
    requires
        targets_normal(targets),
        faultless(targets, answers),
    ensures
        verdict(targets, answers) is Ok,
{
    lemma_faultless_findings(targets, answers, targets.len() as int);
    assert(targets.take(targets.len() as int) =~= targets);
    lemma_findings(targets, answers);
    let found = findings_of(targets, answers);
    let validated = found.validated;
    assert forall|i: int| 0 <= i < targets.len() implies faithful(
        #[trigger] targets[i],
        answers,
        validated[i],
    ) by {
        assert(profile_validated(targets[i], answers, validated[i]));
        let networks = choose|networks: Seq<Ipv4Net>|
            profile_carried(targets[i], answers, networks, validated[i]);
        lemma_faithful(targets[i], answers, networks, validated[i]);
    }
    assert forall|i: int, k: int| 0 <= i < k < validated.len() implies none_meet(
        (#[trigger] validated[i]).networks,
        (#[trigger] validated[k]).networks,
    ) by {
        let left = validated[i].networks;
        let right = validated[k].networks;
        assert(faithful(targets[i], answers, validated[i]));
        assert(faithful(targets[k], answers, validated[k]));
        assert(networks_apart(targets[i], targets[k], answers));
        assert forall|a: int, b: int|
            0 <= a < left.len() && 0 <= b < right.len() implies !networks_meet(
            #[trigger] left[a],
            #[trigger] right[b],
        ) by {
            assert(any_asks_for(targets[i].entries, targets[i].vpn, answers, left[a]));
            assert(any_asks_for(targets[k].entries, targets[k].vpn, answers, right[b]));
            assert(normal(left[a]) && normal(right[b]));
            law_overlap_at_lowest_address(left[a], right[b]);
        }
    }
    lemma_apart_profiles(found.sources, validated, validated.len() as int);
}

/// What an accepted profile asks for is held by what was validated of it.
proof fn lemma_asked_is_held(
    profile: ProfileTargetsView,
    answers: Seq<AnswerView>,
    validated: ValidatedView,
    network: Ipv4Net,
    address: u32,
) -> (k: int)
    requires
        faithful(profile, answers, validated),
        any_asks_for(profile.entries, profile.vpn, answers, network),
        network.covers(address),
    ensures
        0 <= k < validated.networks.len(),
        validated.networks[k].covers(address),
{
    let j = choose|j: int|
        0 <= j < profile.entries.len() && asks_for(
            #[trigger] profile.entries[j],
            profile.vpn,
            answers,
            network,
        );
    assert(entry_held(profile.entries[j], answers, validated));
    match profile.entries[j].target {
        TargetView::Network(_) => {
            choose|k: int|
                0 <= k < validated.networks.len() && contains_network(
                    #[trigger] validated.networks[k],
                    network,
                )
        },
        TargetView::Domain(hostname) => {
            let addresses = answer_about(answers, profile.vpn, hostname)->Ok_0;
            let a = choose|a: int| 0 <= a < addresses.len() && addresses[a] == network.addr;
            assert(any_covers(validated.networks, addresses[a] as int));
            lemma_network_range(network);
            assert(address == network.addr);
            choose|k: int|
                0 <= k < validated.networks.len() && (#[trigger] validated.networks[k]).covers(
                    network.addr,
                )
        },
        _ => 0,
    }
}

/// Targets are accepted exactly where nothing is wrong with them: where every profile
/// lists something, every entry is a network with a prefix or a domain with an address,
/// no domain is listed for two VPNs, and no networks of two profiles have an address in
/// common.
pub proof fn law_faultless_targets_are_accepted(
    targets: Seq<ProfileTargetsView>,
    answers: Seq<AnswerView>,
)
    requires
        targets_normal(targets),
    ensures
        verdict(targets, answers) is Ok <==> faultless(targets, answers),
{
    if faultless(targets, answers) {
        lemma_faultless_is_accepted(targets, answers);
    }
    if verdict(targets, answers) is Ok {
        let validated = verdict(targets, answers)->Ok_0;
        law_accepted_profiles_are_faithful(targets, answers);
        assert forall|i: int| 0 <= i < targets.len() implies profile_in_order(
            #[trigger] targets[i],
            answers,
        ) by {
            assert(faithful(targets[i], answers, validated[i]));
            assert forall|j: int| 0 <= j < targets[i].entries.len() implies target_in_order(
                (#[trigger] targets[i].entries[j]).target,
                targets[i].vpn,
                answers,
            ) by {
                assert(entry_held(targets[i].entries[j], answers, validated[i]));
            }
        }
        assert forall|i: int, k: int| 0 <= i < k < targets.len() implies names_apart(
            #[trigger] targets[i],
            #[trigger] targets[k],
        ) && networks_apart(targets[i], targets[k], answers) by {
            if targets[i].vpn != targets[k].vpn {
                assert forall|name: Seq<char>|
                    !(#[trigger] any_names(targets[i].entries, name) && any_names(
                        targets[k].entries,
                        name,
                    )) by {
                    if any_names(targets[i].entries, name) && any_names(targets[k].entries, name) {
                        law_shared_domain_is_rejected(targets, answers, i, k, name);
                    }
                }
            }
            assert(faithful(targets[i], answers, validated[i]));
            assert(faithful(targets[k], answers, validated[k]));
            law_accepted_profiles_do_not_overlap(targets, answers, i, k);
            assert forall|a: Ipv4Net, b: Ipv4Net|
                #[trigger] any_asks_for(targets[i].entries, targets[i].vpn, answers, a)
                    && #[trigger] any_asks_for(
                    targets[k].entries,
                    targets[k].vpn,
                    answers,
                    b,
                ) implies !overlap(a, b) by {
                if overlap(a, b) {
                    let address = choose|address: u32| a.covers(address) && #[trigger] b.covers(
                        address,
                    );
                    let m = lemma_asked_is_held(targets[i], answers, validated[i], a, address);
                    let n = lemma_asked_is_held(targets[k], answers, validated[k], b, address);
                    assert(overlap(validated[i].networks[m], validated[k].networks[n]));
                }
            }
        }
    }
}

/// The entries are the same, or both name the same host plainly: by itself, or in an
/// `http` or `https` URL with or without a port and a path.
pub open spec fn same_host(left: Seq<char>, right: Seq<char>) -> bool {
    left == right || exists|name: Seq<char>| #[trigger]
        named_plainly(left, name) && named_plainly(right, name)
}

/// The texts name the same hosts one by one.
pub open spec fn same_hosts(left: Seq<char>, right: Seq<char>) -> bool {
    tokens_of(left).len() == tokens_of(right).len() && forall|j: int|
        0 <= j < tokens_of(left).len() ==> same_host(
            #[trigger] tokens_of(left)[j],
            tokens_of(right)[j],
        )
}

/// Protocol, path and port do not count: where a host is named by itself in one
/// configuration and in a URL in the other, or in two URLs, the same questions are asked,
/// both are accepted or neither, and what is accepted of them is equal. That plain names
/// read as what they name is what validating a configuration makes certain of.
pub proof fn law_protocol_path_and_port_do_not_count(
    left: Seq<VpnProfile>,
    right: Seq<VpnProfile>,
    answers: Seq<AnswerView>,
)
    requires
        same_but_lists(left, right),
        plain_names_read(left),
        plain_names_read(right),
        forall|i: int|
            0 <= i < left.len() ==> same_hosts(
                (#[trigger] left[i]).networks@,
                right[i].networks@,
            ),
    ensures
        questions_of(targets_of(left)) == questions_of(targets_of(right)),
        verdict(targets_of(left), answers) is Ok <==> verdict(targets_of(right), answers) is Ok,
        verdict(targets_of(left), answers) is Ok ==> verdict(targets_of(left), answers) == verdict(
            targets_of(right),
            answers,
        ),
{
    let some = targets_of(left);
    let others = targets_of(right);
    lemma_enabled_alike(left, right, 0);
    assert forall|k: int| 0 <= k < some.len() implies (#[trigger] some[k]).vpn == others[k].vpn
        && same_reading(some[k].entries, others[k].entries) && same_targets(
        some[k].entries,
        others[k].entries,
    ) by {
        let i = lemma_enabled_alike(left, right, k);
        let own = tokens_of(left[i].networks@);
        let other = tokens_of(right[i].networks@);
        lemma_filter_members(left, |profile: VpnProfile| profile.enabled);
        assert(enabled_profiles(left).contains(enabled_profiles(left)[k]));
        assert(left[i].enabled && right[i].enabled && left[i].vpn == right[i].vpn);
        assert(same_hosts(left[i].networks@, right[i].networks@));
        assert(reads_plainly(left[i].networks@) && reads_plainly(right[i].networks@));
        assert forall|j: int| 0 <= j < own.len() implies (#[trigger] some[k].entries[j]).target
            == others[k].entries[j].target by {
            assert(same_host(own[j], other[j]));
            if own[j] != other[j] {
                let name = choose|name: Seq<char>| #[trigger]
                    named_plainly(own[j], name) && named_plainly(other[j], name);
                assert(target_of(own[j]) == TargetView::Domain(name));
                assert(target_of(other[j]) == TargetView::Domain(name));
            }
        }
        lemma_same_reading(some[k].entries, others[k].entries);
    }
    lemma_same_lookups(some, others);
    law_read_targets_are_normal(left);
    law_read_targets_are_normal(right);
    law_only_what_entries_read_as_counts(some, others, answers);
}

}
