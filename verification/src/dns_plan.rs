//! Which name servers answer which names, so that no name is answered by the wrong
//! network.

use vstd::prelude::*;

use crate::domain::{
    configured_dns_hostnames, domains_among, entries_of, lemma_profile_index, profile_of,
    SplitterConfig, VpnKind, VpnProfile,
};
use crate::fallback::{
    fallback_dns_servers, fallback_servers, fallback_view, FallbackView, InternetFallback,
};
use crate::ipv4::{address_text, address_to_text};
use crate::preparation::{make_server_route, server_route};
use crate::selection::{
    address_texts, addresses_to_texts, contains_address, distinct_addresses,
    normalized_ipv4_addresses, one_text, selected_adapter_for_profile, selection,
};
use crate::validation::{
    clone_texts, domain_shared, domain_shared_error, find_owner, owner_of, HostOwner, OwnerView,
};
use crate::windows::{AdapterView, ManagedRoute, NetworkAdapter, RouteView};

verus! {

/// The list with the address put before the first one that is greater; a list that
/// reaches the address itself first stays as it is.
pub open spec fn insert_address(list: Seq<u32>, address: u32) -> Seq<u32>
    decreases list.len(),
{
    if list.len() == 0 {
        seq![address]
    } else if address == list[0] {
        list
    } else if address < list[0] {
        seq![address] + list
    } else {
        seq![list[0]] + insert_address(list.skip(1), address)
    }
}

/// The distinct addresses of a list, in increasing order.
pub open spec fn address_set(addresses: Seq<u32>) -> Seq<u32>
    decreases addresses.len(),
{
    if addresses.len() == 0 {
        Seq::empty()
    } else {
        insert_address(address_set(addresses.drop_last()), addresses.last())
    }
}

/// Puts an address into an ordered list of distinct addresses.
fn insert_into_addresses(list: &mut Vec<u32>, address: u32)
    ensures
        final(list)@ == insert_address(old(list)@, address),
{
    let ghost before = list@;
    let mut at: usize = 0;
    assert(before.skip(0) =~= before);
    assert(before.take(0) + insert_address(before.skip(0), address) =~= insert_address(
        before,
        address,
    ));
    while at < list.len() && list[at] < address
        invariant
            *list == *old(list),
            before == list@,
            at <= list.len(),
            insert_address(before, address) == before.take(at as int) + insert_address(
                before.skip(at as int),
                address,
            ),
        decreases list.len() - at,
    {
        assert(before.skip(at as int).skip(1) =~= before.skip(at + 1));
        assert(before.take(at as int) + insert_address(before.skip(at as int), address)
            =~= before.take(at + 1) + insert_address(before.skip(at + 1), address));
        at = at + 1;
    }
    if at < list.len() && list[at] == address {
        assert(before.take(at as int) + before.skip(at as int) =~= before);
        return;
    }
    list.insert(at, address);
    assert(list@ =~= insert_address(before, address));
}

/// The distinct addresses of a list, in increasing order.
pub fn sorted_addresses(addresses: &Vec<u32>) -> (sorted: Vec<u32>)
    ensures
        sorted@ == address_set(addresses@),
{
    let mut sorted: Vec<u32> = Vec::new();
    for i in 0..addresses.len()
        invariant
            sorted@ == address_set(addresses@.take(i as int)),
    {
        assert(addresses@.take(i + 1).drop_last() =~= addresses@.take(i as int));
        insert_into_addresses(&mut sorted, addresses[i]);
    }
    assert(addresses@.take(addresses.len() as int) =~= addresses@);
    sorted
}

/// Whether the two lists are equal.
fn same_addresses(left: &Vec<u32>, right: &Vec<u32>) -> (same: bool)
    ensures
        same == (left@ == right@),
{
    if left.len() != right.len() {
        return false;
    }
    for i in 0..left.len()
        invariant
            left.len() == right.len(),
            forall|k: int| 0 <= k < i ==> left@[k] == right@[k],
    {
        if left[i] != right[i] {
            return false;
        }
    }
    assert(left@ =~= right@);
    true
}

/// Every address of the one list is in the other.
pub open spec fn all_within(some: Seq<u32>, all: Seq<u32>) -> bool {
    forall|i: int| 0 <= i < some.len() ==> all.contains(#[trigger] some[i])
}

/// Whether every address of the one list is in the other.
fn are_all_within(some: &Vec<u32>, all: &Vec<u32>) -> (within: bool)
    ensures
        within == all_within(some@, all@),
{
    for i in 0..some.len()
        invariant
            forall|k: int| 0 <= k < i ==> all@.contains(#[trigger] some@[k]),
    {
        if !contains_address(all, some[i]) {
            assert(!all@.contains(some@[i as int]));
            return false;
        }
    }
    true
}

/// The address is not in the list.
pub open spec fn not_among(addresses: Seq<u32>) -> spec_fn(u32) -> bool {
    |address: u32| !addresses.contains(address)
}

/// The addresses that are not in the other list, in their order.
fn addresses_without(addresses: &Vec<u32>, others: &Vec<u32>) -> (kept: Vec<u32>)
    ensures
        kept@ == addresses@.filter(not_among(others@)),
{
    let mut kept: Vec<u32> = Vec::new();
    proof {
        crate::lists::lemma_filter_none(addresses@, not_among(others@));
    }
    for i in 0..addresses.len()
        invariant
            kept@ == addresses@.take(i as int).filter(not_among(others@)),
    {
        proof {
            crate::lists::lemma_filter_step(addresses@, i as int, not_among(others@));
        }
        if !contains_address(others, addresses[i]) {
            kept.push(addresses[i]);
        }
    }
    assert(addresses@.take(addresses.len() as int) =~= addresses@);
    kept
}

/// The name servers for the names of one VPN, and the interface behind which they are.
#[derive(Debug, PartialEq, Eq)]
pub struct ProfileDnsPlan {
    pub vpn: VpnKind,
    pub adapter_index: u32,
    pub next_hop: String,
    pub hostnames: Vec<String>,
    pub servers: Vec<u32>,
}

/// What a `ProfileDnsPlan` stands for.
#[verifier::ext_equal]
pub ghost struct ProfilePlanView {
    pub vpn: VpnKind,
    pub adapter_index: u32,
    pub next_hop: Seq<char>,
    pub hostnames: Seq<Seq<char>>,
    pub servers: Seq<u32>,
}

impl DeepView for ProfileDnsPlan {
    type V = ProfilePlanView;

    open spec fn deep_view(&self) -> ProfilePlanView {
        ProfilePlanView {
            vpn: self.vpn,
            adapter_index: self.adapter_index,
            next_hop: self.next_hop@,
            hostnames: self.hostnames.deep_view(),
            servers: self.servers@,
        }
    }
}

/// The name servers for everything: at most one plan for each VPN, and the servers for
/// all other names.
#[derive(Debug, PartialEq, Eq)]
pub struct DnsPlan {
    pub fallback_servers: Vec<u32>,
    pub forticlient: Option<ProfileDnsPlan>,
    pub f5: Option<ProfileDnsPlan>,
    pub ivanti: Option<ProfileDnsPlan>,
}

/// What a `DnsPlan` stands for.
#[verifier::ext_equal]
pub ghost struct DnsPlanView {
    pub fallback_servers: Seq<u32>,
    pub forticlient: Option<ProfilePlanView>,
    pub f5: Option<ProfilePlanView>,
    pub ivanti: Option<ProfilePlanView>,
}

impl DeepView for DnsPlan {
    type V = DnsPlanView;

    open spec fn deep_view(&self) -> DnsPlanView {
        DnsPlanView {
            fallback_servers: self.fallback_servers@,
            forticlient: self.forticlient.deep_view(),
            f5: self.f5.deep_view(),
            ivanti: self.ivanti.deep_view(),
        }
    }
}

/// A list of the one item, where there is one.
pub open spec fn listed<A>(item: Option<A>) -> Seq<A> {
    match item {
        Some(only) => seq![only],
        None => Seq::empty(),
    }
}

impl DnsPlanView {
    /// Nothing is planned.
    pub open spec fn none() -> DnsPlanView {
        DnsPlanView { fallback_servers: Seq::empty(), forticlient: None, f5: None, ivanti: None }
    }

    /// The plan for the VPN.
    pub open spec fn get(self, vpn: VpnKind) -> Option<ProfilePlanView> {
        match vpn {
            VpnKind::FortiClient => self.forticlient,
            VpnKind::F5 => self.f5,
            VpnKind::Ivanti => self.ivanti,
        }
    }

    /// The plan with the one for a VPN set.
    pub open spec fn with(self, profile: ProfilePlanView) -> DnsPlanView {
        match profile.vpn {
            VpnKind::FortiClient => DnsPlanView { forticlient: Some(profile), ..self },
            VpnKind::F5 => DnsPlanView { f5: Some(profile), ..self },
            VpnKind::Ivanti => DnsPlanView { ivanti: Some(profile), ..self },
        }
    }

    /// The plans for the VPNs, in the order of the VPNs.
    pub open spec fn values(self) -> Seq<ProfilePlanView> {
        listed(self.forticlient) + listed(self.f5) + listed(self.ivanti)
    }
}

impl DnsPlan {
    fn new() -> (plan: DnsPlan)
        ensures
            plan.deep_view() == DnsPlanView::none(),
    {
        DnsPlan { fallback_servers: Vec::new(), forticlient: None, f5: None, ivanti: None }
    }

    fn set(&mut self, profile: ProfileDnsPlan)
        ensures
            final(self).deep_view() == old(self).deep_view().with(profile.deep_view()),
    {
        match profile.vpn {
            VpnKind::FortiClient => {
                self.forticlient = Some(profile);
            },
            VpnKind::F5 => {
                self.f5 = Some(profile);
            },
            VpnKind::Ivanti => {
                self.ivanti = Some(profile);
            },
        }
    }

    /// The plan for the VPN.
    pub fn get(&self, vpn: VpnKind) -> (profile: Option<&ProfileDnsPlan>)
        ensures
            profile.deep_view() == self.deep_view().get(vpn),
    {
        match vpn {
            VpnKind::FortiClient => self.forticlient.as_ref(),
            VpnKind::F5 => self.f5.as_ref(),
            VpnKind::Ivanti => self.ivanti.as_ref(),
        }
    }

    /// The plans for the VPNs, in the order of the VPNs.
    pub fn values(&self) -> (profiles: Vec<&ProfileDnsPlan>)
        ensures
            profiles.deep_view() == self.deep_view().values(),
    {
        let mut profiles: Vec<&ProfileDnsPlan> = Vec::new();
        if let Some(profile) = &self.forticlient {
            profiles.push(profile);
        }
        if let Some(profile) = &self.f5 {
            profiles.push(profile);
        }
        if let Some(profile) = &self.ivanti {
            profiles.push(profile);
        }
        assert(profiles.deep_view() =~= self.deep_view().values());
        profiles
    }

    /// The name servers of the VPN, in the notation `a.b.c.d`.
    pub fn server_strings(&self, vpn: VpnKind) -> (result: Result<Vec<String>, String>)
        ensures
            crate::domain::texts_result(result) == servers_of_plan(self.deep_view(), vpn),
    {
        match self.get(vpn) {
            Some(profile) => Ok(addresses_to_texts(&profile.servers)),
            None => {
                let mut message: String = "找不到 ".to_owned();
                message.append(vpn.name());
                message.append(" 的 DNS 規劃。");
                Err(message)
            },
        }
    }
}

/// The name servers of the VPN, in the notation `a.b.c.d`.
pub open spec fn servers_of_plan(plan: DnsPlanView, vpn: VpnKind) -> Result<
    Seq<Seq<char>>,
    Seq<char>,
> {
    match plan.get(vpn) {
        Some(profile) => Ok(address_texts(profile.servers)),
        None => Err("找不到 "@ + vpn.text() + " 的 DNS 規劃。"@),
    }
}

/// What an enabled profile brings to the plan: its interface, its domains, and the name
/// servers that the interface reports, in increasing order.
pub struct RawProfile<'a> {
    pub vpn: VpnKind,
    pub adapter: &'a NetworkAdapter,
    pub hostnames: Vec<String>,
    pub reported: Vec<u32>,
}

/// What a `RawProfile` stands for.
#[verifier::ext_equal]
pub ghost struct RawView {
    pub vpn: VpnKind,
    pub adapter: AdapterView,
    pub hostnames: Seq<Seq<char>>,
    pub reported: Seq<u32>,
}

impl<'a> DeepView for RawProfile<'a> {
    type V = RawView;

    open spec fn deep_view(&self) -> RawView {
        RawView {
            vpn: self.vpn,
            adapter: self.adapter.deep_view(),
            hostnames: self.hostnames.deep_view(),
            reported: self.reported@,
        }
    }
}

/// The owners of the domains after the VPN has claimed its own; a domain of another
/// VPN cannot be claimed.
pub open spec fn with_claims(
    owners: Seq<OwnerView>,
    vpn: VpnKind,
    hostnames: Seq<Seq<char>>,
) -> Result<Seq<OwnerView>, Seq<Seq<char>>>
    decreases hostnames.len(),
{
    if hostnames.len() == 0 {
        Ok(owners)
    } else {
        match with_claims(owners, vpn, hostnames.drop_last()) {
            Err(reasons) => Err(reasons),
            Ok(before) => {
                let owner = owner_of(before, hostnames.last());
                if owner is Some && owner != Some(vpn) {
                    Err(seq![domain_shared(hostnames.last(), owner->0, vpn).message])
                } else {
                    Ok(before.push(OwnerView { hostname: hostnames.last(), vpn }))
                }
            },
        }
    }
}

/// A failure at the first domains is the failure at all of them.
proof fn lemma_first_claim_failure(
    owners: Seq<OwnerView>,
    vpn: VpnKind,
    hostnames: Seq<Seq<char>>,
    count: int,
)
    requires
        0 <= count <= hostnames.len(),
        with_claims(owners, vpn, hostnames.take(count)) is Err,
    ensures
        with_claims(owners, vpn, hostnames) == with_claims(owners, vpn, hostnames.take(count)),
    decreases hostnames.len() - count,
{
    if count < hostnames.len() {
        assert(hostnames.take(count + 1).drop_last() =~= hostnames.take(count));
        lemma_first_claim_failure(owners, vpn, hostnames, count + 1);
    } else {
        assert(hostnames.take(count) =~= hostnames);
    }
}

/// What a list of owners, or the reasons why there is none, stands for.
pub open spec fn owners_result(result: Result<Vec<HostOwner>, Vec<String>>) -> Result<
    Seq<OwnerView>,
    Seq<Seq<char>>,
> {
    match result {
        Ok(owners) => Ok(owners.deep_view()),
        Err(reasons) => Err(reasons.deep_view()),
    }
}

/// Lets the VPN claim its domains.
fn claim_hostnames(initial: Vec<HostOwner>, vpn: VpnKind, hostnames: &Vec<String>) -> (result:
    Result<Vec<HostOwner>, Vec<String>>)
    ensures
        owners_result(result) == with_claims(initial.deep_view(), vpn, hostnames.deep_view()),
{
    let ghost start = initial.deep_view();
    let ghost names = hostnames.deep_view();
    let mut owners: Vec<HostOwner> = initial;
    for i in 0..hostnames.len()
        invariant
            start == initial.deep_view(),
            names == hostnames.deep_view(),
            with_claims(start, vpn, names.take(i as int)) == Ok::<
                Seq<OwnerView>,
                Seq<Seq<char>>,
            >(owners.deep_view()),
    {
        let ghost before = owners.deep_view();
        assert(names.take(i + 1).drop_last() =~= names.take(i as int));
        assert(names.take(i + 1).last() == hostnames@[i as int]@);
        if let Some(owner) = find_owner(&owners, hostnames[i].as_str()) {
            if owner != vpn {
                proof {
                    lemma_first_claim_failure(start, vpn, names, i + 1);
                }
                return Err(
                    one_text(domain_shared_error(hostnames[i].as_str(), owner, vpn).message),
                );
            }
        }
        owners.push(HostOwner { hostname: hostnames[i].clone(), vpn });
        assert(owners.deep_view() =~= before.push(OwnerView { hostname: names[i as int], vpn }));
    }
    assert(names.take(hostnames.len() as int) =~= names);
    Ok(owners)
}

/// What the profiles that have been read so far bring to the plan.
#[verifier::ext_equal]
pub ghost struct RawsView {
    pub owners: Seq<OwnerView>,
    pub raws: Seq<RawView>,
}

/// The domains of a profile cannot be read.
pub open spec fn bad_dns_targets(vpn: VpnKind, reason: Seq<char>) -> Seq<char> {
    vpn.text() + " 的 DNS 目標無效："@ + reason
}

/// One more enabled profile.
pub open spec fn with_raw(
    before: RawsView,
    all: Seq<VpnProfile>,
    profile: VpnProfile,
    adapters: Seq<AdapterView>,
) -> Result<RawsView, Seq<Seq<char>>> {
    match selection(all, profile.vpn, adapters) {
        Err(reasons) => Err(reasons),
        Ok(adapter) => match domains_among(entries_of(profile.networks@)) {
            Err(reason) => Err(seq![bad_dns_targets(profile.vpn, reason)]),
            Ok(hostnames) => match with_claims(before.owners, profile.vpn, hostnames) {
                Err(reasons) => Err(reasons),
                Ok(owners) => Ok(
                    RawsView {
                        owners,
                        raws: before.raws.push(
                            RawView {
                                vpn: profile.vpn,
                                adapter,
                                hostnames,
                                reported: address_set(distinct_addresses(adapter.dns_servers)),
                            },
                        ),
                    },
                ),
            },
        },
    }
}

/// What the enabled ones among the first profiles bring to the plan.
pub open spec fn raws_of(
    all: Seq<VpnProfile>,
    profiles: Seq<VpnProfile>,
    adapters: Seq<AdapterView>,
) -> Result<RawsView, Seq<Seq<char>>>
    decreases profiles.len(),
{
    if profiles.len() == 0 {
        Ok(RawsView { owners: Seq::empty(), raws: Seq::empty() })
    } else {
        match raws_of(all, profiles.drop_last(), adapters) {
            Err(reasons) => Err(reasons),
            Ok(before) => if profiles.last().enabled {
                with_raw(before, all, profiles.last(), adapters)
            } else {
                Ok(before)
            },
        }
    }
}

/// A failure at the first profiles is the failure at all of them.
proof fn lemma_first_raw_failure(
    all: Seq<VpnProfile>,
    profiles: Seq<VpnProfile>,
    adapters: Seq<AdapterView>,
    count: int,
)
    requires
        0 <= count <= profiles.len(),
        raws_of(all, profiles.take(count), adapters) is Err,
    ensures
        raws_of(all, profiles, adapters) == raws_of(all, profiles.take(count), adapters),
    decreases profiles.len() - count,
{
    if count < profiles.len() {
        assert(profiles.take(count + 1).drop_last() =~= profiles.take(count));
        lemma_first_raw_failure(all, profiles, adapters, count + 1);
    } else {
        assert(profiles.take(count) =~= profiles);
    }
}

/// What the enabled profiles bring to the plan, as plain values.
pub struct RawProfiles<'a> {
    pub owners: Vec<HostOwner>,
    pub raws: Vec<RawProfile<'a>>,
}

impl<'a> DeepView for RawProfiles<'a> {
    type V = RawsView;

    open spec fn deep_view(&self) -> RawsView {
        RawsView { owners: self.owners.deep_view(), raws: self.raws.deep_view() }
    }
}

/// What the profiles bring to the plan, or the reasons why they bring nothing, stands
/// for.
pub open spec fn raws_result(result: Result<RawProfiles, Vec<String>>) -> Result<
    RawsView,
    Seq<Seq<char>>,
> {
    match result {
        Ok(raws) => Ok(raws.deep_view()),
        Err(reasons) => Err(reasons.deep_view()),
    }
}

/// Reads one more enabled profile.
fn add_raw<'a>(
    initial: RawProfiles<'a>,
    config: &SplitterConfig,
    profile: &VpnProfile,
    adapters: &'a [NetworkAdapter],
) -> (result: Result<RawProfiles<'a>, Vec<String>>)
    requires
        profile_of(config.profiles@, profile.vpn) is Some,
    ensures
        raws_result(result) == with_raw(
            initial.deep_view(),
            config.profiles@,
            *profile,
            adapters.deep_view(),
        ),
{
    let vpn: VpnKind = profile.vpn;
    let adapter: &'a NetworkAdapter = match selected_adapter_for_profile(config, vpn, adapters) {
        Ok(adapter) => adapter,
        Err(reasons) => {
            return Err(reasons);
        },
    };
    let hostnames: Vec<String> = match configured_dns_hostnames(profile) {
        Ok(hostnames) => hostnames,
        Err(reason) => {
            let mut message: String = vpn.name().to_owned();
            message.append(" 的 DNS 目標無效：");
            message.append(reason.as_str());
            return Err(one_text(message));
        },
    };
    let RawProfiles { owners: claimed, raws: earlier } = initial;
    let mut raws: Vec<RawProfile<'a>> = earlier;
    let ghost before = raws.deep_view();
    match claim_hostnames(claimed, vpn, &hostnames) {
        Ok(owners) => {
            let reported: Vec<u32> = sorted_addresses(
                &normalized_ipv4_addresses(&adapter.dns_servers),
            );
            let raw: RawProfile<'a> = RawProfile { vpn, adapter, hostnames, reported };
            let ghost added = raw.deep_view();
            raws.push(raw);
            assert(raws.deep_view() =~= before.push(added));
            Ok(RawProfiles { owners, raws })
        },
        Err(reasons) => Err(reasons),
    }
}

/// What the enabled profiles bring to the plan.
pub fn read_raw_profiles<'a>(config: &SplitterConfig, adapters: &'a [NetworkAdapter]) -> (result:
    Result<RawProfiles<'a>, Vec<String>>)
    ensures
        raws_result(result) == raws_of(
            config.profiles@,
            config.profiles@,
            adapters.deep_view(),
        ),
{
    let ghost profiles = config.profiles@;
    let mut raws: RawProfiles<'a> = RawProfiles { owners: Vec::new(), raws: Vec::new() };
    assert(raws.deep_view() =~= RawsView { owners: Seq::empty(), raws: Seq::empty() });
    for i in 0..config.profiles.len()
        invariant
            profiles == config.profiles@,
            raws_of(profiles, profiles.take(i as int), adapters.deep_view()) == Ok::<
                RawsView,
                Seq<Seq<char>>,
            >(raws.deep_view()),
    {
        assert(profiles.take(i + 1).drop_last() =~= profiles.take(i as int));
        if config.profiles[i].enabled {
            proof {
                lemma_profile_index(profiles, profiles[i as int].vpn);
            }
            match add_raw(raws, config, &config.profiles[i], adapters) {
                Ok(next) => {
                    raws = next;
                },
                Err(reasons) => {
                    proof {
                        lemma_first_raw_failure(
                            profiles,
                            profiles,
                            adapters.deep_view(),
                            i + 1,
                        );
                    }
                    return Err(reasons);
                },
            }
        }
    }
    assert(profiles.take(config.profiles.len() as int) =~= profiles);
    Ok(raws)
}

/// A name server, and the VPN that it belongs to.
#[derive(Debug, Clone, Copy, PartialEq, Eq, Structural)]
pub struct ServerOwner {
    pub server: u32,
    pub vpn: VpnKind,
}

/// The VPN that the name server was given to first.
pub open spec fn server_owner(owners: Seq<ServerOwner>, server: u32) -> Option<VpnKind>
    decreases owners.len(),
{
    if owners.len() == 0 {
        None
    } else {
        match server_owner(owners.drop_last(), server) {
            Some(vpn) => Some(vpn),
            None => if owners.last().server == server {
                Some(owners.last().vpn)
            } else {
                None
            },
        }
    }
}

/// Two VPNs report the same name server.
pub open spec fn server_claimed_twice(owner: VpnKind, vpn: VpnKind, server: u32) -> Seq<char> {
    owner.text() + " 與 "@ + vpn.text() + " 的網路介面都宣告 DNS server "@ + address_text(server)
        + "；Windows 無法把同一目的 IP 同時固定到兩條 VPN，已停止套用以避免 DNS 串線。"@
}

/// The owners of the name servers after the VPN has claimed its own; a server of
/// another VPN cannot be claimed.
pub open spec fn with_server_claims(
    owners: Seq<ServerOwner>,
    vpn: VpnKind,
    servers: Seq<u32>,
) -> Result<Seq<ServerOwner>, Seq<Seq<char>>>
    decreases servers.len(),
{
    if servers.len() == 0 {
        Ok(owners)
    } else {
        match with_server_claims(owners, vpn, servers.drop_last()) {
            Err(reasons) => Err(reasons),
            Ok(before) => {
                let owner = server_owner(before, servers.last());
                if owner is Some && owner != Some(vpn) {
                    Err(seq![server_claimed_twice(owner->0, vpn, servers.last())])
                } else {
                    Ok(before.push(ServerOwner { server: servers.last(), vpn }))
                }
            },
        }
    }
}

/// A failure at the first servers is the failure at all of them.
proof fn lemma_first_server_claim_failure(
    owners: Seq<ServerOwner>,
    vpn: VpnKind,
    servers: Seq<u32>,
    count: int,
)
    requires
        0 <= count <= servers.len(),
        with_server_claims(owners, vpn, servers.take(count)) is Err,
    ensures
        with_server_claims(owners, vpn, servers) == with_server_claims(
            owners,
            vpn,
            servers.take(count),
        ),
    decreases servers.len() - count,
{
    if count < servers.len() {
        assert(servers.take(count + 1).drop_last() =~= servers.take(count));
        lemma_first_server_claim_failure(owners, vpn, servers, count + 1);
    } else {
        assert(servers.take(count) =~= servers);
    }
}

/// The VPN that the name server was given to first.
fn find_server_owner(owners: &Vec<ServerOwner>, server: u32) -> (vpn: Option<VpnKind>)
    ensures
        vpn == server_owner(owners@, server),
{
    let mut found: Option<VpnKind> = None;
    for i in 0..owners.len()
        invariant
            found == server_owner(owners@.take(i as int), server),
    {
        assert(owners@.take(i + 1).drop_last() =~= owners@.take(i as int));
        if found.is_none() && owners[i].server == server {
            found = Some(owners[i].vpn);
        }
    }
    assert(owners@.take(owners.len() as int) =~= owners@);
    found
}

/// What the owners of name servers, or the reasons why there are none, stand for.
pub open spec fn server_owners_result(result: Result<Vec<ServerOwner>, Vec<String>>) -> Result<
    Seq<ServerOwner>,
    Seq<Seq<char>>,
> {
    match result {
        Ok(owners) => Ok(owners@),
        Err(reasons) => Err(reasons.deep_view()),
    }
}

/// Lets the VPN claim its name servers.
fn claim_servers(initial: Vec<ServerOwner>, vpn: VpnKind, servers: &Vec<u32>) -> (result: Result<
    Vec<ServerOwner>,
    Vec<String>,
>)
    ensures
        server_owners_result(result) == with_server_claims(initial@, vpn, servers@),
{
    let ghost start = initial@;
    let mut owners: Vec<ServerOwner> = initial;
    for i in 0..servers.len()
        invariant
            start == initial@,
            with_server_claims(start, vpn, servers@.take(i as int)) == Ok::<
                Seq<ServerOwner>,
                Seq<Seq<char>>,
            >(owners@),
    {
        assert(servers@.take(i + 1).drop_last() =~= servers@.take(i as int));
        assert(servers@.take(i + 1).last() == servers@[i as int]);
        if let Some(owner) = find_server_owner(&owners, servers[i]) {
            if owner != vpn {
                proof {
                    lemma_first_server_claim_failure(start, vpn, servers@, i + 1);
                }
                let server_name: String = address_to_text(servers[i]);
                let mut message: String = owner.name().to_owned();
                message.append(" 與 ");
                message.append(vpn.name());
                message.append(" 的網路介面都宣告 DNS server ");
                message.append(server_name.as_str());
                message.append(
                    "；Windows 無法把同一目的 IP 同時固定到兩條 VPN，已停止套用以避免 DNS 串線。",
                );
                return Err(one_text(message));
            }
        }
        owners.push(ServerOwner { server: servers[i], vpn });
    }
    assert(servers@.take(servers.len() as int) =~= servers@);
    Ok(owners)
}

/// The plan as far as it has been made.
#[verifier::ext_equal]
pub ghost struct PlanStateView {
    pub plan: DnsPlanView,
    pub owners: Seq<ServerOwner>,
    pub removals: Seq<u32>,
}

/// The plan as far as it has been made, as plain values.
pub struct PlanState {
    pub plan: DnsPlan,
    pub owners: Vec<ServerOwner>,
    pub removals: Vec<u32>,
}

impl DeepView for PlanState {
    type V = PlanStateView;

    open spec fn deep_view(&self) -> PlanStateView {
        PlanStateView {
            plan: self.plan.deep_view(),
            owners: self.owners@,
            removals: self.removals@,
        }
    }
}

/// A VPN for everything else reports some of the profile's name servers as its own
/// besides others: then those are the profile's.
pub open spec fn servers_move(raw: RawView, by_vpn: bool, general: Seq<u32>) -> bool {
    by_vpn && all_within(raw.reported, general) && raw.reported != general
}

/// The name servers that are the profile's own.
pub open spec fn own_servers(raw: RawView, by_vpn: bool, general: Seq<u32>) -> Seq<u32> {
    if servers_move(raw, by_vpn, general) {
        raw.reported
    } else {
        raw.reported.filter(not_among(general))
    }
}

/// The profile and the path for everything else report the same name servers.
pub open spec fn servers_indistinguishable(vpn: VpnKind, fallback: FallbackView) -> Seq<char> {
    vpn.text() + " 與 "@ + fallback.label()
        + " 回報相同、無法分辨歸屬的 IPv4 DNS server；為避免未指定名稱誤用已啟用分流 VPN 的 DNS，已停止套用。"@
}

/// The profile names domains, but no name server is its own.
pub open spec fn no_own_server(vpn: VpnKind, description: Seq<char>) -> Seq<char> {
    vpn.text() + " 的介面「"@ + description
        + "」沒有可與未指定流量路徑分離的 IPv4 DNS server；為避免 DNS 串線，已停止套用。"@
}

/// One more profile. `general` are the name servers for everything else, in increasing
/// order.
pub open spec fn with_planned(
    before: PlanStateView,
    raw: RawView,
    fallback: FallbackView,
    general: Seq<u32>,
) -> Result<PlanStateView, Seq<Seq<char>>> {
    let by_vpn = fallback is Vpn;
    let servers = own_servers(raw, by_vpn, general);
    if by_vpn && raw.reported.len() > 0 && raw.reported == general {
        Err(seq![servers_indistinguishable(raw.vpn, fallback)])
    } else if raw.hostnames.len() > 0 && servers.len() == 0 {
        Err(seq![no_own_server(raw.vpn, raw.adapter.description)])
    } else {
        match with_server_claims(before.owners, raw.vpn, servers) {
            Err(reasons) => Err(reasons),
            Ok(owners) => Ok(
                PlanStateView {
                    owners,
                    removals: if servers_move(raw, by_vpn, general) {
                        before.removals + raw.reported
                    } else {
                        before.removals
                    },
                    plan: if raw.hostnames.len() > 0 {
                        before.plan.with(
                            ProfilePlanView {
                                vpn: raw.vpn,
                                adapter_index: raw.adapter.index,
                                next_hop: raw.adapter.next_hop,
                                hostnames: raw.hostnames,
                                servers,
                            },
                        )
                    } else {
                        before.plan
                    },
                },
            ),
        }
    }
}

/// The plan for the profiles, one after the other.
pub open spec fn planned(raws: Seq<RawView>, fallback: FallbackView, general: Seq<u32>) -> Result<
    PlanStateView,
    Seq<Seq<char>>,
>
    decreases raws.len(),
{
    if raws.len() == 0 {
        Ok(
            PlanStateView {
                plan: DnsPlanView::none(),
                owners: Seq::empty(),
                removals: Seq::empty(),
            },
        )
    } else {
        match planned(raws.drop_last(), fallback, general) {
            Err(reasons) => Err(reasons),
            Ok(before) => with_planned(before, raws.last(), fallback, general),
        }
    }
}

/// A failure at the first profiles is the failure at all of them.
proof fn lemma_first_plan_failure(
    raws: Seq<RawView>,
    fallback: FallbackView,
    general: Seq<u32>,
    count: int,
)
    requires
        0 <= count <= raws.len(),
        planned(raws.take(count), fallback, general) is Err,
    ensures
        planned(raws, fallback, general) == planned(raws.take(count), fallback, general),
    decreases raws.len() - count,
{
    if count < raws.len() {
        assert(raws.take(count + 1).drop_last() =~= raws.take(count));
        lemma_first_plan_failure(raws, fallback, general, count + 1);
    } else {
        assert(raws.take(count) =~= raws);
    }
}

/// What a plan in the making, or the reasons why there is none, stands for.
pub open spec fn plan_state_result(result: Result<PlanState, Vec<String>>) -> Result<
    PlanStateView,
    Seq<Seq<char>>,
> {
    match result {
        Ok(state) => Ok(state.deep_view()),
        Err(reasons) => Err(reasons.deep_view()),
    }
}

/// Plans for one more profile.
fn plan_profile(
    initial: PlanState,
    raw: &RawProfile<'_>,
    fallback: InternetFallback<'_>,
    general: &Vec<u32>,
) -> (result: Result<PlanState, Vec<String>>)
    ensures
        plan_state_result(result) == with_planned(
            initial.deep_view(),
            raw.deep_view(),
            fallback.deep_view(),
            general@,
        ),
{
    let by_vpn: bool = fallback.is_vpn();
    let same: bool = same_addresses(&raw.reported, general);
    if by_vpn && raw.reported.len() > 0 && same {
        let label: String = fallback.label();
        let mut message: String = raw.vpn.name().to_owned();
        message.append(" 與 ");
        message.append(label.as_str());
        message.append(
            " 回報相同、無法分辨歸屬的 IPv4 DNS server；為避免未指定名稱誤用已啟用分流 VPN 的 DNS，已停止套用。",
        );
        return Err(one_text(message));
    }
    let moved: bool = by_vpn && are_all_within(&raw.reported, general) && !same;
    let servers: Vec<u32> = if moved {
        raw.reported.clone()
    } else {
        addresses_without(&raw.reported, general)
    };
    if raw.hostnames.len() > 0 && servers.len() == 0 {
        let mut message: String = raw.vpn.name().to_owned();
        message.append(" 的介面「");
        message.append(raw.adapter.description.as_str());
        message.append(
            "」沒有可與未指定流量路徑分離的 IPv4 DNS server；為避免 DNS 串線，已停止套用。",
        );
        return Err(one_text(message));
    }
    let PlanState { plan: earlier, owners: claimed, removals: removed } = initial;
    let owners: Vec<ServerOwner> = match claim_servers(claimed, raw.vpn, &servers) {
        Ok(owners) => owners,
        Err(reasons) => {
            return Err(reasons);
        },
    };
    let mut removals: Vec<u32> = removed;
    if moved {
        let ghost before = removals@;
        for i in 0..raw.reported.len()
            invariant
                removals@ == before + raw.reported@.take(i as int),
        {
            removals.push(raw.reported[i]);
            assert(removals@ =~= before + raw.reported@.take(i + 1));
        }
        assert(raw.reported@.take(raw.reported.len() as int) =~= raw.reported@);
    }
    let mut plan: DnsPlan = earlier;
    if raw.hostnames.len() > 0 {
        plan.set(
            ProfileDnsPlan {
                vpn: raw.vpn,
                adapter_index: raw.adapter.index,
                next_hop: raw.adapter.next_hop.clone(),
                hostnames: clone_texts(&raw.hostnames),
                servers,
            },
        );
    }
    Ok(PlanState { plan, owners, removals })
}

/// The plan for the whole configuration. Nothing is planned where the rules for names
/// are not managed.
pub open spec fn dns_plan(
    profiles: Seq<VpnProfile>,
    adapters: Seq<AdapterView>,
    fallback: Option<FallbackView>,
    manage: bool,
) -> Result<DnsPlanView, Seq<Seq<char>>> {
    if !manage {
        Ok(DnsPlanView::none())
    } else {
        match fallback {
            None => Err(seq!["找不到可接手未指定名稱的原生 VPN 或一般網路，已停止套用。"@]),
            Some(path) => match fallback_servers(path, adapters) {
                Err(reasons) => Err(reasons),
                Ok(servers) => match raws_of(profiles, profiles, adapters) {
                    Err(reasons) => Err(reasons),
                    Ok(raws) => match planned(raws.raws, path, address_set(servers)) {
                        Err(reasons) => Err(reasons),
                        Ok(state) => {
                            let general = servers.filter(not_among(state.removals));
                            if general.len() == 0 {
                                Err(
                                    seq![
                                        "接手未指定流量的網路介面只回報了啟用中 VPN 的 DNS server；無法安全分辨 DNS 歸屬，已停止套用。"@,
                                    ],
                                )
                            } else {
                                Ok(DnsPlanView { fallback_servers: general, ..state.plan })
                            }
                        },
                    },
                },
            },
        }
    }
}

/// What a plan, or the reasons why there is none, stands for.
pub open spec fn plan_result(result: Result<DnsPlan, Vec<String>>) -> Result<
    DnsPlanView,
    Seq<Seq<char>>,
> {
    match result {
        Ok(plan) => Ok(plan.deep_view()),
        Err(reasons) => Err(reasons.deep_view()),
    }
}

impl DnsPlan {
    /// Plans for profiles that have been read.
    fn plan_profiles(
        raws: &Vec<RawProfile<'_>>,
        fallback: InternetFallback<'_>,
        general: &Vec<u32>,
    ) -> (result: Result<PlanState, Vec<String>>)
        ensures
            plan_state_result(result) == planned(
                raws.deep_view(),
                fallback.deep_view(),
                general@,
            ),
    {
        let ghost views = raws.deep_view();
        let mut state: PlanState = PlanState {
            plan: DnsPlan::new(),
            owners: Vec::new(),
            removals: Vec::new(),
        };
        assert(state.deep_view() =~= planned(
            views.take(0),
            fallback.deep_view(),
            general@,
        )->Ok_0);
        for i in 0..raws.len()
            invariant
                views == raws.deep_view(),
                planned(views.take(i as int), fallback.deep_view(), general@) == Ok::<
                    PlanStateView,
                    Seq<Seq<char>>,
                >(state.deep_view()),
        {
            assert(views.take(i + 1).drop_last() =~= views.take(i as int));
            assert(views.take(i + 1).last() == raws@[i as int].deep_view());
            match plan_profile(state, &raws[i], fallback, general) {
                Ok(next) => {
                    state = next;
                },
                Err(reasons) => {
                    proof {
                        lemma_first_plan_failure(
                            views,
                            fallback.deep_view(),
                            general@,
                            i + 1,
                        );
                    }
                    return Err(reasons);
                },
            }
        }
        assert(views.take(raws.len() as int) =~= views);
        Ok(state)
    }

    /// Plans for the whole configuration.
    pub fn build(
        config: &SplitterConfig,
        adapters: &[NetworkAdapter],
        fallback: Option<InternetFallback<'_>>,
        manage_dns: bool,
    ) -> (result: Result<DnsPlan, Vec<String>>)
        ensures
            plan_result(result) == dns_plan(
                config.profiles@,
                adapters.deep_view(),
                fallback_view(fallback),
                manage_dns,
            ),
    {
        if !manage_dns {
            return Ok(DnsPlan::new());
        }
        let path: InternetFallback<'_> = match fallback {
            Some(path) => path,
            None => {
                return Err(
                    one_text(
                        "找不到可接手未指定名稱的原生 VPN 或一般網路，已停止套用。".to_owned(),
                    ),
                );
            },
        };
        let servers: Vec<u32> = match fallback_dns_servers(path, adapters) {
            Ok(servers) => servers,
            Err(reasons) => {
                return Err(reasons);
            },
        };
        let raws: RawProfiles<'_> = match read_raw_profiles(config, adapters) {
            Ok(raws) => raws,
            Err(reasons) => {
                return Err(reasons);
            },
        };
        let general: Vec<u32> = sorted_addresses(&servers);
        let state: PlanState = match DnsPlan::plan_profiles(&raws.raws, path, &general) {
            Ok(state) => state,
            Err(reasons) => {
                return Err(reasons);
            },
        };
        let kept: Vec<u32> = addresses_without(&servers, &state.removals);
        if kept.len() == 0 {
            return Err(
                one_text(
                    "接手未指定流量的網路介面只回報了啟用中 VPN 的 DNS server；無法安全分辨 DNS 歸屬，已停止套用。".to_owned(),
                ),
            );
        }
        let mut plan: DnsPlan = state.plan;
        plan.fallback_servers = kept;
        Ok(plan)
    }
}

/// The routes to the name servers of one VPN.
pub open spec fn server_routes(profile: ProfilePlanView) -> Seq<RouteView> {
    Seq::new(
        profile.servers.len(),
        |i: int|
            server_route(
                profile.vpn,
                profile.servers[i],
                profile.adapter_index,
                profile.next_hop,
            ),
    )
}

/// The routes to the name servers of several VPNs.
pub open spec fn all_server_routes(profiles: Seq<ProfilePlanView>) -> Seq<RouteView>
    decreases profiles.len(),
{
    if profiles.len() == 0 {
        Seq::empty()
    } else {
        all_server_routes(profiles.drop_last()) + server_routes(profiles.last())
    }
}

impl DnsPlan {
    /// The routes to the name servers of all VPNs.
    pub fn bootstrap_routes(&self) -> (routes: Vec<ManagedRoute>)
        ensures
            routes.deep_view() == all_server_routes(self.deep_view().values()),
    {
        let profiles: Vec<&ProfileDnsPlan> = self.values();
        let ghost views = profiles.deep_view();
        let mut routes: Vec<ManagedRoute> = Vec::new();
        assert(routes.deep_view() =~= all_server_routes(views.take(0)));
        for i in 0..profiles.len()
            invariant
                views == profiles.deep_view(),
                routes.deep_view() == all_server_routes(views.take(i as int)),
        {
            assert(views.take(i + 1).drop_last() =~= views.take(i as int));
            assert(views.take(i + 1).last() == profiles@[i as int].deep_view());
            let profile: &ProfileDnsPlan = profiles[i];
            let ghost before = routes.deep_view();
            let ghost added = server_routes(profile.deep_view());
            assert(before =~= before + added.take(0));
            for j in 0..profile.servers.len()
                invariant
                    added == server_routes(profile.deep_view()),
                    routes.deep_view() == before + added.take(j as int),
            {
                let ghost now = routes.deep_view();
                let route: ManagedRoute = make_server_route(
                    profile.vpn,
                    profile.servers[j],
                    profile.adapter_index,
                    &profile.next_hop,
                );
                routes.push(route);
                assert(routes.deep_view() =~= now.push(added[j as int]));
                assert(routes.deep_view() =~= before + added.take(j + 1));
            }
            assert(added.take(profile.servers.len() as int) =~= added);
        }
        assert(views.take(profiles.len() as int) =~= views);
        routes
    }
}

/// Inserting adds the address to those of the list.
pub proof fn lemma_insert_address(list: Seq<u32>, address: u32)
    ensures
        forall|other: u32|
            #![trigger insert_address(list, address).contains(other)]
            #![trigger list.contains(other)]
            insert_address(list, address).contains(other) <==> list.contains(other) || other
                == address,
    decreases list.len(),
{
    let result = insert_address(list, address);
    if list.len() == 0 {
        assert(result[0] == address);
    } else if address == list[0] {
    } else if address < list[0] {
        assert(result[0] == address);
        assert forall|other: u32|
            #![trigger result.contains(other)]
            #![trigger list.contains(other)]
            result.contains(other) <==> list.contains(other) || other == address by {
            if list.contains(other) {
                let i = choose|i: int| 0 <= i < list.len() && list[i] == other;
                assert(result[i + 1] == other);
            }
        }
    } else {
        let rest = list.skip(1);
        let inserted = insert_address(rest, address);
        lemma_insert_address(rest, address);
        assert(result[0] == list[0]);
        assert forall|other: u32|
            #![trigger result.contains(other)]
            #![trigger list.contains(other)]
            result.contains(other) <==> list.contains(other) || other == address by {
            if list.contains(other) {
                let i = choose|i: int| 0 <= i < list.len() && list[i] == other;
                if i > 0 {
                    assert(rest[i - 1] == other);
                    assert(rest.contains(other));
                    assert(inserted.contains(other));
                } else {
                    assert(result[0] == other);
                }
            }
            if other == address {
                assert(inserted.contains(other));
            }
            if inserted.contains(other) {
                let i = choose|i: int| 0 <= i < inserted.len() && inserted[i] == other;
                assert(result[i + 1] == other);
            }
            if result.contains(other) {
                let i = choose|i: int| 0 <= i < result.len() && result[i] == other;
                if i > 0 {
                    assert(inserted[i - 1] == other);
                    assert(inserted.contains(other));
                    if other != address {
                        assert(rest.contains(other));
                        let k = choose|k: int| 0 <= k < rest.len() && rest[k] == other;
                        assert(list[k + 1] == other);
                    }
                }
            }
        }
    }
}

/// Ordering addresses keeps them.
pub proof fn lemma_address_set(addresses: Seq<u32>)
    ensures
        forall|address: u32|
            #![trigger address_set(addresses).contains(address)]
            #![trigger addresses.contains(address)]
            address_set(addresses).contains(address) <==> addresses.contains(address),
    decreases addresses.len(),
{
    if addresses.len() > 0 {
        let before = addresses.drop_last();
        lemma_address_set(before);
        lemma_insert_address(address_set(before), addresses.last());
        assert forall|address: u32|
            #![trigger address_set(addresses).contains(address)]
            #![trigger addresses.contains(address)]
            address_set(addresses).contains(address) <==> addresses.contains(address) by {
            if addresses.contains(address) {
                let i = choose|i: int| 0 <= i < addresses.len() && addresses[i] == address;
                if i < before.len() {
                    assert(before[i] == address);
                    assert(before.contains(address));
                }
            }
            if before.contains(address) {
                let i = choose|i: int| 0 <= i < before.len() && before[i] == address;
                assert(addresses[i] == address);
            }
            assert(addresses[addresses.len() - 1] == addresses.last());
            assert(address_set(before).contains(address) <==> before.contains(address));
        }
    }
}

/// A domain keeps its owner while a VPN claims more, and the claimed ones are its own.
pub proof fn lemma_claims(owners: Seq<OwnerView>, vpn: VpnKind, hostnames: Seq<Seq<char>>)
    requires
        with_claims(owners, vpn, hostnames) is Ok,
    ensures
        forall|name: Seq<char>|
            owner_of(owners, name) is Some ==> #[trigger] owner_of(
                with_claims(owners, vpn, hostnames)->Ok_0,
                name,
            ) == owner_of(owners, name),
        forall|i: int|
            0 <= i < hostnames.len() ==> owner_of(
                with_claims(owners, vpn, hostnames)->Ok_0,
                #[trigger] hostnames[i],
            ) == Some(vpn),
    decreases hostnames.len(),
{
    if hostnames.len() > 0 {
        let before = hostnames.drop_last();
        lemma_claims(owners, vpn, before);
        let some = with_claims(owners, vpn, before)->Ok_0;
        let all = with_claims(owners, vpn, hostnames)->Ok_0;
        assert(all.drop_last() =~= some);
        assert forall|name: Seq<char>| owner_of(owners, name) is Some implies #[trigger] owner_of(
            all,
            name,
        ) == owner_of(owners, name) by {
            assert(owner_of(some, name) == owner_of(owners, name));
        }
        assert forall|i: int| 0 <= i < hostnames.len() implies owner_of(
            all,
            #[trigger] hostnames[i],
        ) == Some(vpn) by {
            if i < before.len() {
                assert(hostnames[i] == before[i]);
            }
        }
    }
}

/// Every profile that was read owns its domains.
pub proof fn lemma_raws_own_domains(
    all: Seq<VpnProfile>,
    profiles: Seq<VpnProfile>,
    adapters: Seq<AdapterView>,
)
    requires
        raws_of(all, profiles, adapters) is Ok,
    ensures
        ({
            let read = raws_of(all, profiles, adapters)->Ok_0;
            forall|r: int, i: int|
                0 <= r < read.raws.len() && 0 <= i < read.raws[r].hostnames.len() ==> owner_of(
                    read.owners,
                    #[trigger] read.raws[r].hostnames[i],
                ) == Some(read.raws[r].vpn)
        }),
    decreases profiles.len(),
{
    if profiles.len() > 0 {
        let before = profiles.drop_last();
        lemma_raws_own_domains(all, before, adapters);
        if profiles.last().enabled {
            let some = raws_of(all, before, adapters)->Ok_0;
            let read = raws_of(all, profiles, adapters)->Ok_0;
            let vpn = profiles.last().vpn;
            let hostnames = domains_among(entries_of(profiles.last().networks@))->Ok_0;
            lemma_claims(some.owners, vpn, hostnames);
            assert forall|r: int, i: int|
                0 <= r < read.raws.len() && 0 <= i < read.raws[r].hostnames.len() implies owner_of(
                read.owners,
                #[trigger] read.raws[r].hostnames[i],
            ) == Some(read.raws[r].vpn) by {
                if r < some.raws.len() {
                    assert(read.raws[r] == some.raws[r]);
                    assert(owner_of(some.owners, some.raws[r].hostnames[i]) == Some(
                        some.raws[r].vpn,
                    ));
                }
            }
        }
    }
}

/// A name server keeps its owner while a VPN claims more, and the claimed ones are its
/// own.
pub proof fn lemma_server_claims(owners: Seq<ServerOwner>, vpn: VpnKind, servers: Seq<u32>)
    requires
        with_server_claims(owners, vpn, servers) is Ok,
    ensures
        forall|server: u32|
            server_owner(owners, server) is Some ==> #[trigger] server_owner(
                with_server_claims(owners, vpn, servers)->Ok_0,
                server,
            ) == server_owner(owners, server),
        forall|i: int|
            0 <= i < servers.len() ==> server_owner(
                with_server_claims(owners, vpn, servers)->Ok_0,
                #[trigger] servers[i],
            ) == Some(vpn),
    decreases servers.len(),
{
    if servers.len() > 0 {
        let before = servers.drop_last();
        lemma_server_claims(owners, vpn, before);
        let some = with_server_claims(owners, vpn, before)->Ok_0;
        let all = with_server_claims(owners, vpn, servers)->Ok_0;
        assert(all.drop_last() =~= some);
        assert forall|server: u32| server_owner(
            owners,
            server,
        ) is Some implies #[trigger] server_owner(all, server) == server_owner(owners, server) by {
            assert(server_owner(some, server) == server_owner(owners, server));
        }
        assert forall|i: int| 0 <= i < servers.len() implies server_owner(
            all,
            #[trigger] servers[i],
        ) == Some(vpn) by {
            if i < before.len() {
                assert(servers[i] == before[i]);
            }
        }
    }
}

/// The plan for a VPN comes from a profile of that VPN, names domains, has name servers,
/// owns them, and has none that stays among those for everything else.
pub open spec fn sound_plan(
    raws: Seq<RawView>,
    state: PlanStateView,
    general: Seq<u32>,
    vpn: VpnKind,
) -> bool {
    state.plan.get(vpn) matches Some(profile) ==> {
        &&& profile.vpn == vpn
        &&& profile.hostnames.len() > 0
        &&& profile.servers.len() > 0
        &&& exists|r: int|
            0 <= r < raws.len() && (#[trigger] raws[r]).vpn == vpn && raws[r].hostnames
                == profile.hostnames
        &&& forall|i: int|
            0 <= i < profile.servers.len() ==> {
                &&& server_owner(state.owners, #[trigger] profile.servers[i]) == Some(vpn)
                &&& !general.contains(profile.servers[i]) || state.removals.contains(
                    profile.servers[i],
                )
            }
    }
}

/// Every plan that is made is sound.
proof fn lemma_plans_are_sound(
    raws: Seq<RawView>,
    fallback: FallbackView,
    general: Seq<u32>,
    vpn: VpnKind,
)
    requires
        planned(raws, fallback, general) is Ok,
    ensures
        sound_plan(raws, planned(raws, fallback, general)->Ok_0, general, vpn),
    decreases raws.len(),
{
    if raws.len() > 0 {
        let before = raws.drop_last();
        let raw = raws.last();
        lemma_plans_are_sound(before, fallback, general, vpn);
        let some = planned(before, fallback, general)->Ok_0;
        let all = planned(raws, fallback, general)->Ok_0;
        let servers = own_servers(raw, fallback is Vpn, general);
        lemma_server_claims(some.owners, raw.vpn, servers);
        assert(raws[raws.len() - 1] == raw);
        if let Some(profile) = all.plan.get(vpn) {
            if raw.hostnames.len() > 0 && raw.vpn == vpn {
                assert(profile.servers == servers);
                crate::lists::lemma_filter_members(raw.reported, not_among(general));
                assert forall|i: int| 0 <= i < profile.servers.len() implies {
                    &&& server_owner(all.owners, #[trigger] profile.servers[i]) == Some(vpn)
                    &&& !general.contains(profile.servers[i]) || all.removals.contains(
                        profile.servers[i],
                    )
                } by {
                    assert(servers.contains(servers[i]));
                    if servers_move(raw, fallback is Vpn, general) {
                        assert(all.removals[some.removals.len() + i] == profile.servers[i]);
                    } else {
                        assert(not_among(general)(servers[i]));
                    }
                }
            } else {
                assert(some.plan.get(vpn) == Some(profile));
                let r = choose|r: int|
                    0 <= r < before.len() && (#[trigger] before[r]).vpn == vpn
                        && before[r].hostnames == profile.hostnames;
                assert(raws[r] == before[r]);
                assert forall|i: int| 0 <= i < profile.servers.len() implies {
                    &&& server_owner(all.owners, #[trigger] profile.servers[i]) == Some(vpn)
                    &&& !general.contains(profile.servers[i]) || all.removals.contains(
                        profile.servers[i],
                    )
                } by {
                    assert(server_owner(some.owners, profile.servers[i]) == Some(vpn));
                    if some.removals.contains(profile.servers[i]) {
                        let k = choose|k: int|
                            0 <= k < some.removals.len() && some.removals[k]
                                == profile.servers[i];
                        assert(all.removals[k] == profile.servers[i]);
                    }
                }
            }
        }
    }
}

/// A plan keeps the name servers apart: the one for everything else has servers, and
/// none of them answers for a VPN. Every VPN in the plan has domains and servers, and
/// two VPNs share neither a domain nor a server.
pub proof fn law_plan_keeps_name_servers_apart(
    profiles: Seq<VpnProfile>,
    adapters: Seq<AdapterView>,
    fallback: Option<FallbackView>,
    vpn: VpnKind,
    other: VpnKind,
)
    requires
        dns_plan(profiles, adapters, fallback, true) is Ok,
        vpn != other,
    ensures
        ({
            let plan = dns_plan(profiles, adapters, fallback, true)->Ok_0;
            &&& plan.fallback_servers.len() > 0
            &&& plan.get(vpn) matches Some(profile) ==> {
                &&& profile.vpn == vpn
                &&& profile.hostnames.len() > 0
                &&& profile.servers.len() > 0
                &&& forall|i: int|
                    0 <= i < profile.servers.len() ==> !plan.fallback_servers.contains(
                        #[trigger] profile.servers[i],
                    )
                &&& plan.get(other) matches Some(rival) ==> {
                    &&& forall|i: int, k: int|
                        0 <= i < profile.servers.len() && 0 <= k < rival.servers.len()
                            ==> #[trigger] profile.servers[i] != #[trigger] rival.servers[k]
                    &&& forall|i: int, k: int|
                        0 <= i < profile.hostnames.len() && 0 <= k < rival.hostnames.len()
                            ==> #[trigger] profile.hostnames[i] != #[trigger] rival.hostnames[k]
                }
            }
        }),
{
    let path = fallback->0;
    let servers = fallback_servers(path, adapters)->Ok_0;
    let general = address_set(servers);
    let read = raws_of(profiles, profiles, adapters)->Ok_0;
    let state = planned(read.raws, path, general)->Ok_0;
    let plan = dns_plan(profiles, adapters, fallback, true)->Ok_0;
    lemma_address_set(servers);
    lemma_raws_own_domains(profiles, profiles, adapters);
    lemma_plans_are_sound(read.raws, path, general, vpn);
    lemma_plans_are_sound(read.raws, path, general, other);
    crate::lists::lemma_filter_members(servers, not_among(state.removals));
    assert(plan.get(vpn) == state.plan.get(vpn));
    assert(plan.get(other) == state.plan.get(other));
    if let Some(profile) = plan.get(vpn) {
        assert forall|i: int|
            0 <= i < profile.servers.len() implies !plan.fallback_servers.contains(
            #[trigger] profile.servers[i],
        ) by {
            let server = profile.servers[i];
            if plan.fallback_servers.contains(server) {
                assert(servers.contains(server));
                assert(general.contains(server));
                assert(not_among(state.removals)(server));
            }
        }
        if let Some(rival) = plan.get(other) {
            let r = choose|r: int|
                0 <= r < read.raws.len() && (#[trigger] read.raws[r]).vpn == vpn
                    && read.raws[r].hostnames == profile.hostnames;
            let q = choose|q: int|
                0 <= q < read.raws.len() && (#[trigger] read.raws[q]).vpn == other
                    && read.raws[q].hostnames == rival.hostnames;
            assert forall|i: int, k: int|
                0 <= i < profile.hostnames.len() && 0 <= k
                    < rival.hostnames.len() implies #[trigger] profile.hostnames[i]
                != #[trigger] rival.hostnames[k] by {
                assert(owner_of(read.owners, read.raws[r].hostnames[i]) == Some(vpn));
                assert(owner_of(read.owners, read.raws[q].hostnames[k]) == Some(other));
            }
            assert forall|i: int, k: int|
                0 <= i < profile.servers.len() && 0 <= k
                    < rival.servers.len() implies #[trigger] profile.servers[i]
                != #[trigger] rival.servers[k] by {
                assert(server_owner(state.owners, profile.servers[i]) == Some(vpn));
                assert(server_owner(state.owners, rival.servers[k]) == Some(other));
            }
        }
    }
}

}
