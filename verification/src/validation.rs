//! Validation of the whole desired configuration: which networks each enabled VPN is
//! to carry, or everything that is wrong with the configuration.

use vstd::prelude::*;

use crate::domain::{
    enabled_profiles, entries_of, lemma_enabled_push, plain_names_read, read_targets, reads_plainly,
    SplitterConfig, Target, TargetEntry, TargetEntryView, TargetView, VpnKind, VpnProfile,
};
use crate::ipv4::Ipv4Net;
use crate::text::{insert_into_texts, insert_text, same_text};

verus! {

/// A VPN and the networks and domains that it is to carry.
#[derive(Debug, PartialEq, Eq)]
pub struct ValidatedProfile {
    pub vpn: VpnKind,
    pub networks: Vec<Ipv4Net>,
    pub hostnames: Vec<String>,
}

/// What a `ValidatedProfile` stands for.
#[verifier::ext_equal]
pub ghost struct ValidatedView {
    pub vpn: VpnKind,
    pub networks: Seq<Ipv4Net>,
    pub hostnames: Seq<Seq<char>>,
}

impl DeepView for ValidatedProfile {
    type V = ValidatedView;

    open spec fn deep_view(&self) -> ValidatedView {
        ValidatedView {
            vpn: self.vpn,
            networks: self.networks@,
            hostnames: self.hostnames.deep_view(),
        }
    }
}

/// Something that is wrong with a configuration, and the VPNs that it concerns.
#[derive(Debug, PartialEq, Eq)]
pub struct ValidationError {
    pub vpns: Vec<VpnKind>,
    pub message: String,
}

/// What a `ValidationError` stands for.
#[verifier::ext_equal]
pub ghost struct ErrorView {
    pub vpns: Seq<VpnKind>,
    pub message: Seq<char>,
}

impl Clone for ValidationError {
    fn clone(&self) -> (copy: Self)
        ensures
            copy.deep_view() == self.deep_view(),
    {
        ValidationError { vpns: self.vpns.clone(), message: self.message.clone() }
    }
}

impl DeepView for ValidationError {
    type V = ErrorView;

    open spec fn deep_view(&self) -> ErrorView {
        ErrorView { vpns: self.vpns@, message: self.message@ }
    }
}

/// The targets of one enabled profile.
#[derive(Debug, PartialEq, Eq)]
pub struct ProfileTargets {
    pub vpn: VpnKind,
    pub entries: Vec<TargetEntry>,
}

/// What a `ProfileTargets` stands for.
#[verifier::ext_equal]
pub ghost struct ProfileTargetsView {
    pub vpn: VpnKind,
    pub entries: Seq<TargetEntryView>,
}

impl DeepView for ProfileTargets {
    type V = ProfileTargetsView;

    open spec fn deep_view(&self) -> ProfileTargetsView {
        ProfileTargetsView { vpn: self.vpn, entries: self.entries.deep_view() }
    }
}

/// A domain, and the VPN whose name servers are to resolve it.
#[derive(Debug, PartialEq, Eq)]
pub struct HostOwner {
    pub hostname: String,
    pub vpn: VpnKind,
}

/// What a `HostOwner` stands for.
#[verifier::ext_equal]
pub ghost struct OwnerView {
    pub hostname: Seq<char>,
    pub vpn: VpnKind,
}

impl DeepView for HostOwner {
    type V = OwnerView;

    open spec fn deep_view(&self) -> OwnerView {
        OwnerView { hostname: self.hostname@, vpn: self.vpn }
    }
}

/// A network, and the entry that it came from.
#[derive(Debug, PartialEq, Eq)]
pub struct NetworkSource {
    pub vpn: VpnKind,
    pub network: Ipv4Net,
    pub token: String,
}

/// What a `NetworkSource` stands for.
#[verifier::ext_equal]
pub ghost struct SourceView {
    pub vpn: VpnKind,
    pub network: Ipv4Net,
    pub token: Seq<char>,
}

impl DeepView for NetworkSource {
    type V = SourceView;

    open spec fn deep_view(&self) -> SourceView {
        SourceView { vpn: self.vpn, network: self.network, token: self.token@ }
    }
}

/// What the name servers of a VPN answered about a domain.
#[derive(Debug, PartialEq, Eq)]
pub struct DnsAnswer {
    pub vpn: VpnKind,
    pub hostname: String,
    pub addresses: Result<Vec<u32>, String>,
}

/// What a `DnsAnswer` stands for.
#[verifier::ext_equal]
pub ghost struct AnswerView {
    pub vpn: VpnKind,
    pub hostname: Seq<char>,
    pub addresses: Result<Seq<u32>, Seq<char>>,
}

/// What a list of addresses, or the reason why there is none, stands for.
pub open spec fn addresses_view(addresses: Result<Vec<u32>, String>) -> Result<
    Seq<u32>,
    Seq<char>,
> {
    match addresses {
        Ok(list) => Ok(list@),
        Err(reason) => Err(reason@),
    }
}

impl DeepView for DnsAnswer {
    type V = AnswerView;

    open spec fn deep_view(&self) -> AnswerView {
        AnswerView {
            vpn: self.vpn,
            hostname: self.hostname@,
            addresses: addresses_view(self.addresses),
        }
    }
}

/// The targets that a profile lists.
pub open spec fn profile_targets(profile: VpnProfile) -> ProfileTargetsView {
    ProfileTargetsView { vpn: profile.vpn, entries: entries_of(profile.networks@) }
}

/// The targets of the enabled profiles.
pub open spec fn targets_of(profiles: Seq<VpnProfile>) -> Seq<ProfileTargetsView> {
    enabled_profiles(profiles).map_values(|profile: VpnProfile| profile_targets(profile))
}

/// The VPN that the domain was given to first.
pub open spec fn owner_of(owners: Seq<OwnerView>, hostname: Seq<char>) -> Option<VpnKind>
    decreases owners.len(),
{
    if owners.len() == 0 {
        None
    } else {
        match owner_of(owners.drop_last(), hostname) {
            Some(vpn) => Some(vpn),
            None => if owners.last().hostname == hostname {
                Some(owners.last().vpn)
            } else {
                None
            },
        }
    }
}

/// What the name servers of the VPN answered first about the domain; no address where
/// nothing was answered.
pub open spec fn answer_about(
    answers: Seq<AnswerView>,
    vpn: VpnKind,
    hostname: Seq<char>,
) -> Result<Seq<u32>, Seq<char>>
    decreases answers.len(),
{
    if answers.len() == 0 {
        Ok(Seq::empty())
    } else if answers[0].vpn == vpn && answers[0].hostname == hostname {
        answers[0].addresses
    } else {
        answer_about(answers.skip(1), vpn, hostname)
    }
}

/// The entry that the network of the VPN came from first; the network itself where
/// there is none.
pub open spec fn source_of(sources: Seq<SourceView>, vpn: VpnKind, network: Ipv4Net) -> Seq<char>
    decreases sources.len(),
{
    if sources.len() == 0 {
        network.text()
    } else if sources[0].vpn == vpn && sources[0].network == network {
        sources[0].token
    } else {
        source_of(sources.skip(1), vpn, network)
    }
}

/// The VPN that the domain was given to first.
pub(crate) fn find_owner(owners: &Vec<HostOwner>, hostname: &str) -> (vpn: Option<VpnKind>)
    ensures
        vpn == owner_of(owners.deep_view(), hostname@),
{
    let ghost views = owners.deep_view();
    let mut found: Option<VpnKind> = None;
    for i in 0..owners.len()
        invariant
            views == owners.deep_view(),
            found == owner_of(views.take(i as int), hostname@),
    {
        assert(views.take(i + 1).drop_last() =~= views.take(i as int));
        assert(views.take(i + 1).last() == owners@[i as int].deep_view());
        if found.is_none() && same_text(owners[i].hostname.as_str(), hostname) {
            found = Some(owners[i].vpn);
        }
    }
    assert(views.take(owners.len() as int) =~= views);
    found
}

/// A copy of a list of addresses, or of the reason why there is none.
fn copy_addresses(addresses: &Result<Vec<u32>, String>) -> (copy: Result<Vec<u32>, String>)
    ensures
        addresses_view(copy) == addresses_view(*addresses),
{
    match addresses {
        Ok(list) => Ok(list.clone()),
        Err(reason) => Err(reason.clone()),
    }
}

/// What the name servers of the VPN answered first about the domain.
fn find_answer(answers: &Vec<DnsAnswer>, vpn: VpnKind, hostname: &str) -> (addresses: Result<
    Vec<u32>,
    String,
>)
    ensures
        addresses_view(addresses) == answer_about(answers.deep_view(), vpn, hostname@),
{
    let ghost views = answers.deep_view();
    assert(views.skip(0) =~= views);
    for i in 0..answers.len()
        invariant
            views == answers.deep_view(),
            answer_about(views, vpn, hostname@) == answer_about(
                views.skip(i as int),
                vpn,
                hostname@,
            ),
    {
        assert(views.skip(i as int)[0] == answers@[i as int].deep_view());
        assert(views.skip(i as int).skip(1) =~= views.skip(i + 1));
        if answers[i].vpn == vpn && same_text(answers[i].hostname.as_str(), hostname) {
            return copy_addresses(&answers[i].addresses);
        }
    }
    assert(views.skip(answers.len() as int) =~= Seq::empty());
    Ok(Vec::new())
}

/// The entry that the network of the VPN came from first.
fn find_source(sources: &Vec<NetworkSource>, vpn: VpnKind, network: Ipv4Net) -> (token: String)
    ensures
        token@ == source_of(sources.deep_view(), vpn, network),
{
    let ghost views = sources.deep_view();
    assert(views.skip(0) =~= views);
    for i in 0..sources.len()
        invariant
            views == sources.deep_view(),
            source_of(views, vpn, network) == source_of(views.skip(i as int), vpn, network),
    {
        assert(views.skip(i as int)[0] == sources@[i as int].deep_view());
        assert(views.skip(i as int).skip(1) =~= views.skip(i + 1));
        if sources[i].vpn == vpn && sources[i].network == network {
            return sources[i].token.clone();
        }
    }
    assert(views.skip(sources.len() as int) =~= Seq::empty());
    network.to_text()
}

/// A copy of a list of texts.
pub fn clone_texts(texts: &Vec<String>) -> (copy: Vec<String>)
    ensures
        copy.deep_view() == texts.deep_view(),
{
    let copy: Vec<String> = texts.clone();
    assert(copy.deep_view() =~= texts.deep_view());
    copy
}

/// A copy of a list of errors.
fn clone_errors(errors: &Vec<ValidationError>) -> (copy: Vec<ValidationError>)
    ensures
        copy.deep_view() == errors.deep_view(),
{
    let copy: Vec<ValidationError> = errors.clone();
    assert(copy.deep_view() =~= errors.deep_view());
    copy
}

/// Reads the targets of the enabled profiles.
pub fn read_config(config: &SplitterConfig) -> (targets: Vec<ProfileTargets>)
    ensures
        targets.deep_view() == targets_of(config.profiles@),
        plain_names_read(config.profiles@),
{
    let mut targets: Vec<ProfileTargets> = Vec::new();
    let ghost profiles = config.profiles@;
    assert(targets.deep_view() =~= targets_of(profiles.take(0))) by {
        reveal(Seq::filter);
    }
    for i in 0..config.profiles.len()
        invariant
            profiles == config.profiles@,
            targets.deep_view() == targets_of(profiles.take(i as int)),
            forall|k: int|
                0 <= k < i && (#[trigger] profiles[k]).enabled ==> reads_plainly(
                    profiles[k].networks@,
                ),
    {
        let ghost done = targets.deep_view();
        assert(profiles.take(i + 1) =~= profiles.take(i as int).push(profiles[i as int]));
        proof {
            lemma_enabled_push(profiles.take(i as int), profiles[i as int]);
        }
        if config.profiles[i].enabled {
            let entries: Vec<TargetEntry> = read_targets(config.profiles[i].networks.as_str());
            targets.push(ProfileTargets { vpn: config.profiles[i].vpn, entries });
            assert(targets.deep_view() =~= done.push(profile_targets(profiles[i as int])));
            assert(targets.deep_view() =~= targets_of(profiles.take(i + 1)));
        }
    }
    assert(profiles.take(config.profiles.len() as int) =~= profiles);
    targets
}

/// The order of networks: the wider ones first, and of two equally wide ones the one
/// with the lower address.
pub open spec fn network_before(left: Ipv4Net, right: Ipv4Net) -> bool {
    left.prefix_len < right.prefix_len || (left.prefix_len == right.prefix_len && left.addr
        < right.addr)
}

/// The list with `network` put before the first entry that comes after it.
pub open spec fn insert_network(list: Seq<Ipv4Net>, network: Ipv4Net) -> Seq<Ipv4Net>
    decreases list.len(),
{
    if list.len() == 0 {
        seq![network]
    } else if network_before(network, list[0]) {
        seq![network] + list
    } else {
        seq![list[0]] + insert_network(list.skip(1), network)
    }
}

/// The networks in their order, the wider ones first.
pub open spec fn ordered_networks(networks: Seq<Ipv4Net>) -> Seq<Ipv4Net>
    decreases networks.len(),
{
    if networks.len() == 0 {
        Seq::empty()
    } else {
        insert_network(ordered_networks(networks.drop_last()), networks.last())
    }
}

/// Some network of the list holds the address.
pub open spec fn any_covers(networks: Seq<Ipv4Net>, address: int) -> bool {
    exists|i: int| 0 <= i < networks.len() && (#[trigger] networks[i]).covers(address as u32)
}

/// The list without each network whose lowest address lies in one that is kept before
/// it.
pub open spec fn without_covered(networks: Seq<Ipv4Net>) -> Seq<Ipv4Net>
    decreases networks.len(),
{
    if networks.len() == 0 {
        Seq::empty()
    } else {
        let kept = without_covered(networks.drop_last());
        if any_covers(kept, networks.last().first()) {
            kept
        } else {
            kept.push(networks.last())
        }
    }
}

/// The fewest of the networks that hold all their addresses, the wider ones first.
pub open spec fn minimal_networks(networks: Seq<Ipv4Net>) -> Seq<Ipv4Net> {
    without_covered(ordered_networks(networks))
}

/// Puts a network into an ordered list.
fn insert_into_networks(list: &mut Vec<Ipv4Net>, network: Ipv4Net)
    ensures
        final(list)@ == insert_network(old(list)@, network),
{
    let ghost before = list@;
    let mut at: usize = 0;
    assert(before.skip(0) =~= before);
    assert(before.take(0) + insert_network(before.skip(0), network) =~= insert_network(
        before,
        network,
    ));
    while at < list.len() && !(network.prefix_len < list[at].prefix_len || (network.prefix_len
        == list[at].prefix_len && network.addr < list[at].addr))
        invariant
            *list == *old(list),
            before == list@,
            at <= list.len(),
            insert_network(before, network) == before.take(at as int) + insert_network(
                before.skip(at as int),
                network,
            ),
        decreases list.len() - at,
    {
        assert(before.skip(at as int).skip(1) =~= before.skip(at + 1));
        assert(before.take(at as int) + insert_network(before.skip(at as int), network)
            =~= before.take(at + 1) + insert_network(before.skip(at + 1), network));
        at = at + 1;
    }
    list.insert(at, network);
    assert(list@ =~= insert_network(before, network));
}

/// Whether some network of the list holds the address.
fn any_network_contains(networks: &Vec<Ipv4Net>, address: u32) -> (found: bool)
    ensures
        found == any_covers(networks@, address as int),
{
    for i in 0..networks.len()
        invariant
            forall|k: int| 0 <= k < i ==> !(#[trigger] networks@[k]).covers(address),
    {
        if networks[i].contains(address) {
            assert(networks@[i as int].covers(address));
            return true;
        }
    }
    false
}

/// The fewest of the networks that hold all their addresses, the wider ones first.
pub fn collapse_networks(networks: &Vec<Ipv4Net>) -> (minimal: Vec<Ipv4Net>)
    ensures
        minimal@ == minimal_networks(networks@),
{
    let mut ordered: Vec<Ipv4Net> = Vec::new();
    for i in 0..networks.len()
        invariant
            ordered@ == ordered_networks(networks@.take(i as int)),
    {
        assert(networks@.take(i + 1).drop_last() =~= networks@.take(i as int));
        insert_into_networks(&mut ordered, networks[i]);
    }
    assert(networks@.take(networks.len() as int) =~= networks@);
    let mut minimal: Vec<Ipv4Net> = Vec::new();
    for i in 0..ordered.len()
        invariant
            minimal@ == without_covered(ordered@.take(i as int)),
    {
        assert(ordered@.take(i + 1).drop_last() =~= ordered@.take(i as int));
        if !any_network_contains(&minimal, ordered[i].network()) {
            minimal.push(ordered[i]);
        }
    }
    assert(ordered@.take(ordered.len() as int) =~= ordered@);
    minimal
}

/// A profile is enabled and lists nothing.
pub open spec fn nothing_listed(vpn: VpnKind) -> ErrorView {
    ErrorView {
        vpns: seq![vpn],
        message: vpn.text() + " 已啟用，但尚未填入任何 CIDR、網域或網址。"@,
    }
}

/// An entry asks for the whole address space.
pub open spec fn default_route_listed(vpn: VpnKind) -> ErrorView {
    ErrorView {
        vpns: seq![vpn],
        message: vpn.text() + " 不接受 0.0.0.0/0；這個工具只管理分流路由。"@,
    }
}

/// A domain is given to two VPNs.
pub open spec fn domain_shared(hostname: Seq<char>, owner: VpnKind, vpn: VpnKind) -> ErrorView {
    ErrorView {
        vpns: seq![owner, vpn],
        message: "網域 "@ + hostname + " 同時指定給 "@ + owner.text() + " 與 "@ + vpn.text()
            + "；同一名稱只能使用一組 VPN DNS。"@,
    }
}

/// A domain has no IPv4 address.
pub open spec fn no_address(vpn: VpnKind, token: Seq<char>) -> ErrorView {
    ErrorView {
        vpns: seq![vpn],
        message: vpn.text() + " 的「"@ + token + "」沒有解析到任何 IPv4 位址。"@,
    }
}

/// A domain could not be resolved.
pub open spec fn not_resolved(
    vpn: VpnKind,
    token: Seq<char>,
    hostname: Seq<char>,
    reason: Seq<char>,
) -> ErrorView {
    ErrorView {
        vpns: seq![vpn],
        message: vpn.text() + " 無法解析「"@ + token + "」的網域 "@ + hostname + "："@ + reason,
    }
}

/// An entry is an IPv6 address.
pub open spec fn ipv6_listed(vpn: VpnKind, token: Seq<char>) -> ErrorView {
    ErrorView {
        vpns: seq![vpn],
        message: vpn.text() + " 的「"@ + token + "」是 IPv6；目前只支援 IPv4。"@,
    }
}

/// An entry is no network, domain or URL.
pub open spec fn not_a_target(vpn: VpnKind, token: Seq<char>, reason: Seq<char>) -> ErrorView {
    ErrorView {
        vpns: seq![vpn],
        message: vpn.text() + " 的「"@ + token + "」不是有效的 CIDR、網域或網址："@ + reason,
    }
}

/// Two VPNs are to carry the same addresses.
pub open spec fn networks_overlap(
    left: VpnKind,
    left_source: Seq<char>,
    left_network: Ipv4Net,
    right: VpnKind,
    right_source: Seq<char>,
    right_network: Ipv4Net,
) -> ErrorView {
    ErrorView {
        vpns: seq![left, right],
        message: left.text() + " 的「"@ + left_source + "」所產生的 "@ + left_network.text()
            + " 與 "@ + right.text() + " 的「"@ + right_source + "」所產生的 "@
            + right_network.text() + " 重疊，已阻擋套用。"@,
    }
}

/// A list of one VPN.
fn one_vpn(vpn: VpnKind) -> (vpns: Vec<VpnKind>)
    ensures
        vpns@ == seq![vpn],
{
    let mut vpns: Vec<VpnKind> = Vec::new();
    vpns.push(vpn);
    assert(vpns@ =~= seq![vpn]);
    vpns
}

/// A list of two VPNs.
fn two_vpns(left: VpnKind, right: VpnKind) -> (vpns: Vec<VpnKind>)
    ensures
        vpns@ == seq![left, right],
{
    let mut vpns: Vec<VpnKind> = Vec::new();
    vpns.push(left);
    vpns.push(right);
    assert(vpns@ =~= seq![left, right]);
    vpns
}

fn nothing_listed_error(vpn: VpnKind) -> (error: ValidationError)
    ensures
        error.deep_view() == nothing_listed(vpn),
{
    let mut message: String = vpn.name().to_owned();
    message.append(" 已啟用，但尚未填入任何 CIDR、網域或網址。");
    ValidationError { vpns: one_vpn(vpn), message }
}

fn default_route_error(vpn: VpnKind) -> (error: ValidationError)
    ensures
        error.deep_view() == default_route_listed(vpn),
{
    let mut message: String = vpn.name().to_owned();
    message.append(" 不接受 0.0.0.0/0；這個工具只管理分流路由。");
    ValidationError { vpns: one_vpn(vpn), message }
}

pub(crate) fn domain_shared_error(hostname: &str, owner: VpnKind, vpn: VpnKind) -> (error: ValidationError)
    ensures
        error.deep_view() == domain_shared(hostname@, owner, vpn),
{
    let mut message: String = "網域 ".to_owned();
    message.append(hostname);
    message.append(" 同時指定給 ");
    message.append(owner.name());
    message.append(" 與 ");
    message.append(vpn.name());
    message.append("；同一名稱只能使用一組 VPN DNS。");
    ValidationError { vpns: two_vpns(owner, vpn), message }
}

fn no_address_error(vpn: VpnKind, token: &str) -> (error: ValidationError)
    ensures
        error.deep_view() == no_address(vpn, token@),
{
    let mut message: String = vpn.name().to_owned();
    message.append(" 的「");
    message.append(token);
    message.append("」沒有解析到任何 IPv4 位址。");
    ValidationError { vpns: one_vpn(vpn), message }
}

fn not_resolved_error(vpn: VpnKind, token: &str, hostname: &str, reason: &str) -> (error:
    ValidationError)
    ensures
        error.deep_view() == not_resolved(vpn, token@, hostname@, reason@),
{
    let mut message: String = vpn.name().to_owned();
    message.append(" 無法解析「");
    message.append(token);
    message.append("」的網域 ");
    message.append(hostname);
    message.append("：");
    message.append(reason);
    ValidationError { vpns: one_vpn(vpn), message }
}

fn ipv6_error(vpn: VpnKind, token: &str) -> (error: ValidationError)
    ensures
        error.deep_view() == ipv6_listed(vpn, token@),
{
    let mut message: String = vpn.name().to_owned();
    message.append(" 的「");
    message.append(token);
    message.append("」是 IPv6；目前只支援 IPv4。");
    ValidationError { vpns: one_vpn(vpn), message }
}

fn not_a_target_error(vpn: VpnKind, token: &str, reason: &str) -> (error: ValidationError)
    ensures
        error.deep_view() == not_a_target(vpn, token@, reason@),
{
    let mut message: String = vpn.name().to_owned();
    message.append(" 的「");
    message.append(token);
    message.append("」不是有效的 CIDR、網域或網址：");
    message.append(reason);
    ValidationError { vpns: one_vpn(vpn), message }
}

fn overlap_error(
    left: VpnKind,
    left_source: &str,
    left_network: Ipv4Net,
    right: VpnKind,
    right_source: &str,
    right_network: Ipv4Net,
) -> (error: ValidationError)
    ensures
        error.deep_view() == networks_overlap(
            left,
            left_source@,
            left_network,
            right,
            right_source@,
            right_network,
        ),
{
    let left_text: String = left_network.to_text();
    let right_text: String = right_network.to_text();
    let mut message: String = left.name().to_owned();
    message.append(" 的「");
    message.append(left_source);
    message.append("」所產生的 ");
    message.append(left_text.as_str());
    message.append(" 與 ");
    message.append(right.name());
    message.append(" 的「");
    message.append(right_source);
    message.append("」所產生的 ");
    message.append(right_text.as_str());
    message.append(" 重疊，已阻擋套用。");
    ValidationError { vpns: two_vpns(left, right), message }
}

/// What reading the profiles one after the other has brought to light so far.
/// `networks` and `hostnames` are those of the profile that is being read.
pub struct Findings {
    pub errors: Vec<ValidationError>,
    pub sources: Vec<NetworkSource>,
    pub owners: Vec<HostOwner>,
    pub networks: Vec<Ipv4Net>,
    pub hostnames: Vec<String>,
    pub validated: Vec<ValidatedProfile>,
}

/// What a `Findings` stands for.
#[verifier::ext_equal]
pub ghost struct FindingsView {
    pub errors: Seq<ErrorView>,
    pub sources: Seq<SourceView>,
    pub owners: Seq<OwnerView>,
    pub networks: Seq<Ipv4Net>,
    pub hostnames: Seq<Seq<char>>,
    pub validated: Seq<ValidatedView>,
}

impl DeepView for Findings {
    type V = FindingsView;

    open spec fn deep_view(&self) -> FindingsView {
        FindingsView {
            errors: self.errors.deep_view(),
            sources: self.sources.deep_view(),
            owners: self.owners.deep_view(),
            networks: self.networks@,
            hostnames: self.hostnames.deep_view(),
            validated: self.validated.deep_view(),
        }
    }
}

impl FindingsView {
    /// Nothing has been read.
    pub open spec fn none() -> FindingsView {
        FindingsView {
            errors: Seq::empty(),
            sources: Seq::empty(),
            owners: Seq::empty(),
            networks: Seq::empty(),
            hostnames: Seq::empty(),
            validated: Seq::empty(),
        }
    }

    /// One more thing is wrong.
    pub open spec fn with_error(self, error: ErrorView) -> FindingsView {
        FindingsView { errors: self.errors.push(error), ..self }
    }

    /// One more network of the profile.
    pub open spec fn with_network(
        self,
        vpn: VpnKind,
        token: Seq<char>,
        network: Ipv4Net,
    ) -> FindingsView {
        FindingsView {
            sources: self.sources.push(SourceView { vpn, network, token }),
            networks: self.networks.push(network),
            ..self
        }
    }

    /// More addresses of the profile.
    pub open spec fn with_addresses(
        self,
        vpn: VpnKind,
        token: Seq<char>,
        addresses: Seq<u32>,
    ) -> FindingsView
        decreases addresses.len(),
    {
        if addresses.len() == 0 {
            self
        } else {
            self.with_addresses(vpn, token, addresses.drop_last()).with_network(
                vpn,
                token,
                Ipv4Net { addr: addresses.last(), prefix_len: 32 },
            )
        }
    }

    /// One more domain of the profile, and what the name servers say about it.
    pub open spec fn with_domain(
        self,
        vpn: VpnKind,
        token: Seq<char>,
        hostname: Seq<char>,
        answers: Seq<AnswerView>,
    ) -> FindingsView {
        let owner = owner_of(self.owners, hostname);
        if owner is Some && owner != Some(vpn) {
            self.with_error(domain_shared(hostname, owner->0, vpn))
        } else {
            let owned = FindingsView {
                owners: self.owners.push(OwnerView { hostname, vpn }),
                hostnames: insert_text(self.hostnames, hostname),
                ..self
            };
            match answer_about(answers, vpn, hostname) {
                Ok(addresses) => if addresses.len() > 0 {
                    owned.with_addresses(vpn, token, addresses)
                } else {
                    owned.with_error(no_address(vpn, token))
                },
                Err(reason) => owned.with_error(not_resolved(vpn, token, hostname, reason)),
            }
        }
    }

    /// One more entry of the profile.
    pub open spec fn with_entry(
        self,
        vpn: VpnKind,
        entry: TargetEntryView,
        answers: Seq<AnswerView>,
    ) -> FindingsView {
        match entry.target {
            TargetView::Network(network) => if network.prefix_len == 0 {
                self.with_error(default_route_listed(vpn))
            } else {
                self.with_network(vpn, entry.token, network)
            },
            TargetView::Domain(hostname) => self.with_domain(vpn, entry.token, hostname, answers),
            TargetView::Ipv6 => self.with_error(ipv6_listed(vpn, entry.token)),
            TargetView::Invalid(reason) => self.with_error(not_a_target(vpn, entry.token, reason)),
        }
    }

    /// All entries of the profile, in their order.
    pub open spec fn with_entries(
        self,
        vpn: VpnKind,
        entries: Seq<TargetEntryView>,
        answers: Seq<AnswerView>,
    ) -> FindingsView
        decreases entries.len(),
    {
        if entries.len() == 0 {
            self
        } else {
            self.with_entries(vpn, entries.drop_last(), answers).with_entry(
                vpn,
                entries.last(),
                answers,
            )
        }
    }

    /// The next profile is about to be read.
    pub open spec fn at_next_profile(self) -> FindingsView {
        FindingsView { networks: Seq::empty(), hostnames: Seq::empty(), ..self }
    }

    /// One more profile, of which nothing is kept where it lists nothing.
    pub open spec fn with_profile(
        self,
        profile: ProfileTargetsView,
        answers: Seq<AnswerView>,
    ) -> FindingsView {
        if profile.entries.len() == 0 {
            self.with_error(nothing_listed(profile.vpn))
        } else {
            let read = self.at_next_profile().with_entries(profile.vpn, profile.entries, answers);
            FindingsView {
                validated: read.validated.push(
                    ValidatedView {
                        vpn: profile.vpn,
                        networks: minimal_networks(read.networks),
                        hostnames: read.hostnames,
                    },
                ),
                ..read
            }
        }
    }
}

/// What reading the profiles in their order brings to light.
pub open spec fn findings_of(
    targets: Seq<ProfileTargetsView>,
    answers: Seq<AnswerView>,
) -> FindingsView
    decreases targets.len(),
{
    if targets.len() == 0 {
        FindingsView::none()
    } else {
        findings_of(targets.drop_last(), answers).with_profile(targets.last(), answers)
    }
}

/// The lowest address of one network lies in the other.
pub open spec fn networks_meet(left: Ipv4Net, right: Ipv4Net) -> bool {
    left.covers(right.first() as u32) || right.covers(left.first() as u32)
}

/// What is wrong between one network of a profile and networks of another profile.
pub open spec fn overlaps_of_network(
    sources: Seq<SourceView>,
    left: VpnKind,
    network: Ipv4Net,
    right: VpnKind,
    others: Seq<Ipv4Net>,
) -> Seq<ErrorView>
    decreases others.len(),
{
    if others.len() == 0 {
        Seq::empty()
    } else {
        let before = overlaps_of_network(sources, left, network, right, others.drop_last());
        let other = others.last();
        if networks_meet(network, other) {
            before.push(
                networks_overlap(
                    left,
                    source_of(sources, left, network),
                    network,
                    right,
                    source_of(sources, right, other),
                    other,
                ),
            )
        } else {
            before
        }
    }
}

/// What is wrong between networks of a profile and another profile.
pub open spec fn overlaps_of_networks(
    sources: Seq<SourceView>,
    left: VpnKind,
    networks: Seq<Ipv4Net>,
    right: ValidatedView,
) -> Seq<ErrorView>
    decreases networks.len(),
{
    if networks.len() == 0 {
        Seq::empty()
    } else {
        overlaps_of_networks(sources, left, networks.drop_last(), right) + overlaps_of_network(
            sources,
            left,
            networks.last(),
            right.vpn,
            right.networks,
        )
    }
}

/// What is wrong between a profile and other profiles.
pub open spec fn overlaps_of_profile(
    sources: Seq<SourceView>,
    left: ValidatedView,
    others: Seq<ValidatedView>,
) -> Seq<ErrorView>
    decreases others.len(),
{
    if others.len() == 0 {
        Seq::empty()
    } else {
        overlaps_of_profile(sources, left, others.drop_last()) + overlaps_of_networks(
            sources,
            left.vpn,
            left.networks,
            others.last(),
        )
    }
}

/// What is wrong between each of the first `count` profiles and the profiles behind it.
pub open spec fn overlaps_of_profiles(
    sources: Seq<SourceView>,
    validated: Seq<ValidatedView>,
    count: int,
) -> Seq<ErrorView>
    decreases count,
{
    if count <= 0 {
        Seq::empty()
    } else {
        overlaps_of_profiles(sources, validated, count - 1) + overlaps_of_profile(
            sources,
            validated[count - 1],
            validated.skip(count),
        )
    }
}

/// Everything that is wrong with the targets.
pub open spec fn errors_of(
    targets: Seq<ProfileTargetsView>,
    answers: Seq<AnswerView>,
) -> Seq<ErrorView> {
    let found = findings_of(targets, answers);
    found.errors + overlaps_of_profiles(
        found.sources,
        found.validated,
        found.validated.len() as int,
    )
}

/// The networks and domains that each enabled VPN is to carry, or everything that is
/// wrong with the targets.
pub open spec fn verdict(
    targets: Seq<ProfileTargetsView>,
    answers: Seq<AnswerView>,
) -> Result<Seq<ValidatedView>, Seq<ErrorView>> {
    let errors = errors_of(targets, answers);
    if errors.len() == 0 {
        Ok(findings_of(targets, answers).validated)
    } else {
        Err(errors)
    }
}

/// What the outcome of a validation stands for.
pub open spec fn outcome(result: Result<Vec<ValidatedProfile>, Vec<ValidationError>>) -> Result<
    Seq<ValidatedView>,
    Seq<ErrorView>,
> {
    match result {
        Ok(validated) => Ok(validated.deep_view()),
        Err(errors) => Err(errors.deep_view()),
    }
}

impl Findings {
    fn new() -> (findings: Findings)
        ensures
            findings.deep_view() == FindingsView::none(),
    {
        let findings: Findings = Findings {
            errors: Vec::new(),
            sources: Vec::new(),
            owners: Vec::new(),
            networks: Vec::new(),
            hostnames: Vec::new(),
            validated: Vec::new(),
        };
        assert(findings.deep_view() =~= FindingsView::none());
        findings
    }

    fn add_error(&mut self, error: ValidationError)
        ensures
            final(self).deep_view() == old(self).deep_view().with_error(error.deep_view()),
    {
        let ghost before = self.deep_view();
        let ghost added = error.deep_view();
        self.errors.push(error);
        assert(self.deep_view() =~= before.with_error(added));
    }

    fn add_network(&mut self, vpn: VpnKind, token: &str, network: Ipv4Net)
        ensures
            final(self).deep_view() == old(self).deep_view().with_network(vpn, token@, network),
    {
        let ghost before = self.deep_view();
        self.sources.push(NetworkSource { vpn, network, token: token.to_owned() });
        self.networks.push(network);
        assert(self.deep_view() =~= before.with_network(vpn, token@, network));
    }

    fn add_addresses(&mut self, vpn: VpnKind, token: &str, addresses: &Vec<u32>)
        ensures
            final(self).deep_view() == old(self).deep_view().with_addresses(
                vpn,
                token@,
                addresses@,
            ),
    {
        let ghost before = self.deep_view();
        for i in 0..addresses.len()
            invariant
                self.deep_view() == before.with_addresses(vpn, token@, addresses@.take(i as int)),
        {
            assert(addresses@.take(i + 1).drop_last() =~= addresses@.take(i as int));
            self.add_network(vpn, token, Ipv4Net::host(addresses[i]));
        }
        assert(addresses@.take(addresses.len() as int) =~= addresses@);
    }

    fn add_domain(&mut self, vpn: VpnKind, token: &str, hostname: &String, answers: &Vec<DnsAnswer>)
        ensures
            final(self).deep_view() == old(self).deep_view().with_domain(
                vpn,
                token@,
                hostname@,
                answers.deep_view(),
            ),
    {
        let ghost before = self.deep_view();
        if let Some(owner) = find_owner(&self.owners, hostname.as_str()) {
            if owner != vpn {
                self.add_error(domain_shared_error(hostname.as_str(), owner, vpn));
                return;
            }
        }
        self.owners.push(HostOwner { hostname: hostname.clone(), vpn });
        insert_into_texts(&mut self.hostnames, hostname.clone());
        assert(self.deep_view() =~= (FindingsView {
            owners: before.owners.push(OwnerView { hostname: hostname@, vpn }),
            hostnames: insert_text(before.hostnames, hostname@),
            ..before
        }));
        match find_answer(answers, vpn, hostname.as_str()) {
            Ok(addresses) => {
                if addresses.len() > 0 {
                    self.add_addresses(vpn, token, &addresses);
                } else {
                    self.add_error(no_address_error(vpn, token));
                }
            },
            Err(reason) => {
                self.add_error(
                    not_resolved_error(vpn, token, hostname.as_str(), reason.as_str()),
                );
            },
        }
    }

    fn add_entry(&mut self, vpn: VpnKind, entry: &TargetEntry, answers: &Vec<DnsAnswer>)
        ensures
            final(self).deep_view() == old(self).deep_view().with_entry(
                vpn,
                entry.deep_view(),
                answers.deep_view(),
            ),
    {
        let token: &str = entry.token.as_str();
        match &entry.target {
            Target::Network(network) => {
                if network.prefix_len == 0 {
                    self.add_error(default_route_error(vpn));
                } else {
                    self.add_network(vpn, token, *network);
                }
            },
            Target::Domain(hostname) => {
                self.add_domain(vpn, token, hostname, answers);
            },
            Target::Ipv6 => {
                self.add_error(ipv6_error(vpn, token));
            },
            Target::Invalid(reason) => {
                self.add_error(not_a_target_error(vpn, token, reason.as_str()));
            },
        }
    }

    fn add_profile(&mut self, profile: &ProfileTargets, answers: &Vec<DnsAnswer>)
        ensures
            final(self).deep_view() == old(self).deep_view().with_profile(
                profile.deep_view(),
                answers.deep_view(),
            ),
    {
        let vpn: VpnKind = profile.vpn;
        if profile.entries.len() == 0 {
            self.add_error(nothing_listed_error(vpn));
            return;
        }
        let ghost before = self.deep_view();
        let ghost entries = profile.entries.deep_view();
        self.networks = Vec::new();
        self.hostnames = Vec::new();
        assert(self.deep_view() =~= before.at_next_profile());
        for i in 0..profile.entries.len()
            invariant
                vpn == profile.vpn,
                entries == profile.entries.deep_view(),
                self.deep_view() == before.at_next_profile().with_entries(
                    vpn,
                    entries.take(i as int),
                    answers.deep_view(),
                ),
        {
            assert(entries.take(i + 1).drop_last() =~= entries.take(i as int));
            assert(entries.take(i + 1).last() == profile.entries@[i as int].deep_view());
            self.add_entry(vpn, &profile.entries[i], answers);
        }
        assert(entries.take(profile.entries.len() as int) =~= entries);
        let ghost read = self.deep_view();
        let networks: Vec<Ipv4Net> = collapse_networks(&self.networks);
        let hostnames: Vec<String> = clone_texts(&self.hostnames);
        self.validated.push(ValidatedProfile { vpn, networks, hostnames });
        assert(self.validated.deep_view() =~= read.validated.push(
            ValidatedView {
                vpn,
                networks: minimal_networks(read.networks),
                hostnames: read.hostnames,
            },
        ));
    }

    /// Adds what is wrong between one network of a profile and another profile.
    fn add_overlaps_of_network(
        &self,
        errors: &mut Vec<ValidationError>,
        left: VpnKind,
        network: Ipv4Net,
        right: &ValidatedProfile,
    )
        ensures
            final(errors).deep_view() == old(errors).deep_view() + overlaps_of_network(
                self.sources.deep_view(),
                left,
                network,
                right.vpn,
                right.networks@,
            ),
    {
        let ghost before = errors.deep_view();
        let ghost sources = self.sources.deep_view();
        let ghost others = right.networks@;
        assert(before =~= before + overlaps_of_network(
            sources,
            left,
            network,
            right.vpn,
            others.take(0),
        ));
        for i in 0..right.networks.len()
            invariant
                sources == self.sources.deep_view(),
                others == right.networks@,
                errors.deep_view() == before + overlaps_of_network(
                    sources,
                    left,
                    network,
                    right.vpn,
                    others.take(i as int),
                ),
        {
            let ghost so_far = errors.deep_view();
            assert(others.take(i + 1).drop_last() =~= others.take(i as int));
            let other: Ipv4Net = right.networks[i];
            if network.contains(other.network()) || other.contains(network.network()) {
                let left_source: String = find_source(&self.sources, left, network);
                let right_source: String = find_source(&self.sources, right.vpn, other);
                let error: ValidationError = overlap_error(
                    left,
                    left_source.as_str(),
                    network,
                    right.vpn,
                    right_source.as_str(),
                    other,
                );
                let ghost added = error.deep_view();
                errors.push(error);
                assert(errors.deep_view() =~= so_far.push(added));
            }
            assert(errors.deep_view() =~= before + overlaps_of_network(
                sources,
                left,
                network,
                right.vpn,
                others.take(i + 1),
            ));
        }
        assert(others.take(right.networks.len() as int) =~= others);
    }

    /// Adds what is wrong between two profiles.
    fn add_overlaps_of_networks(
        &self,
        errors: &mut Vec<ValidationError>,
        left: &ValidatedProfile,
        right: &ValidatedProfile,
    )
        ensures
            final(errors).deep_view() == old(errors).deep_view() + overlaps_of_networks(
                self.sources.deep_view(),
                left.vpn,
                left.networks@,
                right.deep_view(),
            ),
    {
        let ghost before = errors.deep_view();
        let ghost sources = self.sources.deep_view();
        let ghost networks = left.networks@;
        assert(before =~= before + overlaps_of_networks(
            sources,
            left.vpn,
            networks.take(0),
            right.deep_view(),
        ));
        for i in 0..left.networks.len()
            invariant
                sources == self.sources.deep_view(),
                networks == left.networks@,
                errors.deep_view() == before + overlaps_of_networks(
                    sources,
                    left.vpn,
                    networks.take(i as int),
                    right.deep_view(),
                ),
        {
            assert(networks.take(i + 1).drop_last() =~= networks.take(i as int));
            self.add_overlaps_of_network(errors, left.vpn, left.networks[i], right);
            assert(errors.deep_view() =~= before + overlaps_of_networks(
                sources,
                left.vpn,
                networks.take(i + 1),
                right.deep_view(),
            ));
        }
        assert(networks.take(left.networks.len() as int) =~= networks);
    }

    /// Adds what is wrong between a profile and the profiles behind it.
    fn add_overlaps_of_profile(&self, errors: &mut Vec<ValidationError>, index: usize)
        requires
            index < self.validated.len(),
        ensures
            final(errors).deep_view() == old(errors).deep_view() + overlaps_of_profile(
                self.sources.deep_view(),
                self.validated.deep_view()[index as int],
                self.validated.deep_view().skip(index + 1),
            ),
    {
        let ghost before = errors.deep_view();
        let ghost sources = self.sources.deep_view();
        let ghost left = self.validated.deep_view()[index as int];
        let ghost others = self.validated.deep_view().skip(index + 1);
        assert(before =~= before + overlaps_of_profile(sources, left, others.take(0)));
        for i in index + 1..self.validated.len()
            invariant
                index < self.validated.len(),
                sources == self.sources.deep_view(),
                left == self.validated.deep_view()[index as int],
                others == self.validated.deep_view().skip(index + 1),
                errors.deep_view() == before + overlaps_of_profile(
                    sources,
                    left,
                    others.take(i - index - 1),
                ),
        {
            let ghost next = others.take(i - index);
            assert(next.drop_last() =~= others.take(i - index - 1));
            assert(next.last() == self.validated@[i as int].deep_view());
            self.add_overlaps_of_networks(errors, &self.validated[index], &self.validated[i]);
            assert(errors.deep_view() =~= before + overlaps_of_profile(sources, left, next));
        }
        assert(others.take(self.validated.len() - index - 1) =~= others);
    }

    /// Everything that is wrong.
    fn all_errors(&self) -> (errors: Vec<ValidationError>)
        ensures
            errors.deep_view() == self.errors.deep_view() + overlaps_of_profiles(
                self.sources.deep_view(),
                self.validated.deep_view(),
                self.validated.len() as int,
            ),
    {
        let mut errors: Vec<ValidationError> = clone_errors(&self.errors);
        let ghost before = self.errors.deep_view();
        let ghost sources = self.sources.deep_view();
        let ghost validated = self.validated.deep_view();
        assert(before =~= before + overlaps_of_profiles(sources, validated, 0));
        for i in 0..self.validated.len()
            invariant
                sources == self.sources.deep_view(),
                validated == self.validated.deep_view(),
                errors.deep_view() == before + overlaps_of_profiles(
                    sources,
                    validated,
                    i as int,
                ),
        {
            self.add_overlaps_of_profile(&mut errors, i);
            assert(errors.deep_view() =~= before + overlaps_of_profiles(
                sources,
                validated,
                i + 1,
            ));
        }
        errors
    }
}

/// Judges targets, given what the name servers answered about their domains.
pub fn validate_targets(targets: &Vec<ProfileTargets>, answers: &Vec<DnsAnswer>) -> (result: Result<
    Vec<ValidatedProfile>,
    Vec<ValidationError>,
>)
    ensures
        outcome(result) == verdict(targets.deep_view(), answers.deep_view()),
{
    let mut findings: Findings = Findings::new();
    let ghost views = targets.deep_view();
    for i in 0..targets.len()
        invariant
            views == targets.deep_view(),
            findings.deep_view() == findings_of(views.take(i as int), answers.deep_view()),
    {
        assert(views.take(i + 1).drop_last() =~= views.take(i as int));
        assert(views.take(i + 1).last() == targets@[i as int].deep_view());
        findings.add_profile(&targets[i], answers);
    }
    assert(views.take(targets.len() as int) =~= views);
    let errors: Vec<ValidationError> = findings.all_errors();
    if errors.len() == 0 {
        Ok(findings.validated)
    } else {
        Err(errors)
    }
}

/// The questions that the name servers of the VPNs have to answer.
#[derive(Debug)]
pub struct Lookups {
    pub owners: Vec<HostOwner>,
    pub asked: Vec<HostOwner>,
}

/// What a `Lookups` stands for.
#[verifier::ext_equal]
pub ghost struct LookupsView {
    pub owners: Seq<OwnerView>,
    pub asked: Seq<OwnerView>,
}

impl DeepView for Lookups {
    type V = LookupsView;

    open spec fn deep_view(&self) -> LookupsView {
        LookupsView { owners: self.owners.deep_view(), asked: self.asked.deep_view() }
    }
}

impl LookupsView {
    /// One more entry: a domain that no other VPN owns is asked for once.
    pub open spec fn with_entry(self, vpn: VpnKind, entry: TargetEntryView) -> LookupsView {
        match entry.target {
            TargetView::Domain(hostname) => {
                let owner = owner_of(self.owners, hostname);
                let question = OwnerView { hostname, vpn };
                if owner is Some && owner != Some(vpn) {
                    self
                } else {
                    LookupsView {
                        owners: self.owners.push(question),
                        asked: if self.asked.contains(question) {
                            self.asked
                        } else {
                            self.asked.push(question)
                        },
                    }
                }
            },
            _ => self,
        }
    }

    /// More entries of one profile.
    pub open spec fn with_entries(self, vpn: VpnKind, entries: Seq<TargetEntryView>) -> LookupsView
        decreases entries.len(),
    {
        if entries.len() == 0 {
            self
        } else {
            self.with_entries(vpn, entries.drop_last()).with_entry(vpn, entries.last())
        }
    }
}

/// The questions about the domains of the targets.
pub open spec fn lookups_of(targets: Seq<ProfileTargetsView>) -> LookupsView
    decreases targets.len(),
{
    if targets.len() == 0 {
        LookupsView { owners: Seq::empty(), asked: Seq::empty() }
    } else {
        lookups_of(targets.drop_last()).with_entries(targets.last().vpn, targets.last().entries)
    }
}

/// The domains of the targets, each with the VPN whose name servers are asked about
/// it, in the order in which they are asked.
pub open spec fn questions_of(targets: Seq<ProfileTargetsView>) -> Seq<OwnerView> {
    lookups_of(targets).asked
}

impl Lookups {
    /// Whether the question has been asked.
    fn has_asked(&self, vpn: VpnKind, hostname: &str) -> (found: bool)
        ensures
            found == self.asked.deep_view().contains(OwnerView { hostname: hostname@, vpn }),
    {
        let ghost views = self.asked.deep_view();
        let ghost question = OwnerView { hostname: hostname@, vpn };
        for i in 0..self.asked.len()
            invariant
                views == self.asked.deep_view(),
                question == (OwnerView { hostname: hostname@, vpn }),
                forall|k: int| 0 <= k < i ==> views[k] != question,
        {
            if self.asked[i].vpn == vpn && same_text(self.asked[i].hostname.as_str(), hostname) {
                assert(views[i as int] == question);
                return true;
            }
            assert(views[i as int] != question);
        }
        false
    }

    fn add_entry(&mut self, vpn: VpnKind, entry: &TargetEntry)
        ensures
            final(self).deep_view() == old(self).deep_view().with_entry(vpn, entry.deep_view()),
    {
        let ghost before = self.deep_view();
        if let Target::Domain(hostname) = &entry.target {
            if let Some(owner) = find_owner(&self.owners, hostname.as_str()) {
                if owner != vpn {
                    return;
                }
            }
            if !self.has_asked(vpn, hostname.as_str()) {
                self.asked.push(HostOwner { hostname: hostname.clone(), vpn });
            }
            self.owners.push(HostOwner { hostname: hostname.clone(), vpn });
            assert(self.deep_view() =~= before.with_entry(vpn, entry.deep_view()));
        }
    }
}

/// The domains of the targets, each with the VPN whose name servers are asked about
/// it, in the order in which they are asked. No question is repeated.
pub fn dns_lookups(targets: &Vec<ProfileTargets>) -> (questions: Vec<HostOwner>)
    ensures
        questions.deep_view() == questions_of(targets.deep_view()),
{
    let mut lookups: Lookups = Lookups { owners: Vec::new(), asked: Vec::new() };
    let ghost views = targets.deep_view();
    assert(lookups.deep_view() =~= lookups_of(views.take(0)));
    for i in 0..targets.len()
        invariant
            views == targets.deep_view(),
            lookups.deep_view() == lookups_of(views.take(i as int)),
    {
        let ghost before = lookups.deep_view();
        let ghost entries = targets@[i as int].entries.deep_view();
        assert(views.take(i + 1).drop_last() =~= views.take(i as int));
        assert(views.take(i + 1).last() == targets@[i as int].deep_view());
        let count: usize = targets[i].entries.len();
        for j in 0..count
            invariant
                count == entries.len(),
                i < targets.len(),
                entries == targets@[i as int].entries.deep_view(),
                lookups.deep_view() == before.with_entries(
                    targets@[i as int].vpn,
                    entries.take(j as int),
                ),
        {
            assert(entries.take(j + 1).drop_last() =~= entries.take(j as int));
            assert(entries.take(j + 1).last() == targets@[i as int].entries@[j as int].deep_view());
            lookups.add_entry(targets[i].vpn, &targets[i].entries[j]);
        }
        assert(entries.take(count as int) =~= entries);
    }
    assert(views.take(targets.len() as int) =~= views);
    lookups.asked
}

/// A call of the resolver about the domain can end in this answer.
pub open spec fn resolver_says<F: FnMut(VpnKind, &str) -> Result<Vec<u32>, String>>(
    resolver: F,
    answer: AnswerView,
) -> bool {
    exists|hostname: &str, reply: Result<Vec<u32>, String>|
        hostname@ == answer.hostname && addresses_view(reply) == answer.addresses
            && #[trigger] call_ensures(resolver, (answer.vpn, hostname), reply)
}

/// The answers are the resolver's, one to each question, in the order of the questions.
pub open spec fn answers_to<F: FnMut(VpnKind, &str) -> Result<Vec<u32>, String>>(
    resolver: F,
    questions: Seq<OwnerView>,
    answers: Seq<AnswerView>,
) -> bool {
    &&& answers.len() == questions.len()
    &&& forall|i: int|
        0 <= i < answers.len() ==> {
            &&& (#[trigger] answers[i]).vpn == questions[i].vpn
            &&& answers[i].hostname == questions[i].hostname
            &&& resolver_says(resolver, answers[i])
        }
}

/// The resolver can be asked the question.
pub open spec fn takes_question<F: FnMut(VpnKind, &str) -> Result<Vec<u32>, String>>(
    resolver: F,
    question: OwnerView,
) -> bool {
    forall|hostname: &str|
        hostname@ == question.hostname ==> #[trigger] call_requires(
            resolver,
            (question.vpn, hostname),
        )
}

/// The resolver can be asked each of the questions.
pub open spec fn takes_questions<F: FnMut(VpnKind, &str) -> Result<Vec<u32>, String>>(
    resolver: F,
    questions: Seq<OwnerView>,
) -> bool {
    forall|i: int| 0 <= i < questions.len() ==> takes_question(resolver, #[trigger] questions[i])
}

/// Puts the questions to the resolver, and nothing else.
pub fn resolve_questions<F: FnMut(VpnKind, &str) -> Result<Vec<u32>, String>>(
    questions: &Vec<HostOwner>,
    mut resolve_hostname: F,
) -> (answers: Vec<DnsAnswer>)
    requires
        takes_questions(resolve_hostname, questions.deep_view()),
    ensures
        answers_to(resolve_hostname, questions.deep_view(), answers.deep_view()),
{
    let mut answers: Vec<DnsAnswer> = Vec::new();
    let ghost asked = questions.deep_view();
    let ghost resolver = resolve_hostname;
    for i in 0..questions.len()
        invariant
            asked == questions.deep_view(),
            resolve_hostname == resolver,
            takes_questions(resolver, asked),
            answers_to(resolve_hostname, asked.take(i as int), answers.deep_view()),
    {
        let ghost before = answers.deep_view();
        let vpn: VpnKind = questions[i].vpn;
        let hostname: &str = questions[i].hostname.as_str();
        assert(takes_question(resolver, asked[i as int]));
        let addresses: Result<Vec<u32>, String> = resolve_hostname(vpn, hostname);
        assert(call_ensures(resolve_hostname, (vpn, hostname), addresses));
        let answer: DnsAnswer = DnsAnswer {
            vpn,
            hostname: questions[i].hostname.clone(),
            addresses,
        };
        let ghost added = answer.deep_view();
        assert(resolver_says(resolve_hostname, added));
        answers.push(answer);
        assert(answers.deep_view() =~= before.push(added));
    }
    assert(asked.take(questions.len() as int) =~= asked);
    answers
}

/// Validates the whole desired configuration, given what the name servers answered.
///
/// Disabled profiles are ignored. An enabled profile must list at least one IPv4
/// network, IPv4 address, domain or URL. Domains and the hosts of URLs become their
/// IPv4 addresses. The whole address space is rejected, and so are networks of two
/// profiles with addresses in common.
pub fn validate_config_with_answers(config: &SplitterConfig, answers: &Vec<DnsAnswer>) -> (result:
    Result<Vec<ValidatedProfile>, Vec<ValidationError>>)
    ensures
        outcome(result) == verdict(targets_of(config.profiles@), answers.deep_view()),
        plain_names_read(config.profiles@),
{
    validate_targets(&read_config(config), answers)
}

/// Validates the whole desired configuration. The resolver is asked about the domains
/// of the enabled profiles, and about nothing else.
pub fn validate_config_with_resolver<F: FnMut(VpnKind, &str) -> Result<Vec<u32>, String>>(
    config: &SplitterConfig,
    resolve_hostname: F,
) -> (result: Result<Vec<ValidatedProfile>, Vec<ValidationError>>)
    requires
        takes_questions(resolve_hostname, questions_of(targets_of(config.profiles@))),
    ensures
        exists|answers: Seq<AnswerView>|
            #[trigger] answers_to(
                resolve_hostname,
                questions_of(targets_of(config.profiles@)),
                answers,
            ) && outcome(result) == verdict(targets_of(config.profiles@), answers),
        plain_names_read(config.profiles@),
{
    let targets: Vec<ProfileTargets> = read_config(config);
    let questions: Vec<HostOwner> = dns_lookups(&targets);
    let answers: Vec<DnsAnswer> = resolve_questions(&questions, resolve_hostname);
    validate_targets(&targets, &answers)
}

}
