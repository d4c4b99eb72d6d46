//! VPN profiles, and the targets that users list for them.

use vstd::prelude::*;

use crate::ipv4::{is_number, parse_address, parsed_address, parsed_network, Ipv4Net};
use crate::text::{
    all_digits, chars_of, contains_text, has_text, insert_into_texts, insert_text, is_digit,
    is_white_space, is_white_space_char, lemma_split_at_two, lemma_split_keeps, lemma_split_whole,
    number_of, occurs_at, split_on,
};

verus! {

/// The VPN clients that traffic can be directed to.
#[derive(Debug, Clone, Copy, PartialEq, Eq, Structural, PartialOrd, Ord, Hash)]
pub enum VpnKind {
    FortiClient,
    F5,
    Ivanti,
}

impl VpnKind {
    pub const ALL: [VpnKind; 3] = [VpnKind::FortiClient, VpnKind::F5, VpnKind::Ivanti];

    /// The client's name as users read it.
    pub open spec fn text(self) -> Seq<char> {
        match self {
            VpnKind::FortiClient => "FortiClient"@,
            VpnKind::F5 => "F5"@,
            VpnKind::Ivanti => "Ivanti"@,
        }
    }

    /// The client's short name in lower case.
    pub fn key(self) -> (key: &'static str)
        ensures
            key@ == match self {
                VpnKind::FortiClient => "forticlient"@,
                VpnKind::F5 => "f5"@,
                VpnKind::Ivanti => "ivanti"@,
            },
    {
        match self {
            VpnKind::FortiClient => "forticlient",
            VpnKind::F5 => "f5",
            VpnKind::Ivanti => "ivanti",
        }
    }

    /// The client's name as users read it.
    pub fn name(self) -> (name: &'static str)
        ensures
            name@ == self.text(),
    {
        match self {
            VpnKind::FortiClient => "FortiClient",
            VpnKind::F5 => "F5",
            VpnKind::Ivanti => "Ivanti",
        }
    }
}

/// What the user wants of one VPN.
#[derive(Debug, PartialEq, Eq)]
pub struct VpnProfile {
    pub vpn: VpnKind,
    pub enabled: bool,
    pub networks: String,
    pub adapter_description: Option<String>,
}

impl Clone for VpnProfile {
    fn clone(&self) -> (copy: Self)
        ensures
            copy == *self,
    {
        VpnProfile {
            vpn: self.vpn,
            enabled: self.enabled,
            networks: self.networks.clone(),
            adapter_description: self.adapter_description.clone(),
        }
    }
}

impl VpnProfile {
    /// A profile that asks for nothing yet.
    pub fn new(vpn: VpnKind) -> (profile: VpnProfile)
        ensures
            profile.vpn == vpn,
            !profile.enabled,
            profile.networks@ == Seq::<char>::empty(),
            profile.adapter_description is None,
    {
        VpnProfile { vpn, enabled: false, networks: String::new(), adapter_description: None }
    }
}

/// What the user wants of all VPNs.
#[derive(Debug, PartialEq, Eq)]
pub struct SplitterConfig {
    pub profiles: Vec<VpnProfile>,
}

impl Clone for SplitterConfig {
    fn clone(&self) -> (copy: Self)
        ensures
            copy.profiles@ == self.profiles@,
    {
        let profiles: Vec<VpnProfile> = self.profiles.clone();
        assert(profiles@ =~= self.profiles@);
        SplitterConfig { profiles }
    }
}

impl Default for SplitterConfig {
    /// One profile for each VPN, in their order, none of them enabled.
    fn default() -> (config: Self)
        ensures
            config.profiles.len() == 3,
            forall|i: int|
                0 <= i < 3 ==> {
                    &&& (#[trigger] config.profiles[i]).vpn == VpnKind::ALL[i]
                    &&& !config.profiles[i].enabled
                    &&& config.profiles[i].networks@ == Seq::<char>::empty()
                    &&& config.profiles[i].adapter_description is None
                },
    {
        let mut profiles: Vec<VpnProfile> = Vec::new();
        profiles.push(VpnProfile::new(VpnKind::FortiClient));
        profiles.push(VpnProfile::new(VpnKind::F5));
        profiles.push(VpnProfile::new(VpnKind::Ivanti));
        SplitterConfig { profiles }
    }
}

/// The position of the first profile of `vpn`; the number of profiles where there is
/// none.
pub open spec fn profile_index(profiles: Seq<VpnProfile>, vpn: VpnKind) -> int
    decreases profiles.len(),
{
    if profiles.len() == 0 || profiles[0].vpn == vpn {
        0
    } else {
        1 + profile_index(profiles.skip(1), vpn)
    }
}

/// The first profile of `vpn`.
pub open spec fn profile_of(profiles: Seq<VpnProfile>, vpn: VpnKind) -> Option<VpnProfile> {
    let index = profile_index(profiles, vpn);
    if index < profiles.len() {
        Some(profiles[index])
    } else {
        None
    }
}

/// The first profile of `vpn` exists and is enabled.
pub open spec fn is_enabled(profiles: Seq<VpnProfile>, vpn: VpnKind) -> bool {
    profile_of(profiles, vpn) matches Some(profile) && profile.enabled
}

/// No VPN has two profiles.
pub open spec fn distinct_vpns(profiles: Seq<VpnProfile>) -> bool {
    forall|i: int, j: int|
        0 <= i < j < profiles.len() ==> (#[trigger] profiles[i]).vpn != (#[trigger] profiles[j]).vpn
}

/// The VPN has an enabled profile.
pub open spec fn enabled_vpn(profiles: Seq<VpnProfile>, vpn: VpnKind) -> bool {
    exists|i: int|
        0 <= i < profiles.len() && (#[trigger] profiles[i]).enabled && profiles[i].vpn == vpn
}

/// The later profiles are the earlier ones, but that some of them are disabled.
pub open spec fn only_disabled(earlier: Seq<VpnProfile>, later: Seq<VpnProfile>) -> bool {
    &&& later.len() == earlier.len()
    &&& forall|i: int|
        0 <= i < earlier.len() ==> (#[trigger] later[i]) == earlier[i] || (earlier[i].enabled
            && later[i] == VpnProfile { enabled: false, ..earlier[i] })
}

/// Where no VPN has two profiles, the first profile of a VPN is its only one.
pub proof fn lemma_only_profile(profiles: Seq<VpnProfile>, i: int)
    requires
        distinct_vpns(profiles),
        0 <= i < profiles.len(),
    ensures
        profile_index(profiles, profiles[i].vpn) == i,
        profile_of(profiles, profiles[i].vpn) == Some(profiles[i]),
{
    lemma_profile_index(profiles, profiles[i].vpn);
}

/// Where no VPN has two profiles, the VPNs that have an enabled profile are those whose
/// first profile is enabled.
pub proof fn lemma_enabled_vpn(profiles: Seq<VpnProfile>, vpn: VpnKind)
    requires
        distinct_vpns(profiles),
    ensures
        enabled_vpn(profiles, vpn) == is_enabled(profiles, vpn),
{
    lemma_profile_index(profiles, vpn);
    if enabled_vpn(profiles, vpn) {
        let i = choose|i: int|
            0 <= i < profiles.len() && (#[trigger] profiles[i]).enabled && profiles[i].vpn == vpn;
        lemma_only_profile(profiles, i);
    }
    if is_enabled(profiles, vpn) {
        assert(profiles[profile_index(profiles, vpn)].enabled);
    }
}

/// The profiles that are enabled.
pub open spec fn enabled_profiles(profiles: Seq<VpnProfile>) -> Seq<VpnProfile> {
    profiles.filter(|profile: VpnProfile| profile.enabled)
}

/// One more profile is one more enabled profile if it is enabled.
pub proof fn lemma_enabled_push(profiles: Seq<VpnProfile>, profile: VpnProfile)
    ensures
        enabled_profiles(profiles.push(profile)) == if profile.enabled {
            enabled_profiles(profiles).push(profile)
        } else {
            enabled_profiles(profiles)
        },
{
    reveal(Seq::filter);
    assert(profiles.push(profile).drop_last() =~= profiles);
}

/// `profile_index` is the least position of a profile of `vpn`.
pub proof fn lemma_profile_index(profiles: Seq<VpnProfile>, vpn: VpnKind)
    ensures
        0 <= profile_index(profiles, vpn) <= profiles.len(),
        profile_index(profiles, vpn) < profiles.len() ==> profiles[profile_index(
            profiles,
            vpn,
        )].vpn == vpn,
        forall|i: int|
            0 <= i < profile_index(profiles, vpn) ==> (#[trigger] profiles[i]).vpn != vpn,
    decreases profiles.len(),
{
    if profiles.len() == 0 || profiles[0].vpn == vpn {
    } else {
        let rest = profiles.skip(1);
        lemma_profile_index(rest, vpn);
        assert forall|i: int| 0 <= i < profile_index(profiles, vpn) implies (
        #[trigger] profiles[i]).vpn != vpn by {
            if i > 0 {
                assert(rest[i - 1] == profiles[i]);
            }
        }
    }
}

impl SplitterConfig {
    /// The position of the first profile of `vpn`.
    fn position(&self, vpn: VpnKind) -> (index: usize)
        ensures
            index == profile_index(self.profiles@, vpn),
    {
        let mut index: usize = 0;
        while index < self.profiles.len() && self.profiles[index].vpn != vpn
            invariant
                index <= self.profiles.len(),
                forall|i: int| 0 <= i < index ==> (#[trigger] self.profiles@[i]).vpn != vpn,
            decreases self.profiles.len() - index,
        {
            index = index + 1;
        }
        proof {
            lemma_profile_index(self.profiles@, vpn);
        }
        index
    }

    /// The first profile of `vpn`.
    pub fn profile(&self, vpn: VpnKind) -> (profile: Option<&VpnProfile>)
        ensures
            profile == match profile_of(self.profiles@, vpn) {
                Some(found) => Some(&found),
                None => None,
            },
    {
        let index: usize = self.position(vpn);
        if index < self.profiles.len() {
            Some(&self.profiles[index])
        } else {
            None
        }
    }

    /// The first profile of `vpn`, to be changed in place. Every other profile stays as
    /// it is.
    pub fn profile_mut(&mut self, vpn: VpnKind) -> (profile: Option<&mut VpnProfile>)
        ensures
            match profile {
                Some(found) => {
                    &&& profile_of(old(self).profiles@, vpn) == Some(*found)
                    &&& final(self).profiles@ == old(self).profiles@.update(
                        profile_index(old(self).profiles@, vpn),
                        *final(found),
                    )
                },
                None => {
                    &&& profile_of(old(self).profiles@, vpn) is None
                    &&& final(self).profiles@ == old(self).profiles@
                },
            },
    {
        let index: usize = self.position(vpn);
        if index < self.profiles.len() {
            Some(&mut self.profiles[index])
        } else {
            None
        }
    }

    /// Whether the first profile of `vpn` exists and is enabled.
    pub fn is_profile_enabled(&self, vpn: VpnKind) -> (enabled: bool)
        ensures
            enabled == is_enabled(self.profiles@, vpn),
    {
        match self.profile(vpn) {
            Some(profile) => profile.enabled,
            None => false,
        }
    }
}

/// White space, commas and semicolons separate the targets in a list.
pub open spec fn is_separator(c: char) -> bool {
    is_white_space(c) || c == ',' || c == ';'
}

/// The targets in a list: a separator adds nothing, a character behind a separator
/// starts a target, any other character continues the last target.
pub open spec fn tokens_of(text: Seq<char>) -> Seq<Seq<char>>
    decreases text.len(),
{
    if text.len() == 0 {
        Seq::empty()
    } else {
        let before = tokens_of(text.drop_last());
        if is_separator(text.last()) {
            before
        } else if text.len() == 1 || is_separator(text[text.len() - 2]) {
            before.push(seq![text.last()])
        } else {
            before.update(before.len() - 1, before.last().push(text.last()))
        }
    }
}

/// Whether the character separates the targets in a list.
fn is_separator_char(c: char) -> (separates: bool)
    ensures
        separates == is_separator(c),
{
    is_white_space_char(c) || c == ',' || c == ';'
}

/// The targets in a list.
pub fn target_tokens(input: &str) -> (tokens: Vec<String>)
    ensures
        tokens.deep_view() == tokens_of(input@),
{
    let chars: Vec<char> = chars_of(input);
    let n: usize = chars.len();
    let mut tokens: Vec<String> = Vec::new();
    let mut start: usize = 0;
    assert(tokens.deep_view() =~= tokens_of(input@.take(0)));
    for i in 0..n
        invariant
            n == chars.len(),
            chars@ == input@,
            start <= i,
            start == i ==> i == 0 || is_separator(input@[i - 1]),
            start < i ==> !is_separator(input@[i - 1]),
            tokens_of(input@.take(i as int)) == if start == i {
                tokens.deep_view()
            } else {
                tokens.deep_view().push(input@.subrange(start as int, i as int))
            },
    {
        let ghost done = tokens.deep_view();
        let ghost current = input@.subrange(start as int, i as int);
        let ghost before = input@.take(i as int);
        let ghost now = input@.take(i + 1);
        assert(now.drop_last() =~= before);
        assert(now.last() == input@[i as int]);
        if i > 0 {
            assert(now[now.len() - 2] == input@[i - 1]);
        }
        if is_separator_char(chars[i]) {
            if start < i {
                tokens.push(input.substring_char(start, i).to_owned());
                assert(tokens.deep_view() =~= done.push(current));
            }
            start = i + 1;
        } else {
            let ghost next = input@.subrange(start as int, i + 1);
            if start == i {
                assert(next =~= seq![now.last()]);
            } else {
                assert(next =~= current.push(now.last()));
                assert(done.push(next) =~= done.push(current).update(done.len() as int, next));
            }
        }
    }
    let ghost done = tokens.deep_view();
    assert(input@.take(n as int) =~= input@);
    if start < n {
        tokens.push(input.substring_char(start, n).to_owned());
        assert(tokens.deep_view() =~= done.push(input@.subrange(start as int, n as int)));
    }
    tokens
}

/// The destination that a URL names.
#[derive(Debug, PartialEq, Eq)]
pub enum Host {
    Domain(String),
    Ipv4(u32),
    Ipv6,
}

/// What a `Host` stands for.
#[verifier::ext_equal]
pub ghost enum HostView {
    Domain(Seq<char>),
    Ipv4(u32),
    Ipv6,
}

impl View for Host {
    type V = HostView;

    open spec fn view(&self) -> HostView {
        match self {
            Host::Domain(name) => HostView::Domain(name@),
            Host::Ipv4(address) => HostView::Ipv4(*address),
            Host::Ipv6 => HostView::Ipv6,
        }
    }
}

/// What reading a URL for its host stands for.
pub open spec fn url_answer(answer: Result<Option<Host>, String>) -> Result<
    Option<HostView>,
    Seq<char>,
> {
    match answer {
        Ok(Some(host)) => Ok(Some(host@)),
        Ok(None) => Ok(None),
        Err(error) => Err(error@),
    }
}

/// The host of a URL as the URL standard reads it, none for a URL without a host, or
/// the reason why the text is no URL.
pub uninterp spec fn url_host_of(text: Seq<char>) -> Result<Option<HostView>, Seq<char>>;

/// The character is one of those that a plain name is made of: lower-case ASCII letters,
/// digits, hyphens and dots.
pub open spec fn is_name_char(c: char) -> bool {
    is_lower_letter(c) || is_digit(c) || c == '-' || c == '.'
}

/// The character is one of `a` to `z`.
pub open spec fn is_lower_letter(c: char) -> bool {
    'a' as u32 <= c as u32 && c as u32 <= 'z' as u32
}

/// The text is a name that a URL takes as it stands: of lower-case ASCII letters, digits,
/// hyphens and dots, without an encoded label, and with a letter at the start of its last
/// label, so that it is no number.
pub open spec fn plain_name(name: Seq<char>) -> bool {
    &&& forall|i: int| 0 <= i < name.len() ==> is_name_char(#[trigger] name[i])
    &&& !has_text(name, "xn--"@)
    &&& split_on(name, '.').last().len() > 0
    &&& is_lower_letter(split_on(name, '.').last()[0])
}

/// The text is a colon, a port number, and a path or nothing.
pub open spec fn is_port_and_path(text: Seq<char>, digits: Seq<char>, path: Seq<char>) -> bool {
    &&& text == seq![':'] + digits + path
    &&& all_digits(digits)
    &&& number_of(digits) <= 65535
    &&& path.len() == 0 || path[0] == '/'
}

/// The text can follow the host in a URL: nothing, a path, or a port and a path or
/// nothing.
pub open spec fn follows_host(text: Seq<char>) -> bool {
    ||| text.len() == 0
    ||| text[0] == '/'
    ||| exists|digits: Seq<char>, path: Seq<char>| #[trigger] is_port_and_path(text, digits, path)
}

/// The text is a URL with a plain name for its host, with one of the protocols that
/// targets are read with, and short enough for positions in it to be 32-bit numbers when
/// every character is written as its percent-encoded bytes.
pub open spec fn plain_url(text: Seq<char>, name: Seq<char>) -> bool {
    &&& text.len() <= 0x1000_0000
    &&& plain_name(name)
    &&& exists|rest: Seq<char>| #[trigger]
        follows_host(rest) && (text == "http://"@ + name + rest || text == "https://"@ + name + rest
            || text == "route://"@ + name + rest)
}

/// Where the text is a URL with a plain name for its host, the name is the host.
pub open spec fn keeps_plain_name(
    text: Seq<char>,
    answer: Result<Option<HostView>, Seq<char>>,
) -> bool {
    forall|name: Seq<char>| #[trigger]
        plain_url(text, name) ==> (answer matches Ok(Some(host)) && host == HostView::Domain(name))
}

/// Reads a URL with `url::Url::parse` and takes the host out of it with
/// `url::Url::host`: a domain in the normal form that the crate gives it, an IPv4
/// address, or the fact that it is an IPv6 address. Claims that the text alone decides
/// the outcome, and that a plain name that stands as the host between the protocol and
/// the port or the path, or the end, is the host.
#[verifier::external_body]
fn url_host(text: &str) -> (answer: Result<Option<Host>, String>)
    ensures
        url_answer(answer) == url_host_of(text@),
        keeps_plain_name(text@, url_answer(answer)),
{
    match url::Url::parse(text) {
        Ok(address) => Ok(address.host().map(|host| match host {
            url::Host::Domain(name) => Host::Domain(name.to_owned()),
            url::Host::Ipv4(number) => Host::Ipv4(u32::from(number)),
            url::Host::Ipv6(_) => Host::Ipv6,
        })),
        Err(error) => Err(error.to_string()),
    }
}

/// Why a domain with a path behind it is no target.
pub open spec fn path_message() -> Seq<char> {
    "網域不可包含路徑；若要輸入完整網址，請包含 http:// 或 https://"@
}

/// The destination, where reading the URL found one.
pub open spec fn destination(answer: Result<Option<HostView>, Seq<char>>) -> Result<
    HostView,
    Seq<char>,
> {
    match answer {
        Ok(Some(host)) => Ok(host),
        Ok(None) => Err("缺少目的網域或 IP"@),
        Err(error) => Err(error),
    }
}

/// The destination that one entry of a list names: an address as it stands, the host
/// of a URL, or a bare name read like the host of a URL.
pub open spec fn host_named_by(token: Seq<char>) -> Result<HostView, Seq<char>> {
    if let Some(address) = parsed_address(token) {
        Ok(HostView::Ipv4(address))
    } else if has_text(token, "://"@) {
        destination(url_host_of(token))
    } else if has_text(token, "/"@) {
        Err(path_message())
    } else {
        destination(url_host_of("route://"@ + token))
    }
}

/// What a destination, or the reason why there is none, stands for.
pub open spec fn host_result(result: Result<Host, String>) -> Result<HostView, Seq<char>> {
    match result {
        Ok(host) => Ok(host@),
        Err(error) => Err(error@),
    }
}

/// The destination, where reading the URL found one.
pub fn destination_of(answer: Result<Option<Host>, String>) -> (result: Result<Host, String>)
    ensures
        host_result(result) == destination(url_answer(answer)),
{
    match answer {
        Ok(Some(host)) => Ok(host),
        Ok(None) => Err("缺少目的網域或 IP".to_owned()),
        Err(error) => Err(error),
    }
}

/// The entry is read as a URL, or as the host of one.
pub open spec fn names_url(token: Seq<char>) -> bool {
    has_text(token, "://"@) || (!has_text(token, "/"@) && parsed_address(token) is None)
}

/// The URL that the entry is read as.
pub open spec fn url_named_by(token: Seq<char>) -> Seq<char> {
    if has_text(token, "://"@) {
        token
    } else {
        "route://"@ + token
    }
}

/// An entry that is read as a URL is neither a network nor an address.
pub proof fn lemma_url_is_no_network(token: Seq<char>)
    requires
        names_url(token),
    ensures
        parsed_network(token) is None,
        parsed_address(token) is None,
{
    reveal_strlit("://");
    reveal_strlit("/");
    if has_text(token, "://"@) {
        let at = choose|at: int| #[trigger] occurs_at(token, "://"@, at);
        let found = token.subrange(at, at + 3);
        assert(found[1] == '/' && found[2] == '/');
        assert(token[at + 1] == '/' && token[at + 2] == '/');
        lemma_split_at_two(token, '/', at + 1, at + 2);
        let part = lemma_split_keeps(token, '.', at + 1);
        let octet = split_on(token, '.')[part];
        let k = choose|k: int| 0 <= k < octet.len() && octet[k] == '/';
        assert(!is_digit(octet[k]));
        assert(!all_digits(octet));
        if parsed_address(token) is Some {
            assert(is_number(octet, 3, 256));
        }
    } else {
        if token.contains('/') {
            let at = choose|at: int| 0 <= at < token.len() && token[at] == '/';
            assert(token.subrange(at, at + 1) =~= "/"@);
            assert(occurs_at(token, "/"@, at));
        }
        lemma_split_whole(token, '/');
    }
}

/// The entry is a plain name, or an `http` or `https` URL with the plain name for its host.
pub open spec fn named_plainly(token: Seq<char>, name: Seq<char>) -> bool {
    &&& token.len() + 8 <= 0x1000_0000
    &&& plain_name(name)
    &&& token == name || exists|rest: Seq<char>| #[trigger]
        follows_host(rest) && (token == "http://"@ + name + rest || token == "https://"@ + name
            + rest)
}

/// An entry that names a host plainly is read as a URL with that host.
pub proof fn lemma_named_plainly(token: Seq<char>, name: Seq<char>)
    requires
        named_plainly(token, name),
    ensures
        names_url(token),
        plain_url(url_named_by(token), name),
{
    reveal_strlit("://");
    reveal_strlit("/");
    reveal_strlit("http://");
    reveal_strlit("https://");
    reveal_strlit("route://");
    if token == name {
        assert(!has_text(token, "/"@)) by {
            if has_text(token, "/"@) {
                let at = choose|at: int| #[trigger] occurs_at(token, "/"@, at);
                assert(token.subrange(at, at + 1)[0] == token[at]);
                assert(is_name_char(name[at]));
            }
        }
        assert(!has_text(token, "://"@)) by {
            if has_text(token, "://"@) {
                let at = choose|at: int| #[trigger] occurs_at(token, "://"@, at);
                assert(token.subrange(at, at + 3)[1] == token[at + 1]);
                assert(is_name_char(name[at + 1]));
            }
        }
        assert(parsed_address(token) is None) by {
            let octets = split_on(token, '.');
            let last = octets.len() - 1;
            assert(!is_digit(octets[last][0]));
            assert(!all_digits(octets[last]));
            if parsed_address(token) is Some {
                assert(is_number(octets[last], 3, 256));
            }
        }
        assert(follows_host(Seq::<char>::empty()));
        assert("route://"@ + name + Seq::<char>::empty() =~= url_named_by(token));
    } else {
        let rest = choose|rest: Seq<char>| #[trigger]
            follows_host(rest) && (token == "http://"@ + name + rest || token == "https://"@ + name
                + rest);
        if token == "http://"@ + name + rest {
            assert(token.subrange(4, 7) =~= "://"@);
            assert(occurs_at(token, "://"@, 4));
        } else {
            assert(token.subrange(5, 8) =~= "://"@);
            assert(occurs_at(token, "://"@, 5));
        }
    }
}

/// The destination that one entry of a list names. Where it names a host plainly, that is
/// the destination.
pub fn target_host(token: &str) -> (result: Result<Host, String>)
    ensures
        host_result(result) == host_named_by(token@),
        forall|name: Seq<char>| #[trigger]
            named_plainly(token@, name) ==> host_named_by(token@) == Ok::<HostView, Seq<char>>(
                HostView::Domain(name),
            ),
{
    proof {
        assert forall|name: Seq<char>| #[trigger] named_plainly(token@, name) implies names_url(
            token@,
        ) && plain_url(url_named_by(token@), name) && parsed_address(token@) is None by {
            lemma_named_plainly(token@, name);
            lemma_url_is_no_network(token@);
        }
    }
    if let Some(address) = parse_address(token) {
        return Ok(Host::Ipv4(address));
    }
    if contains_text(token, "://") {
        destination_of(url_host(token))
    } else if contains_text(token, "/") {
        Err("網域不可包含路徑；若要輸入完整網址，請包含 http:// 或 https://".to_owned())
    } else {
        let mut address: String = "route://".to_owned();
        address.append(token);
        destination_of(url_host(address.as_str()))
    }
}

/// What one entry of a list asks to be directed to a VPN.
#[derive(Debug, PartialEq, Eq)]
pub enum Target {
    Network(Ipv4Net),
    Domain(String),
    Ipv6,
    Invalid(String),
}

/// What a `Target` stands for.
#[verifier::ext_equal]
pub ghost enum TargetView {
    Network(Ipv4Net),
    Domain(Seq<char>),
    Ipv6,
    Invalid(Seq<char>),
}

impl DeepView for Target {
    type V = TargetView;

    open spec fn deep_view(&self) -> TargetView {
        match self {
            Target::Network(network) => TargetView::Network(*network),
            Target::Domain(name) => TargetView::Domain(name@),
            Target::Ipv6 => TargetView::Ipv6,
            Target::Invalid(reason) => TargetView::Invalid(reason@),
        }
    }
}

/// One entry of a list, as it was written and as it was read.
#[derive(Debug, PartialEq, Eq)]
pub struct TargetEntry {
    pub token: String,
    pub target: Target,
}

/// What a `TargetEntry` stands for.
#[verifier::ext_equal]
pub ghost struct TargetEntryView {
    pub token: Seq<char>,
    pub target: TargetView,
}

impl DeepView for TargetEntry {
    type V = TargetEntryView;

    open spec fn deep_view(&self) -> TargetEntryView {
        TargetEntryView { token: self.token@, target: self.target.deep_view() }
    }
}

/// What an entry asks for: a network, named by its lowest address, where it reads as
/// one, and the destination that it names otherwise.
pub open spec fn target_of(token: Seq<char>) -> TargetView {
    match parsed_network(token) {
        Some(network) => TargetView::Network(network.truncated()),
        None => match host_named_by(token) {
            Ok(HostView::Ipv4(addr)) => TargetView::Network(Ipv4Net { addr, prefix_len: 32 }),
            Ok(HostView::Domain(name)) => TargetView::Domain(name),
            Ok(HostView::Ipv6) => TargetView::Ipv6,
            Err(reason) => TargetView::Invalid(reason),
        },
    }
}

/// The entries of a list.
pub open spec fn entries_of(text: Seq<char>) -> Seq<TargetEntryView> {
    tokens_of(text).map_values(
        |token: Seq<char>| TargetEntryView { token, target: target_of(token) },
    )
}

/// The entries of the text that name a host plainly read as that domain.
pub open spec fn reads_plainly(text: Seq<char>) -> bool {
    forall|j: int, name: Seq<char>|
        0 <= j < tokens_of(text).len() && #[trigger] named_plainly(tokens_of(text)[j], name)
            ==> target_of(tokens_of(text)[j]) == TargetView::Domain(name)
}

/// The entries of the enabled profiles that name a host plainly read as that domain.
pub open spec fn plain_names_read(profiles: Seq<VpnProfile>) -> bool {
    forall|i: int|
        0 <= i < profiles.len() && (#[trigger] profiles[i]).enabled ==> reads_plainly(
            profiles[i].networks@,
        )
}

/// Reads one entry of a list.
pub fn read_target(token: &str) -> (target: Target)
    ensures
        target.deep_view() == target_of(token@),
        forall|name: Seq<char>| #[trigger]
            named_plainly(token@, name) ==> target_of(token@) == TargetView::Domain(name),
{
    proof {
        assert forall|name: Seq<char>| #[trigger] named_plainly(token@, name) implies parsed_network(
            token@,
        ) is None by {
            lemma_named_plainly(token@, name);
            lemma_url_is_no_network(token@);
        }
    }
    match Ipv4Net::parse(token) {
        Some(network) => Target::Network(network.trunc()),
        None => match target_host(token) {
            Ok(Host::Ipv4(address)) => Target::Network(Ipv4Net::host(address)),
            Ok(Host::Domain(name)) => Target::Domain(name),
            Ok(Host::Ipv6) => Target::Ipv6,
            Err(reason) => Target::Invalid(reason),
        },
    }
}

/// Reads a list of targets.
pub fn read_targets(text: &str) -> (entries: Vec<TargetEntry>)
    ensures
        entries.deep_view() == entries_of(text@),
        reads_plainly(text@),
{
    let tokens: Vec<String> = target_tokens(text);
    let mut entries: Vec<TargetEntry> = Vec::new();
    for i in 0..tokens.len()
        invariant
            tokens.deep_view() == tokens_of(text@),
            entries.deep_view() == entries_of(text@).take(i as int),
            forall|j: int, name: Seq<char>|
                0 <= j < i && #[trigger] named_plainly(tokens_of(text@)[j], name) ==> target_of(
                    tokens_of(text@)[j],
                ) == TargetView::Domain(name),
    {
        let ghost done = entries.deep_view();
        assert(tokens@[i as int]@ == tokens_of(text@)[i as int]);
        let target: Target = read_target(tokens[i].as_str());
        entries.push(TargetEntry { token: tokens[i].clone(), target });
        assert(entries.deep_view() =~= done.push(entries_of(text@)[i as int]));
    }
    assert(entries_of(text@).take(tokens.len() as int) =~= entries_of(text@));
    entries
}

/// Some entry names a domain.
pub open spec fn has_domain(entries: Seq<TargetEntryView>) -> bool {
    exists|i: int| 0 <= i < entries.len() && (#[trigger] entries[i]).target is Domain
}

/// Some entry of some enabled profile names a domain.
pub open spec fn names_enabled_domain(profiles: Seq<VpnProfile>) -> bool {
    exists|i: int|
        0 <= i < profiles.len() && (#[trigger] profiles[i]).enabled && has_domain(
            entries_of(profiles[i].networks@),
        )
}

/// Whether some entry of some enabled profile names a domain.
pub fn has_enabled_dns_targets(config: &SplitterConfig) -> (found: bool)
    ensures
        found == names_enabled_domain(config.profiles@),
{
    for i in 0..config.profiles.len()
        invariant
            forall|k: int|
                0 <= k < i && (#[trigger] config.profiles@[k]).enabled ==> !has_domain(
                    entries_of(config.profiles@[k].networks@),
                ),
    {
        if config.profiles[i].enabled {
            let entries: Vec<TargetEntry> = read_targets(config.profiles[i].networks.as_str());
            let ghost views = entries.deep_view();
            for j in 0..entries.len()
                invariant
                    views == entries.deep_view(),
                    i < config.profiles.len(),
                    config.profiles@[i as int].enabled,
                    views == entries_of(config.profiles@[i as int].networks@),
                    forall|k: int| 0 <= k < j ==> !((#[trigger] views[k]).target is Domain),
            {
                if let Target::Domain(_) = &entries[j].target {
                    assert(views[j as int].target is Domain);
                    return true;
                }
            }
        }
    }
    false
}

/// Why an IPv6 address is no target.
pub open spec fn ipv6_message(token: Seq<char>) -> Seq<char> {
    "「"@ + token + "」是 IPv6；目前只支援 IPv4。"@
}

/// The distinct domains among the entries, in increasing order; the reason of the
/// first entry that is no IPv4 network and no domain, where there is one.
pub open spec fn domains_among(entries: Seq<TargetEntryView>) -> Result<
    Seq<Seq<char>>,
    Seq<char>,
>
    decreases entries.len(),
{
    if entries.len() == 0 {
        Ok(Seq::empty())
    } else {
        match domains_among(entries.drop_last()) {
            Err(reason) => Err(reason),
            Ok(names) => match entries.last().target {
                TargetView::Network(_) => Ok(names),
                TargetView::Domain(name) => Ok(insert_text(names, name)),
                TargetView::Ipv6 => Err(ipv6_message(entries.last().token)),
                TargetView::Invalid(reason) => Err(reason),
            },
        }
    }
}

/// The networks among the entries, in their order; the reason of the first entry that
/// is neither a domain nor an IPv4 network with a prefix, where there is one.
pub open spec fn networks_among(entries: Seq<TargetEntryView>) -> Result<Seq<Ipv4Net>, Seq<char>>
    decreases entries.len(),
{
    if entries.len() == 0 {
        Ok(Seq::empty())
    } else {
        match networks_among(entries.drop_last()) {
            Err(reason) => Err(reason),
            Ok(networks) => match entries.last().target {
                TargetView::Network(network) => if network.prefix_len == 0 {
                    Err("0.0.0.0/0 不可作為分流目標"@)
                } else {
                    Ok(networks.push(network))
                },
                TargetView::Domain(_) => Ok(networks),
                TargetView::Ipv6 => Err(ipv6_message(entries.last().token)),
                TargetView::Invalid(reason) => Err(reason),
            },
        }
    }
}

/// A failure among the first entries is the failure of all of them.
proof fn lemma_first_failure_stands(entries: Seq<TargetEntryView>, count: int)
    requires
        0 <= count <= entries.len(),
    ensures
        domains_among(entries.take(count)) is Err ==> domains_among(entries) == domains_among(
            entries.take(count),
        ),
        networks_among(entries.take(count)) is Err ==> networks_among(entries) == networks_among(
            entries.take(count),
        ),
    decreases entries.len() - count,
{
    if count < entries.len() {
        assert(entries.take(count + 1).drop_last() =~= entries.take(count));
        lemma_first_failure_stands(entries, count + 1);
    } else {
        assert(entries.take(count) =~= entries);
    }
}

/// What a list of texts, or the reason why there is none, stands for.
pub open spec fn texts_result(result: Result<Vec<String>, String>) -> Result<
    Seq<Seq<char>>,
    Seq<char>,
> {
    match result {
        Ok(texts) => Ok(texts.deep_view()),
        Err(reason) => Err(reason@),
    }
}

/// What a list of networks, or the reason why there is none, stands for.
pub open spec fn networks_result(result: Result<Vec<Ipv4Net>, String>) -> Result<
    Seq<Ipv4Net>,
    Seq<char>,
> {
    match result {
        Ok(networks) => Ok(networks@),
        Err(reason) => Err(reason@),
    }
}

/// Says that an entry is an IPv6 address.
fn ipv6_text(token: &str) -> (message: String)
    ensures
        message@ == ipv6_message(token@),
{
    let mut message: String = "「".to_owned();
    message.append(token);
    message.append("」是 IPv6；目前只支援 IPv4。");
    message
}

/// The distinct domains among the entries, in increasing order.
pub fn dns_hostnames(entries: &Vec<TargetEntry>) -> (result: Result<Vec<String>, String>)
    ensures
        texts_result(result) == domains_among(entries.deep_view()),
{
    let ghost views = entries.deep_view();
    let mut names: Vec<String> = Vec::new();
    assert(names.deep_view() =~= Seq::empty());
    for i in 0..entries.len()
        invariant
            views == entries.deep_view(),
            domains_among(views.take(i as int)) == Ok::<Seq<Seq<char>>, Seq<char>>(
                names.deep_view(),
            ),
    {
        let ghost next = views.take(i + 1);
        assert(next.drop_last() =~= views.take(i as int));
        assert(next.last() == entries@[i as int].deep_view());
        proof {
            lemma_first_failure_stands(views, i + 1);
        }
        match &entries[i].target {
            Target::Network(_) => {},
            Target::Domain(name) => {
                insert_into_texts(&mut names, name.clone());
            },
            Target::Ipv6 => {
                return Err(ipv6_text(entries[i].token.as_str()));
            },
            Target::Invalid(reason) => {
                return Err(reason.clone());
            },
        }
    }
    assert(views.take(entries.len() as int) =~= views);
    Ok(names)
}

/// The networks among the entries.
pub fn static_networks(entries: &Vec<TargetEntry>) -> (result: Result<Vec<Ipv4Net>, String>)
    ensures
        networks_result(result) == networks_among(entries.deep_view()),
{
    let ghost views = entries.deep_view();
    let mut networks: Vec<Ipv4Net> = Vec::new();
    for i in 0..entries.len()
        invariant
            views == entries.deep_view(),
            networks_among(views.take(i as int)) == Ok::<Seq<Ipv4Net>, Seq<char>>(networks@),
    {
        let ghost next = views.take(i + 1);
        assert(next.drop_last() =~= views.take(i as int));
        assert(next.last() == entries@[i as int].deep_view());
        proof {
            lemma_first_failure_stands(views, i + 1);
        }
        match &entries[i].target {
            Target::Network(network) => {
                if network.prefix_len == 0 {
                    return Err("0.0.0.0/0 不可作為分流目標".to_owned());
                }
                networks.push(*network);
            },
            Target::Domain(_) => {},
            Target::Ipv6 => {
                return Err(ipv6_text(entries[i].token.as_str()));
            },
            Target::Invalid(reason) => {
                return Err(reason.clone());
            },
        }
    }
    assert(views.take(entries.len() as int) =~= views);
    Ok(networks)
}

/// The distinct domains that a profile lists, in increasing order.
pub fn configured_dns_hostnames(profile: &VpnProfile) -> (result: Result<Vec<String>, String>)
    ensures
        texts_result(result) == domains_among(entries_of(profile.networks@)),
{
    dns_hostnames(&read_targets(profile.networks.as_str()))
}

/// The networks that a profile lists.
pub fn configured_static_networks(profile: &VpnProfile) -> (result: Result<Vec<Ipv4Net>, String>)
    ensures
        networks_result(result) == networks_among(entries_of(profile.networks@)),
{
    static_networks(&read_targets(profile.networks.as_str()))
}

}
