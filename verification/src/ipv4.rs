//! IPv4 addresses and networks.
//!
//! An address is its number, from 0 to 2^32 - 1. A network is an address and the
//! number of leading bits that its members share with that address.

use vstd::arithmetic::power2::{lemma2_to64, lemma_pow2_adds, lemma_pow2_pos, pow2};
use vstd::bits::lemma_u64_shl_is_mul;
use vstd::prelude::*;

use crate::text::{
    all_digits, append_decimal, chars_of, decimal, is_digit, lemma_decimal, lemma_split_push,
    lemma_split_whole, number_of, split_chars, split_on,
};

verus! {

/// An IPv4 network: an address and a prefix length of at most 32.
#[derive(Debug, Clone, Copy, PartialEq, Eq, Structural, Hash)]
pub struct Ipv4Net {
    pub addr: u32,
    pub prefix_len: u8,
}

/// How many addresses share the leading `prefix_len` bits.
pub open spec fn block_size(prefix_len: u8) -> nat {
    if prefix_len >= 32 {
        1
    } else {
        pow2((32 - prefix_len) as nat)
    }
}

impl Ipv4Net {
    /// The prefix length is one that an IPv4 network can have.
    pub open spec fn valid(self) -> bool {
        self.prefix_len <= 32
    }

    /// The lowest address of the network.
    pub open spec fn first(self) -> int {
        self.addr as int - self.addr as int % block_size(self.prefix_len) as int
    }

    /// The highest address of the network.
    pub open spec fn last(self) -> int {
        self.first() + block_size(self.prefix_len) - 1
    }

    /// The address shares the leading bits of the network.
    pub open spec fn covers(self, address: u32) -> bool {
        self.first() <= address as int <= self.last()
    }

    /// The same network, named by its lowest address.
    pub open spec fn truncated(self) -> Ipv4Net {
        Ipv4Net { addr: self.first() as u32, prefix_len: self.prefix_len }
    }

    /// The network in the notation `a.b.c.d/n`.
    pub open spec fn text(self) -> Seq<char> {
        address_text(self.addr) + seq!['/'] + decimal(self.prefix_len as nat)
    }
}

/// The address in the notation `a.b.c.d`.
pub open spec fn address_text(address: u32) -> Seq<char> {
    decimal((address / 0x100_0000) as nat) + seq!['.'] + decimal(
        (address / 0x1_0000 % 0x100) as nat,
    ) + seq!['.'] + decimal((address / 0x100 % 0x100) as nat) + seq!['.'] + decimal(
        (address % 0x100) as nat,
    )
}

/// `text` is a number of one to `digits` decimal digits that is below `limit`.
pub open spec fn is_number(text: Seq<char>, digits: nat, limit: nat) -> bool {
    1 <= text.len() <= digits && all_digits(text) && number_of(text) < limit
}

/// The address that four numbers stand for.
pub open spec fn address_of_numbers(octets: Seq<Seq<char>>) -> u32 {
    (number_of(octets[0]) * 0x100_0000 + number_of(octets[1]) * 0x1_0000 + number_of(octets[2])
        * 0x100 + number_of(octets[3])) as u32
}

/// Four numbers below 256.
pub open spec fn are_octets(octets: Seq<Seq<char>>) -> bool {
    octets.len() == 4 && forall|i: int| 0 <= i < 4 ==> is_number(#[trigger] octets[i], 3, 256)
}

/// The address that `a.b.c.d` names. A number with a leading zero is not one of the
/// notation.
pub open spec fn parsed_address(text: Seq<char>) -> Option<u32> {
    let octets = split_on(text, '.');
    if are_octets(octets) && forall|i: int|
        0 <= i < 4 ==> (#[trigger] octets[i]).len() == 1 || octets[i][0] != '0' {
        Some(address_of_numbers(octets))
    } else {
        None
    }
}

/// The network that `a.b.c.d/n` names.
pub open spec fn parsed_network(text: Seq<char>) -> Option<Ipv4Net> {
    let halves = split_on(text, '/');
    let octets = split_on(halves[0], '.');
    if halves.len() == 2 && are_octets(octets) && is_number(halves[1], 2, 33) {
        Some(
            Ipv4Net {
                addr: address_of_numbers(octets),
                prefix_len: number_of(halves[1]) as u8,
            },
        )
    } else {
        None
    }
}

/// Reads a network with `ipnet`, whose `FromStr` takes four numbers of one to three
/// digits below 256 with dots between them, a slash, and a number of one or two
/// digits of at most 32, and nothing else. Leading zeros are accepted. Nothing is
/// truncated.
#[verifier::external_body]
fn ipnet_parse(text: &str) -> (network: Option<(u32, u8)>)
    ensures
        network == match parsed_network(text@) {
            Some(found) => Some((found.addr, found.prefix_len)),
            None => None,
        },
{
    text.parse::<ipnet::Ipv4Net>().ok().map(|found| (u32::from(found.addr()), found.prefix_len()))
}

/// A block has at least one address, and the blocks of one size fill the whole
/// address space.
pub proof fn lemma_block_size(prefix_len: u8)
    ensures
        1 <= block_size(prefix_len) <= 0x1_0000_0000,
        prefix_len <= 32 ==> block_size(prefix_len) * pow2(prefix_len as nat) == 0x1_0000_0000,
{
    lemma2_to64();
    if prefix_len <= 32 {
        lemma_pow2_adds((32 - prefix_len) as nat, prefix_len as nat);
        lemma_pow2_pos(prefix_len as nat);
        lemma_pow2_pos((32 - prefix_len) as nat);
        assert(block_size(prefix_len) * pow2(prefix_len as nat) == 0x1_0000_0000);
        assert(block_size(prefix_len) <= 0x1_0000_0000) by (nonlinear_arith)
            requires
                block_size(prefix_len) * pow2(prefix_len as nat) == 0x1_0000_0000,
                pow2(prefix_len as nat) >= 1,
        ;
    }
}

/// The addresses of a network are a block that starts at a multiple of its size and
/// lies within the address space.
pub proof fn lemma_network_range(network: Ipv4Net)
    ensures
        network.first() == block_size(network.prefix_len) * (network.addr as int / block_size(
            network.prefix_len,
        ) as int),
        0 <= network.first() <= network.addr <= network.last() <= 0xffff_ffff,
{
    let size = block_size(network.prefix_len) as int;
    let addr = network.addr as int;
    lemma_block_size(network.prefix_len);
    vstd::arithmetic::div_mod::lemma_fundamental_div_mod(addr, size);
    assert(0 <= addr % size < size) by (nonlinear_arith)
        requires
            size >= 1,
    ;
    let quotient = addr / size;
    assert(quotient >= 0) by (nonlinear_arith)
        requires
            addr >= 0,
            size >= 1,
            quotient == addr / size,
    ;
    assert(size * quotient >= 0) by (nonlinear_arith)
        requires
            quotient >= 0,
            size >= 1,
    ;
    if network.prefix_len <= 32 {
        let blocks = pow2(network.prefix_len as nat) as int;
        assert(quotient + 1 <= blocks) by (nonlinear_arith)
            requires
                size * quotient <= addr,
                addr < 0x1_0000_0000,
                size * blocks == 0x1_0000_0000,
                size >= 1,
        ;
        assert(size * quotient + size <= 0x1_0000_0000) by (nonlinear_arith)
            requires
                quotient + 1 <= blocks,
                size * blocks == 0x1_0000_0000,
                size >= 1,
        ;
    }
}

/// Naming a network by its lowest address keeps its addresses.
pub proof fn lemma_truncated(network: Ipv4Net)
    ensures
        network.truncated().first() == network.first(),
        network.truncated().last() == network.last(),
        network.truncated().addr == network.first(),
{
    let size = block_size(network.prefix_len) as int;
    let quotient = network.addr as int / size;
    lemma_network_range(network);
    lemma_block_size(network.prefix_len);
    vstd::arithmetic::div_mod::lemma_mod_multiples_basic(quotient, size);
    assert(quotient * size == size * quotient) by (nonlinear_arith);
}

/// Of two networks with an address in common, one lies wholly within the other: the
/// one with the longer prefix.
pub proof fn law_networks_nest(wide: Ipv4Net, narrow: Ipv4Net, common: u32)
    requires
        wide.valid(),
        narrow.valid(),
        wide.prefix_len <= narrow.prefix_len,
        wide.covers(common),
        narrow.covers(common),
    ensures
        forall|address: u32| narrow.covers(address) ==> wide.covers(address),
        wide.first() <= narrow.first() <= narrow.last() <= wide.last(),
{
    let big = block_size(wide.prefix_len) as int;
    let small = block_size(narrow.prefix_len) as int;
    let ratio = pow2((narrow.prefix_len - wide.prefix_len) as nat) as int;
    lemma_network_range(wide);
    lemma_network_range(narrow);
    lemma_block_size(wide.prefix_len);
    lemma_block_size(narrow.prefix_len);
    lemma2_to64();
    lemma_pow2_adds(
        (32 - narrow.prefix_len) as nat,
        (narrow.prefix_len - wide.prefix_len) as nat,
    );
    assert(big == small * ratio);
    let p = wide.addr as int / big;
    let q = narrow.addr as int / small;
    let at = common as int;
    assert(ratio * p <= q) by (nonlinear_arith)
        requires
            big == small * ratio,
            big * p <= at,
            at < small * q + small,
            small >= 1,
    ;
    assert(big * p <= small * q) by (nonlinear_arith)
        requires
            big == small * ratio,
            ratio * p <= q,
            small >= 1,
    ;
    assert(q + 1 <= ratio * (p + 1)) by (nonlinear_arith)
        requires
            big == small * ratio,
            small * q <= at,
            at < big * p + big,
            small >= 1,
    ;
    assert(small * q + small <= big * p + big) by (nonlinear_arith)
        requires
            big == small * ratio,
            q + 1 <= ratio * (p + 1),
            small >= 1,
    ;
}

/// Two networks have an address in common.
pub open spec fn overlap(left: Ipv4Net, right: Ipv4Net) -> bool {
    exists|address: u32| left.covers(address) && #[trigger] right.covers(address)
}

/// Two networks have an address in common exactly when the lowest address of one lies
/// in the other.
pub proof fn law_overlap_at_lowest_address(left: Ipv4Net, right: Ipv4Net)
    requires
        left.valid(),
        right.valid(),
    ensures
        overlap(left, right) <==> left.covers(right.first() as u32) || right.covers(
            left.first() as u32,
        ),
{
    lemma_network_range(left);
    lemma_network_range(right);
    if overlap(left, right) {
        let address = choose|address: u32| left.covers(address) && #[trigger] right.covers(address);
        if left.prefix_len <= right.prefix_len {
            law_networks_nest(left, right, address);
        } else {
            law_networks_nest(right, left, address);
        }
    } else {
        assert(left.covers(left.first() as u32));
        assert(right.covers(right.first() as u32));
    }
}

/// How many addresses share the leading `prefix_len` bits.
fn block_size_of(prefix_len: u8) -> (size: u64)
    ensures
        size == block_size(prefix_len),
{
    if prefix_len >= 32 {
        1
    } else {
        let shift: u64 = 32 - prefix_len as u64;
        proof {
            lemma_block_size(prefix_len);
            lemma_u64_shl_is_mul(1, shift);
        }
        1u64 << shift
    }
}

impl Ipv4Net {
    /// The network of an address and a prefix length; none for a length over 32.
    pub fn new(addr: u32, prefix_len: u8) -> (network: Option<Ipv4Net>)
        ensures
            network == if prefix_len <= 32 {
                Some(Ipv4Net { addr, prefix_len })
            } else {
                None
            },
    {
        if prefix_len <= 32 {
            Some(Ipv4Net { addr, prefix_len })
        } else {
            None
        }
    }

    /// The network of one address.
    pub fn host(addr: u32) -> (network: Ipv4Net)
        ensures
            network == (Ipv4Net { addr, prefix_len: 32 }),
    {
        Ipv4Net { addr, prefix_len: 32 }
    }

    /// Reads the notation `a.b.c.d/n`.
    pub fn parse(text: &str) -> (network: Option<Ipv4Net>)
        ensures
            network == parsed_network(text@),
            network matches Some(found) ==> found.valid(),
    {
        match ipnet_parse(text) {
            Some((addr, prefix_len)) => Some(Ipv4Net { addr, prefix_len }),
            None => None,
        }
    }

    /// The lowest address.
    pub fn network(&self) -> (address: u32)
        ensures
            address == self.first(),
    {
        proof {
            lemma_network_range(*self);
            lemma_block_size(self.prefix_len);
            assert(0 <= self.addr as int % block_size(self.prefix_len) as int <= self.addr);
        }
        let size: u64 = block_size_of(self.prefix_len);
        (self.addr as u64 - self.addr as u64 % size) as u32
    }

    /// The highest address.
    pub fn broadcast(&self) -> (address: u32)
        ensures
            address == self.last(),
    {
        proof {
            lemma_network_range(*self);
            lemma_block_size(self.prefix_len);
        }
        let size: u64 = block_size_of(self.prefix_len);
        (self.network() as u64 + (size - 1)) as u32
    }

    /// The same network, named by its lowest address.
    pub fn trunc(&self) -> (network: Ipv4Net)
        ensures
            network == self.truncated(),
    {
        Ipv4Net { addr: self.network(), prefix_len: self.prefix_len }
    }

    /// Whether the address belongs to the network.
    pub fn contains(&self, address: u32) -> (inside: bool)
        ensures
            inside == self.covers(address),
    {
        self.network() <= address && address <= self.broadcast()
    }

    /// The network in the notation `a.b.c.d/n`.
    pub fn to_text(&self) -> (text: String)
        ensures
            text@ == self.text(),
    {
        let mut text: String = address_to_text(self.addr);
        proof {
            reveal_strlit("/");
        }
        text.append("/");
        append_decimal(&mut text, self.prefix_len as u64);
        assert(text@ =~= self.text());
        text
    }
}

/// The address in the notation `a.b.c.d`.
pub fn address_to_text(address: u32) -> (text: String)
    ensures
        text@ == address_text(address),
{
    let mut text: String = String::new();
    proof {
        reveal_strlit(".");
    }
    append_decimal(&mut text, (address / 0x100_0000) as u64);
    text.append(".");
    append_decimal(&mut text, (address / 0x1_0000 % 0x100) as u64);
    text.append(".");
    append_decimal(&mut text, (address / 0x100 % 0x100) as u64);
    text.append(".");
    append_decimal(&mut text, (address % 0x100) as u64);
    assert(text@ =~= address_text(address));
    text
}

/// The number in one part of the notation `a.b.c.d`.
fn octet_of(digits: &Vec<char>) -> (octet: Option<u32>)
    ensures
        octet == if is_number(digits@, 3, 256) && (digits.len() == 1 || digits@[0] != '0') {
            Some(number_of(digits@) as u32)
        } else {
            None
        },
        octet matches Some(value) ==> value == number_of(digits@) && value < 256,
{
    let n: usize = digits.len();
    if n == 0 || n > 3 || (n > 1 && digits[0] == '0') {
        return None;
    }
    let mut value: u32 = 0;
    assert(digits@.take(0) =~= Seq::empty());
    for i in 0..n
        invariant
            n == digits.len(),
            n <= 3,
            value == number_of(digits@.take(i as int)),
            value < 1000,
            i == 0 ==> value < 1,
            i == 1 ==> value < 10,
            i == 2 ==> value < 100,
            forall|k: int| 0 <= k < i ==> is_digit(#[trigger] digits@[k]),
    {
        let c: char = digits[i];
        let code: u32 = c as u32;
        if code < '0' as u32 || code > '9' as u32 {
            assert(!is_digit(digits@[i as int]));
            return None;
        }
        assert(digits@.take(i + 1).drop_last() =~= digits@.take(i as int));
        value = value * 10 + (code - '0' as u32);
    }
    assert(digits@.take(n as int) =~= digits@);
    if value < 256 {
        Some(value)
    } else {
        None
    }
}

/// Reads the notation `a.b.c.d`, in which no number starts with a superfluous zero.
pub fn parse_address(text: &str) -> (address: Option<u32>)
    ensures
        address == parsed_address(text@),
{
    let chars: Vec<char> = chars_of(text);
    let parts: Vec<Vec<char>> = split_chars(&chars, '.');
    let ghost octets = split_on(text@, '.');
    if parts.len() != 4 {
        return None;
    }
    assert(forall|i: int| 0 <= i < 4 ==> #[trigger] octets[i] == parts@[i]@);
    let a: Option<u32> = octet_of(&parts[0]);
    let b: Option<u32> = octet_of(&parts[1]);
    let c: Option<u32> = octet_of(&parts[2]);
    let d: Option<u32> = octet_of(&parts[3]);
    match (a, b, c, d) {
        (Some(a), Some(b), Some(c), Some(d)) => {
            Some(a * 0x100_0000 + b * 0x1_0000 + c * 0x100 + d)
        },
        _ => {
            assert(octets[0] == parts@[0]@ && octets[1] == parts@[1]@ && octets[2] == parts@[2]@
                && octets[3] == parts@[3]@);
            None
        },
    }
}

/// Four parts without dots, joined by dots, split into those parts again.
proof fn lemma_split_four(a: Seq<char>, b: Seq<char>, c: Seq<char>, d: Seq<char>)
    requires
        !a.contains('.'),
        !b.contains('.'),
        !c.contains('.'),
        !d.contains('.'),
    ensures
        split_on(a + seq!['.'] + b + seq!['.'] + c + seq!['.'] + d, '.') == seq![a, b, c, d],
{
    lemma_split_whole(a, '.');
    lemma_split_push(a, b, '.');
    lemma_split_push(a + seq!['.'] + b, c, '.');
    lemma_split_push(a + seq!['.'] + b + seq!['.'] + c, d, '.');
    assert(seq![a].push(b).push(c).push(d) =~= seq![a, b, c, d]);
}

/// The decimal notation of a number below 256 is one part of the notation `a.b.c.d`.
proof fn lemma_octet_text(value: nat)
    requires
        value < 256,
    ensures
        is_number(decimal(value), 3, 256),
        number_of(decimal(value)) == value,
        decimal(value).len() == 1 || decimal(value)[0] != '0',
        !decimal(value).contains('.'),
        !decimal(value).contains('/'),
{
    lemma_decimal(value);
    let text = decimal(value);
    assert forall|i: int| 0 <= i < text.len() implies text[i] != '.' && text[i] != '/' by {
        assert(is_digit(text[i]));
    }
}

/// Four numbers below 256 with dots between them name an address.
proof fn lemma_octets_read(p: nat, q: nat, r: nat, s: nat)
    requires
        p < 256,
        q < 256,
        r < 256,
        s < 256,
    ensures
        ({
            let text = decimal(p) + seq!['.'] + decimal(q) + seq!['.'] + decimal(r) + seq!['.']
                + decimal(s);
            &&& parsed_address(text) == Some(
                (p * 0x100_0000 + q * 0x1_0000 + r * 0x100 + s) as u32,
            )
            &&& !text.contains('/')
        }),
{
    let text = decimal(p) + seq!['.'] + decimal(q) + seq!['.'] + decimal(r) + seq!['.'] + decimal(s);
    lemma_octet_text(p);
    lemma_octet_text(q);
    lemma_octet_text(r);
    lemma_octet_text(s);
    lemma_split_four(decimal(p), decimal(q), decimal(r), decimal(s));
    let octets = split_on(text, '.');
    assert(octets == seq![decimal(p), decimal(q), decimal(r), decimal(s)]);
    assert(octets[0] == decimal(p) && octets[1] == decimal(q) && octets[2] == decimal(r)
        && octets[3] == decimal(s));
    lemma_lacks_slash(decimal(p), decimal(q));
    lemma_lacks_slash(decimal(p) + seq!['.'] + decimal(q), decimal(r));
    lemma_lacks_slash(decimal(p) + seq!['.'] + decimal(q) + seq!['.'] + decimal(r), decimal(s));
}

/// Two texts without slashes have none when a dot joins them.
proof fn lemma_lacks_slash(left: Seq<char>, right: Seq<char>)
    requires
        !left.contains('/'),
        !right.contains('/'),
    ensures
        !(left + seq!['.'] + right).contains('/'),
{
    let text = left + seq!['.'] + right;
    assert forall|i: int| 0 <= i < text.len() implies text[i] != '/' by {
        if i < left.len() {
            assert(text[i] == left[i]);
        } else if i > left.len() {
            assert(text[i] == right[i - left.len() - 1]);
        }
    }
}

/// An address reads back from its own notation.
pub proof fn law_address_round_trip(address: u32)
    ensures
        parsed_address(address_text(address)) == Some(address),
        !address_text(address).contains('/'),
{
    let p: u32 = address / 0x100_0000;
    let q: u32 = address / 0x1_0000 % 0x100;
    let r: u32 = address / 0x100 % 0x100;
    let s: u32 = address % 0x100;
    assert(address / 0x100_0000 < 0x100 && (address / 0x100_0000) * 0x100_0000 + (address / 0x1_0000
        % 0x100) * 0x1_0000 + (address / 0x100 % 0x100) * 0x100 + address % 0x100 == address)
        by (bit_vector);
    lemma_octets_read(p as nat, q as nat, r as nat, s as nat);
}

/// A network reads back from its own notation.
pub proof fn law_network_round_trip(network: Ipv4Net)
    requires
        network.valid(),
    ensures
        parsed_network(network.text()) == Some(network),
{
    let address = address_text(network.addr);
    let length = decimal(network.prefix_len as nat);
    law_address_round_trip(network.addr);
    lemma_decimal(network.prefix_len as nat);
    lemma_split_whole(address, '/');
    lemma_split_push(address, length, '/');
    assert(split_on(network.text(), '/') =~= seq![address, length]);
}

}
