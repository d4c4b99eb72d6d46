//! What holds of texts, of the lists that users write and of the addresses in them.

use vstd::arithmetic::power2::pow2;
use vstd::prelude::*;

use crate::domain::{is_separator, target_of, tokens_of, TargetView, VpnKind};
use crate::ipv4::{
    address_of_numbers, address_text, block_size, is_number, law_address_round_trip,
    lemma_block_size, lemma_network_range, lemma_truncated, parsed_address, parsed_network, Ipv4Net,
};
use crate::text::{
    all_digits, ascii_lower, decimal, digit, has_text, is_digit, is_white_space, joined,
    lemma_split_nonempty, lemma_split_whole, number_of, occurs_at, split_on, text_less, to_lower,
    trim_end, trim_start, trimmed,
};
use crate::windows::AdapterView;

verus! {

/// The text is `inner` with white space round it.
pub open spec fn surrounds(text: Seq<char>, inner: Seq<char>, from: int) -> bool {
    &&& 0 <= from
    &&& from + inner.len() <= text.len()
    &&& text.subrange(from, from + inner.len()) == inner
    &&& forall|i: int|
        0 <= i < text.len() && !(from <= i < from + inner.len()) ==> is_white_space(
            #[trigger] text[i],
        )
}

/// What is left of the start of a text.
proof fn lemma_trim_start(text: Seq<char>)
    ensures
        ({
            let rest = trim_start(text);
            &&& rest.len() <= text.len()
            &&& rest == text.skip(text.len() - rest.len())
            &&& forall|i: int|
                0 <= i < text.len() - rest.len() ==> is_white_space(#[trigger] text[i])
            &&& rest.len() > 0 ==> !is_white_space(rest[0])
        }),
    decreases text.len(),
{
    if text.len() > 0 && is_white_space(text[0]) {
        let next = text.skip(1);
        lemma_trim_start(next);
        let rest = trim_start(text);
        assert(rest =~= text.skip(text.len() - rest.len()));
        assert forall|i: int| 0 <= i < text.len() - rest.len() implies is_white_space(
            #[trigger] text[i],
        ) by {
            if i > 0 {
                assert(next[i - 1] == text[i]);
            }
        }
    } else {
        assert(text =~= text.skip(0));
    }
}

/// What is left of the end of a text.
proof fn lemma_trim_end(text: Seq<char>)
    ensures
        ({
            let rest = trim_end(text);
            &&& rest.len() <= text.len()
            &&& rest == text.take(rest.len() as int)
            &&& forall|i: int| rest.len() <= i < text.len() ==> is_white_space(#[trigger] text[i])
            &&& rest.len() > 0 ==> !is_white_space(rest[rest.len() - 1])
        }),
    decreases text.len(),
{
    if text.len() > 0 && is_white_space(text.last()) {
        let next = text.drop_last();
        lemma_trim_end(next);
        let rest = trim_end(text);
        assert(rest =~= text.take(rest.len() as int));
        assert forall|i: int| rest.len() <= i < text.len() implies is_white_space(
            #[trigger] text[i],
        ) by {
            if i < next.len() {
                assert(next[i] == text[i]);
            }
        }
    } else {
        assert(text =~= text.take(text.len() as int));
    }
}

/// Trimming takes away all white space at both ends and nothing else.
pub proof fn law_trimming_takes_white_space_only(text: Seq<char>)
    ensures
        exists|from: int| surrounds(text, trimmed(text), from),
        trimmed(text).len() > 0 ==> !is_white_space(trimmed(text)[0]) && !is_white_space(
            trimmed(text)[trimmed(text).len() - 1],
        ),
{
    let rest = trim_start(text);
    let inner = trimmed(text);
    lemma_trim_start(text);
    lemma_trim_end(rest);
    let from = text.len() - rest.len();
    assert(text.subrange(from, from + inner.len()) =~= inner);
    assert forall|i: int| 0 <= i < text.len() && !(from <= i < from + inner.len()) implies
        is_white_space(#[trigger] text[i]) by {
        if i >= from {
            assert(rest[i - from] == text[i]);
        }
    }
    assert(surrounds(text, inner, from));
    if inner.len() > 0 {
        assert(inner[0] == rest[0]);
    }
}

/// White space is what separates words: blanks, tabs and line ends, the wide blank too, and
/// nothing that can stand in a target.
pub proof fn law_white_space_is_no_part_of_a_target(c: char)
    ensures
        c == ' ' || c == '\t' || c == '\n' || c == '\r' || c == '\u{3000}' || c == '\u{a0}'
            ==> is_white_space(c),
        0x21 <= c as u32 <= 0x7e ==> !is_white_space(c),
        is_separator(c) <==> is_white_space(c) || c == ',' || c == ';',
        ('a' as u32 <= c as u32 <= 'z' as u32) || ('A' as u32 <= c as u32 <= 'Z' as u32) || (
        '0' as u32 <= c as u32 <= '9' as u32) || c == '.' || c == '/' || c == ':' || c == '-'
            ==> !is_separator(c),
{
}

/// Splitting and joining are inverse: the parts have no separator, and joined with it they
/// are the text again.
pub proof fn law_split_text_joins_again(text: Seq<char>, separator: char)
    ensures
        joined(split_on(text, separator), seq![separator]) == text,
        forall|i: int|
            0 <= i < split_on(text, separator).len() ==> !(#[trigger] split_on(
                text,
                separator,
            )[i]).contains(separator),
        split_on(text, separator).len() >= 1,
    decreases text.len(),
{
    lemma_split_nonempty(text, separator);
    let parts = split_on(text, separator);
    if text.len() > 0 {
        let front = text.drop_last();
        let before = split_on(front, separator);
        law_split_text_joins_again(front, separator);
        assert(text =~= front.push(text.last()));
        if text.last() == separator {
            assert(parts.drop_last() =~= before);
            assert(joined(parts, seq![separator]) =~= text);
        } else {
            let n = before.len();
            assert(parts.drop_last() =~= before.drop_last());
            assert(parts.last() == before.last().push(text.last()));
            if n > 1 {
                assert(joined(before, seq![separator]) == joined(
                    before.drop_last(),
                    seq![separator],
                ) + seq![separator] + before.last());
            }
            assert(joined(parts, seq![separator]) =~= text);
            assert forall|i: int| 0 <= i < parts.len() implies !(#[trigger] parts[i]).contains(
                separator,
            ) by {
                assert(!before[i].contains(separator));
                if i == n - 1 && parts[i].contains(separator) {
                    let k = choose|k: int| 0 <= k < parts[i].len() && parts[i][k] == separator;
                    assert(before[i][k] == separator);
                }
            }
        }
    }
}

/// One text comes before another as in a dictionary: at the first place where they differ
/// it has the lower character, or it ends there.
pub proof fn law_texts_are_ordered_as_in_a_dictionary(left: Seq<char>, right: Seq<char>)
    ensures
        text_less(left, right) <==> exists|k: int| #[trigger] differ_at(left, right, k),
    decreases left.len(),
{
    if right.len() > 0 && left.len() > 0 && left[0] == right[0] {
        let l = left.skip(1);
        let r = right.skip(1);
        law_texts_are_ordered_as_in_a_dictionary(l, r);
        if text_less(l, r) {
            let k = choose|k: int| #[trigger] differ_at(l, r, k);
            assert(differ_at(left, right, k + 1)) by {
                assert forall|i: int| 0 <= i < k + 1 implies #[trigger] left[i] == right[i] by {
                    if i > 0 {
                        assert(l[i - 1] == r[i - 1]);
                    }
                }
            }
        }
        if exists|k: int| #[trigger] differ_at(left, right, k) {
            let k = choose|k: int| #[trigger] differ_at(left, right, k);
            assert(differ_at(l, r, k - 1)) by {
                assert forall|i: int| 0 <= i < k - 1 implies #[trigger] l[i] == r[i] by {
                    assert(left[i + 1] == right[i + 1]);
                }
            }
        }
    } else if text_less(left, right) {
        assert(differ_at(left, right, 0));
    } else if exists|k: int| #[trigger] differ_at(left, right, k) {
        let k = choose|k: int| #[trigger] differ_at(left, right, k);
        if k > 0 {
            assert(left[0] == right[0]);
        }
    }
}

/// The texts agree up to the place, and there the left one has the lower character or ends.
pub open spec fn differ_at(left: Seq<char>, right: Seq<char>, k: int) -> bool {
    &&& 0 <= k <= left.len()
    &&& k < right.len()
    &&& forall|i: int| 0 <= i < k ==> #[trigger] left[i] == right[i]
    &&& k == left.len() || (left[k] as int) < (right[k] as int)
}

/// A character reads as a lower-case one: it is that one, or the capital letter of it.
pub open spec fn reads_as_letter(c: char, small: char) -> bool {
    c == small || ('a' as u32 <= small as u32 <= 'z' as u32 && c as u32 + 32 == small as u32)
}

/// The words stand somewhere in the text, in capital or in small letters.
pub open spec fn says(text: Seq<char>, words: Seq<char>) -> bool {
    exists|at: int| #[trigger] says_at(text, words, at)
}

/// The words stand at this place of the text, in capital or in small letters.
pub open spec fn says_at(text: Seq<char>, words: Seq<char>, at: int) -> bool {
    &&& 0 <= at
    &&& at + words.len() <= text.len()
    &&& forall|i: int| 0 <= i < words.len() ==> reads_as_letter(text[at + i], #[trigger] words[i])
}

/// A character is its number.
proof fn lemma_code(c: char)
    ensures
        c as u32 == c as int,
{
}

/// A letter in lower case is the small letter that it reads as.
proof fn lemma_lower(c: char, small: char)
    requires
        !('A' as u32 <= small as u32 <= 'Z' as u32),
    ensures
        ascii_lower(c) == small <==> reads_as_letter(c, small),
{
}

/// The letters of the word `up`.
proof fn lemma_up(c: char)
    ensures
        reads_as_letter(c, 'u') <==> c == 'u' || c == 'U',
        reads_as_letter(c, 'p') <==> c == 'p' || c == 'P',
{
}

/// Words in small letters occur in the lower-case text just where the text says them.
proof fn lemma_says(text: Seq<char>, words: Seq<char>)
    requires
        forall|i: int|
            0 <= i < words.len() ==> !('A' as u32 <= (#[trigger] words[i]) as u32 <= 'Z' as u32),
    ensures
        has_text(to_lower(text), words) <==> says(text, words),
{
    let low = to_lower(text);
    assert forall|at: int| occurs_at(low, words, at) <==> #[trigger] says_at(text, words, at) by {
        if occurs_at(low, words, at) {
            assert forall|i: int| 0 <= i < words.len() implies reads_as_letter(
                text[at + i],
                #[trigger] words[i],
            ) by {
                assert(low.subrange(at, at + words.len())[i] == low[at + i]);
                assert(low[at + i] == ascii_lower(text[at + i]));
                lemma_lower(text[at + i], words[i]);
            }
        }
        if says_at(text, words, at) {
            assert forall|i: int| 0 <= i < words.len() implies low.subrange(
                at,
                at + words.len(),
            )[i] == words[i] by {
                assert(reads_as_letter(text[at + i], words[i]));
                assert(low[at + i] == ascii_lower(text[at + i]));
                lemma_lower(text[at + i], words[i]);
            }
            assert(low.subrange(at, at + words.len()) =~= words);
        }
    }
    if has_text(low, words) {
        let at = choose|at: int| occurs_at(low, words, at);
        assert(says_at(text, words, at));
    }
    if says(text, words) {
        let at = choose|at: int| #[trigger] says_at(text, words, at);
        assert(occurs_at(low, words, at));
    }
}

/// An interface belongs to the VPN whose product its name or its description says, in
/// capital or in small letters.
pub proof fn law_interface_says_whose_it_is(adapter: AdapterView)
    ensures
        ({
            let text = adapter.name + " "@ + adapter.description;
            &&& adapter.matches(VpnKind::FortiClient) <==> says(text, "forti"@)
            &&& adapter.matches(VpnKind::F5) <==> says(text, "f5"@) || says(text, "big-ip"@)
            &&& adapter.matches(VpnKind::Ivanti) <==> says(text, "ivanti"@) || says(
                text,
                "juniper"@,
            ) || says(text, "pulse secure"@)
        }),
{
    let text = adapter.name + " "@ + adapter.description;
    reveal_strlit("forti");
    reveal_strlit("f5");
    reveal_strlit("big-ip");
    reveal_strlit("ivanti");
    reveal_strlit("juniper");
    reveal_strlit("pulse secure");
    lemma_says(text, "forti"@);
    lemma_says(text, "f5"@);
    lemma_says(text, "big-ip"@);
    lemma_says(text, "ivanti"@);
    lemma_says(text, "juniper"@);
    lemma_says(text, "pulse secure"@);
}

/// An interface is connected just where its status is the word `up`, in capital or in small
/// letters.
pub proof fn law_interface_is_up_where_it_says_so(adapter: AdapterView)
    ensures
        adapter.is_up() <==> adapter.status.len() == 2 && (adapter.status[0] == 'u'
            || adapter.status[0] == 'U') && (adapter.status[1] == 'p' || adapter.status[1] == 'P'),
{
    reveal_strlit("up");
    let low = to_lower(adapter.status);
    let up = to_lower("up"@);
    assert(up.len() == 2 && up[0] == 'u' && up[1] == 'p');
    if adapter.status.len() == 2 {
        lemma_up(adapter.status[0]);
        lemma_up(adapter.status[1]);
        lemma_lower(adapter.status[0], 'u');
        lemma_lower(adapter.status[1], 'p');
    }
    if adapter.is_up() {
        assert(low.len() == up.len());
        assert(low[0] == ascii_lower(adapter.status[0]));
        assert(low[1] == ascii_lower(adapter.status[1]));
        assert(low[0] == 'u' && low[1] == 'p');
    }
    if adapter.status.len() == 2 && (adapter.status[0] == 'u' || adapter.status[0] == 'U') && (
    adapter.status[1] == 'p' || adapter.status[1] == 'P') {
        assert(low =~= up);
    }
}

/// A text whose last character is no separator has a target.
proof fn lemma_has_token(text: Seq<char>)
    requires
        text.len() > 0,
        !is_separator(text.last()),
    ensures
        tokens_of(text).len() > 0,
    decreases text.len(),
{
    if text.len() > 1 && !is_separator(text[text.len() - 2]) {
        assert(text.drop_last().last() == text[text.len() - 2]);
        lemma_has_token(text.drop_last());
    }
}

/// A separator parts a list in two: what stands before it and what stands behind it are
/// read as if they were lists of their own.
pub proof fn law_separator_parts_a_list(before: Seq<char>, c: char, after: Seq<char>)
    requires
        is_separator(c),
    ensures
        tokens_of(before + seq![c] + after) == tokens_of(before) + tokens_of(after),
    decreases after.len(),
{
    let whole = before + seq![c] + after;
    if after.len() == 0 {
        assert(whole.drop_last() =~= before);
        assert(whole.last() == c);
        assert(tokens_of(before) + tokens_of(after) =~= tokens_of(before));
    } else {
        let rest = after.drop_last();
        law_separator_parts_a_list(before, c, rest);
        assert(whole.drop_last() =~= before + seq![c] + rest);
        assert(whole.last() == after.last());
        let left = tokens_of(before);
        let right = tokens_of(rest);
        if is_separator(after.last()) {
        } else if after.len() == 1 {
            assert(whole[whole.len() - 2] == c);
            assert((left + right).push(seq![after.last()]) =~= left + right.push(
                seq![after.last()],
            ));
        } else {
            assert(whole[whole.len() - 2] == after[after.len() - 2]);
            if is_separator(after[after.len() - 2]) {
                assert((left + right).push(seq![after.last()]) =~= left + right.push(
                    seq![after.last()],
                ));
            } else {
                assert(rest.last() == after[after.len() - 2]);
                lemma_has_token(rest);
                let grown = right.last().push(after.last());
                assert((left + right).last() == right.last());
                assert((left + right).update(left.len() + right.len() - 1, grown) =~= left
                    + right.update(right.len() - 1, grown));
            }
        }
    }
}

/// A text without separators is one target, whole as it stands; no text is none.
pub proof fn law_text_without_separators_is_one_target(text: Seq<char>)
    requires
        forall|i: int| 0 <= i < text.len() ==> !is_separator(#[trigger] text[i]),
    ensures
        tokens_of(text) == (if text.len() == 0 {
            Seq::<Seq<char>>::empty()
        } else {
            seq![text]
        }),
    decreases text.len(),
{
    if text.len() > 0 {
        let front = text.drop_last();
        assert forall|i: int| 0 <= i < front.len() implies !is_separator(#[trigger] front[i]) by {
            assert(front[i] == text[i]);
        }
        law_text_without_separators_is_one_target(front);
        assert(!is_separator(text[text.len() - 1]));
        if text.len() == 1 {
            assert(seq![text.last()] =~= text);
        } else {
            assert(!is_separator(text[text.len() - 2]));
            assert(front.push(text.last()) =~= text);
            assert(seq![front].update(0, text) =~= seq![text]);
        }
    }
}

/// A number above zero is read from digits that do not start with zero.
proof fn lemma_number_positive(digits: Seq<char>)
    requires
        digits.len() >= 1,
        all_digits(digits),
        digits[0] != '0',
    ensures
        number_of(digits) >= 1,
    decreases digits.len(),
{
    assert(is_digit(digits[0]));
    assert(is_digit(digits[digits.len() - 1]));
    lemma_code(digits[0]);
    lemma_code(digits.last());
    if digits.len() > 1 {
        let front = digits.drop_last();
        assert forall|i: int| 0 <= i < front.len() implies is_digit(#[trigger] front[i]) by {
            assert(is_digit(digits[i]));
        }
        assert(front[0] == digits[0]);
        lemma_number_positive(front);
    } else {
        assert(digits.drop_last() =~= Seq::<char>::empty());
        assert(number_of(digits.drop_last()) == 0);
    }
}

/// A number has one notation without a leading zero.
proof fn lemma_one_notation(digits: Seq<char>)
    requires
        digits.len() >= 1,
        all_digits(digits),
        digits.len() == 1 || digits[0] != '0',
    ensures
        decimal(number_of(digits)) == digits,
    decreases digits.len(),
{
    let last = digits.last();
    assert(is_digit(digits[digits.len() - 1]));
    let front = digits.drop_last();
    let value = ((last as u32) - ('0' as u32)) as nat;
    lemma_code(last);
    assert(digit(value) == last);
    assert forall|i: int| 0 <= i < front.len() implies is_digit(#[trigger] front[i]) by {
        assert(is_digit(digits[i]));
    }
    if digits.len() == 1 {
        assert(front =~= Seq::<char>::empty());
        assert(number_of(front) == 0);
        assert(number_of(digits) == value);
        assert(digits =~= seq![last]);
    } else {
        assert(front[0] == digits[0]);
        lemma_one_notation(front);
        lemma_number_positive(front);
        let number = number_of(digits);
        assert(number == number_of(front) * 10 + value);
        assert(number / 10 == number_of(front));
        assert(number % 10 == value);
        assert(digits =~= front.push(last));
    }
}

/// Four texts with dots between them.
proof fn lemma_join_four(parts: Seq<Seq<char>>, dot: Seq<char>)
    requires
        parts.len() == 4,
    ensures
        joined(parts, dot) == parts[0] + dot + parts[1] + dot + parts[2] + dot + parts[3],
{
    let three = parts.drop_last();
    let two = three.drop_last();
    let one = two.drop_last();
    assert(joined(one, dot) == parts[0]);
    assert(joined(two, dot) == joined(one, dot) + dot + two.last());
    assert(joined(three, dot) == joined(two, dot) + dot + three.last());
    assert(joined(parts, dot) == joined(three, dot) + dot + parts.last());
}

/// Four numbers below 256 come back out of the address that they make.
proof fn lemma_octets_back(p: u32, q: u32, r: u32, s: u32, address: u32)
    requires
        p < 256,
        q < 256,
        r < 256,
        s < 256,
        address == p * 0x100_0000 + q * 0x1_0000 + r * 0x100 + s,
    ensures
        address / 0x100_0000 == p,
        address / 0x1_0000 % 0x100 == q,
        address / 0x100 % 0x100 == r,
        address % 0x100 == s,
{
    assert(address / 0x100_0000 == p && address / 0x1_0000 % 0x100 == q && address / 0x100 % 0x100
        == r && address % 0x100 == s) by (bit_vector)
        requires
            p < 256,
            q < 256,
            r < 256,
            s < 256,
            address == p * 0x100_0000 + q * 0x1_0000 + r * 0x100 + s,
    ;
}

/// An address is read from its own notation and from no other text.
pub proof fn law_address_has_one_notation(text: Seq<char>, address: u32)
    ensures
        parsed_address(text) == Some(address) <==> text == address_text(address),
{
    law_address_round_trip(address);
    if parsed_address(text) == Some(address) {
        let octets = split_on(text, '.');
        law_split_text_joins_again(text, '.');
        lemma_join_four(octets, seq!['.']);
        assert forall|i: int| 0 <= i < 4 implies decimal(number_of(#[trigger] octets[i]))
            == octets[i] && number_of(octets[i]) < 256 by {
            assert(is_number(octets[i], 3, 256));
            assert(octets[i].len() == 1 || octets[i][0] != '0');
            lemma_one_notation(octets[i]);
        }
        let p = number_of(octets[0]);
        let q = number_of(octets[1]);
        let r = number_of(octets[2]);
        let s = number_of(octets[3]);
        assert(address == address_of_numbers(octets));
        lemma_octets_back(p as u32, q as u32, r as u32, s as u32, address);
        assert(text == octets[0] + seq!['.'] + octets[1] + seq!['.'] + octets[2] + seq!['.']
            + octets[3]);
        assert(text == address_text(address));
    }
}

/// A network holds an address just where both agree in the leading bits that its prefix
/// length counts.
pub proof fn law_network_holds_what_its_leading_bits_say(network: Ipv4Net, address: u32)
    requires
        network.prefix_len <= 32,
    ensures
        network.covers(address) <==> address as int / pow2((32 - network.prefix_len) as nat) as int
            == network.addr as int / pow2((32 - network.prefix_len) as nat) as int,
{
    let size = block_size(network.prefix_len) as int;
    lemma_block_size(network.prefix_len);
    lemma_network_range(network);
    vstd::arithmetic::power2::lemma2_to64();
    assert(size == pow2((32 - network.prefix_len) as nat) as int);
    let q = network.addr as int / size;
    let a = address as int;
    assert(network.first() == size * q);
    assert((size * q <= a <= size * q + size - 1) <==> a / size == q) by (nonlinear_arith)
        requires
            size >= 1,
    ;
}

/// A target is read as what it names. A network is cut down to its lowest address, an
/// address stands for itself alone, and what has a slash but is neither a network nor a
/// URL is refused.
pub proof fn law_target_is_what_it_names(token: Seq<char>)
    ensures
        parsed_network(token) matches Some(network) ==> (target_of(token) matches
            TargetView::Network(read) && read.prefix_len == network.prefix_len && read.addr
            == network.addr as int - network.addr as int % pow2(
            (32 - network.prefix_len) as nat,
        ) as int),
        parsed_address(token) matches Some(address) ==> target_of(token) == TargetView::Network(
            (Ipv4Net { addr: address, prefix_len: 32 }),
        ),
        parsed_network(token) is None && parsed_address(token) is None && has_text(token, "/"@)
            && !has_text(token, "://"@) ==> target_of(token) is Invalid,
{
    if let Some(network) = parsed_network(token) {
        lemma_network_range(network);
        lemma_truncated(network);
        vstd::arithmetic::power2::lemma2_to64();
        assert(network.prefix_len <= 32) by {
            let halves = split_on(token, '/');
            assert(is_number(halves[1], 2, 33));
        }
        assert(block_size(network.prefix_len) == pow2((32 - network.prefix_len) as nat));
        assert(network.truncated().addr == network.first());
    }
    if let Some(address) = parsed_address(token) {
        law_address_has_one_notation(token, address);
        law_address_round_trip(address);
        lemma_split_whole(token, '/');
    }
}

} // verus!
