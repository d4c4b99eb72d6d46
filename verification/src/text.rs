//! Text as sequences of characters: searching, splitting, trimming, joining,
//! ordering and decimal numbers.

use vstd::prelude::*;

verus! {

/// `pattern` stands in `text`, starting at position `at`.
pub open spec fn occurs_at(text: Seq<char>, pattern: Seq<char>, at: int) -> bool {
    0 <= at && at + pattern.len() <= text.len() && text.subrange(at, at + pattern.len()) == pattern
}

/// `pattern` stands somewhere in `text`.
pub open spec fn has_text(text: Seq<char>, pattern: Seq<char>) -> bool {
    exists|at: int| #[trigger] occurs_at(text, pattern, at)
}

/// The character with `A` to `Z` turned into `a` to `z`.
pub open spec fn ascii_lower(c: char) -> char {
    if 'A' as u32 <= c as u32 && c as u32 <= 'Z' as u32 {
        ((c as u32) + 32) as char
    } else {
        c
    }
}

/// The text with `A` to `Z` turned into `a` to `z`.
pub open spec fn to_lower(text: Seq<char>) -> Seq<char> {
    Seq::new(text.len(), |i: int| ascii_lower(text[i]))
}

/// The characters that Unicode marks as white space.
pub open spec fn is_white_space(c: char) -> bool {
    let code = c as u32;
    ||| 0x09 <= code <= 0x0d
    ||| code == 0x20
    ||| code == 0x85
    ||| code == 0xa0
    ||| code == 0x1680
    ||| 0x2000 <= code <= 0x200a
    ||| code == 0x2028
    ||| code == 0x2029
    ||| code == 0x202f
    ||| code == 0x205f
    ||| code == 0x3000
}

/// The text without the white space that it starts with.
pub open spec fn trim_start(text: Seq<char>) -> Seq<char>
    decreases text.len(),
{
    if text.len() > 0 && is_white_space(text[0]) {
        trim_start(text.skip(1))
    } else {
        text
    }
}

/// The text without the white space that it ends with.
pub open spec fn trim_end(text: Seq<char>) -> Seq<char>
    decreases text.len(),
{
    if text.len() > 0 && is_white_space(text.last()) {
        trim_end(text.drop_last())
    } else {
        text
    }
}

/// The text without white space at either end.
pub open spec fn trimmed(text: Seq<char>) -> Seq<char> {
    trim_end(trim_start(text))
}

/// The parts of `text` between the occurrences of `separator`, empty ones too.
pub open spec fn split_on(text: Seq<char>, separator: char) -> Seq<Seq<char>>
    decreases text.len(),
{
    if text.len() == 0 {
        seq![Seq::empty()]
    } else {
        let before = split_on(text.drop_last(), separator);
        if text.last() == separator {
            before.push(Seq::empty())
        } else {
            before.update(before.len() - 1, before.last().push(text.last()))
        }
    }
}

/// `parts` one after the other, with `separator` between them.
pub open spec fn joined(parts: Seq<Seq<char>>, separator: Seq<char>) -> Seq<char>
    decreases parts.len(),
{
    if parts.len() == 0 {
        Seq::empty()
    } else if parts.len() == 1 {
        parts[0]
    } else {
        joined(parts.drop_last(), separator) + separator + parts.last()
    }
}

/// The decimal digit for a number below ten.
pub open spec fn digit(value: nat) -> char {
    (('0' as u32) + value) as char
}

/// The number written in decimal, without leading zeros.
pub open spec fn decimal(value: nat) -> Seq<char>
    decreases value,
{
    if value < 10 {
        seq![digit(value)]
    } else {
        decimal(value / 10).push(digit(value % 10))
    }
}

/// `c` is one of `0` to `9`.
pub open spec fn is_digit(c: char) -> bool {
    '0' as u32 <= c as u32 && c as u32 <= '9' as u32
}

/// The number that a sequence of decimal digits stands for.
pub open spec fn number_of(digits: Seq<char>) -> nat
    decreases digits.len(),
{
    if digits.len() == 0 {
        0
    } else {
        (number_of(digits.drop_last()) * 10 + ((digits.last() as u32) - ('0' as u32))) as nat
    }
}

/// Every character of `text` is a decimal digit.
pub open spec fn all_digits(text: Seq<char>) -> bool {
    forall|i: int| 0 <= i < text.len() ==> is_digit(#[trigger] text[i])
}

/// `left` comes before `right` in the order of their characters' code points.
pub open spec fn text_less(left: Seq<char>, right: Seq<char>) -> bool
    decreases left.len(),
{
    if right.len() == 0 {
        false
    } else if left.len() == 0 {
        true
    } else if left[0] != right[0] {
        (left[0] as int) < (right[0] as int)
    } else {
        text_less(left.skip(1), right.skip(1))
    }
}

/// The list with `item` put before the first entry that comes after it; a list that
/// reaches an equal entry first stays as it is.
pub open spec fn insert_text(list: Seq<Seq<char>>, item: Seq<char>) -> Seq<Seq<char>>
    decreases list.len(),
{
    if list.len() == 0 {
        seq![item]
    } else if item == list[0] {
        list
    } else if text_less(item, list[0]) {
        seq![item] + list
    } else {
        seq![list[0]] + insert_text(list.skip(1), item)
    }
}

/// The distinct entries of `items`, in increasing order.
pub open spec fn sorted_texts(items: Seq<Seq<char>>) -> Seq<Seq<char>>
    decreases items.len(),
{
    if items.len() == 0 {
        Seq::empty()
    } else {
        insert_text(sorted_texts(items.drop_last()), items.last())
    }
}

/// Each entry comes strictly before every later one.
pub open spec fn increasing_texts(list: Seq<Seq<char>>) -> bool {
    forall|i: int, j: int| 0 <= i < j < list.len() ==> text_less(#[trigger] list[i], #[trigger] list[j])
}

/// No text comes before itself.
pub proof fn lemma_text_irreflexive(text: Seq<char>)
    ensures
        !text_less(text, text),
    decreases text.len(),
{
    if text.len() > 0 {
        lemma_text_irreflexive(text.skip(1));
    }
}

/// The order of texts is transitive.
pub proof fn lemma_text_transitive(a: Seq<char>, b: Seq<char>, c: Seq<char>)
    requires
        text_less(a, b),
        text_less(b, c),
    ensures
        text_less(a, c),
    decreases a.len(),
{
    if a.len() > 0 && a[0] == b[0] && b[0] == c[0] {
        lemma_text_transitive(a.skip(1), b.skip(1), c.skip(1));
    }
}

/// Of two different texts one comes before the other.
pub proof fn lemma_text_total(a: Seq<char>, b: Seq<char>)
    ensures
        a == b || text_less(a, b) || text_less(b, a),
    decreases a.len(),
{
    if a.len() > 0 && b.len() > 0 {
        if a[0] == b[0] {
            lemma_text_total(a.skip(1), b.skip(1));
            if a.skip(1) == b.skip(1) {
                assert(a =~= seq![a[0]] + a.skip(1));
                assert(b =~= seq![b[0]] + b.skip(1));
            }
        } else {
            assert(a[0] as int != b[0] as int);
        }
    } else if a.len() == 0 && b.len() == 0 {
        assert(a =~= b);
    }
}

/// Inserting into an increasing list keeps it increasing, and adds the text to those
/// of the list.
pub proof fn lemma_insert_text(list: Seq<Seq<char>>, item: Seq<char>)
    ensures
        increasing_texts(list) ==> increasing_texts(insert_text(list, item)),
        forall|other: Seq<char>|
            #![trigger insert_text(list, item).contains(other)]
            #![trigger list.contains(other)]
            insert_text(list, item).contains(other) <==> list.contains(other) || other == item,
    decreases list.len(),
{
    let result = insert_text(list, item);
    if list.len() == 0 {
        assert(result[0] == item);
    } else if item == list[0] {
    } else if text_less(item, list[0]) {
        assert(result[0] == item);
        assert forall|other: Seq<char>| result.contains(other) <==> list.contains(other) || other
            == item by {
            if list.contains(other) {
                let i = choose|i: int| 0 <= i < list.len() && list[i] == other;
                assert(result[i + 1] == other);
            }
        }
        if increasing_texts(list) {
            assert forall|i: int, j: int| 0 <= i < j < result.len() implies text_less(
                #[trigger] result[i],
                #[trigger] result[j],
            ) by {
                assert(result[j] == list[j - 1]);
                if i > 0 {
                    assert(result[i] == list[i - 1]);
                } else if j > 1 {
                    lemma_text_transitive(item, list[0], list[j - 1]);
                }
            }
        }
    } else {
        let rest = list.skip(1);
        let inserted = insert_text(rest, item);
        lemma_insert_text(rest, item);
        lemma_text_total(item, list[0]);
        assert(result[0] == list[0]);
        assert forall|other: Seq<char>| result.contains(other) <==> list.contains(other) || other
            == item by {
            if list.contains(other) {
                let i = choose|i: int| 0 <= i < list.len() && list[i] == other;
                if i > 0 {
                    assert(rest[i - 1] == other);
                    assert(rest.contains(other));
                    assert(inserted.contains(other));
                } else {
                    assert(result[0] == other);
                }
            }
            if other == item {
                assert(inserted.contains(other));
            }
            if inserted.contains(other) {
                let i = choose|i: int| 0 <= i < inserted.len() && inserted[i] == other;
                assert(result[i + 1] == other);
            }
            if result.contains(other) {
                let i = choose|i: int| 0 <= i < result.len() && result[i] == other;
                if i > 0 {
                    assert(inserted[i - 1] == other);
                    assert(inserted.contains(other));
                    if other != item {
                        assert(rest.contains(other));
                        let k = choose|k: int| 0 <= k < rest.len() && rest[k] == other;
                        assert(list[k + 1] == other);
                    }
                }
            }
        }
        if increasing_texts(list) {
            assert forall|i: int, j: int| 0 <= i < j < rest.len() implies text_less(
                #[trigger] rest[i],
                #[trigger] rest[j],
            ) by {
                assert(rest[i] == list[i + 1] && rest[j] == list[j + 1]);
            }
            assert forall|i: int, j: int| 0 <= i < j < result.len() implies text_less(
                #[trigger] result[i],
                #[trigger] result[j],
            ) by {
                assert(result[j] == inserted[j - 1]);
                if i > 0 {
                    assert(result[i] == inserted[i - 1]);
                } else {
                    assert(inserted.contains(inserted[j - 1]));
                    if inserted[j - 1] != item {
                        let k = choose|k: int| 0 <= k < rest.len() && rest[k] == inserted[j - 1];
                        assert(rest[k] == list[k + 1]);
                    }
                }
            }
        }
    }
}

/// Sorting texts leaves each text once, in increasing order.
pub proof fn law_sorted_texts(items: Seq<Seq<char>>)
    ensures
        increasing_texts(sorted_texts(items)),
        forall|text: Seq<char>| sorted_texts(items).contains(text) <==> items.contains(text),
    decreases items.len(),
{
    if items.len() > 0 {
        let before = items.drop_last();
        law_sorted_texts(before);
        lemma_insert_text(sorted_texts(before), items.last());
        assert forall|text: Seq<char>| sorted_texts(items).contains(text) <==> items.contains(
            text,
        ) by {
            if items.contains(text) {
                let i = choose|i: int| 0 <= i < items.len() && items[i] == text;
                if i < before.len() {
                    assert(before[i] == text);
                }
            }
            if before.contains(text) {
                let i = choose|i: int| 0 <= i < before.len() && before[i] == text;
                assert(items[i] == text);
            }
            assert(items[items.len() - 1] == items.last());
        }
    }
}

/// The characters of `text`.
pub fn chars_of(text: &str) -> (chars: Vec<char>)
    ensures
        chars@ == text@,
{
    let mut chars: Vec<char> = Vec::new();
    for c in it: text.chars()
        invariant
            it.seq() == text@,
            chars@ == text@.take(it.index()),
    {
        chars.push(c);
    }
    chars
}

/// Whether `pattern` stands somewhere in `text`.
pub fn contains_chars(text: &Vec<char>, pattern: &Vec<char>) -> (found: bool)
    ensures
        found == has_text(text@, pattern@),
{
    let n: usize = text.len();
    let m: usize = pattern.len();
    if m > n {
        return false;
    }
    let mut at: usize = 0;
    while at <= n - m
        invariant
            n == text.len(),
            m == pattern.len(),
            m <= n,
            at <= n - m + 1,
            forall|k: int| 0 <= k < at ==> !occurs_at(text@, pattern@, k),
        decreases n - at,
    {
        let mut same: usize = 0;
        while same < m && text[at + same] == pattern[same]
            invariant
                n == text.len(),
                m == pattern.len(),
                at + m <= n,
                same <= m,
                forall|k: int| 0 <= k < same ==> text@[at + k] == pattern@[k],
            decreases m - same,
        {
            same = same + 1;
        }
        if same == m {
            assert(text@.subrange(at as int, at + m) =~= pattern@);
            assert(occurs_at(text@, pattern@, at as int));
            return true;
        }
        assert(text@.subrange(at as int, at + m)[same as int] != pattern@[same as int]);
        at = at + 1;
    }
    false
}

/// Whether `pattern` stands somewhere in `text`.
pub fn contains_text(text: &str, pattern: &str) -> (found: bool)
    ensures
        found == has_text(text@, pattern@),
{
    contains_chars(&chars_of(text), &chars_of(pattern))
}

/// The character with `A` to `Z` turned into `a` to `z`.
pub fn lower_char(c: char) -> (lower: char)
    ensures
        lower == ascii_lower(c),
{
    if 'A' <= c && c <= 'Z' {
        ((c as u8) + 32) as char
    } else {
        c
    }
}

/// Whether the two texts are equal up to the case of `A` to `Z`.
pub fn equal_ignoring_ascii_case(left: &str, right: &str) -> (equal: bool)
    ensures
        equal == (to_lower(left@) == to_lower(right@)),
{
    let a: Vec<char> = chars_of(left);
    let b: Vec<char> = chars_of(right);
    if a.len() != b.len() {
        assert(to_lower(left@).len() != to_lower(right@).len());
        return false;
    }
    let n: usize = a.len();
    for i in 0..n
        invariant
            n == a.len(),
            n == b.len(),
            a@ == left@,
            b@ == right@,
            forall|k: int| 0 <= k < i ==> ascii_lower(left@[k]) == ascii_lower(right@[k]),
    {
        if lower_char(a[i]) != lower_char(b[i]) {
            assert(to_lower(left@)[i as int] != to_lower(right@)[i as int]);
            return false;
        }
    }
    assert(to_lower(left@) =~= to_lower(right@));
    true
}

/// Whether the two texts are the same.
pub fn same_text(left: &str, right: &str) -> (same: bool)
    ensures
        same == (left@ == right@),
{
    left.to_owned() == right.to_owned()
}

/// Whether Unicode marks the character as white space.
pub fn is_white_space_char(c: char) -> (white: bool)
    ensures
        white == is_white_space(c),
{
    let code: u32 = c as u32;
    (0x09 <= code && code <= 0x0d) || code == 0x20 || code == 0x85 || code == 0xa0 || code == 0x1680
        || (0x2000 <= code && code <= 0x200a) || code == 0x2028 || code == 0x2029 || code == 0x202f
        || code == 0x205f || code == 0x3000
}

/// The text without white space at either end.
pub fn trim_text(text: &str) -> (core: String)
    ensures
        core@ == trimmed(text@),
{
    let chars: Vec<char> = chars_of(text);
    let n: usize = chars.len();
    let mut start: usize = 0;
    assert(text@.skip(0) =~= text@);
    while start < n && is_white_space_char(chars[start])
        invariant
            n == chars.len(),
            chars@ == text@,
            start <= n,
            trim_start(text@) == trim_start(text@.skip(start as int)),
        decreases n - start,
    {
        assert(text@.skip(start as int).skip(1) =~= text@.skip(start + 1));
        start = start + 1;
    }
    assert(trim_start(text@) == text@.skip(start as int));
    let mut end: usize = n;
    assert(text@.subrange(start as int, n as int) =~= text@.skip(start as int));
    while start < end && is_white_space_char(chars[end - 1])
        invariant
            n == chars.len(),
            chars@ == text@,
            start <= end <= n,
            trimmed(text@) == trim_end(text@.subrange(start as int, end as int)),
        decreases end - start,
    {
        assert(text@.subrange(start as int, end as int).drop_last() =~= text@.subrange(
            start as int,
            end - 1,
        ));
        end = end - 1;
    }
    text.substring_char(start, end).to_owned()
}

/// The parts one after the other, with `separator` between them.
pub fn join_texts(parts: &Vec<String>, separator: &str) -> (text: String)
    ensures
        text@ == joined(parts.deep_view(), separator@),
{
    let mut text: String = String::new();
    let ghost views = parts.deep_view();
    assert(views.take(0) =~= Seq::empty());
    for i in 0..parts.len()
        invariant
            views == parts.deep_view(),
            text@ == joined(views.take(i as int), separator@),
    {
        assert(views.take(i + 1).drop_last() =~= views.take(i as int));
        if i > 0 {
            text.append(separator);
        }
        text.append(parts[i].as_str());
        assert(text@ =~= joined(views.take(i + 1), separator@));
    }
    assert(views.take(parts.len() as int) =~= views);
    text
}

/// The decimal digit for a number below ten.
fn digit_text(value: u64) -> (text: &'static str)
    requires
        value < 10,
    ensures
        text@ == seq![digit(value as nat)],
{
    proof {
        reveal_strlit("0");
        reveal_strlit("1");
        reveal_strlit("2");
        reveal_strlit("3");
        reveal_strlit("4");
        reveal_strlit("5");
        reveal_strlit("6");
        reveal_strlit("7");
        reveal_strlit("8");
        reveal_strlit("9");
    }
    let text: &'static str = match value {
        0 => "0",
        1 => "1",
        2 => "2",
        3 => "3",
        4 => "4",
        5 => "5",
        6 => "6",
        7 => "7",
        8 => "8",
        _ => "9",
    };
    assert(text@ =~= seq![digit(value as nat)]);
    text
}

/// Appends the number in decimal, without leading zeros.
pub fn append_decimal(text: &mut String, value: u64)
    ensures
        final(text)@ == old(text)@ + decimal(value as nat),
    decreases value,
{
    if value < 10 {
        text.append(digit_text(value));
    } else {
        append_decimal(text, value / 10);
        text.append(digit_text(value % 10));
        assert(text@ =~= old(text)@ + decimal(value as nat));
    }
}

/// Whether `left` comes before `right` in the order of their characters' code points.
pub fn is_text_less(left: &str, right: &str) -> (less: bool)
    ensures
        less == text_less(left@, right@),
{
    let a: Vec<char> = chars_of(left);
    let b: Vec<char> = chars_of(right);
    let mut i: usize = 0;
    assert(left@.skip(0) =~= left@);
    assert(right@.skip(0) =~= right@);
    while i < a.len() && i < b.len() && a[i] == b[i]
        invariant
            a@ == left@,
            b@ == right@,
            i <= a.len(),
            i <= b.len(),
            text_less(left@, right@) == text_less(left@.skip(i as int), right@.skip(i as int)),
        decreases a.len() - i,
    {
        assert(left@.skip(i as int).skip(1) =~= left@.skip(i + 1));
        assert(right@.skip(i as int).skip(1) =~= right@.skip(i + 1));
        i = i + 1;
    }
    if i == b.len() {
        false
    } else if i == a.len() {
        true
    } else {
        assert(left@.skip(i as int)[0] == a@[i as int]);
        assert(right@.skip(i as int)[0] == b@[i as int]);
        a[i] < b[i]
    }
}

/// Puts a text into an ordered list of distinct texts.
pub fn insert_into_texts(list: &mut Vec<String>, item: String)
    ensures
        final(list).deep_view() == insert_text(old(list).deep_view(), item@),
{
    let ghost views = list.deep_view();
    let mut at: usize = 0;
    assert(views.skip(0) =~= views);
    assert(views.take(0) + insert_text(views.skip(0), item@) =~= insert_text(views, item@));
    while at < list.len() && !same_text(item.as_str(), list[at].as_str()) && !is_text_less(
        item.as_str(),
        list[at].as_str(),
    )
        invariant
            *list == *old(list),
            views == list.deep_view(),
            at <= list.len(),
            insert_text(views, item@) == views.take(at as int) + insert_text(
                views.skip(at as int),
                item@,
            ),
        decreases list.len() - at,
    {
        assert(views.skip(at as int).skip(1) =~= views.skip(at + 1));
        assert(views.take(at as int) + insert_text(views.skip(at as int), item@) =~= views.take(
            at + 1,
        ) + insert_text(views.skip(at + 1), item@));
        at = at + 1;
    }
    if at < list.len() && same_text(item.as_str(), list[at].as_str()) {
        assert(views.take(at as int) + views.skip(at as int) =~= views);
        return;
    }
    let ghost added = item@;
    list.insert(at, item);
    assert(list.deep_view() =~= insert_text(views, added));
}

/// Splitting yields at least one part.
pub proof fn lemma_split_nonempty(text: Seq<char>, separator: char)
    ensures
        split_on(text, separator).len() >= 1,
    decreases text.len(),
{
    if text.len() > 0 {
        lemma_split_nonempty(text.drop_last(), separator);
    }
}

/// Text without the separator only makes the last part longer.
pub proof fn lemma_split_tail(text: Seq<char>, tail: Seq<char>, separator: char)
    requires
        !tail.contains(separator),
    ensures
        split_on(text + tail, separator) == split_on(text, separator).update(
            split_on(text, separator).len() - 1,
            split_on(text, separator).last() + tail,
        ),
    decreases tail.len(),
{
    let parts = split_on(text, separator);
    lemma_split_nonempty(text, separator);
    if tail.len() == 0 {
        assert(text + tail =~= text);
        assert(parts.last() + tail =~= parts.last());
        assert(parts.update(parts.len() - 1, parts.last()) =~= parts);
    } else {
        let shorter = tail.drop_last();
        assert forall|i: int| 0 <= i < shorter.len() implies shorter[i] != separator by {
            assert(tail[i] == shorter[i]);
        }
        lemma_split_tail(text, shorter, separator);
        assert((text + tail).drop_last() =~= text + shorter);
        assert(tail[tail.len() - 1] != separator);
        assert((parts.last() + shorter).push(tail.last()) =~= parts.last() + tail);
        assert(split_on(text + tail, separator) =~= parts.update(
            parts.len() - 1,
            parts.last() + tail,
        ));
    }
}

/// A separator and text without the separator make one more part.
pub proof fn lemma_split_push(text: Seq<char>, tail: Seq<char>, separator: char)
    requires
        !tail.contains(separator),
    ensures
        split_on(text + seq![separator] + tail, separator) == split_on(text, separator).push(tail),
{
    let head = text + seq![separator];
    assert(head.drop_last() =~= text);
    assert(split_on(head, separator) == split_on(text, separator).push(Seq::empty()));
    lemma_split_tail(head, tail, separator);
    assert(Seq::<char>::empty() + tail =~= tail);
    assert(split_on(head + tail, separator) =~= split_on(text, separator).push(tail));
}

/// Text without the separator is its own only part.
pub proof fn lemma_split_whole(text: Seq<char>, separator: char)
    requires
        !text.contains(separator),
    ensures
        split_on(text, separator) == seq![text],
{
    lemma_split_tail(Seq::empty(), text, separator);
    assert(Seq::<char>::empty() + text =~= text);
    assert(split_on(text, separator) =~= seq![text]);
}

/// A separator makes at least two parts.
proof fn lemma_split_at_one(text: Seq<char>, separator: char, i: int)
    requires
        0 <= i < text.len(),
        text[i] == separator,
    ensures
        split_on(text, separator).len() >= 2,
    decreases text.len(),
{
    lemma_split_nonempty(text.drop_last(), separator);
    if i < text.len() - 1 {
        lemma_split_at_one(text.drop_last(), separator, i);
    }
}

/// Two separators make at least three parts.
pub proof fn lemma_split_at_two(text: Seq<char>, separator: char, i: int, j: int)
    requires
        0 <= i < j < text.len(),
        text[i] == separator,
        text[j] == separator,
    ensures
        split_on(text, separator).len() >= 3,
    decreases text.len(),
{
    if j < text.len() - 1 {
        lemma_split_at_two(text.drop_last(), separator, i, j);
    } else {
        lemma_split_at_one(text.drop_last(), separator, i);
    }
}

/// Every character but the separator is in some part.
pub proof fn lemma_split_keeps(text: Seq<char>, separator: char, i: int) -> (part: int)
    requires
        0 <= i < text.len(),
        text[i] != separator,
    ensures
        0 <= part < split_on(text, separator).len(),
        split_on(text, separator)[part].contains(text[i]),
    decreases text.len(),
{
    let before = split_on(text.drop_last(), separator);
    let parts = split_on(text, separator);
    lemma_split_nonempty(text.drop_last(), separator);
    if i < text.len() - 1 {
        let part = lemma_split_keeps(text.drop_last(), separator, i);
        let k = choose|k: int| 0 <= k < before[part].len() && before[part][k] == text[i];
        assert(parts[part][k] == text[i]);
        part
    } else {
        let last = parts[before.len() - 1];
        assert(last[last.len() - 1] == text[i]);
        before.len() - 1
    }
}

/// The decimal notation consists of digits, reads back as the number, and starts with
/// a zero only for zero itself.
pub proof fn lemma_decimal(value: nat)
    ensures
        all_digits(decimal(value)),
        number_of(decimal(value)) == value,
        decimal(value).len() >= 1,
        decimal(value)[0] == '0' ==> decimal(value).len() == 1,
        value < 10 ==> decimal(value).len() == 1,
        value < 100 ==> decimal(value).len() <= 2,
        value < 1000 ==> decimal(value).len() <= 3,
    decreases value,
{
    reveal_with_fuel(number_of, 2);
    if value < 10 {
        let text = decimal(value);
        assert(text.drop_last() =~= Seq::empty());
        assert(digit(value) as u32 == ('0' as u32) + value);
    } else {
        lemma_decimal(value / 10);
        let front = decimal(value / 10);
        assert(decimal(value).drop_last() =~= front);
        assert(decimal(value)[0] == front[0]);
        assert(digit(value % 10) as u32 == ('0' as u32) + value % 10);
        if front[0] == '0' {
            assert(front.len() == 1);
            assert(front.drop_last() =~= Seq::empty());
            assert(number_of(front) == 0);
        }
        assert forall|i: int| 0 <= i < decimal(value).len() implies is_digit(
            #[trigger] decimal(value)[i],
        ) by {
            if i < front.len() {
                assert(decimal(value)[i] == front[i]);
            }
        }
    }
}

/// The parts of a text between the occurrences of `separator`.
pub fn split_chars(chars: &Vec<char>, separator: char) -> (parts: Vec<Vec<char>>)
    ensures
        parts.deep_view() == split_on(chars@, separator),
{
    let mut parts: Vec<Vec<char>> = Vec::new();
    let mut current: Vec<char> = Vec::new();
    assert(parts.deep_view().push(current@) =~= split_on(chars@.take(0), separator));
    for i in 0..chars.len()
        invariant
            parts.deep_view().push(current@) == split_on(chars@.take(i as int), separator),
    {
        let c: char = chars[i];
        let ghost before = parts.deep_view();
        let ghost part = current@;
        assert(current.deep_view() =~= part);
        assert(chars@.take(i + 1).drop_last() =~= chars@.take(i as int));
        assert(before.push(part).last() == part);
        if c == separator {
            parts.push(current);
            assert(parts.deep_view() =~= before.push(part));
            current = Vec::new();
        } else {
            current.push(c);
            assert(before.push(part.push(c)) =~= before.push(part).update(
                before.push(part).len() - 1,
                part.push(c),
            ));
        }
    }
    assert(chars@.take(chars.len() as int) =~= chars@);
    let ghost before = parts.deep_view();
    let ghost part = current@;
    assert(current.deep_view() =~= part);
    parts.push(current);
    assert(parts.deep_view() =~= before.push(part));
    parts
}

}
