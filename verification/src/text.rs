//! Operations on text, stated over sequences of characters.
use vstd::prelude::*;

verus! {

/// `String::push`: appends one character to the end of the string.
pub assume_specification[ std::string::String::push ](text: &mut std::string::String, c: char)
    ensures
        final(text)@ == old(text)@.push(c),
;

/// What a list of strings holds.
pub open spec fn texts(strings: Seq<String>) -> Seq<Seq<char>> {
    strings.map_values(|s: String| s@)
}

/// The characters of a text.
pub fn chars_of(text: &str) -> (chars: Vec<char>)
    ensures
        chars@ == text@,
{
    let mut chars: Vec<char> = Vec::new();
    for c in iter: text.chars()
        invariant
            iter.seq() == text@,
            chars@ == iter.seq().take(iter.index()),
    {
        chars.push(c);
    }
    chars
}

/// The text made of `chars[from..to]`.
pub fn piece(chars: &Vec<char>, from: usize, to: usize) -> (text: String)
    requires
        from <= to <= chars@.len(),
    ensures
        text@ == chars@.subrange(from as int, to as int),
{
    let mut text = String::new();
    let mut i: usize = from;
    while i < to
        invariant
            from <= i <= to <= chars@.len(),
            text@ == chars@.subrange(from as int, i as int),
        decreases to - i,
    {
        text.push(chars[i]);
        i += 1;
        assert(chars@.subrange(from as int, i as int) =~= chars@.subrange(from as int, i - 1).push(
            chars@[i - 1],
        ));
    }
    text
}

/// Whether two texts are the same.
pub fn same(a: &str, b: &str) -> (yes: bool)
    ensures
        yes == (a@ == b@),
{
    a.to_owned() == b.to_owned()
}

/// Whether `text` begins with `prefix`.
pub fn begins_with(text: &str, prefix: &str) -> (yes: bool)
    ensures
        yes == prefix@.is_prefix_of(text@),
{
    strip(text, prefix).is_some()
}

/// What follows `prefix` in a text that begins with it.
pub open spec fn stripped(text: Seq<char>, prefix: Seq<char>) -> Option<Seq<char>> {
    if prefix.is_prefix_of(text) {
        Some(text.skip(prefix.len() as int))
    } else {
        None
    }
}

/// `text` without `prefix`, if it begins with it.
pub fn strip(text: &str, prefix: &str) -> (rest: Option<String>)
    ensures
        rest is Some == stripped(text@, prefix@) is Some,
        rest is Some ==> rest->0@ == stripped(text@, prefix@)->0,
{
    let t = chars_of(text);
    let p = chars_of(prefix);
    if p.len() > t.len() {
        return None;
    }
    let mut i: usize = 0;
    while i < p.len()
        invariant
            i <= p@.len() <= t@.len(),
            p@ == prefix@,
            t@ == text@,
            p@.take(i as int) =~= t@.take(i as int),
        decreases p@.len() - i,
    {
        if p[i] != t[i] {
            assert(t@.subrange(0, p@.len() as int)[i as int] != p@[i as int]);
            return None;
        }
        i += 1;
        assert(p@.take(i as int) =~= p@.take(i - 1).push(p@[i - 1]));
        assert(t@.take(i as int) =~= t@.take(i - 1).push(t@[i - 1]));
    }
    assert(p@.take(i as int) =~= p@);
    Some(piece(&t, i, t.len()))
}

/// Whether `c` occurs in `text`.
pub fn has_char(text: &str, c: char) -> (yes: bool)
    ensures
        yes == text@.contains(c),
{
    let t = chars_of(text);
    let mut i: usize = 0;
    while i < t.len()
        invariant
            i <= t@.len(),
            t@ == text@,
            forall|j: int| 0 <= j < i ==> t@[j] != c,
        decreases t@.len() - i,
    {
        if t[i] == c {
            assert(text@[i as int] == c);
            return true;
        }
        i += 1;
    }
    false
}

/// Whether two full stops stand side by side in `text`.
pub open spec fn has_dot_dot(text: Seq<char>) -> bool {
    exists|i: int| 0 <= i < text.len() - 1 && #[trigger] text[i] == '.' && text[i + 1] == '.'
}

/// Whether two full stops stand side by side in `text`.
pub fn contains_dot_dot(text: &str) -> (yes: bool)
    ensures
        yes == has_dot_dot(text@),
{
    let t = chars_of(text);
    let mut i: usize = 1;
    while i < t.len()
        invariant
            1 <= i,
            t@ == text@,
            forall|j: int|
                0 <= j < i - 1 && j < t@.len() - 1 ==> !(#[trigger] t@[j] == '.' && t@[j + 1]
                    == '.'),
        decreases t@.len() - i,
    {
        if t[i - 1] == '.' && t[i] == '.' {
            assert(text@[i - 1] == '.' && text@[i - 1 + 1] == '.');
            return true;
        }
        i += 1;
    }
    false
}

/// `text` without the run of `c` at its end.
pub open spec fn trimmed_end(text: Seq<char>, c: char) -> Seq<char>
    decreases text.len(),
{
    if text.len() > 0 && text.last() == c {
        trimmed_end(text.drop_last(), c)
    } else {
        text
    }
}

/// `text` without the run of `c` at its start.
pub open spec fn trimmed_start(text: Seq<char>, c: char) -> Seq<char>
    decreases text.len(),
{
    if text.len() > 0 && text[0] == c {
        trimmed_start(text.drop_first(), c)
    } else {
        text
    }
}

/// `text` without the runs of `c` at both its ends.
pub open spec fn trimmed(text: Seq<char>, c: char) -> Seq<char> {
    trimmed_start(trimmed_end(text, c), c)
}

/// `text` without the run of `c` at its end.
pub fn trim_end(text: &str, c: char) -> (rest: String)
    ensures
        rest@ == trimmed_end(text@, c),
{
    let t = chars_of(text);
    let mut end: usize = t.len();
    assert(t@.take(end as int) =~= t@);
    while end > 0 && t[end - 1] == c
        invariant
            end <= t@.len(),
            t@ == text@,
            trimmed_end(t@.take(end as int), c) == trimmed_end(text@, c),
        decreases end,
    {
        assert(t@.take(end as int).drop_last() =~= t@.take(end - 1));
        end -= 1;
    }
    piece(&t, 0, end)
}

/// `text` without the runs of `c` at both its ends.
pub fn trim(text: &str, c: char) -> (rest: String)
    ensures
        rest@ == trimmed(text@, c),
{
    let t = chars_of(trim_end(text, c).as_str());
    let mut start: usize = 0;
    assert(t@.skip(0) =~= t@);
    while start < t.len() && t[start] == c
        invariant
            start <= t@.len(),
            t@ == trimmed_end(text@, c),
            trimmed_start(t@.skip(start as int), c) == trimmed(text@, c),
        decreases t@.len() - start,
    {
        assert(t@.skip(start as int).drop_first() =~= t@.skip(start + 1));
        start += 1;
    }
    piece(&t, start, t.len())
}

/// Whether `c` is white space as Unicode has it.
pub open spec fn is_white(c: char) -> bool {
    ||| '\u{9}' <= c <= '\u{d}'
    ||| c == ' '
    ||| c == '\u{85}'
    ||| c == '\u{a0}'
    ||| c == '\u{1680}'
    ||| '\u{2000}' <= c <= '\u{200a}'
    ||| c == '\u{2028}'
    ||| c == '\u{2029}'
    ||| c == '\u{202f}'
    ||| c == '\u{205f}'
    ||| c == '\u{3000}'
}

/// Whether `c` is white space as Unicode has it.
pub fn white(c: char) -> (yes: bool)
    ensures
        yes == is_white(c),
{
    ('\u{9}' <= c && c <= '\u{d}') || c == ' ' || c == '\u{85}' || c == '\u{a0}' || c == '\u{1680}' || (
    '\u{2000}' <= c && c <= '\u{200a}') || c == '\u{2028}' || c == '\u{2029}' || c == '\u{202f}' || c
        == '\u{205f}' || c == '\u{3000}'
}

/// `text` without the white space at its end.
pub open spec fn without_trailing_white(text: Seq<char>) -> Seq<char>
    decreases text.len(),
{
    if text.len() > 0 && is_white(text.last()) {
        without_trailing_white(text.drop_last())
    } else {
        text
    }
}

/// `text` without the white space at its start.
pub open spec fn without_leading_white(text: Seq<char>) -> Seq<char>
    decreases text.len(),
{
    if text.len() > 0 && is_white(text[0]) {
        without_leading_white(text.drop_first())
    } else {
        text
    }
}

/// `text` without the white space at both its ends.
pub open spec fn without_outer_white(text: Seq<char>) -> Seq<char> {
    without_leading_white(without_trailing_white(text))
}

/// `text` without the white space at both its ends.
pub fn trim_white(text: &str) -> (rest: String)
    ensures
        rest@ == without_outer_white(text@),
{
    let t = chars_of(text);
    let mut end: usize = t.len();
    assert(t@.take(end as int) =~= t@);
    while end > 0 && white(t[end - 1])
        invariant
            end <= t@.len(),
            t@ == text@,
            without_trailing_white(t@.take(end as int)) == without_trailing_white(text@),
        decreases end,
    {
        assert(t@.take(end as int).drop_last() =~= t@.take(end - 1));
        end -= 1;
    }
    let mut start: usize = 0;
    assert(t@.subrange(0, end as int) =~= t@.take(end as int));
    while start < end && white(t[start])
        invariant
            start <= end <= t@.len(),
            t@ == text@,
            without_leading_white(t@.subrange(start as int, end as int)) == without_outer_white(text@),
        decreases end - start,
    {
        assert(t@.subrange(start as int, end as int).drop_first() =~= t@.subrange(start + 1, end as int));
        start += 1;
    }
    piece(&t, start, end)
}

/// The pieces of `text` between the occurrences of `sep`: one more than there
/// are occurrences.
pub open spec fn split(text: Seq<char>, sep: char) -> Seq<Seq<char>>
    decreases text.len(),
{
    if text.len() == 0 {
        seq![Seq::empty()]
    } else if text.last() == sep {
        split(text.drop_last(), sep).push(Seq::empty())
    } else {
        let before = split(text.drop_last(), sep);
        before.drop_last().push(before.last().push(text.last()))
    }
}

/// The pieces of `text` between the occurrences of `sep`.
pub fn split_at_each(text: &str, sep: char) -> (pieces: Vec<String>)
    ensures
        texts(pieces@) == split(text@, sep),
{
    let t = chars_of(text);
    let mut pieces: Vec<String> = Vec::new();
    let mut start: usize = 0;
    let mut i: usize = 0;
    assert(t@.subrange(0, 0) =~= Seq::<char>::empty());
    assert(texts(pieces@).push(t@.subrange(0, 0)) =~= split(t@.take(0), sep));
    while i < t.len()
        invariant
            start <= i <= t@.len(),
            t@ == text@,
            texts(pieces@).push(t@.subrange(start as int, i as int)) == split(t@.take(i as int), sep),
        decreases t@.len() - i,
    {
        assert(t@.take(i + 1).drop_last() =~= t@.take(i as int));
        let ghost done = texts(pieces@);
        if t[i] == sep {
            pieces.push(piece(&t, start, i));
            start = i + 1;
            assert(texts(pieces@) =~= done.push(pieces@.last()@));
            assert(t@.subrange(start as int, i + 1) =~= Seq::<char>::empty());
        } else {
            assert(t@.subrange(start as int, i + 1) =~= t@.subrange(start as int, i as int).push(
                t@[i as int],
            ));
            assert(done.push(t@.subrange(start as int, i as int)).drop_last() =~= done);
        }
        i += 1;
    }
    assert(t@.take(i as int) =~= t@);
    let ghost done = texts(pieces@);
    pieces.push(piece(&t, start, i));
    assert(texts(pieces@) =~= done.push(pieces@.last()@));
    pieces
}

/// The texts one after the other, with `sep` between each two.
pub open spec fn joined(parts: Seq<Seq<char>>, sep: Seq<char>) -> Seq<char>
    decreases parts.len(),
{
    if parts.len() == 0 {
        Seq::empty()
    } else if parts.len() == 1 {
        parts[0]
    } else {
        joined(parts.drop_last(), sep) + sep + parts.last()
    }
}

/// `parts[from..]`, one after the other, with `sep` between each two.
pub fn join_from(parts: &Vec<String>, from: usize, sep: &str) -> (text: String)
    requires
        from <= parts@.len(),
    ensures
        text@ == joined(texts(parts@).skip(from as int), sep@),
{
    let mut text = String::new();
    let mut i: usize = from;
    let ghost all = texts(parts@).skip(from as int);
    while i < parts.len()
        invariant
            from <= i <= parts@.len(),
            all == texts(parts@).skip(from as int),
            text@ == joined(all.take(i - from), sep@),
        decreases parts@.len() - i,
    {
        assert(all.take(i + 1 - from).drop_last() =~= all.take(i - from));
        if i > from {
            text.append(sep);
            text.append(parts[i].as_str());
        } else {
            text = parts[i].clone();
        }
        i += 1;
    }
    assert(all.take(i - from) =~= all);
    text
}

/// The texts one after the other, with `sep` between each two.
pub fn join(parts: &Vec<String>, sep: &str) -> (text: String)
    ensures
        text@ == joined(texts(parts@), sep@),
{
    assert(texts(parts@).skip(0) =~= texts(parts@));
    join_from(parts, 0, sep)
}

/// The digit for `n`, in decimal.
pub open spec fn digit(n: nat) -> char {
    (n % 10 + '0' as nat) as char
}

/// `n` in decimal.
pub open spec fn decimal(n: nat) -> Seq<char>
    decreases n,
{
    if n < 10 {
        seq![digit(n)]
    } else {
        decimal(n / 10).push(digit(n))
    }
}

/// `n` in decimal.
pub fn decimal_text(n: u128) -> (text: String)
    ensures
        text@ == decimal(n as nat),
    decreases n,
{
    let last: char = (((n % 10) as u8) + 48u8) as char;
    if n < 10 {
        let mut text = String::new();
        text.push(last);
        assert(text@ =~= seq![digit(n as nat)]);
        text
    } else {
        let mut text = decimal_text(n / 10);
        text.push(last);
        text
    }
}

/// `n` in decimal, with a minus sign where it is negative.
pub open spec fn signed_decimal(n: int) -> Seq<char> {
    if n < 0 {
        seq!['-'] + decimal(-n as nat)
    } else {
        decimal(n as nat)
    }
}

/// `n` in decimal, with a minus sign where it is negative.
pub fn signed_decimal_text(n: i32) -> (text: String)
    ensures
        text@ == signed_decimal(n as int),
{
    if n < 0 {
        let mut text = String::new();
        text.push('-');
        let size: i64 = -(n as i64);
        text.append(decimal_text(size as u128).as_str());
        assert(text@ =~= seq!['-'] + decimal(-n as nat));
        text
    } else {
        decimal_text(n as u128)
    }
}

/// Whether `a` comes before `b`: by the first characters in which they differ,
/// and the shorter one first where one begins the other.
pub open spec fn before(a: Seq<char>, b: Seq<char>) -> bool
    decreases a.len(),
{
    if b.len() == 0 {
        false
    } else if a.len() == 0 {
        true
    } else if a[0] == b[0] {
        before(a.drop_first(), b.drop_first())
    } else {
        a[0] < b[0]
    }
}

/// Whether `a` comes before `b`.
pub fn comes_before(a: &str, b: &str) -> (yes: bool)
    ensures
        yes == before(a@, b@),
{
    let s = chars_of(a);
    let t = chars_of(b);
    let mut i: usize = 0;
    assert(s@.skip(0) =~= a@ && t@.skip(0) =~= b@);
    while i < s.len() && i < t.len()
        invariant
            i <= s@.len(),
            i <= t@.len(),
            before(s@.skip(i as int), t@.skip(i as int)) == before(a@, b@),
        decreases s@.len() - i,
    {
        if s[i] != t[i] {
            return s[i] < t[i];
        }
        assert(s@.skip(i as int).drop_first() =~= s@.skip(i + 1));
        assert(t@.skip(i as int).drop_first() =~= t@.skip(i + 1));
        i += 1;
    }
    i < t.len()
}

/// `sorted` with `item` put in where it belongs, behind its equals.
pub open spec fn inserted(sorted: Seq<Seq<char>>, item: Seq<char>) -> Seq<Seq<char>>
    decreases sorted.len(),
{
    if sorted.len() > 0 && before(item, sorted.last()) {
        inserted(sorted.drop_last(), item).push(sorted.last())
    } else {
        sorted.push(item)
    }
}

/// The items in order.
pub open spec fn sorted(items: Seq<Seq<char>>) -> Seq<Seq<char>>
    decreases items.len(),
{
    if items.len() == 0 {
        items
    } else {
        inserted(sorted(items.drop_last()), items.last())
    }
}

/// Puts `item` where it belongs among sorted items, behind its equals.
fn insert(items: &mut Vec<String>, item: String)
    ensures
        texts(final(items)@) == inserted(texts(old(items)@), item@),
{
    let ghost all = texts(items@);
    let mut at: usize = items.len();
    assert(all.take(at as int) =~= all && all.skip(at as int) =~= Seq::empty());
    assert(inserted(all, item@) =~= inserted(all.take(at as int), item@) + all.skip(at as int));
    while at > 0 && comes_before(item.as_str(), items[at - 1].as_str())
        invariant
            at <= items@.len(),
            all == texts(items@),
            inserted(all, item@) == inserted(all.take(at as int), item@) + all.skip(at as int),
        decreases at,
    {
        let ghost front = all.take(at as int);
        assert(front.drop_last() =~= all.take(at - 1));
        assert(front.last() == items@[at - 1]@);
        assert(inserted(front.drop_last(), item@).push(front.last()) + all.skip(at as int) =~= inserted(
            front.drop_last(),
            item@,
        ) + all.skip(at - 1));
        at -= 1;
    }
    items.insert(at, item);
    assert(texts(items@) =~= all.take(at as int).push(item@) + all.skip(at as int));
}

/// Sorts a list of texts.
pub fn sort(items: Vec<String>) -> (result: Vec<String>)
    ensures
        texts(result@) == sorted(texts(items@)),
{
    let mut result: Vec<String> = Vec::new();
    let ghost all = texts(items@);
    let mut i: usize = 0;
    assert(texts(result@) =~= sorted(all.take(0)));
    while i < items.len()
        invariant
            i <= items@.len(),
            all == texts(items@),
            texts(result@) == sorted(all.take(i as int)),
        decreases items@.len() - i,
    {
        assert(all.take(i + 1).drop_last() =~= all.take(i as int));
        insert(&mut result, items[i].clone());
        i += 1;
    }
    assert(all.take(i as int) =~= all);
    result
}

/// No text comes before itself, and of two different texts exactly one comes
/// before the other.
pub proof fn before_is_total(a: Seq<char>, b: Seq<char>)
    ensures
        before(a, b) ==> !before(b, a),
        a != b ==> before(a, b) || before(b, a),
        !before(a, a),
    decreases a.len(),
{
    if a.len() > 0 {
        before_is_total(a.drop_first(), a.drop_first());
        if b.len() > 0 {
            before_is_total(a.drop_first(), b.drop_first());
            if a[0] == b[0] && a.drop_first() == b.drop_first() {
                assert(a =~= seq![a[0]] + a.drop_first());
                assert(b =~= seq![b[0]] + b.drop_first());
            }
        }
    } else if b.len() == 0 {
        assert(a =~= b);
    }
}

/// What comes before a text comes before all that the text comes before.
pub proof fn before_is_transitive(a: Seq<char>, b: Seq<char>, c: Seq<char>)
    requires
        before(a, b),
        before(b, c),
    ensures
        before(a, c),
    decreases a.len(),
{
    if a.len() > 0 && a[0] == b[0] && b[0] == c[0] {
        before_is_transitive(a.drop_first(), b.drop_first(), c.drop_first());
    }
}

proof fn inserted_keeps_order(items: Seq<Seq<char>>, item: Seq<char>)
    requires
        forall|i: int, j: int| 0 <= i < j < items.len() ==> !before(items[j], items[i]),
    ensures
        forall|i: int, j: int|
            0 <= i < j < inserted(items, item).len() ==> !before(
                #[trigger] inserted(items, item)[j],
                #[trigger] inserted(items, item)[i],
            ),
        inserted(items, item).to_multiset() == items.to_multiset().insert(item),
    decreases items.len(),
{
    broadcast use vstd::seq_lib::group_to_multiset_ensures;

    if items.len() > 0 && before(item, items.last()) {
        let front = items.drop_last();
        inserted_keeps_order(front, item);
        let rest = inserted(front, item);
        let all = inserted(items, item);
        assert(items =~= front.push(items.last()));
        assert forall|i: int, j: int| 0 <= i < j < all.len() implies !before(
            #[trigger] all[j],
            #[trigger] all[i],
        ) by {
            if j == rest.len() {
                assert(rest.to_multiset().count(rest[i]) > 0);
                if rest[i] != item {
                    assert(front.to_multiset().count(rest[i]) > 0);
                    assert(front.contains(rest[i]));
                    let k = choose|k: int| 0 <= k < front.len() && front[k] == rest[i];
                    assert(items[k] == rest[i]);
                } else {
                    before_is_total(item, items.last());
                }
            }
        }
        assert(all.to_multiset() =~= items.to_multiset().insert(item));
    } else {
        let all = items.push(item);
        assert forall|i: int, j: int| 0 <= i < j < all.len() implies !before(
            #[trigger] all[j],
            #[trigger] all[i],
        ) by {
            if j == items.len() && i < items.len() - 1 {
                if before(item, items[i]) {
                    let last = items.last();
                    assert(!before(last, items[i]));
                    before_is_total(last, items[i]);
                    if last != items[i] {
                        before_is_transitive(item, items[i], last);
                    }
                }
            }
        }
    }
}

/// Sorting puts the items in order and neither loses nor adds one.
pub proof fn sorted_is_an_ordered_rearrangement(items: Seq<Seq<char>>)
    ensures
        forall|i: int, j: int|
            0 <= i < j < sorted(items).len() ==> !before(
                #[trigger] sorted(items)[j],
                #[trigger] sorted(items)[i],
            ),
        sorted(items).to_multiset() == items.to_multiset(),
    decreases items.len(),
{
    broadcast use vstd::seq_lib::group_to_multiset_ensures;

    if items.len() > 0 {
        sorted_is_an_ordered_rearrangement(items.drop_last());
        inserted_keeps_order(sorted(items.drop_last()), items.last());
        assert(items =~= items.drop_last().push(items.last()));
    }
}

/// What comes of sorting depends on which items there are, not on their order.
pub proof fn sorted_is_the_same_for_every_order(a: Seq<Seq<char>>, b: Seq<Seq<char>>)
    requires
        a.to_multiset() == b.to_multiset(),
    ensures
        sorted(a) == sorted(b),
{
    let not_after = |x: Seq<char>, y: Seq<char>| !before(y, x);
    assert forall|x: Seq<char>| #[trigger] not_after(x, x) by {
        before_is_total(x, x);
    }
    assert forall|x: Seq<char>, y: Seq<char>| #[trigger]
        not_after(x, y) && #[trigger] not_after(y, x) implies x == y by {
        before_is_total(x, y);
    }
    assert forall|x: Seq<char>, y: Seq<char>| #[trigger] not_after(x, y) || #[trigger] not_after(
        y,
        x,
    ) by {
        before_is_total(x, y);
    }
    assert forall|x: Seq<char>, y: Seq<char>, z: Seq<char>| #[trigger]
        not_after(x, y) && #[trigger] not_after(y, z) implies not_after(x, z) by {
        before_is_total(x, y);
        before_is_total(y, z);
        before_is_total(x, z);
        if before(z, x) && x != y && y != z {
            before_is_transitive(x, y, z);
        }
    }
    sorted_is_an_ordered_rearrangement(a);
    sorted_is_an_ordered_rearrangement(b);
    vstd::seq_lib::lemma_sorted_unique(sorted(a), sorted(b), not_after);
}

/// Joining the pieces of a split text with the separator gives the text back.
pub proof fn joined_split_is_the_text(text: Seq<char>, sep: char)
    ensures
        split(text, sep).len() > 0,
        joined(split(text, sep), seq![sep]) == text,
    decreases text.len(),
{
    if text.len() > 0 {
        joined_split_is_the_text(text.drop_last(), sep);
        let front = split(text.drop_last(), sep);
        let all = split(text, sep);
        let rest = text.drop_last();
        if text.last() == sep {
            assert(all.drop_last() =~= front);
            assert(joined(all, seq![sep]) =~= rest + seq![sep]);
        } else {
            assert(all.drop_last() =~= front.drop_last());
            assert(joined(all, seq![sep]) =~= joined(front, seq![sep]).push(text.last()));
        }
        assert(rest.push(text.last()) =~= text);
    }
}

/// Splitting goes on behind a separator as if the text began there.
pub proof fn split_parts_at_a_separator(a: Seq<char>, sep: char, b: Seq<char>)
    ensures
        split(a.push(sep) + b, sep) == split(a, sep) + split(b, sep),
    decreases b.len(),
{
    let whole = a.push(sep) + b;
    joined_split_is_the_text(b, sep);
    if b.len() == 0 {
        assert(whole =~= a.push(sep));
        assert(whole.drop_last() =~= a);
        assert(split(whole, sep) =~= split(a, sep) + split(b, sep));
    } else {
        assert(whole.drop_last() =~= a.push(sep) + b.drop_last());
        split_parts_at_a_separator(a, sep, b.drop_last());
        joined_split_is_the_text(b.drop_last(), sep);
        assert(split(whole, sep) =~= split(a, sep) + split(b, sep));
    }
}

/// A text without the separator is its own single piece.
pub proof fn split_leaves_a_plain_text_whole(text: Seq<char>, sep: char)
    requires
        !text.contains(sep),
    ensures
        split(text, sep) == seq![text],
    decreases text.len(),
{
    if text.len() > 0 {
        assert(text[text.len() - 1] != sep);
        assert forall|i: int| 0 <= i < text.drop_last().len() implies text.drop_last()[i] != sep by {
            assert(text[i] != sep);
        }
        split_leaves_a_plain_text_whole(text.drop_last(), sep);
        assert(text.drop_last().push(text.last()) =~= text);
        assert(split(text, sep) =~= seq![text]);
    } else {
        assert(text =~= Seq::empty());
    }
}

} // verus!
