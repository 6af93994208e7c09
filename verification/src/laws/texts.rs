//! Laws of texts.
use vstd::prelude::*;
#[allow(unused_imports)]
use crate::text::{
    before, decimal, has_dot_dot, is_white, joined, joined_split_is_the_text, signed_decimal,
    sorted, sorted_is_an_ordered_rearrangement, split, stripped, texts, trimmed, trimmed_end,
    trimmed_start, without_leading_white, without_outer_white, without_trailing_white,
};

verus! {

/// A list of strings holds the text of each string, in its place.
pub proof fn texts_are_those_of_the_strings(strings: Seq<String>)
    ensures
        texts(strings).len() == strings.len(),
        forall|i: int| 0 <= i < strings.len() ==> #[trigger] texts(strings)[i] == strings[i]@,
{
}

/// A prefix comes off exactly where the text is the prefix and a rest, and what
/// remains is that rest.
pub proof fn a_prefix_comes_off(text: Seq<char>, prefix: Seq<char>, rest: Seq<char>)
    ensures
        stripped(text, prefix) == Some(rest) <==> text == prefix + rest,
        stripped(text, prefix) is None <==> !prefix.is_prefix_of(text),
{
    if text == prefix + rest {
        assert(prefix.is_prefix_of(text));
        assert(text.skip(prefix.len() as int) =~= rest);
    }
    if prefix.is_prefix_of(text) {
        assert(prefix + text.skip(prefix.len() as int) =~= text);
    }
}

/// A text climbs exactly where two full stops stand next to each other in it.
pub proof fn two_full_stops_are_found(text: Seq<char>, a: Seq<char>, b: Seq<char>)
    ensures
        has_dot_dot(a + seq!['.', '.'] + b),
        has_dot_dot(text) <==> exists|i: int|
            0 <= i < text.len() - 1 && #[trigger] text[i] == '.' && text[i + 1] == '.',
{
    let whole = a + seq!['.', '.'] + b;
    let n = a.len() as int;
    assert(whole[n] == '.' && whole[n + 1] == '.');
}

/// What is trimmed off the end is a run of the character, and all of it.
pub proof fn trimming_takes_the_run_at_the_end(text: Seq<char>, c: char)
    ensures
        ({
            let rest = trimmed_end(text, c);
            &&& rest.is_prefix_of(text)
            &&& rest.len() > 0 ==> rest.last() != c
            &&& forall|i: int| rest.len() <= i < text.len() ==> #[trigger] text[i] == c
        }),
    decreases text.len(),
{
    if text.len() > 0 && text.last() == c {
        let front = text.drop_last();
        trimming_takes_the_run_at_the_end(front, c);
        let rest = trimmed_end(text, c);
        assert forall|i: int| rest.len() <= i < text.len() implies #[trigger] text[i] == c by {
            if i < front.len() {
                assert(front[i] == text[i]);
            }
        }
        assert forall|i: int| 0 <= i < rest.len() implies rest[i] == text[i] by {
            assert(rest[i] == front[i]);
        }
    }
}

proof fn trimming_takes_the_run_at_the_start(text: Seq<char>, c: char)
    ensures
        ({
            let rest = trimmed_start(text, c);
            let n = text.len() - rest.len();
            &&& n >= 0
            &&& rest == text.skip(n)
            &&& rest.len() > 0 ==> rest[0] != c
            &&& forall|i: int| 0 <= i < n ==> #[trigger] text[i] == c
        }),
    decreases text.len(),
{
    if text.len() > 0 && text[0] == c {
        let behind = text.drop_first();
        trimming_takes_the_run_at_the_start(behind, c);
        let rest = trimmed_start(text, c);
        let n = text.len() - rest.len();
        assert(behind.skip(n - 1) =~= text.skip(n));
        assert forall|i: int| 0 <= i < n implies #[trigger] text[i] == c by {
            if i > 0 {
                assert(behind[i - 1] == text[i]);
            }
        }
    } else {
        assert(text.skip(0) =~= text);
    }
}

/// A trimmed text is what stands between a run of the character and another,
/// and neither begins nor ends with it.
pub proof fn trimming_takes_the_runs_at_both_ends(text: Seq<char>, c: char)
    ensures
        exists|a: int, b: int|
            {
                &&& 0 <= a <= b <= text.len()
                &&& trimmed(text, c) == #[trigger] text.subrange(a, b)
                &&& a < b ==> text[a] != c && text[b - 1] != c
                &&& forall|i: int| 0 <= i < a || b <= i < text.len() ==> #[trigger] text[i] == c
            },
{
    let front = trimmed_end(text, c);
    trimming_takes_the_run_at_the_end(text, c);
    trimming_takes_the_run_at_the_start(front, c);
    let rest = trimmed_start(front, c);
    let a = front.len() - rest.len();
    let b = front.len() as int;
    assert(rest =~= text.subrange(a, b));
    assert forall|i: int| 0 <= i < a || b <= i < text.len() implies #[trigger] text[i] == c by {
        if i < a {
            assert(front[i] == text[i]);
        }
    }
    if a < b {
        assert(text[a] == rest[0]);
        assert(text[b - 1] == front.last());
    }
    assert(trimmed(text, c) == text.subrange(a, b));
}

proof fn the_white_end_is_taken(text: Seq<char>)
    ensures
        ({
            let rest = without_trailing_white(text);
            &&& rest.is_prefix_of(text)
            &&& rest.len() > 0 ==> !is_white(rest.last())
            &&& forall|i: int| rest.len() <= i < text.len() ==> is_white(#[trigger] text[i])
        }),
    decreases text.len(),
{
    if text.len() > 0 && is_white(text.last()) {
        let front = text.drop_last();
        the_white_end_is_taken(front);
        let rest = without_trailing_white(text);
        assert forall|i: int| rest.len() <= i < text.len() implies is_white(#[trigger] text[i]) by {
            if i < front.len() {
                assert(front[i] == text[i]);
            }
        }
        assert forall|i: int| 0 <= i < rest.len() implies rest[i] == text[i] by {
            assert(rest[i] == front[i]);
        }
    }
}

proof fn the_white_start_is_taken(text: Seq<char>)
    ensures
        ({
            let rest = without_leading_white(text);
            let n = text.len() - rest.len();
            &&& n >= 0
            &&& rest == text.skip(n)
            &&& rest.len() > 0 ==> !is_white(rest[0])
            &&& forall|i: int| 0 <= i < n ==> is_white(#[trigger] text[i])
        }),
    decreases text.len(),
{
    if text.len() > 0 && is_white(text[0]) {
        let behind = text.drop_first();
        the_white_start_is_taken(behind);
        let rest = without_leading_white(text);
        let n = text.len() - rest.len();
        assert(behind.skip(n - 1) =~= text.skip(n));
        assert forall|i: int| 0 <= i < n implies is_white(#[trigger] text[i]) by {
            if i > 0 {
                assert(behind[i - 1] == text[i]);
            }
        }
    } else {
        assert(text.skip(0) =~= text);
    }
}

/// A text without its outer white space is what stands between white space and
/// white space, and neither begins nor ends with any.
pub proof fn outer_white_space_is_taken(text: Seq<char>)
    ensures
        exists|a: int, b: int|
            {
                &&& 0 <= a <= b <= text.len()
                &&& without_outer_white(text) == #[trigger] text.subrange(a, b)
                &&& a < b ==> !is_white(text[a]) && !is_white(text[b - 1])
                &&& forall|i: int|
                    0 <= i < a || b <= i < text.len() ==> is_white(#[trigger] text[i])
            },
{
    let front = without_trailing_white(text);
    the_white_end_is_taken(text);
    the_white_start_is_taken(front);
    let rest = without_leading_white(front);
    let a = front.len() - rest.len();
    let b = front.len() as int;
    assert(rest =~= text.subrange(a, b));
    assert forall|i: int| 0 <= i < a || b <= i < text.len() implies is_white(
        #[trigger] text[i],
    ) by {
        if i < a {
            assert(front[i] == text[i]);
        }
    }
    if a < b {
        assert(text[a] == rest[0]);
        assert(text[b - 1] == front.last());
    }
    assert(without_outer_white(text) == text.subrange(a, b));
}

/// White space is what has the Unicode property of that name: the tab and the
/// four characters behind it, the space, the next line, the no-break space, the
/// Ogham space mark, the spaces from the en quad to the hair space, the line and
/// the paragraph separator, the narrow no-break space, the medium mathematical
/// space and the ideographic space.
pub proof fn what_white_space_is(c: char)
    ensures
        is_white(c) <==> {
            let n = c as int;
            ||| 9 <= n <= 13
            ||| 0x2000 <= n <= 0x200a
            ||| set![32int, 0x85, 0xa0, 0x1680, 0x2028, 0x2029, 0x202f, 0x205f, 0x3000].contains(n)
        },
{
}

/// Nothing is left of a text exactly where it is all white space.
pub proof fn nothing_but_white_space(text: Seq<char>)
    ensures
        without_outer_white(text).len() == 0 <==> forall|i: int|
            0 <= i < text.len() ==> is_white(#[trigger] text[i]),
{
    outer_white_space_is_taken(text);
    let (a, b) = choose|a: int, b: int|
        {
            &&& 0 <= a <= b <= text.len()
            &&& without_outer_white(text) == #[trigger] text.subrange(a, b)
            &&& a < b ==> !is_white(text[a]) && !is_white(text[b - 1])
            &&& forall|i: int| 0 <= i < a || b <= i < text.len() ==> is_white(#[trigger] text[i])
        };
    if a < b {
        assert(!is_white(text[a]));
    }
}

/// Joining goes piece by piece: nothing for no piece, a piece for itself, and a
/// separator before each further one.
pub proof fn joining_goes_piece_by_piece(
    pieces: Seq<Seq<char>>,
    piece: Seq<char>,
    sep: Seq<char>,
)
    ensures
        joined(Seq::empty(), sep) == Seq::<char>::empty(),
        joined(seq![piece], sep) == piece,
        pieces.len() > 0 ==> joined(pieces.push(piece), sep) == joined(pieces, sep) + sep + piece,
{
    assert(pieces.push(piece).drop_last() =~= pieces);
}

/// The pieces of a text hold no separator, and joined by it they are the text:
/// there are no others of which that holds.
pub proof fn pieces_are_those_between_separators(text: Seq<char>, sep: char)
    ensures
        split(text, sep).len() > 0,
        joined(split(text, sep), seq![sep]) == text,
        forall|i: int|
            0 <= i < split(text, sep).len() ==> !(#[trigger] split(text, sep)[i]).contains(sep),
    decreases text.len(),
{
    joined_split_is_the_text(text, sep);
    if text.len() > 0 {
        pieces_are_those_between_separators(text.drop_last(), sep);
        let before = split(text.drop_last(), sep);
        let all = split(text, sep);
        assert forall|i: int| 0 <= i < all.len() implies !(#[trigger] all[i]).contains(sep) by {
            if i < before.len() - 1 || (text.last() == sep && i < before.len()) {
                assert(all[i] == before[i]);
            } else if text.last() != sep {
                assert(all[i] == before.last().push(text.last()));
                assert(!before[before.len() - 1].contains(sep));
                if all[i].contains(sep) {
                    let j = choose|j: int| 0 <= j < all[i].len() && all[i][j] == sep;
                    assert(before.last()[j] == sep);
                }
            }
        }
    }
}

/// A number is written with its last digit behind the others.
pub proof fn digits_are_written_in_order(tens: nat, ones: nat)
    requires
        ones < 10,
    ensures
        decimal(ones) == seq!["0123456789"@[ones as int]],
        tens > 0 ==> decimal(10 * tens + ones) == decimal(tens).push("0123456789"@[ones as int]),
        signed_decimal(tens as int) == decimal(tens),
        tens > 0 ==> signed_decimal(-tens) == "-"@ + decimal(tens),
{
    reveal_strlit("0123456789");
    reveal_strlit("-");
    if tens > 0 {
        let n: nat = 10 * tens + ones;
        assert(n / 10 == tens && n % 10 == ones);
        assert(decimal(n) =~= decimal(tens).push("0123456789"@[ones as int]));
        assert(seq!['-'] + decimal(tens) =~= "-"@ + decimal(tens));
    }
    assert(decimal(ones) =~= seq!["0123456789"@[ones as int]]);
}

/// A text comes before another where it is its beginning, or has the lesser
/// character where the two first differ.
pub proof fn the_first_difference_decides(
    start: Seq<char>,
    a: Seq<char>,
    b: Seq<char>,
    x: char,
    y: char,
)
    ensures
        x < y ==> before(start + seq![x] + a, start + seq![y] + b),
        before(start, start + seq![x] + a),
        x > y ==> !before(start + seq![x] + a, start + seq![y] + b),
        !before(start + a, start),
    decreases start.len(),
{
    if start.len() > 0 {
        let rest = start.drop_first();
        the_first_difference_decides(rest, a, b, x, y);
        assert((start + seq![x] + a).drop_first() =~= rest + seq![x] + a);
        assert((start + seq![y] + b).drop_first() =~= rest + seq![y] + b);
        assert((start + a).drop_first() =~= rest + a);
    } else {
        assert((start + seq![x] + a)[0] == x);
        assert((start + seq![y] + b)[0] == y);
    }
}

/// Sorting puts the items in order and keeps each as often as it stands there.
pub proof fn sorting_keeps_every_item(items: Seq<Seq<char>>, item: Seq<char>)
    ensures
        sorted(items).len() == items.len(),
        sorted(items).contains(item) <==> items.contains(item),
        sorted(items).to_multiset().count(item) == items.to_multiset().count(item),
        forall|i: int, j: int|
            0 <= i < j < sorted(items).len() ==> !before(
                #[trigger] sorted(items)[j],
                #[trigger] sorted(items)[i],
            ),
{
    broadcast use vstd::seq_lib::group_to_multiset_ensures;

    sorted_is_an_ordered_rearrangement(items);
    assert(sorted(items).to_multiset().len() == items.to_multiset().len());
    assert(sorted(items).contains(item) <==> sorted(items).to_multiset().count(item) > 0);
    assert(items.contains(item) <==> items.to_multiset().count(item) > 0);
}

} // verus!
