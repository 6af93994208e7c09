//! JSON values as the library holds them, and how it reads them.
use vstd::prelude::*;
use crate::text::same;

verus! {

/// The outside type of JSON numbers, carried along and never looked into.
#[verifier::external_type_specification]
#[verifier::external_body]
pub struct ExNumber(serde_json::Number);

/// `serde_json::Number::clone`: the derived copy of a number is that number.
pub assume_specification[ <serde_json::Number as std::clone::Clone>::clone ](
    number: &serde_json::Number,
) -> (copy: serde_json::Number)
    ensures
        copy == *number,
;

/// A JSON number: an unsigned integer of at most 64 bits, which the protocol
/// reads, or any other number, which it only carries along.
pub enum Numeral {
    Unsigned(u64),
    Other(serde_json::Number),
}

/// The unsigned integer of at most 64 bits that an outside number is, if it is
/// one.
pub uninterp spec fn number_u64(number: serde_json::Number) -> Option<u64>;

/// `serde_json::Number::as_u64`: the unsigned integer of at most 64 bits that
/// the number is, if it is one, which depends on the number alone.
pub assume_specification[ serde_json::Number::as_u64 ](number: &serde_json::Number) -> (n: Option<
    u64,
>)
    ensures
        n == number_u64(*number),
;

/// What an outside number is in the library.
pub open spec fn number_model(number: serde_json::Number) -> Numeral {
    match number_u64(number) {
        Some(n) => Numeral::Unsigned(n),
        None => Numeral::Other(number),
    }
}

/// Tells the unsigned integers of at most 64 bits from all other numbers.
pub(crate) fn split_number(number: serde_json::Number) -> (numeral: Numeral)
    ensures
        numeral == number_model(number),
{
    match number.as_u64() {
        Some(n) => Numeral::Unsigned(n),
        None => Numeral::Other(number),
    }
}

/// `serde_json::Number::from(u64)`: makes the number of an unsigned integer.
#[verifier::external_body]
pub(crate) fn unsigned_number(n: u64) -> (number: serde_json::Number)
    ensures
        number_u64(number) == Some(n),
{
    serde_json::Number::from(n)
}

/// A JSON value. The members of an object stand in the order in which they
/// were put into it.
pub enum Json {
    Null,
    Bool(bool),
    Number(Numeral),
    Text(String),
    List(Vec<Json>),
    Object(Vec<(String, Json)>),
}

/// What a [`Json`] value means.
pub enum JsonView {
    Null,
    Bool(bool),
    Number(Numeral),
    Text(Seq<char>),
    List(Seq<JsonView>),
    Object(Seq<(Seq<char>, JsonView)>),
}

/// What the values of a list mean.
pub open spec fn items_view(items: Seq<Json>) -> Seq<JsonView>
    decreases items,
{
    Seq::new(
        items.len(),
        |i: int|
            if 0 <= i < items.len() {
                items[i].view()
            } else {
                JsonView::Null
            },
    )
}

/// What the members of an object mean.
pub open spec fn members_view(members: Seq<(String, Json)>) -> Seq<(Seq<char>, JsonView)>
    decreases members,
{
    Seq::new(
        members.len(),
        |i: int|
            if 0 <= i < members.len() {
                (members[i].0@, members[i].1.view())
            } else {
                (Seq::empty(), JsonView::Null)
            },
    )
}

/// The value of the first member under `key`.
pub open spec fn lookup(members: Seq<(Seq<char>, JsonView)>, key: Seq<char>) -> Option<JsonView>
    decreases members.len(),
{
    if members.len() == 0 {
        None
    } else if members[0].0 == key {
        Some(members[0].1)
    } else {
        lookup(members.drop_first(), key)
    }
}

/// Whether no key stands twice among the members.
pub open spec fn distinct_keys(members: Seq<(Seq<char>, JsonView)>) -> bool {
    forall|i: int, j: int| 0 <= i < j < members.len() ==> members[i].0 != members[j].0
}

/// Where the first member under `key` stands; the number of members where there
/// is none.
pub open spec fn position(members: Seq<(Seq<char>, JsonView)>, key: Seq<char>) -> nat
    decreases members.len(),
{
    if members.len() == 0 || members[0].0 == key {
        0
    } else {
        1 + position(members.drop_first(), key)
    }
}

/// `members` with `value` under `key`: in place of the member under that key
/// where there is one, else at the end.
pub open spec fn put(
    members: Seq<(Seq<char>, JsonView)>,
    key: Seq<char>,
    value: JsonView,
) -> Seq<(Seq<char>, JsonView)> {
    let i = position(members, key);
    if i < members.len() {
        members.update(i as int, (key, value))
    } else {
        members.push((key, value))
    }
}

/// The members that remain when each is put into an empty object in turn.
pub open spec fn placed(members: Seq<(Seq<char>, JsonView)>) -> Seq<(Seq<char>, JsonView)>
    decreases members, 1nat,
{
    if members.len() == 0 {
        Seq::empty()
    } else {
        put(placed(members.drop_last()), members.last().0, members.last().1.settled())
    }
}

impl JsonView {
    /// Whether no object in the value, however deep, has two members under one
    /// key, and each number is told apart by what it is.
    pub open spec fn wf(self) -> bool
        decreases self,
    {
        match self {
            JsonView::List(items) => forall|i: int|
                0 <= i < items.len() ==> (#[trigger] items[i]).wf(),
            JsonView::Object(members) => {
                &&& distinct_keys(members)
                &&& forall|i: int| 0 <= i < members.len() ==> (#[trigger] members[i]).1.wf()
            },
            JsonView::Number(Numeral::Other(number)) => number_model(number) == Numeral::Other(number),
            _ => true,
        }
    }

    /// The value with the last of several members under one key in the place
    /// of the first, and each number told apart by what it is.
    pub open spec fn settled(self) -> JsonView
        decreases self, 0nat,
    {
        match self {
            JsonView::List(items) => JsonView::List(
                Seq::new(
                    items.len(),
                    |i: int|
                        if 0 <= i < items.len() {
                            items[i].settled()
                        } else {
                            JsonView::Null
                        },
                ),
            ),
            JsonView::Object(members) => JsonView::Object(placed(members)),
            JsonView::Number(Numeral::Other(number)) => JsonView::Number(number_model(number)),
            _ => self,
        }
    }

    /// The member under `key`, if the value is an object that has one.
    pub open spec fn member(self, key: Seq<char>) -> Option<JsonView> {
        match self {
            JsonView::Object(members) => lookup(members, key),
            _ => None,
        }
    }

    /// The member under `key`, or null where there is none.
    pub open spec fn at(self, key: Seq<char>) -> JsonView {
        match self.member(key) {
            Some(value) => value,
            None => JsonView::Null,
        }
    }

    /// The text of a text value; the empty text for any other value.
    pub open spec fn string(self) -> Seq<char> {
        match self {
            JsonView::Text(text) => text,
            _ => Seq::empty(),
        }
    }
}

impl Json {
    /// What the value means.
    pub open spec fn view(&self) -> JsonView
        decreases self,
    {
        match self {
            Json::Null => JsonView::Null,
            Json::Bool(b) => JsonView::Bool(*b),
            Json::Number(n) => JsonView::Number(*n),
            Json::Text(s) => JsonView::Text(s@),
            Json::List(items) => JsonView::List(items_view(items@)),
            Json::Object(members) => JsonView::Object(members_view(members@)),
        }
    }

    /// The member under `key`, if the value is an object that has one.
    pub fn get(&self, key: &str) -> (value: Option<&Json>)
        ensures
            value is Some == self@.member(key@) is Some,
            value is Some ==> value->0@ == self@.member(key@)->0,
    {
        match self {
            Json::Object(members) => {
                let ghost all = members_view(members@);
                let mut i: usize = 0;
                assert(all.skip(0) =~= all);
                while i < members.len()
                    invariant
                        i <= members@.len(),
                        all == members_view(members@),
                        self@ == JsonView::Object(all),
                        lookup(all.skip(i as int), key@) == lookup(all, key@),
                    decreases members@.len() - i,
                {
                    assert(all.skip(i as int)[0] == all[i as int]);
                    if same(members[i].0.as_str(), key) {
                        return Some(&members[i].1);
                    }
                    assert(all.skip(i as int).drop_first() =~= all.skip(i + 1));
                    i += 1;
                }
                None
            },
            _ => None,
        }
    }

    /// A copy of the value.
    pub fn duplicate(&self) -> (copy: Json)
        ensures
            copy@ == self@,
        decreases self,
    {
        match self {
            Json::Null => Json::Null,
            Json::Bool(b) => Json::Bool(*b),
            Json::Number(Numeral::Unsigned(n)) => Json::Number(Numeral::Unsigned(*n)),
            Json::Number(Numeral::Other(n)) => Json::Number(Numeral::Other(n.clone())),
            Json::Text(s) => Json::Text(s.clone()),
            Json::List(items) => {
                let mut copies: Vec<Json> = Vec::new();
                let mut i: usize = 0;
                while i < items.len()
                    invariant
                        i <= items@.len(),
                        copies@.len() == i,
                        self == Json::List(*items),
                        forall|j: int|
                            0 <= j < i ==> (#[trigger] copies@[j])@ == items@[j]@,
                    decreases items@.len() - i,
                {
                    assert(decreases_to!(self => self->List_0@[i as int]));
                    copies.push(items[i].duplicate());
                    i += 1;
                }
                assert(items_view(copies@) =~= items_view(items@));
                Json::List(copies)
            },
            Json::Object(members) => {
                let mut copies: Vec<(String, Json)> = Vec::new();
                let mut i: usize = 0;
                while i < members.len()
                    invariant
                        i <= members@.len(),
                        copies@.len() == i,
                        self == Json::Object(*members),
                        forall|j: int|
                            0 <= j < i ==> (#[trigger] copies@[j]).0@ == members@[j].0@
                                && copies@[j].1@ == members@[j].1@,
                    decreases members@.len() - i,
                {
                    assert(decreases_to!(self => self->Object_0@[i as int].1));
                    copies.push((members[i].0.clone(), members[i].1.duplicate()));
                    i += 1;
                }
                assert(members_view(copies@) =~= members_view(members@));
                Json::Object(copies)
            },
        }
    }

    /// Whether the value is an object.
    pub fn is_object(&self) -> (yes: bool)
        ensures
            yes == (self@ is Object),
    {
        match self {
            Json::Object(_) => true,
            _ => false,
        }
    }
}

/// The text of a text value; the empty text for any other value.
pub fn string(v: &Json) -> (text: String)
    ensures
        text@ == v@.string(),
{
    match v {
        Json::Text(s) => s.clone(),
        _ => String::new(),
    }
}

/// The text of the member under `key`; the empty text where there is no such
/// member or it is not a text.
pub fn string_at(v: &Json, key: &str) -> (text: String)
    ensures
        text@ == v@.at(key@).string(),
{
    match v.get(key) {
        Some(value) => string(value),
        None => String::new(),
    }
}

/// One member more means one member more.
pub proof fn members_view_grows(members: Seq<(String, Json)>, member: (String, Json))
    ensures
        members_view(members.push(member)) == members_view(members).push((member.0@, member.1@)),
{
    assert(members_view(members.push(member)) =~= members_view(members).push(
        (member.0@, member.1@),
    ));
}

/// A member that is found is one of the members.
pub proof fn lookup_gives_a_member(members: Seq<(Seq<char>, JsonView)>, key: Seq<char>)
    requires
        lookup(members, key) is Some,
    ensures
        exists|i: int|
            0 <= i < members.len() && (#[trigger] members[i]).0 == key && members[i].1 == lookup(
                members,
                key,
            )->0,
    decreases members.len(),
{
    if members[0].0 != key {
        let rest = members.drop_first();
        lookup_gives_a_member(rest, key);
        let i = choose|i: int|
            0 <= i < rest.len() && (#[trigger] rest[i]).0 == key && rest[i].1 == lookup(
                rest,
                key,
            )->0;
        assert(members[i + 1] == rest[i]);
    } else {
        assert(members[0].1 == lookup(members, key)->0);
    }
}

/// Where no object in a value has a key twice, none in its members has.
pub proof fn a_member_of_a_sound_value_is_sound(value: JsonView, key: Seq<char>)
    requires
        value.wf(),
    ensures
        value.at(key).wf(),
{
    if value.member(key) is Some {
        let members = value->Object_0;
        lookup_gives_a_member(members, key);
        let i = choose|i: int|
            0 <= i < members.len() && (#[trigger] members[i]).0 == key && members[i].1 == lookup(
                members,
                key,
            )->0;
        assert(members[i].1.wf());
    }
}

/// A key that stands once is found wherever it stands.
pub proof fn lookup_finds_each_member(members: Seq<(Seq<char>, JsonView)>, i: int)
    requires
        distinct_keys(members),
        0 <= i < members.len(),
    ensures
        lookup(members, members[i].0) == Some(members[i].1),
    decreases members.len(),
{
    if i > 0 {
        let rest = members.drop_first();
        assert forall|j: int, k: int| 0 <= j < k < rest.len() implies rest[j].0 != rest[k].0 by {
            assert(members[j + 1].0 != members[k + 1].0);
        }
        assert(members[0].0 != members[i].0);
        lookup_finds_each_member(rest, i - 1);
    }
}

} // verus!
