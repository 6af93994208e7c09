//! Laws of values and of the lists that are read out of them.
use vstd::prelude::*;
#[allow(unused_imports)]
use crate::files::{files_read, files_sent, files_view, strings_read, File, FileView};
#[allow(unused_imports)]
use crate::codec::{entries_model, members_of, value_model, Node};
#[allow(unused_imports)]
use crate::json::{lookup, number_model, number_u64, placed, position, Json, JsonView, Numeral};
#[allow(unused_imports)]
use crate::text::has_dot_dot;

verus! {

/// A value holds what its parts hold, each in its place.
pub proof fn a_value_holds_its_parts(
    items: Vec<Json>,
    members: Vec<(String, Json)>,
    text: String,
    truth: bool,
    number: Numeral,
)
    ensures
        Json::Null@ is Null,
        Json::Bool(truth)@ == JsonView::Bool(truth),
        Json::Number(number)@ == JsonView::Number(number),
        Json::Text(text)@ == JsonView::Text(text@),
        Json::List(items)@ is List,
        Json::List(items)@->List_0.len() == items@.len(),
        forall|i: int|
            0 <= i < items@.len() ==> #[trigger] Json::List(items)@->List_0[i] == items@[i]@,
        Json::Object(members)@ is Object,
        Json::Object(members)@->Object_0.len() == members@.len(),
        forall|i: int|
            0 <= i < members@.len() ==> #[trigger] Json::Object(members)@->Object_0[i] == (
                members@[i].0@,
                members@[i].1@,
            ),
{
}

/// A value is taken for the text that it is, and for an empty one where it is
/// none.
pub proof fn what_a_value_is_as_a_text(value: JsonView)
    ensures
        value is Text ==> value.string() == value->Text_0,
        !(value is Text) ==> value.string().len() == 0,
{
}

/// A number is the unsigned integer that it is, and itself where it is none.
pub proof fn what_a_number_is(number: serde_json::Number)
    ensures
        number_u64(number) is Some ==> number_model(number) == Numeral::Unsigned(
            number_u64(number)->0,
        ),
        number_u64(number) is None ==> number_model(number) == Numeral::Other(number),
{
}

/// The top layer of an outside value holds what its parts hold, each in its
/// place.
pub proof fn what_a_layer_holds(
    values: Vec<serde_json::Value>,
    entries: Seq<(String, serde_json::Value)>,
    map: serde_json::Map<String, serde_json::Value>,
    text: String,
    truth: bool,
    number: serde_json::Number,
)
    ensures
        Node::Null.model() is Null,
        Node::Bool(truth).model() == JsonView::Bool(truth),
        Node::Number(number).model() == JsonView::Number(number_model(number)),
        Node::Text(text).model() == JsonView::Text(text@),
        Node::Object(map).model() == JsonView::Object(members_of(map)),
        Node::List(values).model() is List,
        Node::List(values).model()->List_0.len() == values@.len(),
        forall|i: int|
            0 <= i < values@.len() ==> #[trigger] Node::List(values).model()->List_0[i]
                == value_model(values@[i]),
        entries_model(entries).len() == entries.len(),
        forall|i: int|
            0 <= i < entries.len() ==> #[trigger] entries_model(entries)[i] == (
                entries[i].0@,
                value_model(entries[i].1),
            ),
{
}

proof fn the_first_with_a_key(members: Seq<(Seq<char>, JsonView)>, key: Seq<char>)
    ensures
        ({
            let i = position(members, key);
            &&& i <= members.len()
            &&& i < members.len() ==> members[i as int].0 == key
            &&& forall|j: int| 0 <= j < i ==> (#[trigger] members[j]).0 != key
        }),
    decreases members.len(),
{
    if members.len() > 0 && members[0].0 != key {
        let behind = members.drop_first();
        the_first_with_a_key(behind, key);
        let i = position(members, key);
        assert forall|j: int| 0 <= j < i implies (#[trigger] members[j]).0 != key by {
            if j > 0 {
                assert(members[j] == behind[j - 1]);
            }
        }
        if i < members.len() {
            assert(members[i as int] == behind[i - 1]);
        }
    }
}

/// A value is settled part by part. A list keeps each item in its place. In an
/// object a member with a new key stands behind the others, and one with a key
/// that stands there takes the place of the value under it; nothing else changes.
pub proof fn what_a_settled_value_is(
    value: JsonView,
    members: Seq<(Seq<char>, JsonView)>,
    key: Seq<char>,
    added: JsonView,
)
    ensures
        value is Null || value is Bool || value is Text ==> value.settled() == value,
        value is Number && value->Number_0 is Unsigned ==> value.settled() == value,
        value is Number && value->Number_0 is Other ==> value.settled() == JsonView::Number(
            number_model(value->Number_0->Other_0),
        ),
        value is List ==> {
            &&& value.settled() is List
            &&& value.settled()->List_0.len() == value->List_0.len()
            &&& forall|i: int|
                0 <= i < value->List_0.len() ==> #[trigger] value.settled()->List_0[i]
                    == value->List_0[i].settled()
        },
        JsonView::Object(Seq::empty()).settled() == JsonView::Object(Seq::empty()),
        ({
            let before = JsonView::Object(members).settled()->Object_0;
            let after = JsonView::Object(members.push((key, added))).settled();
            &&& after is Object
            &&& (forall|i: int| 0 <= i < before.len() ==> (#[trigger] before[i]).0 != key)
                ==> after->Object_0 == before.push((key, added.settled()))
            &&& (exists|i: int| 0 <= i < before.len() && (#[trigger] before[i]).0 == key) ==> {
                &&& after->Object_0.len() == before.len()
                &&& forall|i: int|
                    0 <= i < before.len() ==> (#[trigger] after->Object_0[i]).0 == before[i].0
                &&& forall|i: int|
                    0 <= i < before.len() && before[i].0 != key
                        ==> #[trigger] after->Object_0[i] == before[i]
                &&& exists|i: int|
                    {
                        &&& 0 <= i < before.len()
                        &&& #[trigger] after->Object_0[i] == (key, added.settled())
                        &&& forall|j: int| 0 <= j < i ==> (#[trigger] before[j]).0 != key
                    }
            }
        }),
{
    reveal_with_fuel(placed, 2);
    reveal_with_fuel(JsonView::settled, 2);
    let before = JsonView::Object(members).settled()->Object_0;
    let after = JsonView::Object(members.push((key, added))).settled()->Object_0;
    assert(members.push((key, added)).drop_last() =~= members);
    the_first_with_a_key(before, key);
    let n = position(before, key) as int;
    if n < before.len() {
        assert(before[n].0 == key);
        assert(after[n] == (key, added.settled()));
    }
}

/// What stands under a key is the value of the first member with that key, and
/// null where no member has it.
pub proof fn what_stands_under_a_key(value: JsonView, key: Seq<char>)
    ensures
        !(value is Object) ==> value.member(key) is None,
        value is Object && value.member(key) is Some ==> exists|i: int|
            {
                &&& 0 <= i < value->Object_0.len()
                &&& (#[trigger] value->Object_0[i]).0 == key
                &&& Some(value->Object_0[i].1) == value.member(key)
                &&& forall|j: int| 0 <= j < i ==> (#[trigger] value->Object_0[j]).0 != key
            },
        value is Object && value.member(key) is None ==> forall|j: int|
            0 <= j < value->Object_0.len() ==> (#[trigger] value->Object_0[j]).0 != key,
        value.member(key) is Some ==> value.at(key) == value.member(key)->0,
        value.member(key) is None ==> value.at(key) is Null,
    decreases value,
{
    if value is Object {
        the_first_member(value->Object_0, key);
    }
}

proof fn the_first_member(members: Seq<(Seq<char>, JsonView)>, key: Seq<char>)
    ensures
        lookup(members, key) is Some ==> exists|i: int|
            {
                &&& 0 <= i < members.len()
                &&& (#[trigger] members[i]).0 == key
                &&& Some(members[i].1) == lookup(members, key)
                &&& forall|j: int| 0 <= j < i ==> (#[trigger] members[j]).0 != key
            },
        lookup(members, key) is None ==> forall|j: int|
            0 <= j < members.len() ==> (#[trigger] members[j]).0 != key,
    decreases members.len(),
{
    if members.len() > 0 && members[0].0 != key {
        let behind = members.drop_first();
        the_first_member(behind, key);
        if lookup(behind, key) is Some {
            let i = choose|i: int|
                {
                    &&& 0 <= i < behind.len()
                    &&& (#[trigger] behind[i]).0 == key
                    &&& Some(behind[i].1) == lookup(behind, key)
                    &&& forall|j: int| 0 <= j < i ==> (#[trigger] behind[j]).0 != key
                };
            assert(members[i + 1] == behind[i]);
            assert forall|j: int| 0 <= j < i + 1 implies (#[trigger] members[j]).0 != key by {
                if j > 0 {
                    assert(behind[j - 1] == members[j]);
                }
            }
        } else {
            assert forall|j: int| 0 <= j < members.len() implies (
            #[trigger] members[j]).0 != key by {
                if j > 0 {
                    assert(behind[j - 1] == members[j]);
                }
            }
        }
    } else if members.len() > 0 {
        assert(members[0].0 == key);
    }
}

/// A list of files holds what each file holds, in its place.
pub proof fn files_hold_their_paths_and_bodies(files: Seq<File>)
    ensures
        files_view(files).len() == files.len(),
        forall|i: int|
            0 <= i < files.len() ==> (#[trigger] files_view(files)[i]).path == files[i].path@
                && files_view(files)[i].body == files[i].body@,
{
}

/// Whether a value is a file as it should be sent: under "path" a text that is
/// not empty, in which no two full stops stand next to each other, which does not
/// begin with a separator and holds no null character, and under "body" a text.
pub open spec fn is_a_file(item: JsonView) -> bool {
    let path = item.at("path"@);
    &&& path is Text
    &&& path->Text_0.len() > 0
    &&& item.at("body"@) is Text
    &&& path->Text_0[0] != '/'
    &&& !path->Text_0.contains('\0')
    &&& forall|i: int|
        0 <= i < path->Text_0.len() - 1 ==> !(#[trigger] path->Text_0[i] == '.' && path->Text_0[i
            + 1] == '.')
}

/// Whether the one thing that is wrong with a file is that its path escapes.
pub open spec fn only_escapes(item: JsonView) -> bool {
    !is_a_file(item) && item.at("path"@) is Text && item.at("path"@)->Text_0.len() > 0 && item.at(
        "body"@,
    ) is Text
}

/// A list of files is read exactly where each of its items is a file, and then
/// the path and the body of each file are those of the item in the same place.
/// Where an item is none, the complaint is about the first such item.
pub proof fn each_file_is_read_from_its_own_item(items: Seq<JsonView>, error: Seq<char>, k: int)
    ensures
        files_read(JsonView::List(items), error) is Ok <==> forall|i: int|
            0 <= i < items.len() ==> is_a_file(#[trigger] items[i]),
        files_read(JsonView::List(items), error) is Ok ==> {
            let files = files_read(JsonView::List(items), error)->Ok_0;
            &&& files.len() == items.len()
            &&& forall|i: int|
                0 <= i < items.len() ==> items[i].at("path"@) == JsonView::Text(
                    (#[trigger] files[i]).path,
                ) && items[i].at("body"@) == JsonView::Text(files[i].body)
        },
        0 <= k < items.len() && !is_a_file(items[k]) && (forall|i: int|
            0 <= i < k ==> is_a_file(#[trigger] items[i])) ==> files_read(
            JsonView::List(items),
            error,
        ) == Err::<Seq<FileView>, Seq<char>>(
            if only_escapes(items[k]) {
                "File path \""@ + items[k].at("path"@)->Text_0
                    + "\" escapes the output directory."@
            } else {
                error
            },
        ),
    decreases items.len(),
{
    reveal_strlit("/");
    if items.len() > 0 {
        let front = items.drop_last();
        let last = items.last();
        each_file_is_read_from_its_own_item(front, error, k);
        assert(is_a_file(last) <==> crate::files::file_fault(last, error) is None) by {
            let path = last.at("path"@);
            if path is Text && path->Text_0.len() > 0 {
                let text = path->Text_0;
                assert("/"@.is_prefix_of(text) <==> text[0] == '/') by {
                    assert(text.subrange(0, 1)[0] == text[0]);
                    if text[0] == '/' {
                        assert(text.subrange(0, 1) =~= "/"@);
                    }
                }
                assert(has_dot_dot(text) <==> exists|i: int|
                    0 <= i < text.len() - 1 && #[trigger] text[i] == '.' && text[i + 1] == '.');
            }
        }
        assert(forall|i: int| 0 <= i < front.len() ==> front[i] == items[i]);
        if forall|i: int| 0 <= i < items.len() ==> is_a_file(#[trigger] items[i]) {
            assert forall|i: int| 0 <= i < front.len() implies is_a_file(#[trigger] front[i]) by {
                assert(is_a_file(items[i]));
            }
            assert(is_a_file(items[items.len() - 1]));
        }
        if files_sent(items, error) is Ok {
            let files = files_sent(items, error)->Ok_0;
            assert forall|i: int| 0 <= i < items.len() implies is_a_file(#[trigger] items[i]) by {
                if i < front.len() {
                    assert(is_a_file(front[i]));
                }
            }
            assert forall|i: int| 0 <= i < items.len() implies items[i].at("path"@)
                == JsonView::Text((#[trigger] files[i]).path) && items[i].at("body"@)
                == JsonView::Text(files[i].body) by {
                if i < front.len() {
                    let before = files_sent(front, error)->Ok_0;
                    assert(before[i] == files[i]);
                    assert(front[i] == items[i]);
                } else {
                    assert(items[i] == last);
                }
            }
        }
        if 0 <= k < items.len() && !is_a_file(items[k]) && (forall|i: int|
            0 <= i < k ==> is_a_file(#[trigger] items[i])) {
            if k == items.len() - 1 {
                assert forall|i: int| 0 <= i < front.len() implies is_a_file(
                    #[trigger] front[i],
                ) by {
                    assert(is_a_file(items[i]));
                }
            } else {
                assert(front[k] == items[k]);
                assert forall|i: int| 0 <= i < k implies is_a_file(#[trigger] front[i]) by {
                    assert(is_a_file(items[i]));
                }
            }
        }
    }
}

/// What is no list is no list of files.
pub proof fn only_a_list_is_read_as_files(value: JsonView, error: Seq<char>)
    requires
        !(value is List),
    ensures
        files_read(value, error) == Err::<Seq<FileView>, Seq<char>>(error),
{
}

/// A list of texts is read as its texts, each in its place; null as none; and
/// all else is refused.
pub proof fn each_text_is_read_from_its_own_item(value: JsonView, name: Seq<char>)
    ensures
        value is Null ==> strings_read(value, name) == Ok::<Seq<Seq<char>>, Seq<char>>(
            Seq::empty(),
        ),
        strings_read(value, name) is Ok <==> value is Null || (value is List && forall|i: int|
            0 <= i < value->List_0.len() ==> (#[trigger] value->List_0[i]) is Text),
        value is List && strings_read(value, name) is Ok ==> {
            let texts = strings_read(value, name)->Ok_0;
            &&& texts.len() == value->List_0.len()
            &&& forall|i: int|
                0 <= i < texts.len() ==> value->List_0[i] == JsonView::Text(#[trigger] texts[i])
        },
        strings_read(value, name) is Err ==> strings_read(value, name)->Err_0 == "\""@ + name
            + "\" must be a list of strings."@,
{
    if value is List && strings_read(value, name) is Ok {
        let texts = strings_read(value, name)->Ok_0;
        assert forall|i: int| 0 <= i < texts.len() implies value->List_0[i] == JsonView::Text(
            #[trigger] texts[i],
        ) by {
            assert(value->List_0[i] is Text);
        }
    }
}

} // verus!
