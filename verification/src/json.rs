//! JSON values: what a `serde_json` value or object holds.

use vstd::prelude::*;

use crate::text::{
    ascending_texts_unique, text_le, text_le_total, text_le_transitive, texts_ascending, texts_of,
};

verus! {

/// What a JSON value holds. A number that is no integer is held by the bits of
/// its 64-bit float.
pub enum Json {
    Null,
    Bool(bool),
    Integer(int),
    Float(u64),
    Text(Seq<char>),
    Array(Seq<Json>),
    Object(Map<Seq<char>, Json>),
}

/// The object without members.
pub open spec fn no_members() -> Map<Seq<char>, Json> {
    Map::empty()
}

/// The members of a value, none where it is no object.
pub open spec fn members(value: Json) -> Map<Seq<char>, Json> {
    match value {
        Json::Object(object) => object,
        _ => no_members(),
    }
}

/// The member of an object under a key.
pub open spec fn member(object: Map<Seq<char>, Json>, key: Seq<char>) -> Option<Json> {
    if object.dom().contains(key) {
        Some(object[key])
    } else {
        None
    }
}

/// The member under a key as a text; `None` where there is none or it is
/// something else.
pub open spec fn text_member(object: Map<Seq<char>, Json>, key: Seq<char>) -> Option<Seq<char>> {
    match member(object, key) {
        Some(Json::Text(text)) => Some(text),
        _ => None,
    }
}

/// The member under a key as an array; `None` where there is none or it is
/// something else.
pub open spec fn array_member(object: Map<Seq<char>, Json>, key: Seq<char>) -> Option<Seq<Json>> {
    match member(object, key) {
        Some(Json::Array(items)) => Some(items),
        _ => None,
    }
}

/// The texts of a set in ascending order.
pub open spec fn in_order(texts: Set<Seq<char>>) -> Seq<Seq<char>> {
    choose|list: Seq<Seq<char>>| texts_ascending(list) && #[trigger] list.to_set() == texts
}

/// The keys of an object in ascending order.
pub open spec fn sorted_keys(object: Map<Seq<char>, Json>) -> Seq<Seq<char>> {
    in_order(object.dom())
}

/// A member is found under its key whatever it is, as a text or an array only if it
/// is one, and in nothing but an object.
pub proof fn members_are_found_by_key(object: Map<Seq<char>, Json>, key: Seq<char>, value: Json)
    ensures
        members(Json::Object(object)) == object,
        !(value is Object) ==> members(value).dom() == Set::<Seq<char>>::empty(),
        no_members().dom() == Set::<Seq<char>>::empty(),
        member(object, key) is Some <==> object.dom().contains(key),
        object.dom().contains(key) ==> member(object, key)->0 == object[key],
        text_member(object, key) is Some <==> object.dom().contains(key) && object[key] is Text,
        text_member(object, key) is Some ==> text_member(object, key)->0 == object[key]->Text_0,
        array_member(object, key) is Some <==> object.dom().contains(key) && object[key] is Array,
        array_member(object, key) is Some ==> array_member(object, key)->0 == object[key]->Array_0,
{
}

/// A list of texts with one more, in its place.
spec fn with_text_in_place(list: Seq<Seq<char>>, text: Seq<char>) -> Seq<Seq<char>>
    decreases list.len(),
{
    if list.len() == 0 || text_le(list.last(), text) {
        list.push(text)
    } else {
        with_text_in_place(list.drop_last(), text).push(list.last())
    }
}

proof fn text_goes_in_place(list: Seq<Seq<char>>, text: Seq<char>)
    requires
        texts_ascending(list),
        !list.contains(text),
    ensures
        texts_ascending(with_text_in_place(list, text)),
        with_text_in_place(list, text).to_set() == list.to_set().insert(text),
    decreases list.len(),
{
    let res = with_text_in_place(list, text);
    if list.len() == 0 || text_le(list.last(), text) {
        assert forall|i: int, j: int| 0 <= i < j < res.len() implies text_le(
            #[trigger] res[i],
            #[trigger] res[j],
        ) by {
            if j == list.len() {
                if i < list.len() - 1 {
                    assert(text_le(list[i], list[list.len() - 1]));
                    text_le_transitive(list[i], list.last(), text);
                }
            } else {
                assert(text_le(list[i], list[j]));
            }
        }
        assert forall|i: int, j: int| 0 <= i < res.len() && 0 <= j < res.len() && i != j implies res[i]
            != res[j] by {
            if i == list.len() {
                assert(list.contains(list[j]));
            } else if j == list.len() {
                assert(list.contains(list[i]));
            }
        }
        assert(res.to_set() =~= list.to_set().insert(text)) by {
            assert forall|t: Seq<char>| res.contains(t) == (list.contains(t) || t == text) by {
                if list.contains(t) {
                    let i = choose|i: int| 0 <= i < list.len() && list[i] == t;
                    assert(res[i] == t);
                }
                if t == text {
                    assert(res[list.len() as int] == t);
                }
            }
        }
    } else {
        let front = list.drop_last();
        let last = list.last();
        assert forall|i: int, j: int| 0 <= i < j < front.len() implies text_le(
            #[trigger] front[i],
            #[trigger] front[j],
        ) by {
            assert(text_le(list[i], list[j]));
        }
        assert(!front.contains(text)) by {
            if front.contains(text) {
                let i = choose|i: int| 0 <= i < front.len() && front[i] == text;
                assert(list[i] == text);
            }
        }
        text_goes_in_place(front, text);
        let rest = with_text_in_place(front, text);
        text_le_total(last, text);
        assert forall|t: Seq<char>| rest.contains(t) implies text_le(t, last) && t != last by {
            assert(rest.to_set().contains(t));
            assert(front.to_set().contains(t) || t == text);
            if t != text {
                let i = choose|i: int| 0 <= i < front.len() && front[i] == t;
                assert(text_le(list[i], list[list.len() - 1]));
                assert(list[i] != list[list.len() - 1]);
            } else {
                assert(list.contains(last));
            }
        }
        assert forall|i: int, j: int| 0 <= i < j < res.len() implies text_le(
            #[trigger] res[i],
            #[trigger] res[j],
        ) by {
            if j == rest.len() {
                assert(rest.contains(rest[i]));
            } else {
                assert(text_le(rest[i], rest[j]));
            }
        }
        assert forall|i: int, j: int| 0 <= i < res.len() && 0 <= j < res.len() && i != j implies res[i]
            != res[j] by {
            if i == rest.len() {
                assert(rest.contains(rest[j]));
            } else if j == rest.len() {
                assert(rest.contains(rest[i]));
            }
        }
        assert(res.to_set() =~= list.to_set().insert(text)) by {
            assert forall|t: Seq<char>| res.contains(t) == (list.contains(t) || t == text) by {
                assert(rest.to_set().contains(t) == (front.to_set().contains(t) || t == text));
                if rest.contains(t) {
                    let i = choose|i: int| 0 <= i < rest.len() && rest[i] == t;
                    assert(res[i] == t);
                    if front.contains(t) {
                        let k = choose|k: int| 0 <= k < front.len() && front[k] == t;
                        assert(list[k] == t);
                    }
                }
                if list.contains(t) {
                    let k = choose|k: int| 0 <= k < list.len() && list[k] == t;
                    if k < front.len() {
                        assert(front[k] == t);
                        assert(rest.contains(t));
                    } else {
                        assert(res[rest.len() as int] == t);
                    }
                }
                if res.contains(t) && t != last {
                    let k = choose|k: int| 0 <= k < res.len() && res[k] == t;
                    assert(rest[k] == t);
                }
            }
        }
    }
}

/// The texts of any finite set can be listed in ascending order, and there is one
/// such list alone.
pub proof fn sets_are_listed_in_order(texts: Set<Seq<char>>)
    requires
        texts.finite(),
    ensures
        texts_ascending(in_order(texts)),
        in_order(texts).to_set() == texts,
        forall|list: Seq<Seq<char>>|
            texts_ascending(list) && #[trigger] list.to_set() == texts ==> list == in_order(texts),
    decreases texts.len(),
{
    if texts.len() == 0 {
        let none = Seq::<Seq<char>>::empty();
        assert(none.to_set() =~= texts);
        assert(texts_ascending(none) && none.to_set() == texts);
    } else {
        let text = texts.choose();
        let rest = texts.remove(text);
        sets_are_listed_in_order(rest);
        let list = in_order(rest);
        assert(!list.contains(text)) by {
            if list.contains(text) {
                assert(list.to_set().contains(text));
            }
        }
        text_goes_in_place(list, text);
        let all = with_text_in_place(list, text);
        assert(all.to_set() =~= texts);
        assert(texts_ascending(all) && all.to_set() == texts);
    }
    assert forall|list: Seq<Seq<char>>| texts_ascending(list) && #[trigger] list.to_set()
        == texts implies list == in_order(texts) by {
        ascending_texts_unique(list, in_order(texts));
    }
}

/// A text that comes after all others of a set is the last of the list.
pub proof fn greatest_text_is_listed_last(texts: Set<Seq<char>>, text: Seq<char>)
    requires
        texts.finite(),
        !texts.contains(text),
        forall|other: Seq<char>| #[trigger] texts.contains(other) ==> text_le(other, text),
    ensures
        in_order(texts.insert(text)) == in_order(texts).push(text),
{
    sets_are_listed_in_order(texts);
    sets_are_listed_in_order(texts.insert(text));
    let list = in_order(texts);
    assert(!list.contains(text)) by {
        if list.contains(text) {
            assert(list.to_set().contains(text));
        }
    }
    text_goes_in_place(list, text);
    if list.len() > 0 {
        assert(list.contains(list.last()));
        assert(list.to_set().contains(list.last()));
    }
    assert(with_text_in_place(list, text) == list.push(text));
    assert(list.push(text).to_set() =~= texts.insert(text));
}

/// `serde_json::Value`, a JSON value.
#[verifier::external_type_specification]
#[verifier::external_body]
pub struct ExValue(serde_json::Value);

/// `serde_json::Map`, the members of a JSON object.
#[verifier::external_type_specification]
#[verifier::external_body]
#[verifier::reject_recursive_types(K)]
#[verifier::reject_recursive_types(V)]
pub struct ExMap<K, V>(serde_json::Map<K, V>);

/// `serde_json::Error`, why a text is not the JSON that was asked for.
#[verifier::external_type_specification]
#[verifier::external_body]
pub struct ExError(serde_json::Error);

/// What a value holds.
pub uninterp spec fn json_value(value: serde_json::Value) -> Json;

/// What an object holds.
pub uninterp spec fn json_object(object: serde_json::Map<String, serde_json::Value>) -> Map<Seq<char>, Json>;

/// The message of an error.
pub uninterp spec fn json_error_text(error: serde_json::Error) -> Seq<char>;

/// The object that `serde_json::from_str` reads out of a text, or the message of
/// its error.
pub uninterp spec fn parsed_object(text: Seq<char>) -> Result<Map<Seq<char>, Json>, Seq<char>>;

/// The text that `{:?}` makes of an optional object.
pub uninterp spec fn object_debug_text(object: Option<Map<Seq<char>, Json>>) -> Seq<char>;

/// `serde_json::Value::as_str`: the text of a value that is one.
#[verifier::external_body]
pub(crate) fn value_as_str(value: &serde_json::Value) -> (res: Option<&str>)
    ensures
        match json_value(*value) {
            Json::Text(text) => res is Some && res->0@ == text,
            _ => res is None,
        },
{
    value.as_str()
}

/// `serde_json::Value::as_array`: the items of a value that is an array.
#[verifier::external_body]
pub(crate) fn value_as_array(value: &serde_json::Value) -> (res: Option<&Vec<serde_json::Value>>)
    ensures
        match json_value(*value) {
            Json::Array(items) => res is Some && items == res->0@.map_values(
                |item: serde_json::Value| json_value(item),
            ),
            _ => res is None,
        },
{
    value.as_array()
}

/// `serde_json::Value::as_object`: the members of a value that is an object.
#[verifier::external_body]
pub(crate) fn value_as_object(value: &serde_json::Value) -> (res: Option<&serde_json::Map<String, serde_json::Value>>)
    ensures
        match json_value(*value) {
            Json::Object(object) => res is Some && json_object(*res->0) == object,
            _ => res is None,
        },
{
    value.as_object()
}

/// `serde_json::Value::take`: hands the value over and leaves `null`.
#[verifier::external_body]
pub(crate) fn value_take(value: &mut serde_json::Value) -> (res: serde_json::Value)
    ensures
        res == *old(value),
        json_value(*final(value)) == Json::Null,
{
    value.take()
}

/// Takes a value that is `serde_json::Value::Object` apart; any other comes back
/// as it is.
#[verifier::external_body]
pub(crate) fn value_into_object(value: serde_json::Value) -> (res: Result<
    serde_json::Map<String, serde_json::Value>,
    serde_json::Value,
>)
    ensures
        match res {
            Ok(object) => json_value(value) == Json::Object(json_object(object)),
            Err(other) => other == value && !(json_value(value) is Object),
        },
{
    match value {
        serde_json::Value::Object(object) => Ok(object),
        other => Err(other),
    }
}

/// `serde_json::Value::Object`: the value that an object is.
#[verifier::external_body]
pub(crate) fn value_from_object(object: serde_json::Map<String, serde_json::Value>) -> (res: serde_json::Value)
    ensures
        json_value(res) == Json::Object(json_object(object)),
{
    serde_json::Value::Object(object)
}

/// `serde_json::Value::from` on a `usize`: that integer.
#[verifier::external_body]
pub(crate) fn value_from_usize(n: usize) -> (res: serde_json::Value)
    ensures
        json_value(res) == Json::Integer(n as int),
{
    serde_json::Value::from(n)
}

/// `serde_json::Map::new`: no members.
#[verifier::external_body]
pub(crate) fn object_new() -> (res: serde_json::Map<String, serde_json::Value>)
    ensures
        json_object(res) == no_members(),
{
    serde_json::Map::new()
}

/// `serde_json::Map::get`: the member under a key.
#[verifier::external_body]
pub(crate) fn object_get<'a>(object: &'a serde_json::Map<String, serde_json::Value>, key: &str) -> (res: Option<
    &'a serde_json::Value,
>)
    ensures
        res is Some <==> json_object(*object).dom().contains(key@),
        res matches Some(value) ==> json_value(*value) == json_object(*object)[key@],
{
    object.get(key)
}

/// `serde_json::Map::insert`: the member stands under its key, in place of one
/// that did before.
#[verifier::external_body]
pub(crate) fn object_insert(object: &mut serde_json::Map<String, serde_json::Value>, key: String, value: serde_json::Value)
    ensures
        json_object(*final(object)) == json_object(*old(object)).insert(key@, json_value(value)),
{
    object.insert(key, value);
}

/// `serde_json::Map::remove`: the member under a key leaves the object.
#[verifier::external_body]
pub(crate) fn object_remove(object: &mut serde_json::Map<String, serde_json::Value>, key: &str) -> (res: Option<
    serde_json::Value,
>)
    ensures
        res is Some <==> json_object(*old(object)).dom().contains(key@),
        res matches Some(value) ==> json_value(value) == json_object(*old(object))[key@],
        json_object(*final(object)) == json_object(*old(object)).remove(key@),
{
    object.remove(key)
}

/// `serde_json::Map::keys`: every key once, in ascending order.
#[verifier::external_body]
pub(crate) fn object_keys(object: &serde_json::Map<String, serde_json::Value>) -> (res: Vec<String>)
    ensures
        texts_ascending(texts_of(res@)),
        texts_of(res@).to_set() == json_object(*object).dom(),
{
    object.keys().cloned().collect()
}

/// `serde_json::from_str` for an object: the named object, or an error with the
/// named message.
#[verifier::external_body]
pub(crate) fn parse_object(text: &str) -> (res: Result<
    serde_json::Map<String, serde_json::Value>,
    serde_json::Error,
>)
    ensures
        match res {
            Ok(object) => parsed_object(text@) == Ok::<Map<Seq<char>, Json>, Seq<char>>(
                json_object(object),
            ),
            Err(error) => parsed_object(text@) == Err::<Map<Seq<char>, Json>, Seq<char>>(
                json_error_text(error),
            ),
        },
{
    serde_json::from_str(text)
}

/// `ToString::to_string` on a `serde_json::Error`: the named message.
#[verifier::external_body]
pub(crate) fn error_text(error: &serde_json::Error) -> (res: String)
    ensures
        res@ == json_error_text(*error),
{
    error.to_string()
}

/// `{:?}` on an optional `serde_json::Map`: the named text.
#[verifier::external_body]
pub(crate) fn object_debug(object: &Option<serde_json::Map<String, serde_json::Value>>) -> (res: String)
    ensures
        res@ == object_debug_text(
            match object {
                Some(o) => Some(json_object(*o)),
                None => None,
            },
        ),
{
    format!("{:?}", object)
}

/// The keys of an object, in ascending order.
pub(crate) fn keys_in_order(object: &serde_json::Map<String, serde_json::Value>) -> (res: Vec<String>)
    ensures
        texts_of(res@) == sorted_keys(json_object(*object)),
        texts_of(res@).no_duplicates(),
        texts_of(res@).to_set() == json_object(*object).dom(),
{
    let keys = object_keys(object);
    proof {
        let listed = texts_of(keys@);
        assert(texts_ascending(listed) && listed.to_set() == json_object(*object).dom());
        ascending_texts_unique(listed, sorted_keys(json_object(*object)));
    }
    keys
}

/// The text under a key, where there is one.
pub(crate) fn get_text<'a>(object: &'a serde_json::Map<String, serde_json::Value>, key: &str) -> (res: Option<&'a str>)
    ensures
        match text_member(json_object(*object), key@) {
            Some(text) => res is Some && res->0@ == text,
            None => res is None,
        },
{
    match object_get(object, key) {
        Some(value) => value_as_str(value),
        None => None,
    }
}

/// The items of the array under a key, where there is one.
pub(crate) fn get_array<'a>(object: &'a serde_json::Map<String, serde_json::Value>, key: &str) -> (res: Option<
    &'a Vec<serde_json::Value>,
>)
    ensures
        match array_member(json_object(*object), key@) {
            Some(items) => res is Some && items == res->0@.map_values(
                |item: serde_json::Value| json_value(item),
            ),
            None => res is None,
        },
{
    match object_get(object, key) {
        Some(value) => value_as_array(value),
        None => None,
    }
}

} // verus!
