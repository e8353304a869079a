//! Decoding of the upstream bookmark payload: a JSON array of objects.
//!
//! `url`, `created_at` and `content` are required strings; `card` and
//! `account` are optional objects (absent or `null` means none), whose own
//! string fields default to the empty string when absent. Any violation of
//! the required-field contract fails the whole request — no partial,
//! best-effort feed is produced. `created_at` is not validated here; that
//! is deferred to rendering.
//!
//! serde_json does the JSON parsing; the decoded document is walked here,
//! in verified code, through a few trusted accessors.

use vstd::prelude::*;
use crate::errors::FeedError;
use crate::render::Account;
use crate::render::AccountModel;
use crate::render::Bookmark;
use crate::render::BookmarkModel;
use crate::render::Card;
use crate::render::CardModel;
use crate::render::views_of;

verus! {

#[verifier::external_type_specification]
#[verifier::external_body]
pub struct ExValue(serde_json::Value);

#[verifier::external_type_specification]
#[verifier::external_body]
#[verifier::reject_recursive_types(K)]
#[verifier::reject_recursive_types(V)]
pub struct ExJsonMap<K, V>(serde_json::Map<K, V>);

/// The mathematical shape of a JSON document.
pub enum JsonNode {
    Null,
    Bool(bool),
    Number,
    Str(Seq<char>),
    Arr(Seq<JsonNode>),
    Obj(Map<Seq<char>, JsonNode>),
}

/// What a `serde_json::Value` holds.
pub uninterp spec fn json_value_model(v: serde_json::Value) -> JsonNode;

/// What a `serde_json::Map` (a JSON object's members) holds.
pub uninterp spec fn json_map_model(m: serde_json::Map<String, serde_json::Value>) -> Map<
    Seq<char>,
    JsonNode,
>;

/// The document a byte string parses to, `None` when it is not valid JSON.
pub uninterp spec fn json_doc(bytes: Seq<u8>) -> Option<JsonNode>;

/// Relies on `serde_json::from_slice::<Value>`: whether the bytes parse as
/// one JSON document, and which document, depend on the bytes alone.
#[verifier::external_body]
fn parse_json(bytes: &[u8]) -> (r: Option<serde_json::Value>)
    ensures
        r is Some <==> json_doc(bytes@) is Some,
        r is Some ==> json_value_model(r->0) == json_doc(bytes@)->0,
{
    serde_json::from_slice(bytes).ok()
}

/// Relies on `serde_json::Value::as_array`: `Some` exactly for a JSON
/// array, yielding its elements in order.
#[verifier::external_body]
fn value_as_array(v: &serde_json::Value) -> (r: Option<&Vec<serde_json::Value>>)
    ensures
        r is Some <==> json_value_model(*v) is Arr,
        r is Some ==> r->0@.map_values(|x: serde_json::Value| json_value_model(x))
            == json_value_model(*v)->Arr_0,
{
    v.as_array()
}

/// Relies on `serde_json::Value::as_object`: `Some` exactly for a JSON
/// object, yielding its members.
#[verifier::external_body]
fn value_as_object(v: &serde_json::Value) -> (r: Option<
    &serde_json::Map<String, serde_json::Value>,
>)
    ensures
        r is Some <==> json_value_model(*v) is Obj,
        r is Some ==> json_map_model(*r->0) == json_value_model(*v)->Obj_0,
{
    v.as_object()
}

/// Relies on `serde_json::Value::as_str`: `Some` exactly for a JSON
/// string, yielding its characters.
#[verifier::external_body]
fn value_as_str<'a>(v: &'a serde_json::Value) -> (r: Option<&'a str>)
    ensures
        r is Some <==> json_value_model(*v) is Str,
        r is Some ==> r->0@ == json_value_model(*v)->Str_0,
{
    v.as_str()
}

/// Relies on `serde_json::Value::is_null`: true exactly for JSON `null`.
#[verifier::external_body]
fn value_is_null(v: &serde_json::Value) -> (r: bool)
    ensures
        r == (json_value_model(*v) is Null),
{
    v.is_null()
}

/// Relies on `serde_json::Map::get`: the member stored under the key, if
/// any.
#[verifier::external_body]
fn map_get<'a>(m: &'a serde_json::Map<String, serde_json::Value>, key: &str) -> (r: Option<
    &'a serde_json::Value,
>)
    ensures
        r is Some <==> json_map_model(*m).dom().contains(key@),
        r is Some ==> json_value_model(*r->0) == json_map_model(*m)[key@],
{
    m.get(key)
}

/// A required string member: present and a string, else the record is
/// malformed.
pub open spec fn req_str(m: Map<Seq<char>, JsonNode>, k: Seq<char>) -> Option<Seq<char>> {
    if m.dom().contains(k) && m[k] is Str {
        Some(m[k]->Str_0)
    } else {
        None
    }
}

/// An optional string member: absent means the empty string; present but
/// not a string means malformed.
pub open spec fn def_str(m: Map<Seq<char>, JsonNode>, k: Seq<char>) -> Option<Seq<char>> {
    if !m.dom().contains(k) {
        Some(Seq::<char>::empty())
    } else if m[k] is Str {
        Some(m[k]->Str_0)
    } else {
        None
    }
}

/// The bookmark's optional card: absent or `null` means none; an object
/// yields a card with defaulted fields; anything else is malformed.
pub open spec fn decode_card(m: Map<Seq<char>, JsonNode>) -> Option<Option<CardModel>> {
    if !m.dom().contains("card"@) {
        Some(None)
    } else if m["card"@] is Null {
        Some(None)
    } else if m["card"@] is Obj {
        let cm = m["card"@]->Obj_0;
        if def_str(cm, "title"@) is Some && def_str(cm, "url"@) is Some {
            Some(Some(CardModel { title: def_str(cm, "title"@)->0, url: def_str(cm, "url"@)->0 }))
        } else {
            None
        }
    } else {
        None
    }
}

/// The bookmark's optional account, by the same rules as the card.
pub open spec fn decode_account(m: Map<Seq<char>, JsonNode>) -> Option<Option<AccountModel>> {
    if !m.dom().contains("account"@) {
        Some(None)
    } else if m["account"@] is Null {
        Some(None)
    } else if m["account"@] is Obj {
        let am = m["account"@]->Obj_0;
        if def_str(am, "username"@) is Some {
            Some(Some(AccountModel { username: def_str(am, "username"@)->0 }))
        } else {
            None
        }
    } else {
        None
    }
}

/// One bookmark record from one JSON value; `None` when the value violates
/// the contract. Unknown members are ignored.
pub open spec fn decode_item(n: JsonNode) -> Option<BookmarkModel> {
    if !(n is Obj) {
        None
    } else {
        let m = n->Obj_0;
        if req_str(m, "url"@) is Some && req_str(m, "created_at"@) is Some && req_str(
            m,
            "content"@,
        ) is Some && decode_card(m) is Some && decode_account(m) is Some {
            Some(
                BookmarkModel {
                    url: req_str(m, "url"@)->0,
                    created_at: req_str(m, "created_at"@)->0,
                    content: req_str(m, "content"@)->0,
                    card: decode_card(m)->0,
                    account: decode_account(m)->0,
                },
            )
        } else {
            None
        }
    }
}

/// All records of the array, in order; `None` as soon as any record fails.
pub open spec fn decode_items(s: Seq<JsonNode>) -> Option<Seq<BookmarkModel>>
    decreases s.len(),
{
    if s.len() == 0 {
        Some(Seq::<BookmarkModel>::empty())
    } else {
        let rest = decode_items(s.drop_last());
        if rest is Some && decode_item(s.last()) is Some {
            Some(rest->0.push(decode_item(s.last())->0))
        } else {
            None
        }
    }
}

/// The whole payload: a JSON array of bookmark records.
pub open spec fn decode_model(n: JsonNode) -> Option<Seq<BookmarkModel>> {
    if n is Arr {
        decode_items(n->Arr_0)
    } else {
        None
    }
}

proof fn lemma_decode_items_fail(s: Seq<JsonNode>, i: int)
    requires
        0 <= i < s.len(),
        decode_item(s[i]) is None,
    ensures
        decode_items(s) is None,
    decreases s.len(),
{
    if i == s.len() - 1 {
        assert(s.last() == s[i]);
    } else {
        assert(s.drop_last()[i] == s[i]);
        lemma_decode_items_fail(s.drop_last(), i);
    }
}

fn get_required_str(m: &serde_json::Map<String, serde_json::Value>, key: &str) -> (r: Result<
    String,
    FeedError,
>)
    ensures
        r is Ok <==> req_str(json_map_model(*m), key@) is Some,
        r is Ok ==> r->Ok_0@ == req_str(json_map_model(*m), key@)->0,
        r is Err ==> r->Err_0 == FeedError::UpstreamMalformed,
{
    match map_get(m, key) {
        Some(v) => match value_as_str(v) {
            Some(s) => Ok(s.to_owned()),
            None => Err(FeedError::UpstreamMalformed),
        },
        None => Err(FeedError::UpstreamMalformed),
    }
}

fn get_defaulted_str(m: &serde_json::Map<String, serde_json::Value>, key: &str) -> (r: Result<
    String,
    FeedError,
>)
    ensures
        r is Ok <==> def_str(json_map_model(*m), key@) is Some,
        r is Ok ==> r->Ok_0@ == def_str(json_map_model(*m), key@)->0,
        r is Err ==> r->Err_0 == FeedError::UpstreamMalformed,
{
    match map_get(m, key) {
        Some(v) => match value_as_str(v) {
            Some(s) => Ok(s.to_owned()),
            None => Err(FeedError::UpstreamMalformed),
        },
        None => Ok(String::new()),
    }
}

fn get_card(m: &serde_json::Map<String, serde_json::Value>) -> (r: Result<Option<Card>, FeedError>)
    ensures
        r is Ok <==> decode_card(json_map_model(*m)) is Some,
        r is Ok ==> (match r->Ok_0 {
            Some(c) => Some(c@),
            None => None,
        }) == decode_card(json_map_model(*m))->0,
        r is Err ==> r->Err_0 == FeedError::UpstreamMalformed,
{
    match map_get(m, "card") {
        None => Ok(None),
        Some(v) => {
            if value_is_null(v) {
                Ok(None)
            } else {
                match value_as_object(v) {
                    Some(cm) => {
                        let title = match get_defaulted_str(cm, "title") {
                            Ok(t) => t,
                            Err(e) => {
                                return Err(e);
                            },
                        };
                        let url = match get_defaulted_str(cm, "url") {
                            Ok(u) => u,
                            Err(e) => {
                                return Err(e);
                            },
                        };
                        Ok(Some(Card { title, url }))
                    },
                    None => Err(FeedError::UpstreamMalformed),
                }
            }
        },
    }
}

fn get_account(m: &serde_json::Map<String, serde_json::Value>) -> (r: Result<
    Option<Account>,
    FeedError,
>)
    ensures
        r is Ok <==> decode_account(json_map_model(*m)) is Some,
        r is Ok ==> (match r->Ok_0 {
            Some(a) => Some(a@),
            None => None,
        }) == decode_account(json_map_model(*m))->0,
        r is Err ==> r->Err_0 == FeedError::UpstreamMalformed,
{
    match map_get(m, "account") {
        None => Ok(None),
        Some(v) => {
            if value_is_null(v) {
                Ok(None)
            } else {
                match value_as_object(v) {
                    Some(am) => {
                        let username = match get_defaulted_str(am, "username") {
                            Ok(u) => u,
                            Err(e) => {
                                return Err(e);
                            },
                        };
                        Ok(Some(Account { username }))
                    },
                    None => Err(FeedError::UpstreamMalformed),
                }
            }
        },
    }
}

/// One bookmark from one JSON value of the upstream array.
fn decode_bookmark(v: &serde_json::Value) -> (r: Result<Bookmark, FeedError>)
    ensures
        r is Ok <==> decode_item(json_value_model(*v)) is Some,
        r is Ok ==> r->Ok_0@ == decode_item(json_value_model(*v))->0,
        r is Err ==> r->Err_0 == FeedError::UpstreamMalformed,
{
    let m = match value_as_object(v) {
        Some(m) => m,
        None => {
            return Err(FeedError::UpstreamMalformed);
        },
    };
    let url = match get_required_str(m, "url") {
        Ok(s) => s,
        Err(e) => {
            return Err(e);
        },
    };
    let created_at = match get_required_str(m, "created_at") {
        Ok(s) => s,
        Err(e) => {
            return Err(e);
        },
    };
    let content = match get_required_str(m, "content") {
        Ok(s) => s,
        Err(e) => {
            return Err(e);
        },
    };
    let card = match get_card(m) {
        Ok(c) => c,
        Err(e) => {
            return Err(e);
        },
    };
    let account = match get_account(m) {
        Ok(a) => a,
        Err(e) => {
            return Err(e);
        },
    };
    Ok(Bookmark { url, created_at, content, card, account })
}

/// Decode the accumulated body as a JSON array of bookmark records, in
/// order. Fails with `UpstreamMalformed` exactly when the bytes are not
/// valid JSON, not an array, or any record violates the required-field
/// contract.
pub fn decode_bookmarks(body: &Vec<u8>) -> (r: Result<Vec<Bookmark>, FeedError>)
    ensures
        r is Ok <==> (json_doc(body@) is Some && decode_model(json_doc(body@)->0) is Some),
        r is Ok ==> views_of(r->Ok_0@) == decode_model(json_doc(body@)->0)->0,
        r is Err ==> r->Err_0 == FeedError::UpstreamMalformed,
{
    let doc = match parse_json(body.as_slice()) {
        Some(v) => v,
        None => {
            return Err(FeedError::UpstreamMalformed);
        },
    };
    let arr = match value_as_array(&doc) {
        Some(a) => a,
        None => {
            return Err(FeedError::UpstreamMalformed);
        },
    };
    let ghost elems = arr@.map_values(|x: serde_json::Value| json_value_model(x));
    let mut out: Vec<Bookmark> = Vec::new();
    let mut i: usize = 0;
    proof {
        assert(elems.take(0) =~= Seq::<JsonNode>::empty());
        assert(views_of(out@) =~= decode_items(elems.take(0))->0);
    }
    while i < arr.len()
        invariant
            elems == arr@.map_values(|x: serde_json::Value| json_value_model(x)),
            json_doc(body@) is Some,
            json_value_model(doc) == json_doc(body@)->0,
            json_value_model(doc) is Arr,
            json_value_model(doc)->Arr_0 == elems,
            i <= arr@.len(),
            elems.len() == arr@.len(),
            decode_items(elems.take(i as int)) is Some,
            views_of(out@) == decode_items(elems.take(i as int))->0,
        decreases arr@.len() - i,
    {
        let b = match decode_bookmark(&arr[i]) {
            Ok(b) => b,
            Err(e) => {
                proof {
                    assert(elems[i as int] == json_value_model(arr@[i as int]));
                    lemma_decode_items_fail(elems, i as int);
                    assert(json_value_model(doc) == json_doc(body@)->0);
                    assert(json_value_model(doc)->Arr_0 == elems);
                    assert(decode_model(json_doc(body@)->0) is None);
                }
                return Err(e);
            },
        };
        out.push(b);
        proof {
            assert(elems.take(i + 1) =~= elems.take(i as int).push(elems[i as int]));
            assert(elems.take(i + 1).drop_last() =~= elems.take(i as int));
            assert(elems.take(i + 1).last() == elems[i as int]);
            assert(views_of(out@) =~= decode_items(elems.take(i + 1))->0);
        }
        i = i + 1;
    }
    proof {
        assert(elems.take(arr@.len() as int) =~= elems);
    }
    Ok(out)
}

} // verus!
