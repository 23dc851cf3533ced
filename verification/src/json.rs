//! JSON values as the dataset is read from them, and the readers of single
//! members.

use crate::record::opt_text;
use crate::text::text_eq;
use vstd::prelude::*;

verus! {

/// A JSON value, as far as the dataset is read from it.
#[derive(Debug)]
pub enum Json {
    Null,
    Bool(bool),
    /// A number, by its decimal text.
    Number(String),
    Text(String),
    List(Vec<Json>),
    Object(Vec<Member>),
}

/// One member of a JSON object.
#[derive(Debug)]
pub struct Member {
    pub key: String,
    pub value: Json,
}

/// Why a dataset could not be loaded.
#[derive(Clone, Copy, Debug, PartialEq, Eq, Structural)]
pub enum LoadError {
    /// The input file does not exist.
    NotFound,
    /// The input is no JSON document, or lacks the shape of a dataset.
    Parse,
}

#[verifier::external_type_specification]
#[verifier::external_body]
pub struct ExValue(serde_json::Value);

#[verifier::external_type_specification]
#[verifier::external_body]
pub struct ExError(serde_json::Error);

/// The value that a text denotes as a JSON document, none where the text is
/// no JSON document: what `serde_json::from_str` makes of it.
pub uninterp spec fn json_document(content: Seq<char>) -> Option<Json>;

/// Copies a `serde_json::Value` into a [`Json`], variant by variant; the
/// members of an object come in the order in which its map yields them.
#[verifier::external_body]
fn json_of(v: &serde_json::Value) -> Json {
    match v {
        serde_json::Value::Null => Json::Null,
        serde_json::Value::Bool(b) => Json::Bool(*b),
        serde_json::Value::Number(n) => Json::Number(n.to_string()),
        serde_json::Value::String(s) => Json::Text(s.clone()),
        serde_json::Value::Array(a) => Json::List(a.iter().map(json_of).collect()),
        serde_json::Value::Object(m) => Json::Object(
            m.iter().map(|(k, x)| Member { key: k.clone(), value: json_of(x) }).collect(),
        ),
    }
}

/// Parses a JSON document.
///
/// Wraps `serde_json::from_str` at the type `serde_json::Value`, which
/// returns the value that the text denotes or an error where the text is no
/// JSON document. The result depends on the text alone and is only given its
/// name here.
#[verifier::external_body]
pub(crate) fn parse_json(content: &str) -> (r: Result<Json, serde_json::Error>)
    ensures
        match r {
            Ok(doc) => json_document(content@) == Some(doc),
            Err(_) => json_document(content@) is None,
        },
{
    match serde_json::from_str::<serde_json::Value>(content) {
        Ok(v) => Ok(json_of(&v)),
        Err(e) => Err(e),
    }
}

/// The value of the first member with the given key.
pub open spec fn member(ms: Seq<Member>, key: Seq<char>) -> Option<Json>
    decreases ms.len(),
{
    if ms.len() == 0 {
        None
    } else if ms[0].key@ == key {
        Some(ms[0].value)
    } else {
        member(ms.drop_first(), key)
    }
}

/// Whether a member is absent or null.
pub open spec fn is_missing(f: Option<Json>) -> bool {
    f is None || f == Some(Json::Null)
}

/// The text that a member holds, none where it holds no text.
pub open spec fn text_in(f: Option<Json>) -> Option<Seq<char>> {
    match f {
        Some(Json::Text(s)) => Some(s@),
        _ => None,
    }
}

/// Whether a member can stand for an optional text.
pub open spec fn admits_text(f: Option<Json>) -> bool {
    is_missing(f) || text_in(f) is Some
}

/// Whether every item is a text.
pub open spec fn all_text(items: Seq<Json>) -> bool {
    forall|i: int| 0 <= i < items.len() ==> (#[trigger] items[i]) is Text
}

/// The texts of a list of texts.
pub open spec fn texts_of(items: Seq<Json>) -> Seq<Seq<char>> {
    Seq::new(items.len(), |i: int| items[i]->Text_0@)
}

/// The texts that a member lists, none where it is no list of texts.
pub open spec fn texts_in(f: Option<Json>) -> Option<Seq<Seq<char>>> {
    match f {
        Some(Json::List(items)) => if all_text(items@) {
            Some(texts_of(items@))
        } else {
            None
        },
        _ => None,
    }
}

/// Whether a member can stand for an optional list of texts.
pub open spec fn admits_texts(f: Option<Json>) -> bool {
    is_missing(f) || texts_in(f) is Some
}

/// The characters of each string.
pub open spec fn string_views(v: Seq<String>) -> Seq<Seq<char>> {
    Seq::new(v.len(), |i: int| v[i]@)
}

/// The characters of an optional list of strings.
pub open spec fn opt_texts(v: Option<Vec<String>>) -> Option<Seq<Seq<char>>> {
    match v {
        Some(list) => Some(string_views(list@)),
        None => None,
    }
}

/// Looks a member up by its key.
pub fn find_member<'a>(ms: &'a Vec<Member>, key: &str) -> (r: Option<&'a Json>)
    ensures
        match r {
            Some(j) => member(ms@, key@) == Some(*j),
            None => member(ms@, key@) is None,
        },
{
    let mut i: usize = 0;
    assert(ms@.skip(0) =~= ms@);
    while i < ms.len()
        invariant
            i <= ms.len(),
            member(ms@, key@) == member(ms@.skip(i as int), key@),
        decreases ms.len() - i,
    {
        proof {
            assert(ms@.skip(i as int).drop_first() =~= ms@.skip(i + 1));
            assert(ms@.skip(i as int)[0] == ms@[i as int]);
        }
        if text_eq(ms[i].key.as_str(), key) {
            return Some(&ms[i].value);
        }
        i += 1;
    }
    None
}

/// Reads a mandatory text: the member must be there and hold a text.
pub fn required_text(ms: &Vec<Member>, key: &str) -> (r: Result<String, LoadError>)
    ensures
        match r {
            Ok(t) => text_in(member(ms@, key@)) == Some(t@),
            Err(e) => e == LoadError::Parse && text_in(member(ms@, key@)) is None,
        },
{
    match find_member(ms, key) {
        Some(Json::Text(s)) => Ok(s.clone()),
        _ => Err(LoadError::Parse),
    }
}

/// Reads an optional text: absent where the member is absent or null, an
/// error where it holds anything but a text.
pub fn optional_text(ms: &Vec<Member>, key: &str) -> (r: Result<Option<String>, LoadError>)
    ensures
        match r {
            Ok(t) => admits_text(member(ms@, key@)) && opt_text(t) == text_in(member(ms@, key@)),
            Err(e) => e == LoadError::Parse && !admits_text(member(ms@, key@)),
        },
{
    match find_member(ms, key) {
        None => Ok(None),
        Some(Json::Null) => Ok(None),
        Some(Json::Text(s)) => Ok(Some(s.clone())),
        Some(_) => Err(LoadError::Parse),
    }
}

/// Reads an optional list of texts: absent where the member is absent or
/// null, an error where it is anything but a list of texts.
pub fn optional_texts(ms: &Vec<Member>, key: &str) -> (r: Result<Option<Vec<String>>, LoadError>)
    ensures
        match r {
            Ok(t) => admits_texts(member(ms@, key@)) && opt_texts(t) == texts_in(member(ms@, key@)),
            Err(e) => e == LoadError::Parse && !admits_texts(member(ms@, key@)),
        },
{
    match find_member(ms, key) {
        None => Ok(None),
        Some(Json::Null) => Ok(None),
        Some(Json::List(items)) => {
            let mut out: Vec<String> = Vec::new();
            let mut i: usize = 0;
            while i < items.len()
                invariant
                    i <= items.len(),
                    out.len() == i,
                    member(ms@, key@) == Some(Json::List(*items)),
                    forall|c: int| 0 <= c < i ==> (#[trigger] items@[c]) is Text,
                    forall|c: int| 0 <= c < i ==> (#[trigger] out@[c])@ == items@[c]->Text_0@,
                decreases items.len() - i,
            {
                match &items[i] {
                    Json::Text(s) => {
                        out.push(s.clone());
                    },
                    _ => {
                        assert(!(items@[i as int] is Text));
                        return Err(LoadError::Parse);
                    },
                }
                i += 1;
            }
            assert(string_views(out@) =~= texts_of(items@));
            Ok(Some(out))
        },
        Some(_) => Err(LoadError::Parse),
    }
}

} // verus!
