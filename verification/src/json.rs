//! JSON documents as values of the library. The `serde_json` crate parses
//! the text; the rules read the value that comes out.

use vstd::prelude::*;
use crate::text::{chars_of, lemma_filter_none, lemma_filter_step, same_chars, views};

verus! {

/// A JSON value. The members of an object stand in the order in which
/// the parser hands them out.
#[derive(Debug)]
pub enum Json {
    Null,
    Bool(bool),
    /// A number, as the parser prints it.
    Number(String),
    Text(String),
    Array(Vec<Json>),
    Object(Vec<(String, Json)>),
}

/// A value of the `serde_json` crate.
#[verifier::external_type_specification]
#[verifier::external_body]
pub struct ExValue(serde_json::Value);

/// The error of the `serde_json` crate.
#[verifier::external_type_specification]
#[verifier::external_body]
pub struct ExJsonError(serde_json::Error);

/// The value that a JSON text stands for; none where the text is no JSON.
pub uninterp spec fn parsed(text: Seq<char>) -> Option<Json>;

/// What a value of `serde_json` holds, as a value of the library.
pub uninterp spec fn held(value: serde_json::Value) -> Json;

/// Copies a `serde_json::Value` into a value of the library, variant by
/// variant; a number is kept in its printed form.
#[verifier::external_body]
fn convert(value: &serde_json::Value) -> (out: Json)
    ensures
        out == held(*value),
{
    match value {
        serde_json::Value::Null => Json::Null,
        serde_json::Value::Bool(b) => Json::Bool(*b),
        serde_json::Value::Number(n) => Json::Number(n.to_string()),
        serde_json::Value::String(s) => Json::Text(s.clone()),
        serde_json::Value::Array(a) => Json::Array(a.iter().map(convert).collect()),
        serde_json::Value::Object(o) => Json::Object(
            o.iter().map(|(k, v)| (k.clone(), convert(v))).collect(),
        ),
    }
}

/// Parses a text with `serde_json::from_str`. Whether it parses, and to
/// what value, depends on the text alone.
#[verifier::external_body]
fn parse(text: &str) -> (r: Result<serde_json::Value, serde_json::Error>)
    ensures
        match r {
            Ok(value) => parsed(text@) == Some(held(value)),
            Err(_) => parsed(text@) is None,
        },
{
    serde_json::from_str::<serde_json::Value>(text)
}

/// Puts a parse error into words with its `Display` form.
#[verifier::external_body]
fn describe(error: serde_json::Error) -> (out: String) {
    error.to_string()
}

/// The value of the first member named `key`.
pub open spec fn member(members: Seq<(String, Json)>, key: Seq<char>) -> Option<Json>
    decreases members.len(),
{
    if members.len() == 0 {
        None
    } else if members[0].0@ == key {
        Some(members[0].1)
    } else {
        member(members.drop_first(), key)
    }
}

/// The text of the member `key`, where the object has one that is a text.
pub open spec fn text_at(obj: Json, key: Seq<char>) -> Option<Seq<char>> {
    match obj.field(key) {
        Some(v) => v.text(),
        None => None,
    }
}

/// The test for a value that is a text.
pub open spec fn text_test() -> spec_fn(Json) -> bool {
    |value: Json| value is Text
}

/// The characters of a value that is a text.
pub open spec fn text_pick() -> spec_fn(Json) -> Seq<char> {
    |value: Json| value.text().unwrap()
}

/// The texts among `items`, in order.
pub open spec fn texts_in(items: Seq<Json>) -> Seq<Seq<char>> {
    items.filter(text_test()).map_values(text_pick())
}

/// All of `items` are texts.
pub open spec fn all_text(items: Seq<Json>) -> bool {
    forall|i: int| 0 <= i < items.len() ==> (#[trigger] items[i]) is Text
}

/// All members have a text as their value.
pub open spec fn all_text_valued(members: Seq<(String, Json)>) -> bool {
    forall|i: int| 0 <= i < members.len() ==> (#[trigger] members[i]).1 is Text
}

/// The members as pairs of name and text.
pub open spec fn text_pairs(members: Seq<(String, Json)>) -> Seq<(Seq<char>, Seq<char>)>
    recommends
        all_text_valued(members),
{
    Seq::new(members.len(), |i: int| (members[i].0@, members[i].1.text().unwrap()))
}

/// The views of a sequence of pairs of strings.
pub open spec fn pair_views(pairs: Seq<(String, String)>) -> Seq<(Seq<char>, Seq<char>)> {
    Seq::new(pairs.len(), |i: int| (pairs[i].0@, pairs[i].1@))
}

impl Json {
    /// The characters of a text; none for any other value.
    pub open spec fn text(self) -> Option<Seq<char>> {
        match self {
            Json::Text(s) => Some(s@),
            _ => None,
        }
    }

    /// The members of an object; none for any other value.
    pub open spec fn members(self) -> Option<Seq<(String, Json)>> {
        match self {
            Json::Object(m) => Some(m@),
            _ => None,
        }
    }

    /// The items of an array; none for any other value.
    pub open spec fn items(self) -> Option<Seq<Json>> {
        match self {
            Json::Array(a) => Some(a@),
            _ => None,
        }
    }

    /// The value of the member `key` of an object; none where the value is
    /// no object or has no such member.
    pub open spec fn field(self, key: Seq<char>) -> Option<Json> {
        match self {
            Json::Object(m) => member(m@, key),
            _ => None,
        }
    }

    /// Reads a JSON text. The error says in words why the text is none.
    pub fn from_text(text: &str) -> (r: Result<Json, String>)
        ensures
            match r {
                Ok(value) => parsed(text@) == Some(value),
                Err(_) => parsed(text@) is None,
            },
    {
        match parse(text) {
            Ok(value) => Ok(convert(&value)),
            Err(e) => Err(describe(e)),
        }
    }

    /// The value of the member `key` of an object.
    pub fn get(&self, key: &str) -> (out: Option<&Json>)
        ensures
            match out {
                Some(value) => self.field(key@) == Some(*value),
                None => self.field(key@) is None,
            },
    {
        match self {
            Json::Object(members) => find(members, key),
            _ => None,
        }
    }

    /// The text that the value is.
    pub fn as_text(&self) -> (out: Option<&String>)
        ensures
            match out {
                Some(s) => self.text() == Some(s@),
                None => self.text() is None,
            },
    {
        match self {
            Json::Text(s) => Some(s),
            _ => None,
        }
    }

    /// The text of the member `key`, where the value has it.
    pub fn get_text(&self, key: &str) -> (out: Option<&String>)
        ensures
            match out {
                Some(s) => self.field(key@) is Some && self.field(key@).unwrap().text() == Some(
                    s@,
                ),
                None => self.field(key@) is None || self.field(key@).unwrap().text() is None,
            },
    {
        match self.get(key) {
            None => None,
            Some(value) => value.as_text(),
        }
    }
}

/// The value of the first of `members` named `key`.
pub fn find<'a>(members: &'a Vec<(String, Json)>, key: &str) -> (out: Option<&'a Json>)
    ensures
        match out {
            Some(value) => member(members@, key@) == Some(*value),
            None => member(members@, key@) is None,
        },
{
    let wanted = chars_of(key);
    let mut i: usize = 0;
    assert(members@.skip(0) =~= members@);
    while i < members.len()
        invariant
            i <= members.len(),
            wanted@ == key@,
            member(members@, key@) == member(members@.skip(i as int), key@),
        decreases members.len() - i,
    {
        assert(members@.skip(i as int)[0] == members@[i as int]);
        assert(members@.skip(i as int).drop_first() =~= members@.skip(i + 1));
        let name = chars_of(members[i].0.as_str());
        if same_chars(name.as_slice(), wanted.as_slice()) {
            return Some(&members[i].1);
        }
        i += 1;
    }
    None
}

/// The texts among `items`, in order; other items are passed over.
pub fn texts_of(items: &Vec<Json>) -> (out: Vec<String>)
    ensures
        views(out@) == texts_in(items@),
{
    let mut out: Vec<String> = Vec::new();
    let mut i: usize = 0;
    proof {
        lemma_filter_none(items@, text_test());
    }
    assert(views(out@) =~= Seq::<Json>::empty().map_values(text_pick()));
    while i < items.len()
        invariant
            i <= items.len(),
            views(out@) == items@.take(i as int).filter(text_test()).map_values(text_pick()),
        decreases items.len() - i,
    {
        proof {
            lemma_filter_step(items@, i as int, text_test());
        }
        let ghost kept = items@.take(i as int).filter(text_test());
        match &items[i] {
            Json::Text(s) => {
                let ghost before = views(out@);
                out.push(s.clone());
                assert(views(out@) =~= before.push(s@));
                assert(kept.push(items@[i as int]).map_values(text_pick()) =~= kept.map_values(
                    text_pick(),
                ).push(s@));
            },
            _ => {},
        }
        i += 1;
    }
    assert(items@.take(items.len() as int) =~= items@);
    out
}

/// The items as texts, where all of them are texts.
pub fn strict_texts(items: &Vec<Json>) -> (out: Option<Vec<String>>)
    ensures
        match out {
            Some(texts) => all_text(items@) && views(texts@) == texts_in(items@)
                && texts.len() == items.len(),
            None => !all_text(items@),
        },
{
    let mut i: usize = 0;
    while i < items.len()
        invariant
            i <= items.len(),
            forall|j: int| 0 <= j < i ==> (#[trigger] items@[j]) is Text,
        decreases items.len() - i,
    {
        match &items[i] {
            Json::Text(_) => {},
            _ => {
                return None;
            },
        }
        i += 1;
    }
    let texts = texts_of(items);
    proof {
        lemma_all_pass(items@);
    }
    Some(texts)
}

/// Where all items are texts, none is passed over.
proof fn lemma_all_pass(items: Seq<Json>)
    requires
        all_text(items),
    ensures
        items.filter(text_test()) == items,
        texts_in(items).len() == items.len(),
    decreases items.len(),
{
    reveal(Seq::filter);
    if items.len() > 0 {
        lemma_all_pass(items.drop_last());
        assert(items.drop_last().push(items.last()) =~= items);
    }
}

/// The members as pairs of name and text, where every value is a text.
pub fn strict_pairs(members: &Vec<(String, Json)>) -> (out: Option<Vec<(String, String)>>)
    ensures
        match out {
            Some(pairs) => all_text_valued(members@) && pair_views(pairs@) == text_pairs(
                members@,
            ),
            None => !all_text_valued(members@),
        },
{
    let mut out: Vec<(String, String)> = Vec::new();
    let mut i: usize = 0;
    while i < members.len()
        invariant
            i <= members.len(),
            out.len() == i,
            forall|j: int| 0 <= j < i ==> (#[trigger] members@[j]).1 is Text,
            forall|j: int|
                0 <= j < i ==> (#[trigger] out@[j]).0@ == members@[j].0@ && out@[j].1@
                    == members@[j].1.text().unwrap(),
        decreases members.len() - i,
    {
        match &members[i].1 {
            Json::Text(s) => {
                out.push((members[i].0.clone(), s.clone()));
            },
            _ => {
                return None;
            },
        }
        i += 1;
    }
    assert(pair_views(out@) =~= text_pairs(members@));
    Some(out)
}

} // verus!
