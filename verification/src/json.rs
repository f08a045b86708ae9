//! JSON values as plain data.

use crate::seqs::reversed;
use crate::text::same_text;
use vstd::prelude::*;

verus! {

/// The mathematical value of a JSON document. Numbers are kept as numbers
/// without their value: nothing reads one.
pub enum JsonView {
    Null,
    Bool(bool),
    Number,
    Text(Seq<char>),
    Array(Seq<JsonView>),
    Object(Seq<(Seq<char>, JsonView)>),
}

/// A JSON value.
#[derive(Debug)]
pub enum Json {
    Null,
    Bool(bool),
    Number,
    Text(String),
    Array(Vec<Json>),
    Object(Vec<(String, Json)>),
}

impl Json {
    pub open spec fn view(self) -> JsonView
        decreases self,
    {
        match self {
            Json::Null => JsonView::Null,
            Json::Bool(b) => JsonView::Bool(b),
            Json::Number => JsonView::Number,
            Json::Text(s) => JsonView::Text(s@),
            Json::Array(items) => JsonView::Array(
                Seq::new(
                    items@.len(),
                    |i: int|
                        if 0 <= i < items@.len() {
                            items@[i].view()
                        } else {
                            JsonView::Null
                        },
                ),
            ),
            Json::Object(entries) => JsonView::Object(
                Seq::new(
                    entries@.len(),
                    |i: int|
                        if 0 <= i < entries@.len() {
                            (entries@[i].0@, entries@[i].1.view())
                        } else {
                            (Seq::empty(), JsonView::Null)
                        },
                ),
            ),
        }
    }
}

/// The value of an optional reference to a JSON value.
pub open spec fn opt_json(j: Option<&Json>) -> Option<JsonView> {
    match j {
        Some(j) => Some(j.view()),
        None => None,
    }
}

/// The value that the first entry with the given key holds.
pub open spec fn lookup(entries: Seq<(Seq<char>, JsonView)>, key: Seq<char>) -> Option<JsonView>
    decreases entries.len(),
{
    if entries.len() == 0 {
        None
    } else if entries[0].0 == key {
        Some(entries[0].1)
    } else {
        lookup(entries.drop_first(), key)
    }
}

impl JsonView {
    /// The member of an object; nothing for any other value.
    pub open spec fn member(self, key: Seq<char>) -> Option<JsonView> {
        match self {
            JsonView::Object(entries) => lookup(entries, key),
            _ => None,
        }
    }

    /// The text of a string; nothing for any other value.
    pub open spec fn text(self) -> Option<Seq<char>> {
        match self {
            JsonView::Text(s) => Some(s),
            _ => None,
        }
    }

    /// The truth value of a boolean; nothing for any other value.
    pub open spec fn boolean(self) -> Option<bool> {
        match self {
            JsonView::Bool(b) => Some(b),
            _ => None,
        }
    }

    /// The text of an object's member, where the member is a string.
    pub open spec fn member_text(self, key: Seq<char>) -> Option<Seq<char>> {
        match self.member(key) {
            Some(v) => v.text(),
            None => None,
        }
    }

    /// Whether an object's member is the boolean `true`.
    pub open spec fn member_is_true(self, key: Seq<char>) -> bool {
        self.member(key) == Some(JsonView::Bool(true))
    }
}

impl Json {
    /// The member of an object; nothing for any other value.
    pub fn get(&self, key: &str) -> (r: Option<&Json>)
        ensures
            opt_json(r) == self.view().member(key@),
    {
        match self {
            Json::Object(entries) => {
                let ghost all = self.view()->Object_0;
                let mut i: usize = 0;
                assert(all.skip(0) =~= all);
                while i < entries.len()
                    invariant
                        i <= entries.len(),
                        self.view() == JsonView::Object(all),
                        all.len() == entries@.len(),
                        forall|j: int|
                            0 <= j < all.len() ==> #[trigger] all[j] == (
                                entries@[j].0@,
                                entries@[j].1.view(),
                            ),
                        lookup(all, key@) == lookup(all.skip(i as int), key@),
                    decreases entries.len() - i,
                {
                    assert(all.skip(i as int)[0] == all[i as int]);
                    assert(all.skip(i as int).drop_first() =~= all.skip(i + 1));
                    if same_text(entries[i].0.as_str(), key) {
                        return Some(&entries[i].1);
                    }
                    i += 1;
                }
                None
            },
            _ => None,
        }
    }

    /// The text of a string; nothing for any other value.
    pub fn as_str(&self) -> (r: Option<&str>)
        ensures
            crate::text::opt_str(r) == self.view().text(),
    {
        match self {
            Json::Text(s) => Some(s.as_str()),
            _ => None,
        }
    }

    /// The truth value of a boolean; nothing for any other value.
    pub fn as_bool(&self) -> (r: Option<bool>)
        ensures
            r == self.view().boolean(),
    {
        match self {
            Json::Bool(b) => Some(*b),
            _ => None,
        }
    }

    /// The text of an object's member, where the member is a string.
    pub fn get_str(&self, key: &str) -> (r: Option<&str>)
        ensures
            crate::text::opt_str(r) == self.view().member_text(key@),
    {
        match self.get(key) {
            Some(v) => v.as_str(),
            None => None,
        }
    }

    /// Whether an object's member is the boolean `true`.
    pub fn get_true(&self, key: &str) -> (r: bool)
        ensures
            r == self.view().member_is_true(key@),
    {
        match self.get(key) {
            Some(v) => match v.as_bool() {
                Some(b) => b,
                None => false,
            },
            None => false,
        }
    }
}

// ---------------------------------------------------------------------------
// Parsing
// ---------------------------------------------------------------------------

/// `serde_json::Value`, the tree that `serde_json` parses into.
#[verifier::external_type_specification]
#[verifier::external_body]
pub struct ExJsonValue(serde_json::Value);

/// What a `serde_json::Value` holds.
pub uninterp spec fn json_contents(v: serde_json::Value) -> JsonView;

/// What `serde_json::from_str` makes of a text: the value that the text
/// denotes, or nothing where it is no JSON document.
pub uninterp spec fn json_document(text: Seq<char>) -> Option<JsonView>;

/// One level of a `serde_json::Value`.
enum Node {
    Null,
    Bool(bool),
    Number,
    Text(String),
    Array(Vec<serde_json::Value>),
    Object(Vec<(String, serde_json::Value)>),
}

impl Node {
    spec fn contents(self) -> JsonView {
        match self {
            Node::Null => JsonView::Null,
            Node::Bool(b) => JsonView::Bool(b),
            Node::Number => JsonView::Number,
            Node::Text(s) => JsonView::Text(s@),
            Node::Array(items) => JsonView::Array(
                Seq::new(items@.len(), |i: int| json_contents(items@[i])),
            ),
            Node::Object(entries) => JsonView::Object(
                Seq::new(
                    entries@.len(),
                    |i: int| (entries@[i].0@, json_contents(entries@[i].1)),
                ),
            ),
        }
    }
}

/// `serde_json::from_str` into a `serde_json::Value`; a text that it refuses
/// gives nothing.
#[verifier::external_body]
fn value_from_str(text: &str) -> (r: Option<serde_json::Value>)
    ensures
        (match r {
            Some(v) => Some(json_contents(v)),
            None => None::<JsonView>,
        }) == json_document(text@),
{
    serde_json::from_str::<serde_json::Value>(text).ok()
}

/// Takes a `serde_json::Value` apart by one level: the variant it is, with what
/// that variant holds; the entries of an object in the order of its map.
#[verifier::external_body]
fn into_node(v: serde_json::Value) -> (r: Node)
    ensures
        r.contents() == json_contents(v),
{
    match v {
        serde_json::Value::Null => Node::Null,
        serde_json::Value::Bool(b) => Node::Bool(b),
        serde_json::Value::Number(_) => Node::Number,
        serde_json::Value::String(s) => Node::Text(s),
        serde_json::Value::Array(items) => Node::Array(items),
        serde_json::Value::Object(map) => Node::Object(map.into_iter().collect()),
    }
}

/// A parsed value as plain data.
fn from_value(v: serde_json::Value) -> (r: Json)
    ensures
        r.view() == json_contents(v),
    decreases json_contents(v),
{
    let ghost contents = json_contents(v);
    match into_node(v) {
        Node::Null => Json::Null,
        Node::Bool(b) => Json::Bool(b),
        Node::Number => Json::Number,
        Node::Text(s) => Json::Text(s),
        Node::Array(items) => {
            let ghost all = items@;
            let mut rest = items;
            let mut out: Vec<Json> = Vec::new();
            while rest.len() > 0
                invariant
                    contents == json_contents(v),
                    contents == JsonView::Array(
                        Seq::new(all.len(), |i: int| json_contents(all[i])),
                    ),
                    rest@ == all.take(rest.len() as int),
                    out.len() == all.len() - rest.len(),
                    rest.len() <= all.len(),
                    forall|i: int|
                        0 <= i < out.len() ==> (#[trigger] out@[i]).view() == json_contents(
                            all[all.len() - 1 - i],
                        ),
                decreases rest.len(),
            {
                let ghost at = rest.len() - 1;
                match rest.pop() {
                    Some(item) => {
                        proof {
                            let seq = contents->Array_0;
                            assert(seq[at] == json_contents(all[at]));
                            assert(item == all[at]);
                            assert(decreases_to!(contents => seq));
                            assert(decreases_to!(seq => seq[at]));
                        }
                        out.push(from_value(item));
                    },
                    None => {},
                }
                assert(rest@ =~= all.take(rest.len() as int));
            }
            let ordered = reversed(out);
            let r = Json::Array(ordered);
            assert(r.view()->Array_0 =~= contents->Array_0);
            r
        },
        Node::Object(entries) => {
            let ghost all = entries@;
            let mut rest = entries;
            let mut out: Vec<(String, Json)> = Vec::new();
            while rest.len() > 0
                invariant
                    contents == json_contents(v),
                    contents == JsonView::Object(
                        Seq::new(all.len(), |i: int| (all[i].0@, json_contents(all[i].1))),
                    ),
                    rest@ == all.take(rest.len() as int),
                    out.len() == all.len() - rest.len(),
                    rest.len() <= all.len(),
                    forall|i: int|
                        0 <= i < out.len() ==> (#[trigger] out@[i]).0@ == all[all.len() - 1 - i].0@
                            && out@[i].1.view() == json_contents(all[all.len() - 1 - i].1),
                decreases rest.len(),
            {
                let ghost at = rest.len() - 1;
                match rest.pop() {
                    Some((key, item)) => {
                        proof {
                            let seq = contents->Object_0;
                            assert(seq[at] == (all[at].0@, json_contents(all[at].1)));
                            assert((key, item) == all[at]);
                            assert(decreases_to!(contents => seq));
                            assert(decreases_to!(seq => seq[at]));
                            assert(decreases_to!(seq[at] => seq[at].1));
                        }
                        out.push((key, from_value(item)));
                    },
                    None => {},
                }
                assert(rest@ =~= all.take(rest.len() as int));
            }
            let ordered = reversed(out);
            let r = Json::Object(ordered);
            assert(r.view()->Object_0 =~= contents->Object_0);
            r
        },
    }
}

/// The value that a JSON text denotes, or nothing where the text is no JSON
/// document.
pub fn parse_json(text: &str) -> (r: Option<Json>)
    ensures
        (match r {
            Some(j) => Some(j.view()),
            None => None,
        }) == json_document(text@),
{
    match value_from_str(text) {
        Some(v) => Some(from_value(v)),
        None => None,
    }
}

} // verus!
