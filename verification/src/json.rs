//! JSON documents as plain values.
//!
//! Parsing is serde_json's.  What it returns is turned into [`Json`], whose
//! model [`JsonView`] the contracts of the harness speak of.

use vstd::prelude::*;
use vstd::string::*;

use crate::ordered::ascending;
use crate::text::{decimal, same_text};

verus! {

/// A JSON document.
pub enum Json {
    Null,
    Bool(bool),
    Number(JsonNumber),
    Text(String),
    Array(Vec<Json>),
    Object(Vec<JsonEntry>),
}

/// A JSON number: its value where that is a `u64`, and its text.
pub struct JsonNumber {
    pub unsigned: Option<u64>,
    pub text: String,
}

/// One member of a JSON object.
pub struct JsonEntry {
    pub key: String,
    pub value: Json,
}

/// The model of a JSON document.
pub enum JsonView {
    Null,
    Bool(bool),
    Number(Option<u64>, Seq<char>),
    Text(Seq<char>),
    Array(Seq<JsonView>),
    Object(Seq<(Seq<char>, JsonView)>),
}

/// What a document holds.
pub open spec fn json_view(json: Json) -> JsonView
    decreases json,
{
    match json {
        Json::Null => JsonView::Null,
        Json::Bool(flag) => JsonView::Bool(flag),
        Json::Number(number) => JsonView::Number(number.unsigned, number.text@),
        Json::Text(text) => JsonView::Text(text@),
        Json::Array(items) => JsonView::Array(
            Seq::new(
                items@.len(),
                |i: int|
                    if 0 <= i < items@.len() {
                        json_view(items@[i])
                    } else {
                        JsonView::Null
                    },
            ),
        ),
        Json::Object(entries) => JsonView::Object(
            Seq::new(
                entries@.len(),
                |i: int|
                    if 0 <= i < entries@.len() {
                        (entries@[i].key@, json_view(entries@[i].value))
                    } else {
                        (Seq::<char>::empty(), JsonView::Null)
                    },
            ),
        ),
    }
}

impl View for Json {
    type V = JsonView;

    open spec fn view(&self) -> JsonView {
        json_view(*self)
    }
}

/// The value of the member `key` among `entries`.
pub open spec fn member(entries: Seq<(Seq<char>, JsonView)>, key: Seq<char>) -> Option<JsonView>
    decreases entries.len(),
{
    if entries.len() == 0 {
        None
    } else if entries[0].0 == key {
        Some(entries[0].1)
    } else {
        member(entries.drop_first(), key)
    }
}

impl JsonView {
    /// The member `key`, where this is an object that has one.
    pub open spec fn get(self, key: Seq<char>) -> Option<JsonView> {
        match self {
            JsonView::Object(entries) => member(entries, key),
            _ => None,
        }
    }

    /// The text, where this is a string.
    pub open spec fn as_text(self) -> Option<Seq<char>> {
        match self {
            JsonView::Text(text) => Some(text),
            _ => None,
        }
    }

    /// The number, where this is one that fits in a `u64`.
    pub open spec fn as_u64(self) -> Option<u64> {
        match self {
            JsonView::Number(unsigned, _) => unsigned,
            _ => None,
        }
    }

    /// The text of the member `key`, where this is an object that has one.
    pub open spec fn text_of(self, key: Seq<char>) -> Option<Seq<char>> {
        match self.get(key) {
            Some(value) => value.as_text(),
            None => None,
        }
    }
}

impl Json {
    /// The member `key`, where this is an object that has one.
    pub fn get(&self, key: &str) -> (value: Option<&Json>)
        ensures
            match value {
                Some(value) => self@.get(key@) == Some(value@),
                None => self@.get(key@) is None,
            },
    {
        match self {
            Json::Object(entries) => {
                let ghost all = self@->Object_0;
                let mut i: usize = 0;
                assert(all.skip(0) =~= all);
                while i < entries.len()
                    invariant
                        i <= entries.len(),
                        *self == Json::Object(*entries),
                        self@ == JsonView::Object(all),
                        all.len() == entries.len(),
                        member(all, key@) == member(all.skip(i as int), key@),
                    decreases entries.len() - i,
                {
                    assert(all[i as int] == (entries@[i as int].key@, entries@[i as int].value@));
                    if same_text(entries[i].key.as_str(), key) {
                        return Some(&entries[i].value);
                    }
                    assert(all.skip(i as int).drop_first() =~= all.skip(i + 1));
                    i += 1;
                }
                None
            },
            _ => None,
        }
    }

    /// The text, where this is a string.
    pub fn as_text(&self) -> (text: Option<&str>)
        ensures
            match text {
                Some(text) => self@.as_text() == Some(text@),
                None => self@.as_text() is None,
            },
    {
        match self {
            Json::Text(text) => Some(text.as_str()),
            _ => None,
        }
    }

    /// The number, where this is one that fits in a `u64`.
    pub fn as_u64(&self) -> (number: Option<u64>)
        ensures
            number == self@.as_u64(),
    {
        match self {
            Json::Number(number) => number.unsigned,
            _ => None,
        }
    }

    /// Whether this is `null`.
    pub fn is_null(&self) -> (null: bool)
        ensures
            null == (self@ is Null),
    {
        match self {
            Json::Null => true,
            _ => false,
        }
    }

    /// The text of the member `key`, where this is an object that has one.
    pub fn text_of(&self, key: &str) -> (text: Option<&str>)
        ensures
            match text {
                Some(text) => self@.text_of(key@) == Some(text@),
                None => self@.text_of(key@) is None,
            },
    {
        match self.get(key) {
            Some(value) => value.as_text(),
            None => None,
        }
    }
}

/// serde_json's tree of a parsed document.
#[verifier::external_type_specification]
#[verifier::external_body]
pub struct ExJsonValue(serde_json::Value);

/// What a `serde_json::Value` holds.
pub uninterp spec fn json_tree(value: serde_json::Value) -> JsonView;

/// The one document that `serde_json::from_slice` reads from `bytes`, if they
/// are one.
pub uninterp spec fn json_document(bytes: Seq<u8>) -> Option<JsonView>;

/// The documents that serde_json's stream deserializer reads from `bytes`, in
/// order, with `None` where it meets an error.
pub uninterp spec fn json_documents(bytes: Seq<u8>) -> Seq<Option<JsonView>>;

/// One node of a `serde_json::Value`, its children still serde_json's.
pub enum JsonNode {
    Null,
    Bool(bool),
    Number(JsonNumber),
    Text(String),
    Array(Vec<serde_json::Value>),
    Object(Vec<(String, serde_json::Value)>),
}

/// What a node and its children hold is what `tree` says.
pub open spec fn node_matches(node: JsonNode, tree: JsonView) -> bool {
    match node {
        JsonNode::Null => tree == JsonView::Null,
        JsonNode::Bool(flag) => tree == JsonView::Bool(flag),
        JsonNode::Number(number) => {
            &&& tree == JsonView::Number(number.unsigned, number.text@)
            &&& number.unsigned matches Some(n) ==> number.text@ == decimal(n as nat)
        },
        JsonNode::Text(text) => tree == JsonView::Text(text@),
        JsonNode::Array(items) => {
            &&& tree is Array
            &&& tree->Array_0.len() == items@.len()
            &&& forall|i: int|
                0 <= i < items@.len() ==> json_tree(#[trigger] items@[i]) == tree->Array_0[i]
        },
        JsonNode::Object(entries) => {
            &&& tree is Object
            &&& tree->Object_0.len() == entries@.len()
            &&& forall|i: int|
                0 <= i < entries@.len() ==> ((#[trigger] entries@[i]).0@, json_tree(entries@[i].1))
                    == tree->Object_0[i]
            &&& ascending::<String>(member_keys(tree->Object_0))
        },
    }
}

/// The keys of a list of members.
pub open spec fn member_keys(entries: Seq<(Seq<char>, JsonView)>) -> Seq<Seq<char>> {
    entries.map_values(|entry: (Seq<char>, JsonView)| entry.0)
}

/// Takes the top node off a `serde_json::Value`.
///
/// Trusted: the node is the value's, a number comes with what
/// `Number::as_u64` and its `Display` give (the numeral, where it is a `u64`),
/// and an object's members come in the order of serde_json's map, which is
/// ascending by key.
#[verifier::external_body]
fn take_node(value: serde_json::Value) -> (node: JsonNode)
    ensures
        node_matches(node, json_tree(value)),
{
    match value {
        serde_json::Value::Null => JsonNode::Null,
        serde_json::Value::Bool(flag) => JsonNode::Bool(flag),
        serde_json::Value::Number(number) => JsonNode::Number(
            JsonNumber { unsigned: number.as_u64(), text: number.to_string() },
        ),
        serde_json::Value::String(text) => JsonNode::Text(text),
        serde_json::Value::Array(items) => JsonNode::Array(items),
        serde_json::Value::Object(members) => JsonNode::Object(members.into_iter().collect()),
    }
}

/// Turns a `serde_json::Value` into a [`Json`], node by node.
fn copy_value(value: serde_json::Value) -> (json: Json)
    ensures
        json@ == json_tree(value),
    decreases json_tree(value),
{
    let ghost tree = json_tree(value);
    match take_node(value) {
        JsonNode::Null => Json::Null,
        JsonNode::Bool(flag) => Json::Bool(flag),
        JsonNode::Number(number) => Json::Number(number),
        JsonNode::Text(text) => Json::Text(text),
        JsonNode::Array(items) => {
            let mut rest = items;
            let ghost all = rest@;
            let mut copied: Vec<Json> = Vec::new();
            while rest.len() > 0
                invariant
                    tree is Array,
                    tree->Array_0.len() == all.len(),
                    forall|i: int|
                        0 <= i < all.len() ==> json_tree(#[trigger] all[i]) == tree->Array_0[i],
                    rest@.len() + copied@.len() == all.len(),
                    rest@ == all.skip(copied@.len() as int),
                    forall|i: int| 0 <= i < copied@.len() ==> (#[trigger] copied@[i])@ == tree->Array_0[i],
                    tree == json_tree(value),
                decreases rest.len(),
            {
                let item = rest.remove(0);
                proof {
                    let i = copied@.len() as int;
                    assert(item == all[i]);
                    assert(json_tree(item) == tree->Array_0[i]);
                    assert(decreases_to!(tree => tree->Array_0));
                    assert(decreases_to!(tree->Array_0 => tree->Array_0[i]));
                    assert(rest@ =~= all.skip(i + 1));
                }
                copied.push(copy_value(item));
            }
            let json = Json::Array(copied);
            assert(json@->Array_0 =~= tree->Array_0);
            json
        },
        JsonNode::Object(entries) => {
            let mut rest = entries;
            let ghost all = rest@;
            let mut copied: Vec<JsonEntry> = Vec::new();
            while rest.len() > 0
                invariant
                    tree is Object,
                    tree->Object_0.len() == all.len(),
                    forall|i: int|
                        0 <= i < all.len() ==> ((#[trigger] all[i]).0@, json_tree(all[i].1))
                            == tree->Object_0[i],
                    rest@.len() + copied@.len() == all.len(),
                    rest@ == all.skip(copied@.len() as int),
                    forall|i: int|
                        0 <= i < copied@.len() ==> ((#[trigger] copied@[i]).key@, copied@[i].value@)
                            == tree->Object_0[i],
                    tree == json_tree(value),
                decreases rest.len(),
            {
                let (key, item) = rest.remove(0);
                proof {
                    let i = copied@.len() as int;
                    assert((key, item) == all[i]);
                    assert((all[i].0@, json_tree(all[i].1)) == tree->Object_0[i]);
                    assert(decreases_to!(tree => tree->Object_0));
                    assert(decreases_to!(tree->Object_0 => tree->Object_0[i]));
                    assert(decreases_to!(tree->Object_0[i] => tree->Object_0[i].1));
                    assert(rest@ =~= all.skip(i + 1));
                }
                copied.push(JsonEntry { key, value: copy_value(item) });
            }
            let json = Json::Object(copied);
            assert(json@->Object_0 =~= tree->Object_0);
            json
        },
    }
}

/// Calls `serde_json::from_slice`.
///
/// Trusted: whether `bytes` are one JSON document, and which, depends on the
/// bytes alone.
#[verifier::external_body]
fn parse_value(bytes: &[u8]) -> (value: Option<serde_json::Value>)
    ensures
        match value {
            Some(value) => json_document(bytes@) == Some(json_tree(value)),
            None => json_document(bytes@) is None,
        },
{
    serde_json::from_slice(bytes).ok()
}

/// Calls `serde_json::Deserializer::from_slice` and walks its `into_iter`.
///
/// Trusted: the documents, and where an error stands among them, depend on
/// the bytes alone.
#[verifier::external_body]
fn parse_values(bytes: &[u8]) -> (values: Vec<Option<serde_json::Value>>)
    ensures
        values@.len() == json_documents(bytes@).len(),
        forall|i: int|
            0 <= i < values@.len() ==> match #[trigger] values@[i] {
                Some(value) => json_documents(bytes@)[i] == Some(json_tree(value)),
                None => json_documents(bytes@)[i] is None,
            },
{
    let stream = serde_json::Deserializer::from_slice(bytes).into_iter::<serde_json::Value>();
    stream.map(|value| value.ok()).collect()
}

/// Parses `bytes` as one JSON document.
pub fn parse_document(bytes: &[u8]) -> (document: Option<Json>)
    ensures
        match document {
            Some(document) => json_document(bytes@) == Some(document@),
            None => json_document(bytes@) is None,
        },
{
    match parse_value(bytes) {
        Some(value) => Some(copy_value(value)),
        None => None,
    }
}

/// The model of a list of parsed documents.
pub open spec fn document_views(documents: Seq<Option<Json>>) -> Seq<Option<JsonView>> {
    documents.map_values(
        |document: Option<Json>|
            match document {
                Some(json) => Some(json@),
                None => None,
            },
    )
}

/// Parses `bytes` as a stream of JSON documents.
pub fn parse_documents(bytes: &[u8]) -> (documents: Vec<Option<Json>>)
    ensures
        document_views(documents@) == json_documents(bytes@),
{
    let mut rest = parse_values(bytes);
    let ghost all = rest@;
    let ghost target = json_documents(bytes@);
    let mut documents: Vec<Option<Json>> = Vec::new();
    while rest.len() > 0
        invariant
            target == json_documents(bytes@),
            all.len() == target.len(),
            forall|k: int|
                0 <= k < all.len() ==> match #[trigger] all[k] {
                    Some(value) => target[k] == Some(json_tree(value)),
                    None => target[k] is None,
                },
            rest@.len() + documents@.len() == all.len(),
            rest@ == all.skip(documents@.len() as int),
            document_views(documents@) == target.take(documents@.len() as int),
        decreases rest.len(),
    {
        let ghost so_far = documents@;
        let ghost i = documents@.len() as int;
        let value = rest.remove(0);
        assert(value == all[i]);
        assert(rest@ =~= all.skip(i + 1));
        let document = match value {
            Some(value) => Some(copy_value(value)),
            None => None,
        };
        documents.push(document);
        assert(document_views(documents@) =~= document_views(so_far).push(target[i]));
        assert(target.take(i + 1) =~= target.take(i).push(target[i]));
    }
    assert(target.take(documents@.len() as int) =~= target);
    documents
}

/// A member is found exactly where one of that key stands, and it is the first
/// such member.
pub proof fn lemma_member(entries: Seq<(Seq<char>, JsonView)>, key: Seq<char>)
    ensures
        member(entries, key) is None <==> forall|i: int|
            0 <= i < entries.len() ==> (#[trigger] entries[i]).0 != key,
        forall|i: int|
            0 <= i < entries.len() && (#[trigger] entries[i]).0 == key && no_key_before(
                entries,
                key,
                i,
            ) ==> member(entries, key) == Some(entries[i].1),
    decreases entries.len(),
{
    if entries.len() > 0 {
        let rest = entries.drop_first();
        lemma_member(rest, key);
        assert forall|i: int| 0 <= i < rest.len() implies #[trigger] rest[i] == entries[i + 1] by {}
        if member(entries, key) is None {
            assert forall|i: int| 0 <= i < entries.len() implies (#[trigger] entries[i]).0 != key by {
                if i > 0 {
                    assert(rest[i - 1].0 != key);
                }
            }
        }
        if forall|i: int| 0 <= i < entries.len() ==> (#[trigger] entries[i]).0 != key {
            assert(entries[0].0 != key);
            assert forall|i: int| 0 <= i < rest.len() implies (#[trigger] rest[i]).0 != key by {
                assert(entries[i + 1].0 != key);
            }
        }
        assert forall|i: int|
            0 <= i < entries.len() && (#[trigger] entries[i]).0 == key && no_key_before(
                entries,
                key,
                i,
            ) implies member(entries, key) == Some(entries[i].1) by {
            if i > 0 {
                assert(entries[0].0 != key);
                assert(no_key_before(rest, key, i - 1)) by {
                    assert forall|j: int| 0 <= j < i - 1 implies (#[trigger] rest[j]).0 != key by {
                        assert(entries[j + 1].0 != key);
                    }
                }
                assert(rest[i - 1].0 == key);
            }
        }
    }
}

/// No member before `i` has this key.
pub open spec fn no_key_before(
    entries: Seq<(Seq<char>, JsonView)>,
    key: Seq<char>,
    i: int,
) -> bool {
    forall|j: int| 0 <= j < i ==> (#[trigger] entries[j]).0 != key
}

} // verus!
