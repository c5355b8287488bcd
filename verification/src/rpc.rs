//! The JSON-RPC messages that the cases send, and how a document is written.

use vstd::prelude::*;
use vstd::string::*;

use crate::json::{json_view, member, Json, JsonEntry, JsonNumber, JsonView};
use crate::std_text::{json_literal, write_json_literal};
use crate::text::{decimal, decimal_text, join_texts, joined, lemma_joined_adds_up, views};

verus! {

/// A document in print, without white space.
pub open spec fn json_text(value: JsonView) -> Seq<char>
    decreases value,
{
    match value {
        JsonView::Null => "null"@,
        JsonView::Bool(flag) => if flag {
            "true"@
        } else {
            "false"@
        },
        JsonView::Number(_, text) => text,
        JsonView::Text(text) => json_literal(text),
        JsonView::Array(items) => "["@ + joined(item_texts(items), ","@) + "]"@,
        JsonView::Object(entries) => "{"@ + joined(entry_texts(entries), ","@) + "}"@,
    }
}

/// The items of an array in print.
pub open spec fn item_texts(items: Seq<JsonView>) -> Seq<Seq<char>>
    decreases items,
{
    Seq::new(
        items.len(),
        |i: int|
            if 0 <= i < items.len() {
                json_text(items[i])
            } else {
                Seq::empty()
            },
    )
}

/// The members of an object in print.
pub open spec fn entry_texts(entries: Seq<(Seq<char>, JsonView)>) -> Seq<Seq<char>>
    decreases entries,
{
    Seq::new(
        entries.len(),
        |i: int|
            if 0 <= i < entries.len() {
                json_literal(entries[i].0) + ":"@ + json_text(entries[i].1)
            } else {
                Seq::empty()
            },
    )
}

/// Writes a document.
pub fn write_json(value: &Json) -> (text: String)
    ensures
        text@ == json_text(value@),
    decreases value,
{
    match value {
        Json::Null => "null".to_owned(),
        Json::Bool(flag) => if *flag {
            "true".to_owned()
        } else {
            "false".to_owned()
        },
        Json::Number(number) => number.text.clone(),
        Json::Text(text) => write_json_literal(text.as_str()),
        Json::Array(items) => {
            let ghost all = value@->Array_0;
            let mut texts: Vec<String> = Vec::new();
            let mut i: usize = 0;
            while i < items.len()
                invariant
                    i <= items.len(),
                    *value == Json::Array(*items),
                    value@ == JsonView::Array(all),
                    all.len() == items@.len(),
                    texts@.len() == i,
                    forall|k: int| 0 <= k < i ==> (#[trigger] texts@[k])@ == item_texts(all)[k],
                decreases items.len() - i,
            {
                assert(json_view(*value)->Array_0[i as int] == json_view(items@[i as int]));
                texts.push(write_json(&items[i]));
                i += 1;
            }
            assert(views(texts@) =~= item_texts(all));
            let list = join_texts(&texts, ",");
            "[".to_owned().concat(list.as_str()).concat("]")
        },
        Json::Object(entries) => {
            let ghost all = value@->Object_0;
            let mut texts: Vec<String> = Vec::new();
            let mut i: usize = 0;
            while i < entries.len()
                invariant
                    i <= entries.len(),
                    *value == Json::Object(*entries),
                    value@ == JsonView::Object(all),
                    all.len() == entries@.len(),
                    texts@.len() == i,
                    forall|k: int| 0 <= k < i ==> (#[trigger] texts@[k])@ == entry_texts(all)[k],
                decreases entries.len() - i,
            {
                assert(json_view(*value)->Object_0[i as int] == (
                    entries@[i as int].key@,
                    json_view(entries@[i as int].value),
                ));
                let key = write_json_literal(entries[i].key.as_str());
                let member = write_json(&entries[i].value);
                texts.push(key.concat(":").concat(member.as_str()));
                i += 1;
            }
            assert(views(texts@) =~= entry_texts(all));
            let list = join_texts(&texts, ",");
            "{".to_owned().concat(list.as_str()).concat("}")
        },
    }
}

/// A text as a document.
pub fn text_value(text: &str) -> (value: Json)
    ensures
        value@ == JsonView::Text(text@),
{
    Json::Text(text.to_owned())
}

/// A number as a document.
pub open spec fn number_view(number: u64) -> JsonView {
    JsonView::Number(Some(number), decimal(number as nat))
}

/// A number as a document.
pub fn number_value(number: u64) -> (value: Json)
    ensures
        value@ == number_view(number),
{
    Json::Number(JsonNumber { unsigned: Some(number), text: decimal_text(number as u128) })
}

fn entry(key: &str, value: Json) -> (entry: JsonEntry)
    ensures
        entry.key@ == key@,
        entry.value == value,
{
    JsonEntry { key: key.to_owned(), value }
}

fn object_of_one(key: &str, value: Json) -> (object: Json)
    ensures
        object@ == JsonView::Object(seq![(key@, value@)]),
{
    let mut entries: Vec<JsonEntry> = Vec::new();
    entries.push(entry(key, value));
    let object = Json::Object(entries);
    assert(object@->Object_0 =~= seq![(key@, value@)]);
    object
}

fn object_of_two(first: &str, one: Json, second: &str, two: Json) -> (object: Json)
    ensures
        object@ == JsonView::Object(seq![(first@, one@), (second@, two@)]),
{
    let mut entries: Vec<JsonEntry> = Vec::new();
    entries.push(entry(first, one));
    entries.push(entry(second, two));
    let object = Json::Object(entries);
    assert(object@->Object_0 =~= seq![(first@, one@), (second@, two@)]);
    object
}

/// A request.
pub open spec fn request_view(id: JsonView, method: Seq<char>, params: JsonView) -> JsonView {
    JsonView::Object(
        seq![
            ("id"@, id),
            ("jsonrpc"@, JsonView::Text("2.0"@)),
            ("method"@, JsonView::Text(method)),
            ("params"@, params),
        ],
    )
}

fn request(id: Json, method: &str, params: Json) -> (message: Json)
    ensures
        message@ == request_view(id@, method@, params@),
{
    let mut entries: Vec<JsonEntry> = Vec::new();
    entries.push(entry("id", id));
    entries.push(entry("jsonrpc", text_value("2.0")));
    entries.push(entry("method", text_value(method)));
    entries.push(entry("params", params));
    let message = Json::Object(entries);
    assert(message@->Object_0 =~= request_view(id@, method@, params@)->Object_0);
    message
}

/// The parameters of an `initialize`.
pub open spec fn initialize_params(client: Seq<char>) -> JsonView {
    JsonView::Object(
        seq![
            ("clientCapabilities"@, JsonView::Object(Seq::empty())),
            (
                "clientInfo"@,
                JsonView::Object(
                    seq![
                        ("name"@, JsonView::Text(client)),
                        ("version"@, JsonView::Text("0.1.0"@)),
                    ],
                ),
            ),
            ("protocolVersion"@, number_view(1)),
        ],
    )
}

/// The `initialize` of this client.
pub fn initialize_message(id: &str, client: &str) -> (message: Json)
    ensures
        message@ == request_view(JsonView::Text(id@), "initialize"@, initialize_params(client@)),
{
    let nothing = Json::Object(Vec::new());
    assert(nothing@->Object_0 =~= Seq::<(Seq<char>, JsonView)>::empty());
    let info = object_of_two("name", text_value(client), "version", text_value("0.1.0"));
    let mut entries: Vec<JsonEntry> = Vec::new();
    entries.push(entry("clientCapabilities", nothing));
    entries.push(entry("clientInfo", info));
    entries.push(entry("protocolVersion", number_value(1)));
    let params = Json::Object(entries);
    assert(params@->Object_0 =~= initialize_params(client@)->Object_0);
    request(text_value(id), "initialize", params)
}

/// The `session/new` for this workspace.
pub fn session_new_message(id: &str, workspace: &str) -> (message: Json)
    ensures
        message@ == request_view(
            JsonView::Text(id@),
            "session/new"@,
            JsonView::Object(
                seq![
                    ("cwd"@, JsonView::Text(workspace@)),
                    ("mcpServers"@, JsonView::Array(Seq::empty())),
                ],
            ),
        ),
{
    let none = Json::Array(Vec::new());
    assert(none@->Array_0 =~= Seq::<JsonView>::empty());
    let params = object_of_two("cwd", text_value(workspace), "mcpServers", none);
    request(text_value(id), "session/new", params)
}

/// The parameters of a prompt of one text.
pub open spec fn prompt_params(session: Seq<char>, text: Seq<char>) -> JsonView {
    JsonView::Object(
        seq![
            (
                "prompt"@,
                JsonView::Array(
                    seq![
                        JsonView::Object(
                            seq![
                                ("text"@, JsonView::Text(text)),
                                ("type"@, JsonView::Text("text"@)),
                            ],
                        ),
                    ],
                ),
            ),
            ("sessionId"@, JsonView::Text(session)),
        ],
    )
}

/// A prompt of one text, under any identifier.
pub fn prompt_message(session: &str, id: Json, text: &str) -> (message: Json)
    ensures
        message@ == request_view(id@, "session/prompt"@, prompt_params(session@, text@)),
{
    let part = object_of_two("text", text_value(text), "type", text_value("text"));
    let mut parts: Vec<Json> = Vec::new();
    parts.push(part);
    let prompt = Json::Array(parts);
    assert(prompt@->Array_0 =~= seq![part@]);
    let params = object_of_two("prompt", prompt, "sessionId", text_value(session));
    request(id, "session/prompt", params)
}

/// The notification that cancels a session's turn.
pub fn cancel_message(session: &str) -> (message: Json)
    ensures
        message@ == JsonView::Object(
            seq![
                ("jsonrpc"@, JsonView::Text("2.0"@)),
                ("method"@, JsonView::Text("session/cancel"@)),
                ("params"@, JsonView::Object(seq![("sessionId"@, JsonView::Text(session@))])),
            ],
        ),
{
    let params = object_of_one("sessionId", text_value(session));
    let mut entries: Vec<JsonEntry> = Vec::new();
    entries.push(entry("jsonrpc", text_value("2.0")));
    entries.push(entry("method", text_value("session/cancel")));
    entries.push(entry("params", params));
    let message = Json::Object(entries);
    assert(message@->Object_0 =~= seq![
        ("jsonrpc"@, JsonView::Text("2.0"@)),
        ("method"@, JsonView::Text("session/cancel"@)),
        ("params"@, params@),
    ]);
    message
}

/// The outcome that selects an option.
pub open spec fn selection(option: Seq<char>) -> JsonView {
    JsonView::Object(
        seq![
            (
                "outcome"@,
                JsonView::Object(
                    seq![
                        ("optionId"@, JsonView::Text(option)),
                        ("outcome"@, JsonView::Text("selected"@)),
                    ],
                ),
            ),
        ],
    )
}

/// The response that selects an option of a permission callback.
pub fn selection_message(id: Json, option: &str) -> (message: Json)
    ensures
        message@ == JsonView::Object(
            seq![
                ("id"@, id@),
                ("jsonrpc"@, JsonView::Text("2.0"@)),
                ("result"@, selection(option@)),
            ],
        ),
{
    let outcome = object_of_two("optionId", text_value(option), "outcome", text_value("selected"));
    let result = object_of_one("outcome", outcome);
    let mut entries: Vec<JsonEntry> = Vec::new();
    entries.push(entry("id", id));
    entries.push(entry("jsonrpc", text_value("2.0")));
    entries.push(entry("result", result));
    let message = Json::Object(entries);
    assert(message@->Object_0 =~= seq![
        ("id"@, id@),
        ("jsonrpc"@, JsonView::Text("2.0"@)),
        ("result"@, result@),
    ]);
    message
}

/// A request carries its id, its method and its parameters under their names,
/// and the version of the protocol.
pub proof fn lemma_request_members(id: JsonView, method: Seq<char>, params: JsonView)
    ensures
        request_view(id, method, params).get("id"@) == Some(id),
        request_view(id, method, params).get("method"@) == Some(JsonView::Text(method)),
        request_view(id, method, params).get("params"@) == Some(params),
        request_view(id, method, params).get("jsonrpc"@) == Some(JsonView::Text("2.0"@)),
{
    reveal_strlit("id");
    reveal_strlit("jsonrpc");
    reveal_strlit("method");
    reveal_strlit("params");
    assert("id"@[0] == 'i' && "jsonrpc"@[0] == 'j' && "method"@[0] == 'm' && "params"@[0] == 'p');
    reveal_with_fuel(member, 5);
    let all = request_view(id, method, params)->Object_0;
    assert(all.drop_first()[0] == all[1]);
    assert(all.drop_first().drop_first()[0] == all[2]);
    assert(all.drop_first().drop_first().drop_first()[0] == all[3]);
}

/// A prompt names its session and carries its text as its one part; a selection
/// names the option that it selects; and a client gives its name.
pub proof fn lemma_params_members(session: Seq<char>, text: Seq<char>)
    ensures
        prompt_params(session, text).get("sessionId"@) == Some(JsonView::Text(session)),
        prompt_params(session, text).get("prompt"@) matches Some(JsonView::Array(parts))
            && parts.len() == 1 && parts[0].get("text"@) == Some(JsonView::Text(text))
            && parts[0].get("type"@) == Some(JsonView::Text("text"@)),
        selection(text).get("outcome"@) matches Some(outcome) && outcome.get("outcome"@) == Some(
            JsonView::Text("selected"@),
        ) && outcome.get("optionId"@) == Some(JsonView::Text(text)),
        initialize_params(text).get("clientInfo"@) matches Some(info) && info.get("name"@) == Some(
            JsonView::Text(text),
        ),
        initialize_params(text).get("protocolVersion"@) matches Some(JsonView::Number(Some(n), _))
            && n == 1,
{
    reveal_strlit("prompt");
    reveal_strlit("sessionId");
    reveal_strlit("text");
    reveal_strlit("type");
    reveal_strlit("outcome");
    reveal_strlit("optionId");
    reveal_strlit("clientCapabilities");
    reveal_strlit("clientInfo");
    reveal_strlit("protocolVersion");
    reveal_strlit("name");
    assert("prompt"@[0] == 'p' && "sessionId"@[0] == 's');
    assert("text"@[1] == 'e' && "type"@[1] == 'y');
    assert("outcome"@[1] == 'u' && "optionId"@[1] == 'p');
    assert("clientCapabilities"@[6] == 'C' && "clientInfo"@[6] == 'I' && "protocolVersion"@[0]
        == 'p' && "clientCapabilities"@[0] == 'c' && "clientInfo"@[0] == 'c');
    reveal_with_fuel(member, 4);
    let prompt = prompt_params(session, text)->Object_0;
    assert(prompt.drop_first()[0] == prompt[1]);
    let parts = prompt[0].1->Array_0;
    let part = parts[0]->Object_0;
    assert(part.drop_first()[0] == part[1]);
    let outcome = selection(text)->Object_0[0].1->Object_0;
    assert(outcome.drop_first()[0] == outcome[1]);
    let first = initialize_params(text)->Object_0;
    assert(first.drop_first()[0] == first[1]);
    assert(first.drop_first().drop_first()[0] == first[2]);
}

/// A document in print: an empty array or object is its brackets, one item or
/// member stands between them, and two lists in a row are parted by one comma.
pub proof fn lemma_print_of_lists(
    first: Seq<JsonView>,
    second: Seq<JsonView>,
    one: JsonView,
    key: Seq<char>,
)
    requires
        first.len() > 0,
        second.len() > 0,
    ensures
        json_text(JsonView::Array(Seq::empty())) == "["@ + "]"@,
        json_text(JsonView::Object(Seq::empty())) == "{"@ + "}"@,
        json_text(JsonView::Array(seq![one])) == "["@ + json_text(one) + "]"@,
        json_text(JsonView::Object(seq![(key, one)])) == "{"@ + (json_literal(key) + ":"@
            + json_text(one)) + "}"@,
        json_text(JsonView::Array(first + second)) == "["@ + (joined(item_texts(first), ","@) + ","@
            + joined(item_texts(second), ","@)) + "]"@,
        json_text(JsonView::Array(first)) == "["@ + joined(item_texts(first), ","@) + "]"@,
{
    assert(item_texts(Seq::empty()) =~= Seq::empty());
    assert(entry_texts(Seq::empty()) =~= Seq::empty());
    assert(json_text(JsonView::Array(Seq::empty())) =~= "["@ + "]"@);
    assert(json_text(JsonView::Object(Seq::empty())) =~= "{"@ + "}"@);
    assert(item_texts(seq![one]) =~= seq![json_text(one)]);
    assert(entry_texts(seq![(key, one)]) =~= seq![json_literal(key) + ":"@ + json_text(one)]);
    assert(item_texts(first + second) =~= item_texts(first) + item_texts(second));
    lemma_joined_adds_up(item_texts(first), item_texts(second), ","@);
}

} // verus!
