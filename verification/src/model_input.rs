//! The text that a model gets to see of a request.
//!
//! That is the `system` prompt, the `content` of the messages and the definitions of the
//! tools. The parameters of the request (`max_tokens`, `model` and the like) and the
//! characters that hold the JSON together are no part of it.

use crate::encode::{encoded, to_text};
use crate::json::{views, Json, JsonView};
use crate::text::{
    join, joined, law_joined_lists, law_joined_text_has_each_part, occurs_in, texts,
};
use vstd::prelude::*;

verus! {

/// The texts in a content value: a string itself, the `text` of an object, and what stands
/// in the items of an array, at any depth.
pub open spec fn content_texts(content: JsonView) -> Seq<Seq<char>>
    decreases content,
{
    match content {
        JsonView::Str(text) => seq![text],
        JsonView::Array(items) => item_texts(items),
        JsonView::Object(_) => text_list(content.str_at("text"@)),
        _ => Seq::empty(),
    }
}

/// The texts in the items of an array, item after item.
pub open spec fn item_texts(items: Seq<JsonView>) -> Seq<Seq<char>>
    decreases items,
{
    if items.len() == 0 {
        Seq::empty()
    } else {
        item_texts(items.drop_last()) + content_texts(items.last())
    }
}

/// The list of one text, or of none.
pub open spec fn text_list(text: Option<Seq<char>>) -> Seq<Seq<char>> {
    match text {
        Some(t) => seq![t],
        None => Seq::empty(),
    }
}

/// The texts in a content value that may be missing.
pub open spec fn optional_texts(content: Option<JsonView>) -> Seq<Seq<char>> {
    match content {
        Some(value) => content_texts(value),
        None => Seq::empty(),
    }
}

/// The items under `key`; none where there is no array.
pub open spec fn items_at(body: JsonView, key: Seq<char>) -> Seq<JsonView> {
    match body.array_at(key) {
        Some(items) => items,
        None => Seq::empty(),
    }
}

/// The texts in the messages.
pub open spec fn message_texts(messages: Seq<JsonView>) -> Seq<Seq<char>> {
    Seq::new(messages.len(), |i: int| optional_texts(messages[i].get("content"@))).flatten()
}

/// The texts that define a tool: its name, its description, and the text of its input
/// schema, as far as it has each of them.
pub open spec fn tool_definition(tool: JsonView, schema: Seq<char>) -> Seq<Seq<char>> {
    text_list(tool.str_at("name"@)) + text_list(tool.str_at("description"@)) + if tool.get(
        "input_schema"@,
    ) is Some {
        seq![schema]
    } else {
        Seq::empty()
    }
}

/// The text of the input schema of the tool at `index`.
pub open spec fn schema_at(schemas: Seq<Seq<char>>, index: int) -> Seq<char> {
    if 0 <= index < schemas.len() {
        schemas[index]
    } else {
        Seq::empty()
    }
}

/// The texts that define the tools.
pub open spec fn tool_texts(tools: Seq<JsonView>, schemas: Seq<Seq<char>>) -> Seq<Seq<char>> {
    Seq::new(tools.len(), |i: int| tool_definition(tools[i], schema_at(schemas, i))).flatten()
}

/// The texts that the model sees of a request, where the input schemas of its tools have the
/// texts `schemas`.
pub open spec fn input_parts(body: JsonView, schemas: Seq<Seq<char>>) -> Seq<Seq<char>> {
    optional_texts(body.get("system"@)) + message_texts(items_at(body, "messages"@)) + tool_texts(
        items_at(body, "tools"@),
        schemas,
    )
}

/// The text of a tool's input schema; empty where it has none or it cannot be written.
pub open spec fn schema_text(tool: JsonView) -> Seq<char> {
    match tool.get("input_schema"@) {
        Some(schema) => match encoded(schema) {
            Some(text) => text,
            None => Seq::empty(),
        },
        None => Seq::empty(),
    }
}

/// The texts of the input schemas of the tools of a request.
pub open spec fn schema_texts(body: JsonView) -> Seq<Seq<char>> {
    let tools = items_at(body, "tools"@);
    Seq::new(tools.len(), |i: int| schema_text(tools[i]))
}

/// The text that the model sees of a request, where the input schemas of its tools have the
/// texts `schemas`.
pub open spec fn input_text(body: JsonView, schemas: Seq<Seq<char>>) -> Seq<char> {
    joined(input_parts(body, schemas), " "@)
}

/// The text that the model sees of a request.
pub open spec fn model_input(body: JsonView) -> Seq<char> {
    input_text(body, schema_texts(body))
}

/// What the value says, where there is one.
pub open spec fn optional_view(value: Option<&Json>) -> Option<JsonView> {
    match value {
        Some(json) => Some(json@),
        None => None,
    }
}

proof fn lemma_texts_push(parts: Seq<String>, part: String)
    ensures
        texts(parts.push(part)) == texts(parts).push(part@),
{
    assert(texts(parts.push(part)) =~= texts(parts).push(part@));
}

fn collect_texts(value: &Json, parts: &mut Vec<String>)
    ensures
        texts(final(parts)@) == texts(old(parts)@) + content_texts(value@),
    decreases value,
{
    let ghost before = texts(parts@);
    match value {
        Json::Str(text) => {
            proof {
                lemma_texts_push(parts@, *text);
            }
            parts.push(text.clone());
            assert(texts(parts@) =~= before + content_texts(value@));
        },
        Json::Array(items) => {
            let ghost docs = value@->Array_0;
            assert(before + item_texts(docs.take(0)) =~= before);
            let mut i: usize = 0;
            while i < items.len()
                invariant
                    i <= items.len(),
                    *value == Json::Array(*items),
                    docs == value@->Array_0,
                    docs.len() == items.len(),
                    texts(parts@) == before + item_texts(docs.take(i as int)),
                decreases items.len() - i,
            {
                assert(docs[i as int] == items@[i as int]@);
                collect_texts(&items[i], parts);
                assert(docs.take(i + 1).drop_last() =~= docs.take(i as int));
                i += 1;
                assert(texts(parts@) =~= before + item_texts(docs.take(i as int)));
            }
            assert(docs.take(i as int) =~= docs);
        },
        Json::Object(_) => {
            match value.str_at("text") {
                Some(text) => {
                    let part = text.to_owned();
                    proof {
                        lemma_texts_push(parts@, part);
                    }
                    parts.push(part);
                },
                None => {},
            }
            assert(texts(parts@) =~= before + content_texts(value@));
        },
        _ => {
            assert(texts(parts@) =~= before + content_texts(value@));
        },
    }
}

/// Adds the texts in `value`, if there is one, to `parts`.
pub fn collect_text_from_value(value: Option<&Json>, parts: &mut Vec<String>)
    ensures
        texts(final(parts)@) == texts(old(parts)@) + optional_texts(optional_view(value)),
{
    match value {
        Some(json) => collect_texts(json, parts),
        None => {
            assert(texts(parts@) =~= texts(parts@) + Seq::<Seq<char>>::empty());
        },
    }
}

fn collect_optional(text: Option<&str>, parts: &mut Vec<String>)
    ensures
        texts(final(parts)@) == texts(old(parts)@) + text_list(
            match text {
                Some(t) => Some(t@),
                None => None,
            },
        ),
{
    let ghost before = texts(parts@);
    match text {
        Some(t) => {
            let part = t.to_owned();
            proof {
                lemma_texts_push(parts@, part);
            }
            parts.push(part);
            assert(texts(parts@) =~= before + seq![t@]);
        },
        None => {
            assert(before =~= before + Seq::<Seq<char>>::empty());
        },
    }
}

/// Adds the texts that define a tool to `parts`.
pub fn collect_tool(tool: &Json, schema: &str, parts: &mut Vec<String>)
    ensures
        texts(final(parts)@) == texts(old(parts)@) + tool_definition(tool@, schema@),
{
    let ghost before = texts(parts@);
    collect_optional(tool.str_at("name"), parts);
    collect_optional(tool.str_at("description"), parts);
    if tool.get("input_schema").is_some() {
        collect_optional(Some(schema), parts);
    }
    assert(texts(parts@) =~= before + tool_definition(tool@, schema@));
}

fn collect_messages(messages: &Vec<Json>, parts: &mut Vec<String>)
    ensures
        texts(final(parts)@) == texts(old(parts)@) + message_texts(views(messages@)),
{
    let ghost before = texts(parts@);
    let ghost docs = views(messages@);
    let ghost each = Seq::new(docs.len(), |i: int| optional_texts(docs[i].get("content"@)));
    assert(before + each.take(0).flatten() =~= before);
    let mut i: usize = 0;
    while i < messages.len()
        invariant
            i <= messages.len(),
            docs == views(messages@),
            each.len() == docs.len(),
            forall|k: int|
                0 <= k < docs.len() ==> #[trigger] each[k] == optional_texts(
                    docs[k].get("content"@),
                ),
            texts(parts@) == before + each.take(i as int).flatten(),
        decreases messages.len() - i,
    {
        collect_text_from_value(messages[i].get("content"), parts);
        proof {
            each.take(i as int).lemma_flatten_push(each[i as int]);
            assert(each.take(i + 1) =~= each.take(i as int).push(each[i as int]));
        }
        i += 1;
        assert(texts(parts@) =~= before + each.take(i as int).flatten());
    }
    assert(each.take(i as int) =~= each);
}

fn collect_tools(tools: &Vec<Json>, schemas: &Vec<String>, parts: &mut Vec<String>)
    ensures
        texts(final(parts)@) == texts(old(parts)@) + tool_texts(views(tools@), texts(schemas@)),
{
    let ghost before = texts(parts@);
    let ghost docs = views(tools@);
    let ghost said = texts(schemas@);
    let ghost each = Seq::new(docs.len(), |i: int| tool_definition(docs[i], schema_at(said, i)));
    assert(before + each.take(0).flatten() =~= before);
    let mut i: usize = 0;
    while i < tools.len()
        invariant
            i <= tools.len(),
            docs == views(tools@),
            said == texts(schemas@),
            each.len() == docs.len(),
            forall|k: int|
                0 <= k < docs.len() ==> #[trigger] each[k] == tool_definition(
                    docs[k],
                    schema_at(said, k),
                ),
            texts(parts@) == before + each.take(i as int).flatten(),
        decreases tools.len() - i,
    {
        if i < schemas.len() {
            collect_tool(&tools[i], schemas[i].as_str(), parts);
        } else {
            proof {
                reveal_strlit("");
                assert(""@ =~= Seq::<char>::empty());
            }
            collect_tool(&tools[i], "", parts);
        }
        proof {
            each.take(i as int).lemma_flatten_push(each[i as int]);
            assert(each.take(i + 1) =~= each.take(i as int).push(each[i as int]));
        }
        i += 1;
        assert(texts(parts@) =~= before + each.take(i as int).flatten());
    }
    assert(each.take(i as int) =~= each);
}

/// The text that the model sees of a request, where the input schemas of its tools have the
/// texts `schemas`, in the order of the tools.
pub fn input_text_with(body: &Json, schemas: &Vec<String>) -> (text: String)
    ensures
        text@ == input_text(body@, texts(schemas@)),
{
    let mut parts: Vec<String> = Vec::new();
    collect_text_from_value(body.get("system"), &mut parts);
    match body.array_at("messages") {
        Some(messages) => collect_messages(messages, &mut parts),
        None => {},
    }
    match body.array_at("tools") {
        Some(tools) => collect_tools(tools, schemas, &mut parts),
        None => {},
    }
    assert(texts(parts@) =~= input_parts(body@, texts(schemas@)));
    join(&parts, " ")
}

/// The texts of the input schemas of the tools of a request, in the order of the tools.
pub fn input_schema_texts(body: &Json) -> (schemas: Vec<String>)
    ensures
        texts(schemas@) == schema_texts(body@),
{
    let mut schemas: Vec<String> = Vec::new();
    match body.array_at("tools") {
        Some(tools) => {
            let mut i: usize = 0;
            while i < tools.len()
                invariant
                    i <= tools.len(),
                    schemas.len() == i,
                    items_at(body@, "tools"@) == views(tools@),
                    forall|k: int|
                        0 <= k < i ==> (#[trigger] schemas@[k])@ == schema_text(tools@[k]@),
                decreases tools.len() - i,
            {
                let text: String = match tools[i].get("input_schema") {
                    Some(schema) => match to_text(schema) {
                        Some(text) => text,
                        None => String::new(),
                    },
                    None => String::new(),
                };
                schemas.push(text);
                i += 1;
            }
        },
        None => {},
    }
    assert(texts(schemas@) =~= schema_texts(body@));
    schemas
}

/// The text that the model sees of a request.
pub fn extract_model_input(body: &Json) -> (text: String)
    ensures
        text@ == model_input(body@),
{
    let schemas = input_schema_texts(body);
    input_text_with(body, &schemas)
}

/// The text depends on the system prompt, on what the messages have under `content`, and on
/// the names, descriptions and input schemas of the tools alone: two requests that agree on
/// these show the model the same.
pub proof fn law_only_system_messages_and_tools_count(first: JsonView, second: JsonView)
    requires
        first.get("system"@) == second.get("system"@),
        items_at(first, "messages"@).len() == items_at(second, "messages"@).len(),
        forall|i: int|
            0 <= i < items_at(first, "messages"@).len() ==> (#[trigger] items_at(
                first,
                "messages"@,
            )[i]).get("content"@) == items_at(second, "messages"@)[i].get("content"@),
        items_at(first, "tools"@).len() == items_at(second, "tools"@).len(),
        forall|i: int|
            0 <= i < items_at(first, "tools"@).len() ==> same_definition(
                #[trigger] items_at(first, "tools"@)[i],
                items_at(second, "tools"@)[i],
            ),
    ensures
        model_input(first) == model_input(second),
{
    let messages = items_at(first, "messages"@);
    let other_messages = items_at(second, "messages"@);
    assert(Seq::new(messages.len(), |i: int| optional_texts(messages[i].get("content"@)))
        =~= Seq::new(
        other_messages.len(),
        |i: int| optional_texts(other_messages[i].get("content"@)),
    ));
    assert(schema_texts(first) =~= schema_texts(second));
    let schemas = schema_texts(first);
    let tools = items_at(first, "tools"@);
    let other_tools = items_at(second, "tools"@);
    assert(Seq::new(tools.len(), |i: int| tool_definition(tools[i], schema_at(schemas, i)))
        =~= Seq::new(
        other_tools.len(),
        |i: int| tool_definition(other_tools[i], schema_at(schemas, i)),
    ));
}

/// Whether two tools have the same name, description and input schema, as far as each has
/// them.
pub open spec fn same_definition(first: JsonView, second: JsonView) -> bool {
    &&& first.str_at("name"@) == second.str_at("name"@)
    &&& first.str_at("description"@) == second.str_at("description"@)
    &&& first.get("input_schema"@) == second.get("input_schema"@)
}

proof fn lemma_message_texts_add(first: Seq<JsonView>, second: Seq<JsonView>)
    ensures
        message_texts(first + second) == message_texts(first) + message_texts(second),
{
    let each = Seq::new(first.len(), |i: int| optional_texts(first[i].get("content"@)));
    let other = Seq::new(second.len(), |i: int| optional_texts(second[i].get("content"@)));
    let both = first + second;
    assert(Seq::new(both.len(), |i: int| optional_texts(both[i].get("content"@))) =~= each + other);
    vstd::seq_lib::lemma_flatten_concat(each, other);
}

/// What the model sees of a request whose messages are those of a first request and then those
/// of a second is what it sees of each, with a space between. Where it sees nothing of one of
/// them, it is what it sees of the other. A system prompt may come with the first request, and
/// tools with the second.
pub proof fn law_input_of_two_message_lists(first: JsonView, second: JsonView, both: JsonView)
    requires
        items_at(both, "messages"@) == items_at(first, "messages"@) + items_at(
            second,
            "messages"@,
        ),
        both.get("system"@) == first.get("system"@),
        second.get("system"@) is None,
        items_at(both, "tools"@) == items_at(second, "tools"@),
        items_at(first, "tools"@).len() == 0,
    ensures
        model_input(both) == if input_parts(first, schema_texts(first)).len() == 0 {
            model_input(second)
        } else if input_parts(second, schema_texts(second)).len() == 0 {
            model_input(first)
        } else {
            model_input(first) + " "@ + model_input(second)
        },
{
    lemma_message_texts_add(items_at(first, "messages"@), items_at(second, "messages"@));
    let before = input_parts(first, schema_texts(first));
    let after = input_parts(second, schema_texts(second));
    assert(schema_texts(both) =~= schema_texts(second));
    assert(tool_texts(items_at(first, "tools"@), schema_texts(first)) =~= Seq::empty());
    assert(input_parts(both, schema_texts(both)) =~= before + after);
    if before.len() == 0 {
        assert(before + after =~= after);
    } else if after.len() == 0 {
        assert(before + after =~= before);
    } else {
        law_joined_lists(before, after, " "@);
    }
}

/// Each text of the system prompt, of a message and of a tool stands in the model's text as
/// it is.
pub proof fn law_model_input_has_each_part(body: JsonView, index: int)
    requires
        0 <= index < input_parts(body, schema_texts(body)).len(),
    ensures
        occurs_in(input_parts(body, schema_texts(body))[index], model_input(body)),
{
    law_joined_text_has_each_part(input_parts(body, schema_texts(body)), " "@, index);
}

} // verus!
