//! What the model sees of a request, told from the request itself.

use crate::encode::{compact_json, encodable};
use crate::json::{Json, JsonView};
use crate::model_input::{
    content_texts, extract_model_input, input_parts, input_text, item_texts, items_at,
    message_texts, model_input, optional_texts, optional_view, schema_at, schema_text, schema_texts,
    text_list, tool_definition, tool_texts,
};
use crate::text::{joined, law_joined_text_has_each_part, occurs_at};
use vstd::prelude::*;

verus! {

proof fn lemma_item_texts_add(first: Seq<JsonView>, second: Seq<JsonView>)
    ensures
        item_texts(first + second) == item_texts(first) + item_texts(second),
    decreases second.len(),
{
    if second.len() == 0 {
        assert(first + second =~= first);
    } else {
        lemma_item_texts_add(first, second.drop_last());
        assert((first + second).drop_last() =~= first + second.drop_last());
        assert((first + second).last() == second.last());
    }
    assert(item_texts(first + second) =~= item_texts(first) + item_texts(second));
}

proof fn lemma_one_item(item: JsonView)
    ensures
        item_texts(seq![item]) == content_texts(item),
{
    assert(seq![item].drop_last() =~= Seq::empty());
    assert(item_texts(seq![item].drop_last()) =~= Seq::empty());
    assert(item_texts(seq![item]) =~= content_texts(item));
}

/// A string is a text, an object has the string that stands under `text`, and nothing else has a
/// text of its own.
pub proof fn law_texts_of_a_single_value(content: JsonView, text: Seq<char>)
    ensures
        content_texts(JsonView::Str(text)) == seq![text],
        content.get("text"@) == Some(JsonView::Str(text)) ==> content_texts(content) == seq![text],
        content is Object && !(content.get("text"@) matches Some(JsonView::Str(_)))
            ==> content_texts(content).len() == 0,
        content is Null || content is Bool || content is Integer || content is Decimal
            ==> content_texts(content).len() == 0,
{
}

/// The texts of a list are those of its first items and then those of the rest; a list of one
/// item has the texts of the item, and the empty list has none.
pub proof fn law_texts_of_a_list(first: Seq<JsonView>, second: Seq<JsonView>, item: JsonView)
    ensures
        content_texts(JsonView::Array(first + second)) == content_texts(JsonView::Array(first))
            + content_texts(JsonView::Array(second)),
        content_texts(JsonView::Array(seq![item])) == content_texts(item),
        content_texts(JsonView::Array(Seq::empty())).len() == 0,
{
    reveal_with_fuel(content_texts, 2);
    lemma_item_texts_add(first, second);
    lemma_one_item(item);
}

/// A missing value has no texts; one that is there has those of what it says.
pub proof fn law_texts_of_a_missing_value(content: JsonView, json: Json)
    ensures
        optional_texts(None).len() == 0,
        optional_texts(Some(content)) == content_texts(content),
        optional_view(None) is None,
        optional_view(Some(&json)) == Some(json@),
{
}

/// The value that stands in a document at a path of positions in lists.
pub open spec fn value_at(doc: JsonView, path: Seq<int>) -> Option<JsonView>
    decreases path.len(),
{
    if path.len() == 0 {
        Some(doc)
    } else {
        match doc {
            JsonView::Array(items) => if 0 <= path[0] < items.len() {
                value_at(items[path[0]], path.drop_first())
            } else {
                None
            },
            _ => None,
        }
    }
}

proof fn lemma_item_text_is_there(items: Seq<JsonView>, index: int, text: Seq<char>)
    requires
        0 <= index < items.len(),
        content_texts(items[index]).contains(text),
    ensures
        item_texts(items).contains(text),
    decreases items.len(),
{
    let last = items.len() - 1;
    let head = item_texts(items.drop_last());
    let tail = content_texts(items.last());
    if index == last {
        let k = choose|k: int| 0 <= k < tail.len() && tail[k] == text;
        assert(item_texts(items)[head.len() + k] == text);
    } else {
        assert(items.drop_last()[index] == items[index]);
        lemma_item_text_is_there(items.drop_last(), index, text);
        let k = choose|k: int| 0 <= k < head.len() && head[k] == text;
        assert(item_texts(items)[k] == text);
    }
}

proof fn lemma_text_at_path(content: JsonView, path: Seq<int>, text: Seq<char>)
    requires
        value_at(content, path) matches Some(value) && (value == JsonView::Str(text) || value.get(
            "text"@,
        ) == Some(JsonView::Str(text))),
    ensures
        content_texts(content).contains(text),
    decreases path.len(),
{
    if path.len() == 0 {
        law_texts_of_a_single_value(content, text);
        assert(content_texts(content)[0] == text);
    } else {
        let items = content->Array_0;
        lemma_text_at_path(items[path[0]], path.drop_first(), text);
        lemma_item_text_is_there(items, path[0], text);
    }
}

proof fn lemma_flat_has(lists: Seq<Seq<Seq<char>>>, index: int, text: Seq<char>)
    requires
        0 <= index < lists.len(),
        lists[index].contains(text),
    ensures
        lists.flatten().contains(text),
    decreases lists.len(),
{
    let first = lists.first();
    let rest = lists.drop_first();
    assert(lists.flatten() =~= first + rest.flatten());
    if index == 0 {
        let k = choose|k: int| 0 <= k < first.len() && first[k] == text;
        assert(lists.flatten()[k] == text);
    } else {
        assert(rest[index - 1] == lists[index]);
        lemma_flat_has(rest, index - 1, text);
        let k = choose|k: int| 0 <= k < rest.flatten().len() && rest.flatten()[k] == text;
        assert(lists.flatten()[first.len() + k] == text);
    }
}

proof fn lemma_part_is_seen(body: JsonView, text: Seq<char>)
    requires
        input_parts(body, schema_texts(body)).contains(text),
    ensures
        exists|before: Seq<char>, after: Seq<char>|
            model_input(body) == #[trigger] (before + text + after),
{
    let parts = input_parts(body, schema_texts(body));
    let index = choose|i: int| 0 <= i < parts.len() && parts[i] == text;
    law_joined_text_has_each_part(parts, " "@, index);
    let whole = model_input(body);
    let at = choose|at: int| #[trigger] occurs_at(text, whole, at);
    let before = whole.take(at);
    let after = whole.skip(at + text.len());
    assert(whole =~= before + text + after) by {
        assert(whole.subrange(at, at + text.len()) == text);
    }
}

proof fn lemma_parts_contain(body: JsonView, schemas: Seq<Seq<char>>, text: Seq<char>)
    requires
        optional_texts(body.get("system"@)).contains(text) || message_texts(
            items_at(body, "messages"@),
        ).contains(text) || tool_texts(items_at(body, "tools"@), schemas).contains(text),
    ensures
        input_parts(body, schemas).contains(text),
{
    let one = optional_texts(body.get("system"@));
    let two = message_texts(items_at(body, "messages"@));
    let three = tool_texts(items_at(body, "tools"@), schemas);
    let all = input_parts(body, schemas);
    if one.contains(text) {
        let k = choose|k: int| 0 <= k < one.len() && one[k] == text;
        assert(all[k] == text);
    } else if two.contains(text) {
        let k = choose|k: int| 0 <= k < two.len() && two[k] == text;
        assert(all[one.len() + k] == text);
    } else {
        let k = choose|k: int| 0 <= k < three.len() && three[k] == text;
        assert(all[one.len() + two.len() + k] == text);
    }
}

/// Every text in a message reaches the model as it is: a string, or the string under `text` of
/// an object, that is the content of the message or stands in it at any depth of lists.
pub proof fn law_every_text_of_a_message_is_seen(
    body: JsonView,
    messages: Seq<JsonView>,
    index: int,
    content: JsonView,
    path: Seq<int>,
    text: Seq<char>,
)
    requires
        body.get("messages"@) == Some(JsonView::Array(messages)),
        0 <= index < messages.len(),
        messages[index].get("content"@) == Some(content),
        value_at(content, path) matches Some(value) && (value == JsonView::Str(text) || value.get(
            "text"@,
        ) == Some(JsonView::Str(text))),
    ensures
        exists|before: Seq<char>, after: Seq<char>|
            model_input(body) == #[trigger] (before + text + after),
{
    lemma_text_at_path(content, path, text);
    let each = Seq::new(messages.len(), |i: int| optional_texts(messages[i].get("content"@)));
    assert(each[index].contains(text));
    lemma_flat_has(each, index, text);
    assert(items_at(body, "messages"@) == messages);
    lemma_parts_contain(body, schema_texts(body), text);
    lemma_part_is_seen(body, text);
}

/// Every text of the system prompt reaches the model as it is, at any depth of lists.
pub proof fn law_every_text_of_the_system_prompt_is_seen(
    body: JsonView,
    system: JsonView,
    path: Seq<int>,
    text: Seq<char>,
)
    requires
        body.get("system"@) == Some(system),
        value_at(system, path) matches Some(value) && (value == JsonView::Str(text) || value.get(
            "text"@,
        ) == Some(JsonView::Str(text))),
    ensures
        exists|before: Seq<char>, after: Seq<char>|
            model_input(body) == #[trigger] (before + text + after),
{
    lemma_text_at_path(system, path, text);
    lemma_parts_contain(body, schema_texts(body), text);
    lemma_part_is_seen(body, text);
}

/// The name and the description of every tool, and the text of its input schema, reach the model
/// as they are.
pub proof fn law_every_text_of_a_tool_is_seen(
    body: JsonView,
    tools: Seq<JsonView>,
    index: int,
    text: Seq<char>,
)
    requires
        body.get("tools"@) == Some(JsonView::Array(tools)),
        0 <= index < tools.len(),
        tools[index].get("name"@) == Some(JsonView::Str(text)) || tools[index].get("description"@)
            == Some(JsonView::Str(text)) || (tools[index].get("input_schema"@) matches Some(schema)
            && encodable(schema) && text == compact_json(schema)),
    ensures
        exists|before: Seq<char>, after: Seq<char>|
            model_input(body) == #[trigger] (before + text + after),
{
    let schemas = schema_texts(body);
    assert(items_at(body, "tools"@) == tools);
    let each = Seq::new(tools.len(), |i: int| tool_definition(tools[i], schema_at(schemas, i)));
    let tool = tools[index];
    let named = text_list(tool.str_at("name"@));
    let described = text_list(tool.str_at("description"@));
    assert(each[index] == tool_definition(tool, schema_text(tool)));
    if tool.get("name"@) == Some(JsonView::Str(text)) {
        assert(each[index][0] == text);
    } else if tool.get("description"@) == Some(JsonView::Str(text)) {
        assert(each[index][named.len() as int] == text);
    } else {
        assert(each[index][(named.len() + described.len()) as int] == text);
    }
    lemma_flat_has(each, index, text);
    lemma_parts_contain(body, schemas, text);
    lemma_part_is_seen(body, text);
}

proof fn lemma_flat_of_contents(contents: Seq<JsonView>)
    ensures
        Seq::new(contents.len(), |i: int| content_texts(contents[i])).flatten() == item_texts(
            contents,
        ),
    decreases contents.len(),
{
    let each = Seq::new(contents.len(), |i: int| content_texts(contents[i]));
    if contents.len() == 0 {
        assert(each.flatten() =~= item_texts(contents));
    } else {
        let head = contents.drop_last();
        lemma_flat_of_contents(head);
        let before = Seq::new(head.len(), |i: int| content_texts(head[i]));
        assert(each =~= before.push(content_texts(contents.last())));
        before.lemma_flatten_push(content_texts(contents.last()));
        assert(each.flatten() =~= item_texts(contents));
    }
}

proof fn lemma_list_of_strings(texts: Seq<Seq<char>>)
    ensures
        item_texts(Seq::new(texts.len(), |i: int| JsonView::Str(texts[i]))) == texts,
    decreases texts.len(),
{
    let items = Seq::new(texts.len(), |i: int| JsonView::Str(texts[i]));
    if texts.len() > 0 {
        let head = texts.drop_last();
        lemma_list_of_strings(head);
        assert(items.drop_last() =~= Seq::new(head.len(), |i: int| JsonView::Str(head[i])));
        assert(items.last() == JsonView::Str(texts.last()));
        assert(content_texts(items.last()) =~= seq![texts.last()]);
    }
    assert(item_texts(items) =~= texts);
}

/// The model sees a request as one list of values: the system prompt, then the contents of the
/// messages in their order, then for each tool in its order the name, the description and the
/// text of the input schema, as far as each is there. What it sees are the texts of that list,
/// with single spaces between. Something that is missing stands in the list as `null`.
pub proof fn law_model_sees_one_list_of_values(
    body: JsonView,
    schemas: Seq<Seq<char>>,
    system: JsonView,
    contents: Seq<JsonView>,
    definitions: Seq<JsonView>,
)
    requires
        match body.get("system"@) {
            Some(value) => system == value,
            None => system == JsonView::Null,
        },
        match body.get("messages"@) {
            Some(JsonView::Array(messages)) => {
                &&& contents.len() == messages.len()
                &&& forall|i: int|
                    0 <= i < messages.len() ==> match (#[trigger] messages[i]).get("content"@) {
                        Some(value) => contents[i] == value,
                        None => contents[i] == JsonView::Null,
                    }
            },
            _ => contents.len() == 0,
        },
        match body.get("tools"@) {
            Some(JsonView::Array(tools)) => {
                &&& definitions.len() == tools.len()
                &&& forall|i: int|
                    0 <= i < tools.len() ==> #[trigger] definitions[i] == JsonView::Array(
                        seq![
                            match tools[i].get("name"@) {
                                Some(JsonView::Str(name)) => JsonView::Str(name),
                                _ => JsonView::Null,
                            },
                            match tools[i].get("description"@) {
                                Some(JsonView::Str(description)) => JsonView::Str(description),
                                _ => JsonView::Null,
                            },
                            match tools[i].get("input_schema"@) {
                                Some(_) => JsonView::Str(
                                    if i < schemas.len() {
                                        schemas[i]
                                    } else {
                                        Seq::empty()
                                    },
                                ),
                                None => JsonView::Null,
                            },
                        ],
                    )
            },
            _ => definitions.len() == 0,
        },
    ensures
        input_text(body, schemas) == joined(
            content_texts(
                JsonView::Array(
                    seq![system, JsonView::Array(contents), JsonView::Array(definitions)],
                ),
            ),
            " "@,
        ),
{
    let messages = items_at(body, "messages"@);
    let tools = items_at(body, "tools"@);
    let list = seq![system, JsonView::Array(contents), JsonView::Array(definitions)];
    assert(list =~= seq![system] + (seq![JsonView::Array(contents)] + seq![
        JsonView::Array(definitions),
    ]));
    lemma_item_texts_add(
        seq![system],
        seq![JsonView::Array(contents)] + seq![JsonView::Array(definitions)],
    );
    lemma_item_texts_add(seq![JsonView::Array(contents)], seq![JsonView::Array(definitions)]);
    lemma_one_item(system);
    lemma_one_item(JsonView::Array(contents));
    lemma_one_item(JsonView::Array(definitions));
    lemma_flat_of_contents(contents);
    lemma_flat_of_contents(definitions);
    assert(Seq::new(messages.len(), |i: int| optional_texts(messages[i].get("content"@)))
        =~= Seq::new(contents.len(), |i: int| content_texts(contents[i])));
    assert forall|i: int| 0 <= i < tools.len() implies tool_definition(
        tools[i],
        schema_at(schemas, i),
    ) == content_texts(#[trigger] definitions[i]) by {
        let parts = definitions[i]->Array_0;
        assert(parts =~= seq![parts[0]] + (seq![parts[1]] + seq![parts[2]]));
        lemma_item_texts_add(seq![parts[0]], seq![parts[1]] + seq![parts[2]]);
        lemma_item_texts_add(seq![parts[1]], seq![parts[2]]);
        lemma_one_item(parts[0]);
        lemma_one_item(parts[1]);
        lemma_one_item(parts[2]);
        assert(tool_definition(tools[i], schema_at(schemas, i)) =~= content_texts(definitions[i]));
    }
    assert(Seq::new(tools.len(), |i: int| tool_definition(tools[i], schema_at(schemas, i)))
        =~= Seq::new(definitions.len(), |i: int| content_texts(definitions[i])));
    assert(input_parts(body, schemas) =~= item_texts(list));
}

/// The schema texts of a request are those of its tools, in their order: for each tool the text
/// that `serde_json` writes for what stands under `input_schema`, and the empty text where
/// nothing stands there or it cannot be written. With these, the model's text is whole.
pub proof fn law_schema_texts_are_those_of_the_tools(
    body: JsonView,
    tools: Seq<JsonView>,
    index: int,
)
    ensures
        !(body.get("tools"@) matches Some(JsonView::Array(_))) ==> schema_texts(body).len() == 0,
        body.get("tools"@) == Some(JsonView::Array(tools)) ==> schema_texts(body).len()
            == tools.len(),
        body.get("tools"@) == Some(JsonView::Array(tools)) && 0 <= index < tools.len()
            ==> schema_texts(body)[index] == (match tools[index].get("input_schema"@) {
            Some(schema) => if encodable(schema) {
                compact_json(schema)
            } else {
                Seq::empty()
            },
            None => Seq::empty(),
        }),
        model_input(body) == input_text(body, schema_texts(body)),
{
}

/// The definition of a tool is the list of its name, its description and the text that is given
/// for its schema: the schema's text is there exactly where the tool has a schema.
pub proof fn law_definition_of_a_tool(
    tool: JsonView,
    schema: Seq<char>,
    name: Seq<char>,
    description: Seq<char>,
)
    ensures
        tool.get("name"@) == Some(JsonView::Str(name)) && tool.get("description"@) == Some(
            JsonView::Str(description),
        ) && tool.get("input_schema"@) is Some ==> tool_definition(tool, schema) == seq![
            name,
            description,
            schema,
        ],
        tool.get("name"@) == Some(JsonView::Str(name)) && !(tool.get("description"@) matches Some(
            JsonView::Str(_),
        )) && tool.get("input_schema"@) is None ==> tool_definition(tool, schema) == seq![name],
        !(tool.get("name"@) matches Some(JsonView::Str(_))) && tool.get("description"@) == Some(
            JsonView::Str(description),
        ) && tool.get("input_schema"@) is None ==> tool_definition(tool, schema) == seq![
            description,
        ],
        tool_definition(tool, schema).len() == (if tool.get("name"@) matches Some(JsonView::Str(_)) {
            1int
        } else {
            0
        }) + (if tool.get("description"@) matches Some(JsonView::Str(_)) {
            1int
        } else {
            0
        }) + (if tool.get("input_schema"@) is Some {
            1int
        } else {
            0
        }),
        tool.get("input_schema"@) is Some ==> tool_definition(tool, schema).last() == schema,
{
}

/// A request of a single message that is a list of text blocks, without system prompt and tools,
/// is seen as the texts of the blocks in their order, with single spaces between.
pub proof fn law_text_blocks_are_joined_by_spaces(
    body: JsonView,
    message: JsonView,
    blocks: Seq<JsonView>,
    strings: Seq<Seq<char>>,
)
    requires
        body.get("system"@) is None,
        body.get("tools"@) is None,
        body.get("messages"@) == Some(JsonView::Array(seq![message])),
        message.get("content"@) == Some(JsonView::Array(blocks)),
        blocks.len() == strings.len(),
        forall|i: int|
            0 <= i < blocks.len() ==> (#[trigger] blocks[i]).get("text"@) == Some(
                JsonView::Str(strings[i]),
            ),
    ensures
        model_input(body) == joined(strings, " "@),
{
    lemma_flat_of_contents(blocks);
    let each = Seq::new(blocks.len(), |i: int| content_texts(blocks[i]));
    lemma_list_of_strings(strings);
    let items = Seq::new(strings.len(), |i: int| JsonView::Str(strings[i]));
    lemma_flat_of_contents(items);
    assert forall|i: int| 0 <= i < blocks.len() implies #[trigger] content_texts(blocks[i])
        == content_texts(items[i]) by {
        law_texts_of_a_single_value(blocks[i], strings[i]);
    }
    assert(each =~= Seq::new(items.len(), |i: int| content_texts(items[i])));
    assert(content_texts(JsonView::Array(blocks)) == strings);
    let messages = items_at(body, "messages"@);
    let said = Seq::new(messages.len(), |i: int| optional_texts(messages[i].get("content"@)));
    assert(said =~= seq![strings]);
    seq![strings].lemma_flatten_one_element();
    assert(tool_texts(items_at(body, "tools"@), schema_texts(body)) =~= Seq::empty());
    assert(input_parts(body, schema_texts(body)) =~= strings);
}

/// A request of a single message that is a string, without system prompt and tools, is seen as
/// that string.
pub proof fn law_plain_message_is_seen_as_it_is(body: JsonView, message: JsonView, text: Seq<char>)
    requires
        body.get("system"@) is None,
        body.get("tools"@) is None,
        body.get("messages"@) == Some(JsonView::Array(seq![message])),
        message.get("content"@) == Some(JsonView::Str(text)),
    ensures
        model_input(body) == text,
{
    let messages = items_at(body, "messages"@);
    let said = Seq::new(messages.len(), |i: int| optional_texts(messages[i].get("content"@)));
    assert(said =~= seq![seq![text]]);
    seq![seq![text]].lemma_flatten_one_element();
    assert(tool_texts(items_at(body, "tools"@), schema_texts(body)) =~= Seq::empty());
    assert(input_parts(body, schema_texts(body)) =~= seq![text]);
}

/// A content is seen alike as that of a message, as the system prompt, and as the one item of a
/// list that is the system prompt.
pub proof fn law_place_of_a_content_does_not_matter(
    first: JsonView,
    second: JsonView,
    message: JsonView,
    content: JsonView,
)
    requires
        first.get("system"@) is None,
        first.get("messages"@) == Some(JsonView::Array(seq![message])),
        message.get("content"@) == Some(content),
        second.get("system"@) == Some(content) || second.get("system"@) == Some(
            JsonView::Array(seq![content]),
        ),
        second.get("messages"@) is None,
        first.get("tools"@) == second.get("tools"@),
    ensures
        model_input(first) == model_input(second),
{
    reveal_with_fuel(content_texts, 2);
    lemma_one_item(content);
    let messages = items_at(first, "messages"@);
    let said = Seq::new(messages.len(), |i: int| optional_texts(messages[i].get("content"@)));
    assert(said =~= seq![content_texts(content)]);
    seq![content_texts(content)].lemma_flatten_one_element();
    assert(message_texts(items_at(second, "messages"@)) =~= Seq::empty());
    assert(schema_texts(first) =~= schema_texts(second));
    assert(input_parts(first, schema_texts(first)) =~= input_parts(second, schema_texts(second)));
}

/// What `extract_model_input` gives for a request with a single message, which is a list of text
/// blocks, is what their texts make with single spaces between: so as many characters as they
/// have, and the spaces.
pub proof fn law_extract_keeps_every_character_of_text_blocks(
    body: &Json,
    text: String,
    message: JsonView,
    blocks: Seq<JsonView>,
    strings: Seq<Seq<char>>,
)
    requires
        call_ensures(extract_model_input, (body,), text),
        body@.get("system"@) is None,
        body@.get("tools"@) is None,
        body@.get("messages"@) == Some(JsonView::Array(seq![message])),
        message.get("content"@) == Some(JsonView::Array(blocks)),
        blocks.len() == strings.len(),
        forall|i: int|
            0 <= i < blocks.len() ==> (#[trigger] blocks[i]).get("text"@) == Some(
                JsonView::Str(strings[i]),
            ),
    ensures
        text@ == joined(strings, " "@),
        strings.len() > 0 ==> text@.len() == strings.flatten().len() + strings.len() - 1,
{
    law_text_blocks_are_joined_by_spaces(body@, message, blocks, strings);
    if strings.len() > 0 {
        lemma_joined_length(strings);
    }
}

proof fn lemma_joined_length(strings: Seq<Seq<char>>)
    requires
        strings.len() > 0,
    ensures
        joined(strings, " "@).len() == strings.flatten().len() + strings.len() - 1,
    decreases strings.len(),
{
    reveal_strlit(" ");
    assert(" "@.len() == 1);
    if strings.len() == 1 {
        assert(strings =~= seq![strings[0]]);
        seq![strings[0]].lemma_flatten_one_element();
    } else {
        let head = strings.drop_last();
        lemma_joined_length(head);
        head.lemma_flatten_push(strings.last());
        assert(head.push(strings.last()) =~= strings);
    }
}

} // verus!
