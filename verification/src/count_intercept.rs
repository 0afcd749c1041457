//! Answering the token budget requests of a desktop client without a model.
//!
//! Before a conversation the client sends requests that ask for one token of output and
//! hold a single message, only to learn how many input tokens that takes. They are answered
//! here with an estimate. The same estimate answers a `count_tokens` request where the
//! provider does not support it.

use crate::encode::{
    can_be_read_back, compact_json, encoded, has_plain_keys, is_float_free,
    lemma_float_free_is_encodable, nested_within, raw_value_key, reads_as, to_bytes, READ_DEPTH,
};
use crate::json::{
    entry_views, lemma_array_view, lemma_entry_of, lemma_object_view, views, Json, JsonView,
};
use crate::message_id::{is_random_uuid, message_id, message_id_of, random_uuid};
use crate::model_input::{extract_model_input, model_input};
use crate::text::{
    ascii_lowered, is_blank, law_normal_form_ignores_case, law_trim_ignores_outer_white_space,
    normalized, spells, trimmed,
};
use crate::tokens::{estimate_tokens, token_estimate};
use vstd::prelude::*;
use vstd::utf8::encode_utf8;

verus! {

/// Whether the switch, set to `value`, turns the interception off: by `1`, `true`, `yes` or
/// `on`, in letters of either case and with white space round them.
pub open spec fn turns_off(value: Seq<char>) -> bool {
    let word = ascii_lowered(trimmed(value));
    word == "1"@ || word == "true"@ || word == "yes"@ || word == "on"@
}

/// Whether the interception is off. It is on where the switch is not set.
pub open spec fn intercept_off(switch: Option<Seq<char>>) -> bool {
    match switch {
        Some(value) => turns_off(value),
        None => false,
    }
}

/// What the switch is set to.
pub open spec fn switch_view(switch: Option<&str>) -> Option<Seq<char>> {
    match switch {
        Some(value) => Some(value@),
        None => None,
    }
}

/// Whether the switch turns the interception off. `switch` is what it is set to, if it is.
pub fn count_intercept_disabled(switch: Option<&str>) -> (off: bool)
    ensures
        off == intercept_off(switch_view(switch)),
{
    match switch {
        Some(value) => {
            let word = normalized(value);
            spells(&word, "1") || spells(&word, "true") || spells(&word, "yes") || spells(
                &word,
                "on",
            )
        },
        None => false,
    }
}

/// Whether a request asks for a token count: one token of output, for a single message.
pub open spec fn asks_for_count(body: JsonView) -> bool {
    &&& body.get("max_tokens"@) matches Some(limit) && limit.as_u64() == Some(1u64)
    &&& body.array_at("messages"@) matches Some(messages) && messages.len() == 1
}

/// Whether a request asks for a token count.
pub fn is_count_request(body: &Json) -> (found: bool)
    ensures
        found == asks_for_count(body@),
{
    let one_token = match body.get("max_tokens") {
        Some(limit) => match limit.as_u64() {
            Some(n) => n == 1,
            None => false,
        },
        None => false,
    };
    let one_message = match body.array_at("messages") {
        Some(messages) => messages.len() == 1,
        None => false,
    };
    one_token && one_message
}

/// The model that a request names; empty where it names none.
pub open spec fn model_of(body: JsonView) -> Seq<char> {
    match body.str_at("model"@) {
        Some(model) => model,
        None => Seq::empty(),
    }
}

/// The token usage that a count response reports.
pub open spec fn usage(input_tokens: int) -> JsonView {
    JsonView::Object(
        seq![
            ("input_tokens"@, JsonView::Integer(input_tokens)),
            ("output_tokens"@, JsonView::Integer(0)),
            ("cache_read_input_tokens"@, JsonView::Integer(0)),
            ("cache_creation_input_tokens"@, JsonView::Integer(0)),
        ],
    )
}

/// The message of a count response: a single empty text.
pub open spec fn empty_content() -> JsonView {
    JsonView::Array(
        seq![
            JsonView::Object(
                seq![("type"@, JsonView::Str("text"@)), ("text"@, JsonView::Str(""@))],
            ),
        ],
    )
}

/// The response to a count request: an assistant message without text that reports
/// `input_tokens`.
pub open spec fn count_response(body: JsonView, input_tokens: int, id: Seq<char>) -> JsonView {
    JsonView::Object(
        seq![
            ("id"@, JsonView::Str(id)),
            ("type"@, JsonView::Str("message"@)),
            ("role"@, JsonView::Str("assistant"@)),
            ("model"@, JsonView::Str(model_of(body))),
            ("content"@, empty_content()),
            ("stop_reason"@, JsonView::Str("max_tokens"@)),
            ("usage"@, usage(input_tokens)),
        ],
    )
}

fn usage_json(input_tokens: u64) -> (json: Json)
    ensures
        json@ == usage(input_tokens as int),
{
    let entries: Vec<(String, Json)> = vec![
        ("input_tokens".to_owned(), Json::Unsigned(input_tokens)),
        ("output_tokens".to_owned(), Json::Unsigned(0)),
        ("cache_read_input_tokens".to_owned(), Json::Unsigned(0)),
        ("cache_creation_input_tokens".to_owned(), Json::Unsigned(0)),
    ];
    proof {
        lemma_object_view(entries);
        assert(entry_views(entries@) =~= usage(input_tokens as int)->Object_0);
    }
    Json::Object(entries)
}

fn empty_content_json() -> (json: Json)
    ensures
        json@ == empty_content(),
{
    let entries: Vec<(String, Json)> = vec![
        ("type".to_owned(), Json::Str("text".to_owned())),
        ("text".to_owned(), Json::Str("".to_owned())),
    ];
    let ghost block = empty_content()->Array_0[0];
    proof {
        lemma_object_view(entries);
        assert(entry_views(entries@) =~= block->Object_0);
    }
    let items: Vec<Json> = vec![Json::Object(entries)];
    proof {
        lemma_array_view(items);
        assert(views(items@) =~= empty_content()->Array_0);
    }
    Json::Array(items)
}

/// The response to a count request, under the identifier `id`.
pub fn count_response_with_id(body: &Json, input_tokens: u64, id: &str) -> (json: Json)
    ensures
        json@ == count_response(body@, input_tokens as int, id@),
{
    let model: String = match body.str_at("model") {
        Some(model) => model.to_owned(),
        None => String::new(),
    };
    let entries: Vec<(String, Json)> = vec![
        ("id".to_owned(), Json::Str(id.to_owned())),
        ("type".to_owned(), Json::Str("message".to_owned())),
        ("role".to_owned(), Json::Str("assistant".to_owned())),
        ("model".to_owned(), Json::Str(model)),
        ("content".to_owned(), empty_content_json()),
        ("stop_reason".to_owned(), Json::Str("max_tokens".to_owned())),
        ("usage".to_owned(), usage_json(input_tokens)),
    ];
    proof {
        lemma_object_view(entries);
        assert(entry_views(entries@) =~= count_response(
            body@,
            input_tokens as int,
            id@,
        )->Object_0);
    }
    Json::Object(entries)
}

/// The response to a count request, under a new identifier.
pub fn build_count_response(body: &Json, input_tokens: u64) -> (json: Json)
    ensures
        exists|uuid: Seq<char>|
            is_random_uuid(uuid) && json@ == #[trigger] count_response(
                body@,
                input_tokens as int,
                message_id_of(uuid),
            ),
{
    let uuid = random_uuid();
    let id = message_id(uuid.as_str());
    count_response_with_id(body, input_tokens, id.as_str())
}

/// The response to a `count_tokens` request.
pub open spec fn count_tokens_response(input_tokens: int) -> JsonView {
    JsonView::Object(seq![("input_tokens"@, JsonView::Integer(input_tokens))])
}

/// The response to a `count_tokens` request.
pub fn build_count_tokens_response(input_tokens: u64) -> (json: Json)
    ensures
        json@ == count_tokens_response(input_tokens as int),
{
    let entries: Vec<(String, Json)> = vec![
        ("input_tokens".to_owned(), Json::Unsigned(input_tokens)),
    ];
    proof {
        lemma_object_view(entries);
        assert(entry_views(entries@) =~= count_tokens_response(input_tokens as int)->Object_0);
    }
    Json::Object(entries)
}

/// An HTTP response.
#[derive(Debug, Clone, PartialEq)]
pub struct HttpResponse {
    pub status: u16,
    pub content_type: String,
    pub body: Vec<u8>,
}

/// What an HTTP response says.
pub struct HttpResponseView {
    pub status: int,
    pub content_type: Seq<char>,
    pub body: Seq<u8>,
}

impl View for HttpResponse {
    type V = HttpResponseView;

    open spec fn view(&self) -> HttpResponseView {
        HttpResponseView {
            status: self.status as int,
            content_type: self.content_type@,
            body: self.body@,
        }
    }
}

/// The response that carries a JSON document with these bytes; the empty object where there
/// are none.
pub open spec fn json_response(bytes: Option<Seq<u8>>) -> HttpResponseView {
    HttpResponseView {
        status: 200,
        content_type: "application/json"@,
        body: match bytes {
            Some(b) => b,
            None => seq!['{' as u8, '}' as u8],
        },
    }
}

/// The bytes of a document, where it can be written.
pub open spec fn document_bytes(doc: JsonView) -> Option<Seq<u8>> {
    match encoded(doc) {
        Some(text) => Some(encode_utf8(text)),
        None => None,
    }
}

/// The response that carries a JSON document with these bytes; the empty object where there
/// are none.
pub fn http_response_with_body(bytes: Option<Vec<u8>>) -> (response: HttpResponse)
    ensures
        response@ == json_response(
            match bytes {
                Some(b) => Some(b@),
                None => None,
            },
        ),
{
    let body: Vec<u8> = match bytes {
        Some(b) => b,
        None => vec![0x7B, 0x7D],
    };
    let response = HttpResponse {
        status: 200,
        content_type: "application/json".to_owned(),
        body,
    };
    assert(bytes is None ==> response.body@ =~= seq!['{' as u8, '}' as u8]);
    response
}

/// The response that carries `value`. Its body reads back as `value`.
pub fn build_http_response(value: &Json) -> (response: HttpResponse)
    ensures
        response@ == json_response(document_bytes(value@)),
        can_be_read_back(value@) ==> reads_as(response@.body, value@),
{
    http_response_with_body(to_bytes(value))
}

/// Whether the response carries the document: its body is the text of the document, never
/// another one in its stead, and reads back as the document.
pub open spec fn carries(response: HttpResponseView, doc: JsonView) -> bool {
    &&& response == json_response(Some(encode_utf8(compact_json(doc))))
    &&& reads_as(response.body, doc)
}

/// How many input tokens a request is estimated to take.
pub open spec fn input_tokens(body: JsonView) -> int {
    token_estimate(model_input(body))
}

/// Answers a request that asks for a token count; nothing where it does not ask for one, or
/// where the switch turns the interception off. `switch` is what it is set to, if it is.
pub fn handle_count_intercept(body: &Json, switch: Option<&str>) -> (response: Option<
    HttpResponse,
>)
    ensures
        response is Some <==> !intercept_off(switch_view(switch)) && asks_for_count(body@),
        response matches Some(r) ==> exists|uuid: Seq<char>|
            is_random_uuid(uuid) && carries(
                r@,
                #[trigger] count_response(body@, input_tokens(body@), message_id_of(uuid)),
            ),
{
    if count_intercept_disabled(switch) || !is_count_request(body) {
        return None;
    }
    let text = extract_model_input(body);
    let tokens = estimate_tokens(text.as_str());
    let message = build_count_response(body, tokens);
    proof {
        let uuid = choose|uuid: Seq<char>|
            is_random_uuid(uuid) && message@ == #[trigger] count_response(
                body@,
                tokens as int,
                message_id_of(uuid),
            );
        assert(message@ == count_response(body@, input_tokens(body@), message_id_of(uuid)));
        law_responses_read_back(body@, input_tokens(body@), message_id_of(uuid));
    }
    Some(build_http_response(&message))
}

/// Answers a `count_tokens` request with the estimate, in that request's own format.
pub fn handle_count_tokens_fallback(body: &Json) -> (response: HttpResponse)
    ensures
        carries(response@, count_tokens_response(input_tokens(body@))),
{
    proof {
        law_responses_read_back(body@, input_tokens(body@), Seq::empty());
    }
    let text = extract_model_input(body);
    let tokens = estimate_tokens(text.as_str());
    build_http_response(&build_count_tokens_response(tokens))
}

/// White space round the value of the switch, and the case of its letters, make no difference.
pub proof fn law_switch_ignores_case_and_outer_white_space(
    before: Seq<char>,
    value: Seq<char>,
    after: Seq<char>,
)
    requires
        is_blank(before),
        is_blank(after),
    ensures
        turns_off(before + value + after) == turns_off(value),
        turns_off(ascii_lowered(value)) == turns_off(value),
{
    law_trim_ignores_outer_white_space(before, value, after);
    law_normal_form_ignores_case(value);
}

/// How many messages a request has, where they are an array.
pub open spec fn message_count(body: JsonView) -> Option<nat> {
    match body.array_at("messages"@) {
        Some(messages) => Some(messages.len()),
        None => None,
    }
}

/// The limit on output tokens that a request sets, where it is a whole number.
pub open spec fn output_limit(body: JsonView) -> Option<u64> {
    match body.get("max_tokens"@) {
        Some(limit) => limit.as_u64(),
        None => None,
    }
}

/// Whether a request asks for a count depends on its limit on output tokens and on the number
/// of its messages alone.
pub proof fn law_limit_and_message_count_decide(first: JsonView, second: JsonView)
    requires
        output_limit(first) == output_limit(second),
        message_count(first) == message_count(second),
    ensures
        asks_for_count(first) == asks_for_count(second),
{
}

proof fn lemma_usage_fields(input_tokens: int)
    ensures
        usage(input_tokens).get("input_tokens"@) == Some(JsonView::Integer(input_tokens)),
        usage(input_tokens).get("output_tokens"@) == Some(JsonView::Integer(0)),
        usage(input_tokens).get("cache_read_input_tokens"@) == Some(JsonView::Integer(0)),
        usage(input_tokens).get("cache_creation_input_tokens"@) == Some(JsonView::Integer(0)),
{
    reveal_strlit("input_tokens");
    reveal_strlit("output_tokens");
    reveal_strlit("cache_read_input_tokens");
    reveal_strlit("cache_creation_input_tokens");
    let entries = usage(input_tokens)->Object_0;
    assert("input_tokens"@.len() == 12);
    assert("output_tokens"@.len() == 13);
    assert("cache_read_input_tokens"@.len() == 23);
    assert("cache_creation_input_tokens"@.len() == 27);
    assert(entries[0].0 == "input_tokens"@);
    assert(entries[1].0 == "output_tokens"@);
    assert(entries[2].0 == "cache_read_input_tokens"@);
    assert(entries[3].0 == "cache_creation_input_tokens"@);
    lemma_entry_of(entries, 0);
    lemma_entry_of(entries, 1);
    lemma_entry_of(entries, 2);
    lemma_entry_of(entries, 3);
}

/// A count response is an assistant message that stopped for want of tokens, under the
/// identifier that it was given and from the model that the request names. It reports the
/// input tokens, and no others.
pub proof fn law_count_response_fields(body: JsonView, input_tokens: int, id: Seq<char>)
    ensures
        ({
            let response = count_response(body, input_tokens, id);
            &&& response.str_at("id"@) == Some(id)
            &&& response.str_at("type"@) == Some("message"@)
            &&& response.str_at("role"@) == Some("assistant"@)
            &&& response.str_at("model"@) == Some(model_of(body))
            &&& response.get("content"@) == Some(empty_content())
            &&& response.str_at("stop_reason"@) == Some("max_tokens"@)
            &&& response.get("usage"@) matches Some(report)
            &&& report.get("input_tokens"@) == Some(JsonView::Integer(input_tokens))
            &&& report.get("output_tokens"@) == Some(JsonView::Integer(0))
            &&& report.get("cache_read_input_tokens"@) == Some(JsonView::Integer(0))
            &&& report.get("cache_creation_input_tokens"@) == Some(JsonView::Integer(0))
        }),
{
    lemma_usage_fields(input_tokens);
    reveal_strlit("id");
    reveal_strlit("type");
    reveal_strlit("role");
    reveal_strlit("model");
    reveal_strlit("content");
    reveal_strlit("stop_reason");
    reveal_strlit("usage");
    assert("type"@[0] != "role"@[0]);
    assert("model"@[0] != "usage"@[0]);
    let entries = count_response(body, input_tokens, id)->Object_0;
    assert("id"@.len() == 2);
    assert("type"@.len() == 4);
    assert("role"@.len() == 4);
    assert("model"@.len() == 5);
    assert("content"@.len() == 7);
    assert("stop_reason"@.len() == 11);
    assert("usage"@.len() == 5);
    assert(entries[0].0 == "id"@);
    assert(entries[1].0 == "type"@);
    assert(entries[2].0 == "role"@);
    assert(entries[3].0 == "model"@);
    assert(entries[4].0 == "content"@);
    assert(entries[5].0 == "stop_reason"@);
    assert(entries[6].0 == "usage"@);
    lemma_entry_of(entries, 0);
    lemma_entry_of(entries, 1);
    lemma_entry_of(entries, 2);
    lemma_entry_of(entries, 3);
    lemma_entry_of(entries, 4);
    lemma_entry_of(entries, 5);
    lemma_entry_of(entries, 6);
}

/// The response to a `count_tokens` request reports the input tokens.
pub proof fn law_count_tokens_response_field(input_tokens: int)
    ensures
        count_tokens_response(input_tokens).get("input_tokens"@) == Some(
            JsonView::Integer(input_tokens),
        ),
{
}

/// Both ways of answering report the same number for the same request.
pub proof fn law_both_answers_agree(body: JsonView, id: Seq<char>)
    ensures
        count_response(body, input_tokens(body), id).get("usage"@) matches Some(report)
            && report.get("input_tokens"@) == count_tokens_response(input_tokens(body)).get(
            "input_tokens"@,
        ),
{
    law_count_response_fields(body, input_tokens(body), id);
    law_count_tokens_response_field(input_tokens(body));
}

proof fn lemma_response_keys_are_plain()
    ensures
        "id"@ != raw_value_key(),
        "type"@ != raw_value_key(),
        "role"@ != raw_value_key(),
        "model"@ != raw_value_key(),
        "content"@ != raw_value_key(),
        "stop_reason"@ != raw_value_key(),
        "usage"@ != raw_value_key(),
        "text"@ != raw_value_key(),
        "input_tokens"@ != raw_value_key(),
        "output_tokens"@ != raw_value_key(),
        "cache_read_input_tokens"@ != raw_value_key(),
        "cache_creation_input_tokens"@ != raw_value_key(),
{
    reveal_strlit("$serde_json::private::RawValue");
    reveal_strlit("id");
    reveal_strlit("type");
    reveal_strlit("role");
    reveal_strlit("model");
    reveal_strlit("content");
    reveal_strlit("stop_reason");
    reveal_strlit("usage");
    reveal_strlit("text");
    reveal_strlit("input_tokens");
    reveal_strlit("output_tokens");
    reveal_strlit("cache_read_input_tokens");
    reveal_strlit("cache_creation_input_tokens");
    assert(raw_value_key().len() == 30);
    assert("id"@.len() == 2);
    assert("type"@.len() == 4);
    assert("role"@.len() == 4);
    assert("model"@.len() == 5);
    assert("content"@.len() == 7);
    assert("stop_reason"@.len() == 11);
    assert("usage"@.len() == 5);
    assert("text"@.len() == 4);
    assert("input_tokens"@.len() == 12);
    assert("output_tokens"@.len() == 13);
    assert("cache_read_input_tokens"@.len() == 23);
    assert("cache_creation_input_tokens"@.len() == 27);
}

/// The responses can be written and read back, so their bytes are those of their own text and
/// never of the empty object.
pub proof fn law_responses_read_back(body: JsonView, input_tokens: int, id: Seq<char>)
    ensures
        can_be_read_back(count_response(body, input_tokens, id)),
        can_be_read_back(count_tokens_response(input_tokens)),
        document_bytes(count_response(body, input_tokens, id)) == Some(
            encode_utf8(compact_json(count_response(body, input_tokens, id))),
        ),
        document_bytes(count_tokens_response(input_tokens)) == Some(
            encode_utf8(compact_json(count_tokens_response(input_tokens))),
        ),
{
    reveal_with_fuel(is_float_free, 4);
    reveal_with_fuel(nested_within, 4);
    reveal_with_fuel(has_plain_keys, 4);
    lemma_response_keys_are_plain();
    let depth = READ_DEPTH as int;
    let report = usage(input_tokens);
    let block = empty_content()->Array_0[0];
    assert(is_float_free(report) && nested_within(report, depth - 1) && has_plain_keys(report));
    assert(is_float_free(block) && nested_within(block, depth - 2) && has_plain_keys(block));
    let content = empty_content();
    assert(is_float_free(content) && nested_within(content, depth - 1) && has_plain_keys(content));
    lemma_float_free_is_encodable(count_response(body, input_tokens, id));
    lemma_float_free_is_encodable(count_tokens_response(input_tokens));
}

} // verus!
