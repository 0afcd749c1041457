//! Which requests are answered here, and what the answers say, told from the requests themselves.

use crate::count_intercept::{
    asks_for_count, build_http_response, carries, count_intercept_disabled, count_response,
    handle_count_intercept, handle_count_tokens_fallback, http_response_with_body, input_tokens,
    intercept_off, is_count_request, law_count_response_fields, turns_off, HttpResponse,
};
use crate::encode::{compact_json, encodable, reads_as};
use crate::input_laws::law_plain_message_is_seen_as_it_is;
use crate::json::{Json, JsonView};
use crate::message_id::{is_random_uuid, message_id_of};
use crate::model_input::model_input;
use crate::text::{
    ascii_lowered, is_white_space, law_trim_ignores_outer_white_space, trimmed, trimmed_end,
    trimmed_start,
};
use crate::tokens::{
    cjk_count, is_cjk, is_cjk_char, law_estimate_is_bounded_by_length,
    law_other_text_counts_thirds, token_estimate,
};
use crate::unsupported::is_unsupported;
use vstd::prelude::*;
use vstd::utf8::encode_utf8;

verus! {

proof fn lemma_one_more(text: Seq<char>, c: char)
    ensures
        cjk_count(text.push(c)) == cjk_count(text) + if is_cjk(c) {
            1nat
        } else {
            0nat
        },
        cjk_count(text) <= text.len(),
{
    reveal(Seq::filter);
    assert(text.push(c).drop_last() =~= text);
    text.lemma_filter_len(|d: char| is_cjk(d));
}

/// The empty text takes no token. A further character adds one token to a text where it is of
/// one of six blocks of Unicode: CJK extension A, the CJK unified ideographs, the Japanese kana,
/// the Korean syllables, the CJK compatibility ideographs and the full-width forms.
pub proof fn law_character_of_the_blocks_adds_one_token(text: Seq<char>, c: char)
    ensures
        token_estimate(Seq::empty()) == 0,
        ({
            let code = c as int;
            ||| 13312 <= code <= 19903
            ||| 19968 <= code <= 40959
            ||| 12352 <= code <= 12543
            ||| 44032 <= code <= 55215
            ||| 63744 <= code <= 64255
            ||| 65280 <= code <= 65519
        }) ==> token_estimate(text.push(c)) == token_estimate(text) + 1,
{
    reveal(Seq::filter);
    lemma_one_more(text, c);
}

/// `is_cjk_char` finds the characters of the six blocks, and no others.
pub proof fn law_characters_of_the_blocks_are_found(c: char, found: bool)
    requires
        call_ensures(is_cjk_char, (c,), found),
    ensures
        found <==> ({
            let code = c as int;
            ||| 13312 <= code <= 19903
            ||| 19968 <= code <= 40959
            ||| 12352 <= code <= 12543
            ||| 44032 <= code <= 55215
            ||| 63744 <= code <= 64255
            ||| 65280 <= code <= 65519
        }),
{
}

proof fn lemma_not_cjk(c: char)
    requires
        !(13312 <= c as int <= 19903),
        !(19968 <= c as int <= 40959),
        !(12352 <= c as int <= 12543),
        !(44032 <= c as int <= 55215),
        !(63744 <= c as int <= 64255),
        !(65280 <= c as int <= 65519),
    ensures
        !is_cjk(c),
{
}

/// Characters of no such block add one token for each three of them. One or two of them alone
/// take one token as well.
pub proof fn law_three_other_characters_add_one_token(text: Seq<char>, others: Seq<char>)
    requires
        others.len() == 3,
        forall|i: int|
            0 <= i < 3 ==> ({
                let code = (#[trigger] others[i]) as int;
                &&& !(13312 <= code <= 19903)
                &&& !(19968 <= code <= 40959)
                &&& !(12352 <= code <= 12543)
                &&& !(44032 <= code <= 55215)
                &&& !(63744 <= code <= 64255)
                &&& !(65280 <= code <= 65519)
            }),
    ensures
        token_estimate(text + others) == token_estimate(text) + 1,
        token_estimate(others.take(1)) == 1,
        token_estimate(others.take(2)) == 1,
        token_estimate(text) <= token_estimate(text.push(others[0])) <= token_estimate(text) + 1,
{
    reveal(Seq::filter);
    lemma_not_cjk(others[0]);
    lemma_not_cjk(others[1]);
    lemma_not_cjk(others[2]);
    let one = text.push(others[0]);
    let two = one.push(others[1]);
    lemma_one_more(text, others[0]);
    lemma_one_more(one, others[1]);
    lemma_one_more(two, others[2]);
    assert(text + others =~= two.push(others[2]));
    let none = Seq::<char>::empty();
    lemma_one_more(none, others[0]);
    lemma_one_more(none.push(others[0]), others[1]);
    assert(none.push(others[0]) =~= others.take(1));
    assert(none.push(others[0]).push(others[1]) =~= others.take(2));
}

/// A request asks for a count exactly where its value under `max_tokens` is the number one and
/// its value under `messages` is a list of one.
pub proof fn law_one_token_for_one_message_asks_for_a_count(body: JsonView)
    ensures
        asks_for_count(body) <==> body.get("max_tokens"@) == Some(JsonView::Integer(1)) && (
        body.get("messages"@) matches Some(JsonView::Array(messages)) && messages.len() == 1),
{
}

/// `is_count_request` finds a request whose value under `max_tokens` is the number one and whose
/// value under `messages` is a list of one, and no other request.
pub proof fn law_count_requests_are_found(body: &Json, found: bool)
    requires
        call_ensures(is_count_request, (body,), found),
    ensures
        found <==> body@.get("max_tokens"@) == Some(JsonView::Integer(1)) && (body@.get(
            "messages"@,
        ) matches Some(JsonView::Array(messages)) && messages.len() == 1),
{
}

/// Whether the characters are those of `small`, each in the case of `small` or of `capital`.
pub open spec fn spelled(word: Seq<char>, small: Seq<char>, capital: Seq<char>) -> bool {
    &&& word.len() == small.len()
    &&& forall|i: int|
        0 <= i < word.len() ==> #[trigger] word[i] == small[i] || word[i] == capital[i]
}

/// Whether the word is one of the four that turn the interception off.
pub open spec fn is_off_word(word: Seq<char>) -> bool {
    ||| word == seq!['1']
    ||| spelled(word, seq!['t', 'r', 'u', 'e'], seq!['T', 'R', 'U', 'E'])
    ||| spelled(word, seq!['y', 'e', 's'], seq!['Y', 'E', 'S'])
    ||| spelled(word, seq!['o', 'n'], seq!['O', 'N'])
}

proof fn lemma_off_words(word: Seq<char>)
    ensures
        ({
            let lowered = ascii_lowered(word);
            lowered == "1"@ || lowered == "true"@ || lowered == "yes"@ || lowered == "on"@
        }) <==> is_off_word(word),
{
    reveal_strlit("1");
    reveal_strlit("true");
    reveal_strlit("yes");
    reveal_strlit("on");
    let lowered = ascii_lowered(word);
    assert("1"@ =~= seq!['1']);
    assert("true"@ =~= seq!['t', 'r', 'u', 'e']);
    assert("yes"@ =~= seq!['y', 'e', 's']);
    assert("on"@ =~= seq!['o', 'n']);
    if lowered == "1"@ {
        assert(lowered[0] == '1');
        assert(word =~= seq!['1']);
    }
    if word == seq!['1'] {
        assert(lowered =~= "1"@);
    }
    lemma_spelled(word, seq!['t', 'r', 'u', 'e'], seq!['T', 'R', 'U', 'E']);
    lemma_spelled(word, seq!['y', 'e', 's'], seq!['Y', 'E', 'S']);
    lemma_spelled(word, seq!['o', 'n'], seq!['O', 'N']);
}

proof fn lemma_spelled(word: Seq<char>, small: Seq<char>, capital: Seq<char>)
    requires
        small.len() == capital.len(),
        forall|i: int|
            0 <= i < small.len() ==> 'a' <= #[trigger] small[i] <= 'z' && capital[i] as int
                == small[i] as int - 32,
    ensures
        ascii_lowered(word) == small <==> spelled(word, small, capital),
{
    let lowered = ascii_lowered(word);
    if lowered == small {
        assert forall|i: int| 0 <= i < word.len() implies #[trigger] word[i] == small[i] || word[i]
            == capital[i] by {
            assert(lowered[i] == small[i]);
            if 'A' <= word[i] <= 'Z' {
                assert(word[i] as int == capital[i] as int);
            }
        }
    }
    if spelled(word, small, capital) {
        assert forall|i: int| 0 <= i < word.len() implies lowered[i] == small[i] by {
            assert(word[i] == small[i] || word[i] == capital[i]);
            assert('a' <= small[i] <= 'z');
        }
        assert(lowered =~= small);
    }
}

proof fn lemma_trimmed_is_inside(value: Seq<char>) -> (cut: (int, int))
    ensures
        0 <= cut.0 <= cut.1 <= value.len(),
        trimmed(value) == value.subrange(cut.0, cut.1),
        forall|i: int| 0 <= i < cut.0 ==> is_white_space(#[trigger] value[i]),
        forall|i: int| cut.1 <= i < value.len() ==> is_white_space(#[trigger] value[i]),
{
    let start = lemma_start(value);
    let rest = value.skip(start);
    let end = lemma_end(rest);
    assert(rest.take(end) =~= value.subrange(start, start + end));
    assert forall|i: int| start + end <= i < value.len() implies is_white_space(
        #[trigger] value[i],
    ) by {
        assert(is_white_space(rest[i - start]));
    }
    (start, start + end)
}

proof fn lemma_start(value: Seq<char>) -> (start: int)
    ensures
        0 <= start <= value.len(),
        trimmed_start(value) == value.skip(start),
        forall|i: int| 0 <= i < start ==> is_white_space(#[trigger] value[i]),
    decreases value.len(),
{
    if value.len() > 0 && is_white_space(value[0]) {
        let rest = value.drop_first();
        let start = lemma_start(rest);
        assert(rest.skip(start) =~= value.skip(start + 1));
        assert forall|i: int| 0 <= i < start + 1 implies is_white_space(#[trigger] value[i]) by {
            if i > 0 {
                assert(is_white_space(rest[i - 1]));
            }
        }
        start + 1
    } else {
        assert(value.skip(0) =~= value);
        0
    }
}

proof fn lemma_end(value: Seq<char>) -> (end: int)
    ensures
        0 <= end <= value.len(),
        trimmed_end(value) == value.take(end),
        forall|i: int| end <= i < value.len() ==> is_white_space(#[trigger] value[i]),
    decreases value.len(),
{
    if value.len() > 0 && is_white_space(value.last()) {
        let rest = value.drop_last();
        let end = lemma_end(rest);
        assert(rest.take(end) =~= value.take(end));
        assert forall|i: int| end <= i < value.len() implies is_white_space(
            #[trigger] value[i],
        ) by {
            if i < rest.len() {
                assert(is_white_space(rest[i]));
            }
        }
        end
    } else {
        assert(value.take(value.len() as int) =~= value);
        value.len() as int
    }
}

/// The switch turns the interception off exactly where it is set to one of the four words, in
/// letters of either case, with nothing but white space round it.
pub proof fn law_four_words_turn_the_interception_off(value: Seq<char>)
    ensures
        turns_off(value) <==> exists|before: Seq<char>, word: Seq<char>, after: Seq<char>|
            value == #[trigger] (before + word + after) && is_off_word(word) && (forall|i: int|
                0 <= i < before.len() ==> is_white_space(#[trigger] before[i])) && (forall|i: int|
                0 <= i < after.len() ==> is_white_space(#[trigger] after[i])),
        intercept_off(Some(value)) == turns_off(value),
        !intercept_off(None),
{
    if turns_off(value) {
        let (start, end) = lemma_trimmed_is_inside(value);
        let before = value.take(start);
        let word = value.subrange(start, end);
        let after = value.skip(end);
        lemma_off_words(word);
        assert(value =~= before + word + after);
    }
    if exists|before: Seq<char>, word: Seq<char>, after: Seq<char>|
        value == #[trigger] (before + word + after) && is_off_word(word) && (forall|i: int|
            0 <= i < before.len() ==> is_white_space(#[trigger] before[i])) && (forall|i: int|
            0 <= i < after.len() ==> is_white_space(#[trigger] after[i])) {
        let (before, word, after) = choose|before: Seq<char>, word: Seq<char>, after: Seq<char>|
            value == #[trigger] (before + word + after) && is_off_word(word) && (forall|i: int|
                0 <= i < before.len() ==> is_white_space(#[trigger] before[i])) && (forall|i: int|
                0 <= i < after.len() ==> is_white_space(#[trigger] after[i]));
        law_trim_ignores_outer_white_space(before, word, after);
        assert(!is_white_space(word[0]) && !is_white_space(word.last()));
        lemma_off_words(word);
    }
}

/// A set switch is heard by what it is set to, and one that is not set leaves the interception
/// on.
pub proof fn law_switch_is_heard(switch: Option<&str>, off: bool)
    requires
        call_ensures(count_intercept_disabled, (switch,), off),
    ensures
        switch is None ==> !off,
        switch matches Some(value) ==> off == turns_off(value@),
{
}

/// The number that a request is estimated to take is the estimate of the text that the model
/// sees: no more than this has characters, no less than a third of them, and zero for a request
/// without text alone.
pub proof fn law_estimate_is_that_of_the_whole_text(body: JsonView)
    ensures
        input_tokens(body) == token_estimate(model_input(body)),
        input_tokens(body) <= model_input(body).len() <= 3 * input_tokens(body),
        input_tokens(body) == 0 <==> model_input(body).len() == 0,
{
    law_estimate_is_bounded_by_length(model_input(body));
}

/// Whatever the request, the answer to a `count_tokens` request carries an object with nothing
/// but the estimate of the text that the model sees, under `input_tokens`.
pub proof fn law_fallback_reports_the_whole_estimate(body: &Json, response: HttpResponse)
    requires
        call_ensures(handle_count_tokens_fallback, (body,), response),
    ensures
        response.status == 200,
        response.content_type@ == "application/json"@,
        ({
            let doc = JsonView::Object(
                seq![("input_tokens"@, JsonView::Integer(token_estimate(model_input(body@))))],
            );
            &&& response.body@ == encode_utf8(compact_json(doc))
            &&& reads_as(response.body@, doc)
        }),
{
}

/// The answer to a `count_tokens` request for a single message of ASCII characters reports a third
/// of their number, rounded up, however many they are.
pub proof fn law_fallback_reports_thirds_of_a_plain_message(
    body: &Json,
    response: HttpResponse,
    message: JsonView,
    text: Seq<char>,
)
    requires
        call_ensures(handle_count_tokens_fallback, (body,), response),
        body@.get("system"@) is None,
        body@.get("tools"@) is None,
        body@.get("messages"@) == Some(JsonView::Array(seq![message])),
        message.get("content"@) == Some(JsonView::Str(text)),
        forall|i: int| 0 <= i < text.len() ==> (#[trigger] text[i] as int) < 128,
    ensures
        ({
            let thirds = ((text.len() + 2) / 3) as int;
            let doc = JsonView::Object(seq![("input_tokens"@, JsonView::Integer(thirds))]);
            &&& response.body@ == encode_utf8(compact_json(doc))
            &&& reads_as(response.body@, doc)
        }),
{
    law_plain_message_is_seen_as_it_is(body@, message, text);
    assert forall|i: int| 0 <= i < text.len() implies !is_cjk(#[trigger] text[i]) by {
        lemma_not_cjk(text[i]);
    }
    law_other_text_counts_thirds(text);
}

/// A request is answered here exactly where it asks for one token for one message and the switch
/// does not turn the interception off. The answer then carries a message that reports the
/// estimate of the text that the model sees.
pub proof fn law_interception_answers_count_requests_alone(
    body: &Json,
    switch: Option<&str>,
    response: Option<HttpResponse>,
)
    requires
        call_ensures(handle_count_intercept, (body, switch), response),
    ensures
        response is Some <==> body@.get("max_tokens"@) == Some(JsonView::Integer(1)) && (body@.get(
            "messages"@,
        ) matches Some(JsonView::Array(messages)) && messages.len() == 1) && (switch matches Some(
            value,
        ) ==> !turns_off(value@)),
        response matches Some(r) ==> r.status == 200 && r.content_type@ == "application/json"@
            && exists|uuid: Seq<char>, doc: JsonView|
            {
                &&& is_random_uuid(uuid)
                &&& #[trigger] reads_as(r.body@, doc)
                &&& r.body@ == encode_utf8(compact_json(doc))
                &&& doc == #[trigger] count_response(
                    body@,
                    token_estimate(model_input(body@)),
                    "msg_"@ + uuid,
                )
            },
{
    if response is Some {
        let r = response->0;
        let uuid = choose|uuid: Seq<char>|
            is_random_uuid(uuid) && carries(
                r@,
                #[trigger] count_response(body@, input_tokens(body@), message_id_of(uuid)),
            );
        let doc = count_response(body@, input_tokens(body@), message_id_of(uuid));
        assert(doc == count_response(body@, token_estimate(model_input(body@)), "msg_"@ + uuid));
        assert(reads_as(r.body@, doc));
    }
}

/// A count response is an object of seven entries: the identifier, a message of the assistant,
/// from the model that the request names, with one empty text, that stopped for want of tokens,
/// and a usage of four entries, of which only the input tokens are not zero.
pub proof fn law_count_response_says_no_more(
    body: JsonView,
    tokens: int,
    id: Seq<char>,
    model: Seq<char>,
)
    ensures
        ({
            let response = count_response(body, tokens, id);
            &&& response is Object
            &&& response->Object_0.len() == 7
            &&& response.get("id"@) == Some(JsonView::Str(id))
            &&& response.get("type"@) == Some(JsonView::Str("message"@))
            &&& response.get("role"@) == Some(JsonView::Str("assistant"@))
            &&& body.get("model"@) == Some(JsonView::Str(model)) ==> response.get("model"@) == Some(
                JsonView::Str(model),
            )
            &&& !(body.get("model"@) matches Some(JsonView::Str(_))) ==> response.get("model"@)
                == Some(JsonView::Str(Seq::empty()))
            &&& response.get("stop_reason"@) == Some(JsonView::Str("max_tokens"@))
            &&& response.get("content"@) == Some(
                JsonView::Array(
                    seq![
                        JsonView::Object(
                            seq![
                                ("type"@, JsonView::Str("text"@)),
                                ("text"@, JsonView::Str(Seq::empty())),
                            ],
                        ),
                    ],
                ),
            )
            &&& response.get("usage"@) matches Some(report)
            &&& report is Object
            &&& report->Object_0.len() == 4
            &&& report.get("input_tokens"@) == Some(JsonView::Integer(tokens))
            &&& report.get("output_tokens"@) == Some(JsonView::Integer(0))
            &&& report.get("cache_read_input_tokens"@) == Some(JsonView::Integer(0))
            &&& report.get("cache_creation_input_tokens"@) == Some(JsonView::Integer(0))
        }),
{
    law_count_response_fields(body, tokens, id);
    reveal_strlit("");
    assert(""@ =~= Seq::<char>::empty());
}

/// The identifier of a message is `msg_` and then what was drawn: thirty-two hexadecimal digits
/// with small letters, where it was a UUID.
pub proof fn law_message_identifier_has_its_prefix(uuid: Seq<char>)
    ensures
        message_id_of(uuid).len() == uuid.len() + 4,
        message_id_of(uuid).take(4) == seq!['m', 's', 'g', '_'],
        message_id_of(uuid).skip(4) == uuid,
        is_random_uuid(uuid) ==> message_id_of(uuid).len() == 36 && forall|i: int|
            4 <= i < 36 ==> '0' <= #[trigger] message_id_of(uuid)[i] <= '9' || 'a'
                <= message_id_of(uuid)[i] <= 'f',
{
    reveal_strlit("msg_");
    assert("msg_"@ =~= seq!['m', 's', 'g', '_']);
    assert(message_id_of(uuid).take(4) =~= seq!['m', 's', 'g', '_']);
    assert(message_id_of(uuid).skip(4) =~= uuid);
}

/// A response succeeds, is of type JSON, and has the bytes that it is given. Without bytes its
/// body is an opening and a closing brace.
pub proof fn law_response_has_the_bytes_that_it_is_given(
    bytes: Option<Vec<u8>>,
    response: HttpResponse,
)
    requires
        call_ensures(http_response_with_body, (bytes,), response),
    ensures
        response.status == 200,
        response.content_type@ == "application/json"@,
        bytes matches Some(given) ==> response.body@ == given@,
        bytes is None ==> response.body@ == seq![123u8, 125u8],
{
}

/// The response for a value has the bytes of the text that `serde_json` writes for it, where it
/// can be written, and those of the empty object otherwise.
pub proof fn law_response_has_the_text_of_its_value(value: &Json, response: HttpResponse)
    requires
        call_ensures(build_http_response, (value,), response),
    ensures
        response.status == 200,
        response.content_type@ == "application/json"@,
        encodable(value@) ==> response.body@ == encode_utf8(compact_json(value@)),
        !encodable(value@) ==> response.body@ == seq![123u8, 125u8],
{
}

/// A mark counts for three hundred seconds, whatever was marked before. A provider that was
/// never marked does not count as one without support.
pub proof fn law_mark_counts_for_three_hundred_seconds(
    marks: Map<Seq<char>, u128>,
    provider: Seq<char>,
    marked: u128,
    now: u128,
)
    ensures
        is_unsupported(marks.insert(provider, marked), provider, now) <==> now - marked
            < 300 * 1_000_000_000,
        !marks.contains_key(provider) ==> !is_unsupported(marks, provider, now),
        marks.contains_key(provider) ==> (is_unsupported(marks, provider, now) <==> now
            - marks[provider] < 300 * 1_000_000_000),
{
}

} // verus!
