use vstd::prelude::*;

use crate::json::{
    array_field, field, field_or_null, is_json_text, jstr, key_position,
    lemma_member_read_after_write, lemma_member_written_twice, lemma_write_back_unchanged, lookup,
    object2, object3, object4, parses_as_json, push_member, push_value, str_field, str_field_or,
    str_or, views, with_member, Json, JsonV,
};
use crate::provider::openai::OpenAiProvider;
use crate::text::{concat, concat_strings, string_views};

verus! {

/// A provider that is spoken to in Anthropic's message format: requests are
/// turned into OpenAI's format and sent to an OpenAI-compatible backend, and
/// the tool calls of its replies are turned back into Anthropic content
/// blocks.
pub struct AnthropicProvider {
    backend: OpenAiProvider,
}

/// A chat message with a role and a text content.
pub open spec fn chat_message(role: Seq<char>, content: Seq<char>) -> JsonV {
    JsonV::Object(seq![("role"@, jstr(role)), ("content"@, jstr(content))])
}

/// The text of a content block of type `text`.
pub open spec fn block_text(b: JsonV) -> Option<Seq<char>> {
    if str_field(b, "type"@) == Some("text"@) {
        str_field(b, "text"@)
    } else {
        None
    }
}

/// The OpenAI tool call for a content block of type `tool_use`: its id, its
/// name, and its input written out as JSON text.
pub open spec fn block_tool_call(b: JsonV) -> Option<JsonV> {
    if str_field(b, "type"@) == Some("tool_use"@) {
        Some(
            JsonV::Object(
                seq![
                    ("id"@, jstr(str_field_or(b, "id"@, ""@))),
                    ("type"@, jstr("function"@)),
                    ("function"@, JsonV::Object(
                        seq![
                            ("name"@, jstr(str_field_or(b, "name"@, ""@))),
                            ("arguments"@, JsonV::Encoded(Box::new(field_or_null(b, "input"@)))),
                        ],
                    )),
                ],
            ),
        )
    } else {
        None
    }
}

/// The OpenAI tool message for a content block of type `tool_result`.
pub open spec fn block_tool_result(b: JsonV) -> Option<JsonV> {
    if str_field(b, "type"@) == Some("tool_result"@) {
        Some(
            JsonV::Object(
                seq![
                    ("role"@, jstr("tool"@)),
                    ("tool_call_id"@, jstr(str_field_or(b, "tool_use_id"@, ""@))),
                    ("content"@, jstr(str_field_or(b, "content"@, ""@))),
                ],
            ),
        )
    } else {
        None
    }
}

/// The texts of the text blocks, in order.
pub open spec fn block_texts(blocks: Seq<JsonV>) -> Seq<Seq<char>>
    decreases blocks.len(),
{
    if blocks.len() == 0 {
        Seq::empty()
    } else {
        let r = block_texts(blocks.drop_last());
        match block_text(blocks.last()) {
            Some(t) => r.push(t),
            None => r,
        }
    }
}

/// The tool calls of the tool-use blocks, in order.
pub open spec fn block_tool_calls(blocks: Seq<JsonV>) -> Seq<JsonV>
    decreases blocks.len(),
{
    if blocks.len() == 0 {
        Seq::empty()
    } else {
        let r = block_tool_calls(blocks.drop_last());
        match block_tool_call(blocks.last()) {
            Some(t) => r.push(t),
            None => r,
        }
    }
}

/// The tool messages of the tool-result blocks, in order.
pub open spec fn block_tool_results(blocks: Seq<JsonV>) -> Seq<JsonV>
    decreases blocks.len(),
{
    if blocks.len() == 0 {
        Seq::empty()
    } else {
        let r = block_tool_results(blocks.drop_last());
        match block_tool_result(blocks.last()) {
            Some(t) => r.push(t),
            None => r,
        }
    }
}

/// The assistant message that carries tool calls, with the joined texts as
/// its content where there are any.
pub open spec fn tool_call_message(role: Seq<char>, texts: Seq<Seq<char>>, calls: Seq<JsonV>) -> JsonV {
    JsonV::Object(
        seq![("role"@, jstr(role))] + (if texts.len() > 0 {
            seq![("content"@, jstr(concat(texts)))]
        } else {
            Seq::empty()
        }) + seq![("tool_calls"@, JsonV::Array(calls))],
    )
}

/// The OpenAI messages for a message whose content is a list of blocks: a
/// tool message for each tool result, then one message with the tool calls
/// (and the joined texts), or, without tool calls, one with the joined texts
/// where there are any.
pub open spec fn block_messages(role: Seq<char>, blocks: Seq<JsonV>) -> Seq<JsonV> {
    let texts = block_texts(blocks);
    let calls = block_tool_calls(blocks);
    block_tool_results(blocks) + if calls.len() > 0 {
        seq![tool_call_message(role, texts, calls)]
    } else if texts.len() > 0 {
        seq![chat_message(role, concat(texts))]
    } else {
        Seq::empty()
    }
}

/// The OpenAI messages for one Anthropic message (role `user` where it has
/// none that is a string).
pub open spec fn translated_message(msg: JsonV) -> Seq<JsonV> {
    let role = str_field_or(msg, "role"@, "user"@);
    match field(msg, "content"@) {
        Some(JsonV::Str(s)) => seq![chat_message(role, s)],
        Some(JsonV::Array(blocks)) => block_messages(role, blocks),
        _ => seq![chat_message(role, ""@)],
    }
}

/// The OpenAI messages for a list of Anthropic messages, in order.
pub open spec fn translated_messages(msgs: Seq<JsonV>) -> Seq<JsonV>
    decreases msgs.len(),
{
    if msgs.len() == 0 {
        Seq::empty()
    } else {
        translated_messages(msgs.drop_last()) + translated_message(msgs.last())
    }
}

/// The system message for a request with a string `system` member.
pub open spec fn system_messages(req: JsonV) -> Seq<JsonV> {
    match str_field(req, "system"@) {
        Some(s) => seq![chat_message("system"@, s)],
        None => Seq::empty(),
    }
}

/// Member `key` of `req`, kept where it is there.
pub open spec fn kept(req: JsonV, key: Seq<char>) -> Seq<(Seq<char>, JsonV)> {
    match field(req, key) {
        Some(v) => seq![(key, v)],
        None => Seq::empty(),
    }
}

/// All the OpenAI messages of an Anthropic request.
pub open spec fn request_messages(req: JsonV) -> Seq<JsonV> {
    system_messages(req) + match array_field(req, "messages"@) {
        Some(msgs) => translated_messages(msgs),
        None => Seq::empty(),
    }
}

/// The OpenAI request for an Anthropic request: its model, its messages,
/// and its `max_tokens`, `temperature` and `tools` as they are.
pub open spec fn openai_request(req: JsonV) -> JsonV {
    JsonV::Object(
        kept(req, "model"@) + seq![("messages"@, JsonV::Array(request_messages(req)))] + kept(
            req,
            "max_tokens"@,
        ) + kept(req, "temperature"@) + kept(req, "tools"@),
    )
}

/// A chat message with a role and a text content.
fn chat_message_json(role: &str, content: &str) -> (r: Json)
    ensures
        r@ == chat_message(role@, content@),
{
    object2("role", Json::string(role), "content", Json::string(content))
}

/// Whether `b` has a `type` member that is the string `t`.
fn has_type(b: &Json, t: &str) -> (r: bool)
    ensures
        r == (str_field(b@, "type"@) == Some(t@)),
{
    match b.get("type") {
        Some(x) => match x.as_str() {
            Some(s) => *s == t.to_owned(),
            None => false,
        },
        None => false,
    }
}

fn block_text_of(b: &Json) -> (r: Option<String>)
    ensures
        match r {
            Some(t) => block_text(b@) == Some(t@),
            None => block_text(b@) is None,
        },
{
    if has_type(b, "text") {
        match b.get("text") {
            Some(x) => match x.as_str() {
                Some(s) => Some(s.clone()),
                None => None,
            },
            None => None,
        }
    } else {
        None
    }
}

fn tool_call_of(b: &Json) -> (r: Option<Json>)
    ensures
        match r {
            Some(t) => block_tool_call(b@) == Some(t@),
            None => block_tool_call(b@) is None,
        },
{
    if has_type(b, "tool_use") {
        let id = str_or(b, "id", "");
        let name = str_or(b, "name", "");
        let input = match b.get("input") {
            Some(x) => x.deep_clone(),
            None => Json::Null,
        };
        let function = object2(
            "name",
            Json::Str(name),
            "arguments",
            Json::Encoded(Box::new(input)),
        );
        Some(object3("id", Json::Str(id), "type", Json::string("function"), "function", function))
    } else {
        None
    }
}

fn tool_result_of(b: &Json) -> (r: Option<Json>)
    ensures
        match r {
            Some(t) => block_tool_result(b@) == Some(t@),
            None => block_tool_result(b@) is None,
        },
{
    if has_type(b, "tool_result") {
        let id = str_or(b, "tool_use_id", "");
        let content = str_or(b, "content", "");
        Some(
            object3(
                "role",
                Json::string("tool"),
                "tool_call_id",
                Json::Str(id),
                "content",
                Json::Str(content),
            ),
        )
    } else {
        None
    }
}

/// Appends to `out` the OpenAI messages for a message with role `role` whose
/// content is the list of blocks `blocks`.
fn push_block_messages(role: &str, blocks: &Vec<Json>, out: &mut Vec<Json>)
    ensures
        views(final(out)@) == views(old(out)@) + block_messages(role@, views(blocks@)),
{
    let ghost bv = views(blocks@);
    proof {
        crate::json::lemma_views(blocks@);
    }
    let mut texts: Vec<String> = Vec::new();
    let mut calls: Vec<Json> = Vec::new();
    let mut i: usize = 0;
    assert(string_views(texts@) =~= Seq::empty());
    assert(views(calls@) =~= Seq::empty());
    assert(views(out@) =~= views(old(out)@) + Seq::empty());
    while i < blocks.len()
        invariant
            bv == views(blocks@),
            bv.len() == blocks.len(),
            forall|k: int| 0 <= k < blocks.len() ==> #[trigger] bv[k] == blocks@[k]@,
            i <= blocks.len(),
            string_views(texts@) == block_texts(bv.subrange(0, i as int)),
            views(calls@) == block_tool_calls(bv.subrange(0, i as int)),
            views(out@) == views(old(out)@) + block_tool_results(bv.subrange(0, i as int)),
        decreases blocks.len() - i,
    {
        let ghost prefix = bv.subrange(0, i + 1);
        assert(prefix.drop_last() =~= bv.subrange(0, i as int));
        assert(prefix.last() == blocks@[i as int]@);
        let b = &blocks[i];
        match block_text_of(b) {
            Some(t) => {
                let ghost before = texts@;
                texts.push(t);
                assert(string_views(texts@) =~= string_views(before).push(t@));
            },
            None => {},
        }
        match tool_call_of(b) {
            Some(c) => {
                push_value(&mut calls, c);
            },
            None => {},
        }
        match tool_result_of(b) {
            Some(m) => {
                let ghost before = views(out@);
                push_value(out, m);
                assert(views(out@) =~= views(old(out)@) + block_tool_results(prefix));
            },
            None => {},
        }
        i = i + 1;
    }
    assert(bv.subrange(0, i as int) =~= bv);
    if calls.len() > 0 {
        let mut m: Vec<(String, Json)> = Vec::new();
        assert(crate::json::member_views(m@) =~= Seq::empty());
        push_member(&mut m, "role", Json::string(role));
        if texts.len() > 0 {
            let joined = concat_strings(&texts);
            push_member(&mut m, "content", Json::Str(joined));
        }
        proof {
            crate::json::lemma_views(calls@);
        }
        let ghost calls_view = views(calls@);
        let arr = Json::Array(calls);
        assert(arr@ == JsonV::Array(calls_view));
        push_member(&mut m, "tool_calls", arr);
        let msg = Json::Object(m);
        let ghost texts_view = string_views(texts@);
        assert(msg@->Object_0 =~= tool_call_message(role@, texts_view, calls_view)->Object_0);
        let ghost before = views(out@);
        push_value(out, msg);
        assert(views(out@) =~= views(old(out)@) + block_messages(role@, bv));
    } else if texts.len() > 0 {
        let joined = concat_strings(&texts);
        let msg = chat_message_json(role, joined.as_str());
        push_value(out, msg);
        assert(views(out@) =~= views(old(out)@) + block_messages(role@, bv));
    } else {
        assert(views(out@) =~= views(old(out)@) + block_messages(role@, bv));
    }
}

/// Appends to `out` the OpenAI messages for the Anthropic message `msg`.
fn push_translated_message(msg: &Json, out: &mut Vec<Json>)
    ensures
        views(final(out)@) == views(old(out)@) + translated_message(msg@),
{
    let role = str_or(msg, "role", "user");
    match msg.get("content") {
        Some(Json::Str(s)) => {
            push_value(out, chat_message_json(role.as_str(), s.as_str()));
            assert(views(out@) =~= views(old(out)@) + translated_message(msg@));
        },
        Some(Json::Array(blocks)) => {
            proof {
                crate::json::lemma_views(blocks@);
            }
            push_block_messages(role.as_str(), blocks, out);
        },
        _ => {
            push_value(out, chat_message_json(role.as_str(), ""));
            assert(views(out@) =~= views(old(out)@) + translated_message(msg@));
        },
    }
}

/// The input of a tool-use block made from a tool call whose arguments are
/// the text `arguments`: the value written as that text where it parses
/// (`parses`), and null where it does not.
pub open spec fn tool_input_value(arguments: Seq<char>, parses: bool) -> JsonV {
    if parses {
        JsonV::Decoded(arguments)
    } else {
        JsonV::Null
    }
}

/// The input of a tool-use block for a tool call whose function is `func`:
/// read from the function's arguments, which are JSON text.  Arguments
/// given as text are parsed (null where they do not parse); arguments that
/// are the JSON text of a value (as [`AnthropicProvider::translate_request`]
/// writes them) give that value; without arguments the input is the empty
/// object, the value of the text `{}`.
pub open spec fn tool_input_of(func: JsonV) -> JsonV {
    match field(func, "arguments"@) {
        Some(JsonV::Encoded(v)) => *v,
        Some(JsonV::Str(t)) => tool_input_value(t, parses_as_json(t)),
        _ => JsonV::Object(Seq::empty()),
    }
}

/// The Anthropic tool-use block for an OpenAI tool call.
pub open spec fn tool_use_block(tc: JsonV) -> JsonV {
    let func = field_or_null(tc, "function"@);
    JsonV::Object(
        seq![
            ("type"@, jstr("tool_use"@)),
            ("id"@, jstr(str_field_or(tc, "id"@, ""@))),
            ("name"@, jstr(str_field_or(func, "name"@, ""@))),
            ("input"@, tool_input_of(func)),
        ],
    )
}

/// The tool-use blocks for a list of tool calls, in order.
pub open spec fn tool_use_blocks(tcs: Seq<JsonV>) -> Seq<JsonV>
    decreases tcs.len(),
{
    if tcs.len() == 0 {
        Seq::empty()
    } else {
        tool_use_blocks(tcs.drop_last()).push(tool_use_block(tcs.last()))
    }
}

/// The text block for a message whose content is a non-empty string.
pub open spec fn text_blocks(msg: JsonV) -> Seq<JsonV> {
    match str_field(msg, "content"@) {
        Some(t) => if t.len() > 0 {
            seq![JsonV::Object(seq![("type"@, jstr("text"@)), ("text"@, jstr(t))])]
        } else {
            Seq::empty()
        },
        None => Seq::empty(),
    }
}

/// A reply message with its tool calls also given as Anthropic content
/// blocks, in member `anthropic_content`; a message without a list of tool
/// calls stays as it is.
pub open spec fn anthropic_message(msg: JsonV) -> JsonV {
    match array_field(msg, "tool_calls"@) {
        Some(tcs) => with_member(
            msg,
            "anthropic_content"@,
            JsonV::Array(text_blocks(msg) + tool_use_blocks(tcs)),
        ),
        None => msg,
    }
}

/// A reply choice with its message translated.
pub open spec fn anthropic_choice(c: JsonV) -> JsonV {
    match field(c, "message"@) {
        Some(m) => with_member(c, "message"@, anthropic_message(m)),
        None => c,
    }
}

/// A list of reply choices, each translated.
pub open spec fn anthropic_choices(cs: Seq<JsonV>) -> Seq<JsonV>
    decreases cs.len(),
{
    if cs.len() == 0 {
        Seq::empty()
    } else {
        anthropic_choices(cs.drop_last()).push(anthropic_choice(cs.last()))
    }
}

/// An OpenAI reply with the messages of its choices translated.
pub open spec fn anthropic_response(r: JsonV) -> JsonV {
    match array_field(r, "choices"@) {
        Some(cs) => with_member(r, "choices"@, JsonV::Array(anthropic_choices(cs))),
        None => r,
    }
}

/// The input of a tool-use block made from a tool call with arguments text
/// `arguments`, given whether that text parses as JSON.
pub fn tool_input(arguments: &str, parses: bool) -> (r: Json)
    ensures
        r@ == tool_input_value(arguments@, parses),
{
    if parses {
        Json::Decoded(arguments.to_owned())
    } else {
        Json::Null
    }
}

fn tool_use_block_of(tc: &Json) -> (r: Json)
    ensures
        r@ == tool_use_block(tc@),
{
    let id = str_or(tc, "id", "");
    let null = Json::Null;
    let func = match tc.get("function") {
        Some(f) => f,
        None => &null,
    };
    assert(func@ == field_or_null(tc@, "function"@));
    let name = str_or(func, "name", "");
    let input = match func.get("arguments") {
        Some(Json::Encoded(v)) => (**v).deep_clone(),
        Some(Json::Str(t)) => {
            let parses = is_json_text(t.as_str());
            tool_input(t.as_str(), parses)
        },
        _ => {
            let members: Vec<(String, Json)> = Vec::new();
            assert(crate::json::member_views(members@) =~= Seq::empty());
            Json::Object(members)
        },
    };
    object4(
        "type",
        Json::string("tool_use"),
        "id",
        Json::Str(id),
        "name",
        Json::Str(name),
        "input",
        input,
    )
}

fn translate_message(msg: &Json) -> (r: Json)
    ensures
        r@ == anthropic_message(msg@),
{
    match msg.get("tool_calls") {
        Some(Json::Array(tcs)) => {
            proof {
                crate::json::lemma_views(tcs@);
            }
            let ghost tv = views(tcs@);
            let mut blocks: Vec<Json> = Vec::new();
            assert(views(blocks@) =~= Seq::empty());
            match msg.get("content") {
                Some(Json::Str(t)) => {
                    if !t.as_str().is_empty() {
                        push_value(
                            &mut blocks,
                            object2("type", Json::string("text"), "text", Json::Str(t.clone())),
                        );
                    }
                },
                _ => {},
            }
            assert(views(blocks@) =~= text_blocks(msg@));
            let ghost start = views(blocks@);
            let mut i: usize = 0;
            while i < tcs.len()
                invariant
                    tv == views(tcs@),
                    tv.len() == tcs.len(),
                    forall|k: int| 0 <= k < tcs.len() ==> #[trigger] tv[k] == tcs@[k]@,
                    i <= tcs.len(),
                    views(blocks@) == start + tool_use_blocks(tv.subrange(0, i as int)),
                decreases tcs.len() - i,
            {
                let ghost prefix = tv.subrange(0, i + 1);
                assert(prefix.drop_last() =~= tv.subrange(0, i as int));
                assert(prefix.last() == tcs@[i as int]@);
                push_value(&mut blocks, tool_use_block_of(&tcs[i]));
                i = i + 1;
                assert(views(blocks@) =~= start + tool_use_blocks(tv.subrange(0, i as int)));
            }
            assert(tv.subrange(0, i as int) =~= tv);
            proof {
                crate::json::lemma_views(blocks@);
            }
            let ghost bv = views(blocks@);
            let arr = Json::Array(blocks);
            assert(arr@ == JsonV::Array(bv));
            let mut out = msg.deep_clone();
            out.insert("anthropic_content", arr);
            out
        },
        _ => msg.deep_clone(),
    }
}

fn translate_choice(c: &Json) -> (r: Json)
    ensures
        r@ == anthropic_choice(c@),
{
    let mut out = c.deep_clone();
    match c.get("message") {
        Some(m) => out.insert("message", translate_message(m)),
        None => {},
    }
    out
}

impl AnthropicProvider {
    /// The backend that requests go to.
    pub closed spec fn upstream(&self) -> OpenAiProvider {
        self.backend
    }

    pub fn new(endpoint: String, api_key: String, model_list: Vec<String>) -> (r: Self)
        ensures
            r.upstream().endpoint@ == endpoint@,
            r.upstream().api_key@ == api_key@,
            string_views(r.upstream().model_list@) == string_views(model_list@),
    {
        AnthropicProvider { backend: OpenAiProvider::new(endpoint, api_key, model_list) }
    }

    /// The OpenAI-compatible backend that requests are sent to.
    pub fn backend(&self) -> (r: &OpenAiProvider)
        ensures
            *r == self.upstream(),
    {
        &self.backend
    }

    /// The models this provider serves: those of its backend.
    pub fn models(&self) -> (r: Vec<String>)
        ensures
            string_views(r@) == string_views(self.upstream().model_list@),
    {
        self.backend.models()
    }

    /// Turns an OpenAI chat reply into one whose messages also carry their
    /// tool calls as Anthropic tool-use content blocks.
    pub fn translate_response(response: &Json) -> (r: Json)
        ensures
            r@ == anthropic_response(response@),
    {
        let mut out = response.deep_clone();
        match response.get("choices") {
            Some(Json::Array(cs)) => {
                proof {
                    crate::json::lemma_views(cs@);
                }
                let ghost cv = views(cs@);
                let mut translated: Vec<Json> = Vec::new();
                assert(views(translated@) =~= Seq::empty());
                let mut i: usize = 0;
                while i < cs.len()
                    invariant
                        cv == views(cs@),
                        cv.len() == cs.len(),
                        forall|k: int| 0 <= k < cs.len() ==> #[trigger] cv[k] == cs@[k]@,
                        i <= cs.len(),
                        views(translated@) == anthropic_choices(cv.subrange(0, i as int)),
                    decreases cs.len() - i,
                {
                    let ghost prefix = cv.subrange(0, i + 1);
                    assert(prefix.drop_last() =~= cv.subrange(0, i as int));
                    assert(prefix.last() == cs@[i as int]@);
                    push_value(&mut translated, translate_choice(&cs[i]));
                    i = i + 1;
                }
                assert(cv.subrange(0, i as int) =~= cv);
                proof {
                    crate::json::lemma_views(translated@);
                }
                let ghost tv = views(translated@);
                let arr = Json::Array(translated);
                assert(arr@ == JsonV::Array(tv));
                out.insert("choices", arr);
            },
            _ => {},
        }
        out
    }

    /// Turns an Anthropic messages request into an OpenAI chat request.
    pub fn translate_request(request: &Json) -> (r: Json)
        ensures
            r@ == openai_request(request@),
    {
        let mut members: Vec<(String, Json)> = Vec::new();
        assert(crate::json::member_views(members@) =~= Seq::empty());
        match request.get("model") {
            Some(m) => push_member(&mut members, "model", m.deep_clone()),
            None => {},
        }
        let ghost after_model = crate::json::member_views(members@);
        assert(after_model =~= kept(request@, "model"@));
        let mut messages: Vec<Json> = Vec::new();
        assert(views(messages@) =~= Seq::empty());
        match request.get("system") {
            Some(Json::Str(s)) => {
                push_value(&mut messages, chat_message_json("system", s.as_str()));
            },
            _ => {},
        }
        assert(views(messages@) =~= system_messages(request@));
        match request.get("messages") {
            Some(Json::Array(msgs)) => {
                let ghost mv = views(msgs@);
                proof {
                    crate::json::lemma_views(msgs@);
                }
                let ghost start = views(messages@);
                let mut i: usize = 0;
                while i < msgs.len()
                    invariant
                        mv == views(msgs@),
                        mv.len() == msgs.len(),
                        forall|k: int| 0 <= k < msgs.len() ==> #[trigger] mv[k] == msgs@[k]@,
                        i <= msgs.len(),
                        views(messages@) == start + translated_messages(mv.subrange(0, i as int)),
                    decreases msgs.len() - i,
                {
                    let ghost prefix = mv.subrange(0, i + 1);
                    assert(prefix.drop_last() =~= mv.subrange(0, i as int));
                    assert(prefix.last() == msgs@[i as int]@);
                    push_translated_message(&msgs[i], &mut messages);
                    i = i + 1;
                    assert(views(messages@) =~= start + translated_messages(
                        mv.subrange(0, i as int),
                    ));
                }
                assert(mv.subrange(0, i as int) =~= mv);
            },
            _ => {},
        }
        assert(views(messages@) =~= request_messages(request@));
        proof {
            crate::json::lemma_views(messages@);
        }
        let ghost messages_view = views(messages@);
        let arr = Json::Array(messages);
        assert(arr@ == JsonV::Array(messages_view));
        push_member(&mut members, "messages", arr);
        match request.get("max_tokens") {
            Some(m) => push_member(&mut members, "max_tokens", m.deep_clone()),
            None => {},
        }
        match request.get("temperature") {
            Some(m) => push_member(&mut members, "temperature", m.deep_clone()),
            None => {},
        }
        match request.get("tools") {
            Some(m) => push_member(&mut members, "tools", m.deep_clone()),
            None => {},
        }
        let r = Json::Object(members);
        assert(r@->Object_0 =~= openai_request(request@)->Object_0);
        r
    }
}


/// Whether a reply choice has a message with a list of tool calls.
pub open spec fn has_tool_calls(c: JsonV) -> bool {
    match field(c, "message"@) {
        Some(m) => array_field(m, "tool_calls"@) is Some,
        None => false,
    }
}

/// Translating a reply leaves it unchanged where none of its choices has a
/// message with tool calls.
pub proof fn lemma_plain_response_unchanged(r: JsonV)
    requires
        array_field(r, "choices"@) matches Some(cs) ==> forall|i: int|
            0 <= i < cs.len() ==> !has_tool_calls(#[trigger] cs[i]),
    ensures
        anthropic_response(r) == r,
{
    match array_field(r, "choices"@) {
        Some(cs) => {
            lemma_plain_choices_unchanged(cs);
            lemma_write_back_unchanged(r, "choices"@);
        },
        None => {},
    }
}

proof fn lemma_plain_choices_unchanged(cs: Seq<JsonV>)
    requires
        forall|i: int| 0 <= i < cs.len() ==> !has_tool_calls(#[trigger] cs[i]),
    ensures
        anthropic_choices(cs) == cs,
    decreases cs.len(),
{
    if cs.len() > 0 {
        let c = cs.last();
        assert(!has_tool_calls(cs[cs.len() - 1]));
        lemma_plain_choices_unchanged(cs.drop_last());
        match field(c, "message"@) {
            Some(m) => {
                lemma_write_back_unchanged(c, "message"@);
            },
            None => {},
        }
        assert(cs.drop_last().push(c) =~= cs);
    }
}

/// Where `key` is not among the members `a`, looking it up in `a + b` looks
/// it up in `b`; where it is, the first of `a` is found.
pub proof fn lemma_lookup_concat(a: Seq<(Seq<char>, JsonV)>, b: Seq<(Seq<char>, JsonV)>, key: Seq<char>)
    ensures
        lookup(a + b, key) == if lookup(a, key) is Some {
            lookup(a, key)
        } else {
            lookup(b, key)
        },
{
    crate::json::lemma_key_position(a, key);
    crate::json::lemma_key_position(b, key);
    crate::json::lemma_key_position(a + b, key);
    let pa = key_position(a, key);
    let pb = key_position(b, key);
    let p = key_position(a + b, key);
    if pa < a.len() {
        if p < pa {
            assert((a + b)[p] == a[p]);
        }
        if p > pa {
            assert((a + b)[pa] == a[pa]);
        }
    } else {
        if p < a.len() {
            assert((a + b)[p] == a[p]);
        }
        if p >= a.len() && p - a.len() < pb {
            assert((a + b)[p] == b[p - a.len()]);
        }
        if pb < b.len() && a.len() + pb < p {
            assert((a + b)[a.len() + pb] == b[pb]);
        }
    }
}

/// The OpenAI request keeps the model, `max_tokens`, `temperature` and
/// `tools` of the Anthropic request as they are.
pub proof fn lemma_request_keeps(req: JsonV, key: Seq<char>)
    requires
        key == "model"@ || key == "max_tokens"@ || key == "temperature"@ || key == "tools"@,
    ensures
        field(openai_request(req), key) == field(req, key),
{
    reveal_strlit("model");
    reveal_strlit("messages");
    reveal_strlit("max_tokens");
    reveal_strlit("temperature");
    reveal_strlit("tools");
    let km = kept(req, "model"@);
    let msgs = seq![("messages"@, JsonV::Array(request_messages(req)))];
    let kx = kept(req, "max_tokens"@);
    let kt = kept(req, "temperature"@);
    let ks = kept(req, "tools"@);
    assert("messages"@.len() == 8);
    assert(key.len() != 8);
    assert(key != "messages"@);
    lemma_lookup_concat(km + msgs + kx + kt, ks, key);
    lemma_lookup_concat(km + msgs + kx, kt, key);
    lemma_lookup_concat(km + msgs, kx, key);
    lemma_lookup_concat(km, msgs, key);
    crate::json::lemma_key_position(msgs, key);
    crate::json::lemma_key_position(km, key);
    crate::json::lemma_key_position(kx, key);
    crate::json::lemma_key_position(kt, key);
    crate::json::lemma_key_position(ks, key);
}

/// A conversation whose messages all have text content translates message
/// for message, each keeping its role (`user` where it has none) and text.
pub proof fn lemma_text_messages_one_for_one(msgs: Seq<JsonV>)
    requires
        forall|i: int| 0 <= i < msgs.len() ==> (#[trigger] str_field(msgs[i], "content"@)) is Some,
    ensures
        translated_messages(msgs) == Seq::new(
            msgs.len(),
            |i: int|
                chat_message(
                    str_field_or(msgs[i], "role"@, "user"@),
                    str_field(msgs[i], "content"@)->0,
                ),
        ),
    decreases msgs.len(),
{
    if msgs.len() > 0 {
        let rest = msgs.drop_last();
        assert forall|i: int| 0 <= i < rest.len() implies (#[trigger] str_field(rest[i], "content"@)) is Some by {
            assert(rest[i] == msgs[i]);
            assert(str_field(msgs[i], "content"@) is Some);
        }
        lemma_text_messages_one_for_one(rest);
        assert(str_field(msgs[msgs.len() - 1], "content"@) is Some);
        assert(translated_messages(msgs) =~= Seq::new(
            msgs.len(),
            |i: int|
                chat_message(
                    str_field_or(msgs[i], "role"@, "user"@),
                    str_field(msgs[i], "content"@)->0,
                ),
        ));
    }
}

/// A tool call written by [`AnthropicProvider::translate_request`] for a
/// tool-use block reads back, in a reply, as that block: same id, same name
/// and same input.
pub proof fn lemma_tool_call_round_trip(b: JsonV)
    requires
        str_field(b, "type"@) == Some("tool_use"@),
    ensures
        ({
            let block = JsonV::Object(
                seq![
                    ("type"@, jstr("tool_use"@)),
                    ("id"@, jstr(str_field_or(b, "id"@, ""@))),
                    ("name"@, jstr(str_field_or(b, "name"@, ""@))),
                    ("input"@, field_or_null(b, "input"@)),
                ],
            );
            let tc = block_tool_call(b)->0;
            &&& tool_use_block(tc) == block
            &&& field(
                anthropic_message(JsonV::Object(seq![("tool_calls"@, JsonV::Array(seq![tc]))])),
                "anthropic_content"@,
            ) == Some(JsonV::Array(seq![block]))
        }),
{
    reveal_strlit("id");
    reveal_strlit("type");
    reveal_strlit("function");
    reveal_strlit("name");
    reveal_strlit("arguments");
    reveal_strlit("tool_calls");
    reveal_strlit("content");
    reveal_strlit("anthropic_content");
    let tc = block_tool_call(b)->0;
    let tm = tc->Object_0;
    let func = JsonV::Object(
        seq![
            ("name"@, jstr(str_field_or(b, "name"@, ""@))),
            ("arguments"@, JsonV::Encoded(Box::new(field_or_null(b, "input"@)))),
        ],
    );
    let fm = func->Object_0;
    assert("id"@.len() == 2 && "type"@.len() == 4 && "function"@.len() == 8);
    assert("name"@.len() == 4 && "arguments"@.len() == 9);
    crate::json::lemma_key_position(tm, "id"@);
    crate::json::lemma_key_position(tm, "function"@);
    crate::json::lemma_key_position(fm, "name"@);
    crate::json::lemma_key_position(fm, "arguments"@);
    assert(tm[0].0 != "function"@);
    assert(tm[1].0 != "function"@);
    assert(key_position(tm, "function"@) == 2);
    assert(fm[0].0 != "arguments"@);
    assert(key_position(fm, "arguments"@) == 1);
    assert(field(tc, "function"@) == Some(func));
    assert(tool_use_block(tc) =~= JsonV::Object(
        seq![
            ("type"@, jstr("tool_use"@)),
            ("id"@, jstr(str_field_or(b, "id"@, ""@))),
            ("name"@, jstr(str_field_or(b, "name"@, ""@))),
            ("input"@, field_or_null(b, "input"@)),
        ],
    ));
    let m = JsonV::Object(seq![("tool_calls"@, JsonV::Array(seq![tc]))]);
    let mm = m->Object_0;
    crate::json::lemma_key_position(mm, "tool_calls"@);
    crate::json::lemma_key_position(mm, "content"@);
    assert("tool_calls"@.len() == 10 && "content"@.len() == 7);
    assert(mm[0].0 != "content"@);
    assert(str_field(m, "content"@) is None);
    let one = seq![tc];
    assert(one.drop_last() =~= Seq::<JsonV>::empty());
    assert(one.last() == tc);
    assert(tool_use_blocks(one.drop_last()) == Seq::<JsonV>::empty());
    assert(tool_use_blocks(one) =~= seq![tool_use_block(tc)]);
    assert(text_blocks(m) + tool_use_blocks(seq![tc]) =~= seq![tool_use_block(tc)]);
    lemma_member_read_after_write(
        m,
        "anthropic_content"@,
        JsonV::Array(seq![tool_use_block(tc)]),
        "anthropic_content"@,
    );
}

/// A translated message translates to itself.
proof fn lemma_message_translation_settled(m: JsonV)
    ensures
        anthropic_message(anthropic_message(m)) == anthropic_message(m),
{
    reveal_strlit("tool_calls");
    reveal_strlit("content");
    reveal_strlit("anthropic_content");
    assert("tool_calls"@.len() == 10 && "content"@.len() == 7 && "anthropic_content"@.len() == 17);
    match array_field(m, "tool_calls"@) {
        Some(tcs) => {
            let x = JsonV::Array(text_blocks(m) + tool_use_blocks(tcs));
            lemma_member_read_after_write(m, "anthropic_content"@, x, "tool_calls"@);
            lemma_member_read_after_write(m, "anthropic_content"@, x, "content"@);
            lemma_member_written_twice(m, "anthropic_content"@, x, x);
        },
        None => {},
    }
}

/// A translated choice translates to itself.
proof fn lemma_choice_translation_settled(c: JsonV)
    ensures
        anthropic_choice(anthropic_choice(c)) == anthropic_choice(c),
{
    match field(c, "message"@) {
        Some(m) => {
            let t = anthropic_message(m);
            lemma_member_read_after_write(c, "message"@, t, "message"@);
            lemma_message_translation_settled(m);
            lemma_member_written_twice(c, "message"@, t, t);
        },
        None => {},
    }
}

proof fn lemma_choices_translation_settled(cs: Seq<JsonV>)
    ensures
        anthropic_choices(anthropic_choices(cs)) == anthropic_choices(cs),
    decreases cs.len(),
{
    if cs.len() > 0 {
        let once = anthropic_choices(cs);
        lemma_choices_translation_settled(cs.drop_last());
        lemma_choice_translation_settled(cs.last());
        assert(once.drop_last() =~= anthropic_choices(cs.drop_last()));
    }
}

/// Translating a reply a second time changes nothing.
pub proof fn lemma_translate_response_idempotent(r: JsonV)
    ensures
        anthropic_response(anthropic_response(r)) == anthropic_response(r),
{
    match array_field(r, "choices"@) {
        Some(cs) => {
            let a = JsonV::Array(anthropic_choices(cs));
            lemma_member_read_after_write(r, "choices"@, a, "choices"@);
            lemma_choices_translation_settled(cs);
            lemma_member_written_twice(r, "choices"@, a, a);
        },
        None => {},
    }
}

proof fn lemma_tool_use_blocks_one_for_one(tcs: Seq<JsonV>)
    ensures
        tool_use_blocks(tcs).len() == tcs.len(),
        forall|k: int| 0 <= k < tcs.len() ==> #[trigger] tool_use_blocks(tcs)[k] == tool_use_block(tcs[k]),
    decreases tcs.len(),
{
    if tcs.len() > 0 {
        lemma_tool_use_blocks_one_for_one(tcs.drop_last());
        assert forall|k: int| 0 <= k < tcs.len() implies #[trigger] tool_use_blocks(tcs)[k] == tool_use_block(tcs[k]) by {
            if k < tcs.len() - 1 {
                assert(tcs.drop_last()[k] == tcs[k]);
            }
        }
    }
}

/// Every tool call of a reply message becomes a tool-use content block, in
/// order: the content blocks are the text block of a non-empty string content
/// (where there is one) and then one block per tool call, the one for call
/// `k` carrying that call's id, its function's name, and the input read from
/// its function's arguments (see [`lemma_tool_input_cases`]).
pub proof fn lemma_each_tool_call_becomes_a_block(msg: JsonV, tcs: Seq<JsonV>)
    requires
        array_field(msg, "tool_calls"@) == Some(tcs),
    ensures
        ({
            let n: int = if (str_field(msg, "content"@) matches Some(t) && t.len() > 0) {
                1
            } else {
                0
            };
            &&& field(anthropic_message(msg), "anthropic_content"@) matches Some(JsonV::Array(c))
            &&& c.len() == n + tcs.len()
            &&& n == 1 ==> c[0] == JsonV::Object(
                seq![
                    ("type"@, JsonV::Str("text"@)),
                    ("text"@, JsonV::Str(str_field(msg, "content"@)->0)),
                ],
            )
            &&& forall|k: int|
                0 <= k < tcs.len() ==> c[n + k] == JsonV::Object(
                    seq![
                        ("type"@, JsonV::Str("tool_use"@)),
                        ("id"@, JsonV::Str(str_field_or(#[trigger] tcs[k], "id"@, ""@))),
                        ("name"@, JsonV::Str(
                            str_field_or(field_or_null(tcs[k], "function"@), "name"@, ""@),
                        )),
                        ("input"@, tool_input_of(field_or_null(tcs[k], "function"@))),
                    ],
                )
        }),
{
    lemma_tool_use_blocks_one_for_one(tcs);
    let tb = text_blocks(msg);
    let val = JsonV::Array(tb + tool_use_blocks(tcs));
    lemma_member_read_after_write(msg, "anthropic_content"@, val, "anthropic_content"@);
    let n: int = if (str_field(msg, "content"@) matches Some(t) && t.len() > 0) {
        1
    } else {
        0
    };
    assert(tb.len() == n);
    assert forall|k: int| 0 <= k < tcs.len() implies (tb + tool_use_blocks(tcs))[n + k]
        == tool_use_block(#[trigger] tcs[k]) by {
        assert(tool_use_blocks(tcs)[k] == tool_use_block(tcs[k]));
    }
    assert forall|k: int| 0 <= k < tcs.len() implies (tb + tool_use_blocks(tcs))[n + k]
        == JsonV::Object(
        seq![
            ("type"@, JsonV::Str("tool_use"@)),
            ("id"@, JsonV::Str(str_field_or(#[trigger] tcs[k], "id"@, ""@))),
            ("name"@, JsonV::Str(str_field_or(field_or_null(tcs[k], "function"@), "name"@, ""@))),
            ("input"@, tool_input_of(field_or_null(tcs[k], "function"@))),
        ],
    ) by {
        assert((tb + tool_use_blocks(tcs))[n + k] == tool_use_block(tcs[k]));
        let func = field_or_null(tcs[k], "function"@);
        assert(tool_use_block(tcs[k])->Object_0 =~= seq![
            ("type"@, JsonV::Str("tool_use"@)),
            ("id"@, JsonV::Str(str_field_or(tcs[k], "id"@, ""@))),
            ("name"@, JsonV::Str(str_field_or(func, "name"@, ""@))),
            ("input"@, tool_input_of(func)),
        ]);
    }
    assert(anthropic_message(msg) == with_member(msg, "anthropic_content"@, val));
    assert(field(anthropic_message(msg), "anthropic_content"@) == Some(val));
    assert(n == 1 ==> (tb + tool_use_blocks(tcs))[0] == JsonV::Object(
        seq![
            ("type"@, JsonV::Str("text"@)),
            ("text"@, JsonV::Str(str_field(msg, "content"@)->0)),
        ],
    ));
}

/// The input of a tool-use block read from a tool call's function: the value
/// whose JSON text the arguments hold, the value of arguments text that parses
/// as JSON (null where it does not), and the empty object where the function
/// has no arguments of either kind.
pub proof fn lemma_tool_input_cases(func: JsonV)
    ensures
        !(field(func, "arguments"@) matches Some(JsonV::Encoded(_))) && !(field(
            func,
            "arguments"@,
        ) matches Some(JsonV::Str(_))) ==> tool_input_of(func) == JsonV::Object(Seq::empty()),
        field(func, "arguments"@) matches Some(JsonV::Encoded(v)) ==> tool_input_of(func) == *v,
        field(func, "arguments"@) matches Some(JsonV::Str(t)) ==> tool_input_of(func) == if parses_as_json(t) {
            JsonV::Decoded(t)
        } else {
            JsonV::Null
        },
{
}

proof fn lemma_type_keys()
    ensures
        "type"@ != "text"@,
        "text"@ != "tool_use"@,
        "text"@ != "tool_result"@,
        "role"@ != "content"@,
        "model"@ != "messages"@,
        "max_tokens"@ != "messages"@,
        "temperature"@ != "messages"@,
        "tools"@ != "messages"@,
{
    reveal_strlit("type");
    reveal_strlit("text");
    reveal_strlit("tool_use");
    reveal_strlit("tool_result");
    reveal_strlit("role");
    reveal_strlit("content");
    reveal_strlit("model");
    reveal_strlit("messages");
    reveal_strlit("max_tokens");
    reveal_strlit("temperature");
    reveal_strlit("tools");
    assert("type"@[1] != "text"@[1]);
    assert("text"@.len() == 4 && "tool_use"@.len() == 8 && "tool_result"@.len() == 11);
    assert("role"@.len() == 4 && "content"@.len() == 7 && "model"@.len() == 5);
    assert("messages"@.len() == 8 && "max_tokens"@.len() == 10 && "temperature"@.len() == 11);
    assert("tools"@.len() == 5);
}

/// The content blocks of type `text` with the texts `texts`, in order.
spec fn plain_text_blocks(texts: Seq<Seq<char>>) -> Seq<JsonV> {
    Seq::new(
        texts.len(),
        |i: int| JsonV::Object(seq![("type"@, JsonV::Str("text"@)), ("text"@, JsonV::Str(texts[i]))]),
    )
}

proof fn lemma_plain_text_blocks(texts: Seq<Seq<char>>)
    ensures
        block_texts(plain_text_blocks(texts)) == texts,
        block_tool_calls(plain_text_blocks(texts)) == Seq::<JsonV>::empty(),
        block_tool_results(plain_text_blocks(texts)) == Seq::<JsonV>::empty(),
    decreases texts.len(),
{
    if texts.len() > 0 {
        let blocks = plain_text_blocks(texts);
        let rest = texts.drop_last();
        assert(blocks.drop_last() =~= plain_text_blocks(rest));
        lemma_plain_text_blocks(rest);
        lemma_type_keys();
        let b = blocks.last();
        let m = b->Object_0;
        crate::json::lemma_key_position(m, "type"@);
        crate::json::lemma_key_position(m, "text"@);
        assert(m[0].0 == "type"@);
        assert(m[0].0 != "text"@);
        assert(key_position(m, "text"@) == 1);
        assert(block_text(b) == Some(texts.last()));
        assert(block_tool_call(b) is None);
        assert(block_tool_result(b) is None);
        assert(block_texts(blocks) =~= texts);
    }
}

/// The `messages` member of the OpenAI request is the list of its messages.
proof fn lemma_request_messages_member(req: JsonV)
    ensures
        field(openai_request(req), "messages"@) == Some(JsonV::Array(request_messages(req))),
{
    lemma_type_keys();
    let km = kept(req, "model"@);
    let msgs = seq![("messages"@, JsonV::Array(request_messages(req)))];
    let kx = kept(req, "max_tokens"@);
    let kt = kept(req, "temperature"@);
    let ks = kept(req, "tools"@);
    let key = "messages"@;
    lemma_lookup_concat(km + msgs + kx + kt, ks, key);
    lemma_lookup_concat(km + msgs + kx, kt, key);
    lemma_lookup_concat(km + msgs, kx, key);
    lemma_lookup_concat(km, msgs, key);
    crate::json::lemma_key_position(msgs, key);
    crate::json::lemma_key_position(km, key);
    assert(lookup(km, key) is None);
    assert(lookup(msgs, key) == Some(JsonV::Array(request_messages(req))));
}

/// A message whose content is a non-empty list of text blocks becomes one
/// chat message with the same role whose content is the blocks' texts
/// joined, in order: a request holding only such a message (and no system
/// prompt) is sent with exactly that one message.
pub proof fn lemma_text_blocks_become_one_message(
    req: JsonV,
    role: Seq<char>,
    texts: Seq<Seq<char>>,
)
    requires
        texts.len() > 0,
        str_field(req, "system"@) is None,
        array_field(req, "messages"@) == Some(
            seq![
                JsonV::Object(
                    seq![
                        ("role"@, JsonV::Str(role)),
                        ("content"@, JsonV::Array(
                            Seq::new(
                                texts.len(),
                                |i: int|
                                    JsonV::Object(
                                        seq![
                                            ("type"@, JsonV::Str("text"@)),
                                            ("text"@, JsonV::Str(texts[i])),
                                        ],
                                    ),
                            ),
                        )),
                    ],
                ),
            ],
        ),
    ensures
        field(openai_request(req), "messages"@) == Some(
            JsonV::Array(
                seq![
                    JsonV::Object(
                        seq![("role"@, JsonV::Str(role)), ("content"@, JsonV::Str(concat(texts)))],
                    ),
                ],
            ),
        ),
{
    lemma_type_keys();
    lemma_request_messages_member(req);
    lemma_plain_text_blocks(texts);
    let blocks = plain_text_blocks(texts);
    let msg = array_field(req, "messages"@)->0[0];
    let m = msg->Object_0;
    crate::json::lemma_key_position(m, "role"@);
    crate::json::lemma_key_position(m, "content"@);
    assert(key_position(m, "content"@) == 1);
    assert(field(msg, "content"@) == Some(JsonV::Array(blocks)));
    assert(str_field_or(msg, "role"@, "user"@) == role);
    assert(block_messages(role, blocks) =~= seq![chat_message(role, concat(texts))]);
    assert(translated_message(msg) == seq![chat_message(role, concat(texts))]);
    assert(seq![msg].drop_last() =~= Seq::<JsonV>::empty());
    assert(seq![msg].last() == msg);
    assert(translated_messages(Seq::<JsonV>::empty()) == Seq::<JsonV>::empty());
    assert(translated_messages(seq![msg]) =~= seq![chat_message(role, concat(texts))]);
    assert(request_messages(req) =~= seq![chat_message(role, concat(texts))]);
}

/// Messages translate one after another: the translation of two
/// conversations joined is the two translations joined.
pub proof fn lemma_translation_joins(a: Seq<JsonV>, b: Seq<JsonV>)
    ensures
        translated_messages(a + b) == translated_messages(a) + translated_messages(b),
    decreases b.len(),
{
    if b.len() == 0 {
        assert(a + b =~= a);
        assert(translated_messages(a) + translated_messages(b) =~= translated_messages(a));
    } else {
        lemma_translation_joins(a, b.drop_last());
        assert((a + b).drop_last() =~= a + b.drop_last());
        assert((a + b).last() == b.last());
        assert(translated_messages(a + b) =~= translated_messages(a) + translated_messages(b));
    }
}

} // verus!
