use vstd::prelude::*;

use crate::json::{field, jstr, lemma_member_read_after_write, object1, object2, with_member, Json, JsonV};
use crate::text::{chars_of, clone_strings, string_views, trim_end, trim_end_char};

verus! {

/// An OpenAI-compatible upstream: where it is, the key it wants and the
/// models it serves.
pub struct OpenAiProvider {
    pub endpoint: String,
    pub api_key: String,
    pub model_list: Vec<String>,
}

/// Whether `s` ends with `/v1`.
pub open spec fn ends_with_v1(s: Seq<char>) -> bool {
    s.len() >= 3 && s[s.len() - 3] == '/' && s[s.len() - 2] == 'v' && s[s.len() - 1] == '1'
}

/// The chat completions URL of an endpoint: the endpoint without trailing
/// slashes, then `/chat/completions` where it already ends in the API
/// version `/v1` (as `http://localhost:11434/v1` does), and
/// `/v1/chat/completions` where it does not.
pub open spec fn chat_url_of(endpoint: Seq<char>) -> Seq<char> {
    let base = trim_end(endpoint, '/');
    if ends_with_v1(base) {
        base + "/chat/completions"@
    } else {
        base + "/v1/chat/completions"@
    }
}

/// The request sent upstream: `request` with its `stream` member set to
/// `stream` where it is an object, and unchanged otherwise.
pub open spec fn upstream_request(request: JsonV, stream: bool) -> JsonV {
    with_member(request, "stream"@, JsonV::Bool(stream))
}

/// The reply the proxy gives where the upstream cannot be reached.
pub open spec fn proxy_error(message: Seq<char>) -> JsonV {
    JsonV::Object(
        seq![
            ("error"@, JsonV::Object(
                seq![("message"@, jstr(message)), ("type"@, jstr("proxy_error"@))],
            )),
        ],
    )
}

impl OpenAiProvider {
    pub fn new(endpoint: String, api_key: String, model_list: Vec<String>) -> (r: Self)
        ensures
            r.endpoint@ == endpoint@,
            r.api_key@ == api_key@,
            string_views(r.model_list@) == string_views(model_list@),
    {
        OpenAiProvider { endpoint, api_key, model_list }
    }

    /// The models this provider serves.
    pub fn models(&self) -> (r: Vec<String>)
        ensures
            string_views(r@) == string_views(self.model_list@),
    {
        clone_strings(&self.model_list)
    }

    /// Where chat completion requests go.
    pub fn chat_url(&self) -> (r: String)
        ensures
            r@ == chat_url_of(self.endpoint@),
    {
        let mut r = trim_end_char(self.endpoint.as_str(), '/');
        let cs = chars_of(r.as_str());
        let n = cs.len();
        if n >= 3 && cs[n - 3] == '/' && cs[n - 2] == 'v' && cs[n - 1] == '1' {
            r.append("/chat/completions");
        } else {
            r.append("/v1/chat/completions");
        }
        r
    }

    /// The value of the `Authorization` header.
    pub fn authorization(&self) -> (r: String)
        ensures
            r@ == "Bearer "@ + self.api_key@,
    {
        let mut r = "Bearer ".to_owned();
        r.append(self.api_key.as_str());
        r
    }

    /// The body sent upstream for `request`, asking for a streamed reply or not.
    pub fn request_body(request: &Json, stream: bool) -> (r: Json)
        ensures
            r@ == upstream_request(request@, stream),
    {
        let mut r = request.deep_clone();
        r.insert("stream", Json::Bool(stream));
        r
    }

    /// The reply for a request that could not be sent or answered, with the
    /// error's text.
    pub fn error_body(message: &str) -> (r: Json)
        ensures
            r@ == proxy_error(message@),
    {
        let inner = object2("message", Json::string(message), "type", Json::string("proxy_error"));
        object1("error", inner)
    }
}


/// The body sent upstream says whether to stream exactly as asked, and keeps
/// every other member of the request.
pub proof fn lemma_stream_flag_set(request: JsonV, stream: bool, other: Seq<char>)
    requires
        request is Object,
    ensures
        field(upstream_request(request, stream), "stream"@) == Some(JsonV::Bool(stream)),
        other != "stream"@ ==> field(upstream_request(request, stream), other) == field(
            request,
            other,
        ),
{
    lemma_member_read_after_write(request, "stream"@, JsonV::Bool(stream), other);
}

} // verus!
