use omni_code::text::{chars_of, concat_strings, push_decimal, starts_with, trim_end_char};
use omni_code::config::{expand_env, expand_env_within, expand_path, AppConfig, ModelPricing, ProviderConfig, RouteRule};
use omni_code::cost::{cost_picodollars, find_pricing, row_cost};
use omni_code::json::{Json, JsonNumber};
use omni_code::logging::db_path;
use omni_code::provider::anthropic::{tool_input, AnthropicProvider};
use omni_code::provider::openai::OpenAiProvider;
use omni_code::router::{Backend, Router, RouterError};
use omni_code::server::{
    chrono_now, health_body, timestamp_text, log_entry_for_reply, log_entry_for_stream, models_listing,
    request_model, request_stream,
};

fn s(x: &str) -> Json {
    Json::Str(x.to_string())
}

fn num(n: u64) -> Json {
    Json::Number(JsonNumber::PosInt(n))
}

fn obj(members: Vec<(&str, Json)>) -> Json {
    Json::Object(members.into_iter().map(|(k, v)| (k.to_string(), v)).collect())
}

fn arr(items: Vec<Json>) -> Json {
    Json::Array(items)
}

fn env_of(pairs: &[(&str, &str)]) -> Vec<(String, String)> {
    pairs.iter().map(|(k, v)| (k.to_string(), v.to_string())).collect()
}

fn provider_config(name: &str, kind: &str, models: &[&str]) -> ProviderConfig {
    ProviderConfig {
        name: name.to_string(),
        endpoint: format!("https://{name}.example/v1"),
        api_key: format!("key-{name}"),
        models: models.iter().map(|m| m.to_string()).collect(),
        provider_type: kind.to_string(),
    }
}

fn config(providers: Vec<ProviderConfig>, routes: &[(&str, &str)], default: &str) -> AppConfig {
    AppConfig {
        providers,
        routes: routes
            .iter()
            .map(|(m, p)| RouteRule { model: m.to_string(), provider: p.to_string() })
            .collect(),
        default_provider: default.to_string(),
        pricing: vec![],
    }
}

#[test]
fn translate_request_plain_conversation() {
    let request = obj(vec![
        ("model", s("mistral-3")),
        ("system", s("Be brief")),
        ("messages", arr(vec![obj(vec![("role", s("user")), ("content", s("Hi"))])])),
        ("max_tokens", num(100)),
    ]);
    let expected = obj(vec![
        ("model", s("mistral-3")),
        (
            "messages",
            arr(vec![
                obj(vec![("role", s("system")), ("content", s("Be brief"))]),
                obj(vec![("role", s("user")), ("content", s("Hi"))]),
            ]),
        ),
        ("max_tokens", num(100)),
    ]);
    assert_eq!(AnthropicProvider::translate_request(&request), expected);
}

#[test]
fn translate_request_content_blocks() {
    let request = obj(vec![(
        "messages",
        arr(vec![
            obj(vec![
                ("role", s("assistant")),
                (
                    "content",
                    arr(vec![
                        obj(vec![("type", s("text")), ("text", s("Let me"))]),
                        obj(vec![("type", s("text")), ("text", s(" check"))]),
                        obj(vec![
                            ("type", s("tool_use")),
                            ("id", s("t1")),
                            ("name", s("ls")),
                            ("input", obj(vec![("path", s("/"))])),
                        ]),
                    ]),
                ),
            ]),
            obj(vec![
                ("role", s("user")),
                (
                    "content",
                    arr(vec![obj(vec![
                        ("type", s("tool_result")),
                        ("tool_use_id", s("t1")),
                        ("content", s("a b")),
                    ])]),
                ),
            ]),
        ]),
    )]);
    let expected = obj(vec![(
        "messages",
        arr(vec![
            obj(vec![
                ("role", s("assistant")),
                ("content", s("Let me check")),
                (
                    "tool_calls",
                    arr(vec![obj(vec![
                        ("id", s("t1")),
                        ("type", s("function")),
                        (
                            "function",
                            obj(vec![
                                ("name", s("ls")),
                                (
                                    "arguments",
                                    Json::Encoded(Box::new(obj(vec![("path", s("/"))]))),
                                ),
                            ]),
                        ),
                    ])]),
                ),
            ]),
            obj(vec![("role", s("tool")), ("tool_call_id", s("t1")), ("content", s("a b"))]),
        ]),
    )]);
    assert_eq!(AnthropicProvider::translate_request(&request), expected);
}

#[test]
fn translate_request_messages_without_content() {
    let request = obj(vec![(
        "messages",
        arr(vec![
            obj(vec![("role", s("user"))]),
            s("not a message"),
            obj(vec![("role", s("user")), ("content", arr(vec![obj(vec![("type", s("image"))])]))]),
        ]),
    )]);
    let expected = obj(vec![(
        "messages",
        arr(vec![
            obj(vec![("role", s("user")), ("content", s(""))]),
            obj(vec![("role", s("user")), ("content", s(""))]),
        ]),
    )]);
    assert_eq!(AnthropicProvider::translate_request(&request), expected);
}

fn reply_with_tool_call(arguments: &str) -> Json {
    obj(vec![
        ("id", s("r1")),
        (
            "choices",
            arr(vec![obj(vec![(
                "message",
                obj(vec![
                    ("role", s("assistant")),
                    ("content", s("Running")),
                    (
                        "tool_calls",
                        arr(vec![obj(vec![
                            ("id", s("c1")),
                            (
                                "function",
                                obj(vec![("name", s("ls")), ("arguments", s(arguments))]),
                            ),
                        ])]),
                    ),
                ]),
            )])]),
        ),
    ])
}

fn expected_blocks(input: Json) -> Json {
    arr(vec![
        obj(vec![("type", s("text")), ("text", s("Running"))]),
        obj(vec![
            ("type", s("tool_use")),
            ("id", s("c1")),
            ("name", s("ls")),
            ("input", input),
        ]),
    ])
}

fn anthropic_content(reply: &Json) -> &Json {
    reply
        .get("choices")
        .and_then(|c| c.as_array())
        .and_then(|c| c[0].get("message"))
        .and_then(|m| m.get("anthropic_content"))
        .unwrap()
}

#[test]
fn translate_response_tool_call_with_json_arguments() {
    let reply = reply_with_tool_call("{\"path\": \"/tmp\"}");
    let out = AnthropicProvider::translate_response(&reply);
    assert_eq!(
        anthropic_content(&out),
        &expected_blocks(Json::Decoded("{\"path\": \"/tmp\"}".to_string()))
    );
    assert_eq!(out.get("id"), Some(&s("r1")));
}

#[test]
fn translate_response_tool_call_with_broken_arguments() {
    let reply = reply_with_tool_call("{\"path\": ");
    let out = AnthropicProvider::translate_response(&reply);
    assert_eq!(anthropic_content(&out), &expected_blocks(Json::Null));
}

#[test]
fn translate_response_without_tool_calls_unchanged() {
    let reply = obj(vec![(
        "choices",
        arr(vec![obj(vec![(
            "message",
            obj(vec![("role", s("assistant")), ("content", s("Hello"))]),
        )])]),
    )]);
    assert_eq!(AnthropicProvider::translate_response(&reply), reply);
}

#[test]
fn tool_input_depends_on_parse() {
    assert_eq!(tool_input("[1]", true), Json::Decoded("[1]".to_string()));
    assert_eq!(tool_input("[1", false), Json::Null);
}

#[test]
fn upstream_body_sets_stream_flag() {
    let request = obj(vec![("model", s("gpt-4o")), ("stream", Json::Bool(false))]);
    assert_eq!(
        OpenAiProvider::request_body(&request, true),
        obj(vec![("model", s("gpt-4o")), ("stream", Json::Bool(true))])
    );
    let request = obj(vec![("model", s("gpt-4o"))]);
    assert_eq!(
        OpenAiProvider::request_body(&request, false),
        obj(vec![("model", s("gpt-4o")), ("stream", Json::Bool(false))])
    );
    assert_eq!(OpenAiProvider::request_body(&s("x"), true), s("x"));
}

#[test]
fn upstream_error_body() {
    assert_eq!(
        OpenAiProvider::error_body("connection refused"),
        obj(vec![(
            "error",
            obj(vec![("message", s("connection refused")), ("type", s("proxy_error"))]),
        )])
    );
}

#[test]
fn upstream_url_and_authorization() {
    let p = OpenAiProvider::new(
        "https://api.openai.com//".to_string(),
        "sk-test".to_string(),
        vec!["gpt-4o".to_string()],
    );
    assert_eq!(p.chat_url(), "https://api.openai.com/v1/chat/completions");
    let ollama = OpenAiProvider::new("http://localhost:11434/v1".to_string(), String::new(), vec![]);
    assert_eq!(ollama.chat_url(), "http://localhost:11434/v1/chat/completions");
    let groq = OpenAiProvider::new("https://api.groq.com/openai/v1/".to_string(), String::new(), vec![]);
    assert_eq!(groq.chat_url(), "https://api.groq.com/openai/v1/chat/completions");
    let other = OpenAiProvider::new("https://example.com/v10".to_string(), String::new(), vec![]);
    assert_eq!(other.chat_url(), "https://example.com/v10/v1/chat/completions");
    assert_eq!(p.authorization(), "Bearer sk-test");
    assert_eq!(p.models(), vec!["gpt-4o".to_string()]);
}

#[test]
fn paths() {
    assert_eq!(expand_path("~/.omni-code/config.toml", Some("/home/a")), "/home/a/.omni-code/config.toml");
    assert_eq!(expand_path("~/x", None), "~/x");
    assert_eq!(expand_path("/etc/x~", Some("/home/a")), "/etc/x~");
    assert_eq!(db_path(Some("/home/a")), "/home/a/.omni-code/logs.db");
    assert_eq!(db_path(Some("/home/a/")), "/home/a/.omni-code/logs.db");
    assert_eq!(db_path(Some("")), ".omni-code/logs.db");
    assert_eq!(db_path(None), "./.omni-code/logs.db");
}

#[test]
fn env_expansion_cases() {
    let env = env_of(&[("A", "1"), ("B", "two")]);
    assert_eq!(expand_env("x${A}y${B}z", &env), "x1ytwoz");
    assert_eq!(expand_env("no refs", &env), "no refs");
    assert_eq!(expand_env("open ${A", &env), "open ${A");
    assert_eq!(expand_env("$${A}{B}", &env), "$1{B}");
    assert_eq!(expand_env_within("${A}", &env, 1), Some("1".to_string()));
    assert_eq!(expand_env_within("${A}${B}", &env, 1), None);
    let looping = env_of(&[("X", "${X}")]);
    assert_eq!(expand_env_within("${X}", &looping, 100), None);
}

fn pricing(model: &str, input: i64, output: i64) -> ModelPricing {
    ModelPricing { model: model.to_string(), input_per_m_micros: input, output_per_m_micros: output }
}

#[test]
fn pricing_lookup() {
    let table = vec![pricing("gpt-4o", 2_500_000, 10_000_000), pricing("gpt-4o-mini", 150_000, 600_000)];
    assert_eq!(find_pricing(&table, "gpt-4o-mini-2024"), Some((150_000, 600_000)));
    assert_eq!(find_pricing(&table, "gpt-4o-2024"), Some((2_500_000, 10_000_000)));
    assert_eq!(find_pricing(&table, "mistral-3"), None);
    assert_eq!(row_cost(&table, "mistral-3", 1000, 1000), Some(0));
    assert_eq!(row_cost(&table, "gpt-4o", 1000, 500), Some(7_500_000_000));
    assert_eq!(row_cost(&table, "gpt-4o", -1, 0), Some(-2_500_000));
}

#[test]
fn negative_prices_are_credits() {
    let table = vec![pricing("promo", -1_000_000, 0)];
    assert_eq!(find_pricing(&table, "promo-1"), Some((-1_000_000, 0)));
    assert_eq!(row_cost(&table, "promo-1", 1000, 1000), Some(-1_000_000_000));
    assert_eq!(cost_picodollars(i64::MIN, i64::MIN, i64::MIN, i64::MIN), None);
    assert_eq!(
        cost_picodollars(i64::MIN, 0, i64::MIN, 0),
        Some(0x4000_0000_0000_0000_0000_0000_0000_0000)
    );
}

#[test]
fn router_rejects_unknown_default() {
    let c = config(vec![provider_config("openai", "", &[])], &[], "missing");
    assert!(matches!(Router::from_config(&c), Err(RouterError::UnknownDefaultProvider)));
}

#[test]
fn router_exact_route_beats_earlier_prefix_route() {
    let c = config(
        vec![provider_config("a", "", &[]), provider_config("b", "", &[])],
        &[("gpt-", "a"), ("gpt-4o", "b")],
        "a",
    );
    let r = Router::from_config(&c).unwrap();
    assert_eq!(r.route_model("gpt-4o"), "b");
    assert_eq!(r.route_model("gpt-4o-mini"), "a");
}

#[test]
fn router_skips_routes_to_unknown_providers() {
    let c = config(
        vec![provider_config("a", "", &[]), provider_config("b", "", &[])],
        &[("gpt-4o", "gone"), ("gpt-", "b")],
        "a",
    );
    let r = Router::from_config(&c).unwrap();
    assert_eq!(r.route_model("gpt-4o"), "b");
    assert_eq!(r.route_model("llama"), "a");
    assert_eq!(r.default_provider(), "a");
}

#[test]
fn router_providers_and_models() {
    let c = config(
        vec![
            provider_config("a", "", &["m1", "m2"]),
            provider_config("b", "anthropic", &["c1"]),
            provider_config("a", "", &["m3"]),
        ],
        &[],
        "b",
    );
    let r = Router::from_config(&c).unwrap();
    assert_eq!(r.all_models(), vec!["m3".to_string(), "c1".to_string()]);
    let ps = r.providers();
    assert_eq!(ps.len(), 2);
    assert_eq!(ps[0].0, "a");
    assert!(matches!(&ps[0].1, Backend::OpenAi(p) if p.endpoint == "https://a.example/v1"));
    assert!(matches!(&ps[1].1, Backend::Anthropic(p) if p.backend().api_key == "key-b"));
}

#[test]
fn chat_request_fields() {
    let body = obj(vec![("model", s("mistral-3")), ("stream", Json::Bool(true))]);
    assert_eq!(request_model(&body), "mistral-3");
    assert!(request_stream(&body));
    let body = obj(vec![("model", num(3))]);
    assert_eq!(request_model(&body), "gpt-4o");
    assert!(!request_stream(&body));
}

#[test]
fn log_entries() {
    let reply = obj(vec![(
        "usage",
        obj(vec![("prompt_tokens", num(12)), ("completion_tokens", num(34))]),
    )]);
    let e = log_entry_for_reply("gpt-4o".to_string(), 15, "100".to_string(), &reply);
    assert_eq!(e.tokens_in, 12);
    assert_eq!(e.tokens_out, 34);
    assert_eq!(e.status, "ok");
    assert_eq!(e.source, "api");
    assert_eq!(e.latency_ms, 15);
    let failed = obj(vec![("error", obj(vec![("message", s("x"))]))]);
    let e = log_entry_for_reply("gpt-4o".to_string(), 1, "100".to_string(), &failed);
    assert_eq!(e.status, "error");
    assert_eq!(e.tokens_in, 0);
    let huge = obj(vec![("usage", obj(vec![("prompt_tokens", num(u64::MAX))]))]);
    let e = log_entry_for_reply("m".to_string(), 1, "1".to_string(), &huge);
    assert_eq!(e.tokens_in, 0);
    let e = log_entry_for_stream("m".to_string(), 7, "9".to_string());
    assert_eq!((e.tokens_in, e.tokens_out, e.status.as_str()), (0, 0, "stream"));
}

#[test]
fn model_list_and_health() {
    let listing = models_listing(&vec!["a".to_string(), "b".to_string()]);
    assert_eq!(
        listing,
        obj(vec![
            ("object", s("list")),
            (
                "data",
                arr(vec![
                    obj(vec![("id", s("a")), ("object", s("model"))]),
                    obj(vec![("id", s("b")), ("object", s("model"))]),
                ]),
            ),
        ])
    );
    assert_eq!(health_body(), obj(vec![("status", s("ok"))]));
}

#[test]
fn timestamp_texts() {
    assert_eq!(timestamp_text(Some(1_725_029_869)), "1725029869");
    assert_eq!(timestamp_text(Some(0)), "0");
    assert_eq!(timestamp_text(None), "0");
}

#[test]
fn timestamp_is_decimal_seconds() {
    let t = chrono_now();
    assert!(!t.is_empty());
    assert!(t.chars().all(|c| c.is_ascii_digit()));
    assert!(t.parse::<u64>().unwrap() > 1_600_000_000);
}

#[test]
fn json_members() {
    let mut v = obj(vec![("a", num(1)), ("b", num(2))]);
    v.insert("a", num(3));
    v.insert("c", num(4));
    assert_eq!(v, obj(vec![("a", num(3)), ("b", num(2)), ("c", num(4))]));
    assert_eq!(v.get("b"), Some(&num(2)));
    assert_eq!(v.get("z"), None);
    assert_eq!(v.deep_clone(), v);
    assert_eq!(Json::Number(JsonNumber::NegInt(-5)).as_i64(), Some(-5));
    assert_eq!(Json::Number(JsonNumber::Float("1.5".to_string())).as_i64(), None);
}

#[test]
fn text_helpers() {
    assert_eq!(chars_of("héllo"), vec!['h', 'é', 'l', 'l', 'o']);
    assert!(starts_with("gpt-4o-mini", "gpt-4o"));
    assert!(starts_with("gpt", ""));
    assert!(!starts_with("gpt", "gpt-4o"));
    assert!(!starts_with("gpt-4o", "gpx"));
    assert_eq!(trim_end_char("a//", '/'), "a");
    assert_eq!(trim_end_char("//", '/'), "");
    assert_eq!(trim_end_char("a/b", '/'), "a/b");
    assert_eq!(concat_strings(&vec!["ab".to_string(), "".to_string(), "c".to_string()]), "abc");
    let mut s = "n=".to_string();
    push_decimal(&mut s, 0);
    assert_eq!(s, "n=0");
    let mut s = String::new();
    push_decimal(&mut s, u64::MAX);
    assert_eq!(s, "18446744073709551615");
    let mut s = String::new();
    push_decimal(&mut s, 1_700_000_000);
    assert_eq!(s, "1700000000");
}

#[test]
fn tool_call_round_trip() {
    let block = obj(vec![
        ("type", s("tool_use")),
        ("id", s("t9")),
        ("name", s("grep")),
        ("input", obj(vec![("pattern", s("fn")), ("max", num(3))])),
    ]);
    let request = obj(vec![(
        "messages",
        arr(vec![obj(vec![("role", s("assistant")), ("content", arr(vec![block]))])]),
    )]);
    let translated = AnthropicProvider::translate_request(&request);
    let tc = translated.get("messages").and_then(|m| m.as_array()).unwrap()[0]
        .get("tool_calls")
        .and_then(|t| t.as_array())
        .unwrap()[0]
        .deep_clone();
    let reply = obj(vec![("choices", arr(vec![obj(vec![("message", obj(vec![("tool_calls", arr(vec![tc]))]))])]))]);
    let out = AnthropicProvider::translate_response(&reply);
    assert_eq!(
        anthropic_content(&out),
        &arr(vec![obj(vec![
            ("type", s("tool_use")),
            ("id", s("t9")),
            ("name", s("grep")),
            ("input", obj(vec![("pattern", s("fn")), ("max", num(3))])),
        ])])
    );
}

#[test]
fn translate_response_twice_is_once() {
    let once = AnthropicProvider::translate_response(&reply_with_tool_call("{\"a\": 1}"));
    assert_eq!(AnthropicProvider::translate_response(&once), once);
}

#[test]
fn tool_call_without_arguments_has_empty_input() {
    let reply = obj(vec![(
        "choices",
        arr(vec![obj(vec![(
            "message",
            obj(vec![("tool_calls", arr(vec![obj(vec![("id", s("c2")), ("function", obj(vec![("name", s("ls"))]))])]))]),
        )])]),
    )]);
    let out = AnthropicProvider::translate_response(&reply);
    assert_eq!(
        anthropic_content(&out),
        &arr(vec![obj(vec![
            ("type", s("tool_use")),
            ("id", s("c2")),
            ("name", s("ls")),
            ("input", obj(vec![])),
        ])])
    );
}

#[test]
fn summed_tokens_cost_the_sum_of_costs() {
    let table = vec![pricing("gpt-4o", 2_500_000, 10_000_000)];
    let both = row_cost(&table, "gpt-4o", 1000 + 2000, 500 + 0).unwrap();
    let first = row_cost(&table, "gpt-4o", 1000, 500).unwrap();
    let second = row_cost(&table, "gpt-4o", 2000, 0).unwrap();
    assert_eq!(both, first + second);
    assert_eq!(both, 12_500_000_000);
}
