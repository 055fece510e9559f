// Integration tests for router, config, and cost logic.

use omni_code::config::{expand_env, AppConfig, ModelPricing, ProviderConfig, RouteRule};
use omni_code::cost::cost_picodollars;
use omni_code::router::Router;

fn env_of(pairs: &[(&str, &str)]) -> Vec<(String, String)> {
    pairs.iter().map(|(k, v)| (k.to_string(), v.to_string())).collect()
}

fn provider(name: &str) -> ProviderConfig {
    ProviderConfig {
        name: name.to_string(),
        endpoint: "http://localhost:11434/v1".to_string(),
        api_key: String::new(),
        models: vec![],
        provider_type: String::new(),
    }
}

/// A router over `routes`, with a provider for each name that they and the
/// default name.
fn router_for(routes: &[(String, String)], default: &str) -> Router {
    let mut providers = vec![provider(default)];
    for (_, p) in routes {
        providers.push(provider(p));
    }
    let config = AppConfig {
        providers,
        routes: routes
            .iter()
            .map(|(m, p)| RouteRule { model: m.clone(), provider: p.clone() })
            .collect(),
        default_provider: default.to_string(),
        pricing: Vec::<ModelPricing>::new(),
    };
    match Router::from_config(&config) {
        Ok(r) => r,
        Err(_) => panic!("the default provider is configured"),
    }
}

fn route_model(model_name: &str, routes: &[(String, String)], default: &str) -> String {
    router_for(routes, default).route_model(model_name)
}

#[test]
fn test_valid_toml_loading() {
    let config_content = r#"
default_provider = "test"

[[providers]]
name = "test"
endpoint = "http://localhost:11434/v1"
api_key = "test-key"
models = ["model-a", "model-b"]
"#;
    let config: toml::Value = toml::from_str(config_content).unwrap();
    let providers = config.get("providers").unwrap().as_array().unwrap();
    assert_eq!(providers.len(), 1);
    assert_eq!(providers[0].get("name").unwrap().as_str().unwrap(), "test");
}

#[test]
fn test_env_var_expansion() {
    let env = env_of(&[("TEST_OMNI_KEY", "secret123")]);
    let val = "${TEST_OMNI_KEY}";
    let expanded = expand_env(val, &env);
    assert_eq!(expanded, "secret123");
}

#[test]
fn test_env_var_not_set_returns_empty() {
    let env = env_of(&[]);
    let val = "${NONEXISTENT_VAR_XYZ_12345}";
    let expanded = expand_env(val, &env);
    assert_eq!(expanded, "");
}

#[test]
fn test_exact_match() {
    // Routes: "gpt-4o" → "openai", "gpt-" → "openai_prefix"
    let routes = vec![
        ("gpt-4o".to_string(), "openai".to_string()),
        ("gpt-".to_string(), "openai_prefix".to_string()),
        ("mistral-".to_string(), "anthropic".to_string()),
    ];

    // Exact match should win
    let result = route_model("gpt-4o", &routes, "default");
    assert_eq!(result, "openai");
}

#[test]
fn test_prefix_match() {
    let routes = vec![
        ("gpt-4o".to_string(), "openai_exact".to_string()),
        ("mistral-".to_string(), "anthropic_prefix".to_string()),
    ];

    // "mistral-3-sonnet" doesn't exact match anything, but starts_with "mistral-"
    let result = route_model("mistral-3-sonnet", &routes, "default");
    assert_eq!(result, "anthropic_prefix");
}

#[test]
fn test_default_fallback() {
    let routes = vec![("gpt-".to_string(), "openai".to_string())];

    let result = route_model("mistral-3", &routes, "ollama");
    assert_eq!(result, "ollama");
}

#[test]
fn test_unknown_model() {
    let routes: Vec<(String, String)> = vec![];
    let result = route_model("anything", &routes, "fallback");
    assert_eq!(result, "fallback");
}

/// Millionths of a dollar for a price in dollars.
fn micros(dollars: f64) -> i64 {
    (dollars * 1_000_000.0).round() as i64
}

/// Dollars for a cost in millionths of a millionth of a dollar.
fn dollars(picodollars: i128) -> f64 {
    picodollars as f64 / 1_000_000_000_000.0
}

#[test]
fn test_cost_calculation() {
    // gpt-4o: $2.5/M input, $10/M output
    let input_per_m = 2.5;
    let output_per_m = 10.0;
    let tokens_in: i64 = 1000;
    let tokens_out: i64 = 500;

    let cost = cost_picodollars(tokens_in, tokens_out, micros(input_per_m), micros(output_per_m))
        .unwrap();
    // 1000 * 2.5 + 500 * 10.0 = 2500 + 5000 = 7500 / 1_000_000 = 0.0075
    assert_eq!(cost, 7_500_000_000);
    assert!((dollars(cost) - 0.0075).abs() < 1e-10);
}

#[test]
fn test_cost_zero_tokens() {
    let cost = cost_picodollars(0, 0, micros(2.5), micros(10.0)).unwrap();
    assert_eq!(dollars(cost), 0.0);
}

#[test]
fn test_cost_mini_model() {
    // gpt-4o-mini: $0.15/M input, $0.6/M output
    let tokens_in: i64 = 10_000;
    let tokens_out: i64 = 5_000;
    let cost = cost_picodollars(tokens_in, tokens_out, micros(0.15), micros(0.6)).unwrap();
    // 10000 * 0.15 + 5000 * 0.6 = 1500 + 3000 = 4500 / 1_000_000 = 0.0045
    assert!((dollars(cost) - 0.0045).abs() < 1e-10);
}
