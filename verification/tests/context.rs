use agent_line::Ctx;
use agent_line::Provider;

// --- Provider::from_str ---

#[test]
fn test_provider_from_str_ollama() {
    assert_eq!(Provider::from_str("ollama"), Provider::Ollama);
}

#[test]
fn test_provider_from_str_openai() {
    assert_eq!(Provider::from_str("openai"), Provider::OpenAi);
}

#[test]
fn test_provider_from_str_anthropic() {
    assert_eq!(Provider::from_str("anthropic"), Provider::Anthropic);
}

#[test]
fn test_provider_from_str_case_insensitive() {
    assert_eq!(Provider::from_str("OpenAI"), Provider::OpenAi);
    assert_eq!(Provider::from_str("ANTHROPIC"), Provider::Anthropic);
    assert_eq!(Provider::from_str("Ollama"), Provider::Ollama);
}

#[test]
fn test_provider_from_str_unknown_defaults_to_ollama() {
    assert_eq!(Provider::from_str("something"), Provider::Ollama);
}

// --- Provider::endpoint ---

#[test]
fn test_ollama_endpoint() {
    assert_eq!(
        Provider::Ollama.endpoint("http://localhost:11434"),
        "http://localhost:11434/api/chat"
    );
}

#[test]
fn test_openai_endpoint() {
    assert_eq!(
        Provider::OpenAi.endpoint("https://openrouter.ai"),
        "https://openrouter.ai/v1/chat/completions"
    );
}

#[test]
fn test_anthropic_endpoint() {
    assert_eq!(
        Provider::Anthropic.endpoint("https://api.anthropic.com"),
        "https://api.anthropic.com/v1/messages"
    );
}

#[test]
fn test_endpoint_strips_trailing_slash() {
    assert_eq!(
        Provider::OpenAi.endpoint("https://openrouter.ai/"),
        "https://openrouter.ai/v1/chat/completions"
    );
}

// --- Provider::parse_response ---

#[test]
fn test_ollama_parse_response() {
    let json: serde_json::Value =
        serde_json::from_str("{\"message\": { \"content\": \"Hello from Ollama\" }}").unwrap();
    assert_eq!(
        Provider::Ollama.parse_response(&json).unwrap(),
        "Hello from Ollama"
    );
}

#[test]
fn test_openai_parse_response() {
    let json: serde_json::Value = serde_json::from_str(
        "{\"choices\": [{ \"message\": { \"content\": \"Hello from OpenRouter\" } }]}",
    )
    .unwrap();
    assert_eq!(
        Provider::OpenAi.parse_response(&json).unwrap(),
        "Hello from OpenRouter"
    );
}

#[test]
fn test_anthropic_parse_response() {
    let json: serde_json::Value =
        serde_json::from_str("{\"content\": [{ \"text\": \"Hello from Anthropic\" }]}").unwrap();
    assert_eq!(
        Provider::Anthropic.parse_response(&json).unwrap(),
        "Hello from Anthropic"
    );
}

#[test]
fn test_parse_response_missing_content_is_error() {
    let json: serde_json::Value = serde_json::from_str("{\"unexpected\": \"shape\"}").unwrap();
    assert!(Provider::Ollama.parse_response(&json).is_err());
    assert!(Provider::OpenAi.parse_response(&json).is_err());
    assert!(Provider::Anthropic.parse_response(&json).is_err());
}

// --- KV store ---

#[test]
fn set_then_get() {
    let mut ctx = Ctx::new();
    ctx.set("key", "value");
    assert_eq!(ctx.get("key"), Some("value"));
}

#[test]
fn get_missing_key() {
    let ctx = Ctx::new();
    assert_eq!(ctx.get("nope"), None);
}

#[test]
fn set_overwrites() {
    let mut ctx = Ctx::new();
    ctx.set("key", "first");
    ctx.set("key", "second");
    assert_eq!(ctx.get("key"), Some("second"));
}

#[test]
fn remove_returns_value() {
    let mut ctx = Ctx::new();
    ctx.set("key", "value");
    assert_eq!(ctx.remove("key"), Some("value".to_string()));
    assert_eq!(ctx.get("key"), None);
}

#[test]
fn remove_missing_key() {
    let mut ctx = Ctx::new();
    assert_eq!(ctx.remove("nope"), None);
}

// --- Logging ---

#[test]
fn log_appends_and_logs_returns_in_order() {
    let mut ctx = Ctx::new();
    ctx.log("first");
    ctx.log("second");
    ctx.log("third");
    assert_eq!(ctx.logs(), &["first", "second", "third"]);
}

#[test]
fn clear_logs_preserves_store() {
    let mut ctx = Ctx::new();
    ctx.set("key", "value");
    ctx.log("msg");
    ctx.clear_logs();
    assert!(ctx.logs().is_empty());
    assert_eq!(ctx.get("key"), Some("value"));
}

#[test]
fn clear_empties_both() {
    let mut ctx = Ctx::new();
    ctx.set("key", "value");
    ctx.log("msg");
    ctx.clear();
    assert!(ctx.logs().is_empty());
    assert_eq!(ctx.get("key"), None);
}

// --- Request builder ---

#[test]
fn llm_builder_accumulates_messages() {
    let ctx = Ctx::new();
    let builder = ctx.llm().system("be brief").user("first").user("second");
    assert_eq!(builder.system.as_deref(), Some("be brief"));
    assert_eq!(builder.messages, vec!["first", "second"]);
    assert_eq!(builder.client.provider, Provider::Ollama);
}

#[test]
fn with_config_keeps_configuration() {
    let cfg = agent_line::LlmConfig {
        base_url: "http://example.test".to_string(),
        model: "m".to_string(),
        num_ctx: 7,
        api_key: None,
        provider: Provider::Anthropic,
    };
    let ctx = Ctx::with_config(cfg);
    let builder = ctx.llm();
    assert_eq!(builder.client.base_url, "http://example.test");
    assert_eq!(builder.client.num_ctx, 7);
    assert_eq!(builder.client.provider, Provider::Anthropic);
}
