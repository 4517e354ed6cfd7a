use shiro_daemon::llm::{
    anthropic_url, default_max_attempts, default_protocol, default_timeout, extract_json_text,
    is_retryable_status, load_llm_config, mask_key, max_concurrency_of, merge_usage,
    preset_key_for, profiles_of_section, section_to_write, should_retry, thinking_budget,
    LlmConfig, LlmSection, Profile, Usage,
};
use shiro_daemon::llm::{
    anthropic_fallback_output, fallback_result, fallback_status_error, openai_fallback_output,
    openai_usage_of, upstream_error, AnthropicBlock, ChatOutput, OpenAiUsage,
};
use shiro_daemon::llm::{anthropic_parts, openai_url, ChatMessage};

fn profile(key: &str, base: &str, api_key: &str, model: &str) -> Profile {
    Profile {
        key: key.into(),
        base_url: base.into(),
        api_key: api_key.into(),
        model: model.into(),
        protocol: "openai".into(),
        thinking: None,
    }
}

fn empty_section() -> LlmSection {
    LlmSection {
        default: None,
        max_concurrency: None,
        profiles: vec![],
        base_url: None,
        api_key: None,
        model: None,
        protocol: None,
    }
}

#[test]
fn llm_mask_rules() {
    assert_eq!(mask_key("sk-abcdef123456").as_deref(), Some("sk-…3456"));
    assert_eq!(mask_key("short").as_deref(), Some("••••"));
    assert_eq!(mask_key(""), None);
    assert_eq!(mask_key("   "), None);
}

#[test]
fn config_mask_rules() {
    assert_eq!(mask_key("sk-abcdef123456").as_deref(), Some("sk-…3456"));
    assert_eq!(mask_key("short").as_deref(), Some("••••"));
    assert_eq!(mask_key(""), None);
    assert_eq!(mask_key("   "), None);
}

#[test]
fn mask_boundary_and_trim() {
    assert_eq!(mask_key("12345678").as_deref(), Some("••••"));
    assert_eq!(mask_key("  123456789  ").as_deref(), Some("123…6789"));
}

fn parse(text: &str) -> Result<serde_json::Value, String> {
    let j = extract_json_text(text)?;
    serde_json::from_str(&j).map_err(|e| format!("JSON 解析失败：{e}"))
}

#[test]
fn llm_extract_json_tolerant() {
    let v = parse("```json\n{\"a\": 1}\n```").unwrap();
    assert_eq!(v["a"], 1);
    let v = parse("前置说明 {\"a\": [1,2]} 后置说明").unwrap();
    assert_eq!(v["a"].as_array().unwrap().len(), 2);
    let v = parse("废话一段\n[{\"x\": \"y\"}]\n结尾").unwrap();
    assert_eq!(v[0]["x"], "y");
    assert!(parse("完全没有 json").is_err());
    assert!(parse("```json\n{\"a\": 1").is_err());
}

#[test]
fn json_extract_json_tolerant() {
    let v = parse("```json\n{\"a\": 1}\n```").unwrap();
    assert_eq!(v["a"], 1);
    let v = parse("前置说明 {\"a\": [1,2]} 后置说明").unwrap();
    assert_eq!(v["a"].as_array().unwrap().len(), 2);
    let v = parse("废话一段\n[{\"x\": \"y\"}]\n结尾").unwrap();
    assert_eq!(v[0]["x"], "y");
    assert!(parse("完全没有 json").is_err());
    assert!(parse("```json\n{\"a\": 1").is_err());
}

#[test]
fn json_text_bounds_and_errors() {
    assert_eq!(extract_json_text("```json\n{\"a\": 1}\n```").unwrap(), "{\"a\": 1}");
    assert_eq!(extract_json_text("x [1] y {2} z").unwrap(), "[1] y {2}");
    assert_eq!(extract_json_text("完全没有 json").unwrap_err(), "输出中未找到 JSON");
    assert_eq!(extract_json_text("{ 没有结束").unwrap_err(), "输出中未找到 JSON 结束符");
    assert_eq!(extract_json_text("} 然后 {").unwrap_err(), "JSON 边界异常");
}

#[test]
fn migration_from_old_layout() {
    let sec = LlmSection {
        base_url: Some("https://api.deepseek.com/v1".into()),
        api_key: Some("sk-legacy".into()),
        model: Some("deepseek-chat".into()),
        ..empty_section()
    };
    let (profiles, default) = profiles_of_section(sec);
    assert_eq!(profiles.len(), 1);
    assert_eq!(profiles[0].key, "deepseek", "端点反查预设 key");
    assert_eq!(profiles[0].api_key, "sk-legacy");
    assert_eq!(profiles[0].protocol, "openai");
    assert_eq!(default.as_deref(), Some("deepseek"));
    let custom = LlmSection {
        base_url: Some("https://example.com/v1".into()),
        model: Some("m".into()),
        ..empty_section()
    };
    let (profiles, default) = profiles_of_section(custom);
    assert_eq!(profiles[0].key, "custom");
    assert_eq!(profiles[0].api_key, "");
    assert_eq!(default.as_deref(), Some("custom"));
    let (profiles, default) = profiles_of_section(empty_section());
    assert!(profiles.is_empty());
    assert_eq!(default, None);
}

#[test]
fn default_key_falls_back_to_first() {
    let ps = vec![profile("deepseek", "u", "k", "m"), profile("kimi-code", "u", "k", "m")];
    let sec = LlmSection { profiles: ps.clone(), default: Some("kimi-code".into()), ..empty_section() };
    assert_eq!(profiles_of_section(sec).1.as_deref(), Some("kimi-code"));
    let sec = LlmSection { profiles: ps.clone(), default: Some("gone".into()), ..empty_section() };
    assert_eq!(profiles_of_section(sec).1.as_deref(), Some("deepseek"));
    let sec = LlmSection { profiles: ps, default: None, ..empty_section() };
    assert_eq!(profiles_of_section(sec).1.as_deref(), Some("deepseek"));
}

#[test]
fn preset_keys() {
    assert_eq!(preset_key_for(" https://api.kimi.com/coding/ ").as_deref(), Some("kimi-code"));
    assert_eq!(preset_key_for("https://openrouter.ai/api/v1").as_deref(), Some("openrouter"));
    assert_eq!(preset_key_for("https://example.com"), None);
}

#[test]
fn default_profile_config() {
    let ps = vec![profile("a", "https://x/v1", "sk", "m"), profile("b", " ", "sk", "m")];
    let cfg = load_llm_config(&ps, &Some("a".into())).unwrap();
    assert_eq!(cfg.base_url, "https://x/v1");
    assert_eq!(cfg.timeout_secs, 180);
    assert_eq!(cfg.max_attempts, 3);
    assert!(load_llm_config(&ps, &Some("b".into())).is_none());
    assert!(load_llm_config(&ps, &Some("c".into())).is_none());
    assert!(load_llm_config(&ps, &None).is_none());
    assert_eq!(default_timeout(), 180);
    assert_eq!(default_max_attempts(), 3);
    assert_eq!(default_protocol(), "openai");
}

#[test]
fn protocol_rules() {
    let mut cfg = LlmConfig {
        base_url: "u".into(),
        api_key: "k".into(),
        model: "m".into(),
        protocol: " anthropic ".into(),
        thinking: None,
        timeout_secs: 1,
        max_attempts: 1,
    };
    assert!(cfg.is_anthropic());
    cfg.protocol = "openai".into();
    assert!(!cfg.is_anthropic());
    assert_eq!(anthropic_url("https://api.kimi.com/coding/"), "https://api.kimi.com/coding/v1/messages");
    assert_eq!(anthropic_url("https://x.com/v1"), "https://x.com/v1/messages");
    assert_eq!(thinking_budget("low"), 2048);
    assert_eq!(thinking_budget("high"), 12288);
    assert_eq!(thinking_budget("medium"), 8192);
    assert_eq!(thinking_budget("x"), 8192);
    assert!(is_retryable_status(429));
    assert!(is_retryable_status(503));
    assert!(!is_retryable_status(404));
    assert!(should_retry(1, 3, true));
    assert!(!should_retry(3, 3, true));
    assert!(!should_retry(1, 3, false));
    assert_eq!(max_concurrency_of(None), 4);
    assert_eq!(max_concurrency_of(Some(0)), 1);
    assert_eq!(max_concurrency_of(Some(20)), 8);
    let w = section_to_write(vec![], Some("a".into()), Some(5));
    assert_eq!(w.max_concurrency, Some(5));
    assert_eq!(w.base_url, None);
}

#[test]
fn usage_merge_and_rate() {
    let mut slot = None;
    merge_usage(&mut slot, Usage { input: 100, output: 0, cache_read: 40, cache_write: 0 });
    merge_usage(&mut slot, Usage { input: 0, output: 20, cache_read: 0, cache_write: 0 });
    let u = slot.unwrap();
    assert_eq!(u, Usage { input: 100, output: 20, cache_read: 40, cache_write: 0 });
    assert_eq!(u.cache_hit_rate(), Some(40));
    assert_eq!(Usage::default().cache_hit_rate(), None);
}

#[test]
fn upstream_errors_are_classified_and_cut() {
    let body = "x".repeat(600);
    let e = upstream_error(429, "429 Too Many Requests", &body);
    assert!(e.retryable);
    assert_eq!(e.message, format!("上游返回 429 Too Many Requests：{}", "x".repeat(500)));
    let e = upstream_error(400, "400 Bad Request", "bad");
    assert!(!e.retryable);
    assert_eq!(e.message, "上游返回 400 Bad Request：bad");
}

fn block(kind: &str, text: Option<&str>, thinking: Option<&str>) -> AnthropicBlock {
    AnthropicBlock { kind: kind.into(), text: text.map(String::from), thinking: thinking.map(String::from) }
}

#[test]
fn anthropic_fallback_joins_text_and_thinking_blocks() {
    let blocks = vec![
        block("thinking", None, Some("先想")),
        block("text", Some("你好"), None),
        block("tool_use", Some("忽略"), None),
        block("text", Some("，世界"), None),
        block("text", None, None),
    ];
    let usage = Some(Usage { input: 3, output: 4, cache_read: 0, cache_write: 0 });
    let out = anthropic_fallback_output(&blocks, usage);
    assert_eq!(out, ChatOutput { text: "你好，世界".into(), thinking: "先想".into(), usage, fallback: true });
}

#[test]
fn openai_fallback_takes_the_first_message_and_larger_cache_counts() {
    let u = OpenAiUsage {
        prompt_tokens: 10,
        completion_tokens: 5,
        prompt_cache_hit_tokens: 7,
        cache_read_input_tokens: 2,
        prompt_cache_miss_tokens: 1,
        cache_creation_input_tokens: 3,
    };
    assert_eq!(openai_usage_of(u), Usage { input: 10, output: 5, cache_read: 7, cache_write: 3 });
    let out = openai_fallback_output(Some("答".into()), None, Some(u));
    assert_eq!(out.text, "答");
    assert_eq!(out.thinking, "");
    assert_eq!(out.usage, Some(Usage { input: 10, output: 5, cache_read: 7, cache_write: 3 }));
    assert!(out.fallback);
    assert_eq!(openai_fallback_output(None, None, None).text, "");
}

#[test]
fn fallback_result_requires_text() {
    let ok = ChatOutput { text: "答".into(), thinking: String::new(), usage: None, fallback: true };
    assert_eq!(fallback_result(Some(ok.clone()), "断流", "{}"), Ok(ok));
    let blank = ChatOutput { text: "  ".into(), thinking: String::new(), usage: None, fallback: true };
    let e = fallback_result(Some(blank), "断流", "{\"a\":1}").unwrap_err();
    assert!(e.retryable);
    assert_eq!(e.message, "断流；兜底响应解析失败或为空；开头：{\"a\":1}");
    let e = fallback_result(None, "断流", &"y".repeat(300)).unwrap_err();
    assert_eq!(e.message, format!("断流；兜底响应解析失败或为空；开头：{}", "y".repeat(200)));
}

#[test]
fn fallback_status_errors_keep_the_cause() {
    let e = fallback_status_error("断流", 503, "503 Service Unavailable", &"z".repeat(400));
    assert!(e.retryable);
    assert_eq!(e.message, format!("断流；兜底上游返回 503 Service Unavailable：{}", "z".repeat(300)));
    assert!(!fallback_status_error("断流", 401, "401 Unauthorized", "").retryable);
}

#[test]
fn openai_endpoint_drops_trailing_slashes() {
    assert_eq!(openai_url("https://api.deepseek.com/v1//"), "https://api.deepseek.com/v1/chat/completions");
    assert_eq!(openai_url("https://api.openai.com/v1"), "https://api.openai.com/v1/chat/completions");
}

fn msg(role: &str, content: &str) -> ChatMessage {
    ChatMessage { role: role.into(), content: content.into() }
}

#[test]
fn anthropic_requests_lift_the_system_messages() {
    let ms = vec![msg("system", "规则一"), msg("user", "你好"), msg("system", "规则二"), msg("assistant", "在")];
    let (system, turns) = anthropic_parts(&ms);
    assert_eq!(system, "规则一\n\n规则二");
    assert_eq!(turns, vec!["你好".to_string(), "在".to_string()]);
    let (system, turns) = anthropic_parts(&[]);
    assert_eq!(system, "");
    assert!(turns.is_empty());
}
