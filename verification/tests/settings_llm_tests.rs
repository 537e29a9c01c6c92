use expression_trainer::json::Json;
use expression_trainer::llm::{
    api_error_message, connection_test_config, extract_reply, messages, probe_messages, resolve, s,
};
use expression_trainer::settings::{
    can_load, default_provider_configs, default_settings, ensure_provider_defaults, migrate_flat,
    migrated_provider_key, settings_from_stored,
};

fn obj(fields: Vec<(&str, Json)>) -> Json {
    Json::Object(fields.into_iter().map(|(k, v)| (k.to_string(), v)).collect())
}

fn st(x: &str) -> Json {
    Json::Str(x.to_string())
}

fn str_at(j: &Json, path: &[&str]) -> Option<String> {
    let mut cur = j;
    for k in path {
        cur = cur.get(k)?;
    }
    match cur {
        Json::Str(x) => Some(x.clone()),
        _ => None,
    }
}

fn member_count(j: &Json) -> usize {
    match j {
        Json::Object(f) => f.len(),
        _ => 0,
    }
}

#[test]
fn default_settings_select_deepseek() {
    let d = default_settings();
    assert_eq!(str_at(&d, &["provider"]), Some("deepseek".to_string()));
    assert_eq!(member_count(d.get("providers").unwrap()), 4);
    assert_eq!(str_at(&d, &["providers", "ollama", "ollamaUrl"]), Some("http://localhost:11434".to_string()));
    assert_eq!(str_at(&d, &["providers", "openai", "model"]), Some("gpt-4o-mini".to_string()));
    assert_eq!(member_count(&default_provider_configs()), 4);
}

#[test]
fn provider_defaults_fill_missing_members_and_keep_set_ones() {
    let mut raw = obj(vec![
        ("provider", st("openai")),
        ("providers", obj(vec![("openai", obj(vec![("apiKey", st("k1"))])), ("mine", obj(vec![("x", st("y"))]))])),
        ("theme", st("dark")),
    ]);
    ensure_provider_defaults(&mut raw);
    assert_eq!(str_at(&raw, &["providers", "openai", "apiKey"]), Some("k1".to_string()));
    assert_eq!(str_at(&raw, &["providers", "openai", "model"]), Some("gpt-4o-mini".to_string()));
    assert_eq!(str_at(&raw, &["providers", "deepseek", "model"]), Some("deepseek-chat".to_string()));
    assert_eq!(str_at(&raw, &["providers", "custom", "baseUrl"]), Some(String::new()));
    assert_eq!(str_at(&raw, &["providers", "mine", "x"]), Some("y".to_string()));
    assert_eq!(str_at(&raw, &["theme"]), Some("dark".to_string()));
}

#[test]
fn provider_defaults_replace_non_object_block() {
    let mut raw = obj(vec![("providers", obj(vec![("ollama", st("oops"))]))]);
    ensure_provider_defaults(&mut raw);
    assert_eq!(str_at(&raw, &["providers", "ollama", "model"]), Some("qwen2.5:7b".to_string()));
}

#[test]
fn provider_defaults_leave_non_object_providers_alone() {
    let mut raw = obj(vec![("providers", Json::Null)]);
    ensure_provider_defaults(&mut raw);
    assert!(matches!(raw.get("providers"), Some(Json::Null)));
}

#[test]
fn migration_moves_flat_members() {
    let raw = obj(vec![
        ("provider", st("openai")),
        ("apiKey", st("sk")),
        ("model", st("gpt-4o")),
        ("ollamaUrl", st("http://box:11434")),
        ("customEndpoint", st("http://proxy/v1")),
        ("customModel", st("llama")),
    ]);
    assert_eq!(migrated_provider_key(&raw), "openai");
    let m = migrate_flat(&raw);
    assert_eq!(str_at(&m, &["provider"]), Some("openai".to_string()));
    assert_eq!(str_at(&m, &["providers", "openai", "apiKey"]), Some("sk".to_string()));
    assert_eq!(str_at(&m, &["providers", "openai", "model"]), Some("gpt-4o".to_string()));
    assert_eq!(str_at(&m, &["providers", "ollama", "ollamaUrl"]), Some("http://box:11434".to_string()));
    assert_eq!(str_at(&m, &["providers", "custom", "baseUrl"]), Some("http://proxy/v1".to_string()));
    assert_eq!(str_at(&m, &["providers", "custom", "model"]), Some("llama".to_string()));
    assert_eq!(str_at(&m, &["providers", "deepseek", "apiKey"]), Some(String::new()));
}

#[test]
fn migration_defaults_provider_to_deepseek() {
    let raw = obj(vec![("apiKey", st("sk"))]);
    assert_eq!(migrated_provider_key(&raw), "deepseek");
    let m = migrate_flat(&raw);
    assert_eq!(str_at(&m, &["provider"]), Some("deepseek".to_string()));
    assert_eq!(str_at(&m, &["providers", "deepseek", "apiKey"]), Some("sk".to_string()));
}

#[test]
fn loading_decisions() {
    let (d, write) = settings_from_stored(None);
    assert!(!write);
    assert_eq!(str_at(&d, &["provider"]), Some("deepseek".to_string()));

    let flat = obj(vec![("provider", st("deepseek")), ("apiKey", st("k"))]);
    assert!(can_load(&Some(obj(vec![("provider", st("deepseek")), ("apiKey", st("k"))]))));
    let (m, write) = settings_from_stored(Some(flat));
    assert!(write);
    assert_eq!(str_at(&m, &["providers", "deepseek", "apiKey"]), Some("k".to_string()));

    let (again, write) = settings_from_stored(Some(m));
    assert!(!write);
    assert_eq!(str_at(&again, &["providers", "deepseek", "apiKey"]), Some("k".to_string()));
}

#[test]
fn loading_unknown_flat_provider_is_refused() {
    let raw = obj(vec![("provider", st("other")), ("apiKey", st("k"))]);
    assert!(!can_load(&Some(raw)));
    let raw = obj(vec![("provider", st("other"))]);
    assert!(can_load(&Some(raw)));
    assert!(can_load(&None));
}

#[test]
fn resolve_openai_and_deepseek() {
    let set = obj(vec![("provider", st("openai")), ("providers", obj(vec![("openai", obj(vec![("apiKey", st("k")), ("model", st(""))]))]))]);
    let cfg = resolve(&set).unwrap();
    assert_eq!(cfg.endpoint, "https://api.openai.com/v1/chat/completions");
    assert_eq!(cfg.api_key, "k");
    assert_eq!(cfg.model, "gpt-4o-mini");

    let cfg = resolve(&obj(vec![])).unwrap();
    assert_eq!(cfg.endpoint, "https://api.deepseek.com/v1/chat/completions");
    assert_eq!(cfg.api_key, "");
    assert_eq!(cfg.model, "deepseek-chat");
}

#[test]
fn resolve_ollama() {
    let set = obj(vec![("provider", st("ollama")), ("providers", obj(vec![("ollama", obj(vec![("ollamaUrl", st("http://gpu:8080")), ("model", st("qwen3"))]))]))]);
    let cfg = resolve(&set).unwrap();
    assert_eq!(cfg.endpoint, "http://gpu:8080/v1/chat/completions");
    assert_eq!(cfg.api_key, "ollama");
    assert_eq!(cfg.model, "qwen3");

    let set = obj(vec![("provider", st("ollama"))]);
    let cfg = resolve(&set).unwrap();
    assert_eq!(cfg.endpoint, "http://localhost:11434/v1/chat/completions");
    assert_eq!(cfg.model, "qwen2.5:7b");
}

#[test]
fn resolve_custom() {
    let set = obj(vec![
        ("provider", st("custom")),
        ("providers", obj(vec![("custom", obj(vec![("baseUrl", st("https://api.x.ai/v1//")), ("apiKey", st("t")), ("model", st("m1")), ("customModel", st("m2"))]))])),
    ]);
    let cfg = resolve(&set).unwrap();
    assert_eq!(cfg.endpoint, "https://api.x.ai/v1/chat/completions");
    assert_eq!(cfg.api_key, "t");
    assert_eq!(cfg.model, "m2");

    let set = obj(vec![("provider", st("custom")), ("providers", obj(vec![("custom", obj(vec![("model", st("m1"))]))]))]);
    let cfg = resolve(&set).unwrap();
    assert_eq!(cfg.endpoint, "");
    assert_eq!(cfg.model, "m1");
}

#[test]
fn resolve_unknown_provider() {
    let set = obj(vec![("provider", st("foo"))]);
    match resolve(&set) {
        Err(e) => assert_eq!(e, "未知的 provider: foo"),
        Ok(_) => panic!("unknown provider must be refused"),
    }
}

#[test]
fn connection_test_needs_endpoint() {
    let set = obj(vec![("provider", st("custom"))]);
    match connection_test_config(&set) {
        Err(e) => assert_eq!(e, "端点地址未配置"),
        Ok(_) => panic!("an empty endpoint must be refused"),
    }
    let set = obj(vec![("provider", st("bar"))]);
    assert_eq!(connection_test_config(&set).err(), Some("未知的 provider: bar".to_string()));
    assert!(connection_test_config(&obj(vec![])).is_ok());
}

#[test]
fn reply_extraction() {
    let data = obj(vec![(
        "choices",
        Json::Array(vec![obj(vec![("message", obj(vec![("role", st("assistant")), ("content", st("好的"))]))])]),
    )]);
    assert_eq!(extract_reply(&data), Ok("好的".to_string()));
    assert_eq!(extract_reply(&obj(vec![("choices", Json::Array(vec![]))])), Err("响应中没有内容".to_string()));
    assert_eq!(extract_reply(&Json::Null), Err("响应中没有内容".to_string()));
}

#[test]
fn error_message_for_status() {
    assert_eq!(api_error_message(404, "not found"), "API 请求失败 (404): not found");
    assert_eq!(api_error_message(0, ""), "API 请求失败 (0): ");
}

#[test]
fn chat_messages_shape() {
    let m = messages("sys", "hi");
    match m {
        Json::Array(items) => {
            assert_eq!(items.len(), 2);
            assert_eq!(str_at(&items[0], &["role"]), Some("system".to_string()));
            assert_eq!(str_at(&items[0], &["content"]), Some("sys".to_string()));
            assert_eq!(str_at(&items[1], &["role"]), Some("user".to_string()));
            assert_eq!(str_at(&items[1], &["content"]), Some("hi".to_string()));
        }
        _ => panic!("messages must be an array"),
    }
    match probe_messages() {
        Json::Array(items) => assert_eq!(str_at(&items[0], &["content"]), Some("OK".to_string())),
        _ => panic!("messages must be an array"),
    }
}

#[test]
fn string_member_or_empty() {
    let v = obj(vec![("a", st("x")), ("b", Json::Bool(true))]);
    assert_eq!(s(&v, "a"), "x");
    assert_eq!(s(&v, "b"), "");
    assert_eq!(s(&v, "c"), "");
}

fn same(a: &Json, b: &Json) -> bool {
    match (a, b) {
        (Json::Null, Json::Null) => true,
        (Json::Bool(x), Json::Bool(y)) => x == y,
        (Json::Number(x), Json::Number(y)) => x == y,
        (Json::Str(x), Json::Str(y)) => x == y,
        (Json::Array(x), Json::Array(y)) => x.len() == y.len() && x.iter().zip(y).all(|(p, q)| same(p, q)),
        (Json::Object(x), Json::Object(y)) => {
            x.len() == y.len() && x.iter().zip(y).all(|(p, q)| p.0 == q.0 && same(&p.1, &q.1))
        }
        _ => false,
    }
}

#[test]
fn completing_defaults_twice_is_completing_once() {
    let mut once = obj(vec![
        ("provider", st("ollama")),
        ("providers", obj(vec![("ollama", obj(vec![("extra", st("e")), ("model", st("m"))])), ("custom", st("x"))])),
    ]);
    ensure_provider_defaults(&mut once);
    let mut twice = once.deep_clone();
    ensure_provider_defaults(&mut twice);
    assert!(same(&once, &twice));
}

#[test]
fn loaded_settings_load_again_unchanged() {
    let inputs = vec![
        None,
        Some(obj(vec![("provider", st("ollama")), ("apiKey", st("k")), ("customModel", st("c"))])),
        Some(obj(vec![("providers", obj(vec![("openai", obj(vec![("apiKey", st("k"))]))]))])),
    ];
    for stored in inputs {
        let (first, _) = settings_from_stored(stored);
        let (second, write) = settings_from_stored(Some(first.deep_clone()));
        assert!(!write);
        assert!(same(&first, &second));
    }
}
