use expression_trainer::asr::{
    detect_paraformer, feed_outcome, final_text, resolve_model_dir, AsrInitError, AsrSession,
    FeedOutcome, ModelProbe, StartStep,
};
use expression_trainer::history::{
    entry_id, history_file_name, invalid_id_message, newest_first, sanitize_id, summarize_entry,
};
use expression_trainer::json::Json;

fn obj(fields: Vec<(&str, Json)>) -> Json {
    Json::Object(fields.into_iter().map(|(k, v)| (k.to_string(), v)).collect())
}

fn st(x: &str) -> Json {
    Json::Str(x.to_string())
}

fn id_of(j: &Json) -> String {
    match j.get("id") {
        Some(Json::Str(x)) => x.clone(),
        _ => String::new(),
    }
}

#[test]
fn ids_are_sanitized() {
    assert_eq!(sanitize_id("1718000000000"), Some("1718000000000".to_string()));
    assert_eq!(sanitize_id("a-B_9"), Some("a-B_9".to_string()));
    assert_eq!(sanitize_id(""), None);
    assert_eq!(sanitize_id("../etc"), None);
    assert_eq!(sanitize_id("a b"), None);
    assert_eq!(sanitize_id("中文"), None);
}

#[test]
fn file_names_and_entry_ids() {
    assert_eq!(history_file_name("123"), Some("123.json".to_string()));
    assert_eq!(history_file_name("x/y"), None);
    assert_eq!(entry_id(&obj(vec![("id", st("42"))])), Some("42".to_string()));
    assert_eq!(entry_id(&obj(vec![("id", Json::Number("42".to_string()))])), None);
    assert_eq!(entry_id(&obj(vec![("id", st("4.2"))])), None);
    assert_eq!(entry_id(&Json::Null), None);
    assert_eq!(invalid_id_message(), "无效的历史 id");
}

#[test]
fn summaries_take_preview_and_report_flag() {
    let long: String = "语".repeat(70);
    let e = obj(vec![
        ("id", st("1")),
        ("createdAt", st("2024")),
        ("fullText", st(&long)),
        ("report", st("  \n")),
        ("totalWords", Json::Number("12".to_string())),
    ]);
    let sum = summarize_entry(&e);
    assert!(matches!(sum.get("preview"), Some(Json::Str(p)) if p.chars().count() == 60));
    assert!(matches!(sum.get("hasReport"), Some(Json::Bool(false))));
    assert!(matches!(sum.get("totalWords"), Some(Json::Number(n)) if n == "12"));
    assert!(matches!(sum.get("fillers"), Some(Json::Number(n)) if n == "0"));
    assert!(matches!(sum.get("createdAt"), Some(Json::Str(c)) if c == "2024"));

    let e = obj(vec![("report", st("# 报告"))]);
    let sum = summarize_entry(&e);
    assert!(matches!(sum.get("hasReport"), Some(Json::Bool(true))));
    assert!(matches!(sum.get("id"), Some(Json::Null)));
    assert!(matches!(sum.get("preview"), Some(Json::Str(p)) if p.is_empty()));
}

#[test]
fn list_is_newest_first_and_stable() {
    let items = vec![
        obj(vec![("id", st("1700000000001")), ("n", st("a"))]),
        obj(vec![("id", st("1700000000003"))]),
        obj(vec![("id", Json::Null), ("n", st("c"))]),
        obj(vec![("id", st("1700000000002"))]),
        obj(vec![("n", st("e"))]),
    ];
    let sorted = newest_first(&items);
    let ids: Vec<String> = sorted.iter().map(id_of).collect();
    assert_eq!(ids, vec!["1700000000003", "1700000000002", "1700000000001", "", ""]);
    assert!(matches!(sorted[3].get("n"), Some(Json::Str(n)) if n == "c"));
    assert!(matches!(sorted[4].get("n"), Some(Json::Str(n)) if n == "e"));
}

#[test]
fn list_orders_by_text_not_number() {
    let items = vec![obj(vec![("id", st("9"))]), obj(vec![("id", st("10"))]), obj(vec![("id", st("9a"))])];
    let ids: Vec<String> = newest_first(&items).iter().map(id_of).collect();
    assert_eq!(ids, vec!["9a", "9", "10"]);
}

fn probe(t: bool, ei: bool, ef: bool, di: bool, df: bool) -> ModelProbe {
    ModelProbe { has_tokens: t, has_encoder_int8: ei, has_encoder_fp32: ef, has_decoder_int8: di, has_decoder_fp32: df }
}

#[test]
fn model_detection_prefers_int8() {
    assert_eq!(detect_paraformer(&probe(true, true, true, true, true)), Some(("encoder.int8.onnx", "decoder.int8.onnx")));
    assert_eq!(detect_paraformer(&probe(true, false, true, true, false)), Some(("encoder.onnx", "decoder.int8.onnx")));
    assert_eq!(detect_paraformer(&probe(false, true, true, true, true)), None);
    assert_eq!(detect_paraformer(&probe(true, true, true, false, false)), None);
    assert_eq!(detect_paraformer(&probe(true, false, false, true, true)), None);
}

#[test]
fn model_dir_is_first_usable_candidate() {
    let probes = vec![probe(false, true, true, true, true), probe(true, false, true, false, true), probe(true, true, true, true, true)];
    assert_eq!(resolve_model_dir(&probes), Some(1));
    assert_eq!(resolve_model_dir(&vec![probe(false, false, false, false, false)]), None);
    assert_eq!(resolve_model_dir(&Vec::new()), None);
}

#[test]
fn feed_outcomes() {
    assert!(matches!(feed_outcome("  ", true), FeedOutcome::Nothing));
    assert!(matches!(feed_outcome("", false), FeedOutcome::Nothing));
    assert!(matches!(feed_outcome(" 你好 ", false), FeedOutcome::Partial(t) if t == "你好"));
    assert!(matches!(feed_outcome("你好\u{3000}", true), FeedOutcome::Final(t) if t == "你好"));
    assert_eq!(final_text("\t结束 \n"), "结束");
}

#[test]
fn session_lifecycle() {
    let mut s = AsrSession::new();
    assert!(!s.can_feed());
    assert!(matches!(s.start_step(), StartStep::LoadEngine));
    assert!(!s.stop());
    s.started();
    assert!(s.can_feed());
    assert!(matches!(s.start_step(), StartStep::ReuseEngine));
    assert!(s.stop());
    assert!(!s.can_feed());
    assert!(!s.stop());
    assert!(matches!(s.start_step(), StartStep::ReuseEngine));
}

#[test]
fn init_error_messages() {
    assert_eq!(AsrInitError::ModelMissing.message(), "未找到内置语音模型（应用包内 models 缺失）");
    assert_eq!(AsrInitError::ModelIncomplete.message(), "模型目录缺少 encoder/decoder/tokens 文件");
    assert_eq!(AsrInitError::EngineFailed.message(), "识别引擎初始化失败（模型加载失败）");
}
