use expression_trainer::json::Json;
use expression_trainer::lexicon::{
    analyze_text, segment_text, vague_lookup, vague_to_precise, EmotionLexicon, Suggestion,
};

fn empty_lexicon() -> EmotionLexicon {
    EmotionLexicon { emotions: Json::Object(Vec::new()) }
}

fn obj(fields: Vec<(&str, Json)>) -> Json {
    Json::Object(fields.into_iter().map(|(k, v)| (k.to_string(), v)).collect())
}

fn s(x: &str) -> Json {
    Json::Str(x.to_string())
}

fn anger_lexicon() -> EmotionLexicon {
    let doc = obj(vec![(
        "emotions",
        obj(vec![("愤怒", obj(vec![("category", s("怒")), ("intensity", Json::Number("7".to_string()))]))]),
    )]);
    EmotionLexicon::from_document(&doc)
}

#[test]
fn segmentation_takes_longest_dictionary_words() {
    let words = segment_text("嗯我觉得很好", &empty_lexicon());
    assert_eq!(words, vec!["嗯", "我觉得", "很好"]);
}

#[test]
fn segmentation_prefers_longer_match() {
    // "想想" is in the dictionary as well as "想"; the longer one wins.
    let words = segment_text("想想看", &empty_lexicon());
    assert_eq!(words, vec!["想想", "看"]);
}

#[test]
fn segmentation_of_empty_text_is_empty() {
    assert!(segment_text("", &empty_lexicon()).is_empty());
}

#[test]
fn segmentation_reassembles_text() {
    let text = "我觉得这个方案可能不太好，然后就是很多问题";
    let words = segment_text(text, &empty_lexicon());
    assert_eq!(words.concat(), text);
    assert!(words.iter().all(|w| !w.is_empty() && w.chars().count() <= 6));
}

#[test]
fn segmentation_uses_emotion_words() {
    let words = segment_text("我很愤怒", &anger_lexicon());
    assert_eq!(words, vec!["我", "很", "愤怒"]);
}

#[test]
fn vague_lookup_finds_alternatives() {
    let alts = vague_lookup("很好").unwrap();
    assert_eq!(alts, vec!["出色", "精彩", "优秀", "惊艳", "完美", "理想"]);
    assert!(vague_lookup("美好").is_none());
}

#[test]
fn vague_table_has_twenty_rows() {
    let table = vague_to_precise();
    assert_eq!(table.len(), 20);
    assert_eq!(table[0].0, "开心");
    assert_eq!(table[19].0, "想想");
}

#[test]
fn blank_text_has_no_analysis() {
    assert!(analyze_text("", &empty_lexicon()).is_none());
    assert!(analyze_text("  \u{3000}\n\t", &empty_lexicon()).is_none());
}

#[test]
fn analysis_counts_and_suggests() {
    let a = analyze_text("嗯我觉得很好", &empty_lexicon()).unwrap();
    assert_eq!(a.total_words, 3);
    assert_eq!(a.fillers.len(), 1);
    assert_eq!(a.fillers[0].word, "嗯");
    assert_eq!(a.fillers[0].position, 0);
    assert_eq!(a.hedges.len(), 1);
    assert_eq!(a.hedges[0].word, "我觉得");
    assert_eq!(a.hedges[0].position, 1);
    assert_eq!(a.vague_words.len(), 1);
    assert_eq!(a.vague_words[0].word, "很好");
    assert_eq!(a.vague_words[0].position, 2);
    assert_eq!(a.meaningful_words(), 1);
    assert_eq!(a.suggestions.len(), 1);
    match &a.suggestions[0] {
        Suggestion::Vague { original, alternatives, message } => {
            assert_eq!(original, "很好");
            assert_eq!(alternatives, &vec!["出色", "精彩", "优秀"]);
            assert_eq!(message, "「很好」→ 试试更精准的：出色、精彩、优秀");
        }
        _ => panic!("expected a vague-word suggestion"),
    }
}

#[test]
fn analysis_filler_and_hedge_suggestions() {
    let a = analyze_text("嗯嗯嗯可能也许", &empty_lexicon()).unwrap();
    assert_eq!(a.total_words, 5);
    assert_eq!(a.fillers.len(), 3);
    assert_eq!(a.hedges.len(), 2);
    assert_eq!(a.meaningful_words(), 0);
    assert_eq!(a.suggestions.len(), 2);
    match &a.suggestions[0] {
        Suggestion::Filler { message } => assert_eq!(message, "填充词偏多（3次）：嗯。试试用停顿替代"),
        _ => panic!("expected a filler suggestion"),
    }
    match &a.suggestions[1] {
        Suggestion::Hedge { message } => {
            assert_eq!(message, "犹豫表达较多（2次）。试试把「我觉得」改成直接陈述")
        }
        _ => panic!("expected a hedge suggestion"),
    }
}

#[test]
fn filler_suggestion_lists_three_distinct_words() {
    let a = analyze_text("嗯啊嗯呃额", &empty_lexicon()).unwrap();
    assert_eq!(a.fillers.len(), 5);
    match &a.suggestions[0] {
        Suggestion::Filler { message } => {
            assert_eq!(message, "填充词偏多（5次）：嗯、啊、呃。试试用停顿替代")
        }
        _ => panic!("expected a filler suggestion"),
    }
}

#[test]
fn analysis_finds_emotion_words() {
    let a = analyze_text("我很愤怒", &anger_lexicon()).unwrap();
    assert_eq!(a.emotion_words.len(), 1);
    assert_eq!(a.emotion_words[0].word, "愤怒");
    assert_eq!(a.emotion_words[0].position, 2);
    assert_eq!(a.meaningful_words(), 3);
}

#[test]
fn analysis_json_shape() {
    let a = analyze_text("我很愤怒", &anger_lexicon()).unwrap();
    let j = a.to_json();
    assert_eq!(j.get("totalWords").and_then(|n| match n { Json::Number(t) => Some(t.clone()), _ => None }), Some("3".to_string()));
    let emo = match j.get("emotionWords") {
        Some(Json::Array(items)) => items,
        _ => panic!("emotionWords must be an array"),
    };
    let first = &emo[0];
    assert!(matches!(first.get("word"), Some(Json::Str(w)) if w == "愤怒"));
    assert!(matches!(first.get("position"), Some(Json::Number(p)) if p == "2"));
    assert!(matches!(first.get("category"), Some(Json::Str(c)) if c == "怒"));
    assert!(matches!(first.get("intensity"), Some(Json::Number(n)) if n == "7"));
    assert!(j.get("density").is_none());
}

#[test]
fn fillers_and_hedges_never_outnumber_words() {
    for text in ["嗯嗯嗯", "可能也许大概", "嗯可能然后应该", "今天天气不错"] {
        let a = analyze_text(text, &empty_lexicon()).unwrap();
        assert!(a.fillers.len() + a.hedges.len() <= a.total_words);
        assert_eq!(a.meaningful_words(), a.total_words - a.fillers.len() - a.hedges.len());
    }
}
