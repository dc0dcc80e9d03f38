use qbank::config::{get_analysis_model, AppConfig, ModelConfig};
use qbank::prompts::{
    analyze_examples_messages, analyze_exercises_messages, extract_structure_messages,
    first_choice_content, generate_answer_messages, ChatChoice, ChatMessage, ChatResponse,
};

fn model(id: &str, name: &str) -> ModelConfig {
    ModelConfig {
        id: id.to_string(),
        name: name.to_string(),
        provider: "openai".to_string(),
        api_url: "https://example.invalid/v1/chat/completions".to_string(),
        api_key: "test-key".to_string(),
        model_name: name.to_string(),
    }
}

#[test]
fn fresh_config_defaults() {
    let c = AppConfig::fresh();
    assert_eq!(c.theme, "system");
    assert!(c.models.is_empty());
    assert_eq!(c.storage_path, "");
    assert!(!c.use_paddle_ocr);
}

#[test]
fn analysis_model_is_picked_by_id_with_fallback() {
    let mut c = AppConfig::fresh();
    assert!(get_analysis_model(&c).is_none());
    c.add_model(model("m1", "first"));
    c.add_model(model("m2", "second"));
    // no id configured: fall back to the first model
    assert_eq!(get_analysis_model(&c).unwrap().id, "m1");
    c.analysis_model = "m2".to_string();
    assert_eq!(get_analysis_model(&c).unwrap().id, "m2");
    // an unknown id also falls back to the first model
    c.analysis_model = "missing".to_string();
    assert_eq!(get_analysis_model(&c).unwrap().id, "m1");
}

#[test]
fn models_can_be_added_and_removed() {
    let mut c = AppConfig::fresh();
    c.add_model(model("m1", "first"));
    c.add_model(model("m2", "second"));
    c.add_model(model("m1", "copy"));
    c.remove_model("m1");
    assert_eq!(c.models.len(), 1);
    assert_eq!(c.models[0].id, "m2");
}

#[test]
fn prompt_builders_make_two_turns() {
    let m = analyze_examples_messages("page text");
    assert_eq!(m.len(), 2);
    assert_eq!(m[0].role, "system");
    assert!(m[0].content.contains("examples"));
    assert_eq!(m[1].role, "user");
    assert!(m[1].content.ends_with("page text"));

    let m = analyze_exercises_messages("page text", "some context");
    assert_eq!(m.len(), 2);
    assert!(m[0].content.contains("exercises"));
    assert!(m[1].content.contains("some context"));
    assert!(m[1].content.ends_with("page text"));

    let m = generate_answer_messages("the question", "ctx");
    assert!(m[1].content.contains("ctx"));
    assert!(m[1].content.ends_with("the question"));

    let m = extract_structure_messages("text");
    assert!(m[0].content.contains("chapters"));
    assert!(m[1].content.ends_with("text"));
}

#[test]
fn first_choice_is_the_reply() {
    let resp = ChatResponse {
        id: "r1".to_string(),
        object: "chat.completion".to_string(),
        created: 0,
        model: "test".to_string(),
        choices: vec![ChatChoice {
            index: 0,
            message: ChatMessage {
                role: "assistant".to_string(),
                content: "the reply".to_string(),
            },
            finish_reason: Some("stop".to_string()),
        }],
    };
    assert_eq!(first_choice_content(&resp).unwrap(), "the reply");
    let empty = ChatResponse {
        id: "r2".to_string(),
        object: "chat.completion".to_string(),
        created: 0,
        model: "test".to_string(),
        choices: Vec::new(),
    };
    assert!(first_choice_content(&empty).is_none());
}
