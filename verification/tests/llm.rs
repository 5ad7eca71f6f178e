use jarvis::llm::{
    azure_api_path, check_chat_response, decode_translated, keywords_prompt,
    rewrite_error_status, rewrite_response_status, select_backend, should_compress, should_retry,
    summarize_prompt, translate_prompt, AIModel, ChatChoice,
};

fn choice(reason: Option<&str>, content: Option<&str>) -> ChatChoice {
    ChatChoice {
        finish_reason: reason.map(|s| s.to_string()),
        content: content.map(|s| s.to_string()),
    }
}

#[test]
fn model_names_round_trip() {
    assert_eq!(AIModel::GPT3_5.openai_name(), "gpt-3.5-turbo");
    assert_eq!(AIModel::GPT4.openai_name(), "gpt-4");
    assert_eq!(AIModel::GPT3_5.to_string(), "gpt-3.5");
    assert_eq!(AIModel::GPT4.to_string(), "gpt-4");
    assert_eq!(AIModel::from_str("gpt-3.5"), Some(AIModel::GPT3_5));
    assert_eq!(AIModel::from_str("gpt-4"), Some(AIModel::GPT4));
    assert_eq!(AIModel::from_str("gpt-5"), None);
    assert_eq!(AIModel::GPT3_5.max_tokens(), 4096);
    assert_eq!(AIModel::GPT4.translating_segment_tokens(), (3000, 3400));
}

#[test]
fn stop_choice_is_accepted() {
    let r = check_chat_response(vec![choice(Some("stop"), Some("ok"))]);
    assert!(r.is_ok());
    assert_eq!(r.unwrap().content, Some("ok".to_string()));
    let r = check_chat_response(vec![choice(None, Some("ok"))]);
    assert!(r.is_ok());
}

#[test]
fn content_filter_maps_to_452() {
    let r = check_chat_response(vec![choice(Some("content_filter"), Some("redacted"))]);
    let e = r.err().unwrap();
    assert_eq!(e.code, 452);
    assert_eq!(e.message, "Content was triggered the filtering model");
    assert_eq!(e.data, Some("redacted".to_string()));
}

#[test]
fn length_maps_to_422_and_unknown_to_500() {
    let e = check_chat_response(vec![choice(Some("length"), None)]).err().unwrap();
    assert_eq!(e.code, 422);
    assert_eq!(e.message, "Incomplete output due to max_tokens parameter");
    let e = check_chat_response(vec![choice(Some("tool_calls"), None)]).err().unwrap();
    assert_eq!(e.code, 500);
    let e = check_chat_response(vec![]).err().unwrap();
    assert_eq!(e.code, 500);
}

#[test]
fn retry_policy_covers_rate_limit_and_server_errors() {
    assert!(should_retry(429));
    assert!(should_retry(500));
    assert!(should_retry(502));
    assert!(!should_retry(400));
    assert!(!should_retry(451));
    assert!(!should_retry(200));
}

#[test]
fn status_rewrites() {
    assert_eq!(rewrite_response_status(400, "...context_length_exceeded..."), 422);
    assert_eq!(rewrite_response_status(400, "...content_filter..."), 451);
    assert_eq!(rewrite_response_status(400, "other"), 400);
    assert_eq!(rewrite_response_status(500, "content_filter"), 500);
    assert_eq!(rewrite_error_status(500, "connection timed out"), 504);
    assert_eq!(rewrite_error_status(500, "timeout waiting"), 504);
    assert_eq!(rewrite_error_status(500, "boom"), 500);
    assert_eq!(rewrite_error_status(502, "timeout"), 502);
}

#[test]
fn decode_translated_repairs_bad_escapes_and_stray_quotes() {
    // a lone backslash gains its escape; a stray quote that cannot close a
    // string is dropped
    let (rows, fixed) = decode_translated("[[\"1:\",\"你\\好\"], [\"2:\",\"世\"界\"]]").unwrap();
    assert!(fixed);
    assert_eq!(
        rows,
        vec![
            vec!["1:".to_string(), "你\\好".to_string()],
            vec!["2:".to_string(), "世界".to_string()],
        ]
    );

    // a reply cut off before the closing brackets is closed at the end
    let (rows, fixed) = decode_translated("[[\"1:\",\"你好\"], [\"2:\",\"世界\"").unwrap();
    assert!(fixed);
    assert_eq!(
        rows,
        vec![
            vec!["1:".to_string(), "你好".to_string()],
            vec!["2:".to_string(), "世界".to_string()],
        ]
    );

    let (rows, fixed) = decode_translated(r#"[["1:","a"]]"#).unwrap();
    assert!(!fixed);
    assert_eq!(rows, vec![vec!["1:".to_string(), "a".to_string()]]);

    let err = decode_translated("not json at all").err().unwrap();
    assert_eq!(err.code, 500);
}

#[test]
fn backend_selection_rotates_over_available() {
    let avail = vec![false, true, false, true];
    assert_eq!(select_backend(&avail, 0), Some(1));
    assert_eq!(select_backend(&avail, 1), Some(3));
    assert_eq!(select_backend(&avail, 2), Some(1));
    assert_eq!(select_backend(&vec![false, false], 7), None);
}

#[test]
fn compression_threshold() {
    assert!(!should_compress(255));
    assert!(should_compress(256));
}

#[test]
fn prompts_carry_their_parameters() {
    let p = translate_prompt("English", "Chinese", "");
    assert!(p.contains("English and Chinese languages"));
    assert!(p.contains("not provide."));
    let p = translate_prompt("", "Chinese", "tech\ndoc");
    assert!(p.contains("Chinese language."));
    assert!(p.contains("tech. doc"));
    let p = summarize_prompt("French");
    assert!(p.contains("summaries of the user input in French."));
    let p = keywords_prompt("German");
    assert!(p.contains("keywords from the user input text in German."));
}

#[test]
fn azure_paths_follow_deployments() {
    let p = azure_api_path("ada2", "embeddings", "2023-05-15").unwrap();
    assert_eq!(p, "/openai/deployments/ada2/embeddings?api-version=2023-05-15");
    assert!(azure_api_path("", "embeddings", "2023-05-15").is_none());
}
