use jarvis::content::TEContent;
use jarvis::llm::AIModel;
use jarvis::segment::TESegmenter;

fn c(id: &str, texts: &[&str]) -> TEContent {
    TEContent {
        id: id.to_string(),
        texts: texts.iter().map(|t| t.to_string()).collect(),
    }
}

fn sep() -> TEContent {
    c("------", &[])
}

#[test]
fn small_document_makes_one_unit() {
    let content = vec![c("a", &["hello"]), sep(), c("b", &["world"])];
    let units = content.segment(&AIModel::GPT3_5);
    assert_eq!(units.len(), 1);
    assert_eq!(units[0].content.len(), 2);
    assert_eq!(units[0].content[0].id, "a");
    assert_eq!(units[0].content[1].id, "b");
    assert!(units[0].tokens > 0);
}

#[test]
fn segment_keeps_non_separator_items_in_order() {
    let content = vec![
        c("a", &["one"]),
        c("skipme", &[]),
        sep(),
        c("b", &["two"]),
        c("c", &["three"]),
    ];
    let units = content.segment(&AIModel::GPT4);
    let mut ids: Vec<String> = Vec::new();
    for u in &units {
        for item in &u.content {
            ids.push(item.id.clone());
        }
    }
    assert_eq!(ids, vec!["a".to_string(), "b".to_string(), "c".to_string()]);
}

#[test]
fn long_document_splits_under_the_high_budget() {
    // each item is roughly 600 tokens; ten of them cannot fit one 3400-token unit
    let big = "lorem ipsum dolor sit amet consectetur ".repeat(100);
    let mut content = Vec::new();
    for i in 0..10 {
        content.push(c(&format!("n{}", i), &[big.as_str()]));
    }
    let units = content.segment(&AIModel::GPT3_5);
    assert!(units.len() > 1);
    let mut total_items = 0;
    for u in &units {
        assert!(u.tokens <= 3400 || u.content.len() == 1);
        total_items += u.content.len();
    }
    assert_eq!(total_items, 10);
}

#[test]
fn summarizing_segments_join_with_newlines() {
    let content = vec![c("a", &["first  part"]), c("b", &["second part"])];
    let pieces = content.segment_for_summarizing();
    assert_eq!(pieces, vec!["first part\nsecond part".to_string()]);
}

#[test]
fn embedding_segments_group_units() {
    let content = vec![c("a", &["alpha"]), c("b", &["beta"])];
    let groups = content.segment_for_embedding();
    assert_eq!(groups.len(), 1);
    assert_eq!(groups[0].len(), 1);
    assert_eq!(groups[0][0].content.len(), 2);
}

#[test]
fn detect_lang_string_joins_with_newlines() {
    let content = vec![c("a", &["hello there"]), c("b", &["good day"])];
    assert_eq!(content.detect_lang_string(), "hello\nthere\ngood\nday\n");
}
