use jarvis::content::{TEContent, TEUnit};

fn c(id: &str, texts: &[&str]) -> TEContent {
    TEContent {
        id: id.to_string(),
        texts: texts.iter().map(|t| t.to_string()).collect(),
    }
}

#[test]
fn teunit_to_translating() {
    let unit = TEUnit {
        tokens: 0,
        content: vec![c("abc", &["text1", "text2"]), c("efg", &["text3", "text4"])],
    };

    let rt = unit.to_translating_list();
    assert_eq!(rt.len(), 2);
    assert_eq!(
        rt[0],
        vec!["1:".to_string(), "text1".to_string(), "text2".to_string()]
    );
    assert_eq!(
        rt[1],
        vec!["2:".to_string(), "text3".to_string(), "text4".to_string()]
    );

    let rt = unit.replace_texts(&vec![
        vec!["1:".to_string(), "text_1".to_string(), "text_2".to_string()],
        vec!["2:".to_string(), "text_3".to_string(), "text_4".to_string()],
    ]);
    assert_eq!(rt.len(), 2);
    assert_eq!(rt[0], c("abc", &["text_1", "text_2"]));
    assert_eq!(rt[1], c("efg", &["text_3", "text_4"]));

    let rt = unit.replace_texts(&vec![
        vec!["text_1".to_string(), "text_2".to_string()],
        vec!["2:".to_string(), "text_3".to_string(), "text_4".to_string()],
    ]);
    assert_eq!(rt.len(), 2);
    assert_eq!(rt[0], c("abc", &["text_1", "text_2"]));
    assert_eq!(rt[1], c("efg", &["text_3", "text_4"]));

    let rt = unit.replace_texts(&vec![
        vec!["1:".to_string(), "text_1".to_string(), "text_2".to_string()],
        vec!["text_3".to_string(), "text_4".to_string()],
    ]);
    assert_eq!(rt.len(), 2);
    assert_eq!(rt[0], c("abc", &["text_1", "text_2"]));
    assert_eq!(rt[1], c("efg", &["text_3", "text_4"]));

    let rt = unit.replace_texts(&vec![vec![
        "1:".to_string(),
        "text_1".to_string(),
        "text_2".to_string(),
    ]]);
    assert_eq!(rt.len(), 2);
    assert_eq!(rt[0], c("abc", &["text_1", "text_2"]));
    assert_eq!(rt[1], c("efg", &[]));

    let rt = unit.replace_texts(&vec![vec![
        "2:".to_string(),
        "text_1".to_string(),
        "text_2".to_string(),
    ]]);
    assert_eq!(rt.len(), 2);
    assert_eq!(rt[0], c("abc", &[]));
    assert_eq!(rt[1], c("efg", &["text_1", "text_2"]));
}

#[test]
fn replace_texts_accepts_every_colon_variant() {
    let unit = TEUnit {
        tokens: 0,
        content: vec![c("a", &["x"]), c("b", &["y"])],
    };
    let colons = ['\u{003A}', '\u{02F8}', '\u{05C3}', '\u{2236}', '\u{A789}', '\u{FE13}', '\u{FF1A}', '\u{FE55}'];
    let plain = unit.replace_texts(&vec![
        vec!["1:".to_string(), "one".to_string()],
        vec!["2:".to_string(), "two".to_string()],
    ]);
    for colon in colons {
        let rows = vec![
            vec![format!("1{}", colon), "one".to_string()],
            vec![format!("2{}", colon), "two".to_string()],
        ];
        let rt = unit.replace_texts(&rows);
        assert_eq!(rt.len(), plain.len());
        for (a, b) in rt.iter().zip(plain.iter()) {
            assert_eq!(a, b);
        }
    }
}

#[test]
fn to_string_collapses_whitespace() {
    let item = c("n", &["  hello   world ", "again\t\tnow"]);
    assert_eq!(item.to_string(' '), "hello world again now");
    assert_eq!(item.to_embedding_string(), "hello world again now");
    assert_eq!(item.to_string('\n'), "hello\nworld\nagain\nnow");
}

#[test]
fn to_translating_string_is_compact_json() {
    let item = c("n", &["a\"b", "c\\d", "line\nbreak"]);
    assert_eq!(item.to_translating_string(), r#"["a\"b","c\\d","line\nbreak"]"#);
    let empty = c("n", &[]);
    assert_eq!(empty.to_translating_string(), "[]");
}

#[test]
fn unit_embedding_string_ends_sentences() {
    let unit = TEUnit {
        tokens: 7,
        content: vec![c("a", &["Hello world."]), c("b", &["Second part"])],
    };
    assert_eq!(unit.to_embedding_string(), "Hello world. Second part.");
    assert_eq!(unit.ids(), vec!["a".to_string(), "b".to_string()]);
    assert_eq!(unit.content_to_embedding_string(), "Hello world.; Second part");
}
