use jarvis::jobs::{
    compose_summary, extract_keywords, extract_summary_keywords, is_fresh, live_jobs, mt_key,
    progress_value, replace_newlines_with_period, shutdown_done, trim_summary_pieces, Collector,
};
use jarvis::ids::Xid;
use jarvis::lang::Language;

#[test]
fn collector_reassembles_in_input_order() {
    let mut col: Collector<String> = Collector::new(3);
    col.record(2, 5, "three".to_string());
    col.record(0, 7, "one".to_string());
    assert!(!col.is_complete());
    col.record(1, 11, "two".to_string());
    assert!(col.is_complete());
    assert_eq!(col.tokens_so_far(), 23);
    let (done, total) = col.progress_parts();
    assert_eq!((done, total), (3, 3));
    let pieces = col.finish();
    assert_eq!(pieces, vec!["one".to_string(), "two".to_string(), "three".to_string()]);
}

#[test]
fn progress_rises_and_ends_at_hundred() {
    let mut last = 0i8;
    for done in 0..=7usize {
        let p = progress_value(done, 7);
        assert!(p >= last);
        last = p;
    }
    assert_eq!(progress_value(7, 7), 100);
    assert_eq!(progress_value(0, 7), 0);
    assert_eq!(progress_value(1, 3), 33);
}

#[test]
fn freshness_window_is_one_hour() {
    // a row written one second ago suppresses the second create
    assert!(is_fresh(true, true, 10_000_000, 9_999_000));
    assert!(!is_fresh(true, true, 10_000_000, 10_000_000 - 3_600_000));
    assert!(is_fresh(true, true, 10_000_000, 10_000_000 - 3_599_999));
    assert!(!is_fresh(false, true, 10_000_000, 9_999_000));
    assert!(!is_fresh(true, false, 10_000_000, 9_999_000));
}

#[test]
fn mt_key_has_the_cache_shape() {
    let id = Xid::from_bytes(vec![0u8; 12]).unwrap();
    let lang = Language::from_639_3("zho".to_string()).unwrap();
    let key = mt_key(&id, &lang, 3);
    assert_eq!(key, format!("MT:{}:zho:3", id.to_string()));
}

#[test]
fn shutdown_waits_for_both_sentinels() {
    assert!(shutdown_done(0, 5, 5));
    assert!(shutdown_done(30, 1, 1));
    assert!(!shutdown_done(30, 2, 1));
    assert!(!shutdown_done(30, 1, 3));
    assert_eq!(live_jobs(3), 2);
    assert_eq!(live_jobs(1), 0);
}

#[test]
fn trim_middle_keeps_head_and_tail() {
    // tiny pieces fit the budget: nothing is removed
    let pieces = vec!["a".to_string(), "b".to_string(), "c".to_string()];
    assert_eq!(trim_summary_pieces(pieces.clone()), pieces);

    // heavy pieces over budget: middles go, the first and last stay
    let heavy = "word ".repeat(1500);
    let head = format!("head {}", heavy);
    let tail = format!("tail {}", heavy);
    let pieces = vec![head.clone(), heavy.clone(), heavy.clone(), tail.clone()];
    let kept = trim_summary_pieces(pieces);
    assert_eq!(kept, vec![head.clone(), tail.clone()]);

    let pieces = vec![head.clone(), heavy.clone(), tail.clone()];
    let kept = trim_summary_pieces(pieces);
    assert_eq!(kept, vec![head, tail]);
}

#[test]
fn keywords_are_split_and_letter_trimmed() {
    let ks = extract_keywords("bitcoin, white paper, 翻译 ");
    assert_eq!(
        ks,
        vec!["bitcoin".to_string(), "white paper".to_string(), "翻译".to_string()]
    );
    let ks = extract_keywords("  one;; two !");
    assert_eq!(ks, vec!["one".to_string(), "two".to_string()]);
    let ks = extract_keywords("");
    assert!(ks.is_empty());
}

#[test]
fn summary_compose_and_extract_round_trip() {
    let stored = compose_summary(
        &vec!["alpha".to_string(), "beta".to_string()],
        "the summary body",
    );
    assert_eq!(stored, "alpha, beta\nthe summary body");
    let (body, keywords) = extract_summary_keywords(&stored);
    assert_eq!(body, "the summary body");
    assert_eq!(keywords, vec!["alpha".to_string(), "beta".to_string()]);

    let (body, keywords) = extract_summary_keywords("no newline here");
    assert_eq!(body, "no newline here");
    assert!(keywords.is_empty());
}

#[test]
fn single_piece_summary_flattens_newlines() {
    assert_eq!(replace_newlines_with_period("a\nb\nc"), "a. b. c");
    assert_eq!(replace_newlines_with_period("plain"), "plain");
}
