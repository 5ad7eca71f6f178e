use jarvis::ids::Xid;
use jarvis::lang::Language;
use jarvis::search::{build_filter, choose_public, dedupe_by_cid, search_prepare, SearchHit};

fn hit(cid_seed: u8, version: u16) -> SearchHit {
    SearchHit {
        gid: Xid::from_bytes(vec![1u8; 12]).unwrap(),
        cid: Xid::from_bytes(vec![cid_seed; 12]).unwrap(),
        language: Language::from_639_3("eng".to_string()).unwrap(),
        version,
    }
}

#[test]
fn empty_input_is_refused() {
    let err = search_prepare("").err().unwrap();
    assert_eq!(err.code, 400);
}

#[test]
fn short_queries_are_skipped_without_any_calls() {
    // far fewer than five tokens
    let plan = search_prepare("hi").unwrap();
    assert!(plan.is_none());
}

#[test]
fn long_queries_are_normalized_and_run() {
    let plan = search_prepare("  how   does\tthe bitcoin white paper describe mining ").unwrap();
    let q = plan.unwrap();
    assert_eq!(q, "how does the bitcoin white paper describe mining");
}

#[test]
fn filter_pairs_follow_present_keys() {
    assert!(build_filter(None, None, None).is_none());
    let f = build_filter(Some("g1".to_string()), None, Some("c1".to_string())).unwrap();
    assert_eq!(f.len(), 2);
    assert_eq!(f[0], ("gid".to_string(), "g1".to_string()));
    assert_eq!(f[1], ("cid".to_string(), "c1".to_string()));
    let f = build_filter(None, Some("zho".to_string()), None).unwrap();
    assert_eq!(f, vec![("language".to_string(), "zho".to_string())]);
}

#[test]
fn missing_gid_forces_public() {
    assert!(choose_public(false, None));
    assert!(choose_public(false, Some(false)));
    assert!(choose_public(true, Some(true)));
    assert!(!choose_public(true, Some(false)));
    assert!(!choose_public(true, None));
}

#[test]
fn results_are_deduplicated_by_cid() {
    let hits = vec![hit(1, 1), hit(2, 1), hit(1, 2), hit(3, 1), hit(2, 9)];
    let out = dedupe_by_cid(hits);
    assert_eq!(out.len(), 3);
    assert_eq!(out[0].version, 1);
    assert!(out[0].cid.eq_id(&Xid::from_bytes(vec![1u8; 12]).unwrap()));
    assert!(out[1].cid.eq_id(&Xid::from_bytes(vec![2u8; 12]).unwrap()));
    assert!(out[2].cid.eq_id(&Xid::from_bytes(vec![3u8; 12]).unwrap()));
    for i in 0..out.len() {
        for j in i + 1..out.len() {
            assert!(!out[i].cid.eq_id(&out[j].cid));
        }
    }
}
