use jarvis::ids::{PointUuid, Xid};
use jarvis::lang::Language;
use jarvis::store::{ColVal, Embedding, Summarizing, Translating};
use sha3::{Digest, Sha3_256};

fn lang(code: &str) -> Language {
    Language::from_639_3(code.to_string()).unwrap()
}

fn xid(seed: u8) -> Xid {
    Xid::from_bytes(vec![seed; 12]).unwrap()
}

#[test]
fn select_fields_defaults_and_rejections() {
    let all = Translating::select_fields(vec![], false).unwrap();
    assert_eq!(
        all,
        vec!["gid", "cid", "language", "version", "model", "progress", "updated_at", "tokens", "content", "error"]
    );

    let some = Translating::select_fields(
        vec!["model".to_string(), "error".to_string()],
        false,
    )
    .unwrap();
    assert_eq!(some, vec!["model", "error"]);

    let with_pk = Translating::select_fields(vec!["model".to_string()], true).unwrap();
    assert_eq!(with_pk, vec!["model", "gid", "cid", "language", "version"]);

    let err = Translating::select_fields(vec!["bogus".to_string()], false).err().unwrap();
    assert_eq!(err.code, 400);

    let err = Summarizing::select_fields(vec!["content".to_string()], false).err().unwrap();
    assert_eq!(err.code, 400);

    let emb = Embedding::select_fields(vec!["gid".to_string()], true).unwrap();
    assert_eq!(emb, vec!["gid", "uuid"]);
}

#[test]
fn queries_have_the_expected_shape() {
    let fields = Translating::select_fields(vec![], false).unwrap();
    assert_eq!(
        Translating::get_one_query(&fields),
        "SELECT gid,cid,language,version,model,progress,updated_at,tokens,content,error FROM translating WHERE gid=? AND cid=? AND language=? AND version=? LIMIT 1"
    );
    assert_eq!(
        Embedding::get_one_query(&vec!["gid".to_string(), "cid".to_string()]),
        "SELECT gid,cid FROM embedding WHERE uuid=? LIMIT 1"
    );
    assert_eq!(
        Embedding::save_query(),
        "INSERT INTO embedding (uuid,cid,language,version,ids,gid,content) VALUES (?,?,?,?,?,?,?)"
    );
}

#[test]
fn upsert_builds_update_and_rejects_unknown_columns() {
    let row = Translating::with_pk(xid(1), xid(2), lang("eng"), 1);
    let (q, params) = row
        .upsert_fields(vec![
            ("progress".to_string(), ColVal::I8(50)),
            ("tokens".to_string(), ColVal::I32(1000)),
        ])
        .unwrap();
    assert_eq!(
        q,
        "UPDATE translating SET progress=?,tokens=? WHERE gid=? AND cid=? AND language=? AND version=?"
    );
    assert_eq!(params.len(), 6);
    assert!(matches!(params[0], ColVal::I8(50)));
    assert!(matches!(params[1], ColVal::I32(1000)));

    let err = row
        .upsert_fields(vec![("gid".to_string(), ColVal::I8(0))])
        .err()
        .unwrap();
    assert_eq!(err.code, 400);

    let srow = Summarizing::with_pk(xid(1), xid(2), lang("eng"), 1);
    let (q, _) = srow
        .upsert_fields(vec![("summary".to_string(), ColVal::Text("s".to_string()))])
        .unwrap();
    assert_eq!(
        q,
        "UPDATE summarizing SET summary=? WHERE gid=? AND cid=? AND language=? AND version=?"
    );
}

#[test]
fn embedding_uuid_is_deterministic_sha3() {
    let cid = xid(7);
    let row1 = Embedding::from(cid.clone(), lang("zho"), "a,b".to_string());
    let row2 = Embedding::from(cid.clone(), lang("zho"), "a,b".to_string());
    assert_eq!(row1.uuid.to_string(), row2.uuid.to_string());

    let other = Embedding::from(cid.clone(), lang("zho"), "a,c".to_string());
    assert_ne!(row1.uuid.to_string(), other.uuid.to_string());

    let mut hasher = Sha3_256::new();
    hasher.update(&[7u8; 12]);
    hasher.update("zho".as_bytes());
    hasher.update("a,b".as_bytes());
    let digest = hasher.finalize();
    let mut code = [0u8; 16];
    code.copy_from_slice(&digest[..16]);
    let expected = uuid::Uuid::from_bytes(code).to_string();
    assert_eq!(row1.uuid.to_string(), expected);
}

#[test]
fn qdrant_point_carries_the_payload() {
    let mut row = Embedding::from(xid(3), lang("eng"), "n1".to_string());
    row.gid = xid(9);
    let point = row.qdrant_point();
    assert_eq!(point.id, row.uuid.to_string());
    assert_eq!(point.payload.len(), 3);
    assert_eq!(point.payload[0].0, "cid");
    assert_eq!(point.payload[0].1, xid(3).to_string());
    assert_eq!(point.payload[1].0, "language");
    assert_eq!(point.payload[1].1, "eng");
    assert_eq!(point.payload[2].0, "gid");
    assert_eq!(point.payload[2].1, xid(9).to_string());
}

#[test]
fn point_uuid_text_round_trip() {
    let u = PointUuid::from_bytes(vec![0xAB; 16]).unwrap();
    let s = u.to_string();
    assert_eq!(s.len(), 36);
    let back = PointUuid::from_str(&s).unwrap();
    assert_eq!(back.to_string(), s);
}
