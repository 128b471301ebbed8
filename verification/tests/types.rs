use mermaidman::types::{BlobId, DocId, EID, UID};

#[test]
fn test_uid_generation() {
    let uid = UID::new();
    assert!(uid.0.starts_with("n_"));
}

#[test]
fn test_eid_generation() {
    let eid = EID::new();
    assert!(eid.0.starts_with("e_"));
}

#[test]
fn test_uid_is_fresh_each_time() {
    let a = UID::new();
    let b = UID::new();
    assert_eq!(a.0.len(), 34);
    assert_ne!(a.0, b.0);
}

#[test]
fn test_blob_id_encoding() {
    // 0xff 0xff encodes to exactly these three URL-safe digits, unpadded
    let id = BlobId::from_hash(&[0xff, 0xff]);
    assert_eq!(id.0, "__8");

    let empty = BlobId::from_hash(&[]);
    assert_eq!(empty.0, "");

    let abc = BlobId::from_hash(b"abc");
    assert_eq!(abc.0, "YWJj");
}

#[test]
fn test_doc_id() {
    let d = DocId::from_path("notes/today.mmd");
    assert_eq!(d.0, "notes/today.mmd");
    let t = DocId::temp();
    assert!(t.0.starts_with("tmp_"));
    assert_eq!(t.0.len(), 36);
}
