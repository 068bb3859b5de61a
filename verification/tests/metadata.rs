use std::collections::HashMap;

use hnsw_toolbox::error::{ExtractError, MetadataError};
use hnsw_toolbox::metadata::{join_metadata, join_signed_metadata, MetadataEntry};

#[test]
fn join_gives_each_label_its_ids() {
    let joined = join_metadata(
        HashMap::from([(1, "a".to_string()), (2, "b".to_string()), (3, "c".to_string())]),
        vec![("a".to_string(), 10), ("c".to_string(), 30)],
    );
    assert_eq!(joined.len(), 3);
    assert_eq!(joined[&1], MetadataEntry { user_id: "a".to_string(), seq_id: Some(10) });
    assert_eq!(joined[&2], MetadataEntry { user_id: "b".to_string(), seq_id: None });
    assert_eq!(joined[&3], MetadataEntry { user_id: "c".to_string(), seq_id: Some(30) });
}

#[test]
fn later_seq_id_pairs_replace_earlier_ones() {
    let joined = join_metadata(
        HashMap::from([(1, "b".to_string())]),
        vec![("b".to_string(), 5), ("b".to_string(), 6)],
    );
    assert_eq!(joined.len(), 1);
    assert_eq!(joined[&1], MetadataEntry { user_id: "b".to_string(), seq_id: Some(6) });
}

#[test]
fn signed_tables_are_joined_when_non_negative() {
    let joined = join_signed_metadata(
        vec![(101, "doc-101".to_string()), (202, "doc-202".to_string())],
        vec![("doc-101".to_string(), 11), ("doc-202".to_string(), 22)],
    )
    .expect("join");
    assert_eq!(joined[&101].seq_id, Some(11));
    assert_eq!(joined[&202].user_id, "doc-202");
}

#[test]
fn negative_label_is_refused_first() {
    let err = join_signed_metadata(
        vec![(1, "a".to_string()), (-4, "b".to_string()), (-5, "c".to_string())],
        vec![("a".to_string(), -1)],
    )
    .unwrap_err();
    assert!(matches!(
        err,
        ExtractError::Metadata(MetadataError::NegativeLabel { label: -4 })
    ));
}

#[test]
fn negative_seq_id_is_refused() {
    let err = join_signed_metadata(
        vec![(1, "a".to_string())],
        vec![("a".to_string(), 3), ("b".to_string(), -7)],
    )
    .unwrap_err();
    match err {
        ExtractError::Metadata(MetadataError::NegativeSeqId { seq_id, user_id }) => {
            assert_eq!(seq_id, -7);
            assert_eq!(user_id, "b");
        }
        other => panic!("unexpected error {other:?}"),
    }
}
