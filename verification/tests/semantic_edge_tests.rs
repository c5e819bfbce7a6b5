use otamoryx::semantic_edges::{
    canonical_edge_pair, canonical_pair_id, format_hash, pair_input_hash, TagRelationError, TagRelationPair,
    TagRelationTag,
};

fn pair() -> TagRelationPair {
    TagRelationPair {
        pair_id: "wrong".to_string(),
        tag_a: TagRelationTag {
            id: "tag-b".to_string(),
            namespace: "general".to_string(),
            name: "Romantic".to_string(),
            support_count: 2,
        },
        tag_b: TagRelationTag {
            id: "tag-a".to_string(),
            namespace: "general".to_string(),
            name: "romance".to_string(),
            support_count: 3,
        },
        pair_input_hash: String::new(),
    }
}

#[test]
fn canonical_pair_hash_is_order_independent_and_excludes_archive_context() {
    let first = pair().canonicalize().unwrap();
    let second = TagRelationPair {
        tag_a: first.tag_b.clone(),
        tag_b: first.tag_a.clone(),
        ..first.clone()
    }
    .canonicalize()
    .unwrap();
    assert_eq!(first.pair_id, second.pair_id);
    assert_eq!(first.pair_input_hash, second.pair_input_hash);
    assert!(!first.pair_input_hash.contains("archive"));
}

#[test]
fn pair_input_hash_ignores_support_count_changes() {
    let first = pair().canonicalize().unwrap();
    let mut changed = first.clone();
    changed.tag_a.support_count += 1;
    changed.tag_b.support_count += 7;
    let changed = changed.canonicalize().unwrap();

    assert_eq!(first.pair_input_hash, changed.pair_input_hash);
}

#[test]
fn canonical_pairs_order_tags_by_id_and_hash_their_identity() {
    let canonical = pair().canonicalize().unwrap();
    assert_eq!(canonical.tag_a.id, "tag-a");
    assert_eq!(canonical.tag_b.id, "tag-b");
    assert_eq!(canonical.pair_id, "tag-a:tag-b");
    // SHA-256 of "tag-a\0general\0romance\xff" followed by "tag-b\0general\0Romantic\xff".
    assert_eq!(
        canonical.pair_input_hash,
        "1a8eb409503ac18465c089cf8d0784edf53b4a46c1570a2f4db1733c85c11ee1"
    );
    assert_eq!(
        pair_input_hash(&canonical.tag_b, &canonical.tag_a),
        canonical.pair_input_hash
    );
}

#[test]
fn canonicalization_trims_and_rejects_invalid_pairs() {
    let mut padded = pair();
    padded.tag_a.id = "  tag-b ".to_string();
    padded.tag_a.name = " Romantic\t".to_string();
    let canonical = padded.canonicalize().unwrap();
    assert_eq!(canonical.tag_b.id, "tag-b");
    assert_eq!(canonical.tag_b.name, "Romantic");

    let mut same = pair();
    same.tag_b.id = " tag-b".to_string();
    assert!(matches!(
        same.canonicalize(),
        Err(TagRelationError::InvalidOrIdenticalTags)
    ));

    let mut blank = pair();
    blank.tag_b.namespace = "   ".to_string();
    let error = blank.canonicalize().unwrap_err();
    assert_eq!(error.message(), "tag relation pair has invalid or identical tags");
}

#[test]
fn pair_ids_ignore_argument_order() {
    assert_eq!(canonical_pair_id("b", "a"), "a:b");
    assert_eq!(canonical_pair_id("a", "b"), "a:b");
    assert_eq!(canonical_pair_id("tag-10", "tag-9"), "tag-10:tag-9");
    assert_eq!(canonical_pair_id("x", "x"), "x:x");
}

#[test]
fn hashes_are_lowercase_hex() {
    assert_eq!(format_hash(&[0x00, 0x0f, 0xa0, 0xff]), "000fa0ff");
    assert_eq!(format_hash(&[]), "");
}

#[test]
fn edges_are_written_only_for_canonical_pairs() {
    assert!(matches!(canonical_edge_pair(pair()), Err(TagRelationError::NotCanonical)));
    assert_eq!(
        TagRelationError::NotCanonical.message(),
        "semantic edge pair must already be canonical"
    );
    let canonical = pair().canonicalize().unwrap();
    let written = canonical_edge_pair(canonical).unwrap();
    assert_eq!((written.tag_a.id.as_str(), written.tag_b.id.as_str()), ("tag-a", "tag-b"));
    assert_eq!(written.pair_id, "tag-a:tag-b");
    let mut padded = pair().canonicalize().unwrap();
    padded.tag_a.id = " tag-a".to_string();
    assert!(matches!(canonical_edge_pair(padded), Err(TagRelationError::NotCanonical)));
    let mut blank = pair();
    blank.tag_a.name = " ".to_string();
    assert!(matches!(canonical_edge_pair(blank), Err(TagRelationError::InvalidOrIdenticalTags)));
}
