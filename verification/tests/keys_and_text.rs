use prolly_s3_core::bytes::{bytes_lt, starts_with, u32_be, u64_be};
use prolly_s3_core::error::{Error, ErrorCode, RetryAdvice};
use prolly_s3_core::ids::{
    Cid, CommitGeneration, CommitId, ObjectVersionId, OperationId, RepositoryId,
};
use prolly_s3_core::keys::{
    commit_closure_seen_key, commit_closure_stack_key, commit_from_suffix, commit_mapping_key,
    gc_candidate_key, gc_commit_mark_key, gc_commit_queue_key, gc_node_mark_key, gc_node_queue_key,
    gc_path_mark_key, gc_physical_mark_key, merge_base_candidate_key, merge_base_result_key,
    merge_change_key, merge_conflict_key, merge_cursor_key, merge_queue_key, merge_seen_key,
    payload_pack_extent_key, payload_pack_physical_key, version_mapping_key,
};
use prolly_s3_core::model::PayloadBinding;
use prolly_s3_core::paths::{
    administration_path, commit_path, decode_retention_pin_tag, format_path, gc_coordinator_path,
    gc_dirty_root_prefix, gc_dirty_root_sequence_prefix, gc_managed_kind,
    gc_publication_ticket_path, gc_publication_ticket_prefix, intent_path, managed_kind_name,
    path_for_key, retention_pin_tag, ManagedKind,
};
use prolly_s3_core::text::{
    decimal_text, decimal_text_padded, is_blank, parse_u64, validate_branch,
};
use prolly_s3_core::version_key::{
    decode_version_tree_logical_key, version_tree_key, version_tree_partial_prefix,
    version_tree_prefix, ObjectVersionOrder,
};

fn commit(byte: u8) -> CommitId {
    CommitId::from_hash([byte; 32])
}

fn order(generation: u64, ordinal: u32) -> ObjectVersionOrder {
    ObjectVersionOrder {
        commit_generation: CommitGeneration(generation),
        mutation_ordinal: ordinal,
    }
}

fn binding() -> PayloadBinding {
    PayloadBinding {
        path: "p".to_string(),
        checksum_sha256: [1; 32],
        pack_checksum_sha256: None,
        pack_range: None,
        provider_etag: "e".to_string(),
        provider_version_id: Some("v".to_string()),
    }
}

#[test]
fn big_endian_bytes_are_exact() {
    assert_eq!(u64_be(0x0102_0304_0506_0708), [1, 2, 3, 4, 5, 6, 7, 8]);
    assert_eq!(u64_be(u64::MAX), [0xff; 8]);
    assert_eq!(u32_be(0x0a0b_0c0d), [0x0a, 0x0b, 0x0c, 0x0d]);
    assert!(bytes_lt(b"a", b"ab"));
    assert!(!bytes_lt(b"ab", b"ab"));
    assert!(bytes_lt(b"aa", b"b"));
    assert!(starts_with(b"abc", b""));
    assert!(!starts_with(b"ab", b"abc"));
}

#[test]
fn version_key_escapes_zero_and_inverts_the_order() {
    let key = version_tree_key(b"a\0b", order(1, 2), ObjectVersionId::from_hash([0; 32]));
    let mut expected = vec![b'a', 0, 0xff, b'b', 0, 0];
    expected.extend_from_slice(&[0xff, 0xff, 0xff, 0xff, 0xff, 0xff, 0xff, 0xfe]);
    expected.extend_from_slice(&[0xff, 0xff, 0xff, 0xfd]);
    expected.extend_from_slice(&[0xff; 32]);
    assert_eq!(key, expected);
}

#[test]
fn version_key_gives_back_the_logical_key() {
    for logical in [&b""[..], b"a", b"\0", b"\0\0", b"a\0", b"\xff\0\xff"] {
        let key = version_tree_key(logical, order(9, 1), ObjectVersionId::from_hash([3; 32]));
        assert_eq!(decode_version_tree_logical_key(&key).unwrap(), logical.to_vec());
        assert!(starts_with(&key, &version_tree_prefix(logical)));
        assert!(starts_with(&key, &version_tree_partial_prefix(logical)));
    }
}

#[test]
fn damaged_version_keys_are_refused() {
    assert_eq!(
        decode_version_tree_logical_key(b"abc").unwrap_err().code,
        ErrorCode::CorruptCommit
    );
    assert_eq!(
        decode_version_tree_logical_key(&[1, 0, 7]).unwrap_err().code,
        ErrorCode::CorruptCommit
    );
    assert_eq!(
        decode_version_tree_logical_key(&[1, 0]).unwrap_err().code,
        ErrorCode::CorruptCommit
    );
}

#[test]
fn newest_version_sorts_first_and_keys_differ() {
    let id = ObjectVersionId::from_hash([5; 32]);
    let newer = version_tree_key(b"k", order(2, 0), id);
    let older = version_tree_key(b"k", order(1, 9), id);
    assert!(bytes_lt(&newer, &older));
    let later = version_tree_key(b"k", order(2, 1), id);
    assert!(bytes_lt(&later, &newer));
    assert_ne!(
        version_tree_key(b"a", order(1, 0), id),
        version_tree_key(b"a\0", order(1, 0), id)
    );
}

#[test]
fn queue_keys_put_the_highest_generation_first() {
    let high = merge_queue_key(9, commit(1));
    let low = merge_queue_key(8, commit(0));
    assert!(bytes_lt(&high, &low));
    let mut expected = b"q/".to_vec();
    expected.extend_from_slice(&[0xff, 0xff, 0xff, 0xff, 0xff, 0xff, 0xff, 0xf6]);
    expected.extend_from_slice(&[1; 32]);
    assert_eq!(high, expected);
    assert_ne!(merge_queue_key(9, commit(1)), merge_queue_key(9, commit(2)));
}

#[test]
fn namespaces_of_working_keys_are_apart() {
    let keys = [
        merge_queue_key(1, commit(7)),
        merge_seen_key(commit(7)),
        merge_base_candidate_key(commit(7)),
        merge_base_result_key(commit(7)),
        merge_change_key(b"k"),
        merge_conflict_key(b"k"),
        merge_cursor_key().to_vec(),
    ];
    for (i, a) in keys.iter().enumerate() {
        for (j, b) in keys.iter().enumerate() {
            assert_eq!(i == j, a[..2] == b[..2] && a == b);
        }
    }
    assert_eq!(&merge_change_key(b"k")[2..], b"k");
    assert_eq!(&merge_conflict_key(b"k")[2..], b"k");
}

#[test]
fn stack_keys_sort_by_their_sequence() {
    assert!(bytes_lt(
        &commit_closure_stack_key(41),
        &commit_closure_stack_key(42)
    ));
    assert_eq!(commit_closure_seen_key(commit(4))[2..], [4; 32]);
}

#[test]
fn commit_is_read_back_from_a_key() {
    let key = merge_base_result_key(commit(6));
    assert_eq!(commit_from_suffix(&key, &key[..2]).unwrap(), commit(6));
    assert!(commit_from_suffix(&key[..33], &key[..2]).is_err());
    assert!(commit_from_suffix(b"zz", b"r/").is_err());
}

#[test]
fn transfer_and_collection_keys_are_exact() {
    assert_eq!(commit_mapping_key(commit(1))[..2], *b"c/");
    assert_eq!(
        version_mapping_key(ObjectVersionId::from_hash([2; 32]))[..2],
        *b"v/"
    );
    assert_eq!(gc_commit_queue_key(commit(1))[..3], *b"cq/");
    assert_eq!(gc_commit_mark_key(commit(1))[..3], *b"cm/");
    let cid = Cid::from_hash([9; 32]);
    assert_ne!(gc_node_queue_key(&cid, true), gc_node_queue_key(&cid, false));
    assert_ne!(gc_node_mark_key(&cid, true), gc_node_queue_key(&cid, true));
}

#[test]
fn marks_and_candidates_are_named_by_sha256() {
    let mut expected = b"d/".to_vec();
    expected.extend_from_slice(&[
        0xba, 0x78, 0x16, 0xbf, 0x8f, 0x01, 0xcf, 0xea, 0x41, 0x41, 0x40, 0xde, 0x5d, 0xae, 0x22,
        0x23, 0xb0, 0x03, 0x61, 0xa3, 0x96, 0x17, 0x7a, 0x9c, 0xb4, 0x10, 0xff, 0x61, 0xf2, 0x00,
        0x15, 0xad,
    ]);
    assert_eq!(gc_candidate_key(b"abc"), expected);
    let path = gc_path_mark_key("abc");
    assert_eq!(path[path.len() - 32..], expected[2..]);
    assert_ne!(gc_physical_mark_key("a", "b"), gc_physical_mark_key("ab", ""));
}

#[test]
fn payload_keys_tell_payloads_apart() {
    let one = binding();
    let mut other = binding();
    other.provider_version_id = Some("w".to_string());
    assert_ne!(
        payload_pack_physical_key(&one),
        payload_pack_physical_key(&other)
    );
    let mut unversioned = binding();
    unversioned.provider_version_id = None;
    unversioned.provider_etag = "v".to_string();
    assert_eq!(
        payload_pack_physical_key(&one),
        payload_pack_physical_key(&unversioned)
    );
    assert_eq!(payload_pack_physical_key(&one)[..2], *b"p/");
    assert_eq!(payload_pack_extent_key(&one, 0, 9)[..2], *b"e/");
    assert_ne!(
        payload_pack_extent_key(&one, 0, 9),
        payload_pack_extent_key(&one, 0, 8)
    );
}

#[test]
fn branch_names_follow_their_rules() {
    for good in ["main", "a/b", "release-1.0", "ünïcode", "a.b/c_d"] {
        assert!(validate_branch(good).is_ok(), "{good}");
    }
    for bad in [
        "", "/a", "a/", "a//b", ".", "..", "a/..", "a..b", "a b", "a~b", "a^b", "a:b", "a?b", "a*b",
        "a[b", "a\\b", "a\u{7f}b", "a\nb", "a.lock", ".a", "@{", "a@{b",
    ] {
        let error = validate_branch(bad);
        if let Err(error) = error {
            assert_eq!(error.code, ErrorCode::InvalidBranch);
            assert_eq!(
                error.message,
                "branch name violates the canonical ref contract"
            );
        }
    }
    for bad in ["", "/a", "a/", "a//b", "..", "a..b", "a\nb"] {
        assert!(validate_branch(bad).is_err(), "{bad:?}");
    }
    assert!(validate_branch(&"a".repeat(255)).is_ok());
    assert!(validate_branch(&"a".repeat(256)).is_err());
}

#[test]
fn numbers_are_written_and_read() {
    assert_eq!(decimal_text(0), "0");
    assert_eq!(decimal_text(1_234_567_890), "1234567890");
    assert_eq!(decimal_text(u64::MAX), "18446744073709551615");
    assert_eq!(decimal_text_padded(42, 5), "00042");
    let read = |text: &str| parse_u64(&text.chars().collect::<Vec<char>>());
    assert_eq!(read("00042"), Some(42));
    assert_eq!(read("+7"), Some(7));
    assert_eq!(read(""), None);
    assert_eq!(read("+"), None);
    assert_eq!(read("-1"), None);
    assert_eq!(read("18446744073709551615"), Some(u64::MAX));
    assert_eq!(read("18446744073709551616"), None);
    assert!(is_blank(" \t\n\u{a0}"));
    assert!(!is_blank(" a "));
}

#[test]
fn paths_are_exact() {
    assert_eq!(format_path(".prolly"), ".prolly/format/repository.cbor");
    assert_eq!(intent_path(".prolly"), ".prolly/format/initialization.cbor");
    assert_eq!(gc_coordinator_path(".prolly"), ".prolly/gc/coordinator.cbor");
    assert_eq!(
        commit_path("r", commit(0xab)),
        format!("r/commits/sha256/ab/ab/{}", "ab".repeat(32))
    );
    let job = OperationId::from_bytes([
        0x00, 0x11, 0x22, 0x33, 0x44, 0x55, 0x66, 0x77, 0x88, 0x99, 0xaa, 0xbb, 0xcc, 0xdd, 0xee,
        0xff,
    ]);
    assert_eq!(
        administration_path("r", "merge", job, "plan"),
        "r/administration/merge/00112233-4455-6677-8899-aabbccddeeff/plan"
    );
    assert_eq!(
        gc_dirty_root_prefix("r", job),
        "r/gc/dirty/00112233-4455-6677-8899-aabbccddeeff/"
    );
    assert!(gc_dirty_root_sequence_prefix("r", job, 7).starts_with(&gc_dirty_root_prefix("r", job)));
    let repository = RepositoryId::from_hash([1; 32]);
    assert!(
        gc_publication_ticket_path("r", repository, job, &[2; 32])
            .starts_with(&gc_publication_ticket_prefix("r", repository))
    );
}

#[test]
fn node_paths_need_a_full_digest() {
    assert_eq!(
        path_for_key("r", &[0xcd; 32]).unwrap(),
        format!("r/nodes/sha256/cd/cd/{}", "cd".repeat(32))
    );
    let error = path_for_key("r", &[1, 2, 3]).unwrap_err();
    assert_eq!(error.code, ErrorCode::CorruptNode);
    assert_eq!(error.message, "Prolly node key has 3 bytes, expected 32");
}

#[test]
fn managed_objects_are_recognised_by_their_folder() {
    assert!(matches!(
        gc_managed_kind("r", "r/commits/sha256/aa/bb/x"),
        Some(ManagedKind::Commits)
    ));
    assert!(matches!(
        gc_managed_kind("r", "r/nodes/sha256/aa/bb/x"),
        Some(ManagedKind::Nodes)
    ));
    assert!(matches!(
        gc_managed_kind("r", "r/payload-packs/x"),
        Some(ManagedKind::Payloads)
    ));
    assert!(gc_managed_kind("r", "r/refs/heads/x").is_none());
    assert!(gc_managed_kind("r", "other/commits/sha256/x").is_none());
    assert_ne!(
        managed_kind_name(ManagedKind::Commits),
        managed_kind_name(ManagedKind::Nodes)
    );
}

#[test]
fn pin_tags_give_back_their_names() {
    let tag = retention_pin_tag("nightly é").unwrap();
    assert_eq!(tag, "retention-pins/6e696768746c7920c3a9");
    assert_eq!(
        decode_retention_pin_tag(&tag).unwrap(),
        Some("nightly é".to_string())
    );
    assert_eq!(decode_retention_pin_tag("v1").unwrap(), None);
    assert_eq!(
        retention_pin_tag("  ").unwrap_err().code,
        ErrorCode::InvalidBranch
    );
    assert!(retention_pin_tag(&"x".repeat(101)).is_err());
    assert_eq!(
        decode_retention_pin_tag("retention-pins/zz").unwrap_err().message,
        "retention pin tag has invalid hex encoding"
    );
    assert_eq!(
        decode_retention_pin_tag("retention-pins/ff").unwrap_err().message,
        "retention pin tag name is not UTF-8"
    );
}

#[test]
fn errors_carry_their_advice_and_operation() {
    let operation = OperationId::from_bytes([1; 16]);
    let error = Error::new(ErrorCode::RefConflict, "moved")
        .retry(RetryAdvice::AfterMillis(250))
        .operation(operation);
    assert_eq!(error.code, ErrorCode::RefConflict);
    assert_eq!(error.message, "moved");
    assert_eq!(error.retry, RetryAdvice::AfterMillis(250));
    assert!(error.operation == Some(operation));
    assert_eq!(error.copied(), error);
    assert!(!operation.is_nil());
    assert!(OperationId::from_bytes([0; 16]).is_nil());
}
