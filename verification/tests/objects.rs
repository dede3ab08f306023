//! Objects, changes and recorded states.
use resy::object::ListedObject;
use resy::remotes::aws;
use resy::remotes::aws::S3Conf;
use resy::s3::{CompactS3Object, S3};
use resy::timestamp::Timestamp;
use resy::{Change, S3Object};

fn create_test_s3_object(key: &str, etag: &str, size: i64, timestamp: i64) -> S3Object {
    S3Object {
        key: key.to_string(),
        etag: etag.to_string(),
        size,
        last_modified: Timestamp::from_timestamp(timestamp, 0).unwrap(),
    }
}

fn create_test_s3_conf() -> S3Conf {
    S3Conf::new(
        "test-bucket".to_string(),
        "test-key".to_string(),
        "test-secret".to_string(),
        "us-west-2".to_string(),
    )
}

fn listed(key: &str, etag: &str, size: i64, last_modified: (i64, u32)) -> ListedObject {
    ListedObject {
        key: Some(key.to_string()),
        e_tag: Some(etag.to_string()),
        size: Some(size),
        last_modified: Some(last_modified),
    }
}

#[test]
fn test_s3_object_creation() {
    let obj = create_test_s3_object("test/file.txt", "etag123", 1024, 1609459200);

    assert_eq!(obj.key, "test/file.txt");
    assert_eq!(obj.etag, "etag123");
    assert_eq!(obj.size, 1024);
    assert_eq!(obj.last_modified, Timestamp::from_timestamp(1609459200, 0).unwrap());
}

#[test]
fn test_s3_struct_creation() {
    let s3 = create_test_s3_conf();

    assert_eq!(s3.bucket, "test-bucket");
    assert_eq!(s3.region, "us-west-2");
    assert_eq!(s3.get_access_key_id(), "test-key");
    assert_eq!(s3.get_secret_access_key(), "test-secret");
}

#[test]
fn test_change_enum_variants() {
    let obj1 = create_test_s3_object("test1", "etag1", 100, 1609459200);
    let obj2 = create_test_s3_object("test2", "etag2", 200, 1609459300);
    let obj3 = create_test_s3_object("test3", "etag3", 300, 1609459400);

    let added = Change::Added(obj1.clone());
    let modified = Change::Modified { old: obj1.clone(), new: obj2.clone() };
    let deleted = Change::Deleted(obj3.clone());

    match added {
        Change::Added(ref obj) => assert_eq!(obj.key, "test1"),
        _ => panic!("Expected Added variant"),
    }

    match modified {
        Change::Modified { ref old, ref new } => {
            assert_eq!(old.key, "test1");
            assert_eq!(new.key, "test2");
        }
        _ => panic!("Expected Modified variant"),
    }

    match deleted {
        Change::Deleted(ref obj) => assert_eq!(obj.key, "test3"),
        _ => panic!("Expected Deleted variant"),
    }
}

#[test]
fn test_compact_to_s3_object() {
    let compact = aws::CompactS3Object {
        etag: "etag123".to_string(),
        size: 1024,
        last_modified: 1609459200,
    };

    let s3_obj = aws::S3::compact_to_s3_object("test/file.txt", &compact);

    assert_eq!(s3_obj.key, "test/file.txt");
    assert_eq!(s3_obj.etag, "etag123");
    assert_eq!(s3_obj.size, 1024);
    assert_eq!(s3_obj.last_modified, Timestamp::from_timestamp(1609459200, 0).unwrap());
}

#[test]
fn test_s3_object_equality() {
    let obj1 = create_test_s3_object("test", "etag1", 100, 1609459200);
    let obj2 = create_test_s3_object("test", "etag1", 100, 1609459200);
    let obj3 = create_test_s3_object("test", "etag2", 100, 1609459200);

    assert_eq!(obj1, obj2);
    assert_ne!(obj1, obj3);
}

#[test]
fn test_change_equality() {
    let obj1 = create_test_s3_object("test1", "etag1", 100, 1609459200);
    let obj2 = create_test_s3_object("test2", "etag2", 200, 1609459300);

    let change1 = Change::Added(obj1.clone());
    let change2 = Change::Added(obj1.clone());
    let change3 = Change::Added(obj2.clone());

    assert_eq!(change1, change2);
    assert_ne!(change1, change3);
}

#[test]
fn test_s3_with_endpoint() {
    let s3 = S3Conf::new_with_endpoint(
        "test-bucket".to_string(),
        "test-key".to_string(),
        "test-secret".to_string(),
        "us-west-2".to_string(),
        "http://localhost:4566".to_string(),
    );

    assert_eq!(s3.bucket, "test-bucket");
    assert_eq!(s3.region, "us-west-2");
    assert_eq!(s3.endpoint_url, Some("http://localhost:4566".to_string()));
    assert_eq!(s3.get_access_key_id(), "test-key");
    assert_eq!(s3.get_secret_access_key(), "test-secret");
}

#[test]
fn test_s3_without_endpoint() {
    let s3 = S3Conf::new(
        "test-bucket".to_string(),
        "test-key".to_string(),
        "test-secret".to_string(),
        "us-west-2".to_string(),
    );

    assert_eq!(s3.bucket, "test-bucket");
    assert_eq!(s3.region, "us-west-2");
    assert_eq!(s3.endpoint_url, None);
    assert_eq!(s3.get_access_key_id(), "test-key");
    assert_eq!(s3.get_secret_access_key(), "test-secret");
}

#[test]
fn test_determine_change_added() {
    let obj = create_test_s3_object("new-file.txt", "etag1", 100, 1609459200);
    let change = S3::determine_change(&obj, None);

    assert!(matches!(change, Some(Change::Added(_))));
    if let Some(Change::Added(added_obj)) = change {
        assert_eq!(added_obj.key, "new-file.txt");
        assert_eq!(added_obj.etag, "etag1");
        assert_eq!(added_obj.size, 100);
    }
}

#[test]
fn test_determine_change_modified() {
    let obj = create_test_s3_object("file.txt", "etag2", 200, 1609459300);
    let prev = CompactS3Object {
        etag: "etag1".to_string(),
        size: 100,
        last_modified: 1609459200,
    };

    let change = S3::determine_change(&obj, Some(prev));

    assert!(matches!(change, Some(Change::Modified { .. })));
    if let Some(Change::Modified { old, new }) = change {
        assert_eq!(old.etag, "etag1");
        assert_eq!(old.size, 100);
        assert_eq!(new.etag, "etag2");
        assert_eq!(new.size, 200);
        assert_eq!(new.key, "file.txt");
    }
}

#[test]
fn test_determine_change_unchanged() {
    let obj = create_test_s3_object("file.txt", "etag1", 100, 1609459200);
    let prev = CompactS3Object {
        etag: "etag1".to_string(),
        size: 100,
        last_modified: 1609459200,
    };

    let change = S3::determine_change(&obj, Some(prev));

    // No change should be detected when etag is the same
    assert!(change.is_none());
}

#[test]
fn only_the_entity_tag_decides() {
    let obj = create_test_s3_object("file.txt", "etag1", 999, 1700000000);
    let prev = CompactS3Object {
        etag: "etag1".to_string(),
        size: 100,
        last_modified: 1609459200,
    };
    assert!(S3::determine_change(&obj, Some(prev)).is_none());
}

#[test]
fn the_former_side_of_a_modification_is_what_was_recorded() {
    let obj = create_test_s3_object("file.txt", "etag2", 200, 1609459300);
    let prev = CompactS3Object {
        etag: "etag1".to_string(),
        size: 100,
        last_modified: 1609459200,
    };
    assert_eq!(
        S3::determine_change(&obj, Some(prev)),
        Some(Change::Modified {
            old: create_test_s3_object("file.txt", "etag1", 100, 1609459200),
            new: create_test_s3_object("file.txt", "etag2", 200, 1609459300),
        })
    );
}

#[test]
fn both_kinds_of_recorded_state_are_judged_alike() {
    let obj = create_test_s3_object("file.txt", "etag2", 200, 1609459300);
    let signed = CompactS3Object {
        etag: "etag1".to_string(),
        size: 100,
        last_modified: 1609459200,
    };
    let unsigned = aws::CompactS3Object {
        etag: "etag1".to_string(),
        size: 100,
        last_modified: 1609459200,
    };
    assert_eq!(
        aws::S3::determine_change(&obj, Some(unsigned)),
        S3::determine_change(&obj, Some(signed))
    );
    assert_eq!(aws::S3::determine_change(&obj, None), Some(Change::Added(obj)));
}

#[test]
fn a_size_without_sign_is_read_by_its_bits() {
    let state = |size: u64| aws::CompactS3Object {
        etag: "e".to_string(),
        size,
        last_modified: 0,
    };
    assert_eq!(state(0).into_signed().size, 0);
    assert_eq!(state(1024).into_signed().size, 1024);
    assert_eq!(state(i64::MAX as u64).into_signed().size, i64::MAX);
    assert_eq!(state(i64::MAX as u64 + 1).into_signed().size, i64::MIN);
    assert_eq!(state(u64::MAX).into_signed().size, -1);
    assert_eq!(aws::S3::compact_to_s3_object("k", &state(u64::MAX)).size, -1);
}

#[test]
fn a_known_object_is_marked_and_a_new_one_is_not() {
    let obj = create_test_s3_object("file.txt", "etag1", 100, 1609459200);
    let new = S3::process_s3_object(&obj, None);
    assert!(!new.mark_seen);
    assert_eq!(new.change, Some(Change::Added(obj.clone())));

    let same = CompactS3Object { etag: "etag1".to_string(), size: 100, last_modified: 1609459200 };
    let known = S3::process_s3_object(&obj, Some(same));
    assert!(known.mark_seen);
    assert_eq!(known.change, None);

    let other = CompactS3Object { etag: "etag0".to_string(), size: 90, last_modified: 1609459100 };
    let modified = S3::process_s3_object(&obj, Some(other));
    assert!(modified.mark_seen);
    assert!(matches!(modified.change, Some(Change::Modified { .. })));
}

#[test]
fn an_entry_of_a_listing_is_parsed() {
    let entry = listed("a/b", "\"tag\"", 7, (1609459200, 250_000_000));
    let object = S3::parse_aws_object(&entry).unwrap();
    assert_eq!(object.key, "a/b");
    assert_eq!(object.etag, "\"tag\"");
    assert_eq!(object.size, 7);
    assert_eq!(object.last_modified.timestamp(), 1609459200);
    assert_eq!(object.last_modified.timestamp_subsec_nanos(), 250_000_000);
    assert_eq!(aws::S3::parse_aws_object(&entry), Some(object));
}

#[test]
fn an_entry_with_a_missing_field_is_not_parsed() {
    let whole = || listed("a", "e", 1, (0, 0));
    assert!(S3::parse_aws_object(&whole()).is_some());
    assert!(S3::parse_aws_object(&ListedObject { key: None, ..whole() }).is_none());
    assert!(S3::parse_aws_object(&ListedObject { e_tag: None, ..whole() }).is_none());
    assert!(S3::parse_aws_object(&ListedObject { size: None, ..whole() }).is_none());
    assert!(S3::parse_aws_object(&ListedObject { last_modified: None, ..whole() }).is_none());
    assert!(aws::S3::parse_aws_object(&ListedObject { key: None, ..whole() }).is_none());
}

#[test]
fn a_time_that_cannot_be_represented_is_read_as_the_epoch() {
    let entry = listed("a", "e", 1, (i64::MAX, 0));
    let object = S3::parse_aws_object(&entry).unwrap();
    assert_eq!(object.last_modified, Timestamp::default());
    assert_eq!(object.last_modified.timestamp(), 0);

    let state = CompactS3Object { etag: "e".to_string(), size: 1, last_modified: i64::MIN };
    assert_eq!(S3::compact_to_s3_object("a", &state).last_modified, Timestamp::default());
}

#[test]
fn the_range_of_times_is_that_of_chrono() {
    let first: i64 = -8_334_601_228_800;
    let last: i64 = 8_210_266_876_799;
    assert_eq!(Timestamp::from_timestamp(first, 0).unwrap().timestamp(), first);
    assert_eq!(Timestamp::from_timestamp(last, 999_999_999).unwrap().timestamp(), last);
    assert!(Timestamp::from_timestamp(first - 1, 0).is_none());
    assert!(Timestamp::from_timestamp(last + 1, 0).is_none());
    for secs in [first - 1, first, -1, 0, 1609459200, last, last + 1] {
        for nanos in [0, 999_999_999, 1_000_000_000, 1_999_999_999, 2_000_000_000] {
            let ours = Timestamp::from_timestamp(secs, nanos);
            let theirs = chrono::DateTime::<chrono::Utc>::from_timestamp(secs, nanos);
            assert_eq!(ours.is_some(), theirs.is_some());
            if let (Some(a), Some(b)) = (ours, theirs) {
                assert_eq!(a.timestamp(), b.timestamp());
                assert_eq!(a.timestamp_subsec_nanos(), b.timestamp_subsec_nanos());
            }
        }
    }
}

#[test]
fn a_leap_second_is_written_at_the_end_of_a_minute_only() {
    assert!(Timestamp::from_timestamp(59, 1_500_000_000).is_some());
    assert!(Timestamp::from_timestamp(58, 1_500_000_000).is_none());
    assert!(Timestamp::from_timestamp(-1, 1_500_000_000).is_some());
}

#[test]
fn a_recorded_object_comes_back_without_its_fraction_of_a_second() {
    let object = S3Object {
        key: "k".to_string(),
        etag: "e".to_string(),
        size: 5,
        last_modified: Timestamp::from_timestamp(1609459200, 750_000_000).unwrap(),
    };
    let state = CompactS3Object {
        etag: object.etag.clone(),
        size: object.size,
        last_modified: object.last_modified.timestamp(),
    };
    assert_eq!(
        S3::compact_to_s3_object("k", &state),
        create_test_s3_object("k", "e", 5, 1609459200)
    );
}

#[test]
fn copies_are_equal() {
    let object = create_test_s3_object("k", "e", 5, 1609459200);
    assert_eq!(object.clone(), object);
    let state = CompactS3Object { etag: "e".to_string(), size: 5, last_modified: 9 };
    let copy = state.clone();
    assert_eq!((copy.etag, copy.size, copy.last_modified), ("e".to_string(), 5, 9));
}

#[test]
fn secrets_are_kept_out_of_debug_output() {
    let conf = create_test_s3_conf();
    assert!(!format!("{:?}", conf.access_key_id).contains("test-key"));
    assert!(!format!("{:?}", conf.secret_access_key).contains("test-secret"));
}

#[test]
fn a_configuration_can_be_written_out() {
    let conf = S3Conf {
        bucket: "b".to_string(),
        region: "r".to_string(),
        access_key_id: resy::secret::Secret::new("id".to_string()),
        secret_access_key: resy::secret::Secret::new("secret".to_string()),
        endpoint_url: None,
    };
    assert_eq!(conf.get_access_key_id(), "id");
    assert_eq!(conf.get_secret_access_key(), "secret");
}
