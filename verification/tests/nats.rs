use deckr_mirabox_manager::config::{
    manager_id_or_default, DEFAULT_CONCORD_TOKEN_REFRESH_SECONDS, DEFAULT_NATS_URL,
    DEFAULT_STATE_RECONCILE_SECONDS,
};
use deckr_mirabox_manager::nats::{
    hardware_message_subjects, holds_value, is_listed, is_no_keys_error, names_no_keys,
    next_bucket_step, present_headers, validate_discovery_bucket, watch_key, BucketError,
    BucketStep, EntryOperation,
};
use deckr_mirabox_manager::text_map::TextMap;

#[test]
fn subjects_of_the_hardware_lane() {
    assert_eq!(hardware_message_subjects(), "deckr.lane.hardware_messages.>");
}

#[test]
fn prefixes_are_watched_with_all_below() {
    assert_eq!(watch_key("a.b."), "a.b.>");
    assert_eq!(watch_key("a.b"), "a.b");
    assert_eq!(watch_key(""), "");
}

#[test]
fn keys_are_listed_by_prefix_while_they_hold_a_value() {
    assert!(is_listed("a.b.c", "a.b."));
    assert!(!is_listed("a.bc", "a.b."));
    assert!(holds_value(EntryOperation::Put));
    assert!(!holds_value(EntryOperation::Delete));
    assert!(!holds_value(EntryOperation::Purge));
}

#[test]
fn nothing_to_list_is_no_error() {
    assert!(is_no_keys_error("No Keys found"));
    assert!(is_no_keys_error("stream has NO MESSAGES"));
    assert!(!is_no_keys_error("timed out"));
    assert!(names_no_keys("there are no keys"));
    assert!(!names_no_keys("No Keys found"));
}

#[test]
fn buckets_for_discovery_keep_one_value_for_good() {
    assert_eq!(validate_discovery_bucket(1, 0), Ok(()));
    assert_eq!(validate_discovery_bucket(5, 7), Err(BucketError::History(5)));
    assert_eq!(
        validate_discovery_bucket(1, 7),
        Err(BucketError::Expiry { max_age_nanos: 7 })
    );
}

#[test]
fn buckets_are_opened_or_made() {
    assert_eq!(next_bucket_step(BucketStep::Open, true), BucketStep::Validate);
    assert_eq!(next_bucket_step(BucketStep::Open, false), BucketStep::Create);
    assert_eq!(next_bucket_step(BucketStep::Create, true), BucketStep::Validate);
    assert_eq!(next_bucket_step(BucketStep::Create, false), BucketStep::Reopen);
    assert_eq!(next_bucket_step(BucketStep::Reopen, true), BucketStep::Validate);
    assert_eq!(next_bucket_step(BucketStep::Reopen, false), BucketStep::Fail);
    assert_eq!(next_bucket_step(BucketStep::Validate, false), BucketStep::Validate);
}

fn headers(entries: Vec<(&str, &str)>) -> TextMap<String> {
    let mut map = TextMap::new();
    for (name, value) in entries {
        map.insert(name.to_string(), value.to_string());
    }
    map
}

#[test]
fn headers_that_are_there_keep_their_values() {
    let expected = headers(vec![("Deckr-Sender", "a"), ("Deckr-Recipient", "b")]);
    let found = headers(vec![("Deckr-Sender", "x"), ("Other", "y")]);
    let present = present_headers(&expected, &found);
    assert_eq!(present.len(), 1);
    assert_eq!(present.get("Deckr-Sender").map(String::as_str), Some("x"));
}

#[test]
fn managers_are_named_after_their_host() {
    assert_eq!(manager_id_or_default(None, "kitchen-pi"), "mirabox-rust-kitchen-pi");
    assert_eq!(
        manager_id_or_default(Some("kitchen".to_string()), "kitchen-pi"),
        "kitchen"
    );
    assert_eq!(DEFAULT_NATS_URL, "nats://127.0.0.1:4222");
    assert_eq!(DEFAULT_CONCORD_TOKEN_REFRESH_SECONDS, 15);
    assert_eq!(DEFAULT_STATE_RECONCILE_SECONDS, 300);
}
