use audpro::capture::session_id_from_audio_path;
use audpro::sessions::{
    invalid_session_id, missing_metadata, newest_first, session_not_found, session_record,
    valid_session_id, SessionMetadata, SessionStore, METADATA_FILE,
};
use audpro::timestamp::{format_iso8601, iso8601_now};

#[test]
fn session_id_validation() {
    assert!(valid_session_id("session-1730000000000"));
    assert!(valid_session_id("abc_DEF-123"));
    assert!(!valid_session_id(""));
    assert!(!valid_session_id("../escape"));
    assert!(!valid_session_id("with space"));
    assert!(!valid_session_id(&"x".repeat(129)));
}

#[test]
fn session_id_length_limit() {
    assert!(valid_session_id(&"x".repeat(128)));
    assert!(!valid_session_id("caf\u{e9}"));
    assert!(!valid_session_id("a/b"));
    assert!(!valid_session_id("a\\b"));
    assert!(!valid_session_id("."));
}

#[test]
fn iso8601_format() {
    let stamp = iso8601_now();
    assert_eq!(stamp.len(), 24);
    assert!(stamp.ends_with('Z'));
    assert_eq!(&stamp[4..5], "-");
    assert_eq!(&stamp[10..11], "T");
}

#[test]
fn session_paths() {
    let store = SessionStore::new("/data/sessions".to_string());
    assert_eq!(store.session_dir("sess-1"), "/data/sessions/sess-1");
    assert_eq!(
        store.session_file("sess-1", METADATA_FILE),
        "/data/sessions/sess-1/metadata.json"
    );
    let trailing = SessionStore::new("/data/sessions/".to_string());
    assert_eq!(trailing.session_dir("sess-1"), "/data/sessions/sess-1");
}

#[test]
fn create_session_dir_checks_id() {
    let store = SessionStore::new("/data/sessions".to_string());
    assert_eq!(store.create_session_dir("sess-1"), Ok("/data/sessions/sess-1".to_string()));
    assert_eq!(store.create_session_dir("../escape"), Err("Invalid session ID".to_string()));
    assert_eq!(store.create_session_dir(""), Err("Invalid session ID".to_string()));
}

#[test]
fn session_files_roundtrip() {
    let store = SessionStore::new("/tmp/store".to_string());
    let write = store.write_initial_metadata("sess-1");
    assert_eq!(write.path, "/tmp/store/sess-1/metadata.json");
    assert_eq!(write.metadata.uuid, "sess-1");
    assert_eq!(write.metadata.status, "recording");
    assert_eq!(write.metadata.speaker_count, 0);
    assert_eq!(write.metadata.language, None);
    assert_eq!(write.metadata.created_at.len(), 24);

    let files = store.read_session_detail("sess-1").unwrap();
    assert_eq!(files.metadata, write.path);
    assert_eq!(files.dir, "/tmp/store/sess-1");
    assert_eq!(files.audio, "/tmp/store/sess-1/audio.wav");
    assert_eq!(files.summary, "/tmp/store/sess-1/summary.md");
    assert_eq!(files.transcript, "/tmp/store/sess-1/transcript.json");

    assert!(store.read_session_detail("../escape").is_err());
}

#[test]
fn write_metadata_keeps_record() {
    let store = SessionStore::new("root".to_string());
    let metadata = SessionMetadata {
        uuid: "sess-1".to_string(),
        created_at: "2026-01-01T00:00:00.000Z".to_string(),
        speaker_count: 2,
        status: "completed".to_string(),
        language: Some("EN".to_string()),
    };
    let write = store.write_metadata("sess-1", metadata);
    assert_eq!(write.path, "root/sess-1/metadata.json");
    assert_eq!(write.metadata.speaker_count, 2);
    assert_eq!(write.metadata.created_at, "2026-01-01T00:00:00.000Z");
    assert_eq!(write.metadata.language.as_deref(), Some("EN"));
}

#[test]
fn mark_recorded_sets_status() {
    let mut metadata = SessionMetadata {
        uuid: "s".to_string(),
        created_at: "2026-01-01T00:00:00.000Z".to_string(),
        speaker_count: 0,
        status: "recording".to_string(),
        language: None,
    };
    metadata.mark_recorded();
    assert_eq!(metadata.status, "recorded");
    assert_eq!(metadata.uuid, "s");
}

#[test]
fn session_messages() {
    assert_eq!(invalid_session_id(), "Invalid session ID");
    assert_eq!(session_not_found("missing"), "Session 'missing' not found");
    assert_eq!(missing_metadata("s1"), "Session 's1' has no metadata.json");
}

#[test]
fn newest_first_orders_by_stamp() {
    let stamps = vec![
        "2026-01-01T00:00:00.000Z".to_string(),
        "2026-03-01T00:00:00.000Z".to_string(),
        "2025-12-31T23:59:59.999Z".to_string(),
        "2026-03-01T00:00:00.000Z".to_string(),
    ];
    assert_eq!(newest_first(&stamps), vec![1, 3, 0, 2]);
    assert_eq!(newest_first(&Vec::new()), Vec::<usize>::new());
    let one = vec!["2026-01-01T00:00:00.000Z".to_string()];
    assert_eq!(newest_first(&one), vec![0]);
}

#[test]
fn newest_first_shorter_prefix_is_older() {
    let stamps = vec!["ab".to_string(), "abc".to_string(), "b".to_string(), "".to_string()];
    assert_eq!(newest_first(&stamps), vec![2, 1, 0, 3]);
}

#[test]
fn session_id_from_path() {
    assert_eq!(session_id_from_audio_path("/data/sessions/abc/audio.wav", '/'), "abc");
    assert_eq!(session_id_from_audio_path("abc/audio.wav", '/'), "abc");
    assert_eq!(session_id_from_audio_path("audio.wav", '/'), "");
    assert_eq!(session_id_from_audio_path("C:\\s\\id-7\\audio.wav", '\\'), "id-7");
}

#[test]
fn listing_follows_creation_time() {
    let stamps = vec![
        format_iso8601(1_700_000_000, 5),
        format_iso8601(1_700_000_000, 500),
        format_iso8601(1_600_000_000, 0),
        format_iso8601(1_700_000_000, 5),
    ];
    assert_eq!(newest_first(&stamps), vec![1, 0, 3, 2]);
}

#[test]
fn session_dir_is_a_direct_child() {
    let store = SessionStore::new("/data/sessions".to_string());
    let dir = store.session_dir("sess-1");
    assert_ne!(dir, "/data/sessionssess-1");
    assert!(dir.starts_with("/data/sessions/"));
    assert_eq!(&dir["/data/sessions/".len()..], "sess-1");
    let relative = SessionStore::new(String::new());
    assert_eq!(relative.session_dir("sess-1"), "sess-1");
    let nested = SessionStore::new("store".to_string());
    assert_eq!(nested.session_dir("a/b"), "store/a/b");
}

#[test]
fn session_record_order_of_errors() {
    assert_eq!(
        session_record("s1", false, Some(7u32)),
        Err("Session 's1' not found".to_string())
    );
    assert_eq!(
        session_record::<u32>("s1", true, None),
        Err("Session 's1' has no metadata.json".to_string())
    );
    assert_eq!(session_record("s1", true, Some(7u32)), Ok(7));
}

#[test]
fn metadata_read_is_the_file_written() {
    let store = SessionStore::new("/data/sessions".to_string());
    assert_eq!(store.separator(), std::path::MAIN_SEPARATOR);
    let record = SessionMetadata {
        uuid: "sess-1".to_string(),
        created_at: "2026-01-01T00:00:00.000Z".to_string(),
        speaker_count: 2,
        status: "completed".to_string(),
        language: Some("EN".to_string()),
    };
    let write = store.write_metadata("sess-1", record);
    let files = store.read_session_detail("sess-1").unwrap();
    assert_eq!(write.path, files.metadata);
    assert_eq!(files.metadata, "/data/sessions/sess-1/metadata.json");
    assert_eq!(files.audio, "/data/sessions/sess-1/audio.wav");
    assert_eq!(files.dir, store.create_session_dir("sess-1").unwrap());
    assert_eq!(write.metadata.speaker_count, 2);
}

#[test]
fn session_dir_separator_rules() {
    let backslash = SessionStore::new("store\\".to_string());
    assert_eq!(backslash.session_dir("s1"), "store\\/s1");
    let drive = SessionStore::new("C:".to_string());
    assert_eq!(drive.session_dir("s1"), "C:/s1");
    let absolute = SessionStore::new("/data".to_string());
    assert_eq!(absolute.session_dir("/etc"), "/etc");
}
