use pprof::protos;
use pprof::protos::Message;
use profiling::flamegraph::FlameGraphData;
use profiling::profile::Profile;
use profiling::service::{
    conclude, get_profile, handle_request, new_profile_id, process_profile, status_message,
    status_of, store_profile, HttpReply, IngestError, ProfileStore, StatusCode, WorkOutcome,
    CORS_MAX_AGE_SECS, FORCE_EXIT_SECS, PROCESS_DEADLINE_SECS, SHUTDOWN_GRACE_SECS,
};

fn empty_profile_bytes() -> Vec<u8> {
    protos::Profile { string_table: vec![String::new()], ..Default::default() }.encode_to_vec()
}

fn linear_profile_bytes() -> Vec<u8> {
    protos::Profile {
        string_table: vec![
            String::new(),
            "main".to_string(),
            "work".to_string(),
            "inner".to_string(),
        ],
        function: (1..=3)
            .map(|i| protos::Function { id: i, name: i as i64, ..Default::default() })
            .collect(),
        location: (1..=3)
            .map(|i| protos::Location {
                id: i,
                line: vec![protos::Line { function_id: i, line: 0 }],
                ..Default::default()
            })
            .collect(),
        sample: vec![protos::Sample { location_id: vec![1, 2, 3], value: vec![7], label: vec![] }],
        ..Default::default()
    }
    .encode_to_vec()
}

fn empty_graph() -> FlameGraphData {
    FlameGraphData::from_profile(&Profile {
        string_table: vec![String::new()],
        function: vec![],
        location: vec![],
        sample: vec![],
    })
}

fn assert_is_uuid(id: &str) {
    let chars: Vec<char> = id.chars().collect();
    assert_eq!(chars.len(), 36);
    for (i, c) in chars.iter().enumerate() {
        if i == 8 || i == 13 || i == 18 || i == 23 {
            assert_eq!(*c, '-');
        } else {
            assert!(c.is_ascii_digit() || ('a'..='f').contains(c));
        }
    }
    assert_eq!(chars[14], '4');
    assert!(['8', '9', 'a', 'b'].contains(&chars[19]));
}

#[test]
fn identifiers_have_the_canonical_shape() {
    for _ in 0..50 {
        assert_is_uuid(&new_profile_id());
    }
}

#[test]
fn identifiers_are_fresh() {
    let a = new_profile_id();
    let b = new_profile_id();
    assert_ne!(a, b);
}

#[test]
fn an_empty_profile_is_stored_and_served() {
    let mut store = ProfileStore::new();
    let outcome = WorkOutcome::Finished(process_profile(&empty_profile_bytes()));
    let stored = handle_request(&mut store, outcome).unwrap();
    assert_is_uuid(&stored.id);
    assert_eq!(stored.json, "{\"name\":\"root\",\"value\":0,\"children\":[]}");
    assert_eq!(stored.raw_file, format!("profile_{}.pb", stored.id));
    assert_eq!(stored.json_file, format!("profile_{}.json", stored.id));
    let reply = get_profile(&store, &stored.id);
    assert_eq!(
        reply,
        HttpReply {
            status: 200,
            body: "{\"name\":\"root\",\"value\":0,\"children\":[]}".to_string()
        }
    );
}

#[test]
fn a_linear_profile_is_served_as_a_chain() {
    let mut store = ProfileStore::new();
    let outcome = WorkOutcome::Finished(process_profile(&linear_profile_bytes()));
    let stored = handle_request(&mut store, outcome).unwrap();
    let reply = get_profile(&store, &stored.id);
    assert_eq!(reply.status, 200);
    assert_eq!(
        reply.body,
        "{\"name\":\"root\",\"value\":7,\"children\":[{\"id\":\"1\",\"name\":\"main\",\"value\":7,\"children\":[{\"id\":\"2\",\"name\":\"work\",\"value\":7,\"children\":[{\"id\":\"3\",\"name\":\"inner\",\"value\":7,\"children\":[]}]}]}]}"
    );
}

#[test]
fn an_unknown_identifier_is_not_found() {
    let store = ProfileStore::new();
    let reply = get_profile(&store, "00000000-0000-0000-0000-000000000000");
    assert_eq!(
        reply,
        HttpReply { status: 404, body: "{\"error\":\"Profile not found\"}".to_string() }
    );
}

#[test]
fn a_timeout_keeps_nothing() {
    let mut store = ProfileStore::new();
    store.put("kept".to_string(), "{}".to_string());
    let result = handle_request(&mut store, WorkOutcome::TimedOut);
    assert_eq!(result, Err(IngestError::DeadlineExceeded));
    assert_eq!(status_of(&IngestError::DeadlineExceeded), StatusCode::DeadlineExceeded);
    assert_eq!(get_profile(&store, "kept").status, 200);
    assert_eq!(get_profile(&store, "").status, 404);
}

#[test]
fn a_failed_worker_keeps_nothing() {
    let mut store = ProfileStore::new();
    let result = handle_request(&mut store, WorkOutcome::WorkerFailed);
    assert_eq!(result, Err(IngestError::BuilderFailure));
}

#[test]
fn bytes_that_are_no_profile_are_an_invalid_argument() {
    let mut store = ProfileStore::new();
    let work = process_profile(b"\xff\xff\xff");
    assert_eq!(work, Err(IngestError::InvalidProfile));
    let result = handle_request(&mut store, WorkOutcome::Finished(work));
    assert_eq!(result, Err(IngestError::InvalidProfile));
    assert_eq!(status_of(&IngestError::InvalidProfile), StatusCode::InvalidArgument);
}

#[test]
fn a_sample_without_values_is_a_builder_failure() {
    let bytes = protos::Profile {
        sample: vec![protos::Sample { location_id: vec![1], value: vec![], label: vec![] }],
        ..Default::default()
    }
    .encode_to_vec();
    assert_eq!(process_profile(&bytes), Err(IngestError::BuilderFailure));
}

#[test]
fn counts_beyond_64_bits_are_a_builder_failure() {
    let bytes = protos::Profile {
        sample: vec![
            protos::Sample { location_id: vec![], value: vec![-1], label: vec![] },
            protos::Sample { location_id: vec![], value: vec![1], label: vec![] },
        ],
        ..Default::default()
    }
    .encode_to_vec();
    assert_eq!(process_profile(&bytes), Err(IngestError::BuilderFailure));
}

#[test]
fn conclude_passes_the_result_of_the_worker_on() {
    assert_eq!(conclude(WorkOutcome::Finished(Ok(empty_graph()))), Ok(empty_graph()));
    assert_eq!(
        conclude(WorkOutcome::Finished(Err(IngestError::InvalidProfile))),
        Err(IngestError::InvalidProfile)
    );
    assert_eq!(conclude(WorkOutcome::WorkerFailed), Err(IngestError::BuilderFailure));
    assert_eq!(conclude(WorkOutcome::TimedOut), Err(IngestError::DeadlineExceeded));
}

#[test]
fn each_reason_has_its_status_and_message() {
    let io = IngestError::StorageIo { message: "disk full".to_string() };
    assert_eq!(status_of(&IngestError::BuilderFailure), StatusCode::Internal);
    assert_eq!(status_of(&io), StatusCode::Internal);
    assert_eq!(status_message(&IngestError::InvalidProfile), "Invalid profile data");
    assert_eq!(status_message(&IngestError::DeadlineExceeded), "Profile processing timed out");
    assert_eq!(status_message(&IngestError::BuilderFailure), "Profile processing failed");
    assert_eq!(status_message(&io), "disk full");
}

#[test]
fn store_profile_names_the_files_after_the_identifier() {
    let mut store = ProfileStore::new();
    let stored = store_profile(&mut store, "abc".to_string(), &empty_graph());
    assert_eq!(stored.id, "abc");
    assert_eq!(stored.raw_file, "profile_abc.pb");
    assert_eq!(stored.json_file, "profile_abc.json");
    assert_eq!(store.get("abc"), Some(&stored.json));
}

#[test]
fn retrieval_gives_the_same_bytes_every_time() {
    let mut store = ProfileStore::new();
    let outcome = WorkOutcome::Finished(process_profile(&linear_profile_bytes()));
    let stored = handle_request(&mut store, outcome).unwrap();
    let first = get_profile(&store, &stored.id);
    let second = get_profile(&store, &stored.id);
    assert_eq!(first.body.as_bytes(), second.body.as_bytes());
    // another profile comes in between
    let outcome = WorkOutcome::Finished(process_profile(&empty_profile_bytes()));
    let other = handle_request(&mut store, outcome).unwrap();
    assert_ne!(other.id, stored.id);
    let third = get_profile(&store, &stored.id);
    assert_eq!(first, third);
}

#[test]
fn put_replaces_what_was_kept() {
    let mut store = ProfileStore::new();
    assert_eq!(store.get("a"), None);
    store.put("a".to_string(), "1".to_string());
    store.put("b".to_string(), "2".to_string());
    store.put("a".to_string(), "3".to_string());
    assert_eq!(store.get("a"), Some(&"3".to_string()));
    assert_eq!(store.get("b"), Some(&"2".to_string()));
    assert_eq!(store.get("c"), None);
}

#[test]
fn the_limits_of_the_collector() {
    assert_eq!(PROCESS_DEADLINE_SECS, 30);
    assert_eq!(SHUTDOWN_GRACE_SECS, 5);
    assert_eq!(FORCE_EXIT_SECS, 6);
    assert_eq!(CORS_MAX_AGE_SECS, 3600);
}
