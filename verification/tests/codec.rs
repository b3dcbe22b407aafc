use pprof::protos;
use pprof::protos::Message;
use profiling::codec::{decode_profile, encode_profile, InvalidProfile};
use profiling::flamegraph::FlameGraphData;
use profiling::profile::{Function, Line, Location, Profile, Sample};

fn small_profile() -> Profile {
    Profile {
        string_table: vec![String::new(), "main".to_string(), "work".to_string()],
        function: vec![Function { id: 1, name: 1 }, Function { id: 2, name: 2 }],
        location: vec![
            Location { id: 10, line: vec![Line { function_id: 1, line: 3 }] },
            Location {
                id: 20,
                line: vec![Line { function_id: 2, line: 8 }, Line { function_id: 1, line: 9 }],
            },
            Location { id: 30, line: vec![] },
        ],
        sample: vec![
            Sample { location_id: vec![10, 20], value: vec![7, 70] },
            Sample { location_id: vec![20, 30], value: vec![2] },
        ],
    }
}

fn small_message() -> protos::Profile {
    protos::Profile {
        string_table: vec![String::new(), "main".to_string(), "work".to_string()],
        function: vec![
            protos::Function { id: 1, name: 1, system_name: 1, filename: 2, start_line: 4 },
            protos::Function { id: 2, name: 2, ..Default::default() },
        ],
        location: vec![
            protos::Location {
                id: 10,
                mapping_id: 1,
                address: 0x1000,
                line: vec![protos::Line { function_id: 1, line: 3 }],
                is_folded: false,
            },
            protos::Location {
                id: 20,
                line: vec![
                    protos::Line { function_id: 2, line: 8 },
                    protos::Line { function_id: 1, line: 9 },
                ],
                ..Default::default()
            },
            protos::Location { id: 30, ..Default::default() },
        ],
        sample: vec![
            protos::Sample { location_id: vec![10, 20], value: vec![7, 70], label: vec![] },
            protos::Sample { location_id: vec![20, 30], value: vec![2], label: vec![] },
        ],
        sample_type: vec![protos::ValueType { ty: 1, unit: 2 }],
        period: 10,
        ..Default::default()
    }
}

#[test]
fn decode_reads_what_the_builder_needs() {
    let bytes = small_message().encode_to_vec();
    assert_eq!(decode_profile(&bytes), Ok(small_profile()));
}

#[test]
fn decode_takes_no_bytes_as_an_empty_profile() {
    let profile = decode_profile(&[]).unwrap();
    assert!(profile.string_table.is_empty());
    assert!(profile.function.is_empty());
    assert!(profile.location.is_empty());
    assert!(profile.sample.is_empty());
}

#[test]
fn decode_gives_missing_fields_their_empty_value() {
    // one sample without locations and values, one location without lines
    let message = protos::Profile {
        sample: vec![protos::Sample::default()],
        location: vec![protos::Location { id: 5, ..Default::default() }],
        ..Default::default()
    };
    let profile = decode_profile(&message.encode_to_vec()).unwrap();
    assert_eq!(profile.sample, vec![Sample { location_id: vec![], value: vec![] }]);
    assert_eq!(profile.location, vec![Location { id: 5, line: vec![] }]);
}

#[test]
fn decode_rejects_what_is_no_message() {
    assert_eq!(decode_profile(&[0xff, 0xff, 0xff]), Err(InvalidProfile));
    assert_eq!(decode_profile(b"not a profile"), Err(InvalidProfile));
}

#[test]
fn decode_rejects_a_truncated_message() {
    let bytes = small_message().encode_to_vec();
    assert!(bytes.len() > 8);
    assert_eq!(decode_profile(&bytes[..bytes.len() - 3]), Err(InvalidProfile));
}

#[test]
fn encode_writes_a_pprof_message() {
    let bytes = encode_profile(small_profile());
    let message = protos::Profile::decode(&bytes[..]).unwrap();
    assert_eq!(message.string_table, vec!["", "main", "work"]);
    assert_eq!(message.function.len(), 2);
    assert_eq!(message.function[1].id, 2);
    assert_eq!(message.function[1].name, 2);
    assert_eq!(message.location[1].line[1], protos::Line { function_id: 1, line: 9 });
    assert_eq!(message.sample[0].location_id, vec![10, 20]);
    assert_eq!(message.sample[0].value, vec![7, 70]);
    assert!(message.sample_type.is_empty());
}

#[test]
fn encode_of_a_bare_string_table_is_two_bytes() {
    let profile = Profile {
        string_table: vec![String::new()],
        function: vec![],
        location: vec![],
        sample: vec![],
    };
    // field 6, length-delimited, length 0
    assert_eq!(encode_profile(profile), vec![0x32, 0x00]);
}

#[test]
fn encode_then_decode_gives_the_profile_back() {
    let bytes = encode_profile(small_profile());
    assert_eq!(decode_profile(&bytes), Ok(small_profile()));
}

#[test]
fn a_round_trip_keeps_the_flame_graph() {
    let first = small_message().encode_to_vec();
    let decoded = decode_profile(&first).unwrap();
    let graph = FlameGraphData::from_profile(&decoded);
    // through the library's writer
    let second = encode_profile(decoded);
    let again = decode_profile(&second).unwrap();
    assert_eq!(FlameGraphData::from_profile(&again), graph);
    assert_eq!(FlameGraphData::from_profile(&again).to_json(), graph.to_json());
    // through the message itself
    let third = protos::Profile::decode(&first[..]).unwrap().encode_to_vec();
    let thrice = decode_profile(&third).unwrap();
    assert_eq!(FlameGraphData::from_profile(&thrice).to_json(), graph.to_json());
    assert_eq!(
        graph.to_json(),
        "{\"name\":\"root\",\"value\":9,\"children\":[{\"id\":\"1\",\"name\":\"main\",\"value\":7,\"children\":[{\"id\":\"2\",\"name\":\"work\",\"value\":9,\"children\":[]}]}]}"
    );
}
