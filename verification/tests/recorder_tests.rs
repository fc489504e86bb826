use blueos_recorder::recorder::{generate_filename, MessageOutcome, Recorder};

const CONTROL_PATTERN: &str = "mavlink/\\d+/1/HEARTBEAT/base_mode";
const CONTROL_TOPIC: &str = "mavlink/1/1/HEARTBEAT/base_mode";

fn new_recorder() -> Recorder {
    Recorder::new(
        CONTROL_PATTERN,
        "/tmp/recordings".to_string(),
        "/tmp/schemas".to_string(),
        0,
    )
    .expect("the control pattern compiles")
}

/// Arms the recorder with a control message whose encoding the catalog does
/// not recognize, so the control message itself leaves no record behind.
fn arm_quietly(rec: &mut Recorder, now: u64) -> Option<String> {
    let r = rec.ingest(
        CONTROL_TOPIC,
        b"{\"bits\": 128}",
        "application/octet-stream",
        None,
        now,
    );
    r.opened
}

fn disarm(rec: &mut Recorder, now: u64) -> Vec<u8> {
    let r = rec.ingest(
        CONTROL_TOPIC,
        b"{\"bits\": 0}",
        "application/octet-stream",
        None,
        now,
    );
    r.finalized.expect("a container was finalized").bytes
}

fn read_messages(bytes: &[u8]) -> Vec<(String, u32, u64, Vec<u8>, String, String, Vec<u8>)> {
    let mut out = vec![];
    for m in mcap::MessageStream::new(bytes).expect("the container parses") {
        let m = m.expect("each record parses");
        let schema = m.channel.schema.as_ref().expect("each channel has a schema");
        out.push((
            m.channel.topic.to_string(),
            m.sequence,
            m.log_time,
            m.data.to_vec(),
            schema.name.to_string(),
            schema.encoding.to_string(),
            schema.data.to_vec(),
        ));
    }
    out
}

#[test]
fn filename_is_timestamp_derived() {
    assert_eq!(generate_filename(0), "recorder_19700101_000000.mcap");
    assert_eq!(
        generate_filename(1_000_000_000),
        "recorder_19700101_000001.mcap"
    );
    // 2021-01-01 00:00:00 UTC
    assert_eq!(
        generate_filename(1_609_459_200_000_000_000),
        "recorder_20210101_000000.mcap"
    );
    // Names sort lexicographically in time order.
    let times: Vec<u64> = vec![
        0,
        59_000_000_000,
        60_000_000_000,
        1_609_459_200_000_000_000,
        u64::MAX,
    ];
    for pair in times.windows(2) {
        assert!(generate_filename(pair[0]) <= generate_filename(pair[1]));
    }
}

#[test]
fn arming_opens_a_timestamp_named_container() {
    let mut rec = new_recorder();
    let opened = arm_quietly(&mut rec, 1_609_459_200_000_000_000);
    assert_eq!(
        opened,
        Some("/tmp/recordings/recorder_20210101_000000.mcap".to_string())
    );
}

#[test]
fn repeated_control_states_are_ignored() {
    let mut rec = new_recorder();
    assert!(arm_quietly(&mut rec, 1_000).is_some());
    // Re-arming while armed opens nothing.
    let r = rec.ingest(
        CONTROL_TOPIC,
        b"{\"bits\": 128}",
        "application/octet-stream",
        None,
        2_000,
    );
    assert!(r.opened.is_none());
    assert!(r.finalized.is_none());
    // Disarming finalizes exactly once.
    let r = rec.ingest(
        CONTROL_TOPIC,
        b"{\"bits\": 0}",
        "application/octet-stream",
        None,
        3_000,
    );
    assert!(r.finalized.is_some());
    let r = rec.ingest(
        CONTROL_TOPIC,
        b"{\"bits\": 0}",
        "application/octet-stream",
        None,
        4_000,
    );
    assert!(r.finalized.is_none());
    assert!(r.opened.is_none());
}

#[test]
fn control_parse_failures_leave_state_unchanged() {
    let mut rec = new_recorder();
    // Not parseable, no object, missing field, non-integer field: no arming.
    for payload in [
        &b"\xff\xfe"[..],
        b"not structured",
        b"42",
        b"{\"other\": 1}",
        b"{\"bits\": \"high\"}",
        b"{\"bits\": -1}",
    ] {
        let r = rec.ingest(CONTROL_TOPIC, payload, "application/json", None, 1_000);
        assert!(r.opened.is_none());
        assert!(matches!(r.outcome, MessageOutcome::NotRecording));
    }
}

#[test]
fn non_control_topics_never_toggle_recording() {
    let mut rec = new_recorder();
    let r = rec.ingest("some/topic", b"{\"bits\": 128}", "application/json", None, 1_000);
    assert!(r.opened.is_none());
    assert!(matches!(r.outcome, MessageOutcome::NotRecording));
}

#[test]
fn scenario_structured_text_message() {
    let mut rec = new_recorder();
    arm_quietly(&mut rec, 1_000).expect("armed");
    let r = rec.ingest("t1", b"{\"a\":1,\"b\":\"x\"}", "application/json", None, 2_000);
    match r.outcome {
        MessageOutcome::Recorded { sequence, .. } => assert_eq!(sequence, 0),
        other => panic!("expected a recorded message, got {:?}", outcome_name(&other)),
    }
    let bytes = disarm(&mut rec, 3_000);

    let summary = mcap::Summary::read(&bytes)
        .expect("the summary parses")
        .expect("a summary is present");
    assert_eq!(summary.schemas.len(), 1);
    assert_eq!(summary.channels.len(), 1);

    let messages = read_messages(&bytes);
    assert_eq!(messages.len(), 1);
    let (topic, sequence, log_time, data, schema_name, schema_encoding, schema_data) =
        messages[0].clone();
    assert_eq!(topic, "t1");
    assert_eq!(sequence, 0);
    assert_eq!(log_time, 2_000);
    assert_eq!(data, b"{\"a\":1,\"b\":\"x\"}");
    assert_eq!(schema_name, "t1");
    assert_eq!(schema_encoding, "jsonschema");
    assert_eq!(
        String::from_utf8(schema_data).unwrap(),
        "{\"properties\":{\"a\":{\"type\":\"integer\"},\"b\":{\"type\":\"string\"}},\"type\":\"object\"}"
    );
}

fn outcome_name(o: &MessageOutcome) -> &'static str {
    match o {
        MessageOutcome::Recorded { .. } => "Recorded",
        MessageOutcome::NotRecording => "NotRecording",
        MessageOutcome::NeedsSchemaFile { .. } => "NeedsSchemaFile",
        MessageOutcome::DroppedUnknownEncoding => "DroppedUnknownEncoding",
        MessageOutcome::DroppedBadToken => "DroppedBadToken",
        MessageOutcome::DroppedSchemaLoadFailed => "DroppedSchemaLoadFailed",
        MessageOutcome::DroppedUndecodable => "DroppedUndecodable",
        MessageOutcome::DroppedUnparsable => "DroppedUnparsable",
        MessageOutcome::DroppedNotObject => "DroppedNotObject",
        MessageOutcome::DroppedRegistrationFailed => "DroppedRegistrationFailed",
        MessageOutcome::DroppedSequenceExhausted => "DroppedSequenceExhausted",
    }
}

#[test]
fn scenario_missing_binary_record_schema() {
    let mut rec = new_recorder();
    arm_quietly(&mut rec, 1_000).expect("armed");

    // The schema file must be consulted; its path is derived from the token.
    let r = rec.ingest("t2", b"\x01\x02", "application/cdr;pkgX.MsgY", None, 2_000);
    match &r.outcome {
        MessageOutcome::NeedsSchemaFile { path } => {
            assert_eq!(path, "/tmp/schemas/pkgX/MsgY.msg");
        }
        other => panic!("expected a schema request, got {:?}", outcome_name(other)),
    }

    // The file is absent: the message is dropped, nothing is registered.
    let r = rec.ingest(
        "t2",
        b"\x01\x02",
        "application/cdr;pkgX.MsgY",
        Some(Err("no such file".to_string())),
        2_100,
    );
    assert!(matches!(r.outcome, MessageOutcome::DroppedSchemaLoadFailed));

    // A later message on the same topic still attempts resolution again.
    let r = rec.ingest("t2", b"\x03\x04", "application/cdr;pkgX.MsgY", None, 3_000);
    assert!(matches!(r.outcome, MessageOutcome::NeedsSchemaFile { .. }));

    // Once the file is readable, the message is recorded.
    let r = rec.ingest(
        "t2",
        b"\x03\x04",
        "application/cdr;pkgX.MsgY",
        Some(Ok("uint8 field\n".to_string())),
        3_100,
    );
    assert!(matches!(
        r.outcome,
        MessageOutcome::Recorded { sequence: 0, .. }
    ));

    let bytes = disarm(&mut rec, 4_000);
    let messages = read_messages(&bytes);
    assert_eq!(messages.len(), 1);
    let (topic, sequence, _, data, schema_name, schema_encoding, schema_data) =
        messages[0].clone();
    assert_eq!(topic, "t2");
    assert_eq!(sequence, 0);
    assert_eq!(data, b"\x03\x04");
    assert_eq!(schema_name, "pkgX.MsgY");
    assert_eq!(schema_encoding, "ros2msg");
    assert_eq!(schema_data, b"uint8 field\n");
}

#[test]
fn scenario_disarm_after_many_messages() {
    let mut rec = new_recorder();
    arm_quietly(&mut rec, 1_000).expect("armed");
    for i in 0..500u32 {
        let r = rec.ingest("t1", b"{\"a\":1}", "application/json", None, 10_000 + i as u64);
        match r.outcome {
            MessageOutcome::Recorded { sequence, .. } => assert_eq!(sequence, i),
            other => panic!("message {} not recorded: {:?}", i, outcome_name(&other)),
        }
    }
    let bytes = disarm(&mut rec, 20_000);

    // One more message while disarmed: no record, no new container.
    let r = rec.ingest("t1", b"{\"a\":1}", "application/json", None, 21_000);
    assert!(matches!(r.outcome, MessageOutcome::NotRecording));
    assert!(r.opened.is_none());

    let messages = read_messages(&bytes);
    assert_eq!(messages.len(), 500);
    for (i, m) in messages.iter().enumerate() {
        assert_eq!(m.0, "t1");
        assert_eq!(m.1, i as u32);
    }
    let summary = mcap::Summary::read(&bytes).unwrap().unwrap();
    assert_eq!(summary.channels.len(), 1);
}

#[test]
fn payload_bytes_round_trip_verbatim() {
    let mut rec = new_recorder();
    arm_quietly(&mut rec, 1_000).expect("armed");
    let payloads: Vec<Vec<u8>> = vec![
        vec![],
        vec![0u8],
        vec![0xff, 0x00, 0x80, 0x7f],
        (0..=255u8).collect(),
    ];
    for (i, p) in payloads.iter().enumerate() {
        let r = rec.ingest(
            "bin",
            p,
            "application/cdr;pkg.Msg",
            Some(Ok("uint8 x".to_string())),
            2_000 + i as u64,
        );
        assert!(matches!(r.outcome, MessageOutcome::Recorded { .. }));
    }
    let bytes = disarm(&mut rec, 9_000);
    let messages = read_messages(&bytes);
    assert_eq!(messages.len(), payloads.len());
    for (m, p) in messages.iter().zip(payloads.iter()) {
        assert_eq!(&m.3, p);
    }
}

#[test]
fn dropped_messages_leave_no_gap_on_other_channels() {
    let mut rec = new_recorder();
    arm_quietly(&mut rec, 1_000).expect("armed");
    assert!(matches!(
        rec.ingest("good", b"{\"v\":1}", "application/json", None, 2_000).outcome,
        MessageOutcome::Recorded { sequence: 0, .. }
    ));
    // A message dropped on another topic...
    assert!(matches!(
        rec.ingest("bad", b"\xff", "application/json", None, 2_100).outcome,
        MessageOutcome::DroppedUndecodable
    ));
    // ...does not advance the good channel's counter.
    assert!(matches!(
        rec.ingest("good", b"{\"v\":2}", "application/json", None, 2_200).outcome,
        MessageOutcome::Recorded { sequence: 1, .. }
    ));
}

#[test]
fn resolution_failures_drop_the_message() {
    let mut rec = new_recorder();
    arm_quietly(&mut rec, 1_000).expect("armed");
    let cases: Vec<(&[u8], &str, &str)> = vec![
        (b"{\"a\":1}", "application/protobuf", "DroppedUnknownEncoding"),
        (b"{\"a\":1}", "application/cdr", "DroppedUnknownEncoding"),
        (b"\xff\xfe", "application/json", "DroppedUndecodable"),
        (b"{\"a\":", "application/json", "DroppedUnparsable"),
        (b"[1,2,3]", "application/json", "DroppedNotObject"),
        (b"42", "application/json", "DroppedNotObject"),
        (b"\x00", "application/cdr;tokenwithoutdot", "DroppedBadToken"),
    ];
    for (payload, encoding, expected) in cases {
        let r = rec.ingest("t", payload, encoding, None, 2_000);
        assert_eq!(outcome_name(&r.outcome), expected);
    }
    // After all those drops the topic is still unregistered, and a valid
    // message records at sequence 0.
    let r = rec.ingest("t", b"{\"a\":1}", "application/json", None, 3_000);
    assert!(matches!(
        r.outcome,
        MessageOutcome::Recorded { sequence: 0, .. }
    ));
}

#[test]
fn flush_after_interval_elapses() {
    let mut rec = new_recorder();
    arm_quietly(&mut rec, 1_000).expect("armed");
    let r = rec.ingest("t", b"{\"a\":1}", "application/json", None, 2_000);
    assert!(!r.flushed);
    // More than 30 seconds later, a recorded message triggers a flush.
    let r = rec.ingest("t", b"{\"a\":2}", "application/json", None, 40_000_000_000);
    assert!(matches!(r.outcome, MessageOutcome::Recorded { .. }));
    assert!(r.flushed);
    // And the interval restarts.
    let r = rec.ingest("t", b"{\"a\":3}", "application/json", None, 41_000_000_000);
    assert!(!r.flushed);
}

#[test]
fn shutdown_finalizes_the_open_container() {
    let mut rec = new_recorder();
    assert!(rec.shutdown().is_none());
    arm_quietly(&mut rec, 1_000).expect("armed");
    rec.ingest("t", b"{\"a\":1}", "application/json", None, 2_000);
    let fin = rec.shutdown().expect("a container was open");
    assert_eq!(fin.path, "/tmp/recordings/recorder_19700101_000000.mcap");
    let bytes = fin.bytes;
    assert_eq!(read_messages(&bytes).len(), 1);
    assert!(rec.shutdown().is_none());
}

#[test]
fn rearming_starts_a_fresh_container() {
    let mut rec = new_recorder();
    arm_quietly(&mut rec, 1_000).expect("armed");
    rec.ingest("t1", b"{\"a\":1}", "application/json", None, 2_000);
    let first = disarm(&mut rec, 3_000);
    assert_eq!(read_messages(&first).len(), 1);

    arm_quietly(&mut rec, 5_000_000_000).expect("re-armed");
    let r = rec.ingest("t1", b"{\"a\":2}", "application/json", None, 6_000_000_000);
    // A fresh catalog: the topic registers again, counting from 0.
    assert!(matches!(
        r.outcome,
        MessageOutcome::Recorded { sequence: 0, .. }
    ));
    let second = disarm(&mut rec, 7_000_000_000);
    let messages = read_messages(&second);
    assert_eq!(messages.len(), 1);
    assert_eq!(messages[0].1, 0);
}

#[test]
fn control_messages_themselves_are_recorded_while_armed() {
    let mut rec = new_recorder();
    // A structured-text control message arms the recorder and is then
    // recorded like any other message, on the control topic's own channel.
    let r = rec.ingest(CONTROL_TOPIC, b"{\"bits\": 128}", "application/json", None, 1_000);
    assert!(r.opened.is_some());
    assert!(matches!(
        r.outcome,
        MessageOutcome::Recorded { sequence: 0, .. }
    ));
    let bytes = disarm(&mut rec, 2_000);
    let messages = read_messages(&bytes);
    assert_eq!(messages.len(), 1);
    assert_eq!(messages[0].0, CONTROL_TOPIC);
    assert_eq!(messages[0].3, b"{\"bits\": 128}");
}
