use poros::batch::{Batch, BatchError, Column, ColumnData, Metadata, RecordBatchWrapper};
use poros::config::{DatabaseType, IngestSettings, ServerType, DEFAULT_SEGMENT_CAP};
use poros::dispatch::{flight_hash, DispatchStrategy, Dispatcher};
use poros::enrich::{decimal, extract_column, match_mask, unique_column_name, ParsingActor, RuleError, RuleErrorKind};
use poros::flight_registry::{fetch_flights, CheckFlight, Fields, FlightRegistry, ListFlights, RegisterFlight, RegistryError};
use poros::iceberg::{FlushInstruction, IcebergWriter};
use poros::pattern::{
    is_valid_regex, validate_regex_pattern, validate_request, GrokPattern, Pattern, PatternError, RegexPattern,
    RegexRequest,
};
use poros::receiver::{FlightReceiver, FrameMessage, FrameShape, ProtocolError, ReceiverAction, StatusCode};

fn s(x: &str) -> String {
    x.to_string()
}

fn regex_rule(field: &str, pattern: &str, override_field: Option<&str>) -> Pattern {
    Pattern::RegexPattern(RegexPattern {
        override_field: override_field.map(s),
        field: s(field),
        pattern_string: s(pattern),
    })
}

fn request(flight: &str, rules: Vec<Pattern>) -> RegexRequest {
    RegexRequest { name: s("rule-set"), tenant: s("t1"), flight_id: s(flight), log_group: s("app"), pattern: rules }
}

fn orders_batch() -> Batch {
    let id = Column { name: s("id"), nullable: false, data: ColumnData::Int32(vec![Some(1), Some(2)]) };
    let msg = Column { name: s("msg"), nullable: true, data: ColumnData::Utf8(vec![Some(s("ok")), Some(s("err"))]) };
    Batch::try_new(vec![id, msg], 2).unwrap()
}

fn wrap(flight: &str, data: Batch) -> RecordBatchWrapper {
    RecordBatchWrapper { metadata: Metadata { flight: s(flight), buffer_id: 0, service_id: s(flight) }, data }
}

fn fields(list: &[(&str, &str)]) -> Vec<Fields> {
    list.iter().map(|(c, t)| Fields { column_name: s(c), data_type: s(t) }).collect()
}

#[test]
fn round_robin_gives_each_shard_k_batches() {
    let mut d = Dispatcher::new(3, DispatchStrategy::RoundRobin).unwrap();
    let flights: Vec<String> = (0..12).map(|i| format!("f{}", i % 5)).collect();
    let picks = d.assign(&flights);
    for shard in 0..3 {
        assert_eq!(picks.iter().filter(|&&p| p == shard).count(), 4);
    }
    assert_eq!(&picks[..4], &[0, 1, 2, 0]);
}

#[test]
fn sticky_keeps_a_flight_on_one_shard() {
    let mut d = Dispatcher::new(4, DispatchStrategy::Sticky).unwrap();
    let flights = vec![s("a"), s("b"), s("a"), s("c"), s("b"), s("a")];
    let picks = d.assign(&flights);
    assert_eq!(picks[0], picks[2]);
    assert_eq!(picks[0], picks[5]);
    assert_eq!(picks[1], picks[4]);
    assert_eq!(picks[0], (flight_hash("a") % 4) as usize);
    assert!(Dispatcher::new(0, DispatchStrategy::RoundRobin).is_none());
}

#[test]
fn fnv1a_known_values() {
    assert_eq!(flight_hash(""), 0xcbf29ce484222325);
    assert_eq!(flight_hash("a"), 0xaf63dc4c8601ec8c);
}

#[test]
fn register_flight_is_idempotent_and_conflicts_on_change() {
    let mut reg = FlightRegistry::new();
    let f = fields(&[("id", "Int32"), ("msg", "Utf8")]);
    let r1 = reg.register_flight(RegisterFlight { team_id: s("t1"), flight: s("orders"), fields: f.clone() });
    assert_eq!(r1, Ok(()));
    let r2 = reg.register_flight(RegisterFlight { team_id: s("t1"), flight: s("orders"), fields: f.clone() });
    assert_eq!(r2, Ok(()));
    let other = fields(&[("id", "Int64")]);
    let r3 = reg.register_flight(RegisterFlight { team_id: s("t1"), flight: s("orders"), fields: other });
    assert_eq!(r3, Err(RegistryError::Conflict));
    let listed = reg.list_flights(&ListFlights { team_id: s("t1") }).unwrap();
    assert_eq!(listed, vec![s("orders")]);
}

#[test]
fn check_and_list_flights() {
    let mut reg = FlightRegistry::new();
    assert_eq!(reg.check_flight(&CheckFlight { team_id: s("t1"), flight: s("x") }), Err(RegistryError::NotFound));
    reg.register_flight(RegisterFlight { team_id: s("t1"), flight: s("a"), fields: vec![] }).unwrap();
    reg.register_flight(RegisterFlight { team_id: s("t2"), flight: s("b"), fields: vec![] }).unwrap();
    reg.register_flight(RegisterFlight { team_id: s("t1"), flight: s("c"), fields: vec![] }).unwrap();
    assert_eq!(reg.check_flight(&CheckFlight { team_id: s("t1"), flight: s("a") }), Ok(true));
    assert_eq!(reg.check_flight(&CheckFlight { team_id: s("t1"), flight: s("b") }), Ok(false));
    let mut l = reg.list_flights(&ListFlights { team_id: s("t1") }).unwrap();
    l.sort();
    assert_eq!(l, vec![s("a"), s("c")]);
    assert!(matches!(reg.list_flights(&ListFlights { team_id: s("t9") }), Err(RegistryError::NotFound)));
}

#[test]
fn invalid_regex_rejects_whole_update() {
    let mut shard = ParsingActor::new();
    shard.update_patterns(request("orders", vec![regex_rule("msg", "^err", None)])).unwrap();
    let bad = request("orders", vec![regex_rule("msg", "^ok", None), regex_rule("msg", "(", None)]);
    assert_eq!(shard.update_patterns(bad), Err(PatternError::InvalidRegex(1)));
    // the old single rule still applies
    let (out, errs) = shard.process(wrap("orders", orders_batch()));
    assert!(errs.is_empty());
    assert_eq!(out.data.columns().len(), 3);
    assert_eq!(out.data.columns()[2].name, "msg_matched");
}

#[test]
fn validation_errors() {
    assert!(is_valid_regex(&RegexPattern { override_field: None, field: s("m"), pattern_string: s(".*ERROR.*") }));
    assert!(!is_valid_regex(&RegexPattern { override_field: None, field: s("m"), pattern_string: s("[a-") }));
    let grok = Pattern::GrokPattern(GrokPattern { override_field: None, field: s("m"), pattern_string: s("%{WORD}") });
    assert_eq!(validate_regex_pattern(&vec![regex_rule("m", "a", None), grok]), Err(PatternError::UnsupportedPatternType(1)));
    let mut req = request("f", vec![]);
    req.name = s("ab");
    assert_eq!(validate_request(&req), Err(PatternError::NameTooShort));
    req.name = s("abc");
    assert_eq!(validate_request(&req), Ok(()));
}

#[test]
fn pattern_enrichment_with_override_field() {
    let mut shard = ParsingActor::new();
    shard.update_patterns(request("flights.orders", vec![regex_rule("msg", "^err", Some("is_err"))])).unwrap();
    let (out, errs) = shard.process(wrap("flights.orders", orders_batch()));
    assert!(errs.is_empty());
    let cols = out.data.columns();
    assert_eq!(cols.len(), 3);
    assert_eq!(cols[2].name, "is_err");
    match &cols[2].data {
        ColumnData::Utf8(v) => assert_eq!(v, &vec![None, Some(s("err"))]),
        other => panic!("unexpected column {:?}", other),
    }
    assert_eq!(out.data.num_rows(), 2);
}

#[test]
fn pattern_enrichment_mask_and_names() {
    let mut shard = ParsingActor::new();
    let rules = vec![
        regex_rule("msg", "^err", None),
        regex_rule("msg", "o", None),
        regex_rule("missing", "x", None),
        regex_rule("id", "1", None),
        regex_rule("msg", "e(r+)", Some("id")),
    ];
    shard.update_patterns(request("f", rules)).unwrap();
    let (out, errs) = shard.process(wrap("f", orders_batch()));
    assert_eq!(
        errs,
        vec![
            RuleError { rule_index: 2, kind: RuleErrorKind::MissingField },
            RuleError { rule_index: 3, kind: RuleErrorKind::NotString },
        ]
    );
    let cols = out.data.columns();
    assert_eq!(cols.len(), 4);
    assert_eq!(cols[2].name, "msg_matched");
    assert_eq!(cols[3].name, "msg_matched_2");
    match &cols[2].data {
        ColumnData::Boolean(v) => assert_eq!(v, &vec![Some(false), Some(true)]),
        other => panic!("unexpected column {:?}", other),
    }
    match &cols[0].data {
        ColumnData::Utf8(v) => assert_eq!(v, &vec![None, Some(s("rr"))]),
        other => panic!("unexpected column {:?}", other),
    }
}

#[test]
fn flight_without_rules_passes_unchanged() {
    let shard = ParsingActor::new();
    let (out, errs) = shard.process(wrap("other", orders_batch()));
    assert!(errs.is_empty());
    assert_eq!(out.data.columns().len(), 2);
}

#[test]
fn empty_batch_through_rules() {
    let mut shard = ParsingActor::new();
    shard.update_patterns(request("f", vec![regex_rule("msg", "x", None)])).unwrap();
    let msg = Column { name: s("msg"), nullable: true, data: ColumnData::Utf8(vec![]) };
    let b = Batch::try_new(vec![msg], 0).unwrap();
    let (out, errs) = shard.process(wrap("f", b));
    assert!(errs.is_empty());
    assert_eq!(out.data.num_rows(), 0);
    assert_eq!(out.data.columns().len(), 2);
}

#[test]
fn batch_rejects_ragged_columns() {
    let a = Column { name: s("a"), nullable: true, data: ColumnData::Int64(vec![Some(1)]) };
    let b = Column { name: s("b"), nullable: true, data: ColumnData::Boolean(vec![]) };
    assert!(matches!(Batch::try_new(vec![a, b], 1), Err(BatchError::RowCountMismatch)));
}

#[test]
fn masks_keep_nulls_and_extraction_takes_first_group() {
    let texts = vec![Some(s("user=alice")), None, Some(s("nothing"))];
    assert_eq!(match_mask("user=", &texts), vec![Some(true), None, Some(false)]);
    assert_eq!(extract_column("user=(\\w+)", &texts), vec![Some(s("alice")), None, None]);
    assert_eq!(extract_column("user=", &texts), vec![Some(s("user=")), None, None]);
}

#[test]
fn decimal_and_unique_names() {
    assert_eq!(decimal(0), "0");
    assert_eq!(decimal(1234), "1234");
    let cols = vec![
        Column { name: s("x"), nullable: true, data: ColumnData::Int32(vec![]) },
        Column { name: s("x_2"), nullable: true, data: ColumnData::Int32(vec![]) },
    ];
    assert_eq!(unique_column_name(&cols, &s("y")), Some(s("y")));
    assert_eq!(unique_column_name(&cols, &s("x")), Some(s("x_3")));
}

fn frame(path: Option<Vec<&str>>, message: FrameMessage) -> FrameShape {
    FrameShape { descriptor_path: path.map(|p| p.into_iter().map(s).collect()), message }
}

#[test]
fn happy_path_single_batch() {
    let mut rx = FlightReceiver::new();
    let a = rx.on_frame(&frame(Some(vec!["flights.orders"]), FrameMessage::NoHeader)).unwrap();
    assert!(matches!(a, ReceiverAction::Skip));
    match rx.on_frame(&frame(None, FrameMessage::Schema)).unwrap() {
        ReceiverAction::RegisterSchema { flight } => assert_eq!(flight, "flights.orders"),
        other => panic!("unexpected {:?}", other),
    }
    match rx.on_frame(&frame(None, FrameMessage::RecordBatch)).unwrap() {
        ReceiverAction::EmitBatch { metadata } => {
            assert_eq!(metadata.flight, "flights.orders");
            assert_eq!(metadata.service_id, "flights.orders");
            assert_eq!(metadata.buffer_id, 0);
        }
        other => panic!("unexpected {:?}", other),
    }
    match rx.on_frame(&frame(None, FrameMessage::RecordBatch)).unwrap() {
        ReceiverAction::EmitBatch { metadata } => assert_eq!(metadata.buffer_id, 1),
        other => panic!("unexpected {:?}", other),
    }
}

#[test]
fn data_frame_first_is_failed_precondition() {
    let mut rx = FlightReceiver::new();
    let e = rx.on_frame(&frame(None, FrameMessage::RecordBatch)).unwrap_err();
    assert_eq!(e, ProtocolError::DataBeforeSchema);
    assert_eq!(e.status_code(), StatusCode::FailedPrecondition);
    let mut rx = FlightReceiver::new();
    assert_eq!(rx.on_frame(&frame(Some(vec![]), FrameMessage::NoHeader)).unwrap_err(), ProtocolError::EmptyDescriptorPath);
    let mut rx = FlightReceiver::new();
    rx.on_frame(&frame(Some(vec!["f"]), FrameMessage::NoHeader)).unwrap();
    assert_eq!(rx.on_frame(&frame(None, FrameMessage::RecordBatch)).unwrap_err(), ProtocolError::DataBeforeSchema);
}

#[test]
fn descriptor_and_schema_in_one_frame() {
    let mut rx = FlightReceiver::new();
    match rx.on_frame(&frame(Some(vec!["f", "ignored"]), FrameMessage::Schema)).unwrap() {
        ReceiverAction::RegisterSchema { flight } => assert_eq!(flight, "f"),
        other => panic!("unexpected {:?}", other),
    }
}

#[test]
fn settings_and_promoter() {
    assert_eq!(DatabaseType::Postgres.as_str(), "postgres");
    assert_eq!(DatabaseType::Sqlite.as_str(), "sqlite");
    let st = IngestSettings::default();
    assert_eq!(st.segment_cap, DEFAULT_SEGMENT_CAP);
    assert_eq!(DEFAULT_SEGMENT_CAP, 256 * 1024 * 1024);
    assert_ne!(ServerType::ALL, ServerType::QUERY);
    let mut w = IcebergWriter::default();
    assert_eq!(w.table(), "log");
    assert_eq!(w.partition_fields(), &vec![s("service"), s("log_name")]);
    w.accept_flush(FlushInstruction { segment_path: s("/tmp/wal-1-a.log") });
    assert_eq!(w.accepted(), &vec![s("/tmp/wal-1-a.log")]);
}

#[test]
fn fetch_flights_lists_or_not_found() {
    let mut reg = FlightRegistry::new();
    assert!(matches!(fetch_flights(&reg, &s("t1")), Err(RegistryError::NotFound)));
    reg.register_flight(RegisterFlight { team_id: s("t1"), flight: s("batch_1"), fields: vec![] }).unwrap();
    let list = fetch_flights(&reg, &s("t1")).unwrap();
    assert_eq!(list.flights, vec![s("batch_1")]);
}

#[test]
fn empty_record_batch_is_emitted_and_dictionaries_are_not() {
    let mut rx = FlightReceiver::new();
    rx.on_frame(&frame(Some(vec!["f"]), FrameMessage::NoHeader)).unwrap();
    rx.on_frame(&frame(None, FrameMessage::Schema)).unwrap();
    assert!(matches!(rx.on_frame(&frame(None, FrameMessage::DictionaryBatch)).unwrap(), ReceiverAction::AddDictionary));
    // a batch of no rows: record-batch header, empty body
    match rx.on_frame(&frame(None, FrameMessage::RecordBatch)).unwrap() {
        ReceiverAction::EmitBatch { metadata } => assert_eq!(metadata.buffer_id, 0),
        other => panic!("unexpected {:?}", other),
    }
    match rx.on_frame(&frame(None, FrameMessage::Schema)).unwrap() {
        ReceiverAction::CheckSchema { flight } => assert_eq!(flight, "f"),
        other => panic!("unexpected {:?}", other),
    }
    assert_eq!(rx.on_frame(&frame(None, FrameMessage::Unreadable)).unwrap_err(), ProtocolError::UnreadableHeader);
    let mut rx = FlightReceiver::new();
    assert_eq!(
        rx.on_frame(&frame(None, FrameMessage::DictionaryBatch)).unwrap_err(),
        ProtocolError::DataBeforeSchema
    );
}

#[test]
fn first_match_wins_per_row_for_one_override_field() {
    let mut shard = ParsingActor::new();
    let rules = vec![regex_rule("msg", "err-(\\d)", Some("code")), regex_rule("msg", "-(\\d)", Some("code"))];
    shard.update_patterns(request("f", rules)).unwrap();
    let msg = Column {
        name: s("msg"),
        nullable: true,
        data: ColumnData::Utf8(vec![Some(s("err-1")), Some(s("warn-2")), Some(s("x")), None]),
    };
    let (out, errs) = shard.process(wrap("f", Batch::try_new(vec![msg], 4).unwrap()));
    assert!(errs.is_empty());
    let cols = out.data.columns();
    assert_eq!(cols.len(), 2);
    assert_eq!(cols[1].name, "code");
    match &cols[1].data {
        ColumnData::Utf8(v) => assert_eq!(v, &vec![Some(s("1")), Some(s("2")), None, None]),
        other => panic!("unexpected column {:?}", other),
    }
}
