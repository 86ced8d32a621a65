use poros::admin::{clone_request, Broadcaster, SubmitOutcome};
use poros::batch::{Batch, Column, ColumnData, Metadata, RecordBatchWrapper};
use poros::dispatch::DispatchStrategy;
use poros::flight_registry::{FlightRegistry, RegisterFlight};
use poros::pattern::{Pattern, PatternError, RegexPattern, RegexRequest};

fn req(name: &str, tenant: &str, flight: &str, pattern: &str) -> RegexRequest {
    RegexRequest {
        name: name.to_string(),
        tenant: tenant.to_string(),
        flight_id: flight.to_string(),
        log_group: "g".to_string(),
        pattern: vec![Pattern::RegexPattern(RegexPattern {
            override_field: None,
            field: "msg".to_string(),
            pattern_string: pattern.to_string(),
        })],
    }
}

fn registry() -> FlightRegistry {
    let mut r = FlightRegistry::new();
    r.register_flight(RegisterFlight { team_id: "t1".to_string(), flight: "orders".to_string(), fields: vec![] })
        .unwrap();
    r
}

fn record(flight: &str) -> RecordBatchWrapper {
    let msg = Column { name: "msg".to_string(), nullable: true, data: ColumnData::Utf8(vec![Some("err".to_string())]) };
    RecordBatchWrapper {
        metadata: Metadata { flight: flight.to_string(), buffer_id: 0, service_id: flight.to_string() },
        data: Batch::try_new(vec![msg], 1).unwrap(),
    }
}

#[test]
fn submit_outcomes_and_statuses() {
    let reg = registry();
    let mut b = Broadcaster::new(2, DispatchStrategy::RoundRobin).unwrap();
    let bad = b.submit_new_pattern(&reg, req("rules", "t1", "orders", "("));
    assert_eq!(bad, SubmitOutcome::Invalid(PatternError::InvalidRegex(0)));
    assert_eq!(bad.http_status(), 400);
    let short = b.submit_new_pattern(&reg, req("ab", "t1", "orders", "x"));
    assert_eq!(short, SubmitOutcome::Invalid(PatternError::NameTooShort));
    let tenant = b.submit_new_pattern(&reg, req("rules", "t2", "orders", "x"));
    assert_eq!(tenant, SubmitOutcome::TenantNotFound);
    assert_eq!(tenant.http_status(), 404);
    let flight = b.submit_new_pattern(&reg, req("rules", "t1", "payments", "x"));
    assert_eq!(flight, SubmitOutcome::FlightUnknown);
    assert_eq!(flight.http_status(), 409);
    let ok = b.submit_new_pattern(&reg, req("rules", "t1", "orders", "^err"));
    assert_eq!(ok, SubmitOutcome::Accepted);
    assert_eq!(ok.http_status(), 200);
}

#[test]
fn accepted_rules_reach_every_shard() {
    let reg = registry();
    let mut b = Broadcaster::new(3, DispatchStrategy::RoundRobin).unwrap();
    assert_eq!(b.submit_new_pattern(&reg, req("rules", "t1", "orders", "^err")), SubmitOutcome::Accepted);
    for expected_shard in [0usize, 1, 2, 0] {
        let (shard, out, errs) = b.dispatch(record("orders"));
        assert_eq!(shard, expected_shard);
        assert!(errs.is_empty());
        assert_eq!(out.data.columns().len(), 2);
        match &out.data.columns()[1].data {
            ColumnData::Boolean(v) => assert_eq!(v, &vec![Some(true)]),
            other => panic!("unexpected {:?}", other),
        }
    }
    let (_, out, _) = b.dispatch(record("other"));
    assert_eq!(out.data.columns().len(), 1);
    assert!(Broadcaster::new(0, DispatchStrategy::Sticky).is_none());
}

#[test]
fn clone_request_copies_rules() {
    let r = req("rules", "t1", "orders", "a+");
    let c = clone_request(&r);
    assert_eq!(c.name, r.name);
    assert_eq!(c.flight_id, r.flight_id);
    match &c.pattern[0] {
        Pattern::RegexPattern(p) => assert_eq!(p.pattern_string, "a+"),
        other => panic!("unexpected {:?}", other),
    }
}
