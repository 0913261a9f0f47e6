use gateway::errors::{ErrorScope, GatewayError, GatewayErrorCode};
use gateway::events::{BoundedEventQueue, FanoutEventSink, GatewayEvent};
use gateway::stage_ledger::{
    merge_request_attempts, AttemptStageLedger, EventEmission, LedgerAttempt, ListedAttempt,
    ManagementRequestAttemptStage, ManagementRuntimeError, MAX_RECORDS, P12_MAX_ROUTE_ATTEMPTS,
    P12_MAX_TOTAL_BINDING_CONCURRENCY,
};

fn id(text: &str) -> String {
    text.to_owned()
}

#[test]
fn p12_attempt_stage_projection_is_terminal_and_value_free() {
    let mut attempts = AttemptStageLedger::new();
    let request_id = id("p12-stage-request");
    attempts.record_stage(&request_id, ManagementRequestAttemptStage::Decoder);
    let attempt_id = id("p12-stage-request:1");

    assert_eq!(attempts.record_terminal(&request_id, &attempt_id, false), EventEmission::Enqueued);
    assert_eq!(
        attempts.stage_view(&request_id),
        Some(ManagementRequestAttemptStage::Decoder)
    );
    // A duplicate terminal for one request poisons the ledger; the stage is withheld.
    assert_eq!(
        attempts.record_terminal(&request_id, &attempt_id, false),
        EventEmission::RequiredQueueFull
    );
    assert_eq!(attempts.stage_view(&request_id), None);
}

#[test]
fn p12_attempt_stage_projection_records_every_attempt_of_a_retried_request() {
    let mut attempts = AttemptStageLedger::new();
    let retried = id("p12-stage-retry");
    attempts.record_stage(&retried, ManagementRequestAttemptStage::HttpTransport);
    assert_eq!(
        attempts.record_terminal(&retried, &id("p12-stage-retry:1"), false),
        EventEmission::Enqueued
    );
    assert_eq!(
        attempts.record_terminal(&retried, &id("p12-stage-retry:2"), true),
        EventEmission::Enqueued
    );
    let rows = attempts.list_request_attempts(&retried).unwrap();
    assert_eq!(rows.len(), 2);
    assert_eq!(rows[0].outcome, "failed");
    assert!(rows[0].stage.is_none());
    assert_eq!(rows[1].outcome, "succeeded");
    assert_eq!(rows[1].stage, Some(ManagementRequestAttemptStage::HttpTransport));

    let saturated = id("p12-stage-retry-saturated");
    attempts.record_stage(&saturated, ManagementRequestAttemptStage::HttpTransport);
    for attempt_number in 1..=P12_MAX_ROUTE_ATTEMPTS {
        assert_eq!(
            attempts.record_terminal(&saturated, &format!("saturated:{attempt_number}"), true),
            EventEmission::Enqueued
        );
    }
    assert_eq!(
        attempts.record_terminal(&saturated, &id("saturated:6"), true),
        EventEmission::RequiredQueueFull
    );
    assert_eq!(
        attempts.list_request_attempts(&saturated),
        Err(ManagementRuntimeError::Unavailable)
    );
}

#[test]
fn p12_attempt_stage_contention_withholds_the_stage_projection() {
    // A contended lock is reported to the ledger as a loss, which latches it unavailable.
    let mut attempts = AttemptStageLedger::new();
    let request_id = id("p12-stage-contention");
    attempts.mark_unavailable();
    attempts.record_stage(&request_id, ManagementRequestAttemptStage::RequestConversion);

    assert_eq!(attempts.stage_view(&request_id), None);
    assert_eq!(attempts.recorded_stage(&request_id), None);
}

#[test]
fn p12_attempt_stage_capacity_withholds_new_stage_projections() {
    let mut attempts = AttemptStageLedger::new();
    for index in 0..MAX_RECORDS {
        attempts.record_stage(
            &format!("p12-stage-capacity-{index}"),
            ManagementRequestAttemptStage::HttpTransport,
        );
    }
    let overflow = id("p12-stage-capacity-overflow");
    attempts.record_stage(&overflow, ManagementRequestAttemptStage::HttpTransport);

    assert_eq!(attempts.stage_view(&overflow), None);
    // The overflow evicted the oldest request and was retained as the newest.
    assert_eq!(attempts.recorded_stage(&id("p12-stage-capacity-0")), None);
    assert_eq!(
        attempts.recorded_stage(&overflow),
        Some(ManagementRequestAttemptStage::HttpTransport)
    );
    assert_eq!(
        attempts.recorded_stage(&id("p12-stage-capacity-1")),
        Some(ManagementRequestAttemptStage::HttpTransport)
    );
}

#[test]
fn stage_ledger_capacity_tracks_the_admitted_concurrency_bound() {
    assert_eq!(MAX_RECORDS, 2 * usize::try_from(P12_MAX_TOTAL_BINDING_CONCURRENCY).unwrap());
}

#[test]
fn p12_fanout_sink_overflow_keeps_required_loss_explicit_and_stage_projection_intact() {
    let mut sink = FanoutEventSink::new(AttemptStageLedger::new(), BoundedEventQueue::new(1, 1));
    let terminal_attempt = |request_id: &str| GatewayEvent::Attempt {
        request_id: request_id.to_owned(),
        attempt_id: format!("{request_id}:1"),
        succeeded: true,
    };

    let first = id("p12-fanout-request");
    sink.attempts
        .record_stage(&first, ManagementRequestAttemptStage::HttpStatus);
    assert_eq!(sink.try_emit(terminal_attempt(&first)), EventEmission::Enqueued);
    let second = id("p12-fanout-overflow");
    sink.attempts
        .record_stage(&second, ManagementRequestAttemptStage::HttpStatus);
    assert_eq!(
        sink.try_emit(terminal_attempt(&second)),
        EventEmission::RequiredQueueFull
    );
    assert_eq!(sink.queue.metrics().required_queue_full, 1);
    assert_eq!(
        sink.attempts.stage_view(&second),
        Some(ManagementRequestAttemptStage::HttpStatus)
    );

    let diagnostic = || GatewayEvent::Diagnostic {
        error: GatewayError {
            code: GatewayErrorCode::InternalError,
            scope: ErrorScope::Internal,
        },
    };
    assert_eq!(sink.try_emit(diagnostic()), EventEmission::Enqueued);
    assert_eq!(sink.try_emit(diagnostic()), EventEmission::DiagnosticDropped);
    assert_eq!(sink.queue.metrics().diagnostics_dropped, 1);
    assert!(sink.queue.take().is_some());
}

fn durable(attempt_id: &str, outcome: &'static str) -> ListedAttempt {
    ListedAttempt {
        attempt_id: attempt_id.to_owned(),
        outcome,
        endpoint_id: Some("endpoint".to_owned()),
        credential_id: Some("credential".to_owned()),
        stage: None,
    }
}

#[test]
fn p12_management_listing_survives_stage_ledger_exhaustion() {
    let mut attempt_stages = AttemptStageLedger::new();
    for index in 0..=MAX_RECORDS {
        attempt_stages.record_stage(
            &format!("p12-ledger-filler-{index}"),
            ManagementRequestAttemptStage::HttpTransport,
        );
    }
    let request_id = id("p12-ledger-request");
    let attempts = merge_request_attempts(
        vec![durable("p12-ledger-request:1", "failed")],
        attempt_stages.list_request_attempts(&request_id),
    )
    .unwrap();
    assert_eq!(attempts.len(), 1);
    assert_eq!(attempts[0].outcome, "failed");
    assert_eq!(attempts[0].stage, None);
}

#[test]
fn the_listing_pairs_a_stage_only_onto_a_matching_single_attempt_and_fails_closed_on_loss() {
    let ledger = vec![LedgerAttempt {
        attempt_id: "r:1".to_owned(),
        outcome: "succeeded",
        stage: Some(ManagementRequestAttemptStage::Decoder),
    }];
    let paired = merge_request_attempts(vec![durable("r:1", "succeeded")], Ok(ledger)).unwrap();
    assert_eq!(paired[0].stage, Some(ManagementRequestAttemptStage::Decoder));
    assert_eq!(paired[0].endpoint_id.as_deref(), Some("endpoint"));

    let mismatched = vec![LedgerAttempt {
        attempt_id: "r:9".to_owned(),
        outcome: "succeeded",
        stage: Some(ManagementRequestAttemptStage::Decoder),
    }];
    let unpaired = merge_request_attempts(vec![durable("r:1", "succeeded")], Ok(mismatched)).unwrap();
    assert_eq!(unpaired[0].stage, None);

    let lost = vec![
        LedgerAttempt { attempt_id: "r:1".to_owned(), outcome: "failed", stage: None },
        LedgerAttempt { attempt_id: "r:2".to_owned(), outcome: "succeeded", stage: None },
    ];
    assert_eq!(
        merge_request_attempts(vec![durable("r:1", "failed")], Ok(lost)),
        Err(ManagementRuntimeError::Unavailable)
    );
    assert_eq!(
        merge_request_attempts(vec![], Err(ManagementRuntimeError::Unavailable)).unwrap(),
        vec![]
    );
}

#[test]
fn unknown_requests_list_nothing_and_staged_ones_without_terminals_are_unavailable() {
    let mut attempts = AttemptStageLedger::new();
    assert_eq!(attempts.list_request_attempts(&id("missing")).unwrap(), vec![]);
    attempts.record_stage(&id("staged"), ManagementRequestAttemptStage::ContentType);
    attempts.record_stage(&id("staged"), ManagementRequestAttemptStage::BodyRead);
    assert_eq!(
        attempts.recorded_stage(&id("staged")),
        Some(ManagementRequestAttemptStage::BodyRead)
    );
    assert_eq!(
        attempts.list_request_attempts(&id("staged")),
        Err(ManagementRuntimeError::Unavailable)
    );
    // A terminal for a request the ledger does not hold is dropped without latching it.
    assert_eq!(
        attempts.record_terminal(&id("never-staged"), &id("x:1"), true),
        EventEmission::DiagnosticDropped
    );
    assert!(!attempts.is_unavailable());
    assert_eq!(attempts.list_request_attempts(&id("missing")).unwrap(), vec![]);
}

#[test]
fn the_terminal_of_an_evicted_request_never_latches_the_ledger() {
    let mut attempts = AttemptStageLedger::new();
    let first = id("p12-evicted-request");
    attempts.record_stage(&first, ManagementRequestAttemptStage::HttpTransport);
    for index in 0..MAX_RECORDS {
        attempts.record_stage(
            &format!("p12-evicting-{index}"),
            ManagementRequestAttemptStage::HttpTransport,
        );
    }
    assert_eq!(attempts.recorded_stage(&first), None);
    assert_eq!(
        attempts.record_terminal(&first, &id("p12-evicted-request:1"), true),
        EventEmission::DiagnosticDropped
    );
    assert!(!attempts.is_unavailable());
    let later = id("p12-later-request");
    attempts.record_stage(&later, ManagementRequestAttemptStage::Decoder);
    assert_eq!(
        attempts.record_terminal(&later, &id("p12-later-request:1"), true),
        EventEmission::Enqueued
    );
    let rows = attempts.list_request_attempts(&later).unwrap();
    assert_eq!(rows.len(), 1);
    assert_eq!(rows[0].stage, Some(ManagementRequestAttemptStage::Decoder));
}
