use std::time::{Duration, Instant};

use sse_connector::harness::{
    event_messages, failure_message, prepare_client, StreamEvent, TestError, TestTarget,
    DEFAULT_TIMEOUT_SECS,
};
use sse_connector::messages::{dec_string, progress_constructed};
use sse_connector::SSEConnector;

#[test]
fn connector_name_is_sse() {
    assert_eq!(SSEConnector {}.name(), "sse");
}

#[test]
fn default_timeout_is_thirty_seconds() {
    assert_eq!(DEFAULT_TIMEOUT_SECS, 30);
}

#[test]
fn decimal_rendering_is_exact() {
    assert_eq!(dec_string(0), "0");
    assert_eq!(dec_string(7), "7");
    assert_eq!(dec_string(30), "30");
    assert_eq!(dec_string(12345), "12345");
}

#[test]
fn invalid_endpoint_short_circuits() {
    let target = TestTarget { endpoint: "not a url".to_string(), headers: None };
    match prepare_client(&target) {
        Ok(_) => panic!("an unparsable URL must be rejected"),
        Err(e) => {
            assert!(matches!(e, TestError::InvalidEndpoint));
            let m = failure_message(&e);
            assert!(m.error);
            assert!(m.done);
            assert_eq!(m.message, "Endpoint URL is invalid");
        }
    }
}

#[test]
fn invalid_headers_short_circuit() {
    let target = TestTarget {
        endpoint: "http://localhost:9000/events".to_string(),
        headers: Some("badheader".to_string()),
    };
    match prepare_client(&target) {
        Ok(_) => panic!("a malformed header string must be rejected"),
        Err(e) => {
            assert!(matches!(e, TestError::InvalidHeaders));
            let m = failure_message(&e);
            assert!(m.error);
            assert!(m.done);
            assert_eq!(m.message, "Headers are invalid; should be comma-separated pairs");
        }
    }
}

#[test]
fn header_pair_rejected_by_transport_is_reported() {
    // parses under the grammar, but a header name may not hold a space
    let target = TestTarget {
        endpoint: "http://localhost:9000/events".to_string(),
        headers: Some("bad name: x".to_string()),
    };
    match prepare_client(&target) {
        Ok(_) => panic!("a header name with a space must be rejected"),
        Err(e) => match e {
            TestError::InvalidHeaderPair(k, v) => {
                assert_eq!(k, "bad name");
                assert_eq!(v, "x");
                let m = failure_message(&TestError::InvalidHeaderPair(k, v));
                assert!(m.error && m.done);
                assert_eq!(m.message, "Invalid header 'bad name: x'");
            }
            _ => panic!("expected the pair to be named"),
        },
    }
}

#[test]
fn duplicate_key_resolves_to_last_occurrence_before_attaching() {
    // the first occurrence carries a value the transport rejects; the
    // mapping keeps only the second, so the build succeeds
    let target = TestTarget {
        endpoint: "http://localhost:9000/events".to_string(),
        headers: Some("k: bad\u{1}, k: good".to_string()),
    };
    assert!(prepare_client(&target).is_ok());
}

#[test]
fn duplicate_key_whose_last_occurrence_is_rejected_fails() {
    let target = TestTarget {
        endpoint: "http://localhost:9000/events".to_string(),
        headers: Some("k: good, k: bad\u{1}".to_string()),
    };
    match prepare_client(&target) {
        Ok(_) => panic!("the winning occurrence is transport-rejected"),
        Err(e) => match e {
            TestError::InvalidHeaderPair(k, v) => {
                assert_eq!(k, "k");
                assert_eq!(v, "bad\u{1}");
            }
            _ => panic!("expected the pair to be named"),
        },
    }
}

#[test]
fn valid_target_builds_a_client() {
    let target = TestTarget {
        endpoint: "http://localhost:9000/events".to_string(),
        headers: Some("Authorization: Bearer x, X-Foo: bar".to_string()),
    };
    assert!(prepare_client(&target).is_ok());
}

#[test]
fn target_without_headers_builds_a_client() {
    let target = TestTarget { endpoint: "https://example.com/sse".to_string(), headers: None };
    assert!(prepare_client(&target).is_ok());
}

#[test]
fn immediate_success_emits_three_messages_in_order() {
    let mut run = vec![progress_constructed()];
    run.extend(event_messages(&StreamEvent::Message));
    assert_eq!(run.len(), 3);
    assert!(!run[0].error && !run[0].done);
    assert_eq!(run[0].message, "Constructed SSE client");
    assert!(!run[1].error && !run[1].done);
    assert_eq!(run[1].message, "Received message from SSE server");
    assert!(!run[2].error && run[2].done);
    assert_eq!(run[2].message, "Successfully validated SSE connection");
}

#[test]
fn server_error_is_terminal_with_detail() {
    let v = event_messages(&StreamEvent::StreamError("boom".to_string()));
    assert_eq!(v.len(), 1);
    assert!(v[0].error && v[0].done);
    assert_eq!(v[0].message, "Received error from server: boom");
}

#[test]
fn server_close_is_terminal() {
    let v = event_messages(&StreamEvent::Closed);
    assert_eq!(v.len(), 1);
    assert!(v[0].error && v[0].done);
    assert_eq!(v[0].message, "Server closed connection");
}

#[test]
fn timeout_is_terminal_and_names_the_duration() {
    let v = event_messages(&StreamEvent::TimedOut(30));
    assert_eq!(v.len(), 1);
    assert!(v[0].error && v[0].done);
    assert_eq!(v[0].message, "Did not receive any messages after 30 seconds");
}

#[test]
fn every_outcome_ends_with_exactly_one_terminal_message() {
    let outcomes = vec![
        StreamEvent::Message,
        StreamEvent::StreamError("detail".to_string()),
        StreamEvent::Closed,
        StreamEvent::TimedOut(DEFAULT_TIMEOUT_SECS),
    ];
    for ev in outcomes {
        let mut run = vec![progress_constructed()];
        run.extend(event_messages(&ev));
        let terminal: Vec<_> = run.iter().filter(|m| m.done).collect();
        assert_eq!(terminal.len(), 1);
        assert!(run.last().unwrap().done);
        for m in &run[..run.len() - 1] {
            assert!(!m.done && !m.error);
        }
    }
}

#[test]
fn silent_stream_times_out_no_earlier_than_the_configured_bound() {
    let rt = tokio::runtime::Builder::new_current_thread()
        .enable_time()
        .build()
        .unwrap();
    let timeout_secs: u64 = 1;
    let started = Instant::now();
    let event = rt.block_on(async {
        let mut stream = futures::stream::pending::<Result<u32, String>>();
        match tokio::time::timeout(
            Duration::from_secs(timeout_secs),
            futures::StreamExt::next(&mut stream),
        )
        .await
        {
            Ok(_) => panic!("a pending stream must not yield"),
            Err(_) => StreamEvent::TimedOut(timeout_secs),
        }
    });
    let elapsed = started.elapsed();
    assert!(elapsed >= Duration::from_secs(timeout_secs));
    assert!(elapsed < Duration::from_secs(timeout_secs) + Duration::from_secs(5));
    let v = event_messages(&event);
    assert_eq!(v.len(), 1);
    assert!(v[0].error && v[0].done);
    assert_eq!(v[0].message, "Did not receive any messages after 1 seconds");
}

#[test]
fn stream_that_yields_at_once_reports_success() {
    let rt = tokio::runtime::Builder::new_current_thread()
        .enable_time()
        .build()
        .unwrap();
    let event = rt.block_on(async {
        let mut stream = futures::stream::iter(vec![Ok::<u32, String>(1)]);
        match tokio::time::timeout(
            Duration::from_millis(1),
            futures::StreamExt::next(&mut stream),
        )
        .await
        {
            Ok(Some(Ok(_))) => StreamEvent::Message,
            _ => panic!("the stream should yield its value at once"),
        }
    });
    let v = event_messages(&event);
    assert_eq!(v.len(), 2);
    assert!(!v[0].error && !v[0].done);
    assert!(!v[1].error && v[1].done);
}
