use sidecar_bridge::classify::read_frame;
use sidecar_bridge::classify::read_frames;
use sidecar_bridge::classify::ClassifiedMessage;
use sidecar_bridge::dispatch::Delivery;
use sidecar_bridge::dispatch::Dispatcher;
use sidecar_bridge::dispatch::Outcome;
use sidecar_bridge::encode::encode_request;
use sidecar_bridge::encode::status_json;
use sidecar_bridge::gateway::Gateway;
use sidecar_bridge::gateway::SendError;
use sidecar_bridge::supervisor::StopAction;
use sidecar_bridge::supervisor::Supervisor;
use sidecar_bridge::supervisor::WorkerState;
use sidecar_bridge::wire::decode_line;

fn running_supervisor() -> Supervisor {
    let mut sup = Supervisor::new();
    sup.mark_starting();
    sup.mark_running();
    sup
}

#[test]
fn malformed_line_does_not_halt_sequence() {
    let lines = vec![
        "not-json".to_string(),
        "{\"event\":\"ping\",\"data\":1}".to_string(),
    ];
    let msgs = read_frames(&lines);
    assert_eq!(msgs.len(), 1);
    assert_eq!(
        msgs[0],
        ClassifiedMessage::Event {
            name: "ping".to_string(),
            data: Some("1".to_string()),
        }
    );
}

#[test]
fn event_takes_precedence_over_result() {
    let m = read_frame("{\"id\":3,\"event\":\"x\",\"data\":{},\"result\":\"ignored\"}");
    assert_eq!(
        m,
        Some(ClassifiedMessage::Event {
            name: "x".to_string(),
            data: Some("{}".to_string()),
        })
    );
}

#[test]
fn result_takes_precedence_over_error() {
    let m = read_frame("{\"id\":1,\"result\":5,\"error\":\"no\"}");
    assert_eq!(
        m,
        Some(ClassifiedMessage::Reply {
            id: Some(1),
            value: "5".to_string(),
        })
    );
}

#[test]
fn error_alone_classifies_as_failure() {
    let m = read_frame("{\"id\":2,\"error\":\"boom\"}");
    assert_eq!(
        m,
        Some(ClassifiedMessage::Failure {
            id: Some(2),
            message: "boom".to_string(),
        })
    );
}

#[test]
fn contentless_record_is_dropped() {
    assert_eq!(read_frame("{\"id\":9}"), None);
    assert_eq!(read_frame("{}"), None);
    assert_eq!(read_frame(""), None);
}

#[test]
fn empty_batch_yields_no_messages() {
    assert_eq!(read_frames(&Vec::new()), Vec::new());
}

#[test]
fn empty_command_and_event_name_are_carried() {
    assert_eq!(encode_request(5, "", None), "{\"id\":5,\"command\":\"\"}");
    let m = read_frame("{\"event\":\"\"}");
    assert_eq!(
        m,
        Some(ClassifiedMessage::Event {
            name: String::new(),
            data: None,
        })
    );
}

#[test]
fn decoder_reads_fields_not_text() {
    // The payload is re-rendered compactly, so the decoder demonstrably
    // parses the line rather than slicing its text.
    let w = decode_line("{ \"event\" : \"e\" , \"data\" : { \"a\" : 1 } }").unwrap();
    assert_eq!(w.event, Some("e".to_string()));
    assert_eq!(w.data, Some("{\"a\":1}".to_string()));
    assert_eq!(w.id, None);
    // A non-string event field is not an event name.
    let w2 = decode_line("{\"event\":5}").unwrap();
    assert_eq!(w2.event, None);
}

#[test]
fn correlation_is_order_independent() {
    let sup = running_supervisor();
    let mut disp = Dispatcher::new();
    let mut gw = Gateway::new();
    let (id1, _) = gw.send(&mut disp, &sup, "first", None).unwrap();
    let (id2, _) = gw.send(&mut disp, &sup, "second", None).unwrap();
    assert_eq!((id1, id2), (1, 2));
    let out2 = disp.publish(ClassifiedMessage::Reply {
        id: Some(2),
        value: "two".to_string(),
    });
    assert_eq!(
        out2,
        vec![Delivery::Complete {
            id: 2,
            outcome: Outcome::Fulfilled {
                value: "two".to_string()
            },
        }]
    );
    let out1 = disp.publish(ClassifiedMessage::Reply {
        id: Some(1),
        value: "one".to_string(),
    });
    assert_eq!(
        out1,
        vec![Delivery::Complete {
            id: 1,
            outcome: Outcome::Fulfilled {
                value: "one".to_string()
            },
        }]
    );
    assert!(!disp.is_pending(1));
    assert!(!disp.is_pending(2));
}

#[test]
fn event_fan_out_in_registration_order_with_snapshot() {
    let mut disp = Dispatcher::new();
    let t1 = disp.subscribe("peerFound".to_string());
    let t2 = disp.subscribe("peerFound".to_string());
    let out = disp.publish(ClassifiedMessage::Event {
        name: "peerFound".to_string(),
        data: Some("{\"host\":\"a\"}".to_string()),
    });
    assert_eq!(
        out,
        vec![
            Delivery::Notify {
                token: t1,
                name: "peerFound".to_string(),
                data: Some("{\"host\":\"a\"}".to_string()),
            },
            Delivery::Notify {
                token: t2,
                name: "peerFound".to_string(),
                data: Some("{\"host\":\"a\"}".to_string()),
            },
        ]
    );
    // A subscriber registered after delivery saw nothing of that event,
    // but receives the next one.
    let t3 = disp.subscribe("peerFound".to_string());
    assert!(!out.iter().any(|d| matches!(d, Delivery::Notify { token, .. } if *token == t3)));
    let out2 = disp.publish(ClassifiedMessage::Event {
        name: "peerFound".to_string(),
        data: None,
    });
    assert_eq!(out2.len(), 3);
}

#[test]
fn unsubscribed_consumer_is_not_notified() {
    let mut disp = Dispatcher::new();
    let t1 = disp.subscribe("tick".to_string());
    let t2 = disp.subscribe("tick".to_string());
    disp.unsubscribe(t1);
    let out = disp.publish(ClassifiedMessage::Event {
        name: "tick".to_string(),
        data: None,
    });
    assert_eq!(
        out,
        vec![Delivery::Notify {
            token: t2,
            name: "tick".to_string(),
            data: None,
        }]
    );
}

#[test]
fn unknown_correlation_is_dropped() {
    let mut disp = Dispatcher::new();
    let out = disp.publish(ClassifiedMessage::Reply {
        id: Some(99),
        value: "late".to_string(),
    });
    assert_eq!(out, vec![Delivery::Dropped { correlation: Some(99) }]);
    let out2 = disp.publish(ClassifiedMessage::Failure {
        id: None,
        message: "anonymous".to_string(),
    });
    assert_eq!(out2, vec![Delivery::Dropped { correlation: None }]);
}

#[test]
fn second_reply_for_same_id_is_dropped() {
    let sup = running_supervisor();
    let mut disp = Dispatcher::new();
    let mut gw = Gateway::new();
    let (id, _) = gw.send(&mut disp, &sup, "once", None).unwrap();
    let first = disp.publish(ClassifiedMessage::Reply {
        id: Some(id),
        value: "a".to_string(),
    });
    assert!(matches!(first[0], Delivery::Complete { .. }));
    let second = disp.publish(ClassifiedMessage::Reply {
        id: Some(id),
        value: "b".to_string(),
    });
    assert_eq!(second, vec![Delivery::Dropped { correlation: Some(id) }]);
}

#[test]
fn termination_fails_outstanding_request_and_notifies_channel() {
    let mut sup = running_supervisor();
    let mut disp = Dispatcher::new();
    let mut gw = Gateway::new();
    // Outstanding requests with identifiers below 7.
    for _ in 0..6 {
        gw.send(&mut disp, &sup, "work", None).unwrap();
    }
    let (id7, _) = gw.send(&mut disp, &sup, "work", None).unwrap();
    assert_eq!(id7, 7);
    for i in 1u64..=6 {
        disp.cancel(i);
    }
    let t = disp.subscribe("terminated".to_string());
    let notice = sup.observe_exit(Some(3));
    let out = disp.publish(notice);
    assert_eq!(
        out,
        vec![
            Delivery::Complete {
                id: 7,
                outcome: Outcome::WorkerTerminated { exit_code: Some(3) },
            },
            Delivery::NotifyTerminated {
                token: t,
                exit_code: Some(3),
            },
        ]
    );
    assert!(!disp.is_pending(7));
    // A later publish repeats nothing: the request was completed once.
    let again = disp.publish(ClassifiedMessage::Terminated { exit_code: Some(3) });
    assert_eq!(
        again,
        vec![Delivery::NotifyTerminated {
            token: t,
            exit_code: Some(3),
        }]
    );
}

#[test]
fn cancel_times_out_request_exactly_once() {
    let sup = running_supervisor();
    let mut disp = Dispatcher::new();
    let mut gw = Gateway::new();
    let (id, _) = gw.send(&mut disp, &sup, "slow", None).unwrap();
    let first = disp.cancel(id);
    assert_eq!(
        first,
        Some(Delivery::Complete {
            id,
            outcome: Outcome::TimedOut,
        })
    );
    assert_eq!(disp.cancel(id), None);
}

#[test]
fn stop_is_idempotent_after_termination() {
    let mut sup = running_supervisor();
    assert_eq!(sup.stop(), StopAction::Shutdown);
    sup.observe_exit(Some(0));
    assert_eq!(sup.state(), WorkerState::Terminated { exit_code: Some(0) });
    assert_eq!(sup.stop(), StopAction::AlreadyStopped);
    assert_eq!(sup.stop(), StopAction::AlreadyStopped);
    assert_eq!(sup.state(), WorkerState::Terminated { exit_code: Some(0) });
}

#[test]
fn spawn_failure_terminates_directly() {
    let mut sup = Supervisor::new();
    assert_eq!(sup.state(), WorkerState::NotStarted);
    sup.mark_spawn_failed();
    assert_eq!(sup.state(), WorkerState::Terminated { exit_code: None });
    assert_eq!(sup.stop(), StopAction::AlreadyStopped);
}

#[test]
fn send_fails_when_worker_not_running() {
    let sup = Supervisor::new();
    let mut disp = Dispatcher::new();
    let mut gw = Gateway::new();
    assert_eq!(
        gw.send(&mut disp, &sup, "ping", None),
        Err(SendError::WorkerNotRunning)
    );
    let mut sup2 = running_supervisor();
    sup2.observe_exit(None);
    assert_eq!(
        gw.send(&mut disp, &sup2, "ping", None),
        Err(SendError::WorkerNotRunning)
    );
}

#[test]
fn send_encodes_line_and_registers_request() {
    let sup = running_supervisor();
    let mut disp = Dispatcher::new();
    let mut gw = Gateway::new();
    let (id, line) = gw.send(&mut disp, &sup, "ping", None).unwrap();
    assert_eq!(id, 1);
    assert_eq!(line, "{\"id\":1,\"command\":\"ping\"}");
    assert!(disp.is_pending(1));
    let (id2, line2) = gw
        .send(&mut disp, &sup, "say \"hi\"", Some("{\"x\":10}"))
        .unwrap();
    assert_eq!(id2, 2);
    assert_eq!(
        line2,
        "{\"id\":2,\"command\":\"say \\\"hi\\\"\",\"args\":{\"x\":10}}"
    );
}

#[test]
fn send_refuses_multi_line_payload() {
    let sup = running_supervisor();
    let mut disp = Dispatcher::new();
    let mut gw = Gateway::new();
    assert_eq!(
        gw.send(&mut disp, &sup, "cmd", Some("{\n}")),
        Err(SendError::PayloadNotOneLine)
    );
    assert!(!disp.is_pending(1));
}

#[test]
fn request_line_round_trips_through_the_decoder() {
    let line = encode_request(41, "status", Some("{\"verbose\":true}"));
    let w = decode_line(&line).unwrap();
    assert_eq!(w.id, Some(41));
    assert_eq!(w.event, None);
    assert_eq!(w.result, None);
}

#[test]
fn encode_request_writes_digits_and_escapes() {
    assert_eq!(
        encode_request(1234567890, "c", None),
        "{\"id\":1234567890,\"command\":\"c\"}"
    );
    assert_eq!(
        encode_request(u64::MAX, "m", None),
        "{\"id\":18446744073709551615,\"command\":\"m\"}"
    );
    assert_eq!(
        encode_request(0, "a\\b\nc\td\u{1}", None),
        "{\"id\":0,\"command\":\"a\\\\b\\nc\\td\\u0001\"}"
    );
}

#[test]
fn status_report_is_exact() {
    let s = status_json("box", "10.0.0.5");
    assert_eq!(
        s,
        "{\"state\":\"disconnected\",\"device_name\":\"box\",\"device_type\":\"laptop\",\"port\":52525,\"peer\":null,\"session_id\":null,\"local_info\":{\"name\":\"box\",\"type\":\"laptop\",\"ip\":\"10.0.0.5\",\"port\":52525}}"
    );
    let parsed: serde_json::Value = serde_json::from_str(&s).unwrap();
    assert_eq!(parsed["local_info"]["port"], serde_json::Value::from(52525));
}
