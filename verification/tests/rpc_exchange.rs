use cortex_client::bridge::{json_to_msgpack, msgpack_to_json};
use cortex_client::command::{request_for, Command};
use cortex_client::exchange::{
    build_request, conclude, framed, interpret_reply, prepare_request, settle, Action, Event, Exchange, Failure,
    IdSequence,
    Phase, READ_CAPACITY,
};
use cortex_client::human::{HumanValue};
use cortex_client::json::parse_json;
use cortex_client::msgpack::{decode_value, encode_value};
use cortex_client::wire::{WireInteger, WireValue};

fn unsigned(n: u64) -> WireValue {
    WireValue::Integer(WireInteger::Unsigned(n))
}

fn text(content: &str) -> WireValue {
    WireValue::Text(content.to_string())
}

fn reply(error: WireValue, result: WireValue) -> WireValue {
    WireValue::Array(vec![unsigned(1), unsigned(1), error, result])
}

/// Drives an exchange over a transport that connects, accepts the request
/// and answers with the given bytes; gives back the request and the outcome.
fn run(
    ids: &mut IdSequence,
    method: &str,
    params: Vec<WireValue>,
    answer: Vec<u8>,
) -> (Vec<u8>, Result<Option<WireValue>, Failure>) {
    let mut exchange = Exchange::new("/run/cortex/cortex.sock", method, params);
    assert_eq!(exchange.current_phase(), Phase::Idle);
    assert_eq!(exchange.step(ids, Event::Begin), Some(Action::Connect("/run/cortex/cortex.sock".to_string())));
    assert_eq!(exchange.current_phase(), Phase::Connecting);
    let request = match exchange.step(ids, Event::Connected) {
        Some(Action::Send(bytes)) => bytes,
        other => panic!("expected a request to send, got {:?}", other),
    };
    assert_eq!(exchange.current_phase(), Phase::Sending);
    assert_eq!(exchange.step(ids, Event::Sent), Some(Action::Receive(65536)));
    assert_eq!(exchange.current_phase(), Phase::AwaitingReply);
    match exchange.step(ids, Event::Received(answer)) {
        Some(Action::Finish(outcome)) => {
            let ended = if outcome.is_ok() { Phase::Succeeded } else { Phase::Failed };
            assert_eq!(exchange.current_phase(), ended);
            (request, outcome)
        },
        other => panic!("expected the exchange to finish, got {:?}", other),
    }
}

#[test]
fn ids_start_at_one_and_rise() {
    let mut ids = IdSequence::new();
    assert_eq!(ids.peek(), 1);
    let mut last: u32 = 0;
    for _ in 0..100 {
        let id = ids.take();
        assert!(id > last);
        last = id;
    }
    assert_eq!(last, 100);
    assert_eq!(ids.peek(), 101);
}

#[test]
fn ids_wrap_to_zero_after_the_largest() {
    let mut ids = IdSequence::starting_at(u32::MAX - 1);
    assert_eq!(ids.take(), u32::MAX - 1);
    assert_eq!(ids.take(), u32::MAX);
    assert_eq!(ids.take(), 0);
    assert_eq!(ids.take(), 1);
    assert_eq!(ids.peek(), 2);
}

#[test]
fn every_call_gets_its_own_id() {
    let mut ids = IdSequence::new();
    let answer = encode_value(&reply(WireValue::Nil, text("pong"))).unwrap();
    let mut seen: Vec<u64> = Vec::new();
    for _ in 0..5 {
        let (request, outcome) = run(&mut ids, "ping", vec![], answer.clone());
        assert_eq!(outcome, Ok(Some(text("pong"))));
        match decode_value(&request) {
            Ok(WireValue::Array(parts)) => match &parts[1] {
                WireValue::Integer(WireInteger::Unsigned(id)) => seen.push(*id),
                other => panic!("id slot holds {:?}", other),
            },
            other => panic!("request decodes to {:?}", other),
        }
    }
    assert_eq!(seen, vec![1, 2, 3, 4, 5]);
}

#[test]
fn request_envelope_has_marker_id_method_and_params() {
    let envelope = build_request(9, "get", vec![text("users"), text("u1")]);
    assert_eq!(
        envelope,
        WireValue::Array(vec![
            unsigned(0),
            unsigned(9),
            text("get"),
            WireValue::Array(vec![text("users"), text("u1")]),
        ])
    );
}

#[test]
fn request_bytes_are_what_rmpv_writes_for_the_envelope() {
    let mut ids = IdSequence::new();
    let bytes = prepare_request(&mut ids, "get", vec![text("users"), text("u1")]).unwrap();
    let envelope = rmpv::Value::Array(vec![
        rmpv::Value::from(0),
        rmpv::Value::from(1u32),
        rmpv::Value::from("get"),
        rmpv::Value::Array(vec![rmpv::Value::from("users"), rmpv::Value::from("u1")]),
    ]);
    let mut expected: Vec<u8> = Vec::new();
    rmpv::encode::write_value(&mut expected, &envelope).unwrap();
    assert_eq!(bytes, expected);
    assert_eq!(ids.peek(), 2);
}

#[test]
fn put_scenario_succeeds_with_true() {
    let command = Command::Put {
        table: "users".to_string(),
        json: "{\"id\":\"u1\",\"name\":\"alice\"}".to_string(),
    };
    let request = request_for(&command).unwrap();
    assert_eq!(request.method, "put");
    let mapping = WireValue::Mapping(vec![(text("id"), text("u1")), (text("name"), text("alice"))]);
    assert_eq!(request.params, vec![text("users"), mapping]);

    let mut ids = IdSequence::new();
    let answer = encode_value(&reply(WireValue::Nil, WireValue::Boolean(true))).unwrap();
    let (sent, outcome) = run(&mut ids, "put", request.params, answer);
    assert_eq!(
        decode_value(&sent),
        Ok(WireValue::Array(vec![
            unsigned(0),
            unsigned(1),
            text("put"),
            WireValue::Array(vec![
                text("users"),
                WireValue::Mapping(vec![(text("id"), text("u1")), (text("name"), text("alice"))]),
            ]),
        ]))
    );
    let result = outcome.unwrap().unwrap();
    assert_eq!(msgpack_to_json(&result), HumanValue::Boolean(true));
}

#[test]
fn query_scenario_gives_a_one_element_array() {
    let command = Command::Query { table: "users".to_string(), pattern: "{\"name\":\"alice\"}".to_string() };
    let request = request_for(&command).unwrap();
    assert_eq!(request.method, "match");
    assert_eq!(request.params, vec![text("users"), WireValue::Mapping(vec![(text("name"), text("alice"))])]);

    let record = parse_json("{\"id\":\"u1\",\"name\":\"alice\"}").unwrap();
    let found = WireValue::Array(vec![json_to_msgpack(&record)]);
    let mut ids = IdSequence::new();
    let answer = encode_value(&reply(WireValue::Nil, found)).unwrap();
    let (_, outcome) = run(&mut ids, "match", request.params, answer);
    let shown = msgpack_to_json(&outcome.unwrap().unwrap());
    assert_eq!(shown, HumanValue::Array(vec![parse_json("{\"id\":\"u1\",\"name\":\"alice\"}").unwrap()]));
}

#[test]
fn denied_operation_fails_with_the_daemons_message() {
    let mut ids = IdSequence::new();
    let answer = encode_value(&reply(text("permission denied: table users"), WireValue::Nil)).unwrap();
    let (_, outcome) = run(&mut ids, "get", vec![text("users"), text("u1")], answer);
    let failure = outcome.unwrap_err();
    assert_eq!(failure, Failure::Rpc("permission denied: table users".to_string()));
    assert_eq!(failure.message(), "permission denied: table users");
}

#[test]
fn connect_failure_ends_the_exchange_before_anything_is_sent() {
    let mut ids = IdSequence::new();
    let mut exchange = Exchange::new("/nonexistent/cortex.sock", "ping", vec![]);
    assert_eq!(
        exchange.step(&mut ids, Event::Begin),
        Some(Action::Connect("/nonexistent/cortex.sock".to_string()))
    );
    let action = exchange.step(&mut ids, Event::ConnectFailed("No such file or directory (os error 2)".to_string()));
    let expected = Failure::Connect {
        address: "/nonexistent/cortex.sock".to_string(),
        cause: "No such file or directory (os error 2)".to_string(),
    };
    assert_eq!(
        expected.message(),
        "cannot connect to /nonexistent/cortex.sock: No such file or directory (os error 2)"
    );
    assert_eq!(action, Some(Action::Finish(Err(expected))));
    assert_eq!(exchange.current_phase(), Phase::Failed);
    // no id was used up and no further event is awaited
    assert_eq!(ids.peek(), 1);
    assert!(!exchange.accepts(&Event::Connected));
    assert!(!exchange.accepts(&Event::Sent));
    assert!(!exchange.accepts(&Event::Begin));
}

#[test]
fn three_element_reply_is_a_protocol_failure() {
    let short = WireValue::Array(vec![unsigned(1), unsigned(1), WireValue::Nil]);
    let mut ids = IdSequence::new();
    let (_, outcome) = run(&mut ids, "ping", vec![], encode_value(&short).unwrap());
    let failure = outcome.unwrap_err();
    assert_eq!(failure, Failure::Protocol);
    assert_eq!(failure.message(), "invalid response format");
}

#[test]
fn replies_of_any_other_shape_are_protocol_failures() {
    let shapes = vec![
        WireValue::Nil,
        WireValue::Boolean(true),
        text("pong"),
        unsigned(4),
        WireValue::Binary(vec![1, 2, 3, 4]),
        WireValue::Array(vec![]),
        WireValue::Array(vec![unsigned(1), unsigned(1), WireValue::Nil, WireValue::Nil, WireValue::Nil]),
        WireValue::Mapping(vec![
            (unsigned(0), unsigned(1)),
            (unsigned(1), unsigned(1)),
            (unsigned(2), WireValue::Nil),
            (unsigned(3), WireValue::Nil),
        ]),
        WireValue::Extension(4, vec![0, 0, 0, 0]),
    ];
    for shape in shapes {
        assert_eq!(interpret_reply(shape), Err(Failure::Protocol));
    }
}

#[test]
fn four_elements_of_any_kind_are_an_envelope() {
    let odd = WireValue::Array(vec![text("not a type"), WireValue::Nil, WireValue::Nil, unsigned(5)]);
    assert_eq!(interpret_reply(odd), Ok(Some(unsigned(5))));
}

#[test]
fn error_slot_wins_over_a_result() {
    let both = reply(text("boom"), WireValue::Boolean(true));
    assert_eq!(interpret_reply(both), Err(Failure::Rpc("boom".to_string())));
    let empty_text = reply(text(""), WireValue::Boolean(true));
    assert_eq!(interpret_reply(empty_text), Err(Failure::Rpc("".to_string())));
    let falsy = reply(WireValue::Boolean(false), WireValue::Boolean(true));
    assert_eq!(interpret_reply(falsy), Err(Failure::Rpc("false".to_string())));
}

#[test]
fn error_of_another_kind_is_reported_in_its_printed_form() {
    assert_eq!(interpret_reply(reply(unsigned(404), WireValue::Nil)), Err(Failure::Rpc("404".to_string())));
    let structured = WireValue::Mapping(vec![(text("code"), unsigned(7))]);
    assert_eq!(
        interpret_reply(reply(structured, WireValue::Nil)),
        Err(Failure::Rpc("{\"code\": 7}".to_string()))
    );
    assert_eq!(
        interpret_reply(reply(WireValue::MalformedText(vec![0xff]), WireValue::Nil)),
        Err(Failure::Rpc("unknown error".to_string()))
    );
}

#[test]
fn nil_result_is_a_success() {
    assert_eq!(interpret_reply(reply(WireValue::Nil, WireValue::Nil)), Ok(Some(WireValue::Nil)));
}

#[test]
fn empty_read_is_a_read_failure() {
    let failure = conclude(&[]).unwrap_err();
    assert_eq!(failure, Failure::Read("empty reply".to_string()));
    assert_eq!(failure.message(), "read error: empty reply");
}

#[test]
fn undecodable_reply_is_a_decode_failure() {
    let whole = encode_value(&reply(WireValue::Nil, text("a long enough result"))).unwrap();
    let failure = conclude(&whole[..whole.len() - 3]).unwrap_err();
    assert!(matches!(failure, Failure::Decode(_)));
    assert!(failure.message().starts_with("decode error: "));
}

#[test]
fn bytes_after_the_reply_are_ignored() {
    let mut bytes = encode_value(&reply(WireValue::Nil, unsigned(3))).unwrap();
    bytes.extend_from_slice(&[0xff, 0x00, 0xc1]);
    assert_eq!(conclude(&bytes), Ok(Some(unsigned(3))));
}

#[test]
fn transport_failures_end_the_exchange() {
    let mut ids = IdSequence::new();
    let mut exchange = Exchange::new("/tmp/s", "ping", vec![]);
    exchange.step(&mut ids, Event::Begin);
    exchange.step(&mut ids, Event::Connected);
    let action = exchange.step(&mut ids, Event::SendFailed("Broken pipe (os error 32)".to_string()));
    assert_eq!(action, Some(Action::Finish(Err(Failure::Write("Broken pipe (os error 32)".to_string())))));
    assert_eq!(exchange.current_phase(), Phase::Failed);
    assert_eq!(Failure::Write("Broken pipe (os error 32)".to_string()).message(), "write error: Broken pipe (os error 32)");

    let mut exchange = Exchange::new("/tmp/s", "ping", vec![]);
    exchange.step(&mut ids, Event::Begin);
    exchange.step(&mut ids, Event::Connected);
    exchange.step(&mut ids, Event::Sent);
    let action = exchange.step(&mut ids, Event::ReceiveFailed("Connection reset by peer".to_string()));
    assert_eq!(action, Some(Action::Finish(Err(Failure::Read("Connection reset by peer".to_string())))));
    assert_eq!(exchange.current_phase(), Phase::Failed);
    assert_eq!(Failure::Read("x".to_string()).message(), "read error: x");
    assert_eq!(Failure::Encode("x".to_string()).message(), "encode error: x");
    assert_eq!(Failure::Decode("x".to_string()).message(), "decode error: x");
    // each exchange that got connected took one id
    assert_eq!(ids.peek(), 3);
}

#[test]
fn each_phase_awaits_only_its_own_events() {
    let mut ids = IdSequence::new();
    let mut exchange = Exchange::new("/tmp/s", "ping", vec![]);
    assert!(exchange.accepts(&Event::Begin));
    assert!(!exchange.accepts(&Event::Connected));
    assert!(!exchange.accepts(&Event::Received(vec![])));
    exchange.step(&mut ids, Event::Begin);
    assert!(exchange.accepts(&Event::Connected));
    assert!(exchange.accepts(&Event::ConnectFailed("x".to_string())));
    assert!(!exchange.accepts(&Event::Begin));
    assert!(!exchange.accepts(&Event::Sent));
    exchange.step(&mut ids, Event::Connected);
    assert!(exchange.accepts(&Event::Sent));
    assert!(exchange.accepts(&Event::SendFailed("x".to_string())));
    assert!(!exchange.accepts(&Event::Connected));
    exchange.step(&mut ids, Event::Sent);
    assert!(exchange.accepts(&Event::Received(vec![])));
    assert!(exchange.accepts(&Event::ReceiveFailed("x".to_string())));
    assert!(!exchange.accepts(&Event::Sent));
    exchange.step(&mut ids, Event::Received(vec![0xc0]));
    assert_eq!(exchange.current_phase(), Phase::Failed);
    assert!(!exchange.accepts(&Event::Begin));
    assert!(!exchange.accepts(&Event::Received(vec![])));
}

#[test]
fn read_capacity_is_64_kib() {
    assert_eq!(READ_CAPACITY, 64 * 1024);
}

#[test]
fn encoder_error_becomes_an_encode_failure() {
    assert_eq!(framed(Ok(vec![1, 2, 3])), Ok(vec![1, 2, 3]));
    assert_eq!(framed(Err("no room".to_string())), Err(Failure::Encode("no room".to_string())));
}

#[test]
fn decoder_error_becomes_a_decode_failure() {
    assert_eq!(settle(Err("bad marker".to_string())), Err(Failure::Decode("bad marker".to_string())));
    assert_eq!(settle(Ok(reply(WireValue::Nil, unsigned(1)))), Ok(Some(unsigned(1))));
    assert_eq!(settle(Ok(WireValue::Nil)), Err(Failure::Protocol));
}

#[test]
fn an_event_that_is_not_awaited_changes_nothing() {
    let mut ids = IdSequence::new();
    let mut exchange = Exchange::new("/tmp/s", "ping", vec![]);
    assert_eq!(exchange.step(&mut ids, Event::Connected), None);
    assert_eq!(exchange.step(&mut ids, Event::Received(vec![0xc0])), None);
    assert_eq!(exchange.current_phase(), Phase::Idle);
    assert_eq!(ids.peek(), 1);
    exchange.step(&mut ids, Event::Begin);
    assert_eq!(exchange.step(&mut ids, Event::Begin), None);
    assert_eq!(exchange.step(&mut ids, Event::Sent), None);
    assert_eq!(exchange.current_phase(), Phase::Connecting);
    exchange.step(&mut ids, Event::ConnectFailed("x".to_string()));
    assert_eq!(exchange.step(&mut ids, Event::Connected), None);
    assert_eq!(exchange.current_phase(), Phase::Failed);
    assert_eq!(ids.peek(), 1);
}
