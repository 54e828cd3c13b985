use echo_node::msg::Body;
use echo_node::msg::Envelope;
use echo_node::node::handle_message;
use echo_node::node::process_line;
use echo_node::node::run_node;
use echo_node::parse::parse_envelope;
use echo_node::enc::encode_envelope;

#[test]
fn test_init() {
    let s = r#"{
        "src": "n1",
        "dest": "n2",
        "body": {
            "type": "init",
            "msg_id": 1,
            "node_id": "n3",
            "node_ids": ["n1", "n2", "n3"]
        }
    }"#;

    let message = parse_envelope(s.as_bytes()).unwrap();
    assert!(matches!(message.body, Body::Init { .. }));
}

#[test]
fn test_init_ok() {
    let s = r#"{
        "src": "n1",
        "dest": "n2",
        "body": {
            "type": "init_ok",
            "in_reply_to": 1
        }
    }"#;

    let message = parse_envelope(s.as_bytes()).unwrap();
    assert!(matches!(message.body, Body::InitOk { .. }));
}

#[test]
fn test_init_fields() {
    let s = r#"{"src":"c1","dest":"n1","body":{"type":"init","msg_id":7,"node_id":"n1","node_ids":["n1","n2"]}}"#;
    let message = parse_envelope(s.as_bytes()).unwrap();
    let expected = Envelope {
        src: b"c1".to_vec(),
        dest: b"n1".to_vec(),
        body: Body::Init {
            msg_id: 7,
            node_id: b"n1".to_vec(),
            node_ids: vec![b"n1".to_vec(), b"n2".to_vec()],
        },
    };
    assert_eq!(message, expected);
}

#[test]
fn test_fields_in_any_order() {
    let s = r#"{"body":{"echo":"x","msg_id":3,"type":"echo"},"dest":"d","src":"s"}"#;
    let message = parse_envelope(s.as_bytes()).unwrap();
    let expected = Envelope {
        src: b"s".to_vec(),
        dest: b"d".to_vec(),
        body: Body::Echo { msg_id: 3, echo: b"x".to_vec() },
    };
    assert_eq!(message, expected);
}

#[test]
fn test_echo_scenario() {
    let input = r#"{"src":"n1","dest":"n2","body":{"type":"echo","msg_id":1,"echo":"hello"}}"#;
    let out = process_line(input.as_bytes()).unwrap().unwrap();
    let expected = r#"{"src":"n2","dest":"n1","body":{"type":"echo_ok","msg_id":1,"in_reply_to":1,"echo":"hello"}}"#;
    assert_eq!(out, expected.as_bytes().to_vec());
}

#[test]
fn test_init_scenario() {
    let input = r#"{"src":"c1","dest":"n1","body":{"type":"init","msg_id":1,"node_id":"n1","node_ids":["n1"]}}"#;
    let out = process_line(input.as_bytes()).unwrap().unwrap();
    let expected = r#"{"src":"n1","dest":"c1","body":{"type":"init_ok","in_reply_to":1}}"#;
    assert_eq!(out, expected.as_bytes().to_vec());
}

#[test]
fn test_ack_bodies_no_output() {
    let init_ok = r#"{"src":"a","dest":"b","body":{"type":"init_ok","in_reply_to":9}}"#;
    assert_eq!(process_line(init_ok.as_bytes()), Ok(None));
    let echo_ok = r#"{"src":"a","dest":"b","body":{"type":"echo_ok","msg_id":2,"in_reply_to":2,"echo":"y"}}"#;
    assert_eq!(process_line(echo_ok.as_bytes()), Ok(None));
}

#[test]
fn test_unknown_type_is_fatal() {
    let s = r#"{"src":"a","dest":"b","body":{"type":"frob","msg_id":1}}"#;
    assert!(process_line(s.as_bytes()).is_err());
}

#[test]
fn test_missing_field_is_fatal() {
    // An echo body without its payload.
    let s = r#"{"src":"a","dest":"b","body":{"type":"echo","msg_id":1}}"#;
    assert!(process_line(s.as_bytes()).is_err());
    // An envelope without a destination.
    let s2 = r#"{"src":"a","body":{"type":"init_ok","in_reply_to":1}}"#;
    assert!(process_line(s2.as_bytes()).is_err());
}

#[test]
fn test_malformed_json_is_fatal() {
    assert!(process_line(b"").is_err());
    assert!(process_line(b"   ").is_err());
    assert!(process_line(b"{").is_err());
    assert!(process_line(br#"{"src":"a","dest":"b","body":{}}"#).is_err());
    assert!(process_line(br#"{"src":"a","dest":"b","body":{"type":"echo","msg_id":1,"echo":"x"}} extra"#).is_err());
    assert!(process_line(br#"{"src":"a","dest":"b","unknown":1,"body":{"type":"init_ok","in_reply_to":1}}"#).is_err());
    assert!(process_line(br#"{"src":"a","src":"b","dest":"c","body":{"type":"init_ok","in_reply_to":1}}"#).is_err());
}

#[test]
fn test_number_bounds() {
    let ok = r#"{"src":"a","dest":"b","body":{"type":"init_ok","in_reply_to":18446744073709551615}}"#;
    let message = parse_envelope(ok.as_bytes()).unwrap();
    assert!(matches!(message.body, Body::InitOk { in_reply_to: 18446744073709551615 }));
    let too_big = r#"{"src":"a","dest":"b","body":{"type":"init_ok","in_reply_to":18446744073709551616}}"#;
    assert!(parse_envelope(too_big.as_bytes()).is_err());
    let leading_zero = r#"{"src":"a","dest":"b","body":{"type":"init_ok","in_reply_to":01}}"#;
    assert!(parse_envelope(leading_zero.as_bytes()).is_err());
    let zero = r#"{"src":"a","dest":"b","body":{"type":"init_ok","in_reply_to":0}}"#;
    assert!(matches!(parse_envelope(zero.as_bytes()).unwrap().body, Body::InitOk { in_reply_to: 0 }));
}

#[test]
fn test_string_escapes_parse() {
    let s = r#"{"src":"a","dest":"b","body":{"type":"echo","msg_id":1,"echo":"q\"b\\s\/\n\t\r\f\bAé"}}"#;
    let message = parse_envelope(s.as_bytes()).unwrap();
    let mut expected: Vec<u8> = b"q\"b\\s/\n\t\r".to_vec();
    expected.push(0x0C);
    expected.push(0x08);
    expected.push(b'A');
    expected.extend_from_slice("\u{e9}".as_bytes());
    assert_eq!(message.body, Body::Echo { msg_id: 1, echo: expected });
}

#[test]
fn test_unicode_escapes_parse() {
    // One-, two- and three-byte code points written as \uXXXX escapes.
    let s = r#"{"src":"a","dest":"b","body":{"type":"echo","msg_id":1,"echo":"\u0041\u00e9\u20ac"}}"#;
    let message = parse_envelope(s.as_bytes()).unwrap();
    let expected = "A\u{e9}\u{20ac}".as_bytes().to_vec();
    assert_eq!(message.body, Body::Echo { msg_id: 1, echo: expected });
}

#[test]
fn test_bad_escapes_are_fatal() {
    assert!(parse_envelope(br#"{"src":"a","dest":"b","body":{"type":"echo","msg_id":1,"echo":"\x"}}"#).is_err());
    assert!(parse_envelope(br#"{"src":"a","dest":"b","body":{"type":"echo","msg_id":1,"echo":"\ud800"}}"#).is_err());
    assert!(parse_envelope(br#"{"src":"a","dest":"b","body":{"type":"echo","msg_id":1,"echo":"unterminated}}"#).is_err());
}

#[test]
fn test_encode_escapes() {
    let env = Envelope {
        src: b"a".to_vec(),
        dest: b"b".to_vec(),
        body: Body::Echo { msg_id: 1, echo: b"q\"\\\n\x01".to_vec() },
    };
    let out = encode_envelope(&env);
    let expected = r#"{"src":"a","dest":"b","body":{"type":"echo","msg_id":1,"echo":"q\"\\\n\u0001"}}"#;
    assert_eq!(out, expected.as_bytes().to_vec());
}

#[test]
fn test_round_trip_concrete() {
    let envs = vec![
        Envelope {
            src: b"n1".to_vec(),
            dest: b"n2".to_vec(),
            body: Body::Init {
                msg_id: 42,
                node_id: b"n-\"x\\".to_vec(),
                node_ids: vec![b"n1".to_vec(), b"".to_vec(), b"a b".to_vec()],
            },
        },
        Envelope {
            src: b"".to_vec(),
            dest: b"d".to_vec(),
            body: Body::InitOk { in_reply_to: 0 },
        },
        Envelope {
            src: b"x".to_vec(),
            dest: b"y".to_vec(),
            body: Body::Echo { msg_id: 18446744073709551615, echo: b"\x02\t payload".to_vec() },
        },
        Envelope {
            src: b"p".to_vec(),
            dest: b"q".to_vec(),
            body: Body::EchoOk { msg_id: 3, in_reply_to: 3, echo: b"z".to_vec() },
        },
    ];
    for env in envs {
        let text = encode_envelope(&env);
        let back = parse_envelope(&text).unwrap();
        assert_eq!(back, env);
    }
}

#[test]
fn test_whitespace_everywhere() {
    let s = " \t{ \"src\" : \"a\" ,\r\n \"dest\" : \"b\" , \"body\" : { \"type\" : \"echo\" , \"msg_id\" : 5 , \"echo\" : \"\" } } \n";
    let message = parse_envelope(s.as_bytes()).unwrap();
    let expected = Envelope {
        src: b"a".to_vec(),
        dest: b"b".to_vec(),
        body: Body::Echo { msg_id: 5, echo: b"".to_vec() },
    };
    assert_eq!(message, expected);
}

#[test]
fn test_handle_message_swaps_endpoints() {
    let request = Envelope {
        src: b"c1".to_vec(),
        dest: b"n1".to_vec(),
        body: Body::Echo { msg_id: 9, echo: b"hi".to_vec() },
    };
    let response = handle_message(request).unwrap();
    let expected = Envelope {
        src: b"n1".to_vec(),
        dest: b"c1".to_vec(),
        body: Body::EchoOk { msg_id: 9, in_reply_to: 9, echo: b"hi".to_vec() },
    };
    assert_eq!(response, expected);

    let ack = Envelope {
        src: b"a".to_vec(),
        dest: b"b".to_vec(),
        body: Body::EchoOk { msg_id: 1, in_reply_to: 1, echo: b"x".to_vec() },
    };
    assert!(handle_message(ack).is_none());
}

#[test]
fn test_run_in_order_and_acks_skipped() {
    let lines: Vec<Vec<u8>> = vec![
        br#"{"src":"c1","dest":"n1","body":{"type":"init","msg_id":1,"node_id":"n1","node_ids":["n1"]}}"#.to_vec(),
        br#"{"src":"a","dest":"n1","body":{"type":"init_ok","in_reply_to":1}}"#.to_vec(),
        br#"{"src":"c1","dest":"n1","body":{"type":"echo","msg_id":2,"echo":"one"}}"#.to_vec(),
        br#"{"src":"c1","dest":"n1","body":{"type":"echo","msg_id":3,"echo":"two"}}"#.to_vec(),
    ];
    let (out, clean) = run_node(&lines);
    assert!(clean);
    let expected: Vec<Vec<u8>> = vec![
        br#"{"src":"n1","dest":"c1","body":{"type":"init_ok","in_reply_to":1}}"#.to_vec(),
        br#"{"src":"n1","dest":"c1","body":{"type":"echo_ok","msg_id":2,"in_reply_to":2,"echo":"one"}}"#.to_vec(),
        br#"{"src":"n1","dest":"c1","body":{"type":"echo_ok","msg_id":3,"in_reply_to":3,"echo":"two"}}"#.to_vec(),
    ];
    assert_eq!(out, expected);
}

#[test]
fn test_run_stops_at_first_bad_line() {
    let lines: Vec<Vec<u8>> = vec![
        br#"{"src":"c1","dest":"n1","body":{"type":"echo","msg_id":1,"echo":"ok"}}"#.to_vec(),
        br#"{"src":"c1","dest":"n1","body":{"type":"frob"}}"#.to_vec(),
        br#"{"src":"c1","dest":"n1","body":{"type":"echo","msg_id":2,"echo":"never"}}"#.to_vec(),
    ];
    let (out, clean) = run_node(&lines);
    assert!(!clean);
    let expected: Vec<Vec<u8>> = vec![
        br#"{"src":"n1","dest":"c1","body":{"type":"echo_ok","msg_id":1,"in_reply_to":1,"echo":"ok"}}"#.to_vec(),
    ];
    assert_eq!(out, expected);
}

#[test]
fn test_empty_node_ids() {
    let s = r#"{"src":"c1","dest":"n1","body":{"type":"init","msg_id":1,"node_id":"n1","node_ids":[]}}"#;
    let message = parse_envelope(s.as_bytes()).unwrap();
    match message.body {
        Body::Init { node_ids, .. } => assert_eq!(node_ids.len(), 0),
        _ => panic!("expected an init body"),
    }
}
