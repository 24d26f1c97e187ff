use zmq_broadcast::codec::decode;
use zmq_broadcast::endpoint::{bind_endpoint, connect_endpoint, format_decimal, DEFAULT_PORT};
use zmq_broadcast::message::build_message;
use zmq_broadcast::publisher::{publisher_step, PublisherStep};
use zmq_broadcast::role::{select_role, Role};
use zmq_broadcast::subscriber::{subscriber_step, SubscriberStep};
use zmq_broadcast::text::trim;

#[test]
fn empty_line_terminates_normally() {
    let r = publisher_step(Some(b"".to_vec()), Some(100));
    assert!(matches!(r, PublisherStep::TerminateNormal));
}

#[test]
fn blank_line_terminates_normally() {
    let r = publisher_step(Some(b" \t \r\n".to_vec()), Some(100));
    assert!(matches!(r, PublisherStep::TerminateNormal));
}

#[test]
fn failed_read_terminates_with_error() {
    let r = publisher_step(None, Some(100));
    assert!(matches!(r, PublisherStep::TerminateReadError));
}

#[test]
fn hello_line_publishes_hello() {
    // The concrete scenario: the operator types `hello`, the publisher at
    // port 9800 sends one frame whose decoded body is exactly `hello` and
    // whose sender is exactly `zmq_srv`.
    assert_eq!(DEFAULT_PORT, 9800);
    assert_eq!(bind_endpoint(DEFAULT_PORT), "tcp://0.0.0.0:9800");
    match publisher_step(Some(b"hello\n".to_vec()), Some(1431648000)) {
        PublisherStep::Publish { body, frame } => {
            assert_eq!(body, b"hello".to_vec());
            let m = decode(&frame).expect("the published frame must decode");
            assert_eq!(m.sender, b"zmq_srv".to_vec());
            assert_eq!(m.body, b"hello".to_vec());
            assert_eq!(m.timestamp, 1431648000);
        }
        _ => panic!("a non-blank line must be published"),
    }
}

#[test]
fn clock_failure_falls_back_to_zero() {
    let m = build_message(b"hello".to_vec(), None);
    assert_eq!(m.timestamp, 0);
    match publisher_step(Some(b"hello".to_vec()), None) {
        PublisherStep::Publish { frame, .. } => {
            let back = decode(&frame).expect("the published frame must decode");
            assert_eq!(back.timestamp, 0);
        }
        _ => panic!("a non-blank line must be published"),
    }
}

#[test]
fn fan_out_gives_both_subscribers_the_same_message() {
    // Two subscribers handed the same broadcast frame report the same
    // decoded message.
    let frame = match publisher_step(Some(b"news\n".to_vec()), Some(50)) {
        PublisherStep::Publish { frame, .. } => frame,
        _ => panic!("a non-blank line must be published"),
    };
    let first = subscriber_step(&frame);
    let second = subscriber_step(&frame);
    match (first, second) {
        (
            SubscriberStep::Report { time_line: t1, sender: s1, body: b1 },
            SubscriberStep::Report { time_line: t2, sender: s2, body: b2 },
        ) => {
            assert_eq!(t1, t2);
            assert_eq!(s1, s2);
            assert_eq!(b1, b2);
            assert_eq!(b1, b"news".to_vec());
        }
        _ => panic!("both subscribers must decode the frame"),
    }
}

#[test]
fn corrupt_frame_reports_malformed_and_the_loop_survives() {
    // A truncated frame makes the subscriber report the error and carry on:
    // the very next well-formed frame still decodes.
    let garbage: Vec<u8> = vec![0x0a, 0xff, 0x20];
    assert!(matches!(subscriber_step(&garbage), SubscriberStep::Malformed { .. }));
    let frame = match publisher_step(Some(b"still here".to_vec()), Some(60)) {
        PublisherStep::Publish { frame, .. } => frame,
        _ => panic!("a non-blank line must be published"),
    };
    match subscriber_step(&frame) {
        SubscriberStep::Report { body, .. } => assert_eq!(body, b"still here".to_vec()),
        SubscriberStep::Malformed { .. } => panic!("a published frame must decode"),
    }
}

#[test]
fn trim_strips_both_ends() {
    assert_eq!(trim(&b"  hello world\t\r\n".to_vec()), b"hello world".to_vec());
    assert_eq!(trim(&b"inner  space".to_vec()), b"inner  space".to_vec());
    assert_eq!(trim(&b"".to_vec()), b"".to_vec());
    assert_eq!(trim(&b" \t ".to_vec()), b"".to_vec());
}

#[test]
fn format_decimal_writes_plain_numbers() {
    assert_eq!(format_decimal(0), "0");
    assert_eq!(format_decimal(9800), "9800");
    assert_eq!(format_decimal(u32::MAX), "4294967295");
}

#[test]
fn connect_endpoint_names_host_and_port() {
    assert_eq!(connect_endpoint("localhost", 9800), "tcp://localhost:9800");
    assert_eq!(connect_endpoint("10.0.0.7", 1234), "tcp://10.0.0.7:1234");
}

#[test]
fn role_follows_the_address() {
    assert!(matches!(select_role(None), Role::Publisher));
    match select_role(Some("broker".to_string())) {
        Role::Subscriber { address } => assert_eq!(address, "broker"),
        Role::Publisher => panic!("an address means subscribing"),
    }
}
