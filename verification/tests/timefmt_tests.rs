use zmq_broadcast::codec::encode;
use zmq_broadcast::message::BroadcastMessage;
use zmq_broadcast::subscriber::{subscriber_step, SubscriberStep};
use zmq_broadcast::timefmt::display_timestamp;

fn report_time(timestamp: u64) -> String {
    let frame = encode(&BroadcastMessage {
        sender: b"zmq_srv".to_vec(),
        body: b"x".to_vec(),
        timestamp,
    });
    match subscriber_step(&frame) {
        SubscriberStep::Report { time_line, .. } => time_line,
        SubscriberStep::Malformed { .. } => panic!("an encoded frame must decode"),
    }
}

#[test]
fn ordinary_timestamp_formats_as_utc() {
    assert_eq!(display_timestamp(1431648000), "2015-05-15 00:00:00 UTC");
    assert_eq!(report_time(1431648000), "2015-05-15 00:00:00 UTC");
}

#[test]
fn zero_timestamp_formats_as_the_epoch() {
    // The clock-failure sentinel still reads as a date, not as the
    // placeholder: zero is a representable instant.
    assert_eq!(display_timestamp(0), "1970-01-01 00:00:00 UTC");
    assert_eq!(report_time(0), "1970-01-01 00:00:00 UTC");
}

#[test]
fn out_of_range_timestamp_shows_the_placeholder() {
    // Positive but past the last representable date.
    assert_eq!(display_timestamp(8210266876800), "Bad Time");
    assert_eq!(display_timestamp(i64::MAX as u64), "Bad Time");
    assert_eq!(report_time(i64::MAX as u64), "Bad Time");
}

#[test]
fn wrapped_timestamp_reads_as_a_signed_word() {
    // Values past i64::MAX reach the display path as negative seconds.
    assert_eq!(display_timestamp(u64::MAX), "1969-12-31 23:59:59 UTC");
    // Too negative once wrapped: the placeholder again.
    assert_eq!(display_timestamp(i64::MAX as u64 + 1), "Bad Time");
}

#[test]
fn boundary_timestamps_format() {
    assert_eq!(display_timestamp(8210266876799), "+262142-12-31 23:59:59 UTC");
}
