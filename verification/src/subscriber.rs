//! The subscriber's decision step. The loop around it — connect, subscribe
//! to everything, block on receive, report — lives outside the library;
//! what is made of each received frame is decided here.

use vstd::prelude::*;

use crate::codec::{decode, decoding, DecodeError};
use crate::timefmt::{display_timestamp, time_display};

verus! {

/// What one turn of the subscriber loop reports.
pub enum SubscriberStep {
    /// The frame carried a message: show its time, sender and body, each on
    /// a line of its own.
    Report { time_line: String, sender: Vec<u8>, body: Vec<u8> },
    /// The frame was no message; it is reported and the loop goes on — a
    /// corrupt frame never stops the subscriber.
    Malformed { error: DecodeError },
}

/// One turn of the subscriber loop: decode the received frame; on success
/// yield the message's fields with the timestamp already formatted (or the
/// placeholder where no date can be made of it), on failure yield the
/// decode error for the log.
pub fn subscriber_step(frame: &Vec<u8>) -> (r: SubscriberStep)
    ensures
        decoding(frame@) matches Some(m) ==> (r matches SubscriberStep::Report {
            time_line,
            sender,
            body,
        } && time_line@ == time_display(m.timestamp) && sender@ == m.sender && body@ == m.body),
        decoding(frame@) is None ==> r is Malformed,
{
    match decode(frame) {
        Err(e) => SubscriberStep::Malformed { error: e },
        Ok(m) => {
            let time_line = display_timestamp(m.timestamp);
            SubscriberStep::Report { time_line, sender: m.sender, body: m.body }
        },
    }
}

} // verus!
