//! The publisher's decision step. The loop around it — bind the socket,
//! read a line, perform the step's action, repeat — does input and output
//! and so lives outside the library; everything the loop decides and
//! computes per turn is here.

use vstd::prelude::*;

use crate::codec::{decoding, encode, encoding};
use crate::message::{build_message, default_sender, MessageModel};
use crate::text::{trim, trim_spec};

verus! {

/// What one turn of the publisher loop does next.
pub enum PublisherStep {
    /// The trimmed line was empty: the operator's shutdown signal. Nothing
    /// is sent; the loop ends in the normal way.
    TerminateNormal,
    /// The line could not be read at all; the loop ends reporting the error.
    TerminateReadError,
    /// Broadcast `frame` — the encoded message — and echo `body`, the
    /// trimmed line it carries.
    Publish { body: Vec<u8>, frame: Vec<u8> },
}

/// The timestamp a clock reading yields: the reading itself, or the
/// sentinel `0` when the clock could not be read.
pub open spec fn clock_value(clock: Option<u64>) -> u64 {
    match clock {
        Some(t) => t,
        None => 0u64,
    }
}

/// Law: the frame a non-blank line turns into decodes, at every subscriber
/// it fans out to, back to exactly the message that was built from it — the
/// fixed sender, the trimmed line, the stamped time.
pub proof fn lemma_published_frame_reads_back(l: Seq<u8>, clock: Option<u64>)
    requires
        trim_spec(l).len() <= u64::MAX,
    ensures
        decoding(
            encoding(
                MessageModel {
                    sender: default_sender(),
                    body: trim_spec(l),
                    timestamp: clock_value(clock),
                },
            ),
        ) == Some(
            MessageModel {
                sender: default_sender(),
                body: trim_spec(l),
                timestamp: clock_value(clock),
            },
        ),
{
    crate::codec::lemma_round_trip(
        MessageModel {
            sender: default_sender(),
            body: trim_spec(l),
            timestamp: clock_value(clock),
        },
    );
}

/// One turn of the publisher loop, from what was read — `None` for a failed
/// read, `Some` bytes for a line — and the clock, to what to do: stop on a
/// failed read; stop without sending on a blank line; otherwise build the
/// message with the fixed sender and the trimmed line and hand back its
/// frame to broadcast.
pub fn publisher_step(line: Option<Vec<u8>>, clock: Option<u64>) -> (r: PublisherStep)
    ensures
        line is None ==> r is TerminateReadError,
        line matches Some(l) ==> (trim_spec(l@).len() == 0 ==> r is TerminateNormal),
        line matches Some(l) ==> (trim_spec(l@).len() > 0 ==> (r matches PublisherStep::Publish {
            body,
            frame,
        } && body@ == trim_spec(l@) && frame@ == encoding(
            MessageModel {
                sender: default_sender(),
                body: trim_spec(l@),
                timestamp: clock_value(clock),
            },
        ))),
{
    match line {
        None => PublisherStep::TerminateReadError,
        Some(l) => {
            let trimmed = trim(&l);
            if trimmed.len() == 0 {
                PublisherStep::TerminateNormal
            } else {
                let m = build_message(trimmed, clock);
                let frame = encode(&m);
                proof {
                    assert(m@ =~= MessageModel {
                        sender: default_sender(),
                        body: trim_spec(l@),
                        timestamp: clock_value(clock),
                    });
                }
                PublisherStep::Publish { body: m.body, frame }
            }
        },
    }
}

} // verus!
