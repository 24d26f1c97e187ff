//! The wire schema's one entity: a broadcast message with a sender, a text
//! body and a send-time. Text is carried as its UTF-8 bytes; turning bytes
//! into printable text is the terminal boundary's business.

use vstd::prelude::*;

verus! {

/// One broadcast: who sent it, what it says, and the send time as whole
/// seconds since the Unix epoch. A timestamp of `0` stands for "the clock
/// could not be read".
pub struct BroadcastMessage {
    pub sender: Vec<u8>,
    pub body: Vec<u8>,
    pub timestamp: u64,
}

/// The mathematical value of a [`BroadcastMessage`].
#[verifier::ext_equal]
pub struct MessageModel {
    pub sender: Seq<u8>,
    pub body: Seq<u8>,
    pub timestamp: u64,
}

impl View for BroadcastMessage {
    type V = MessageModel;

    open spec fn view(&self) -> MessageModel {
        MessageModel { sender: self.sender@, body: self.body@, timestamp: self.timestamp }
    }
}

/// The fixed originator identifier, `"zmq_srv"` as UTF-8 bytes, that the
/// publisher stamps on every message it sends.
pub open spec fn default_sender() -> Seq<u8> {
    seq![122u8, 109u8, 113u8, 95u8, 115u8, 114u8, 118u8]
}

/// The bytes of the fixed sender identifier `"zmq_srv"`.
pub fn sender_tag() -> (r: Vec<u8>)
    ensures
        r@ == default_sender(),
{
    let r: Vec<u8> = vec![122u8, 109u8, 113u8, 95u8, 115u8, 114u8, 118u8];
    proof {
        assert(r@ =~= default_sender());
    }
    r
}

/// Builds the message for one line of operator input: the fixed sender, the
/// given body, and the clock reading — or `0` where the clock could not be
/// read, so that a clock failure never stops a send.
pub fn build_message(body: Vec<u8>, clock: Option<u64>) -> (m: BroadcastMessage)
    ensures
        m@.sender == default_sender(),
        m@.body == body@,
        m@.timestamp == (match clock {
            Some(t) => t,
            None => 0u64,
        }),
{
    let timestamp: u64 = match clock {
        Some(t) => t,
        None => 0,
    };
    BroadcastMessage { sender: sender_tag(), body, timestamp }
}

} // verus!
