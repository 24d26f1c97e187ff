//! The wire codec. A message travels as one self-describing frame in
//! protocol-buffer wire format over three fields: sender (field 1, length
//! delimited), body (field 2, length delimited), timestamp (field 3, varint).
//! The encoding is canonical — fields appear in order, a field whose value is
//! empty or zero is omitted, varints are minimal — so every message has
//! exactly one frame and every frame at most one message.

use vstd::prelude::*;

use crate::message::{BroadcastMessage, MessageModel};
use crate::varint::{decode_varint, encode_varint, varint, varint_at};

verus! {

/// Field 1 (sender), wire type 2: length delimited.
pub const SENDER_KEY: u8 = 0x0A;

/// Field 2 (body), wire type 2: length delimited.
pub const BODY_KEY: u8 = 0x12;

/// Field 3 (timestamp), wire type 0: varint.
pub const TIME_KEY: u8 = 0x18;

/// A message whose parts a frame can carry: each text field short enough for
/// its length to travel as a varint.
pub open spec fn wf(m: MessageModel) -> bool {
    m.sender.len() <= u64::MAX && m.body.len() <= u64::MAX
}

/// A length-delimited field: key byte, byte count, bytes — or nothing when
/// the value is empty.
pub open spec fn bytes_field(key: u8, s: Seq<u8>) -> Seq<u8> {
    if s.len() == 0 {
        seq![]
    } else {
        seq![key] + varint(s.len() as u64) + s
    }
}

/// The timestamp field: key byte and varint — or nothing when the value is
/// zero.
pub open spec fn time_field(t: u64) -> Seq<u8> {
    if t == 0 {
        seq![]
    } else {
        seq![TIME_KEY] + varint(t)
    }
}

/// The one frame that carries `m`.
pub open spec fn encoding(m: MessageModel) -> Seq<u8> {
    bytes_field(SENDER_KEY, m.sender) + bytes_field(BODY_KEY, m.body) + time_field(m.timestamp)
}

/// Some `u64`'s encoding starts at `b[i]`.
pub open spec fn has_varint(b: Seq<u8>, i: int) -> bool {
    exists|v: u64| varint_at(b, i, v)
}

/// The value whose encoding starts at `b[i]`; by prefix-freeness there is at
/// most one.
pub open spec fn varint_value(b: Seq<u8>, i: int) -> u64 {
    choose|v: u64| varint_at(b, i, v)
}

/// Reads a length-delimited field keyed `key` at `b[i]`: its bytes and the
/// next position; the empty value and an unchanged position when the field
/// is absent; `None` when the bytes there are no canonical field.
pub open spec fn parse_bytes_field(b: Seq<u8>, i: int, key: u8) -> Option<(Seq<u8>, int)> {
    if i < b.len() && b[i] == key {
        if has_varint(b, i + 1) {
            let l = varint_value(b, i + 1);
            let j = i + 1 + varint(l).len();
            if l > 0 && j + l <= b.len() {
                Some((b.subrange(j, j + l), j + l))
            } else {
                None
            }
        } else {
            None
        }
    } else {
        Some((seq![], i))
    }
}

/// Reads the timestamp field at `b[i]`: the value and the next position;
/// zero and an unchanged position when the field is absent; `None` when the
/// bytes there are no canonical field.
pub open spec fn parse_time_field(b: Seq<u8>, i: int) -> Option<(u64, int)> {
    if i < b.len() && b[i] == TIME_KEY {
        if has_varint(b, i + 1) {
            let t = varint_value(b, i + 1);
            if t > 0 {
                Some((t, i + 1 + varint(t).len()))
            } else {
                None
            }
        } else {
            None
        }
    } else {
        Some((0u64, i))
    }
}

/// The message a frame carries, if any: the three fields in order, nothing
/// before, between or after them.
pub open spec fn decoding(b: Seq<u8>) -> Option<MessageModel> {
    match parse_bytes_field(b, 0, SENDER_KEY) {
        None => None,
        Some(sender_part) => match parse_bytes_field(b, sender_part.1, BODY_KEY) {
            None => None,
            Some(body_part) => match parse_time_field(b, body_part.1) {
                None => None,
                Some(time_part) => if time_part.1 == b.len() {
                    Some(
                        MessageModel {
                            sender: sender_part.0,
                            body: body_part.0,
                            timestamp: time_part.0,
                        },
                    )
                } else {
                    None
                },
            },
        },
    }
}

/// There is exactly one `u64` whose encoding starts at `b[i]`, once there is
/// one at all.
proof fn lemma_varint_value(b: Seq<u8>, i: int, v: u64)
    requires
        varint_at(b, i, v),
    ensures
        has_varint(b, i),
        varint_value(b, i) == v,
{
    crate::varint::lemma_varint_prefix_free(b, i, varint_value(b, i), v);
}

/// A nonempty length-delimited field, laid down at `b[i]`, parses to exactly
/// its value and its end.
proof fn lemma_parse_bytes_field_present(b: Seq<u8>, i: int, key: u8, s: Seq<u8>)
    requires
        0 < s.len() <= u64::MAX,
        0 <= i,
        i + bytes_field(key, s).len() <= b.len(),
        b.subrange(i, i + bytes_field(key, s).len()) == bytes_field(key, s),
    ensures
        parse_bytes_field(b, i, key) == Some((s, i + bytes_field(key, s).len())),
{
    let l = s.len() as u64;
    let fld = bytes_field(key, s);
    let vlen = varint(l).len() as int;
    assert(fld == seq![key] + varint(l) + s);
    assert(b[i] == fld[0]);
    assert(fld[0] == key);
    assert(varint_at(b, i + 1, l)) by {
        assert(b.subrange(i + 1, i + 1 + vlen) =~= varint(l)) by {
            assert forall|k: int| 0 <= k < vlen implies b.subrange(i + 1, i + 1 + vlen)[k]
                == varint(l)[k] by {
                assert(b[i + 1 + k] == fld[1 + k]);
                assert(fld[1 + k] == varint(l)[k]);
            }
        }
    }
    lemma_varint_value(b, i + 1, l);
    let j = i + 1 + vlen;
    assert(b.subrange(j, j + l) =~= s) by {
        assert forall|k: int| 0 <= k < s.len() implies b.subrange(j, j + l)[k] == s[k] by {
            assert(b[j + k] == fld[1 + vlen + k]);
            assert(fld[1 + vlen + k] == s[k]);
        }
    }
}

/// Law: a frame decodes back to the very message it encodes — the codec
/// round-trips, and every subscriber that receives one published frame
/// reads off the same message.
pub proof fn lemma_round_trip(m: MessageModel)
    requires
        wf(m),
    ensures
        decoding(encoding(m)) == Some(m),
{
    let a = bytes_field(SENDER_KEY, m.sender);
    let bb = bytes_field(BODY_KEY, m.body);
    let c = time_field(m.timestamp);
    let b = encoding(m);
    let i1 = a.len() as int;
    let i2 = i1 + bb.len() as int;
    let end = b.len() as int;
    assert(b == a + bb + c);

    if m.sender.len() == 0 {
        assert(b.len() == 0 || b[0] != SENDER_KEY) by {
            if b.len() > 0 {
                if bb.len() > 0 {
                    assert(b[0] == bb[0]);
                    assert(bb[0] == BODY_KEY);
                } else {
                    assert(c.len() > 0);
                    assert(b[0] == c[0]);
                    assert(c[0] == TIME_KEY);
                }
            }
        }
        assert(parse_bytes_field(b, 0, SENDER_KEY) == Some((Seq::<u8>::empty(), 0int)));
        assert(Seq::<u8>::empty() =~= m.sender);
    } else {
        assert(b.subrange(0, i1) =~= a);
        lemma_parse_bytes_field_present(b, 0, SENDER_KEY, m.sender);
    }
    assert(parse_bytes_field(b, 0, SENDER_KEY) == Some((m.sender, i1)));

    if m.body.len() == 0 {
        assert(i1 == b.len() || b[i1] != BODY_KEY) by {
            if i1 < b.len() {
                assert(c.len() > 0);
                assert(b[i1] == c[0]);
                assert(c[0] == TIME_KEY);
            }
        }
        assert(parse_bytes_field(b, i1, BODY_KEY) == Some((Seq::<u8>::empty(), i1)));
        assert(Seq::<u8>::empty() =~= m.body);
    } else {
        assert(b.subrange(i1, i2) =~= bb);
        lemma_parse_bytes_field_present(b, i1, BODY_KEY, m.body);
    }
    assert(parse_bytes_field(b, i1, BODY_KEY) == Some((m.body, i2)));

    if m.timestamp == 0 {
        assert(i2 == b.len());
        assert(parse_time_field(b, i2) == Some((0u64, i2)));
    } else {
        assert(b[i2] == c[0]);
        assert(c[0] == TIME_KEY);
        let vlen = varint(m.timestamp).len() as int;
        assert(varint_at(b, i2 + 1, m.timestamp)) by {
            assert(b.subrange(i2 + 1, i2 + 1 + vlen) =~= varint(m.timestamp)) by {
                assert forall|k: int| 0 <= k < vlen implies b.subrange(i2 + 1, i2 + 1 + vlen)[k]
                    == varint(m.timestamp)[k] by {
                    assert(b[i2 + 1 + k] == c[1 + k]);
                    assert(c[1 + k] == varint(m.timestamp)[k]);
                }
            }
        }
        lemma_varint_value(b, i2 + 1, m.timestamp);
        assert(i2 + 1 + vlen == end);
    }
    assert(parse_time_field(b, i2) == Some((m.timestamp, end)));
    assert(decoding(b) == Some(
        MessageModel { sender: m.sender, body: m.body, timestamp: m.timestamp },
    ));
    assert(MessageModel { sender: m.sender, body: m.body, timestamp: m.timestamp } =~= m);
}

/// Law: distinct messages never share a frame.
pub proof fn lemma_encoding_injective(m1: MessageModel, m2: MessageModel)
    requires
        wf(m1),
        wf(m2),
        encoding(m1) == encoding(m2),
    ensures
        m1 == m2,
{
    lemma_round_trip(m1);
    lemma_round_trip(m2);
}

/// Law: the codec is canonical — whatever buffer decodes at all is exactly
/// the frame of the message it yields.
pub proof fn lemma_decoding_canonical(b: Seq<u8>)
    ensures
        decoding(b) matches Some(m) ==> wf(m) && encoding(m) == b,
{
    if decoding(b) is Some {
        let sender_part = parse_bytes_field(b, 0, SENDER_KEY)->Some_0;
        let i1 = sender_part.1;
        let body_part = parse_bytes_field(b, i1, BODY_KEY)->Some_0;
        let i2 = body_part.1;
        let time_part = parse_time_field(b, i2)->Some_0;
        let end = time_part.1;
        let m = decoding(b)->Some_0;
        assert(end == b.len());

        lemma_parse_bytes_field_canonical(b, 0, SENDER_KEY);
        lemma_parse_bytes_field_canonical(b, i1, BODY_KEY);

        assert(b.subrange(0, i1) == bytes_field(SENDER_KEY, m.sender));
        assert(b.subrange(i1, i2) == bytes_field(BODY_KEY, m.body));
        assert(b.subrange(i2, end) == time_field(m.timestamp)) by {
            if i2 < b.len() && b[i2] == TIME_KEY {
                let t = varint_value(b, i2 + 1);
                assert(varint_at(b, i2 + 1, t));
                assert(b.subrange(i2, end) =~= seq![TIME_KEY] + varint(t));
            } else {
                assert(b.subrange(i2, end) =~= Seq::<u8>::empty());
            }
        }
        assert(b =~= b.subrange(0, i1) + b.subrange(i1, i2) + b.subrange(i2, end));
    }
}

/// The bytes a length-delimited parse consumes are exactly the field of the
/// value it returns.
proof fn lemma_parse_bytes_field_canonical(b: Seq<u8>, i: int, key: u8)
    requires
        0 <= i <= b.len(),
        parse_bytes_field(b, i, key) is Some,
    ensures
        parse_bytes_field(b, i, key) matches Some(p)
            ==> p.0.len() <= u64::MAX && b.subrange(i, p.1) == bytes_field(key, p.0),
{
    let p = parse_bytes_field(b, i, key)->Some_0;
    if i < b.len() && b[i] == key {
        let l = varint_value(b, i + 1);
        assert(varint_at(b, i + 1, l));
        let j = i + 1 + varint(l).len();
        assert(b.subrange(i, p.1) =~= seq![key] + varint(l) + b.subrange(j, j + l));
        assert(p.0.len() == l);
        assert(p.0.len() as u64 == l);
    } else {
        assert(b.subrange(i, p.1) =~= Seq::<u8>::empty());
    }
}

/// Why a buffer is no frame.
#[derive(Debug)]
pub enum DecodeError {
    /// A field's length or value varint is truncated, overlong or too large.
    BadVarint,
    /// A length-delimited field is empty or runs past the end of the buffer.
    BadLength,
    /// A byte where no canonical frame has one: a stray key, a zero
    /// timestamp field, or trailing bytes.
    UnexpectedByte,
}

/// Appends all of `s` to `out`.
fn push_bytes(out: &mut Vec<u8>, s: &Vec<u8>)
    ensures
        final(out)@ == old(out)@ + s@,
{
    let mut k: usize = 0;
    while k < s.len()
        invariant
            k <= s@.len(),
            out@ == old(out)@ + s@.subrange(0, k as int),
        decreases s@.len() - k,
    {
        out.push(s[k]);
        proof {
            assert(out@ =~= old(out)@ + s@.subrange(0, k as int + 1));
        }
        k += 1;
    }
    proof {
        assert(s@.subrange(0, s@.len() as int) =~= s@);
    }
}

/// Encodes `m` as its one wire frame.
pub fn encode(m: &BroadcastMessage) -> (r: Vec<u8>)
    ensures
        r@ == encoding(m@),
{
    let mut out: Vec<u8> = Vec::new();
    if m.sender.len() > 0 {
        out.push(SENDER_KEY);
        encode_varint(&mut out, m.sender.len() as u64);
        push_bytes(&mut out, &m.sender);
    }
    proof {
        assert(out@ =~= bytes_field(SENDER_KEY, m@.sender));
    }
    if m.body.len() > 0 {
        out.push(BODY_KEY);
        encode_varint(&mut out, m.body.len() as u64);
        push_bytes(&mut out, &m.body);
    }
    proof {
        assert(out@ =~= bytes_field(SENDER_KEY, m@.sender) + bytes_field(BODY_KEY, m@.body));
    }
    if m.timestamp > 0 {
        out.push(TIME_KEY);
        encode_varint(&mut out, m.timestamp);
    }
    proof {
        assert(out@ =~= encoding(m@));
    }
    out
}

/// Reads one length-delimited field keyed `key`, or reports that none — and
/// no canonical frame — lies at `i`.
fn parse_field_bytes(b: &Vec<u8>, i: usize, key: u8) -> (r: Result<(Vec<u8>, usize), DecodeError>)
    requires
        i <= b@.len(),
    ensures
        match r {
            Ok(p) => {
                &&& parse_bytes_field(b@, i as int, key) == Some((p.0@, p.1 as int))
                &&& i <= p.1 <= b@.len()
            },
            Err(_) => parse_bytes_field(b@, i as int, key) is None,
        },
{
    if i < b.len() && b[i] == key {
        match decode_varint(b, i + 1) {
            None => Err(DecodeError::BadVarint),
            Some((l, j)) => {
                proof {
                    lemma_varint_value(b@, i as int + 1, l);
                }
                let blen: usize = b.len();
                if l == 0 {
                    Err(DecodeError::BadLength)
                } else if l > (blen - j) as u64 {
                    Err(DecodeError::BadLength)
                } else {
                    let lu: usize = l as usize;
                    let stop: usize = j + lu;
                    let mut out: Vec<u8> = Vec::new();
                    let mut idx: usize = j;
                    while idx < stop
                        invariant
                            j <= idx <= stop,
                            stop <= b@.len(),
                            out@ == b@.subrange(j as int, idx as int),
                        decreases stop - idx,
                    {
                        out.push(b[idx]);
                        proof {
                            assert(out@ =~= b@.subrange(j as int, idx as int + 1));
                        }
                        idx += 1;
                    }
                    Ok((out, stop))
                }
            },
        }
    } else {
        let empty: Vec<u8> = Vec::new();
        proof {
            assert(empty@ =~= Seq::<u8>::empty());
        }
        Ok((empty, i))
    }
}

/// Reads the timestamp field, or reports that no canonical frame lies at `i`.
fn parse_field_time(b: &Vec<u8>, i: usize) -> (r: Result<(u64, usize), DecodeError>)
    requires
        i <= b@.len(),
    ensures
        match r {
            Ok(p) => {
                &&& parse_time_field(b@, i as int) == Some((p.0, p.1 as int))
                &&& i <= p.1 <= b@.len()
            },
            Err(_) => parse_time_field(b@, i as int) is None,
        },
{
    if i < b.len() && b[i] == TIME_KEY {
        match decode_varint(b, i + 1) {
            None => Err(DecodeError::BadVarint),
            Some((t, j)) => {
                proof {
                    lemma_varint_value(b@, i as int + 1, t);
                }
                if t == 0 {
                    Err(DecodeError::UnexpectedByte)
                } else {
                    Ok((t, j))
                }
            },
        }
    } else {
        Ok((0, i))
    }
}

/// Decodes a received frame. Succeeds exactly on the buffers that `encode`
/// produces, and then yields the one message whose frame the buffer is; any
/// truncated, corrupted or non-canonical buffer is rejected with a
/// [`DecodeError`], never a panic.
pub fn decode(b: &Vec<u8>) -> (r: Result<BroadcastMessage, DecodeError>)
    ensures
        match r {
            Ok(m) => {
                &&& decoding(b@) == Some(m@)
                &&& wf(m@)
                &&& encoding(m@) == b@
            },
            Err(_) => {
                &&& decoding(b@) is None
                &&& forall|m: MessageModel| wf(m) ==> encoding(m) != b@
            },
        },
{
    proof {
        assert forall|m: MessageModel| wf(m) && decoding(b@) is None implies encoding(m) != b@ by {
            if encoding(m) == b@ {
                lemma_round_trip(m);
            }
        }
    }
    let sender_part = match parse_field_bytes(b, 0, SENDER_KEY) {
        Ok(p) => p,
        Err(e) => {
            return Err(e);
        },
    };
    let body_part = match parse_field_bytes(b, sender_part.1, BODY_KEY) {
        Ok(p) => p,
        Err(e) => {
            return Err(e);
        },
    };
    let time_part = match parse_field_time(b, body_part.1) {
        Ok(p) => p,
        Err(e) => {
            return Err(e);
        },
    };
    if time_part.1 != b.len() {
        return Err(DecodeError::UnexpectedByte);
    }
    let m = BroadcastMessage {
        sender: sender_part.0,
        body: body_part.0,
        timestamp: time_part.0,
    };
    proof {
        lemma_decoding_canonical(b@);
    }
    Ok(m)
}

} // verus!
