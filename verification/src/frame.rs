//! Frame codec: the fixed 11-byte message header and the payload region.
//!
//! Wire layout: `[magic:1][type:2 little-endian][payload_length:8
//! little-endian][payload...]`.  A message is kept as a sequence of byte
//! segments so that bulk payload data can travel without being copied into
//! one buffer; the bytes on the wire are the concatenation of the segments.

use vstd::bytes::{
    lemma_auto_spec_u16_to_from_le_bytes, lemma_auto_spec_u64_to_from_le_bytes,
    spec_u16_from_le_bytes, spec_u16_to_le_bytes, spec_u64_from_le_bytes, spec_u64_to_le_bytes,
    u16_from_le_bytes, u16_to_le_bytes, u64_from_le_bytes, u64_to_le_bytes,
};
use vstd::prelude::*;
use vstd::seq_lib::lemma_flatten_concat;
use vstd::slice::{slice_subrange, slice_to_vec};

verus! {

/// Leading byte of every frame: the XOR of four fixed ASCII characters that
/// identify the protocol.
pub const MESSAGE_MAGIC: u8 = 108 ^ 97 ^ 110 ^ 116;

/// Bytes in the fixed header: magic, type code, payload length.
pub const SIZE_OF_HEADER: usize = 11;

/// The closed set of message types.  `Invalid` is never sent; decoding an
/// unrecognized code produces it.
#[derive(Clone, Copy, Debug, PartialEq, Eq, Structural)]
pub enum MessageType {
    LsRequest,
    LsResponse,
    PutRequest,
    PutResponse,
    GetRequest,
    GetResponse,
    Error,
    Invalid,
}

impl MessageType {
    /// The fixed two-byte wire code of this type: the routable types occupy
    /// one low-order bit each, `Error` and `Invalid` high sentinel values.
    pub open spec fn spec_code(self) -> u16 {
        match self {
            MessageType::LsRequest => 0b00000001,
            MessageType::LsResponse => 0b00000010,
            MessageType::PutRequest => 0b00000100,
            MessageType::PutResponse => 0b00001000,
            MessageType::GetRequest => 0b00010000,
            MessageType::GetResponse => 0b00100000,
            MessageType::Error => 0b11110000,
            MessageType::Invalid => 0b11111111,
        }
    }

    /// The type a wire code stands for; `Invalid` when no type matches.
    pub open spec fn spec_from_u16(raw: u16) -> MessageType {
        if raw == MessageType::LsRequest.spec_code() {
            MessageType::LsRequest
        } else if raw == MessageType::LsResponse.spec_code() {
            MessageType::LsResponse
        } else if raw == MessageType::PutRequest.spec_code() {
            MessageType::PutRequest
        } else if raw == MessageType::PutResponse.spec_code() {
            MessageType::PutResponse
        } else if raw == MessageType::GetRequest.spec_code() {
            MessageType::GetRequest
        } else if raw == MessageType::GetResponse.spec_code() {
            MessageType::GetResponse
        } else if raw == MessageType::Error.spec_code() {
            MessageType::Error
        } else {
            MessageType::Invalid
        }
    }

    pub fn as_u16(self) -> (r: u16)
        ensures
            r == self.spec_code(),
    {
        match self {
            MessageType::LsRequest => 0b00000001,
            MessageType::LsResponse => 0b00000010,
            MessageType::PutRequest => 0b00000100,
            MessageType::PutResponse => 0b00001000,
            MessageType::GetRequest => 0b00010000,
            MessageType::GetResponse => 0b00100000,
            MessageType::Error => 0b11110000,
            MessageType::Invalid => 0b11111111,
        }
    }

    pub fn from_u16(raw: u16) -> (r: Self)
        ensures
            r == MessageType::spec_from_u16(raw),
    {
        if raw == 0b00000001 {
            MessageType::LsRequest
        } else if raw == 0b00000010 {
            MessageType::LsResponse
        } else if raw == 0b00000100 {
            MessageType::PutRequest
        } else if raw == 0b00001000 {
            MessageType::PutResponse
        } else if raw == 0b00010000 {
            MessageType::GetRequest
        } else if raw == 0b00100000 {
            MessageType::GetResponse
        } else if raw == 0b11110000 {
            MessageType::Error
        } else {
            MessageType::Invalid
        }
    }
}

/// Every sendable type's code decodes back to the type itself.
pub proof fn lemma_code_round_trip(t: MessageType)
    requires
        t != MessageType::Invalid,
    ensures
        MessageType::spec_from_u16(t.spec_code()) == t,
{
}

/// Ways a frame can fail to decode.
#[derive(Clone, Copy, Debug, PartialEq, Eq, Structural)]
pub enum FrameError {
    /// Fewer bytes than one header.
    HeaderTooShort,
    /// Leading byte is not the protocol magic.
    BadMagic,
    /// The type code maps to no known message type.
    InvalidType,
    /// The declared payload length is not the number of bytes that follow.
    SizeMismatch,
}

/// The byte sequences of a list of segments.
pub open spec fn segs_view(segs: Seq<Vec<u8>>) -> Seq<Seq<u8>> {
    segs.map_values(|b: Vec<u8>| b@)
}

/// The bytes that a segmented message puts on the wire.
pub open spec fn message_bytes(segs: Seq<Vec<u8>>) -> Seq<u8> {
    segs_view(segs).flatten()
}

/// The header bytes for a frame of the given type and payload length.
pub open spec fn spec_header_bytes(t: MessageType, payload_len: u64) -> Seq<u8> {
    seq![MESSAGE_MAGIC] + spec_u16_to_le_bytes(t.spec_code()) + spec_u64_to_le_bytes(payload_len)
}

/// The whole frame: header, then payload.
pub open spec fn spec_frame_bytes(t: MessageType, payload: Seq<u8>) -> Seq<u8>
    recommends
        payload.len() <= u64::MAX,
{
    spec_header_bytes(t, payload.len() as u64) + payload
}

/// A byte sequence that decodes as a frame: long enough for the header, the
/// right magic, a known type code, and a length field that matches the bytes
/// actually present.
pub open spec fn valid_frame(b: Seq<u8>) -> bool {
    &&& b.len() >= SIZE_OF_HEADER
    &&& b[0] == MESSAGE_MAGIC
    &&& MessageType::spec_from_u16(spec_u16_from_le_bytes(b.subrange(1, 3))) != MessageType::Invalid
    &&& spec_u64_from_le_bytes(b.subrange(3, 11)) == b.len() - SIZE_OF_HEADER
}

/// The type field of a frame.
pub open spec fn frame_type(b: Seq<u8>) -> MessageType {
    MessageType::spec_from_u16(spec_u16_from_le_bytes(b.subrange(1, 3)))
}

/// The payload region of a frame.
pub open spec fn frame_payload(b: Seq<u8>) -> Seq<u8> {
    b.subrange(SIZE_OF_HEADER as int, b.len() as int)
}

/// Split a received message into its type and payload, or say exactly how it
/// is malformed.
pub fn deconstruct_message(msg: &Vec<u8>) -> (r: Result<(MessageType, Option<Vec<u8>>), FrameError>)
    ensures
        r is Ok <==> valid_frame(msg@),
        valid_frame(msg@) ==> ({
            &&& r matches Ok((t, p))
            &&& t == frame_type(msg@)
            &&& msg@.len() > SIZE_OF_HEADER ==> (p matches Some(pl) && pl@ == frame_payload(msg@))
            &&& msg@.len() == SIZE_OF_HEADER ==> p is None
        }),
        msg@.len() < SIZE_OF_HEADER ==> r == Err::<(MessageType, Option<Vec<u8>>), FrameError>(
            FrameError::HeaderTooShort,
        ),
        msg@.len() >= SIZE_OF_HEADER && msg@[0] != MESSAGE_MAGIC ==> r == Err::<
            (MessageType, Option<Vec<u8>>),
            FrameError,
        >(FrameError::BadMagic),
        msg@.len() >= SIZE_OF_HEADER && msg@[0] == MESSAGE_MAGIC && frame_type(msg@)
            == MessageType::Invalid ==> r == Err::<(MessageType, Option<Vec<u8>>), FrameError>(
            FrameError::InvalidType,
        ),
        msg@.len() >= SIZE_OF_HEADER && msg@[0] == MESSAGE_MAGIC && frame_type(msg@)
            != MessageType::Invalid && spec_u64_from_le_bytes(msg@.subrange(3, 11)) != msg@.len()
            - SIZE_OF_HEADER ==> r == Err::<(MessageType, Option<Vec<u8>>), FrameError>(
            FrameError::SizeMismatch,
        ),
{
    if msg.len() < SIZE_OF_HEADER {
        return Err(FrameError::HeaderTooShort);
    }
    let magic = msg[0];
    if magic != MESSAGE_MAGIC {
        return Err(FrameError::BadMagic);
    }
    let type_bytes = slice_subrange(msg.as_slice(), 1, 3);
    let msg_type = MessageType::from_u16(u16_from_le_bytes(type_bytes));
    if msg_type == MessageType::Invalid {
        return Err(FrameError::InvalidType);
    }
    let size_bytes = slice_subrange(msg.as_slice(), 3, 11);
    let payload_size = u64_from_le_bytes(size_bytes);
    if (msg.len() - SIZE_OF_HEADER) as u64 != payload_size {
        return Err(FrameError::SizeMismatch);
    }
    let mut payload: Option<Vec<u8>> = None;
    if payload_size > 0 {
        let payload_bytes = slice_subrange(msg.as_slice(), SIZE_OF_HEADER, msg.len());
        payload = Some(slice_to_vec(payload_bytes));
    }
    Ok((msg_type, payload))
}

/// Byte count of a segmented payload.
fn total_payload_size(payload: &Vec<Vec<u8>>) -> (total: u64)
    requires
        message_bytes(payload@).len() <= u64::MAX,
    ensures
        total == message_bytes(payload@).len(),
{
    let ghost s = segs_view(payload@);
    let mut total: u64 = 0;
    let n = payload.len();
    for i in 0..n
        invariant
            n == payload@.len(),
            s == segs_view(payload@),
            s.flatten().len() <= u64::MAX,
            total == s.take(i as int).flatten().len(),
    {
        proof {
            assert(s.take(i + 1) =~= s.take(i as int).push(s[i as int]));
            s.take(i as int).lemma_flatten_push(s[i as int]);
            assert(s =~= s.take(i + 1) + s.skip(i + 1));
            lemma_flatten_concat(s.take(i + 1), s.skip(i + 1));
        }
        total = total + payload[i].len() as u64;
    }
    proof {
        assert(s.take(n as int) =~= s);
    }
    total
}

/// Flattening three segments concatenates them in order.
proof fn lemma_flatten3(a: Seq<u8>, b: Seq<u8>, c: Seq<u8>)
    ensures
        seq![a, b, c].flatten() == a + b + c,
{
    reveal_with_fuel(Seq::<_>::flatten, 5);
    assert(seq![a, b, c].drop_first() =~= seq![b, c]);
    assert(seq![b, c].drop_first() =~= seq![c]);
    assert(seq![c].drop_first() =~= Seq::<Seq<u8>>::empty());
    assert(seq![a, b, c].flatten() =~= a + b + c);
}

/// Prefix a payload with its header: three header segments carrying the
/// magic, type and length bytes, then the payload segments passed through
/// unchanged and in order, so that bulk data is never copied.
pub fn build_message(msg_type: MessageType, payload: Vec<Vec<u8>>) -> (r: Vec<Vec<u8>>)
    requires
        message_bytes(payload@).len() <= u64::MAX,
    ensures
        message_bytes(r@) == spec_frame_bytes(msg_type, message_bytes(payload@)),
        r@.len() == 3 + payload@.len(),
        r@[0]@ == seq![MESSAGE_MAGIC],
        r@[1]@ == spec_u16_to_le_bytes(msg_type.spec_code()),
        r@[2]@ == spec_u64_to_le_bytes(message_bytes(payload@).len() as u64),
        r@.subrange(3, r@.len() as int) == payload@,
{
    let ghost orig = payload@;
    let total = total_payload_size(&payload);
    let mut magic_seg: Vec<u8> = Vec::new();
    magic_seg.push(MESSAGE_MAGIC);
    let type_seg = u16_to_le_bytes(msg_type.as_u16());
    let size_seg = u64_to_le_bytes(total);
    let ghost header3 = seq![magic_seg, type_seg, size_seg];
    let mut msg: Vec<Vec<u8>> = Vec::new();
    msg.push(magic_seg);
    msg.push(type_seg);
    msg.push(size_seg);
    let mut rest = payload;
    msg.append(&mut rest);
    proof {
        assert(msg@ == header3 + orig);
        assert(segs_view(msg@) =~= segs_view(header3) + segs_view(orig));
        lemma_flatten_concat(segs_view(header3), segs_view(orig));
        assert(segs_view(header3) =~= seq![header3[0]@, header3[1]@, header3[2]@]);
        lemma_flatten3(header3[0]@, header3[1]@, header3[2]@);
        assert(header3[0]@ =~= seq![MESSAGE_MAGIC]);
        assert(message_bytes(msg@) =~= spec_frame_bytes(msg_type, message_bytes(orig)));
        assert(msg@.subrange(3, msg@.len() as int) =~= orig);
    }
    msg
}

/// An Error-typed frame whose payload is the given text, as bytes.
pub fn build_error_message(error_msg: Vec<u8>) -> (r: Vec<Vec<u8>>)
    ensures
        message_bytes(r@) == spec_frame_bytes(MessageType::Error, error_msg@),
{
    let ghost text = error_msg@;
    let text_len = error_msg.len();
    let mut payload: Vec<Vec<u8>> = Vec::new();
    payload.push(error_msg);
    proof {
        assert(segs_view(payload@) =~= seq![text]);
        segs_view(payload@).lemma_flatten_one_element();
        assert(message_bytes(payload@) == text);
        assert(usize::MAX <= u64::MAX);
    }
    build_message(MessageType::Error, payload)
}

/// Check a response frame against the type the client expects: the payload
/// when the type matches, and no further payload on a server-reported error
/// or a mismatched type, which ends the transfer loop.
pub fn unwrap_message(msg: &Vec<u8>, msg_type_expect: MessageType) -> (r: Result<
    Option<Vec<u8>>,
    FrameError,
>)
    ensures
        r is Ok <==> valid_frame(msg@),
        valid_frame(msg@) && frame_type(msg@) == msg_type_expect ==> ({
            &&& msg@.len() > SIZE_OF_HEADER ==> (r matches Ok(Some(pl)) && pl@ == frame_payload(
                msg@,
            ))
            &&& msg@.len() == SIZE_OF_HEADER ==> r matches Ok(None)
        }),
        valid_frame(msg@) && frame_type(msg@) != msg_type_expect ==> r matches Ok(None),
{
    let decoded = deconstruct_message(msg)?;
    let (msg_type, msg_payload) = decoded;
    if msg_type == msg_type_expect {
        Ok(msg_payload)
    } else {
        Ok(None)
    }
}

/// A sendable frame decodes back to the type and payload it was built from.
pub proof fn lemma_message_round_trip(msg_type: MessageType, payload: Seq<u8>)
    requires
        msg_type != MessageType::Invalid,
        payload.len() <= u64::MAX,
    ensures
        valid_frame(spec_frame_bytes(msg_type, payload)),
        frame_type(spec_frame_bytes(msg_type, payload)) == msg_type,
        frame_payload(spec_frame_bytes(msg_type, payload)) == payload,
{
    lemma_auto_spec_u16_to_from_le_bytes();
    lemma_auto_spec_u64_to_from_le_bytes();
    let b = spec_frame_bytes(msg_type, payload);
    assert(b.subrange(1, 3) =~= spec_u16_to_le_bytes(msg_type.spec_code()));
    assert(b.subrange(3, 11) =~= spec_u64_to_le_bytes(payload.len() as u64));
    assert(b.subrange(SIZE_OF_HEADER as int, b.len() as int) =~= payload);
    lemma_code_round_trip(msg_type);
}

} // verus!
