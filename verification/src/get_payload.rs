//! Download ("get") payloads: the structured-text request naming the wanted
//! file and what the client already holds, and the binary-meta-plus-raw-data
//! response carrying one chunk.

use crate::chunk::FileChunkSize;
use crate::frame::message_bytes;
use crate::payload::{
    lemma_parse_chunk_size_complete, lemma_parse_chunk_size_sound, parse_chunk_size_at,
    push_chunk_size_text, spec_chunk_size_text, spec_parse_chunk_size_at, PayloadError,
};
use crate::text::{
    is_digit, lemma_parse_string_complete, lemma_parse_string_sound, parse_lit_at,
    parse_string_at, push_bytes, push_quoted, spec_parse_lit_at, spec_parse_string_at, spec_quoted,
};
use vstd::bytes::{spec_u64_from_le_bytes, spec_u64_to_le_bytes, u64_from_le_bytes, u64_to_le_bytes};
use vstd::prelude::*;
use vstd::slice::{slice_subrange, slice_to_vec};

verus! {

/// The text `{"local_file_chunk_size":`.
pub open spec fn spec_lit_get_chunk() -> Seq<u8> {
    seq![123u8, 34u8, 108u8, 111u8, 99u8, 97u8, 108u8, 95u8, 102u8, 105u8, 108u8, 101u8, 95u8,
        99u8, 104u8, 117u8, 110u8, 107u8, 95u8, 115u8, 105u8, 122u8, 101u8, 34u8, 58u8]
}

fn lit_get_chunk() -> (r: Vec<u8>)
    ensures
        r@ == spec_lit_get_chunk(),
{
    let r: Vec<u8> = vec![123, 34, 108, 111, 99, 97, 108, 95, 102, 105, 108, 101, 95, 99, 104,
        117, 110, 107, 95, 115, 105, 122, 101, 34, 58];
    proof {
        assert(r@ =~= spec_lit_get_chunk());
    }
    r
}

/// The text `,"remote_file_path":`.
pub open spec fn spec_lit_get_path() -> Seq<u8> {
    seq![44u8, 34u8, 114u8, 101u8, 109u8, 111u8, 116u8, 101u8, 95u8, 102u8, 105u8, 108u8, 101u8,
        95u8, 112u8, 97u8, 116u8, 104u8, 34u8, 58u8]
}

fn lit_get_path() -> (r: Vec<u8>)
    ensures
        r@ == spec_lit_get_path(),
{
    let r: Vec<u8> = vec![44, 34, 114, 101, 109, 111, 116, 101, 95, 102, 105, 108, 101, 95, 112,
        97, 116, 104, 34, 58];
    proof {
        assert(r@ =~= spec_lit_get_path());
    }
    r
}

/// A download request: the file wanted from the server and the chunk
/// breakdown of whatever the client already has of it.
pub struct GetRequestPayload {
    pub remote_file_path: Vec<u8>,
    pub local_file_chunk_size: FileChunkSize,
}

/// The mathematical content of a [`GetRequestPayload`].
pub ghost struct GetRequestPayloadView {
    pub remote_file_path: Seq<u8>,
    pub local_file_chunk_size: FileChunkSize,
}

impl View for GetRequestPayload {
    type V = GetRequestPayloadView;

    open spec fn view(&self) -> GetRequestPayloadView {
        GetRequestPayloadView {
            remote_file_path: self.remote_file_path@,
            local_file_chunk_size: self.local_file_chunk_size,
        }
    }
}

/// The canonical text form of a download request.
pub open spec fn spec_get_request_text(g: GetRequestPayloadView) -> Seq<u8> {
    spec_lit_get_chunk() + spec_chunk_size_text(g.local_file_chunk_size) + spec_lit_get_path()
        + spec_quoted(g.remote_file_path) + seq![125u8]
}

/// The deterministic scan of download request text.
pub open spec fn spec_parse_get_request(b: Seq<u8>) -> Option<GetRequestPayloadView> {
    match spec_parse_lit_at(b, 0, spec_lit_get_chunk()) {
        None => None,
        Some(p1) => match spec_parse_chunk_size_at(b, p1) {
            None => None,
            Some((c, p2)) => match spec_parse_lit_at(b, p2, spec_lit_get_path()) {
                None => None,
                Some(p3) => match spec_parse_string_at(b, p3) {
                    None => None,
                    Some((path, p4)) => if p4 < b.len() && b[p4] == 125 && p4 + 1 == b.len() {
                        Some(
                            GetRequestPayloadView {
                                remote_file_path: path,
                                local_file_chunk_size: c,
                            },
                        )
                    } else {
                        None
                    },
                },
            },
        },
    }
}

impl GetRequestPayload {
    pub fn new(remote_file_path: Vec<u8>, local_file_chunk_size: FileChunkSize) -> (r: Self)
        ensures
            r@ == (GetRequestPayloadView {
                remote_file_path: remote_file_path@,
                local_file_chunk_size,
            }),
    {
        GetRequestPayload { remote_file_path, local_file_chunk_size }
    }

    /// Emit the canonical text form.
    pub fn to_text(&self) -> (r: Vec<u8>)
        ensures
            r@ == spec_get_request_text(self@),
    {
        let mut out: Vec<u8> = Vec::new();
        let l1 = lit_get_chunk();
        push_bytes(&mut out, &l1);
        push_chunk_size_text(&mut out, &self.local_file_chunk_size);
        let l2 = lit_get_path();
        push_bytes(&mut out, &l2);
        push_quoted(&mut out, &self.remote_file_path);
        out.push(125);
        proof {
            assert(out@ =~= spec_get_request_text(self@));
        }
        out
    }

    /// Read a request back from its canonical text form; any other input is
    /// malformed.
    pub fn from_text(input: &Vec<u8>) -> (r: Result<Self, PayloadError>)
        ensures
            match spec_parse_get_request(input@) {
                Some(g) => r matches Ok(v) && v@ == g,
                None => r == Err::<GetRequestPayload, PayloadError>(PayloadError::Malformed),
            },
    {
        let l1 = lit_get_chunk();
        let p1 = match parse_lit_at(input, 0, &l1) {
            Some(p) => p,
            None => {
                return Err(PayloadError::Malformed);
            },
        };
        let (c, p2) = match parse_chunk_size_at(input, p1) {
            Some(x) => x,
            None => {
                return Err(PayloadError::Malformed);
            },
        };
        let l2 = lit_get_path();
        let p3 = match parse_lit_at(input, p2, &l2) {
            Some(p) => p,
            None => {
                return Err(PayloadError::Malformed);
            },
        };
        let (path, p4) = match parse_string_at(input, p3) {
            Some(x) => x,
            None => {
                return Err(PayloadError::Malformed);
            },
        };
        if p4 >= input.len() || input[p4] != 125 || p4 + 1 != input.len() {
            return Err(PayloadError::Malformed);
        }
        Ok(GetRequestPayload { remote_file_path: path, local_file_chunk_size: c })
    }
}

/// Download request text that scans back is exactly the canonical text of
/// what it scans to.
pub proof fn lemma_get_request_text_sound(b: Seq<u8>)
    requires
        spec_parse_get_request(b) is Some,
    ensures
        b == spec_get_request_text(spec_parse_get_request(b)->Some_0),
{
    let l1 = spec_lit_get_chunk();
    let p1 = spec_parse_lit_at(b, 0, l1)->Some_0;
    let (c, p2) = spec_parse_chunk_size_at(b, p1)->Some_0;
    lemma_parse_chunk_size_sound(b, p1);
    let l2 = spec_lit_get_path();
    let p3 = spec_parse_lit_at(b, p2, l2)->Some_0;
    let (path, p4) = spec_parse_string_at(b, p3)->Some_0;
    lemma_parse_string_sound(b, p3);
    assert(b.subrange(p4, b.len() as int) =~= seq![125u8]);
    assert(b =~= b.subrange(0, p1) + b.subrange(p1, p2) + b.subrange(p2, p3) + b.subrange(p3, p4)
        + b.subrange(p4, b.len() as int));
    assert(b =~= spec_get_request_text(spec_parse_get_request(b)->Some_0));
}

/// The canonical text of a download request scans back to the request
/// itself.
pub proof fn lemma_get_request_text_complete(g: GetRequestPayloadView)
    ensures
        spec_parse_get_request(spec_get_request_text(g)) == Some(g),
{
    let b = spec_get_request_text(g);
    let l1 = spec_lit_get_chunk();
    let ct = spec_chunk_size_text(g.local_file_chunk_size);
    let l2 = spec_lit_get_path();
    let qt = spec_quoted(g.remote_file_path);
    let p1 = l1.len() as int;
    let p2 = p1 + ct.len();
    let p3 = p2 + l2.len();
    let p4 = p3 + qt.len();
    assert(b.len() == p4 + 1);
    assert(b.subrange(0, p1) =~= l1);
    assert(b.subrange(p1, p2) =~= ct);
    assert(b.subrange(p2, p3) =~= l2);
    assert(b.subrange(p3, p4) =~= qt);
    assert(b[p4] == 125);
    assert(spec_parse_lit_at(b, 0, l1) == Some(p1));
    lemma_parse_chunk_size_complete(b, p1, g.local_file_chunk_size);
    assert(spec_parse_lit_at(b, p2, l2) == Some(p3));
    lemma_parse_string_complete(b, p3, g.remote_file_path);
    assert(spec_parse_get_request(b) == Some(g));
}

/// The fixed-width metadata of a download response: the remote file's chunk
/// breakdown and the index of the chunk this response carries.
#[derive(Clone, Copy, Debug, PartialEq, Eq, Structural)]
pub struct GetResponseMeta {
    pub remote_file_chunk_size: FileChunkSize,
    pub curr_trans_trunk_index: u64,
}

/// The 24 metadata bytes of a download response: chunk count, remainder and
/// chunk index, each as eight little-endian bytes.
pub open spec fn spec_get_meta_bytes(m: GetResponseMeta) -> Seq<u8> {
    spec_u64_to_le_bytes(m.remote_file_chunk_size.0) + spec_u64_to_le_bytes(
        m.remote_file_chunk_size.1 as u64,
    ) + spec_u64_to_le_bytes(m.curr_trans_trunk_index)
}

/// The bytes of a whole download response payload.
pub open spec fn spec_get_response_bytes(m: GetResponseMeta, data: Seq<u8>) -> Seq<u8> {
    spec_get_meta_bytes(m) + data
}

impl GetResponseMeta {
    pub fn new(remote_file_chunk_size: FileChunkSize, curr_trans_trunk_index: u64) -> (r: Self)
        ensures
            r == (GetResponseMeta { remote_file_chunk_size, curr_trans_trunk_index }),
    {
        GetResponseMeta { remote_file_chunk_size, curr_trans_trunk_index }
    }

    /// Emit the 24 metadata bytes.
    pub fn to_bytes(&self) -> (r: Vec<u8>)
        ensures
            r@ == spec_get_meta_bytes(*self),
    {
        proof {
            assert(usize::MAX <= u64::MAX);
        }
        let mut out = u64_to_le_bytes(self.remote_file_chunk_size.total_chunks());
        let rest = u64_to_le_bytes(self.remote_file_chunk_size.rest_size() as u64);
        push_bytes(&mut out, &rest);
        let idx = u64_to_le_bytes(self.curr_trans_trunk_index);
        push_bytes(&mut out, &idx);
        proof {
            assert(out@ =~= spec_get_meta_bytes(*self));
        }
        out
    }
}

/// A download response as the server assembles it: metadata plus the raw
/// chunk bytes.
pub struct GetResponsePayload {
    pub meta: GetResponseMeta,
    pub data: Vec<u8>,
}

impl GetResponsePayload {
    pub fn new(meta: GetResponseMeta, data: Vec<u8>) -> (r: Self)
        ensures
            r.meta == meta,
            r.data@ == data@,
    {
        GetResponsePayload { meta, data }
    }

    /// The payload as wire segments: the 24 metadata bytes, then the raw
    /// chunk bytes untouched.
    pub fn to_payload(self) -> (r: Vec<Vec<u8>>)
        ensures
            message_bytes(r@) == spec_get_response_bytes(self.meta, self.data@),
            r@.len() == 2,
            r@[0]@ == spec_get_meta_bytes(self.meta),
            r@[1]@ == self.data@,
    {
        let head = self.meta.to_bytes();
        let ghost hv = head@;
        let ghost dv = self.data@;
        let mut segments: Vec<Vec<u8>> = Vec::new();
        segments.push(head);
        segments.push(self.data);
        proof {
            assert(crate::frame::segs_view(segments@) =~= seq![hv, dv]);
            assert(seq![hv].push(dv) =~= seq![hv, dv]);
            seq![hv].lemma_flatten_push(dv);
            assert(seq![hv].flatten() =~= hv) by {
                seq![hv].lemma_flatten_one_element();
            }
            assert(message_bytes(segments@) =~= spec_get_response_bytes(self.meta, dv));
        }
        segments
    }
}

/// A download response as the client reads it: metadata and the chunk bytes
/// that followed.
pub struct GetResponsePayloadRef {
    pub meta: GetResponseMeta,
    pub data: Vec<u8>,
}

impl GetResponsePayloadRef {
    pub fn new(meta: GetResponseMeta, data: Vec<u8>) -> (r: Self)
        ensures
            r.meta == meta,
            r.data@ == data@,
    {
        GetResponsePayloadRef { meta, data }
    }

    /// Split a download response payload into metadata and data.  Fails when
    /// fewer than the 24 metadata bytes are present, or when the remainder
    /// field does not fit this platform's sizes.
    pub fn from_payload(payload: &Vec<u8>) -> (r: Result<Self, PayloadError>)
        ensures
            payload@.len() < 24 ==> r == Err::<GetResponsePayloadRef, PayloadError>(
                PayloadError::TooShort,
            ),
            payload@.len() >= 24 ==> ({
                let total = spec_u64_from_le_bytes(payload@.subrange(0, 8));
                let rest = spec_u64_from_le_bytes(payload@.subrange(8, 16));
                let curr = spec_u64_from_le_bytes(payload@.subrange(16, 24));
                &&& rest > usize::MAX ==> r == Err::<GetResponsePayloadRef, PayloadError>(
                    PayloadError::Malformed,
                )
                &&& rest <= usize::MAX ==> (r matches Ok(v) && v.meta == (GetResponseMeta {
                    remote_file_chunk_size: FileChunkSize(total, rest as usize),
                    curr_trans_trunk_index: curr,
                }) && v.data@ == payload@.subrange(24, payload@.len() as int))
            }),
    {
        if payload.len() < 24 {
            return Err(PayloadError::TooShort);
        }
        let total = u64_from_le_bytes(slice_subrange(payload.as_slice(), 0, 8));
        let rest = u64_from_le_bytes(slice_subrange(payload.as_slice(), 8, 16));
        let curr = u64_from_le_bytes(slice_subrange(payload.as_slice(), 16, 24));
        if rest > usize::MAX as u64 {
            return Err(PayloadError::Malformed);
        }
        let meta = GetResponseMeta {
            remote_file_chunk_size: FileChunkSize::new(total, rest as usize),
            curr_trans_trunk_index: curr,
        };
        let data = slice_to_vec(slice_subrange(payload.as_slice(), 24, payload.len()));
        Ok(GetResponsePayloadRef { meta, data })
    }
}

/// A download response payload splits back into the metadata and data it was
/// built from.
pub proof fn lemma_get_response_round_trip(m: GetResponseMeta, data: Seq<u8>)
    ensures
        ({
            let b = spec_get_response_bytes(m, data);
            &&& b.len() == 24 + data.len()
            &&& spec_u64_from_le_bytes(b.subrange(0, 8)) == m.remote_file_chunk_size.0
            &&& spec_u64_from_le_bytes(b.subrange(8, 16)) == m.remote_file_chunk_size.1 as u64
            &&& spec_u64_from_le_bytes(b.subrange(16, 24)) == m.curr_trans_trunk_index
            &&& b.subrange(24, b.len() as int) == data
        }),
{
    vstd::bytes::lemma_auto_spec_u64_to_from_le_bytes();
    let b = spec_get_response_bytes(m, data);
    assert(b.subrange(0, 8) =~= spec_u64_to_le_bytes(m.remote_file_chunk_size.0));
    assert(b.subrange(8, 16) =~= spec_u64_to_le_bytes(m.remote_file_chunk_size.1 as u64));
    assert(b.subrange(16, 24) =~= spec_u64_to_le_bytes(m.curr_trans_trunk_index));
    assert(b.subrange(24, b.len() as int) =~= data);
}

} // verus!
