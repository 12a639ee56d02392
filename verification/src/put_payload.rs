//! Upload ("put") payloads: the per-round request metadata as structured
//! text, the length-prefixed-text-plus-raw-data request payload, and the
//! structured-text response payload.

use crate::chunk::FileChunkSize;
use crate::frame::message_bytes;
use crate::payload::{
    lemma_parse_chunk_size_complete, lemma_parse_chunk_size_sound, parse_bool_at,
    parse_chunk_size_at, push_chunk_size_text, spec_bool_text, spec_chunk_size_text, spec_lit_true,
    spec_lit_false, spec_parse_bool_at, spec_parse_chunk_size_at, PayloadError,
};
use crate::text::{
    is_digit, lemma_parse_string_complete, lemma_parse_string_sound, lemma_parse_u64_complete,
    lemma_parse_u64_sound, parse_lit_at, parse_string_at, parse_u64_at, push_bytes, push_dec_u64,
    push_quoted, spec_dec_digits, spec_parse_lit_at, spec_parse_string_at, spec_parse_u64_at,
    spec_quoted,
};
use vstd::bytes::{spec_u64_from_le_bytes, spec_u64_to_le_bytes, u64_from_le_bytes, u64_to_le_bytes};
use vstd::prelude::*;
use vstd::slice::{slice_subrange, slice_to_vec};

verus! {

/// The text `{"curr_trans_trunk_index":`.
pub open spec fn spec_lit_meta_index() -> Seq<u8> {
    seq![123u8, 34u8, 99u8, 117u8, 114u8, 114u8, 95u8, 116u8, 114u8, 97u8, 110u8, 115u8, 95u8,
        116u8, 114u8, 117u8, 110u8, 107u8, 95u8, 105u8, 110u8, 100u8, 101u8, 120u8, 34u8, 58u8]
}

fn lit_meta_index() -> (r: Vec<u8>)
    ensures
        r@ == spec_lit_meta_index(),
{
    let r: Vec<u8> = vec![123, 34, 99, 117, 114, 114, 95, 116, 114, 97, 110, 115, 95, 116, 114,
        117, 110, 107, 95, 105, 110, 100, 101, 120, 34, 58];
    proof {
        assert(r@ =~= spec_lit_meta_index());
    }
    r
}

/// The text `,"file_name":`.
pub open spec fn spec_lit_meta_file_name() -> Seq<u8> {
    seq![44u8, 34u8, 102u8, 105u8, 108u8, 101u8, 95u8, 110u8, 97u8, 109u8, 101u8, 34u8, 58u8]
}

fn lit_meta_file_name() -> (r: Vec<u8>)
    ensures
        r@ == spec_lit_meta_file_name(),
{
    let r: Vec<u8> = vec![44, 34, 102, 105, 108, 101, 95, 110, 97, 109, 101, 34, 58];
    proof {
        assert(r@ =~= spec_lit_meta_file_name());
    }
    r
}

/// The text `,"is_done":`.
pub open spec fn spec_lit_meta_is_done() -> Seq<u8> {
    seq![44u8, 34u8, 105u8, 115u8, 95u8, 100u8, 111u8, 110u8, 101u8, 34u8, 58u8]
}

fn lit_meta_is_done() -> (r: Vec<u8>)
    ensures
        r@ == spec_lit_meta_is_done(),
{
    let r: Vec<u8> = vec![44, 34, 105, 115, 95, 100, 111, 110, 101, 34, 58];
    proof {
        assert(r@ =~= spec_lit_meta_is_done());
    }
    r
}

/// The text `,"remote_dir":`.
pub open spec fn spec_lit_meta_remote_dir() -> Seq<u8> {
    seq![44u8, 34u8, 114u8, 101u8, 109u8, 111u8, 116u8, 101u8, 95u8, 100u8, 105u8, 114u8, 34u8,
        58u8]
}

fn lit_meta_remote_dir() -> (r: Vec<u8>)
    ensures
        r@ == spec_lit_meta_remote_dir(),
{
    let r: Vec<u8> = vec![44, 34, 114, 101, 109, 111, 116, 101, 95, 100, 105, 114, 34, 58];
    proof {
        assert(r@ =~= spec_lit_meta_remote_dir());
    }
    r
}

/// Metadata the client sends with every upload request: destination name and
/// directory, the chunk index this round writes, and whether the transfer is
/// finished.  Rebuilt by the client each round from the previous response.
pub struct PutRequestMeta {
    pub file_name: Vec<u8>,
    pub remote_dir: Vec<u8>,
    pub curr_trans_trunk_index: u64,
    pub is_done: bool,
}

/// The mathematical content of a [`PutRequestMeta`].
pub ghost struct PutRequestMetaView {
    pub file_name: Seq<u8>,
    pub remote_dir: Seq<u8>,
    pub curr_trans_trunk_index: u64,
    pub is_done: bool,
}

impl View for PutRequestMeta {
    type V = PutRequestMetaView;

    open spec fn view(&self) -> PutRequestMetaView {
        PutRequestMetaView {
            file_name: self.file_name@,
            remote_dir: self.remote_dir@,
            curr_trans_trunk_index: self.curr_trans_trunk_index,
            is_done: self.is_done,
        }
    }
}

/// The canonical text form of upload metadata.
pub open spec fn spec_put_meta_text(m: PutRequestMetaView) -> Seq<u8> {
    spec_lit_meta_index() + spec_dec_digits(m.curr_trans_trunk_index as nat)
        + spec_lit_meta_file_name() + spec_quoted(m.file_name) + spec_lit_meta_is_done()
        + spec_bool_text(m.is_done) + spec_lit_meta_remote_dir() + spec_quoted(m.remote_dir)
        + seq![125u8]
}

/// The deterministic scan of upload metadata text: each field in order, then
/// the closing brace ending the input.
pub open spec fn spec_parse_put_meta(b: Seq<u8>) -> Option<PutRequestMetaView> {
    match spec_parse_lit_at(b, 0, spec_lit_meta_index()) {
        None => None,
        Some(p1) => match spec_parse_u64_at(b, p1) {
            None => None,
            Some((idx, p2)) => match spec_parse_lit_at(b, p2, spec_lit_meta_file_name()) {
                None => None,
                Some(p3) => match spec_parse_string_at(b, p3) {
                    None => None,
                    Some((fname, p4)) => match spec_parse_lit_at(b, p4, spec_lit_meta_is_done()) {
                        None => None,
                        Some(p5) => match spec_parse_bool_at(b, p5) {
                            None => None,
                            Some((done, p6)) => match spec_parse_lit_at(
                                b,
                                p6,
                                spec_lit_meta_remote_dir(),
                            ) {
                                None => None,
                                Some(p7) => match spec_parse_string_at(b, p7) {
                                    None => None,
                                    Some((rdir, p8)) => if p8 < b.len() && b[p8] == 125 && p8 + 1
                                        == b.len() {
                                        Some(
                                            PutRequestMetaView {
                                                file_name: fname,
                                                remote_dir: rdir,
                                                curr_trans_trunk_index: idx,
                                                is_done: done,
                                            },
                                        )
                                    } else {
                                        None
                                    },
                                },
                            },
                        },
                    },
                },
            },
        },
    }
}

impl PutRequestMeta {
    /// Fresh metadata for a new upload: chunk index 0, not yet done.
    pub fn new(file_name: Vec<u8>, remote_dir: Vec<u8>) -> (r: Self)
        ensures
            r@ == (PutRequestMetaView {
                file_name: file_name@,
                remote_dir: remote_dir@,
                curr_trans_trunk_index: 0,
                is_done: false,
            }),
    {
        PutRequestMeta { file_name, remote_dir, curr_trans_trunk_index: 0, is_done: false }
    }

    /// Emit the canonical text form.
    pub fn to_text(&self) -> (r: Vec<u8>)
        ensures
            r@ == spec_put_meta_text(self@),
    {
        let mut out: Vec<u8> = Vec::new();
        let l1 = lit_meta_index();
        push_bytes(&mut out, &l1);
        push_dec_u64(&mut out, self.curr_trans_trunk_index);
        let l2 = lit_meta_file_name();
        push_bytes(&mut out, &l2);
        push_quoted(&mut out, &self.file_name);
        let l3 = lit_meta_is_done();
        push_bytes(&mut out, &l3);
        let b = if self.is_done {
            crate::payload::lit_true()
        } else {
            crate::payload::lit_false()
        };
        push_bytes(&mut out, &b);
        let l4 = lit_meta_remote_dir();
        push_bytes(&mut out, &l4);
        push_quoted(&mut out, &self.remote_dir);
        out.push(125);
        proof {
            assert(out@ =~= spec_put_meta_text(self@));
        }
        out
    }

    /// Read metadata back from its canonical text form; any other input is
    /// malformed.
    pub fn from_text(input: &Vec<u8>) -> (r: Result<Self, PayloadError>)
        ensures
            match spec_parse_put_meta(input@) {
                Some(m) => r matches Ok(v) && v@ == m,
                None => r == Err::<PutRequestMeta, PayloadError>(PayloadError::Malformed),
            },
    {
        let l1 = lit_meta_index();
        let p1 = match parse_lit_at(input, 0, &l1) {
            Some(p) => p,
            None => {
                return Err(PayloadError::Malformed);
            },
        };
        let (idx, p2) = match parse_u64_at(input, p1) {
            Some(x) => x,
            None => {
                return Err(PayloadError::Malformed);
            },
        };
        let l2 = lit_meta_file_name();
        let p3 = match parse_lit_at(input, p2, &l2) {
            Some(p) => p,
            None => {
                return Err(PayloadError::Malformed);
            },
        };
        let (fname, p4) = match parse_string_at(input, p3) {
            Some(x) => x,
            None => {
                return Err(PayloadError::Malformed);
            },
        };
        let l3 = lit_meta_is_done();
        let p5 = match parse_lit_at(input, p4, &l3) {
            Some(p) => p,
            None => {
                return Err(PayloadError::Malformed);
            },
        };
        let (done, p6) = match parse_bool_at(input, p5) {
            Some(x) => x,
            None => {
                return Err(PayloadError::Malformed);
            },
        };
        let l4 = lit_meta_remote_dir();
        let p7 = match parse_lit_at(input, p6, &l4) {
            Some(p) => p,
            None => {
                return Err(PayloadError::Malformed);
            },
        };
        let (rdir, p8) = match parse_string_at(input, p7) {
            Some(x) => x,
            None => {
                return Err(PayloadError::Malformed);
            },
        };
        if p8 >= input.len() || input[p8] != 125 || p8 + 1 != input.len() {
            return Err(PayloadError::Malformed);
        }
        Ok(
            PutRequestMeta {
                file_name: fname,
                remote_dir: rdir,
                curr_trans_trunk_index: idx,
                is_done: done,
            },
        )
    }
}

/// Metadata text that scans back is exactly the canonical text of what it
/// scans to.
pub proof fn lemma_put_meta_text_sound(b: Seq<u8>)
    requires
        spec_parse_put_meta(b) is Some,
    ensures
        b == spec_put_meta_text(spec_parse_put_meta(b)->Some_0),
{
    let m = spec_parse_put_meta(b)->Some_0;
    let l1 = spec_lit_meta_index();
    let p1 = spec_parse_lit_at(b, 0, l1)->Some_0;
    let (idx, p2) = spec_parse_u64_at(b, p1)->Some_0;
    lemma_parse_u64_sound(b, p1);
    let l2 = spec_lit_meta_file_name();
    let p3 = spec_parse_lit_at(b, p2, l2)->Some_0;
    let (fname, p4) = spec_parse_string_at(b, p3)->Some_0;
    lemma_parse_string_sound(b, p3);
    let l3 = spec_lit_meta_is_done();
    let p5 = spec_parse_lit_at(b, p4, l3)->Some_0;
    let (done, p6) = spec_parse_bool_at(b, p5)->Some_0;
    let l4 = spec_lit_meta_remote_dir();
    let p7 = spec_parse_lit_at(b, p6, l4)->Some_0;
    let (rdir, p8) = spec_parse_string_at(b, p7)->Some_0;
    lemma_parse_string_sound(b, p7);
    assert(b.subrange(p5, p6) == spec_bool_text(done));
    assert(b.subrange(p8, b.len() as int) =~= seq![125u8]);
    assert(b =~= b.subrange(0, p1) + b.subrange(p1, p2) + b.subrange(p2, p3) + b.subrange(p3, p4)
        + b.subrange(p4, p5) + b.subrange(p5, p6) + b.subrange(p6, p7) + b.subrange(p7, p8)
        + b.subrange(p8, b.len() as int));
    assert(b =~= spec_put_meta_text(m));
}

/// The canonical text of upload metadata scans back to the metadata itself.
#[verifier::spinoff_prover]
#[verifier::rlimit(60)]
pub proof fn lemma_put_meta_text_complete(m: PutRequestMetaView)
    ensures
        spec_parse_put_meta(spec_put_meta_text(m)) == Some(m),
{
    let b = spec_put_meta_text(m);
    let l1 = spec_lit_meta_index();
    let dd = spec_dec_digits(m.curr_trans_trunk_index as nat);
    let l2 = spec_lit_meta_file_name();
    let q1 = spec_quoted(m.file_name);
    let l3 = spec_lit_meta_is_done();
    let bt = spec_bool_text(m.is_done);
    let l4 = spec_lit_meta_remote_dir();
    let q2 = spec_quoted(m.remote_dir);
    let p1 = l1.len() as int;
    let p2 = p1 + dd.len();
    let p3 = p2 + l2.len();
    let p4 = p3 + q1.len();
    let p5 = p4 + l3.len();
    let p6 = p5 + bt.len();
    let p7 = p6 + l4.len();
    let p8 = p7 + q2.len();
    assert(b.len() == p8 + 1);
    assert(b.subrange(0, p1) =~= l1);
    assert(b.subrange(p1, p2) =~= dd);
    assert(b.subrange(p2, p3) =~= l2);
    assert(b.subrange(p3, p4) =~= q1);
    assert(b.subrange(p4, p5) =~= l3);
    assert(b.subrange(p5, p6) =~= bt);
    assert(b.subrange(p6, p7) =~= l4);
    assert(b.subrange(p7, p8) =~= q2);
    assert(b[p8] == 125);
    assert(spec_parse_lit_at(b, 0, l1) == Some(p1));
    assert(b[p2] == l2[0] && l2[0] == 44 && !is_digit(44));
    assert(b.subrange(p1, p1 + dd.len()) == dd);
    lemma_parse_u64_complete(b, p1, m.curr_trans_trunk_index);
    assert(spec_parse_lit_at(b, p2, l2) == Some(p3));
    lemma_parse_string_complete(b, p3, m.file_name);
    assert(spec_parse_lit_at(b, p4, l3) == Some(p5));
    if m.is_done {
        assert(b.subrange(p5, p5 + spec_lit_true().len()) == spec_lit_true());
        assert(spec_parse_bool_at(b, p5) == Some((true, p6)));
    } else {
        assert(b.subrange(p5, p6) == spec_lit_false());
        if p5 + spec_lit_true().len() <= b.len() {
            assert(b.subrange(p5, p5 + spec_lit_true().len())[0] == b[p5]);
            assert(b[p5] == spec_lit_false()[0]);
            assert(b.subrange(p5, p5 + spec_lit_true().len()) != spec_lit_true());
        }
        assert(spec_parse_lit_at(b, p5, spec_lit_true()) is None);
        assert(spec_parse_bool_at(b, p5) == Some((false, p6)));
    }
    assert(spec_parse_lit_at(b, p6, l4) == Some(p7));
    lemma_parse_string_complete(b, p7, m.remote_dir);
    assert(spec_parse_put_meta(b) == Some(m));
}

/// The bytes of an upload request payload: the metadata text length as eight
/// little-endian bytes, the metadata text, then the raw chunk bytes.
pub open spec fn spec_put_request_bytes(m: PutRequestMetaView, data: Seq<u8>) -> Seq<u8> {
    spec_u64_to_le_bytes(spec_put_meta_text(m).len() as u64) + spec_put_meta_text(m) + data
}

/// An upload request as the client assembles it: metadata plus an optional
/// raw data segment.
pub struct PutRequestPayload {
    pub meta: PutRequestMeta,
    pub data: Option<Vec<u8>>,
}

impl PutRequestPayload {
    pub fn new(meta: PutRequestMeta, data: Option<Vec<u8>>) -> (r: Self)
        ensures
            r.meta@ == meta@,
            r.data == data,
    {
        PutRequestPayload { meta, data }
    }

    /// The payload as wire segments: one segment with the length-prefixed
    /// metadata text, and the raw data segment, untouched, when there is
    /// one.
    pub fn to_payload(self) -> (r: Vec<Vec<u8>>)
        ensures
            message_bytes(r@) == spec_put_request_bytes(
                self.meta@,
                match self.data {
                    Some(d) => d@,
                    None => Seq::empty(),
                },
            ),
            r@.len() == if self.data is Some {
                2int
            } else {
                1int
            },
            r@[0]@ == spec_u64_to_le_bytes(spec_put_meta_text(self.meta@).len() as u64)
                + spec_put_meta_text(self.meta@),
            self.data matches Some(d) ==> r@[1]@ == d@,
    {
        let meta_text = self.meta.to_text();
        let mut buffer = u64_to_le_bytes(meta_text.len() as u64);
        proof {
            assert(usize::MAX <= u64::MAX);
        }
        push_bytes(&mut buffer, &meta_text);
        let mut segments: Vec<Vec<u8>> = Vec::new();
        let ghost head = buffer@;
        segments.push(buffer);
        match self.data {
            Some(d) => {
                let ghost dv = d@;
                segments.push(d);
                proof {
                    assert(crate::frame::segs_view(segments@) =~= seq![head, dv]);
                    crate::frame::segs_view(segments@).lemma_flatten_one_element();
                    assert(seq![head].push(dv) =~= seq![head, dv]);
                    seq![head].lemma_flatten_push(dv);
                    assert(seq![head].flatten() =~= head) by {
                        seq![head].lemma_flatten_one_element();
                    }
                    assert(message_bytes(segments@) =~= spec_put_request_bytes(self.meta@, dv));
                }
            },
            None => {
                proof {
                    assert(crate::frame::segs_view(segments@) =~= seq![head]);
                    crate::frame::segs_view(segments@).lemma_flatten_one_element();
                    assert(message_bytes(segments@) =~= spec_put_request_bytes(
                        self.meta@,
                        Seq::empty(),
                    ));
                }
            },
        }
        segments
    }
}

/// An upload request as the server reads it: metadata and the raw chunk
/// bytes that followed it.
pub struct PutRequestPayloadRef {
    pub meta: PutRequestMeta,
    pub data: Vec<u8>,
}

impl PutRequestPayloadRef {
    pub fn new(meta: PutRequestMeta, data: Vec<u8>) -> (r: Self)
        ensures
            r.meta@ == meta@,
            r.data@ == data@,
    {
        PutRequestPayloadRef { meta, data }
    }

    /// Split an upload request payload into metadata and data.  Fails when
    /// fewer than eight bytes are present, when the declared text length
    /// exceeds the remaining payload, or when the text is not canonical
    /// metadata.
    pub fn from_payload(payload: &Vec<u8>) -> (r: Result<Self, PayloadError>)
        ensures
            payload@.len() < 8 ==> r == Err::<PutRequestPayloadRef, PayloadError>(
                PayloadError::TooShort,
            ),
            payload@.len() >= 8 ==> ({
                let msize = spec_u64_from_le_bytes(payload@.subrange(0, 8));
                &&& msize > payload@.len() - 8 ==> r == Err::<PutRequestPayloadRef, PayloadError>(
                    PayloadError::MetaOverrun,
                )
                &&& msize <= payload@.len() - 8 ==> match spec_parse_put_meta(
                    payload@.subrange(8, 8 + msize),
                ) {
                    Some(m) => r matches Ok(v) && v.meta@ == m && v.data@ == payload@.subrange(
                        8 + msize,
                        payload@.len() as int,
                    ),
                    None => r == Err::<PutRequestPayloadRef, PayloadError>(PayloadError::Malformed),
                }
            }),
    {
        if payload.len() < 8 {
            return Err(PayloadError::TooShort);
        }
        let size_bytes = slice_subrange(payload.as_slice(), 0, 8);
        let meta_size = u64_from_le_bytes(size_bytes);
        if meta_size > (payload.len() - 8) as u64 {
            return Err(PayloadError::MetaOverrun);
        }
        let meta_size = meta_size as usize;
        let meta_bytes = slice_to_vec(slice_subrange(payload.as_slice(), 8, 8 + meta_size));
        let meta = match PutRequestMeta::from_text(&meta_bytes) {
            Ok(m) => m,
            Err(e) => {
                return Err(e);
            },
        };
        let data = slice_to_vec(slice_subrange(payload.as_slice(), 8 + meta_size, payload.len()));
        Ok(PutRequestPayloadRef { meta, data })
    }
}

/// An upload request payload splits back into the metadata and data it was
/// built from: the length field names exactly the metadata text.
pub proof fn lemma_put_request_bytes_splits(m: PutRequestMetaView, data: Seq<u8>)
    requires
        spec_put_meta_text(m).len() <= u64::MAX,
    ensures
        ({
            let b = spec_put_request_bytes(m, data);
            let text = spec_put_meta_text(m);
            &&& b.len() == 8 + text.len() + data.len()
            &&& spec_u64_from_le_bytes(b.subrange(0, 8)) == text.len()
            &&& b.subrange(8, 8 + text.len() as int) == text
            &&& b.subrange(8 + text.len() as int, b.len() as int) == data
        }),
{
    vstd::bytes::lemma_auto_spec_u64_to_from_le_bytes();
    let b = spec_put_request_bytes(m, data);
    let text = spec_put_meta_text(m);
    assert(b.subrange(0, 8) =~= spec_u64_to_le_bytes(text.len() as u64));
    assert(b.subrange(8, 8 + text.len() as int) =~= text);
    assert(b.subrange(8 + text.len() as int, b.len() as int) =~= data);
}

/// The text `{"is_done":`.
pub open spec fn spec_lit_resp_is_done() -> Seq<u8> {
    seq![123u8, 34u8, 105u8, 115u8, 95u8, 100u8, 111u8, 110u8, 101u8, 34u8, 58u8]
}

fn lit_resp_is_done() -> (r: Vec<u8>)
    ensures
        r@ == spec_lit_resp_is_done(),
{
    let r: Vec<u8> = vec![123, 34, 105, 115, 95, 100, 111, 110, 101, 34, 58];
    proof {
        assert(r@ =~= spec_lit_resp_is_done());
    }
    r
}

/// The text `,"remote_file_chunk_size":`.
pub open spec fn spec_lit_resp_chunk() -> Seq<u8> {
    seq![44u8, 34u8, 114u8, 101u8, 109u8, 111u8, 116u8, 101u8, 95u8, 102u8, 105u8, 108u8, 101u8,
        95u8, 99u8, 104u8, 117u8, 110u8, 107u8, 95u8, 115u8, 105u8, 122u8, 101u8, 34u8, 58u8]
}

fn lit_resp_chunk() -> (r: Vec<u8>)
    ensures
        r@ == spec_lit_resp_chunk(),
{
    let r: Vec<u8> = vec![44, 34, 114, 101, 109, 111, 116, 101, 95, 102, 105, 108, 101, 95, 99,
        104, 117, 110, 107, 95, 115, 105, 122, 101, 34, 58];
    proof {
        assert(r@ =~= spec_lit_resp_chunk());
    }
    r
}

/// The server's answer to every upload request: the destination file's chunk
/// breakdown after this round's write, or the final word that the transfer
/// is done.
#[derive(Clone, Copy, Debug, PartialEq, Eq, Structural)]
pub struct PutResponsePayload {
    pub remote_file_chunk_size: FileChunkSize,
    pub is_done: bool,
}

/// The canonical text form of an upload response.
pub open spec fn spec_put_response_text(p: PutResponsePayload) -> Seq<u8> {
    spec_lit_resp_is_done() + spec_bool_text(p.is_done) + spec_lit_resp_chunk()
        + spec_chunk_size_text(p.remote_file_chunk_size) + seq![125u8]
}

/// The deterministic scan of upload response text.
pub open spec fn spec_parse_put_response(b: Seq<u8>) -> Option<PutResponsePayload> {
    match spec_parse_lit_at(b, 0, spec_lit_resp_is_done()) {
        None => None,
        Some(p1) => match spec_parse_bool_at(b, p1) {
            None => None,
            Some((done, p2)) => match spec_parse_lit_at(b, p2, spec_lit_resp_chunk()) {
                None => None,
                Some(p3) => match spec_parse_chunk_size_at(b, p3) {
                    None => None,
                    Some((c, p4)) => if p4 < b.len() && b[p4] == 125 && p4 + 1 == b.len() {
                        Some(PutResponsePayload { remote_file_chunk_size: c, is_done: done })
                    } else {
                        None
                    },
                },
            },
        },
    }
}

impl PutResponsePayload {
    /// A response in mid-transfer: the file's current breakdown, not done.
    pub fn new(remote_file_chunk_size: FileChunkSize) -> (r: Self)
        ensures
            r == (PutResponsePayload { remote_file_chunk_size, is_done: false }),
    {
        PutResponsePayload { remote_file_chunk_size, is_done: false }
    }

    /// The terminal response: done, with an empty breakdown.
    pub fn finish() -> (r: Self)
        ensures
            r == (PutResponsePayload {
                remote_file_chunk_size: FileChunkSize(0u64, 0usize),
                is_done: true,
            }),
    {
        PutResponsePayload { remote_file_chunk_size: FileChunkSize::new(0, 0), is_done: true }
    }

    /// Emit the canonical text form.
    pub fn to_text(&self) -> (r: Vec<u8>)
        ensures
            r@ == spec_put_response_text(*self),
    {
        let mut out: Vec<u8> = Vec::new();
        let l1 = lit_resp_is_done();
        push_bytes(&mut out, &l1);
        let b = if self.is_done {
            crate::payload::lit_true()
        } else {
            crate::payload::lit_false()
        };
        push_bytes(&mut out, &b);
        let l2 = lit_resp_chunk();
        push_bytes(&mut out, &l2);
        push_chunk_size_text(&mut out, &self.remote_file_chunk_size);
        out.push(125);
        proof {
            assert(out@ =~= spec_put_response_text(*self));
        }
        out
    }

    /// Read a response back from its canonical text form; any other input is
    /// malformed.
    pub fn from_text(input: &Vec<u8>) -> (r: Result<Self, PayloadError>)
        ensures
            match spec_parse_put_response(input@) {
                Some(p) => r == Ok::<PutResponsePayload, PayloadError>(p),
                None => r == Err::<PutResponsePayload, PayloadError>(PayloadError::Malformed),
            },
    {
        let l1 = lit_resp_is_done();
        let p1 = match parse_lit_at(input, 0, &l1) {
            Some(p) => p,
            None => {
                return Err(PayloadError::Malformed);
            },
        };
        let (done, p2) = match parse_bool_at(input, p1) {
            Some(x) => x,
            None => {
                return Err(PayloadError::Malformed);
            },
        };
        let l2 = lit_resp_chunk();
        let p3 = match parse_lit_at(input, p2, &l2) {
            Some(p) => p,
            None => {
                return Err(PayloadError::Malformed);
            },
        };
        let (c, p4) = match parse_chunk_size_at(input, p3) {
            Some(x) => x,
            None => {
                return Err(PayloadError::Malformed);
            },
        };
        if p4 >= input.len() || input[p4] != 125 || p4 + 1 != input.len() {
            return Err(PayloadError::Malformed);
        }
        Ok(PutResponsePayload { remote_file_chunk_size: c, is_done: done })
    }
}

/// Upload response text that scans back is exactly the canonical text of
/// what it scans to.
pub proof fn lemma_put_response_text_sound(b: Seq<u8>)
    requires
        spec_parse_put_response(b) is Some,
    ensures
        b == spec_put_response_text(spec_parse_put_response(b)->Some_0),
{
    let l1 = spec_lit_resp_is_done();
    let p1 = spec_parse_lit_at(b, 0, l1)->Some_0;
    let (done, p2) = spec_parse_bool_at(b, p1)->Some_0;
    let l2 = spec_lit_resp_chunk();
    let p3 = spec_parse_lit_at(b, p2, l2)->Some_0;
    let (c, p4) = spec_parse_chunk_size_at(b, p3)->Some_0;
    lemma_parse_chunk_size_sound(b, p3);
    assert(b.subrange(p1, p2) == spec_bool_text(done));
    assert(b.subrange(p4, b.len() as int) =~= seq![125u8]);
    assert(b =~= b.subrange(0, p1) + b.subrange(p1, p2) + b.subrange(p2, p3) + b.subrange(p3, p4)
        + b.subrange(p4, b.len() as int));
    assert(b =~= spec_put_response_text(spec_parse_put_response(b)->Some_0));
}

/// The canonical text of an upload response scans back to the response
/// itself.
pub proof fn lemma_put_response_text_complete(p: PutResponsePayload)
    ensures
        spec_parse_put_response(spec_put_response_text(p)) == Some(p),
{
    let b = spec_put_response_text(p);
    let l1 = spec_lit_resp_is_done();
    let bt = spec_bool_text(p.is_done);
    let l2 = spec_lit_resp_chunk();
    let ct = spec_chunk_size_text(p.remote_file_chunk_size);
    let p1 = l1.len() as int;
    let p2 = p1 + bt.len();
    let p3 = p2 + l2.len();
    let p4 = p3 + ct.len();
    assert(b.len() == p4 + 1);
    assert(b.subrange(0, p1) =~= l1);
    assert(b.subrange(p1, p2) =~= bt);
    assert(b.subrange(p2, p3) =~= l2);
    assert(b.subrange(p3, p4) =~= ct);
    assert(b[p4] == 125);
    assert(spec_parse_lit_at(b, 0, l1) == Some(p1));
    if p.is_done {
        assert(b.subrange(p1, p1 + spec_lit_true().len()) == spec_lit_true());
        assert(spec_parse_bool_at(b, p1) == Some((true, p2)));
    } else {
        assert(b.subrange(p1, p2) == spec_lit_false());
        if p1 + spec_lit_true().len() <= b.len() {
            assert(b.subrange(p1, p1 + spec_lit_true().len())[0] == b[p1]);
            assert(b[p1] == spec_lit_false()[0]);
            assert(b.subrange(p1, p1 + spec_lit_true().len()) != spec_lit_true());
        }
        assert(spec_parse_lit_at(b, p1, spec_lit_true()) is None);
        assert(spec_parse_bool_at(b, p1) == Some((false, p2)));
    }
    assert(spec_parse_lit_at(b, p2, l2) == Some(p3));
    lemma_parse_chunk_size_complete(b, p3, p.remote_file_chunk_size);
    assert(spec_parse_put_response(b) == Some(p));
}

} // verus!
