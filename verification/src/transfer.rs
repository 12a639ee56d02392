//! The client-driven transfer state machines, as pure decision steps.
//!
//! Each round trip of an upload ("put") or download ("get") is one call of a
//! step function here: the surrounding loop performs the file reads, writes
//! and network sends that the step asks for, and hands the outcome back.
//! Resumption is derived entirely from comparing chunk breakdowns: a
//! possibly partial last chunk is re-targeted, never skipped.

use crate::chunk::{
    buffer_size, lemma_chunk_size_of_wf, spec_chunk_size_of, spec_total_chunks_of, FileChunkSize,
    FILE_CHUNK_UNIT_SIZE,
};
use crate::get_payload::GetResponseMeta;
use crate::put_payload::PutResponsePayload;
use vstd::arithmetic::div_mod::{lemma_fundamental_div_mod, lemma_fundamental_div_mod_converse};
use vstd::prelude::*;

verus! {

/// Where a transfer loop stands after one round: more work, or finished.
pub enum Stage<T> {
    Processing(T),
    Finish,
}

impl<T> Default for Stage<T> {
    /// A transfer with nothing left to do.
    fn default() -> (r: Self)
        ensures
            r is Finish,
    {
        Stage::Finish
    }
}

/// A peer's report that no step function can act on, or an offset this
/// machine cannot represent.
#[derive(Clone, Copy, Debug, PartialEq, Eq, Structural)]
pub enum TransferError {
    /// A chunk breakdown no file length produces: chunks absent but a
    /// remainder present.
    InvalidChunkSize,
    /// The chunk index does not map to a byte offset within range.
    OffsetOverflow,
    /// The reported breakdown points past the end of the file at hand.
    OffsetBeyondEnd,
    /// A download was requested of a file the requester already has whole.
    AlreadyComplete,
}

/// The chunk a transfer resumes at, given the receiving side's breakdown:
/// its last chunk when that is partial, the next fresh chunk otherwise.
pub open spec fn spec_next_index(c: FileChunkSize) -> int {
    if c.1 != 0 {
        c.0 - 1
    } else {
        c.0 as int
    }
}

/// A read or write size capped at one chunk unit.
pub open spec fn spec_bounded_size(n: int) -> int {
    if n < FILE_CHUNK_UNIT_SIZE {
        n
    } else {
        FILE_CHUNK_UNIT_SIZE as int
    }
}

/// What the upload client does next after a mid-transfer response: the flag
/// and chunk index of its next request, and, when data is owed, the offset
/// and length to read from the local file.
pub fn put_process_response(
    local_file_len: usize,
    local_file_chunk_size: &FileChunkSize,
    payload: &PutResponsePayload,
) -> (r: Result<Stage<(bool, u64, Option<(u64, usize)>)>, TransferError>)
    ensures
        payload.is_done ==> r == Ok::<Stage<(bool, u64, Option<(u64, usize)>)>, TransferError>(
            Stage::Finish,
        ),
        !payload.is_done && payload.remote_file_chunk_size == *local_file_chunk_size ==> r == Ok::<
            Stage<(bool, u64, Option<(u64, usize)>)>,
            TransferError,
        >(Stage::Processing((true, 0u64, None))),
        !payload.is_done && payload.remote_file_chunk_size != *local_file_chunk_size ==> ({
            let c = payload.remote_file_chunk_size;
            let idx = spec_next_index(c);
            let off = idx * (FILE_CHUNK_UNIT_SIZE as int);
            &&& c.0 == 0 && c.1 != 0 ==> r == Err::<
                Stage<(bool, u64, Option<(u64, usize)>)>,
                TransferError,
            >(TransferError::InvalidChunkSize)
            &&& !(c.0 == 0 && c.1 != 0) && off > u64::MAX ==> r == Err::<
                Stage<(bool, u64, Option<(u64, usize)>)>,
                TransferError,
            >(TransferError::OffsetOverflow)
            &&& !(c.0 == 0 && c.1 != 0) && off <= u64::MAX && off > local_file_len ==> r == Err::<
                Stage<(bool, u64, Option<(u64, usize)>)>,
                TransferError,
            >(TransferError::OffsetBeyondEnd)
            &&& !(c.0 == 0 && c.1 != 0) && off <= u64::MAX && off <= local_file_len ==> r == Ok::<
                Stage<(bool, u64, Option<(u64, usize)>)>,
                TransferError,
            >(
                Stage::Processing(
                    (
                        false,
                        idx as u64,
                        Some((off as u64, spec_bounded_size(local_file_len - off) as usize)),
                    ),
                ),
            )
        }),
{
    if payload.is_done {
        return Ok(Stage::Finish);
    }
    if payload.remote_file_chunk_size == *local_file_chunk_size {
        return Ok(Stage::Processing((true, 0, None)));
    }
    let c = payload.remote_file_chunk_size;
    let mut idx = c.total_chunks();
    if c.rest_size() != 0 {
        if idx == 0 {
            return Err(TransferError::InvalidChunkSize);
        }
        idx = idx - 1;
    }
    let offset = match idx.checked_mul(FILE_CHUNK_UNIT_SIZE as u64) {
        Some(o) => o,
        None => {
            return Err(TransferError::OffsetOverflow);
        },
    };
    if offset > local_file_len as u64 {
        return Err(TransferError::OffsetBeyondEnd);
    }
    let read_len = buffer_size(local_file_len - offset as usize);
    Ok(Stage::Processing((false, idx, Some((offset, read_len)))))
}

/// What the upload server does with a decoded request: answer that the
/// transfer is done, or store the request's data at the chunk's offset and
/// then report the file's new breakdown.
#[derive(Clone, Copy, Debug, PartialEq, Eq, Structural)]
pub enum PutServerAction {
    /// Echo the terminal response; no file is touched.
    RespondDone,
    /// Write the request's data, if any, at this byte offset.
    Store { offset: u64 },
}

/// Plan the upload server's handling of a request's metadata.
pub fn put_server_plan(curr_trans_trunk_index: u64, is_done: bool) -> (r: Result<
    PutServerAction,
    TransferError,
>)
    ensures
        is_done ==> r == Ok::<PutServerAction, TransferError>(PutServerAction::RespondDone),
        !is_done && curr_trans_trunk_index * (FILE_CHUNK_UNIT_SIZE as int) > u64::MAX ==> r
            == Err::<PutServerAction, TransferError>(TransferError::OffsetOverflow),
        !is_done && curr_trans_trunk_index * (FILE_CHUNK_UNIT_SIZE as int) <= u64::MAX ==> r
            == Ok::<PutServerAction, TransferError>(
            PutServerAction::Store {
                offset: (curr_trans_trunk_index * (FILE_CHUNK_UNIT_SIZE as int)) as u64,
            },
        ),
{
    if is_done {
        return Ok(PutServerAction::RespondDone);
    }
    match curr_trans_trunk_index.checked_mul(FILE_CHUNK_UNIT_SIZE as u64) {
        Some(offset) => Ok(PutServerAction::Store { offset }),
        None => Err(TransferError::OffsetOverflow),
    }
}

/// The upload server's mid-transfer response: the destination file's
/// breakdown after this round's write.
pub fn put_server_response(new_file_len: usize) -> (r: PutResponsePayload)
    ensures
        r == (PutResponsePayload {
            remote_file_chunk_size: spec_chunk_size_of(new_file_len as int),
            is_done: false,
        }),
{
    PutResponsePayload::new(FileChunkSize::from_length(new_file_len))
}

/// What the download server sends for one request: the response metadata
/// and the offset and length to read from the file.
#[derive(Clone, Copy, Debug, PartialEq, Eq, Structural)]
pub struct GetServerPlan {
    pub meta: GetResponseMeta,
    pub offset: u64,
    pub read_len: usize,
}

/// Plan the download server's response from the file's length and the chunk
/// breakdown the client reported.  An identical breakdown means the client
/// already has the whole file, which is answered with an error by design.
pub fn get_server_plan(file_len: usize, local_file_chunk_size: &FileChunkSize) -> (r: Result<
    GetServerPlan,
    TransferError,
>)
    ensures
        spec_chunk_size_of(file_len as int) == *local_file_chunk_size ==> r == Err::<
            GetServerPlan,
            TransferError,
        >(TransferError::AlreadyComplete),
        spec_chunk_size_of(file_len as int) != *local_file_chunk_size ==> ({
            let c = *local_file_chunk_size;
            let idx = spec_next_index(c);
            let off = idx * (FILE_CHUNK_UNIT_SIZE as int);
            &&& c.0 == 0 && c.1 != 0 ==> r == Err::<GetServerPlan, TransferError>(
                TransferError::InvalidChunkSize,
            )
            &&& !(c.0 == 0 && c.1 != 0) && off > u64::MAX ==> r == Err::<
                GetServerPlan,
                TransferError,
            >(TransferError::OffsetOverflow)
            &&& !(c.0 == 0 && c.1 != 0) && off <= u64::MAX && off > file_len ==> r == Err::<
                GetServerPlan,
                TransferError,
            >(TransferError::OffsetBeyondEnd)
            &&& !(c.0 == 0 && c.1 != 0) && off <= u64::MAX && off <= file_len ==> r == Ok::<
                GetServerPlan,
                TransferError,
            >(
                GetServerPlan {
                    meta: GetResponseMeta {
                        remote_file_chunk_size: spec_chunk_size_of(file_len as int),
                        curr_trans_trunk_index: idx as u64,
                    },
                    offset: off as u64,
                    read_len: spec_bounded_size(file_len - off) as usize,
                },
            )
        }),
{
    let file_chunk_size = FileChunkSize::from_length(file_len);
    if file_chunk_size == *local_file_chunk_size {
        return Err(TransferError::AlreadyComplete);
    }
    let c = *local_file_chunk_size;
    let mut idx = c.total_chunks();
    if c.rest_size() != 0 {
        if idx == 0 {
            return Err(TransferError::InvalidChunkSize);
        }
        idx = idx - 1;
    }
    let offset = match idx.checked_mul(FILE_CHUNK_UNIT_SIZE as u64) {
        Some(o) => o,
        None => {
            return Err(TransferError::OffsetOverflow);
        },
    };
    if offset > file_len as u64 {
        return Err(TransferError::OffsetBeyondEnd);
    }
    let read_len = buffer_size(file_len - offset as usize);
    Ok(
        GetServerPlan {
            meta: GetResponseMeta::new(file_chunk_size, idx),
            offset,
            read_len,
        },
    )
}

/// The byte offset at which the download client writes the chunk a response
/// carries.
pub fn get_client_write_offset(meta: &GetResponseMeta) -> (r: Result<u64, TransferError>)
    ensures
        meta.curr_trans_trunk_index * (FILE_CHUNK_UNIT_SIZE as int) <= u64::MAX ==> r == Ok::<
            u64,
            TransferError,
        >((meta.curr_trans_trunk_index * (FILE_CHUNK_UNIT_SIZE as int)) as u64),
        meta.curr_trans_trunk_index * (FILE_CHUNK_UNIT_SIZE as int) > u64::MAX ==> r == Err::<
            u64,
            TransferError,
        >(TransferError::OffsetOverflow),
{
    match meta.curr_trans_trunk_index.checked_mul(FILE_CHUNK_UNIT_SIZE as u64) {
        Some(o) => Ok(o),
        None => Err(TransferError::OffsetOverflow),
    }
}

/// What the download client does after writing a response's data: stop when
/// the chunk just written was the last one, otherwise report its file's new
/// breakdown and ask again.
pub fn get_client_step(meta: &GetResponseMeta, new_local_len: usize) -> (r: Stage<FileChunkSize>)
    ensures
        meta.remote_file_chunk_size.0 == meta.curr_trans_trunk_index + 1 ==> r is Finish,
        meta.remote_file_chunk_size.0 != meta.curr_trans_trunk_index + 1 ==> r == Stage::Processing(
            spec_chunk_size_of(new_local_len as int),
        ),
{
    let total = meta.remote_file_chunk_size.total_chunks();
    if total > 0 && total - 1 == meta.curr_trans_trunk_index {
        Stage::Finish
    } else {
        Stage::Processing(FileChunkSize::from_length(new_local_len))
    }
}

/// Resume safety after a crash mid-chunk: whenever the receiving side
/// reports a breakdown with a non-zero remainder, the next round addresses
/// the last reported chunk — one less than the count — and never the count
/// itself.  The step functions pin their chunk index to this value on every
/// input they accept.
pub proof fn lemma_retarget_is_last_reported(c: FileChunkSize)
    requires
        c.1 != 0,
        c.0 >= 1,
    ensures
        spec_next_index(c) == c.0 - 1,
{
}

/// Resumption re-targets, never skips: when the receiving side holds `k`
/// full chunks and a partial last chunk, the next transfer round addresses
/// chunk `k`, the partial one; when it holds exactly `k` full chunks and
/// nothing more, the next round addresses the fresh chunk `k`.
pub proof fn lemma_resume_targets_partial_chunk(k: int, r: int)
    requires
        0 <= k,
        0 <= r < FILE_CHUNK_UNIT_SIZE,
        k * (FILE_CHUNK_UNIT_SIZE as int) + r <= usize::MAX,
    ensures
        spec_next_index(spec_chunk_size_of(k * (FILE_CHUNK_UNIT_SIZE as int) + r)) == k,
{
    let u = FILE_CHUNK_UNIT_SIZE as int;
    let len = k * u + r;
    assert(k * u >= 0) by (nonlinear_arith)
        requires
            k >= 0,
            u > 0,
    ;
    lemma_fundamental_div_mod_converse(len, u, k, r);
    lemma_chunk_size_of_wf(len);
    let c = spec_chunk_size_of(len);
    if r != 0 {
        assert(c.1 == r);
        assert(c.0 == k + 1);
    } else {
        assert(c.1 == 0);
        assert(c.0 == k);
    }
}

/// How many round trips a download takes from a file of `local_len` bytes
/// already present toward one of `file_len` bytes.  Each unfolding is one
/// request: the server resumes at the next chunk index of the client's
/// breakdown, the client writes the returned bytes at that chunk's offset,
/// and the loop stops when the chunk index just served was the last.
pub open spec fn spec_get_rounds(file_len: int, local_len: int) -> int
    decreases file_len - local_len,
    when 0 <= local_len < file_len <= usize::MAX
{
    let c = spec_chunk_size_of(local_len);
    let idx = spec_next_index(c);
    let offset = idx * (FILE_CHUNK_UNIT_SIZE as int);
    let new_len = offset + spec_bounded_size(file_len - offset);
    if spec_total_chunks_of(file_len) == idx + 1 {
        1
    } else {
        proof {
            lemma_get_step_bounds(file_len, local_len);
        }
        1 + spec_get_rounds(file_len, new_len)
    }
}

/// One download round writes past the old length but never past the file,
/// and lands exactly at the next chunk boundary or the end.
pub proof fn lemma_get_step_bounds(file_len: int, local_len: int)
    requires
        0 <= local_len < file_len <= usize::MAX,
    ensures
        ({
            let c = spec_chunk_size_of(local_len);
            let idx = spec_next_index(c);
            let offset = idx * (FILE_CHUNK_UNIT_SIZE as int);
            let new_len = offset + spec_bounded_size(file_len - offset);
            &&& 0 <= idx
            &&& idx == c.spec_integer_chunks()
            &&& 0 <= offset <= local_len
            &&& offset == idx * (FILE_CHUNK_UNIT_SIZE as int)
            &&& local_len < new_len <= file_len
            &&& spec_total_chunks_of(file_len) >= idx + 1
            &&& (spec_total_chunks_of(file_len) != idx + 1 ==> new_len == (idx + 1) * (
            FILE_CHUNK_UNIT_SIZE as int) && new_len < file_len && new_len % (
            FILE_CHUNK_UNIT_SIZE as int) == 0)
        }),
{
    let u = FILE_CHUNK_UNIT_SIZE as int;
    let c = spec_chunk_size_of(local_len);
    let idx = spec_next_index(c);
    let offset = idx * u;
    lemma_chunk_size_of_wf(local_len);
    lemma_fundamental_div_mod(local_len, u);
    vstd::arithmetic::div_mod::lemma_mod_bound(local_len, u);
    vstd::arithmetic::div_mod::lemma_div_pos_is_pos(local_len, u);
    assert(idx == c.spec_integer_chunks());
    assert(offset + c.1 == local_len || offset == local_len) by {
        assert(c.spec_total_size() == local_len);
    }
    assert(offset <= local_len);
    let total_f = spec_total_chunks_of(file_len);
    lemma_fundamental_div_mod(file_len, u);
    vstd::arithmetic::div_mod::lemma_mod_bound(file_len, u);
    assert(file_len > idx * u);
    assert(total_f >= idx + 1) by {
        if total_f < idx + 1 {
            assert(total_f <= idx);
            assert(file_len <= total_f * u) by {
                if file_len % u == 0 {
                    assert(file_len == (file_len / u) * u);
                } else {
                    assert(file_len < (file_len / u + 1) * u);
                }
            }
            assert(total_f * u <= idx * u) by (nonlinear_arith)
                requires
                    total_f <= idx,
                    u > 0,
            ;
            assert(false);
        }
    }
    let new_len = offset + spec_bounded_size(file_len - offset);
    assert(new_len == if offset + u <= file_len {
        offset + u
    } else {
        file_len
    });
    assert(local_len < new_len) by {
        assert(c.1 < u);
        assert(offset + u > local_len);
    }
    if total_f != idx + 1 {
        assert(total_f >= idx + 2);
        assert(file_len > (total_f - 1) * u) by {
            if file_len % u == 0 {
                assert(file_len == (file_len / u) * u);
                assert((total_f - 1) * u < total_f * u) by (nonlinear_arith)
                    requires
                        u > 0,
                ;
            } else {
                assert(file_len == (file_len / u) * u + file_len % u);
            }
        }
        assert((total_f - 1) * u >= (idx + 1) * u) by (nonlinear_arith)
            requires
                total_f - 1 >= idx + 1,
                u > 0,
        ;
        assert(new_len == (idx + 1) * u);
        assert(new_len < file_len);
        assert(new_len % u == 0) by {
            vstd::arithmetic::div_mod::lemma_mod_multiples_basic(idx + 1, u);
        }
    }
}

/// A download that resumes from `local_len` bytes of a `file_len`-byte file
/// finishes in exactly one round trip for each chunk the client does not
/// yet have whole.
pub proof fn lemma_get_round_count(file_len: int, local_len: int)
    requires
        0 <= local_len < file_len <= usize::MAX,
    ensures
        spec_get_rounds(file_len, local_len) == spec_total_chunks_of(file_len)
            - spec_chunk_size_of(local_len).spec_integer_chunks(),
    decreases file_len - local_len,
{
    let u = FILE_CHUNK_UNIT_SIZE as int;
    let c = spec_chunk_size_of(local_len);
    let idx = spec_next_index(c);
    let offset = idx * u;
    let new_len = offset + spec_bounded_size(file_len - offset);
    lemma_get_step_bounds(file_len, local_len);
    if spec_total_chunks_of(file_len) == idx + 1 {
    } else {
        lemma_get_round_count(file_len, new_len);
        assert(spec_chunk_size_of(new_len).spec_integer_chunks() == idx + 1) by {
            lemma_fundamental_div_mod_converse(new_len, u, idx + 1, 0);
            lemma_chunk_size_of_wf(new_len);
        }
    }
}

} // verus!
