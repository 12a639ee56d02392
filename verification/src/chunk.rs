//! Chunk addressing: a file length expressed as whole fixed-size chunks plus
//! a remainder, and the translation between chunk indices and byte offsets.

use vstd::prelude::*;

verus! {

/// Number of bytes in one transfer chunk: 16 MiB.
pub const FILE_CHUNK_UNIT_SIZE: usize = 4096 * 4096;

/// A file length seen as `total_chunks` chunks, the last of which holds only
/// `rest_size` bytes when `rest_size` is non-zero.  Always recomputed from an
/// actual length; never stored as independent state.
#[derive(Clone, Copy, Debug, PartialEq, Eq, Structural)]
pub struct FileChunkSize(pub u64, pub usize);

/// Chunk count of a file of `len` bytes: `ceil(len / unit)`.
pub open spec fn spec_total_chunks_of(len: int) -> int {
    if len % (FILE_CHUNK_UNIT_SIZE as int) == 0 {
        len / (FILE_CHUNK_UNIT_SIZE as int)
    } else {
        len / (FILE_CHUNK_UNIT_SIZE as int) + 1
    }
}

/// The chunk breakdown of a file of `len` bytes.
pub open spec fn spec_chunk_size_of(len: int) -> FileChunkSize {
    FileChunkSize(
        spec_total_chunks_of(len) as u64,
        (len % (FILE_CHUNK_UNIT_SIZE as int)) as usize,
    )
}

impl FileChunkSize {
    /// Total chunk count, the final partial chunk included.
    pub open spec fn spec_total_chunks(self) -> u64 {
        self.0
    }

    /// Size in bytes of the final partial chunk; 0 when every chunk is full.
    pub open spec fn spec_rest_size(self) -> usize {
        self.1
    }

    /// Number of full chunks.
    pub open spec fn spec_integer_chunks(self) -> int {
        if self.0 > 0 && self.1 > 0 {
            self.0 - 1
        } else {
            self.0 as int
        }
    }

    /// Byte length this value stands for.
    pub open spec fn spec_total_size(self) -> int {
        self.spec_integer_chunks() * (FILE_CHUNK_UNIT_SIZE as int) + self.1
    }

    /// A value that some byte length can actually produce: the remainder is
    /// smaller than one chunk, and an empty file has no chunks at all.
    pub open spec fn wf(self) -> bool {
        &&& self.1 < FILE_CHUNK_UNIT_SIZE
        &&& self.0 == spec_total_chunks_of(self.spec_total_size())
    }

    pub fn new(total_chunk: u64, rest_size: usize) -> (r: Self)
        ensures
            r == FileChunkSize(total_chunk, rest_size),
    {
        FileChunkSize(total_chunk, rest_size)
    }

    /// The chunk breakdown of a file of `len` bytes.
    pub fn from_length(len: usize) -> (r: Self)
        ensures
            r == spec_chunk_size_of(len as int),
            r.wf(),
            r.spec_total_size() == len,
    {
        let mut total_chunks: u64 = (len / FILE_CHUNK_UNIT_SIZE) as u64;
        let rest_size: usize = len % FILE_CHUNK_UNIT_SIZE;
        if rest_size != 0 {
            total_chunks = total_chunks + 1;
        }
        proof {
            lemma_chunk_size_of_wf(len as int);
        }
        FileChunkSize(total_chunks, rest_size)
    }

    pub fn total_chunks(&self) -> (r: u64)
        ensures
            r == self.0,
    {
        self.0
    }

    pub fn rest_size(&self) -> (r: usize)
        ensures
            r == self.1,
    {
        self.1
    }

    pub fn integer_chunks(&self) -> (r: u64)
        ensures
            r == self.spec_integer_chunks(),
    {
        self.0 - if self.0 > 0 && self.1 > 0 {
            1
        } else {
            0
        }
    }

    pub fn integer_size(&self) -> (r: usize)
        requires
            self.spec_integer_chunks() * (FILE_CHUNK_UNIT_SIZE as int) <= usize::MAX,
        ensures
            r == self.spec_integer_chunks() * (FILE_CHUNK_UNIT_SIZE as int),
    {
        let ic: u64 = self.integer_chunks();
        proof {
            assert(ic <= usize::MAX) by (nonlinear_arith)
                requires
                    ic * (FILE_CHUNK_UNIT_SIZE as int) <= usize::MAX as int,
                    FILE_CHUNK_UNIT_SIZE >= 1,
                    ic >= 0,
            ;
        }
        ic as usize * FILE_CHUNK_UNIT_SIZE
    }

    pub fn total_size(&self) -> (r: usize)
        requires
            self.spec_total_size() <= usize::MAX,
        ensures
            r == self.spec_total_size(),
    {
        self.integer_size() + self.rest_size()
    }

    /// Size of the final chunk: the remainder when it is non-zero, a whole
    /// unit when the last chunk is full, and 0 when there is no chunk at
    /// all.  The last chunk is full-sized exactly when the remainder is 0.
    pub fn last_chunk_size(&self) -> (r: usize)
        requires
            self.spec_total_size() <= usize::MAX,
        ensures
            r == if self.1 > 0 {
                self.1 as int
            } else if self.0 == 0 {
                0
            } else {
                FILE_CHUNK_UNIT_SIZE as int
            },
    {
        let last_chunk_index = self.last_chunk_index();
        proof {
            let u = FILE_CHUNK_UNIT_SIZE as int;
            let k = if self.0 > 0 {
                self.0 - 1
            } else {
                0
            };
            let ic = self.spec_integer_chunks();
            assert(k <= ic);
            assert(k * u <= ic * u) by (nonlinear_arith)
                requires
                    k <= ic,
                    u >= 0,
            ;
            assert(k * u <= self.spec_total_size());
            assert(k <= usize::MAX) by (nonlinear_arith)
                requires
                    k * u <= usize::MAX as int,
                    u >= 1,
                    k >= 0,
            ;
        }
        self.total_size() - last_chunk_index as usize * FILE_CHUNK_UNIT_SIZE
    }

    /// Index of the last chunk: one less than the count, except that an empty
    /// file keeps index 0.
    pub fn last_chunk_index(&self) -> (r: u64)
        ensures
            r == if self.0 > 0 {
                self.0 - 1
            } else {
                0
            },
    {
        self.0 - if self.0 > 0 {
            1
        } else {
            0
        }
    }
}

impl Default for FileChunkSize {
    /// The breakdown of an empty file: no chunks, no remainder.
    fn default() -> (r: Self)
        ensures
            r == FileChunkSize(0u64, 0usize),
    {
        FileChunkSize(0, 0)
    }
}

impl From<usize> for FileChunkSize {
    fn from(len: usize) -> (r: Self) {
        FileChunkSize::from_length(len)
    }
}

impl vstd::std_specs::convert::FromSpecImpl<usize> for FileChunkSize {
    open spec fn obeys_from_spec() -> bool {
        true
    }

    open spec fn from_spec(len: usize) -> Self {
        spec_chunk_size_of(len as int)
    }
}

/// A breakdown computed from a length is well formed and stands for exactly
/// that length.
pub proof fn lemma_chunk_size_of_wf(len: int)
    requires
        0 <= len <= usize::MAX,
    ensures
        spec_chunk_size_of(len).wf(),
        spec_chunk_size_of(len).spec_total_size() == len,
{
    let u = FILE_CHUNK_UNIT_SIZE as int;
    let q = len / u;
    let r = len % u;
    vstd::arithmetic::div_mod::lemma_fundamental_div_mod(len, u);
    vstd::arithmetic::div_mod::lemma_mod_bound(len, u);
    vstd::arithmetic::div_mod::lemma_div_pos_is_pos(len, u);
    vstd::arithmetic::div_mod::lemma_div_nonincreasing(len, u);
    assert(len == u * q + r);
    let c = spec_chunk_size_of(len);
    assert(c.spec_total_size() == len);
}

/// The chunk count of a non-empty file is the rounded-up quotient
/// `(len + unit - 1) / unit`, an empty file has no chunks, and the remainder
/// vanishes exactly on whole multiples of the unit.
pub proof fn lemma_total_chunks_is_ceil(len: int)
    requires
        0 <= len,
    ensures
        len == 0 ==> spec_total_chunks_of(len) == 0,
        len > 0 ==> spec_total_chunks_of(len) == (len + FILE_CHUNK_UNIT_SIZE - 1) / (
        FILE_CHUNK_UNIT_SIZE as int),
        spec_chunk_size_of(len).spec_rest_size() == 0 <==> len % (FILE_CHUNK_UNIT_SIZE as int)
            == 0,
{
    let u = FILE_CHUNK_UNIT_SIZE as int;
    let q = len / u;
    let r = len % u;
    vstd::arithmetic::div_mod::lemma_fundamental_div_mod(len, u);
    vstd::arithmetic::div_mod::lemma_mod_bound(len, u);
    assert(len == u * q + r);
    if len > 0 {
        if r == 0 {
            vstd::arithmetic::div_mod::lemma_fundamental_div_mod_converse(len + u - 1, u, q, u - 1);
        } else {
            vstd::arithmetic::div_mod::lemma_fundamental_div_mod_converse(
                len + u - 1,
                u,
                q + 1,
                r - 1,
            );
        }
    }
}

/// Cap a read or write size at one chunk unit.
pub fn buffer_size(wanted: usize) -> (r: usize)
    ensures
        r == if wanted < FILE_CHUNK_UNIT_SIZE {
            wanted as int
        } else {
            FILE_CHUNK_UNIT_SIZE as int
        },
{
    if wanted < FILE_CHUNK_UNIT_SIZE {
        wanted
    } else {
        FILE_CHUNK_UNIT_SIZE
    }
}

/// Byte offset at which the chunk with the given index starts.
pub fn index_offset(index: u64) -> (r: u64)
    requires
        index * (FILE_CHUNK_UNIT_SIZE as int) <= u64::MAX,
    ensures
        r == index * (FILE_CHUNK_UNIT_SIZE as int),
{
    index * (FILE_CHUNK_UNIT_SIZE as u64)
}

} // verus!
