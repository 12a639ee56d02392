//! A model of offset-addressed file writes, and the fact that makes the
//! transfer protocol resume-safe: a positional write is idempotent.

use vstd::prelude::*;

verus! {

/// The bytes of a file after one positional write: the file grows with
/// zeros up to `offset` where it was shorter, `data` lands at `offset`, and
/// every other byte keeps its value.
pub open spec fn spec_write_at(file: Seq<u8>, offset: int, data: Seq<u8>) -> Seq<u8>
    recommends
        0 <= offset,
{
    let end = offset + data.len();
    let new_len = if file.len() >= end {
        file.len() as int
    } else {
        end
    };
    Seq::new(
        new_len as nat,
        |i: int|
            if offset <= i < end {
                data[i - offset]
            } else if i < file.len() {
                file[i]
            } else {
                0u8
            },
    )
}

/// Writing the same bytes at the same offset twice leaves the file exactly
/// as one write leaves it.
pub proof fn lemma_write_at_idempotent(file: Seq<u8>, offset: int, data: Seq<u8>)
    requires
        0 <= offset,
    ensures
        spec_write_at(spec_write_at(file, offset, data), offset, data) == spec_write_at(
            file,
            offset,
            data,
        ),
{
    assert(spec_write_at(spec_write_at(file, offset, data), offset, data) =~= spec_write_at(
        file,
        offset,
        data,
    ));
}

/// Apply one positional write to an in-memory file.
pub fn apply_write_at(file: &mut Vec<u8>, offset: usize, data: &Vec<u8>)
    requires
        offset + data@.len() <= usize::MAX,
    ensures
        final(file)@ == spec_write_at(old(file)@, offset as int, data@),
{
    while file.len() < offset
        invariant
            old(file)@.len() <= file@.len() || file@ == old(file)@,
            file@.len() <= offset || file@ == old(file)@,
            file@ == spec_write_at(old(file)@, offset as int, Seq::empty()).take(
                file@.len() as int,
            ) || file@ == old(file)@,
        decreases offset - file@.len(),
    {
        proof {
            assert(file@.push(0u8) =~= spec_write_at(old(file)@, offset as int, Seq::empty()).take(
                file@.len() as int + 1,
            ));
        }
        file.push(0);
    }
    proof {
        assert(file@ =~= spec_write_at(old(file)@, offset as int, Seq::empty()));
    }
    let ghost padded = file@;
    let n = data.len();
    for i in 0..n
        invariant
            n == data@.len(),
            offset + n <= usize::MAX,
            padded == spec_write_at(old(file)@, offset as int, Seq::empty()),
            padded.len() >= offset,
            file@ == spec_write_at(padded, offset as int, data@.take(i as int)),
    {
        proof {
            assert(spec_write_at(padded, offset as int, data@.take(i + 1)) =~= if offset + i
                < file@.len() {
                file@.update(offset + i, data@[i as int])
            } else {
                file@.push(data@[i as int])
            });
        }
        if offset + i < file.len() {
            let j = offset + i;
            file[j] = data[i];
        } else {
            file.push(data[i]);
        }
    }
    proof {
        assert(data@.take(n as int) =~= data@);
        assert(spec_write_at(padded, offset as int, data@) =~= spec_write_at(
            old(file)@,
            offset as int,
            data@,
        ));
    }
}

} // verus!
