//! Pieces shared by the payload encodings: the payload error, boolean and
//! chunk-breakdown text forms, and their scanners.

use crate::chunk::FileChunkSize;
use crate::text::{
    is_digit, lemma_parse_u64_complete, lemma_parse_u64_sound, parse_lit_at, parse_u64_at,
    push_dec_u64, spec_dec_digits, spec_parse_lit_at, spec_parse_u64_at,
};
use vstd::prelude::*;

verus! {

/// Ways a structured payload can fail to decode.
#[derive(Clone, Copy, Debug, PartialEq, Eq, Structural)]
pub enum PayloadError {
    /// Fewer bytes than the fixed-size part of the payload.
    TooShort,
    /// A declared length points past the end of the payload.
    MetaOverrun,
    /// The structured text is not the canonical spelling of any value.
    Malformed,
}

/// The text `true`.
pub open spec fn spec_lit_true() -> Seq<u8> {
    seq![116u8, 114u8, 117u8, 101u8]
}

/// The text `false`.
pub open spec fn spec_lit_false() -> Seq<u8> {
    seq![102u8, 97u8, 108u8, 115u8, 101u8]
}

/// The text form of a boolean.
pub open spec fn spec_bool_text(v: bool) -> Seq<u8> {
    if v {
        spec_lit_true()
    } else {
        spec_lit_false()
    }
}

/// The text `true` as bytes.
pub fn lit_true() -> (r: Vec<u8>)
    ensures
        r@ == spec_lit_true(),
{
    let r: Vec<u8> = vec![116, 114, 117, 101];
    proof {
        assert(r@ =~= spec_lit_true());
    }
    r
}

/// The text `false` as bytes.
pub fn lit_false() -> (r: Vec<u8>)
    ensures
        r@ == spec_lit_false(),
{
    let r: Vec<u8> = vec![102, 97, 108, 115, 101];
    proof {
        assert(r@ =~= spec_lit_false());
    }
    r
}

/// Scan of a boolean token.
pub open spec fn spec_parse_bool_at(b: Seq<u8>, p: int) -> Option<(bool, int)> {
    if spec_parse_lit_at(b, p, spec_lit_true()) is Some {
        Some((true, spec_parse_lit_at(b, p, spec_lit_true())->Some_0))
    } else if spec_parse_lit_at(b, p, spec_lit_false()) is Some {
        Some((false, spec_parse_lit_at(b, p, spec_lit_false())->Some_0))
    } else {
        None
    }
}

/// Match a boolean token at `pos`.
pub fn parse_bool_at(input: &Vec<u8>, pos: usize) -> (r: Option<(bool, usize)>)
    ensures
        match spec_parse_bool_at(input@, pos as int) {
            Some((v, q)) => r matches Some((rv, rq)) && rv == v && rq == q,
            None => r is None,
        },
{
    let t = lit_true();
    if let Some(q) = parse_lit_at(input, pos, &t) {
        return Some((true, q));
    }
    let f = lit_false();
    if let Some(q) = parse_lit_at(input, pos, &f) {
        return Some((false, q));
    }
    None
}

/// The structured-text form of a chunk breakdown: the two counts as a
/// two-element array.
pub open spec fn spec_chunk_size_text(c: FileChunkSize) -> Seq<u8> {
    seq![91u8] + spec_dec_digits(c.0 as nat) + seq![44u8] + spec_dec_digits(c.1 as nat)
        + seq![93u8]
}

/// Append the text form of a chunk breakdown to `out`.
pub fn push_chunk_size_text(out: &mut Vec<u8>, c: &FileChunkSize)
    ensures
        final(out)@ == old(out)@ + spec_chunk_size_text(*c),
{
    out.push(91);
    push_dec_u64(out, c.total_chunks());
    out.push(44);
    proof {
        assert(usize::MAX <= u64::MAX);
    }
    push_dec_u64(out, c.rest_size() as u64);
    out.push(93);
    proof {
        assert(out@ =~= old(out)@ + spec_chunk_size_text(*c));
    }
}

/// Scan of a chunk-breakdown array.
pub open spec fn spec_parse_chunk_size_at(b: Seq<u8>, p: int) -> Option<(FileChunkSize, int)> {
    if !(0 <= p < b.len() && b[p] == 91) {
        None
    } else {
        match spec_parse_u64_at(b, p + 1) {
            None => None,
            Some((total, q1)) => if !(q1 < b.len() && b[q1] == 44) {
                None
            } else {
                match spec_parse_u64_at(b, q1 + 1) {
                    None => None,
                    Some((rest, q2)) => if rest > usize::MAX || !(q2 < b.len() && b[q2] == 93) {
                        None
                    } else {
                        Some((FileChunkSize(total, rest as usize), q2 + 1))
                    },
                }
            },
        }
    }
}

/// Match a chunk-breakdown array at `pos`.
pub fn parse_chunk_size_at(input: &Vec<u8>, pos: usize) -> (r: Option<(FileChunkSize, usize)>)
    ensures
        match spec_parse_chunk_size_at(input@, pos as int) {
            Some((c, q)) => r matches Some((rc, rq)) && rc == c && rq == q,
            None => r is None,
        },
{
    if pos >= input.len() || input[pos] != 91 {
        return None;
    }
    let (total, q1) = match parse_u64_at(input, pos + 1) {
        Some(x) => x,
        None => {
            return None;
        },
    };
    if q1 >= input.len() || input[q1] != 44 {
        return None;
    }
    let (rest, q2) = match parse_u64_at(input, q1 + 1) {
        Some(x) => x,
        None => {
            return None;
        },
    };
    if rest > usize::MAX as u64 {
        return None;
    }
    if q2 >= input.len() || input[q2] != 93 {
        return None;
    }
    Some((FileChunkSize::new(total, rest as usize), q2 + 1))
}

/// What a successful chunk-breakdown scan consumed.
pub proof fn lemma_parse_chunk_size_sound(b: Seq<u8>, p: int)
    requires
        spec_parse_chunk_size_at(b, p) is Some,
    ensures
        ({
            let (c, q) = spec_parse_chunk_size_at(b, p)->Some_0;
            &&& 0 <= p < q <= b.len()
            &&& q == p + spec_chunk_size_text(c).len()
            &&& b.subrange(p, q) == spec_chunk_size_text(c)
        }),
{
    let (c, q) = spec_parse_chunk_size_at(b, p)->Some_0;
    let (total, q1) = spec_parse_u64_at(b, p + 1)->Some_0;
    lemma_parse_u64_sound(b, p + 1);
    let (rest, q2) = spec_parse_u64_at(b, q1 + 1)->Some_0;
    lemma_parse_u64_sound(b, q1 + 1);
    assert(b.subrange(p, q) =~= seq![91u8] + b.subrange(p + 1, q1) + seq![44u8] + b.subrange(
        q1 + 1,
        q2,
    ) + seq![93u8]);
    assert(b.subrange(p, q) =~= spec_chunk_size_text(c));
}

/// A chunk-breakdown scan over the text form of `c` finds `c`.
pub proof fn lemma_parse_chunk_size_complete(b: Seq<u8>, p: int, c: FileChunkSize)
    requires
        0 <= p,
        p + spec_chunk_size_text(c).len() <= b.len(),
        b.subrange(p, p + spec_chunk_size_text(c).len()) == spec_chunk_size_text(c),
    ensures
        spec_parse_chunk_size_at(b, p) == Some((c, p + spec_chunk_size_text(c).len())),
{
    let t = spec_chunk_size_text(c);
    let d1 = spec_dec_digits(c.0 as nat);
    let d2 = spec_dec_digits(c.1 as nat);
    let sub = b.subrange(p, p + t.len());
    assert(sub == t);
    assert forall|i: int| 0 <= i < t.len() implies b[p + i] == t[i] by {
        assert(sub[i] == b[p + i]);
    }
    assert(t[0] == 91);
    assert(b[p] == 91);
    let q1 = p + 1 + d1.len();
    assert forall|i: int| 0 <= i < d1.len() implies b[p + 1 + i] == d1[i] by {
        assert(t[1 + i] == d1[i]);
    }
    assert(b.subrange(p + 1, q1) =~= d1);
    assert(t[1 + d1.len() as int] == 44);
    assert(b[q1] == 44);
    assert(!is_digit(44));
    lemma_parse_u64_complete(b, p + 1, c.0);
    let q2 = q1 + 1 + d2.len();
    assert forall|i: int| 0 <= i < d2.len() implies b[q1 + 1 + i] == d2[i] by {
        assert(t[2 + d1.len() as int + i] == d2[i]);
    }
    assert(b.subrange(q1 + 1, q2) =~= d2);
    assert(t[2 + d1.len() as int + d2.len() as int] == 93);
    assert(b[q2] == 93);
    assert(!is_digit(93));
    assert(usize::MAX <= u64::MAX);
    lemma_parse_u64_complete(b, q1 + 1, c.1 as u64);
    assert(spec_parse_chunk_size_at(b, p) == Some((c, q2 + 1)));
}

} // verus!
