//! Size-bounded accumulation of an untrusted upstream response.
//!
//! The response is read one chunk at a time; the instant the running total
//! would exceed the byte ceiling the accumulation fails, before the
//! oversized chunk is appended — peak memory stays bounded regardless of a
//! malicious or broken `Content-Length`.

use vstd::prelude::*;
use crate::errors::FeedError;

verus! {

/// The upstream response must be no larger than this many bytes (5 MiB).
pub const MAX_UPSTREAM_RESPONSE_SIZE: usize = 5 * 1024 * 1024;

/// The concatenation of a sequence of chunks.
pub open spec fn concat_chunks(chunks: Seq<Seq<u8>>) -> Seq<u8>
    decreases chunks.len(),
{
    if chunks.len() == 0 {
        Seq::<u8>::empty()
    } else {
        concat_chunks(chunks.drop_last()) + chunks.last()
    }
}

/// Append one incoming chunk to the accumulated body, unless that would
/// push the total over the ceiling; in that case the body is left exactly
/// as it was and `false` comes back. The body therefore never holds more
/// than `MAX_UPSTREAM_RESPONSE_SIZE` bytes.
pub fn accumulate_chunk(body: &mut Vec<u8>, chunk: &[u8]) -> (r: bool)
    requires
        old(body)@.len() <= MAX_UPSTREAM_RESPONSE_SIZE,
    ensures
        r == (old(body)@.len() + chunk@.len() <= MAX_UPSTREAM_RESPONSE_SIZE),
        r ==> final(body)@ == old(body)@ + chunk@,
        !r ==> final(body)@ == old(body)@,
        final(body)@.len() <= MAX_UPSTREAM_RESPONSE_SIZE,
{
    if chunk.len() > MAX_UPSTREAM_RESPONSE_SIZE - body.len() {
        return false;
    }
    body.extend_from_slice(chunk);
    true
}

/// Accumulate a whole sequence of chunks under the ceiling. Succeeds with
/// the concatenation of all chunks exactly when their total length is
/// within the ceiling; fails with `UpstreamTooLarge` the moment the
/// running total would pass it, never holding more than the ceiling in
/// memory.
pub fn collect_body(chunks: &Vec<Vec<u8>>) -> (r: Result<Vec<u8>, FeedError>)
    ensures
        r is Ok <==> concat_chunks(chunks@.map_values(|c: Vec<u8>| c@)).len()
            <= MAX_UPSTREAM_RESPONSE_SIZE,
        r is Ok ==> r->Ok_0@ == concat_chunks(chunks@.map_values(|c: Vec<u8>| c@)),
        r is Err ==> r->Err_0 == FeedError::UpstreamTooLarge,
{
    let ghost cs = chunks@.map_values(|c: Vec<u8>| c@);
    let mut body: Vec<u8> = Vec::new();
    let mut i: usize = 0;
    proof {
        assert(cs.take(0) =~= Seq::<Seq<u8>>::empty());
        assert(body@ =~= concat_chunks(cs.take(0)));
    }
    while i < chunks.len()
        invariant
            cs == chunks@.map_values(|c: Vec<u8>| c@),
            i <= chunks@.len(),
            cs.len() == chunks@.len(),
            body@ == concat_chunks(cs.take(i as int)),
            body@.len() <= MAX_UPSTREAM_RESPONSE_SIZE,
        decreases chunks@.len() - i,
    {
        let ok = accumulate_chunk(&mut body, chunks[i].as_slice());
        proof {
            assert(cs.take(i + 1) =~= cs.take(i as int).push(cs[i as int]));
            assert(cs.take(i + 1).drop_last() =~= cs.take(i as int));
            assert(cs.take(i + 1).last() == cs[i as int]);
        }
        if !ok {
            proof {
                lemma_concat_prefix_bound(cs, i as int);
            }
            return Err(FeedError::UpstreamTooLarge);
        }
        i = i + 1;
    }
    proof {
        assert(cs.take(cs.len() as int) =~= cs);
    }
    Ok(body)
}

/// A prefix of the chunk sequence already over the ceiling keeps the whole
/// concatenation over it: concatenation length only grows with more chunks.
proof fn lemma_concat_prefix_bound(cs: Seq<Seq<u8>>, i: int)
    requires
        0 <= i < cs.len(),
    ensures
        concat_chunks(cs).len() >= concat_chunks(cs.take(i + 1)).len(),
    decreases cs.len() - i,
{
    if i + 1 == cs.len() {
        assert(cs.take(i + 1) =~= cs);
    } else {
        lemma_concat_prefix_bound(cs, i + 1);
        assert(cs.take(i + 2).drop_last() =~= cs.take(i + 1));
        assert(concat_chunks(cs.take(i + 2)) == concat_chunks(cs.take(i + 1)) + cs.take(
            i + 2,
        ).last());
    }
}

/// Whether the upstream HTTP status is a success (2xx). A non-2xx status
/// fails the request with `UpstreamTransport` carrying that status.
pub fn check_upstream_status(status: u16) -> (r: Result<(), FeedError>)
    ensures
        r is Ok <==> 200 <= status < 300,
        r is Err ==> r->Err_0 == (FeedError::UpstreamTransport { status }),
{
    if 200 <= status && status < 300 {
        Ok(())
    } else {
        Err(FeedError::UpstreamTransport { status })
    }
}

} // verus!
