//! The computational core of the HTTP test server and client: how a
//! download of `N` bytes is cut into chunks, when an upload is over the
//! size cap, and the chunked-upload plan.

use vstd::prelude::*;

verus! {

/// Sum of a sequence of sizes.
pub open spec fn spec_size_sum(s: Seq<usize>) -> int
    decreases s.len(),
{
    if s.len() == 0 {
        0
    } else {
        spec_size_sum(s.drop_last()) + s.last()
    }
}

/// `total / chunk`, rounded up.
pub open spec fn spec_chunk_count(total: int, chunk: int) -> int
    recommends
        chunk > 0,
{
    (total + chunk - 1) / chunk
}

/// The length of chunk `i` of a transfer of `total` bytes in chunks of
/// `chunk`: a full chunk, truncated at the end of the transfer.
pub open spec fn spec_chunk_len(total: int, chunk: int, i: int) -> int {
    if total - i * chunk > chunk {
        chunk
    } else if total - i * chunk > 0 {
        total - i * chunk
    } else {
        0
    }
}

/// A value in `((len-1)·chunk, len·chunk]` divides by `chunk`, rounded up,
/// to exactly `len`.
proof fn lemma_ceil_div(total: int, chunk: int, len: int)
    requires
        chunk > 0,
        0 <= total,
        0 <= len,
        total <= len * chunk,
        len > 0 ==> total > (len - 1) * chunk,
    ensures
        spec_chunk_count(total, chunk) == len,
{
    let r = total + chunk - 1 - len * chunk;
    assert(r < chunk);
    if len == 0 {
        assert(len * chunk == 0) by (nonlinear_arith)
            requires
                len == 0,
        ;
        assert(r >= 0);
    } else {
        assert(r >= 0) by (nonlinear_arith)
            requires
                chunk > 0,
                len > 0,
                total > (len - 1) * chunk,
                r == total + chunk - 1 - len * chunk,
        ;
    }
    assert(total + chunk - 1 == chunk * len + r) by (nonlinear_arith)
        requires
            r == total + chunk - 1 - len * chunk,
    ;
    vstd::arithmetic::div_mod::lemma_div_multiples_vanish_fancy(len, r, chunk);
}

/// The chunk lengths of a transfer of `total` bytes in chunks of `chunk`:
/// `ceil(total/chunk)` lengths that sum to exactly `total`, every one a
/// full `chunk` except the truncated last.
pub fn chunk_sizes(total: usize, chunk: usize) -> (out: Vec<usize>)
    requires
        chunk > 0,
    ensures
        spec_size_sum(out@) == total,
        out@.len() == spec_chunk_count(total as int, chunk as int),
        forall|i: int|
            0 <= i < out@.len() ==> #[trigger] out@[i] == spec_chunk_len(
                total as int,
                chunk as int,
                i,
            ),
        forall|i: int| 0 <= i < out@.len() ==> 0 < #[trigger] out@[i] <= chunk,
{
    let mut out: Vec<usize> = Vec::new();
    let mut remaining: usize = total;
    proof {
        assert(out@.len() * (chunk as int) == 0) by (nonlinear_arith)
            requires
                out@.len() == 0,
        ;
    }
    while remaining > 0
        invariant
            chunk > 0,
            remaining == if total - out@.len() * (chunk as int) > 0 {
                total - out@.len() * (chunk as int)
            } else {
                0
            },
            spec_size_sum(out@) + remaining == total,
            forall|i: int|
                0 <= i < out@.len() ==> #[trigger] out@[i] == spec_chunk_len(
                    total as int,
                    chunk as int,
                    i,
                ),
            forall|i: int| 0 <= i < out@.len() ==> 0 < #[trigger] out@[i] <= chunk,
        decreases remaining,
    {
        let c = if chunk < remaining {
            chunk
        } else {
            remaining
        };
        let ghost before = out@;
        let ghost n = out@.len();
        out.push(c);
        proof {
            assert(out@.drop_last() =~= before);
            assert((n + 1) * (chunk as int) == n * (chunk as int) + chunk) by (nonlinear_arith);
        }
        remaining = remaining - c;
    }
    proof {
        let len = out@.len() as int;
        if len > 0 {
            assert(out@[len - 1] > 0);
            assert(out@[len - 1] == spec_chunk_len(total as int, chunk as int, len - 1));
            assert(total - (len - 1) * (chunk as int) > 0);
        }
        assert(total <= len * (chunk as int));
        lemma_ceil_div(total as int, chunk as int, len);
    }
    out
}

/// The status an upload of `body_len` bytes receives under a cap of
/// `max_upload` bytes: 413 over the cap, 200 otherwise.
pub open spec fn spec_upload_status(body_len: u64, max_upload: u64) -> u16 {
    if body_len > max_upload {
        413
    } else {
        200
    }
}

/// Decide an upload: over the cap it is rejected with status 413; at or
/// below, accepted with status 200 and the received byte count reported
/// back.
pub fn upload_decision(body_len: u64, max_upload: u64) -> (r: (u16, u64))
    ensures
        r.0 == spec_upload_status(body_len, max_upload),
        r.0 == 200 ==> r.1 == body_len,
        r.0 == 413 <==> body_len > max_upload,
{
    if body_len > max_upload {
        (413, 0)
    } else {
        (200, body_len)
    }
}

/// Whether `got` is within ten percent of `expected` on either side.
pub fn within_ten_percent(expected: u64, got: u64) -> (r: bool)
    ensures
        r == (9 * expected <= 10 * got && 10 * got <= 11 * expected),
{
    let lo_ok = 9u128 * (expected as u128) <= 10u128 * (got as u128);
    let hi_ok = 10u128 * (got as u128) <= 11u128 * (expected as u128);
    lo_ok && hi_ok
}

/// The body of the latency probe endpoint.
pub fn latency_body() -> (s: &'static str)
    ensures
        s@ == "OK"@,
{
    "OK"
}

/// The streamed download body sums to exactly the requested size; its
/// chunk count is the size divided by the chunk size, rounded up.
pub proof fn lemma_download_body_size(total: usize, chunk: usize, body: Seq<usize>)
    requires
        chunk > 0,
        spec_size_sum(body) == total,
        body.len() == spec_chunk_count(total as int, chunk as int),
    ensures
        spec_size_sum(body) == total,
        total > 0 ==> body.len() >= 1,
{
    if total > 0 {
        assert((total + chunk - 1) / (chunk as int) >= 1) by {
            assert(total + chunk - 1 >= chunk);
            vstd::arithmetic::div_mod::lemma_div_is_ordered(
                chunk as int,
                total + chunk - 1,
                chunk as int,
            );
            assert(chunk as int / chunk as int == 1) by {
                vstd::arithmetic::div_mod::lemma_div_by_self(chunk as int);
            }
        }
    }
}

} // verus!
