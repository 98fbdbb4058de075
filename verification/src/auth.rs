//! Base64 decoding and credential extraction for the AUTH handshake.
//!
//! `AUTH LOGIN` reads a base64 username line and a base64 password line;
//! `AUTH PLAIN` reads one base64 blob holding three NUL-separated fields
//! `authzid NUL authcid NUL password`, of which the first is ignored.

use crate::bytes::{find_first, find_seq, subvec};
use base64::Engine;
use vstd::prelude::*;

verus! {

/// What the standard base64 alphabet decodes a byte string to: `Some` bytes
/// exactly when the input is well-formed base64.  The result depends on the
/// input alone.
pub uninterp spec fn b64_decode(s: Seq<u8>) -> Option<Seq<u8>>;

/// Relies on the `base64` crate's `STANDARD` engine: `decode` yields the
/// decoded bytes of a well-formed padded base64 string and an error
/// otherwise, as a function of the input alone.
#[verifier::external_body]
pub fn base64_decode(s: &[u8]) -> (r: Option<Vec<u8>>)
    ensures
        match r {
            Some(v) => b64_decode(s@) == Some(v@),
            None => b64_decode(s@) is None,
        },
{
    match base64::engine::general_purpose::STANDARD.decode(s) {
        Ok(v) => Some(v),
        Err(_) => None,
    }
}

/// The `k`-th NUL-separated chunk of `d`; empty when `d` has fewer chunks.
pub open spec fn nth_nul_chunk(d: Seq<u8>, k: nat) -> Seq<u8>
    decreases k,
{
    match find_first(d, seq![0u8]) {
        Some(j) => {
            if k == 0 {
                d.subrange(0, j)
            } else {
                nth_nul_chunk(d.subrange(j + 1, d.len() as int), (k - 1) as nat)
            }
        },
        None => {
            if k == 0 {
                d
            } else {
                Seq::empty()
            }
        },
    }
}

/// The authcid field of an `AUTH PLAIN` blob.
pub open spec fn plain_user(d: Seq<u8>) -> Seq<u8> {
    nth_nul_chunk(d, 1)
}

/// The password field of an `AUTH PLAIN` blob.
pub open spec fn plain_pass(d: Seq<u8>) -> Seq<u8> {
    nth_nul_chunk(d, 2)
}

/// Extract the `k`-th NUL-separated chunk of `d`.
pub fn nul_chunk(d: &[u8], k: usize) -> (r: Vec<u8>)
    ensures
        r@ == nth_nul_chunk(d@, k as nat),
    decreases k,
{
    let mut pat: Vec<u8> = Vec::new();
    pat.push(0);
    proof {
        assert(pat@ =~= seq![0u8]);
    }
    let n = d.len();
    match find_seq(d, pat.as_slice()) {
        Some(j) => {
            if k == 0 {
                subvec(d, 0, j)
            } else {
                let rest = subvec(d, j + 1, n);
                let r = nul_chunk(rest.as_slice(), k - 1);
                r
            }
        },
        None => {
            if k == 0 {
                subvec(d, 0, n)
            } else {
                Vec::new()
            }
        },
    }
}

} // verus!
