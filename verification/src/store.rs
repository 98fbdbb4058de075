//! The store URL: which file, if any, a SQLite URL names, so that the
//! surrounding program can create it before connecting.

use crate::bytes::{ascii_seq, find_first, find_seq, has_prefix, starts_with, str_bytes, subvec};
use vstd::prelude::*;

verus! {

/// `s` with every repetition of the prefix `pat` removed from its front.
pub open spec fn strip_prefix_rep(s: Seq<u8>, pat: Seq<u8>) -> Seq<u8>
    decreases s.len(),
{
    if pat.len() > 0 && starts_with(s, pat) {
        strip_prefix_rep(s.subrange(pat.len() as int, s.len() as int), pat)
    } else {
        s
    }
}

/// The file a SQLite URL names: nothing for other schemes, for `:memory:`,
/// and for an empty path; otherwise the path up to an optional `?`.
pub open spec fn spec_sqlite_path(url: Seq<u8>) -> Option<Seq<u8>> {
    if !starts_with(url, ascii_seq("sqlite:"@)) {
        None
    } else {
        let pp = strip_prefix_rep(url, ascii_seq("sqlite://"@));
        if pp == ascii_seq(":memory:"@) {
            None
        } else {
            let po = match find_first(pp, seq![63u8]) {
                Some(i) => pp.subrange(0, i),
                None => pp,
            };
            if po.len() == 0 {
                None
            } else {
                Some(po)
            }
        }
    }
}

/// The file to make sure exists for a given store URL, if any.
pub fn sqlite_file_path(url: &[u8]) -> (r: Option<Vec<u8>>)
    ensures
        r.deep_view() == spec_sqlite_path(url@),
{
    proof {
        reveal_strlit("sqlite:");
        reveal_strlit("sqlite://");
        reveal_strlit(":memory:");
    }
    let scheme = str_bytes("sqlite:");
    if !has_prefix(url, scheme.as_slice()) {
        return None;
    }
    let pat = str_bytes("sqlite://");
    let mut pp = subvec(url, 0, url.len());
    proof {
        assert(url@.subrange(0, url@.len() as int) =~= url@);
    }
    while has_prefix(pp.as_slice(), pat.as_slice())
        invariant
            pat@ == ascii_seq("sqlite://"@),
            pat@.len() == 9,
            strip_prefix_rep(pp@, pat@) == strip_prefix_rep(url@, pat@),
        decreases pp@.len(),
    {
        let next = subvec(pp.as_slice(), 9, pp.len());
        pp = next;
    }
    let memory = str_bytes(":memory:");
    if crate::bytes::bytes_eq(pp.as_slice(), memory.as_slice()) {
        return None;
    }
    let mut qmark: Vec<u8> = Vec::new();
    qmark.push(63);
    proof {
        assert(qmark@ =~= seq![63u8]);
    }
    let po = match find_seq(pp.as_slice(), qmark.as_slice()) {
        Some(i) => subvec(pp.as_slice(), 0, i),
        None => pp,
    };
    if po.len() == 0 {
        None
    } else {
        Some(po)
    }
}

} // verus!
