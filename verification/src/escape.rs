//! Minimal HTML escaping for text shown in the dashboard.

use crate::bytes::{ascii_seq, copy_bytes, str_bytes};
use vstd::prelude::*;

verus! {

/// What one byte escapes to: `&`, `<` and `>` become entities, everything
/// else stays itself.
pub open spec fn escape_byte(b: u8) -> Seq<u8> {
    if b == 38 {
        ascii_seq("&amp;"@)
    } else if b == 60 {
        ascii_seq("&lt;"@)
    } else if b == 62 {
        ascii_seq("&gt;"@)
    } else {
        seq![b]
    }
}

/// A byte string with every byte escaped, in order.
pub open spec fn escape_seq(s: Seq<u8>) -> Seq<u8>
    decreases s.len(),
{
    if s.len() == 0 {
        Seq::empty()
    } else {
        escape_byte(s[0]) + escape_seq(s.drop_first())
    }
}

proof fn lemma_escape_seq_snoc(s: Seq<u8>, b: u8)
    ensures
        escape_seq(s.push(b)) == escape_seq(s) + escape_byte(b),
    decreases s.len(),
{
    if s.len() == 0 {
        assert(s.push(b)[0] == b);
        assert(s.push(b).drop_first() =~= Seq::<u8>::empty());
        assert(escape_seq(Seq::<u8>::empty()) == Seq::<u8>::empty());
        assert(escape_byte(b) + Seq::<u8>::empty() =~= escape_byte(b));
        assert(escape_seq(s) + escape_byte(b) =~= escape_byte(b));
    } else {
        lemma_escape_seq_snoc(s.drop_first(), b);
        assert(s.push(b)[0] == s[0]);
        assert(s.push(b).drop_first() =~= s.drop_first().push(b));
        assert(escape_byte(s[0]) + (escape_seq(s.drop_first()) + escape_byte(b)) =~= (escape_byte(
            s[0],
        ) + escape_seq(s.drop_first())) + escape_byte(b));
    }
}

/// Escape `&`, `<` and `>` for HTML display.
pub fn html_escape(s: &[u8]) -> (r: Vec<u8>)
    ensures
        r@ == escape_seq(s@),
{
    proof {
        reveal_strlit("&amp;");
        reveal_strlit("&lt;");
        reveal_strlit("&gt;");
    }
    let amp = str_bytes("&amp;");
    let lt = str_bytes("&lt;");
    let gt = str_bytes("&gt;");
    let mut r: Vec<u8> = Vec::new();
    let n = s.len();
    let mut i: usize = 0;
    proof {
        assert(escape_seq(s@.subrange(0, 0)) == Seq::<u8>::empty());
    }
    while i < n
        invariant
            n == s@.len(),
            i <= n,
            amp@ == ascii_seq("&amp;"@),
            lt@ == ascii_seq("&lt;"@),
            gt@ == ascii_seq("&gt;"@),
            r@ == escape_seq(s@.subrange(0, i as int)),
        decreases n - i,
    {
        let b = s[i];
        if b == 38 {
            let mut e = copy_bytes(amp.as_slice());
            r.append(&mut e);
        } else if b == 60 {
            let mut e = copy_bytes(lt.as_slice());
            r.append(&mut e);
        } else if b == 62 {
            let mut e = copy_bytes(gt.as_slice());
            r.append(&mut e);
        } else {
            r.push(b);
            proof {
                assert(escape_seq(s@.subrange(0, i as int)) + seq![b] =~= escape_seq(
                    s@.subrange(0, i as int),
                ).push(b));
            }
        }
        proof {
            lemma_escape_seq_snoc(s@.subrange(0, i as int), s@[i as int]);
            assert(s@.subrange(0, i as int).push(s@[i as int]) =~= s@.subrange(0, i as int + 1));
        }
        i = i + 1;
    }
    proof {
        assert(s@.subrange(0, n as int) =~= s@);
    }
    r
}

} // verus!
