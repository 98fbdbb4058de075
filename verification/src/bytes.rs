//! Byte-sequence helpers shared by the protocol and extraction logic:
//! ASCII case mapping, trimming, prefix tests and substring search.

use vstd::prelude::*;

verus! {

pub const SP: u8 = 32;
pub const CR: u8 = 13;
pub const LF: u8 = 10;
pub const LT: u8 = 60;
pub const GT: u8 = 62;

/// ASCII whitespace, as trimmed from command arguments.
pub open spec fn is_ws(b: u8) -> bool {
    b == SP || 9 <= b <= 13
}

/// A line terminator byte.
pub open spec fn is_line_end(b: u8) -> bool {
    b == CR || b == LF
}

/// An angle bracket, as wrapped around envelope addresses.
pub open spec fn is_angle(b: u8) -> bool {
    b == LT || b == GT
}

/// ASCII uppercase of one byte.
pub open spec fn upper_byte(b: u8) -> u8 {
    if 97 <= b <= 122 {
        (b - 32) as u8
    } else {
        b
    }
}

/// ASCII lowercase of one byte.
pub open spec fn lower_byte(b: u8) -> u8 {
    if 65 <= b <= 90 {
        (b + 32) as u8
    } else {
        b
    }
}

/// ASCII uppercase of a byte sequence.
pub open spec fn upper_seq(s: Seq<u8>) -> Seq<u8> {
    s.map_values(|b: u8| upper_byte(b))
}

/// ASCII lowercase of a byte sequence.
pub open spec fn lower_seq(s: Seq<u8>) -> Seq<u8> {
    s.map_values(|b: u8| lower_byte(b))
}

/// `p` is a prefix of `s`.
pub open spec fn starts_with(s: Seq<u8>, p: Seq<u8>) -> bool {
    p.len() <= s.len() && s.subrange(0, p.len() as int) == p
}

/// `s` with its longest prefix of bytes satisfying `p` removed.
pub open spec fn trim_start(s: Seq<u8>, p: spec_fn(u8) -> bool) -> Seq<u8>
    decreases s.len(),
{
    if s.len() > 0 && p(s[0]) {
        trim_start(s.drop_first(), p)
    } else {
        s
    }
}

/// `s` with its longest suffix of bytes satisfying `p` removed.
pub open spec fn trim_end(s: Seq<u8>, p: spec_fn(u8) -> bool) -> Seq<u8>
    decreases s.len(),
{
    if s.len() > 0 && p(s.last()) {
        trim_end(s.drop_last(), p)
    } else {
        s
    }
}

/// `s` trimmed on both ends.
pub open spec fn trim_with(s: Seq<u8>, p: spec_fn(u8) -> bool) -> Seq<u8> {
    trim_end(trim_start(s, p), p)
}

/// A line with its terminator bytes removed.
pub open spec fn trim_line(s: Seq<u8>) -> Seq<u8> {
    trim_end(s, |b: u8| is_line_end(b))
}

/// The position of the first occurrence of `pat` in `s`, if any.
pub open spec fn find_first(s: Seq<u8>, pat: Seq<u8>) -> Option<int>
    decreases s.len(),
{
    if pat.len() > s.len() {
        None
    } else if s.subrange(0, pat.len() as int) == pat {
        Some(0int)
    } else if s.len() == 0 {
        None
    } else {
        match find_first(s.drop_first(), pat) {
            Some(i) => Some(i + 1),
            None => None,
        }
    }
}

/// The pattern `pat` occurs in `s` at position `i`.
pub open spec fn occurs_at(s: Seq<u8>, pat: Seq<u8>, i: int) -> bool {
    0 <= i && i + pat.len() <= s.len() && s.subrange(i, i + pat.len()) == pat
}

/// The pattern `pat` occurs somewhere in `s`.
pub open spec fn contains_seq(s: Seq<u8>, pat: Seq<u8>) -> bool {
    exists|i: int| occurs_at(s, pat, i)
}

/// `find_first` names exactly the first position where `pat` occurs.
pub proof fn lemma_find_first(s: Seq<u8>, pat: Seq<u8>)
    ensures
        match find_first(s, pat) {
            Some(i) => occurs_at(s, pat, i) && forall|j: int| 0 <= j < i ==> !occurs_at(s, pat, j),
            None => forall|j: int| !occurs_at(s, pat, j),
        },
    decreases s.len(),
{
    if pat.len() > s.len() {
    } else if s.subrange(0, pat.len() as int) == pat {
    } else if s.len() == 0 {
        assert(s.subrange(0, pat.len() as int) =~= pat);
    } else {
        lemma_find_first(s.drop_first(), pat);
        assert forall|j: int| 1 <= j implies (occurs_at(s, pat, j) <==> occurs_at(
            s.drop_first(),
            pat,
            j - 1,
        )) by {
            if 0 <= j - 1 && j - 1 + pat.len() <= s.drop_first().len() {
                assert(s.subrange(j, j + pat.len()) =~= s.drop_first().subrange(
                    j - 1,
                    j - 1 + pat.len(),
                ));
            }
        }
    }
}

/// The longest prefix of `s` free of ASCII whitespace.
pub open spec fn take_nonws(s: Seq<u8>) -> Seq<u8>
    decreases s.len(),
{
    if s.len() > 0 && !is_ws(s[0]) {
        seq![s[0]] + take_nonws(s.drop_first())
    } else {
        Seq::empty()
    }
}

/// `s` with leading ASCII whitespace removed.
pub open spec fn skip_ws(s: Seq<u8>) -> Seq<u8> {
    trim_start(s, |b: u8| is_ws(b))
}

/// `s` with its first whitespace-free run removed.
pub open spec fn skip_nonws(s: Seq<u8>) -> Seq<u8> {
    trim_start(s, |b: u8| !is_ws(b))
}

/// The third whitespace-separated word of `s`, empty when there is none.
pub open spec fn third_word(s: Seq<u8>) -> Seq<u8> {
    take_nonws(skip_ws(skip_nonws(skip_ws(skip_nonws(skip_ws(s))))))
}

pub proof fn lemma_take_nonws_at(s: Seq<u8>, i: int)
    requires
        0 <= i <= s.len(),
        forall|k: int| 0 <= k < i ==> !is_ws(#[trigger] s[k]),
        i < s.len() ==> is_ws(s[i]),
    ensures
        take_nonws(s) == s.subrange(0, i),
    decreases i,
{
    if i == 0 {
        assert(s.subrange(0, 0) =~= Seq::<u8>::empty());
    } else {
        assert(!is_ws(s[0]));
        lemma_take_nonws_at(s.drop_first(), i - 1);
        assert(seq![s[0]] + s.drop_first().subrange(0, i - 1) =~= s.subrange(0, i));
    }
}

pub proof fn lemma_trim_start_at(s: Seq<u8>, p: spec_fn(u8) -> bool, i: int)
    requires
        0 <= i <= s.len(),
        forall|k: int| 0 <= k < i ==> p(#[trigger] s[k]),
        i < s.len() ==> !p(s[i]),
    ensures
        trim_start(s, p) == s.subrange(i, s.len() as int),
    decreases i,
{
    if i == 0 {
        if s.len() == 0 || !p(s[0]) {
            assert(s.subrange(0, s.len() as int) =~= s);
        } else {
            assert(false);
        }
    } else {
        assert(p(s[0]));
        lemma_trim_start_at(s.drop_first(), p, i - 1);
        assert(s.drop_first().subrange(i - 1, s.drop_first().len() as int) =~= s.subrange(
            i,
            s.len() as int,
        ));
    }
}

pub proof fn lemma_trim_end_at(s: Seq<u8>, p: spec_fn(u8) -> bool, j: int)
    requires
        0 <= j <= s.len(),
        forall|k: int| j <= k < s.len() ==> p(#[trigger] s[k]),
        j > 0 ==> !p(s[j - 1]),
    ensures
        trim_end(s, p) == s.subrange(0, j),
    decreases s.len() - j,
{
    if j == s.len() {
        if s.len() == 0 || !p(s.last()) {
            assert(s.subrange(0, s.len() as int) =~= s);
        } else {
            assert(false);
        }
    } else {
        assert(p(s.last()));
        lemma_trim_end_at(s.drop_last(), p, j);
        assert(s.drop_last().subrange(0, j) =~= s.subrange(0, j));
    }
}

/// Uppercase a byte string, ASCII-only.
pub fn to_upper(s: &[u8]) -> (r: Vec<u8>)
    ensures
        r@ == upper_seq(s@),
{
    let mut r: Vec<u8> = Vec::new();
    let mut i: usize = 0;
    while i < s.len()
        invariant
            i <= s.len(),
            r@ == upper_seq(s@.subrange(0, i as int)),
        decreases s.len() - i,
    {
        let b = s[i];
        if 97 <= b && b <= 122 {
            r.push(b - 32);
        } else {
            r.push(b);
        }
        i = i + 1;
        assert(upper_seq(s@.subrange(0, i as int)) =~= upper_seq(
            s@.subrange(0, i as int - 1),
        ).push(upper_byte(s@[i - 1])));
    }
    assert(s@.subrange(0, s@.len() as int) =~= s@);
    r
}

/// Lowercase a byte string, ASCII-only.
pub fn to_lower(s: &[u8]) -> (r: Vec<u8>)
    ensures
        r@ == lower_seq(s@),
{
    let mut r: Vec<u8> = Vec::new();
    let mut i: usize = 0;
    while i < s.len()
        invariant
            i <= s.len(),
            r@ == lower_seq(s@.subrange(0, i as int)),
        decreases s.len() - i,
    {
        let b = s[i];
        if 65 <= b && b <= 90 {
            r.push(b + 32);
        } else {
            r.push(b);
        }
        i = i + 1;
        assert(lower_seq(s@.subrange(0, i as int)) =~= lower_seq(
            s@.subrange(0, i as int - 1),
        ).push(lower_byte(s@[i - 1])));
    }
    assert(s@.subrange(0, s@.len() as int) =~= s@);
    r
}

/// Whether two byte strings are equal.
pub fn bytes_eq(a: &[u8], b: &[u8]) -> (r: bool)
    ensures
        r == (a@ == b@),
{
    if a.len() != b.len() {
        return false;
    }
    let mut i: usize = 0;
    while i < a.len()
        invariant
            i <= a.len(),
            a@.len() == b@.len(),
            forall|k: int| 0 <= k < i ==> a@[k] == b@[k],
        decreases a.len() - i,
    {
        if a[i] != b[i] {
            return false;
        }
        i = i + 1;
    }
    proof {
        assert(a@ =~= b@);
    }
    true
}

/// Whether `p` is a prefix of `s`.
pub fn has_prefix(s: &[u8], p: &[u8]) -> (r: bool)
    ensures
        r == starts_with(s@, p@),
{
    if p.len() > s.len() {
        return false;
    }
    let mut i: usize = 0;
    while i < p.len()
        invariant
            i <= p.len() <= s.len(),
            forall|k: int| 0 <= k < i ==> s@[k] == p@[k],
        decreases p.len() - i,
    {
        if s[i] != p[i] {
            assert(s@.subrange(0, p@.len() as int)[i as int] != p@[i as int]);
            return false;
        }
        i = i + 1;
    }
    proof {
        assert(s@.subrange(0, p@.len() as int) =~= p@);
    }
    true
}

/// Copy `s[from..to]` into a fresh vector.
pub fn subvec(s: &[u8], from: usize, to: usize) -> (r: Vec<u8>)
    requires
        from <= to <= s@.len(),
    ensures
        r@ == s@.subrange(from as int, to as int),
{
    let mut r: Vec<u8> = Vec::new();
    let mut i: usize = from;
    while i < to
        invariant
            from <= i <= to <= s@.len(),
            r@ == s@.subrange(from as int, i as int),
        decreases to - i,
    {
        r.push(s[i]);
        i = i + 1;
        assert(s@.subrange(from as int, i as int) =~= s@.subrange(from as int, i as int - 1).push(
            s@[i - 1],
        ));
    }
    r
}

/// Trim ASCII whitespace from both ends.
pub fn trim_ws(s: &[u8]) -> (r: Vec<u8>)
    ensures
        r@ == trim_with(s@, |b: u8| is_ws(b)),
{
    let mut i: usize = 0;
    while i < s.len() && (s[i] == SP || (9 <= s[i] && s[i] <= 13))
        invariant
            i <= s.len(),
            forall|k: int| 0 <= k < i ==> is_ws(#[trigger] s@[k]),
        decreases s.len() - i,
    {
        i = i + 1;
    }
    let mut j: usize = s.len();
    while j > i && (s[j - 1] == SP || (9 <= s[j - 1] && s[j - 1] <= 13))
        invariant
            i <= j <= s.len(),
            forall|k: int| 0 <= k < i ==> is_ws(#[trigger] s@[k]),
            forall|k: int| j <= k < s.len() ==> is_ws(#[trigger] s@[k]),
        decreases j,
    {
        j = j - 1;
    }
    proof {
        lemma_trim_start_at(s@, |b: u8| is_ws(b), i as int);
        lemma_trim_end_at(
            s@.subrange(i as int, s@.len() as int),
            |b: u8| is_ws(b),
            j - i,
        );
        assert(s@.subrange(i as int, s@.len() as int).subrange(0, j - i) =~= s@.subrange(
            i as int,
            j as int,
        ));
    }
    subvec(s, i, j)
}

/// Trim line terminators from the end of a line.
pub fn trim_line_ends(s: &[u8]) -> (r: Vec<u8>)
    ensures
        r@ == trim_line(s@),
{
    let mut j: usize = s.len();
    while j > 0 && (s[j - 1] == CR || s[j - 1] == LF)
        invariant
            j <= s.len(),
            forall|k: int| j <= k < s.len() ==> is_line_end(#[trigger] s@[k]),
        decreases j,
    {
        j = j - 1;
    }
    proof {
        lemma_trim_end_at(s@, |b: u8| is_line_end(b), j as int);
    }
    subvec(s, 0, j)
}

/// Trim angle brackets from both ends.
pub fn trim_angles(s: &[u8]) -> (r: Vec<u8>)
    ensures
        r@ == trim_with(s@, |b: u8| is_angle(b)),
{
    let mut i: usize = 0;
    while i < s.len() && (s[i] == LT || s[i] == GT)
        invariant
            i <= s.len(),
            forall|k: int| 0 <= k < i ==> is_angle(#[trigger] s@[k]),
        decreases s.len() - i,
    {
        i = i + 1;
    }
    let mut j: usize = s.len();
    while j > i && (s[j - 1] == LT || s[j - 1] == GT)
        invariant
            i <= j <= s.len(),
            forall|k: int| 0 <= k < i ==> is_angle(#[trigger] s@[k]),
            forall|k: int| j <= k < s.len() ==> is_angle(#[trigger] s@[k]),
        decreases j,
    {
        j = j - 1;
    }
    proof {
        lemma_trim_start_at(s@, |b: u8| is_angle(b), i as int);
        lemma_trim_end_at(
            s@.subrange(i as int, s@.len() as int),
            |b: u8| is_angle(b),
            j - i,
        );
        assert(s@.subrange(i as int, s@.len() as int).subrange(0, j - i) =~= s@.subrange(
            i as int,
            j as int,
        ));
    }
    subvec(s, i, j)
}

/// A quote character, as wrapped around a filename parameter.
pub open spec fn is_quote(b: u8) -> bool {
    b == 34 || b == 39
}

/// Trim double and single quotes from both ends.
pub fn trim_quotes(s: &[u8]) -> (r: Vec<u8>)
    ensures
        r@ == trim_with(s@, |b: u8| is_quote(b)),
{
    let mut i: usize = 0;
    while i < s.len() && (s[i] == 34 || s[i] == 39)
        invariant
            i <= s.len(),
            forall|k: int| 0 <= k < i ==> is_quote(#[trigger] s@[k]),
        decreases s.len() - i,
    {
        i = i + 1;
    }
    let mut j: usize = s.len();
    while j > i && (s[j - 1] == 34 || s[j - 1] == 39)
        invariant
            i <= j <= s.len(),
            forall|k: int| 0 <= k < i ==> is_quote(#[trigger] s@[k]),
            forall|k: int| j <= k < s.len() ==> is_quote(#[trigger] s@[k]),
        decreases j,
    {
        j = j - 1;
    }
    proof {
        lemma_trim_start_at(s@, |b: u8| is_quote(b), i as int);
        lemma_trim_end_at(
            s@.subrange(i as int, s@.len() as int),
            |b: u8| is_quote(b),
            j - i,
        );
        assert(s@.subrange(i as int, s@.len() as int).subrange(0, j - i) =~= s@.subrange(
            i as int,
            j as int,
        ));
    }
    subvec(s, i, j)
}

/// Whether `pat` occurs in `s` starting at `at`.
fn occurs_at_exec(s: &[u8], pat: &[u8], at: usize) -> (r: bool)
    requires
        at + pat@.len() <= s@.len(),
        s@.len() <= usize::MAX,
    ensures
        r == occurs_at(s@, pat@, at as int),
{
    let mut i: usize = 0;
    while i < pat.len()
        invariant
            i <= pat.len(),
            at + pat@.len() <= s@.len() <= usize::MAX,
            forall|k: int| 0 <= k < i ==> s@[at + k] == pat@[k],
        decreases pat.len() - i,
    {
        if s[at + i] != pat[i] {
            assert(s@.subrange(at as int, at + pat@.len())[i as int] != pat@[i as int]);
            return false;
        }
        i = i + 1;
    }
    proof {
        assert(s@.subrange(at as int, at + pat@.len()) =~= pat@);
    }
    true
}

/// Find the first occurrence of `pat` in `s`.
pub fn find_seq(s: &[u8], pat: &[u8]) -> (r: Option<usize>)
    ensures
        match r {
            Some(i) => find_first(s@, pat@) == Some(i as int) && occurs_at(s@, pat@, i as int)
                && forall|j: int| 0 <= j < i ==> !occurs_at(s@, pat@, j),
            None => find_first(s@, pat@) is None && forall|j: int| !occurs_at(s@, pat@, j),
        },
{
    proof {
        lemma_find_first(s@, pat@);
    }
    if pat.len() > s.len() {
        assert(forall|j: int| !occurs_at(s@, pat@, j));
        return None;
    }
    if pat.len() == 0 {
        assert(s@.subrange(0, 0) =~= pat@);
        return Some(0);
    }
    let mut at: usize = 0;
    while at <= s.len() - pat.len()
        invariant
            1 <= pat@.len() <= s@.len() <= usize::MAX,
            at <= s@.len() - pat@.len() + 1,
            forall|j: int| 0 <= j < at ==> !occurs_at(s@, pat@, j),
        decreases s@.len() + 1 - at,
    {
        if occurs_at_exec(s, pat, at) {
            proof {
                lemma_find_first(s@, pat@);
            }
            return Some(at);
        }
        at = at + 1;
    }
    proof {
        lemma_find_first(s@, pat@);
    }
    return None;
}

/// The bytes of an ASCII character sequence, one byte per character.
pub open spec fn ascii_seq(s: Seq<char>) -> Seq<u8> {
    Seq::new(s.len(), |i: int| s[i] as u8)
}

/// The bytes of an ASCII string, for keyword and header-name constants.
pub fn str_bytes(s: &str) -> (r: Vec<u8>)
    requires
        s.is_ascii(),
    ensures
        r@ == ascii_seq(s@),
{
    broadcast use vstd::string::is_ascii_spec_bytes;

    let r = s.as_bytes_vec();
    proof {
        assert(r@ =~= ascii_seq(s@));
    }
    r
}

/// Whether `pat` occurs anywhere in `s`.
pub fn contains_bytes(s: &[u8], pat: &[u8]) -> (r: bool)
    ensures
        r == contains_seq(s@, pat@),
{
    match find_seq(s, pat) {
        Some(i) => {
            assert(occurs_at(s@, pat@, i as int));
            true
        },
        None => false,
    }
}

/// Copy a byte string into a fresh vector.
pub fn copy_bytes(v: &[u8]) -> (r: Vec<u8>)
    ensures
        r@ == v@,
{
    let r = subvec(v, 0, v.len());
    proof {
        assert(v@.subrange(0, v@.len() as int) =~= v@);
    }
    r
}

/// Copy a list of byte strings into a fresh vector.
pub fn copy_byte_list(v: &Vec<Vec<u8>>) -> (r: Vec<Vec<u8>>)
    ensures
        r.deep_view() == v.deep_view(),
{
    let mut r: Vec<Vec<u8>> = Vec::new();
    let mut i: usize = 0;
    while i < v.len()
        invariant
            i <= v.len(),
            r@.len() == i,
            forall|k: int| 0 <= k < i ==> r@[k]@ == #[trigger] v@[k]@,
        decreases v.len() - i,
    {
        r.push(copy_bytes(v[i].as_slice()));
        i = i + 1;
    }
    proof {
        assert(r.deep_view() =~= v.deep_view());
    }
    r
}

/// Copy an optional byte string.
pub fn copy_opt_bytes(v: &Option<Vec<u8>>) -> (r: Option<Vec<u8>>)
    ensures
        r.deep_view() == v.deep_view(),
{
    match v {
        Some(b) => {
            let c = copy_bytes(b.as_slice());
            proof {
                assert(c.deep_view() =~= b.deep_view());
            }
            Some(c)
        },
        None => None,
    }
}

/// The third whitespace-separated word of a line, empty when there is none.
pub fn word3(s: &[u8]) -> (r: Vec<u8>)
    ensures
        r@ == third_word(s@),
{
    let n = s.len();
    let mut i: usize = 0;
    while i < n && (s[i] == SP || (9 <= s[i] && s[i] <= 13))
        invariant
            i <= n == s@.len(),
            forall|k: int| 0 <= k < i ==> is_ws(#[trigger] s@[k]),
        decreases n - i,
    {
        i = i + 1;
    }
    let i1 = i;
    while i < n && !(s[i] == SP || (9 <= s[i] && s[i] <= 13))
        invariant
            i1 <= i <= n == s@.len(),
            forall|k: int| i1 <= k < i ==> !is_ws(#[trigger] s@[k]),
        decreases n - i,
    {
        i = i + 1;
    }
    let i2 = i;
    while i < n && (s[i] == SP || (9 <= s[i] && s[i] <= 13))
        invariant
            i2 <= i <= n == s@.len(),
            forall|k: int| i2 <= k < i ==> is_ws(#[trigger] s@[k]),
        decreases n - i,
    {
        i = i + 1;
    }
    let i3 = i;
    while i < n && !(s[i] == SP || (9 <= s[i] && s[i] <= 13))
        invariant
            i3 <= i <= n == s@.len(),
            forall|k: int| i3 <= k < i ==> !is_ws(#[trigger] s@[k]),
        decreases n - i,
    {
        i = i + 1;
    }
    let i4 = i;
    while i < n && (s[i] == SP || (9 <= s[i] && s[i] <= 13))
        invariant
            i4 <= i <= n == s@.len(),
            forall|k: int| i4 <= k < i ==> is_ws(#[trigger] s@[k]),
        decreases n - i,
    {
        i = i + 1;
    }
    let i5 = i;
    while i < n && !(s[i] == SP || (9 <= s[i] && s[i] <= 13))
        invariant
            i5 <= i <= n == s@.len(),
            forall|k: int| i5 <= k < i ==> !is_ws(#[trigger] s@[k]),
        decreases n - i,
    {
        i = i + 1;
    }
    let i6 = i;
    proof {
        let v = s@;
        lemma_trim_start_at(v, |b: u8| is_ws(b), i1 as int);
        let v1 = v.subrange(i1 as int, v.len() as int);
        lemma_trim_start_at(v1, |b: u8| !is_ws(b), i2 - i1);
        assert(v1.subrange(i2 - i1, v1.len() as int) =~= v.subrange(i2 as int, v.len() as int));
        let v2 = v.subrange(i2 as int, v.len() as int);
        lemma_trim_start_at(v2, |b: u8| is_ws(b), i3 - i2);
        assert(v2.subrange(i3 - i2, v2.len() as int) =~= v.subrange(i3 as int, v.len() as int));
        let v3 = v.subrange(i3 as int, v.len() as int);
        lemma_trim_start_at(v3, |b: u8| !is_ws(b), i4 - i3);
        assert(v3.subrange(i4 - i3, v3.len() as int) =~= v.subrange(i4 as int, v.len() as int));
        let v4 = v.subrange(i4 as int, v.len() as int);
        lemma_trim_start_at(v4, |b: u8| is_ws(b), i5 - i4);
        assert(v4.subrange(i5 - i4, v4.len() as int) =~= v.subrange(i5 as int, v.len() as int));
        let v5 = v.subrange(i5 as int, v.len() as int);
        lemma_take_nonws_at(v5, i6 - i5);
        assert(v5.subrange(0, i6 - i5) =~= v.subrange(i5 as int, i6 as int));
    }
    subvec(s, i5, i6)
}

} // verus!
