//! Extraction over a decoded MIME tree: the header map, the first text and
//! HTML bodies, the attachment candidates, and the assembly of a decoded
//! message ready for storage.

use crate::bytes::{
    ascii_seq, contains_bytes, contains_seq, copy_bytes, find_first, find_seq, is_ws, lower_seq,
    str_bytes, subvec, to_lower, trim_with, trim_ws,
};
use crate::mime::{
    decode_mime, lemma_node_views_index, lemma_node_views_len, mime_tree, node_views, MimeError,
    MimeNode, NodeView,
};
use vstd::prelude::*;

verus! {

broadcast use vstd::seq::axiom_seq_index_decreases, vstd::seq::axiom_seq_subrange_decreases, vstd::std_specs::vec::axiom_vec_decreases_to_view, vstd::std_specs::vec::axiom_vec_index_decreases;

/// The map that a list of entries stands for: a later entry with the same
/// key overrides an earlier one.
pub open spec fn assoc_map(es: Seq<(Vec<u8>, Vec<u8>)>) -> Map<Seq<u8>, Seq<u8>>
    decreases es.len(),
{
    if es.len() == 0 {
        Map::empty()
    } else {
        assoc_map(es.drop_last()).insert(es.last().0@, es.last().1@)
    }
}

/// A header map with lowercased keys, kept as a list of distinct-key entries
/// in first-insertion order, so that its serialized form is deterministic.
pub struct HeaderList {
    entries: Vec<(Vec<u8>, Vec<u8>)>,
}

impl View for HeaderList {
    type V = Map<Seq<u8>, Seq<u8>>;

    closed spec fn view(&self) -> Map<Seq<u8>, Seq<u8>> {
        assoc_map(self.entries@)
    }
}

proof fn lemma_assoc_map_contains(es: Seq<(Vec<u8>, Vec<u8>)>, k: Seq<u8>)
    ensures
        assoc_map(es).contains_key(k) <==> exists|i: int|
            0 <= i < es.len() && #[trigger] es[i].0@ == k,
    decreases es.len(),
{
    if es.len() > 0 {
        lemma_assoc_map_contains(es.drop_last(), k);
        if es.last().0@ == k {
            assert(es[es.len() - 1].0@ == k);
        } else if assoc_map(es).contains_key(k) {
            let i = choose|i: int| 0 <= i < es.drop_last().len() && #[trigger] es.drop_last()[i].0@
                == k;
            assert(es[i].0@ == k);
        } else {
            assert forall|i: int| 0 <= i < es.len() implies #[trigger] es[i].0@ != k by {
                if i < es.len() - 1 {
                    assert(es.drop_last()[i].0@ == es[i].0@);
                }
            }
        }
    }
}

proof fn lemma_assoc_map_value(es: Seq<(Vec<u8>, Vec<u8>)>, i: int)
    requires
        0 <= i < es.len(),
        forall|a: int, b: int|
            0 <= a < b < es.len() ==> (#[trigger] es[a].0@) != (#[trigger] es[b].0@),
    ensures
        assoc_map(es).contains_key(es[i].0@),
        assoc_map(es)[es[i].0@] == es[i].1@,
    decreases es.len(),
{
    if i == es.len() - 1 {
    } else {
        lemma_assoc_map_value(es.drop_last(), i);
        assert(es.drop_last()[i] == es[i]);
        assert(es.last().0@ != es[i].0@);
    }
}

proof fn lemma_assoc_map_update(es: Seq<(Vec<u8>, Vec<u8>)>, i: int, e: (Vec<u8>, Vec<u8>))
    requires
        0 <= i < es.len(),
        es[i].0@ == e.0@,
        forall|a: int, b: int|
            0 <= a < b < es.len() ==> (#[trigger] es[a].0@) != (#[trigger] es[b].0@),
    ensures
        assoc_map(es.update(i, e)) == assoc_map(es).insert(e.0@, e.1@),
    decreases es.len(),
{
    let up = es.update(i, e);
    if i == es.len() - 1 {
        assert(up.drop_last() =~= es.drop_last());
        assert(assoc_map(up) =~= assoc_map(es).insert(e.0@, e.1@));
    } else {
        lemma_assoc_map_update(es.drop_last(), i, e);
        assert(up.drop_last() =~= es.drop_last().update(i, e));
        assert(up.last() == es.last());
        assert(es.last().0@ != e.0@);
        assert(assoc_map(up) =~= assoc_map(es).insert(e.0@, e.1@));
    }
}

impl HeaderList {
    /// The entry keys are pairwise distinct.
    pub closed spec fn wf(&self) -> bool {
        forall|a: int, b: int|
            0 <= a < b < self.entries@.len() ==> (#[trigger] self.entries@[a].0@) != (
            #[trigger] self.entries@[b].0@)
    }

    /// An empty header map.
    pub fn new() -> (r: HeaderList)
        ensures
            r.wf(),
            r@ == Map::<Seq<u8>, Seq<u8>>::empty(),
    {
        HeaderList { entries: Vec::new() }
    }

    /// Bind `k` to `v`, overriding an earlier binding of the same key but
    /// keeping its position.
    pub fn set(&mut self, k: Vec<u8>, v: Vec<u8>)
        requires
            old(self).wf(),
        ensures
            final(self).wf(),
            final(self)@ == old(self)@.insert(k@, v@),
    {
        let n = self.entries.len();
        let mut i: usize = 0;
        while i < n
            invariant
                n == self.entries@.len(),
                i <= n,
                self == old(self),
                self.wf(),
                forall|j: int| 0 <= j < i ==> (#[trigger] self.entries@[j].0@) != k@,
            decreases n - i,
        {
            if crate::bytes::bytes_eq(self.entries[i].0.as_slice(), k.as_slice()) {
                proof {
                    lemma_assoc_map_update(self.entries@, i as int, (k, v));
                }
                let ghost before = self.entries@;
                self.entries.set(i, (k, v));
                proof {
                    assert(self.entries@[i as int].0@ == before[i as int].0@);
                    assert forall|a: int, b: int|
                        0 <= a < b < self.entries@.len() implies (#[trigger] self.entries@[a].0@)
                        != (#[trigger] self.entries@[b].0@) by {
                        assert(self.entries@[a].0@ == before[a].0@);
                        assert(self.entries@[b].0@ == before[b].0@);
                    }
                }
                return ;
            }
            i = i + 1;
        }
        proof {
            let es = self.entries@.push((k, v));
            assert(es.drop_last() =~= self.entries@);
            lemma_assoc_map_contains(self.entries@, k@);
        }
        self.entries.push((k, v));
    }

    /// Look a key up.
    pub fn get(&self, k: &[u8]) -> (r: Option<&Vec<u8>>)
        requires
            self.wf(),
        ensures
            match r {
                Some(v) => self@.contains_key(k@) && v@ == self@[k@],
                None => !self@.contains_key(k@),
            },
    {
        let n = self.entries.len();
        let mut i: usize = 0;
        while i < n
            invariant
                self.wf(),
                n == self.entries@.len(),
                i <= n,
                forall|j: int| 0 <= j < i ==> (#[trigger] self.entries@[j].0@) != k@,
            decreases n - i,
        {
            if crate::bytes::bytes_eq(self.entries[i].0.as_slice(), k) {
                proof {
                    lemma_assoc_map_value(self.entries@, i as int);
                }
                return Some(&self.entries[i].1);
            }
            i = i + 1;
        }
        proof {
            lemma_assoc_map_contains(self.entries@, k@);
        }
        None
    }

    /// Whether a key is bound.
    pub fn contains_key(&self, k: &[u8]) -> (r: bool)
        requires
            self.wf(),
        ensures
            r == self@.contains_key(k@),
    {
        match self.get(k) {
            Some(_) => true,
            None => false,
        }
    }

    /// Whether the map holds nothing.
    pub fn is_empty(&self) -> (r: bool)
        requires
            self.wf(),
        ensures
            r == (self@ == Map::<Seq<u8>, Seq<u8>>::empty()),
    {
        if self.entries.len() == 0 {
            proof {
                assert(self@ =~= Map::<Seq<u8>, Seq<u8>>::empty());
            }
            true
        } else {
            proof {
                lemma_assoc_map_contains(self.entries@, self.entries@.last().0@);
                assert(self.entries@[self.entries@.len() - 1].0@ == self.entries@.last().0@);
            }
            false
        }
    }

    /// The entries, in first-insertion order; each pair is a binding of the
    /// map, and every key of the map appears exactly once.
    pub fn pairs(&self) -> (r: &Vec<(Vec<u8>, Vec<u8>)>)
        requires
            self.wf(),
        ensures
            forall|i: int|
                0 <= i < r@.len() ==> self@.contains_key(#[trigger] r@[i].0@) && self@[r@[i].0@]
                    == r@[i].1@,
            forall|k: Seq<u8>| self@.contains_key(k) ==> exists|i: int|
                0 <= i < r@.len() && (#[trigger] r@[i].0@) == k,
            forall|a: int, b: int|
                0 <= a < b < r@.len() ==> (#[trigger] r@[a].0@) != (#[trigger] r@[b].0@),
    {
        proof {
            assert forall|i: int| 0 <= i < self.entries@.len() implies self@.contains_key(
                #[trigger] self.entries@[i].0@,
            ) && self@[self.entries@[i].0@] == self.entries@[i].1@ by {
                lemma_assoc_map_value(self.entries@, i);
            }
            assert forall|k: Seq<u8>| self@.contains_key(k) implies exists|i: int|
                0 <= i < self.entries@.len() && (#[trigger] self.entries@[i].0@) == k by {
                lemma_assoc_map_contains(self.entries@, k);
            }
        }
        &self.entries
    }
}

// Content types with a special role in body selection.
pub open spec fn ct_plain() -> Seq<u8> {
    ascii_seq("text/plain"@)
}

pub open spec fn ct_html() -> Seq<u8> {
    ascii_seq("text/html"@)
}

/// The earlier of two candidate bodies: a body found first stays.
pub open spec fn first_some(a: Option<Seq<u8>>, b: Option<Seq<u8>>) -> Option<Seq<u8>> {
    if a is Some {
        a
    } else {
        b
    }
}

/// The (text, html) bodies of a node: a leaf is one or the other by content
/// type; a container keeps the first body of each kind found across its
/// children, in order.
pub open spec fn spec_bodies(n: NodeView) -> (Option<Seq<u8>>, Option<Seq<u8>>)
    decreases n,
{
    if n.children.len() == 0 {
        if n.ctype == ct_html() {
            (None, Some(n.text))
        } else {
            (Some(n.text), None)
        }
    } else {
        spec_bodies_list(n.children)
    }
}

pub open spec fn spec_bodies_list(cs: Seq<NodeView>) -> (Option<Seq<u8>>, Option<Seq<u8>>)
    decreases cs,
{
    if cs.len() == 0 {
        (None, None)
    } else {
        let hd = spec_bodies(cs[0]);
        let tl = spec_bodies_list(cs.drop_first());
        (first_some(hd.0, tl.0), first_some(hd.1, tl.1))
    }
}

proof fn lemma_bodies_list_snoc(cs: Seq<NodeView>, c: NodeView)
    ensures
        spec_bodies_list(cs.push(c)) == (
            first_some(spec_bodies_list(cs).0, spec_bodies(c).0),
            first_some(spec_bodies_list(cs).1, spec_bodies(c).1),
        ),
    decreases cs.len(),
{
    if cs.len() == 0 {
        assert(cs.push(c)[0] == c);
        assert(cs.push(c).drop_first() =~= Seq::<NodeView>::empty());
        assert(spec_bodies_list(Seq::<NodeView>::empty()) == (
            None::<Seq<u8>>,
            None::<Seq<u8>>,
        ));
        assert(spec_bodies_list(cs.push(c)) == (
            first_some(spec_bodies(c).0, None),
            first_some(spec_bodies(c).1, None),
        ));
    } else {
        lemma_bodies_list_snoc(cs.drop_first(), c);
        assert(cs.push(c).drop_first() =~= cs.drop_first().push(c));
        assert(cs.push(c)[0] == cs[0]);
        assert(spec_bodies_list(cs.push(c)) == (
            first_some(spec_bodies(cs[0]).0, spec_bodies_list(cs.drop_first().push(c)).0),
            first_some(spec_bodies(cs[0]).1, spec_bodies_list(cs.drop_first().push(c)).1),
        ));
        assert(spec_bodies_list(cs) == (
            first_some(spec_bodies(cs[0]).0, spec_bodies_list(cs.drop_first()).0),
            first_some(spec_bodies(cs[0]).1, spec_bodies_list(cs.drop_first()).1),
        ));
    }
}

/// Extract the first text body and the first HTML body of a decoded tree.
pub fn extract_bodies(node: &MimeNode) -> (r: (Option<Vec<u8>>, Option<Vec<u8>>))
    ensures
        r.0.deep_view() == spec_bodies(node@).0,
        r.1.deep_view() == spec_bodies(node@).1,
    decreases node,
{
    let n = node.children.len();
    if n == 0 {
        proof {
            reveal_strlit("text/html");
        }
        let html_ct = str_bytes("text/html");
        if crate::bytes::bytes_eq(node.ctype.as_slice(), html_ct.as_slice()) {
            let body = copy_bytes(node.text.as_slice());
            (None, Some(body))
        } else {
            let body = copy_bytes(node.text.as_slice());
            (Some(body), None)
        }
    } else {
        let mut text: Option<Vec<u8>> = None;
        let mut html: Option<Vec<u8>> = None;
        let mut i: usize = 0;
        proof {
            lemma_node_views_len(node.children@);
            assert(node@.children.subrange(0, 0) =~= Seq::<NodeView>::empty());
        }
        while i < n
            invariant
                n == node.children@.len(),
                node@.children.len() == n,
                node@.children == node_views(node.children@),
                i <= n,
                text.deep_view() == spec_bodies_list(node@.children.subrange(0, i as int)).0,
                html.deep_view() == spec_bodies_list(node@.children.subrange(0, i as int)).1,
            decreases n - i,
        {
            let child = &node.children[i];
            let cr = extract_bodies(child);
            let ghost c0 = cr.0.deep_view();
            let ghost c1 = cr.1.deep_view();
            proof {
                lemma_node_views_index(node.children@, i as int);
                lemma_bodies_list_snoc(node@.children.subrange(0, i as int), node@.children[i as int]);
                assert(node@.children.subrange(0, i as int).push(node@.children[i as int])
                    =~= node@.children.subrange(0, i as int + 1));
            }
            if text.is_none() && cr.0.is_some() {
                text = cr.0;
            }
            if html.is_none() && cr.1.is_some() {
                html = cr.1;
            }
            i = i + 1;
        }
        proof {
            assert(node@.children.subrange(0, n as int) =~= node@.children);
        }
        (text, html)
    }
}

/// One attachment candidate pulled out of a message.
pub struct Attachment {
    /// The filename, from the disposition header or a `name` parameter.
    pub filename: Option<Vec<u8>>,
    /// The part's content type.
    pub ctype: Vec<u8>,
    /// The part's bytes with the transfer encoding unapplied.
    pub data: Vec<u8>,
}

/// The mathematical shape of an [`Attachment`].
#[verifier::ext_equal]
pub ghost struct AttachmentView {
    pub filename: Option<Seq<u8>>,
    pub ctype: Seq<u8>,
    pub data: Seq<u8>,
}

impl View for Attachment {
    type V = AttachmentView;

    open spec fn view(&self) -> AttachmentView {
        AttachmentView {
            filename: self.filename.deep_view(),
            ctype: self.ctype@,
            data: self.data@,
        }
    }
}

impl DeepView for Attachment {
    type V = AttachmentView;

    open spec fn deep_view(&self) -> AttachmentView {
        self.view()
    }
}

/// The header name that carries the disposition.
pub open spec fn hk_disposition() -> Seq<u8> {
    ascii_seq("content-disposition"@)
}

/// The first header whose lowercased name is `key`.
pub open spec fn first_header(hs: Seq<(Seq<u8>, Seq<u8>)>, key: Seq<u8>) -> Option<Seq<u8>>
    decreases hs.len(),
{
    if hs.len() == 0 {
        None
    } else if lower_seq(hs[0].0) == key {
        Some(hs[0].1)
    } else {
        first_header(hs.drop_first(), key)
    }
}

/// The node's disposition header value, empty when absent.
pub open spec fn disp_of(n: NodeView) -> Seq<u8> {
    match first_header(n.headers, hk_disposition()) {
        Some(v) => v,
        None => Seq::empty(),
    }
}

/// `s` cut at its first semicolon, if any.
pub open spec fn cut_semi(s: Seq<u8>) -> Seq<u8> {
    match find_first(s, seq![59u8]) {
        Some(i) => s.subrange(0, i),
        None => s,
    }
}

/// The filename carried by a disposition value: the text after the first
/// case-insensitive `filename=`, whitespace- then quote-trimmed, cut at the
/// next semicolon; absent when that leaves nothing.
pub open spec fn filename_of_disp(disp: Seq<u8>) -> Option<Seq<u8>> {
    match find_first(lower_seq(disp), ascii_seq("filename="@)) {
        Some(pos) => {
            let cleaned = cut_semi(
                trim_with(
                    trim_with(disp.subrange(pos + 9, disp.len() as int), |b: u8| is_ws(b)),
                    |b: u8| crate::bytes::is_quote(b),
                ),
            );
            if cleaned.len() > 0 {
                Some(cleaned)
            } else {
                None
            }
        },
        None => None,
    }
}

/// The first content-type parameter named `name`, case-insensitively.
pub open spec fn name_param(ps: Seq<(Seq<u8>, Seq<u8>)>) -> Option<Seq<u8>>
    decreases ps.len(),
{
    if ps.len() == 0 {
        None
    } else if lower_seq(ps[0].0) == ascii_seq("name"@) {
        Some(ps[0].1)
    } else {
        name_param(ps.drop_first())
    }
}

/// The filename of a leaf part: the disposition's, else a `name` parameter.
pub open spec fn leaf_filename(n: NodeView) -> Option<Seq<u8>> {
    match filename_of_disp(disp_of(n)) {
        Some(f) => Some(f),
        None => name_param(n.params),
    }
}

/// Whether a leaf is an attachment candidate: its disposition mentions
/// `attachment`, or it names a file, or its content type is neither plain
/// text nor HTML.
pub open spec fn leaf_is_attachment(n: NodeView) -> bool {
    contains_seq(lower_seq(disp_of(n)), ascii_seq("attachment"@)) || leaf_filename(n) is Some || !(
    n.ctype == ct_plain() || n.ctype == ct_html())
}

/// The attachment candidates of a tree, in traversal order; container nodes
/// contribute nothing of their own.
pub open spec fn spec_attachments(n: NodeView) -> Seq<AttachmentView>
    decreases n,
{
    if n.children.len() == 0 {
        if leaf_is_attachment(n) {
            seq![AttachmentView { filename: leaf_filename(n), ctype: n.ctype, data: n.raw }]
        } else {
            Seq::empty()
        }
    } else {
        attachments_of_list(n.children)
    }
}

pub open spec fn attachments_of_list(cs: Seq<NodeView>) -> Seq<AttachmentView>
    decreases cs,
{
    if cs.len() == 0 {
        Seq::empty()
    } else {
        spec_attachments(cs[0]) + attachments_of_list(cs.drop_first())
    }
}

proof fn lemma_attachments_list_snoc(cs: Seq<NodeView>, c: NodeView)
    ensures
        attachments_of_list(cs.push(c)) == attachments_of_list(cs) + spec_attachments(c),
    decreases cs.len(),
{
    if cs.len() == 0 {
        assert(cs.push(c)[0] == c);
        assert(cs.push(c).drop_first() =~= Seq::<NodeView>::empty());
        assert(attachments_of_list(Seq::<NodeView>::empty()) == Seq::<AttachmentView>::empty());
        assert(attachments_of_list(cs.push(c)) =~= attachments_of_list(cs) + spec_attachments(c));
    } else {
        lemma_attachments_list_snoc(cs.drop_first(), c);
        assert(cs.push(c).drop_first() =~= cs.drop_first().push(c));
        assert(cs.push(c)[0] == cs[0]);
        assert(attachments_of_list(cs.push(c)) == spec_attachments(cs[0]) + attachments_of_list(
            cs.drop_first().push(c),
        ));
        assert(attachments_of_list(cs) == spec_attachments(cs[0]) + attachments_of_list(
            cs.drop_first(),
        ));
        assert(attachments_of_list(cs.push(c)) =~= attachments_of_list(cs) + spec_attachments(c));
    }
}

proof fn lemma_first_header_at(hs: Seq<(Seq<u8>, Seq<u8>)>, key: Seq<u8>, j: int)
    requires
        0 <= j <= hs.len(),
        forall|m: int| 0 <= m < j ==> lower_seq((#[trigger] hs[m]).0) != key,
        j < hs.len() ==> lower_seq(hs[j].0) == key,
    ensures
        first_header(hs, key) == (if j < hs.len() {
            Some(hs[j].1)
        } else {
            None
        }),
    decreases j + 1,
{
    if hs.len() == 0 {
    } else if lower_seq(hs[0].0) == key {
        assert(j == 0);
    } else {
        assert(j >= 1);
        lemma_first_header_at(hs.drop_first(), key, j - 1);
    }
}

proof fn lemma_name_param_at(ps: Seq<(Seq<u8>, Seq<u8>)>, j: int)
    requires
        0 <= j <= ps.len(),
        forall|m: int| 0 <= m < j ==> lower_seq((#[trigger] ps[m]).0) != ascii_seq("name"@),
        j < ps.len() ==> lower_seq(ps[j].0) == ascii_seq("name"@),
    ensures
        name_param(ps) == (if j < ps.len() {
            Some(ps[j].1)
        } else {
            None
        }),
    decreases j + 1,
{
    if ps.len() == 0 {
    } else if lower_seq(ps[0].0) == ascii_seq("name"@) {
        assert(j == 0);
    } else {
        assert(j >= 1);
        lemma_name_param_at(ps.drop_first(), j - 1);
    }
}

/// The node's disposition header value, empty when absent.
fn disposition_value(node: &MimeNode) -> (r: Vec<u8>)
    ensures
        r@ == disp_of(node@),
{
    proof {
        reveal_strlit("content-disposition");
    }
    let key = str_bytes("content-disposition");
    let n = node.headers.len();
    let mut i: usize = 0;
    while i < n
        invariant
            n == node.headers@.len(),
            node@.headers.len() == n,
            key@ == hk_disposition(),
            i <= n,
            forall|j: int|
                0 <= j < n ==> #[trigger] node@.headers[j] == (
                node.headers@[j].0@,
                node.headers@[j].1@,
            ),
            forall|m: int| 0 <= m < i ==> lower_seq((#[trigger] node@.headers[m]).0) != key@,
        decreases n - i,
    {
        let lk = to_lower(node.headers[i].0.as_slice());
        if crate::bytes::bytes_eq(lk.as_slice(), key.as_slice()) {
            proof {
                lemma_first_header_at(node@.headers, key@, i as int);
            }
            return copy_bytes(node.headers[i].1.as_slice());
        }
        i = i + 1;
    }
    proof {
        lemma_first_header_at(node@.headers, key@, n as int);
    }
    Vec::new()
}

/// The filename of a leaf part, as [`leaf_filename`] names it.
fn leaf_filename_of(node: &MimeNode, disp: &Vec<u8>) -> (r: Option<Vec<u8>>)
    requires
        disp@ == disp_of(node@),
    ensures
        r.deep_view() == leaf_filename(node@),
{
    proof {
        reveal_strlit("filename=");
        reveal_strlit("name");
    }
    let lower_disp = to_lower(disp.as_slice());
    let pat = str_bytes("filename=");
    let dlen = disp.len();
    let mut filename: Option<Vec<u8>> = None;
    match find_seq(lower_disp.as_slice(), pat.as_slice()) {
        Some(pos) => {
            let part = subvec(disp.as_slice(), pos + 9, dlen);
            let t = trim_ws(part.as_slice());
            let q = crate::bytes::trim_quotes(t.as_slice());
            let mut semi: Vec<u8> = Vec::new();
            semi.push(59);
            proof {
                assert(semi@ =~= seq![59u8]);
            }
            let c = match find_seq(q.as_slice(), semi.as_slice()) {
                Some(k) => subvec(q.as_slice(), 0, k),
                None => q,
            };
            if c.len() > 0 {
                filename = Some(c);
            }
        },
        None => {},
    }
    proof {
        assert(filename.deep_view() == filename_of_disp(disp@));
    }
    if filename.is_none() {
        let name_key = str_bytes("name");
        let m = node.params.len();
        let mut i: usize = 0;
        while i < m
            invariant
                m == node.params@.len(),
                node@.params.len() == m,
                name_key@ == ascii_seq("name"@),
                disp@ == disp_of(node@),
                filename_of_disp(disp@) is None,
                i <= m,
                forall|j: int|
                    0 <= j < m ==> #[trigger] node@.params[j] == (
                    node.params@[j].0@,
                    node.params@[j].1@,
                ),
                forall|k: int| 0 <= k < i ==> lower_seq((#[trigger] node@.params[k]).0) != name_key@,
            decreases m - i,
        {
            let lk = to_lower(node.params[i].0.as_slice());
            if crate::bytes::bytes_eq(lk.as_slice(), name_key.as_slice()) {
                proof {
                    lemma_name_param_at(node@.params, i as int);
                }
                let v = copy_bytes(node.params[i].1.as_slice());
                return Some(v);
            }
            i = i + 1;
        }
        proof {
            lemma_name_param_at(node@.params, m as int);
        }
        None
    } else {
        filename
    }
}

/// Walk the tree and append every attachment candidate to `out`.
pub fn collect_attachments(node: &MimeNode, out: &mut Vec<Attachment>)
    ensures
        final(out).deep_view() == old(out).deep_view() + spec_attachments(node@),
    decreases node,
{
    let n = node.children.len();
    if n == 0 {
        proof {
            reveal_strlit("attachment");
            reveal_strlit("text/plain");
            reveal_strlit("text/html");
        }
        let disp = disposition_value(node);
        let filename = leaf_filename_of(node, &disp);
        let lower_disp = to_lower(disp.as_slice());
        let plain_ct = str_bytes("text/plain");
        let html_ct = str_bytes("text/html");
        let att_pat = str_bytes("attachment");
        let is_text = crate::bytes::bytes_eq(node.ctype.as_slice(), plain_ct.as_slice())
            || crate::bytes::bytes_eq(node.ctype.as_slice(), html_ct.as_slice());
        let looks = contains_bytes(lower_disp.as_slice(), att_pat.as_slice())
            || filename.is_some() || !is_text;
        if looks {
            let a = Attachment {
                filename,
                ctype: copy_bytes(node.ctype.as_slice()),
                data: copy_bytes(node.raw.as_slice()),
            };
            proof {
                assert(a@ =~= AttachmentView {
                    filename: leaf_filename(node@),
                    ctype: node@.ctype,
                    data: node@.raw,
                });
            }
            out.push(a);
            proof {
                assert(out.deep_view() =~= old(out).deep_view() + spec_attachments(node@));
            }
        } else {
            proof {
                assert(out.deep_view() =~= old(out).deep_view() + spec_attachments(node@));
            }
        }
    } else {
        let mut i: usize = 0;
        proof {
            lemma_node_views_len(node.children@);
            assert(node@.children.subrange(0, 0) =~= Seq::<NodeView>::empty());
            assert(out.deep_view() =~= old(out).deep_view() + attachments_of_list(
                node@.children.subrange(0, 0),
            ));
        }
        while i < n
            invariant
                n == node.children@.len(),
                node@.children.len() == n,
                node@.children == node_views(node.children@),
                i <= n,
                out.deep_view() == old(out).deep_view() + attachments_of_list(
                    node@.children.subrange(0, i as int),
                ),
            decreases n - i,
        {
            let child = &node.children[i];
            collect_attachments(child, out);
            proof {
                lemma_node_views_index(node.children@, i as int);
                lemma_attachments_list_snoc(
                    node@.children.subrange(0, i as int),
                    node@.children[i as int],
                );
                assert(node@.children.subrange(0, i as int).push(node@.children[i as int])
                    =~= node@.children.subrange(0, i as int + 1));
            }
            i = i + 1;
        }
        proof {
            assert(node@.children.subrange(0, n as int) =~= node@.children);
        }
    }
}

/// The header map of a node's header list: keys lowercased, a later
/// occurrence of a name overriding an earlier one.
pub open spec fn spec_headers(hs: Seq<(Seq<u8>, Seq<u8>)>) -> Map<Seq<u8>, Seq<u8>>
    decreases hs.len(),
{
    if hs.len() == 0 {
        Map::empty()
    } else {
        spec_headers(hs.drop_last()).insert(lower_seq(hs.last().0), hs.last().1)
    }
}

/// Collect a node's own headers into a map with lowercased keys.
pub fn collect_headers(node: &MimeNode) -> (r: HeaderList)
    ensures
        r.wf(),
        r@ == spec_headers(node@.headers),
{
    let mut r = HeaderList::new();
    let n = node.headers.len();
    let mut i: usize = 0;
    proof {
        assert(node@.headers.subrange(0, 0) =~= Seq::<(Seq<u8>, Seq<u8>)>::empty());
    }
    while i < n
        invariant
            n == node.headers@.len(),
            node@.headers.len() == n,
            i <= n,
            r.wf(),
            r@ == spec_headers(node@.headers.subrange(0, i as int)),
            forall|j: int|
                0 <= j < n ==> #[trigger] node@.headers[j] == (
                node.headers@[j].0@,
                node.headers@[j].1@,
            ),
        decreases n - i,
    {
        let k = to_lower(node.headers[i].0.as_slice());
        let v = copy_bytes(node.headers[i].1.as_slice());
        r.set(k, v);
        i = i + 1;
        proof {
            let hs = node@.headers;
            assert(hs.subrange(0, i as int).drop_last() =~= hs.subrange(0, i as int - 1));
            assert(hs.subrange(0, i as int).last() == hs[i as int - 1]);
        }
    }
    proof {
        assert(node@.headers.subrange(0, n as int) =~= node@.headers);
    }
    r
}

// Header names with a role in message assembly.
pub open spec fn hk_from() -> Seq<u8> {
    ascii_seq("from"@)
}

pub open spec fn hk_to() -> Seq<u8> {
    ascii_seq("to"@)
}

pub open spec fn hk_subject() -> Seq<u8> {
    ascii_seq("subject"@)
}

/// The value bound to `k`, if any.
pub open spec fn header_opt(h: Map<Seq<u8>, Seq<u8>>, k: Seq<u8>) -> Option<Seq<u8>> {
    if h.contains_key(k) {
        Some(h[k])
    } else {
        None
    }
}

/// Addresses joined with a comma and a space.
pub open spec fn join_addrs(v: Seq<Seq<u8>>) -> Seq<u8>
    decreases v.len(),
{
    if v.len() == 0 {
        Seq::empty()
    } else if v.len() == 1 {
        v[0]
    } else {
        v[0] + ascii_seq(", "@) + join_addrs(v.drop_first())
    }
}

proof fn lemma_join_addrs_snoc(v: Seq<Seq<u8>>, x: Seq<u8>)
    ensures
        join_addrs(v.push(x)) == (if v.len() == 0 {
            x
        } else {
            join_addrs(v) + ascii_seq(", "@) + x
        }),
    decreases v.len(),
{
    if v.len() == 0 {
        assert(v.push(x)[0] == x);
    } else {
        lemma_join_addrs_snoc(v.drop_first(), x);
        assert(v.push(x).drop_first() =~= v.drop_first().push(x));
        assert(v.push(x)[0] == v[0]);
        if v.len() == 1 {
            assert(v.push(x).len() == 2);
            assert(v.drop_first().len() == 0);
            assert(join_addrs(v.push(x)) == v[0] + ascii_seq(", "@) + x);
        } else {
            assert(join_addrs(v.push(x)) == v[0] + ascii_seq(", "@) + join_addrs(
                v.drop_first().push(x),
            ));
            assert(v[0] + ascii_seq(", "@) + (join_addrs(v.drop_first()) + ascii_seq(", "@) + x)
                =~= (v[0] + ascii_seq(", "@) + join_addrs(v.drop_first())) + ascii_seq(", "@) + x);
        }
    }
}

/// Join addresses with `", "`, as the stored `to` header holds them.
pub fn join_addr_list(v: &Vec<Vec<u8>>) -> (r: Vec<u8>)
    ensures
        r@ == join_addrs(v.deep_view()),
{
    proof {
        reveal_strlit(", ");
    }
    let sep = str_bytes(", ");
    let mut r: Vec<u8> = Vec::new();
    let n = v.len();
    let mut i: usize = 0;
    proof {
        assert(v.deep_view().subrange(0, 0) =~= Seq::<Seq<u8>>::empty());
    }
    while i < n
        invariant
            n == v@.len(),
            v.deep_view().len() == n,
            sep@ == ascii_seq(", "@),
            i <= n,
            r@ == join_addrs(v.deep_view().subrange(0, i as int)),
            forall|j: int| 0 <= j < n ==> #[trigger] v.deep_view()[j] == v@[j]@,
        decreases n - i,
    {
        if i > 0 {
            let mut s = copy_bytes(sep.as_slice());
            r.append(&mut s);
        }
        let mut a = copy_bytes(v[i].as_slice());
        r.append(&mut a);
        proof {
            lemma_join_addrs_snoc(v.deep_view().subrange(0, i as int), v.deep_view()[i as int]);
            assert(v.deep_view().subrange(0, i as int).push(v.deep_view()[i as int])
                =~= v.deep_view().subrange(0, i as int + 1));
        }
        i = i + 1;
    }
    proof {
        assert(v.deep_view().subrange(0, n as int) =~= v.deep_view());
    }
    r
}

/// The comma-separated pieces of `s`, split at every comma.
pub open spec fn split_commas(s: Seq<u8>) -> Seq<Seq<u8>>
    decreases s.len(),
{
    match find_first(s, seq![44u8]) {
        Some(j) => {
            if 0 <= j && j + 1 <= s.len() {
                seq![s.subrange(0, j)] + split_commas(s.subrange(j + 1, s.len() as int))
            } else {
                seq![s]
            }
        },
        None => seq![s],
    }
}

/// Each piece whitespace-trimmed, empty pieces dropped.
pub open spec fn clean_addrs(parts: Seq<Seq<u8>>) -> Seq<Seq<u8>>
    decreases parts.len(),
{
    if parts.len() == 0 {
        Seq::empty()
    } else {
        let t = trim_with(parts[0], |b: u8| is_ws(b));
        (if t.len() > 0 {
            seq![t]
        } else {
            Seq::empty()
        }) + clean_addrs(parts.drop_first())
    }
}

/// The recipients named in a `to` header value: comma-separated, trimmed,
/// empties dropped.
pub open spec fn spec_recipients(s: Seq<u8>) -> Seq<Seq<u8>> {
    clean_addrs(split_commas(s))
}

/// Split a `to` header value into its recipient addresses.
pub fn split_recipients(s: &[u8]) -> (r: Vec<Vec<u8>>)
    ensures
        r.deep_view() == spec_recipients(s@),
    decreases s@.len(),
{
    let mut comma: Vec<u8> = Vec::new();
    comma.push(44);
    proof {
        assert(comma@ =~= seq![44u8]);
    }
    let n = s.len();
    match find_seq(s, comma.as_slice()) {
        Some(j) => {
            let head = subvec(s, 0, j);
            let t = trim_ws(head.as_slice());
            let rest = subvec(s, j + 1, n);
            let mut tail = split_recipients(rest.as_slice());
            let mut r: Vec<Vec<u8>> = Vec::new();
            let ghost tview = t@;
            if t.len() > 0 {
                r.push(t);
            }
            let ghost tail_view = tail.deep_view();
            r.append(&mut tail);
            proof {
                assert(j + 1 <= s@.len());
                let parts = split_commas(s@);
                let restp = split_commas(s@.subrange(j + 1, s@.len() as int));
                assert(parts == seq![s@.subrange(0, j as int)] + restp);
                assert(parts[0] == s@.subrange(0, j as int));
                assert(parts.drop_first() =~= restp);
                assert(trim_with(parts[0], |b: u8| is_ws(b)) == tview);
                assert(clean_addrs(parts) == (if tview.len() > 0 {
                    seq![tview]
                } else {
                    Seq::<Seq<u8>>::empty()
                }) + clean_addrs(restp));
                assert(tail_view == clean_addrs(restp));
                assert(r.deep_view() =~~= (if tview.len() > 0 {
                    seq![tview]
                } else {
                    Seq::<Seq<u8>>::empty()
                }) + tail_view);
                assert(r.deep_view() =~~= spec_recipients(s@));
            }
            r
        },
        None => {
            let t = trim_ws(s);
            let mut r: Vec<Vec<u8>> = Vec::new();
            let ghost tview = t@;
            if t.len() > 0 {
                r.push(t);
            }
            proof {
                let parts = split_commas(s@);
                assert(parts =~= seq![s@]);
                assert(parts.drop_first() =~= Seq::<Seq<u8>>::empty());
                assert(clean_addrs(parts.drop_first()) == Seq::<Seq<u8>>::empty());
                assert(trim_with(parts[0], |b: u8| is_ws(b)) == tview);
                assert(clean_addrs(parts) == (if tview.len() > 0 {
                    seq![tview]
                } else {
                    Seq::<Seq<u8>>::empty()
                }) + Seq::<Seq<u8>>::empty());
                assert(r.deep_view() =~~= spec_recipients(s@));
            }
            r
        },
    }
}

/// A message decoded and ready for storage: the envelope and header-derived
/// fields beside the selected bodies.
pub struct DecodedMessage {
    /// The sender address, from the envelope or the `from` header.
    pub from: Option<Vec<u8>>,
    /// The recipient addresses, in order.
    pub to: Vec<Vec<u8>>,
    /// The `subject` header, if present.
    pub subject: Option<Vec<u8>>,
    /// The first plain-text body, if any.
    pub text: Option<Vec<u8>>,
    /// The first HTML body, if any.
    pub html: Option<Vec<u8>>,
    /// The message's headers, lowercased keys.
    pub headers: HeaderList,
    /// The length of the raw message in bytes.
    pub raw_len: usize,
}

/// The mathematical shape of a [`DecodedMessage`].
#[verifier::ext_equal]
pub ghost struct DecodedView {
    pub from: Option<Seq<u8>>,
    pub to: Seq<Seq<u8>>,
    pub subject: Option<Seq<u8>>,
    pub text: Option<Seq<u8>>,
    pub html: Option<Seq<u8>>,
    pub headers: Map<Seq<u8>, Seq<u8>>,
    pub raw_len: nat,
}

impl View for DecodedMessage {
    type V = DecodedView;

    open spec fn view(&self) -> DecodedView {
        DecodedView {
            from: self.from.deep_view(),
            to: self.to.deep_view(),
            subject: self.subject.deep_view(),
            text: self.text.deep_view(),
            html: self.html.deep_view(),
            headers: self.headers@,
            raw_len: self.raw_len as nat,
        }
    }
}

impl DecodedMessage {
    /// The header map's representation is sound.
    pub open spec fn wf(&self) -> bool {
        self.headers.wf()
    }
}

/// The headers stored with a message ingested over SMTP: the node's own
/// headers, with the envelope sender filled in as `from` when that header is
/// missing, and the joined recipients as `to` likewise.
pub open spec fn augmented_headers(
    nv: NodeView,
    from: Option<Seq<u8>>,
    to: Seq<Seq<u8>>,
) -> Map<Seq<u8>, Seq<u8>> {
    let h0 = spec_headers(nv.headers);
    let h1 = match from {
        Some(f) => if !h0.contains_key(hk_from()) {
            h0.insert(hk_from(), f)
        } else {
            h0
        },
        None => h0,
    };
    if !h1.contains_key(hk_to()) && to.len() > 0 {
        h1.insert(hk_to(), join_addrs(to))
    } else {
        h1
    }
}

/// Decode a message collected over SMTP and assemble it for storage, keeping
/// the envelope as the authoritative sender and recipients.
pub fn ingest_message(raw: &[u8], from: Option<Vec<u8>>, to: Vec<Vec<u8>>) -> (r: Result<
    (DecodedMessage, Vec<Attachment>),
    MimeError,
>)
    ensures
        match (r, mime_tree(raw@)) {
            (Ok(p), Some(nv)) => {
                let h = augmented_headers(nv, from.deep_view(), to.deep_view());
                &&& p.0.wf()
                &&& p.0@.from == from.deep_view()
                &&& p.0@.to == to.deep_view()
                &&& p.0@.subject == header_opt(h, hk_subject())
                &&& p.0@.text == spec_bodies(nv).0
                &&& p.0@.html == spec_bodies(nv).1
                &&& p.0@.headers == h
                &&& p.0@.raw_len == raw@.len()
                &&& p.1.deep_view() == spec_attachments(nv)
            },
            (Err(_), None) => true,
            _ => false,
        },
{
    let node = match decode_mime(raw) {
        Ok(n) => n,
        Err(e) => {
            return Err(e);
        },
    };
    proof {
        reveal_strlit("from");
        reveal_strlit("to");
        reveal_strlit("subject");
    }
    let bodies = extract_bodies(&node);
    let mut headers = collect_headers(&node);
    let ghost h0 = headers@;
    let from_key = str_bytes("from");
    if !headers.contains_key(from_key.as_slice()) {
        if let Some(f) = &from {
            headers.set(from_key, copy_bytes(f.as_slice()));
        }
    }
    proof {
        let h1 = match from.deep_view() {
            Some(fv) => if !h0.contains_key(hk_from()) {
                h0.insert(hk_from(), fv)
            } else {
                h0
            },
            None => h0,
        };
        assert(headers@ =~~= h1);
    }
    let ghost h1 = headers@;
    let to_key = str_bytes("to");
    if !headers.contains_key(to_key.as_slice()) && to.len() > 0 {
        let joined = join_addr_list(&to);
        headers.set(to_key, joined);
    }
    proof {
        let h2 = if !h1.contains_key(hk_to()) && to.deep_view().len() > 0 {
            h1.insert(hk_to(), join_addrs(to.deep_view()))
        } else {
            h1
        };
        assert(headers@ =~~= h2);
    }
    let subject_key = str_bytes("subject");
    let subject = match headers.get(subject_key.as_slice()) {
        Some(v) => Some(copy_bytes(v.as_slice())),
        None => None,
    };
    let raw_len = raw.len();
    let mut atts: Vec<Attachment> = Vec::new();
    collect_attachments(&node, &mut atts);
    proof {
        assert(mime_tree(raw@) == Some(node@));
        assert(headers@ =~~= augmented_headers(node@, from.deep_view(), to.deep_view()));
    }
    let msg = DecodedMessage {
        from,
        to,
        subject,
        text: bodies.0,
        html: bodies.1,
        headers,
        raw_len,
    };
    Ok((msg, atts))
}

/// Decode a raw message submitted on its own and assemble it for storage:
/// sender, subject and recipients all come from the headers.
pub fn decode_eml(raw: &[u8]) -> (r: Result<(DecodedMessage, Vec<Attachment>), MimeError>)
    ensures
        match (r, mime_tree(raw@)) {
            (Ok(p), Some(nv)) => {
                let h = spec_headers(nv.headers);
                &&& p.0.wf()
                &&& p.0@.from == header_opt(h, hk_from())
                &&& p.0@.to == (match header_opt(h, hk_to()) {
                    Some(v) => spec_recipients(v),
                    None => Seq::<Seq<u8>>::empty(),
                })
                &&& p.0@.subject == header_opt(h, hk_subject())
                &&& p.0@.text == spec_bodies(nv).0
                &&& p.0@.html == spec_bodies(nv).1
                &&& p.0@.headers == h
                &&& p.0@.raw_len == raw@.len()
                &&& p.1.deep_view() == spec_attachments(nv)
            },
            (Err(_), None) => true,
            _ => false,
        },
{
    let node = match decode_mime(raw) {
        Ok(n) => n,
        Err(e) => {
            return Err(e);
        },
    };
    proof {
        reveal_strlit("from");
        reveal_strlit("to");
        reveal_strlit("subject");
    }
    let bodies = extract_bodies(&node);
    let headers = collect_headers(&node);
    let from = match headers.get(str_bytes("from").as_slice()) {
        Some(v) => Some(copy_bytes(v.as_slice())),
        None => None,
    };
    let subject = match headers.get(str_bytes("subject").as_slice()) {
        Some(v) => Some(copy_bytes(v.as_slice())),
        None => None,
    };
    let to = match headers.get(str_bytes("to").as_slice()) {
        Some(v) => split_recipients(v.as_slice()),
        None => {
            let empty_to: Vec<Vec<u8>> = Vec::new();
            proof {
                assert(empty_to.deep_view() =~= Seq::<Seq<u8>>::empty());
            }
            empty_to
        },
    };
    let raw_len = raw.len();
    let mut atts: Vec<Attachment> = Vec::new();
    collect_attachments(&node, &mut atts);
    let msg = DecodedMessage {
        from,
        to,
        subject,
        text: bodies.0,
        html: bodies.1,
        headers,
        raw_len,
    };
    Ok((msg, atts))
}

} // verus!
