//! The MIME tree that a raw message byte buffer decodes to.
//!
//! Decoding itself is a consumed capability: the `mailparse` crate turns the
//! bytes into a tree of parts, unfolds header continuation lines and unapplies
//! transfer encodings.  This module holds that tree as plain values, so that
//! the extraction logic over it can be verified.

use vstd::prelude::*;

verus! {

broadcast use vstd::seq::axiom_seq_index_decreases, vstd::seq::axiom_seq_subrange_decreases, vstd::std_specs::vec::axiom_vec_decreases_to_view;

/// One node of a decoded MIME tree: a leaf part, or a multipart container
/// with its children in order.
pub struct MimeNode {
    /// The part's content type, lowercased, e.g. `text/plain`.
    pub ctype: Vec<u8>,
    /// Parameters of the content type (lowercased keys, unquoted values),
    /// e.g. `name`, in the decoder's order.
    pub params: Vec<(Vec<u8>, Vec<u8>)>,
    /// The part's headers, as (name, value) pairs in message order; names keep
    /// the sender's case.
    pub headers: Vec<(Vec<u8>, Vec<u8>)>,
    /// The body as charset-decoded text (UTF-8 bytes); empty when the body is
    /// not representable as text.
    pub text: Vec<u8>,
    /// The body bytes with only the transfer encoding unapplied.
    pub raw: Vec<u8>,
    /// Child parts; empty for non-multipart nodes.
    pub children: Vec<MimeNode>,
}

/// The mathematical shape of a [`MimeNode`].
pub ghost struct NodeView {
    pub ctype: Seq<u8>,
    pub params: Seq<(Seq<u8>, Seq<u8>)>,
    pub headers: Seq<(Seq<u8>, Seq<u8>)>,
    pub text: Seq<u8>,
    pub raw: Seq<u8>,
    pub children: Seq<NodeView>,
}

pub open spec fn pair_view(p: (Vec<u8>, Vec<u8>)) -> (Seq<u8>, Seq<u8>) {
    (p.0@, p.1@)
}

pub open spec fn node_view(n: MimeNode) -> NodeView
    decreases n,
{
    NodeView {
        ctype: n.ctype@,
        params: n.params@.map_values(|p: (Vec<u8>, Vec<u8>)| pair_view(p)),
        headers: n.headers@.map_values(|p: (Vec<u8>, Vec<u8>)| pair_view(p)),
        text: n.text@,
        raw: n.raw@,
        children: node_views(n.children@),
    }
}

pub open spec fn node_views(cs: Seq<MimeNode>) -> Seq<NodeView>
    decreases cs,
{
    if cs.len() == 0 {
        Seq::empty()
    } else {
        seq![node_view(cs[0])] + node_views(cs.drop_first())
    }
}

/// `node_views` maps the list elementwise.
pub proof fn lemma_node_views_index(cs: Seq<MimeNode>, i: int)
    requires
        0 <= i < cs.len(),
    ensures
        node_views(cs).len() == cs.len(),
        node_views(cs)[i] == node_view(cs[i]),
    decreases cs.len(),
{
    lemma_node_views_len(cs);
    if i > 0 {
        lemma_node_views_index(cs.drop_first(), i - 1);
    }
}

/// `node_views` keeps the list's length.
pub proof fn lemma_node_views_len(cs: Seq<MimeNode>)
    ensures
        node_views(cs).len() == cs.len(),
    decreases cs.len(),
{
    if cs.len() > 0 {
        lemma_node_views_len(cs.drop_first());
    }
}

impl View for MimeNode {
    type V = NodeView;

    open spec fn view(&self) -> NodeView {
        node_view(*self)
    }
}

/// Failure of the MIME decoding step.
#[derive(Debug, Clone, Copy, PartialEq, Eq)]
pub enum MimeError {
    /// The byte buffer is not a decodable MIME message.
    ParseFailed,
}

/// What the decoder yields on a given byte buffer: `Some` tree exactly when
/// the buffer is decodable.  The decoder's result depends on the bytes alone.
pub uninterp spec fn mime_tree(raw: Seq<u8>) -> Option<NodeView>;

/// Relies on `mailparse::parse_mail`: decodes a byte buffer into a tree of
/// MIME parts, recursively for multipart content types; the result is a
/// function of the bytes alone.
#[verifier::external_body]
pub fn decode_mime(raw: &[u8]) -> (r: Result<MimeNode, MimeError>)
    ensures
        match r {
            Ok(n) => mime_tree(raw@) == Some(n@),
            Err(_) => mime_tree(raw@) is None,
        },
{
    match mailparse::parse_mail(raw) {
        Ok(p) => Ok(node_of_part(&p)),
        Err(_) => Err(MimeError::ParseFailed),
    }
}

#[verifier::external_type_specification]
#[verifier::external_body]
pub struct ExParsedMail<'a>(mailparse::ParsedMail<'a>);

/// Relies on `mailparse::ParsedMail`: `ctype` carries the lowercased content
/// type with its parameter map, `get_key`/`get_value` the header names and
/// their unfolded values, `get_body` the charset-decoded text, `get_body_raw`
/// the transfer-decoded bytes, and `subparts` the child parts in order.
/// Called only by [`decode_mime`], which carries the contract.
#[verifier::external_body]
fn node_of_part(p: &mailparse::ParsedMail<'_>) -> MimeNode {
    MimeNode {
        ctype: p.ctype.mimetype.clone().into_bytes(),
        params: p.ctype.params.iter().map(|(k, v)| (k.clone().into_bytes(), v.clone().into_bytes())).collect(),
        headers: p.headers.iter().map(|h| (h.get_key().into_bytes(), h.get_value().into_bytes())).collect(),
        text: p.get_body().unwrap_or_default().into_bytes(),
        raw: p.get_body_raw().unwrap_or_default(),
        children: p.subparts.iter().map(node_of_part).collect(),
    }
}

} // verus!
