use fauxmail::message::{decode_eml, ingest_message};
use fauxmail::mime::MimeError;

fn single_part() -> Vec<u8> {
    "From: dev@example.test\r\nTo: you@example.test\r\nSubject: Hello Raw\r\nContent-Type: text/plain\r\n\r\nHi text"
    .as_bytes()
    .to_vec()
}

fn multipart() -> Vec<u8> {
    "From: dev@example.test\r\nTo: you@example.test\r\nSubject: Hello Raw\r\nMIME-Version: 1.0\r\nContent-Type: multipart/mixed; boundary=BOUND\r\n\r\n--BOUND\r\nContent-Type: text/plain\r\n\r\nHi text\r\n--BOUND\r\nContent-Type: application/octet-stream\r\nContent-Disposition: attachment; filename=\"a.txt\"\r\n\r\nABC123\r\n--BOUND--\r\n"
    .as_bytes()
    .to_vec()
}

#[test]
fn single_part_text_round_trip() {
    let raw = single_part();
    let (msg, atts) = decode_eml(&raw).expect("decodable");
    assert_eq!(msg.text.as_deref(), Some(b"Hi text".as_slice()));
    assert!(msg.html.is_none());
    assert!(atts.is_empty());
    assert_eq!(msg.from.as_deref(), Some(b"dev@example.test".as_slice()));
    assert_eq!(msg.subject.as_deref(), Some(b"Hello Raw".as_slice()));
    assert_eq!(msg.to, vec![b"you@example.test".to_vec()]);
    assert_eq!(msg.raw_len, raw.len());
}

#[test]
fn multipart_with_attachment() {
    let raw = multipart();
    let (msg, atts) = decode_eml(&raw).expect("decodable");
    assert_eq!(msg.text.as_deref(), Some(b"Hi text".as_slice()));
    assert!(msg.html.is_none());
    assert_eq!(atts.len(), 1);
    assert_eq!(atts[0].filename.as_deref(), Some(b"a.txt".as_slice()));
    assert_eq!(atts[0].ctype, b"application/octet-stream".to_vec());
    assert_eq!(atts[0].data, b"ABC123".to_vec());
}

#[test]
fn html_part_selected_as_html_body() {
    let raw = "Content-Type: multipart/alternative; boundary=BB\r\n\r\n--BB\r\nContent-Type: text/plain\r\n\r\nplain one\r\n--BB\r\nContent-Type: text/html\r\n\r\n<p>rich</p>\r\n--BB\r\nContent-Type: text/plain\r\n\r\nplain two\r\n--BB--\r\n"
    .as_bytes()
    .to_vec();
    let (msg, atts) = decode_eml(&raw).expect("decodable");
    // First of each kind wins; the extra text part joins neither bodies nor
    // attachments.
    assert_eq!(msg.text.as_deref(), Some(b"plain one".as_slice()));
    assert_eq!(msg.html.as_deref(), Some(b"<p>rich</p>".as_slice()));
    assert!(atts.is_empty());
}

#[test]
fn decoding_twice_is_identical() {
    let raw = multipart();
    let (m1, a1) = decode_eml(&raw).expect("decodable");
    let (m2, a2) = decode_eml(&raw).expect("decodable");
    assert_eq!(m1.from, m2.from);
    assert_eq!(m1.to, m2.to);
    assert_eq!(m1.subject, m2.subject);
    assert_eq!(m1.text, m2.text);
    assert_eq!(m1.html, m2.html);
    assert_eq!(m1.raw_len, m2.raw_len);
    assert_eq!(m1.headers.pairs(), m2.headers.pairs());
    assert_eq!(a1.len(), a2.len());
    for (x, y) in a1.iter().zip(a2.iter()) {
        assert_eq!(x.filename, y.filename);
        assert_eq!(x.ctype, y.ctype);
        assert_eq!(x.data, y.data);
    }
}

#[test]
fn ingest_fills_envelope_into_missing_headers() {
    let raw = b"Subject: no addresses\r\n\r\nbody".to_vec();
    let (msg, _) = ingest_message(
        &raw,
        Some(b"env@example.test".to_vec()),
        vec![b"r1@example.test".to_vec(), b"r2@example.test".to_vec()],
    )
    .expect("decodable");
    assert_eq!(msg.from.as_deref(), Some(b"env@example.test".as_slice()));
    assert_eq!(
        msg.headers.get(b"from").map(|v| v.clone()),
        Some(b"env@example.test".to_vec())
    );
    assert_eq!(
        msg.headers.get(b"to").map(|v| v.clone()),
        Some(b"r1@example.test, r2@example.test".to_vec())
    );
    assert_eq!(msg.subject.as_deref(), Some(b"no addresses".as_slice()));
}

#[test]
fn ingest_keeps_existing_headers() {
    let raw = single_part();
    let (msg, _) = ingest_message(&raw, Some(b"env@example.test".to_vec()), vec![]).expect(
        "decodable",
    );
    // The header keeps its own value; the envelope stays authoritative for
    // the stored sender column.
    assert_eq!(
        msg.headers.get(b"from").map(|v| v.clone()),
        Some(b"dev@example.test".to_vec())
    );
    assert_eq!(msg.from.as_deref(), Some(b"env@example.test".as_slice()));
}

#[test]
fn headers_are_lowercased_and_last_value_wins() {
    let raw = "X-Thing: one\r\nX-THING: two\r\nSubject: s\r\n\r\nbody"
    .as_bytes()
    .to_vec();
    let (msg, _) = decode_eml(&raw).expect("decodable");
    assert_eq!(msg.headers.get(b"x-thing").map(|v| v.clone()), Some(b"two".to_vec()));
    assert!(msg.headers.get(b"X-Thing").is_none());
}

#[test]
fn recipient_list_is_split_and_trimmed() {
    let raw = "To: a@example.test , ,  b@example.test,c@example.test\r\n\r\nbody"
    .as_bytes()
    .to_vec();
    let (msg, _) = decode_eml(&raw).expect("decodable");
    assert_eq!(
        msg.to,
        vec![
            b"a@example.test".to_vec(),
            b"b@example.test".to_vec(),
            b"c@example.test".to_vec()
        ]
    );
}

#[test]
fn name_parameter_is_filename_fallback() {
    let raw = "Content-Type: multipart/mixed; boundary=BB\r\n\r\n--BB\r\nContent-Type: application/pdf; name=\"report.pdf\"\r\n\r\nPDFDATA\r\n--BB--\r\n"
    .as_bytes()
    .to_vec();
    let (_, atts) = decode_eml(&raw).expect("decodable");
    assert_eq!(atts.len(), 1);
    assert_eq!(atts[0].filename.as_deref(), Some(b"report.pdf".as_slice()));
    assert_eq!(atts[0].ctype, b"application/pdf".to_vec());
}

#[test]
fn plain_text_leaf_without_disposition_is_not_an_attachment() {
    let raw = b"Content-Type: text/plain\r\n\r\njust text".to_vec();
    let (_, atts) = decode_eml(&raw).expect("decodable");
    assert!(atts.is_empty());
}

#[test]
fn undecodable_payload_is_rejected() {
    // A first header line starting with a space is not decodable.
    let raw = b" overhanging line\r\n\r\nbody".to_vec();
    assert!(matches!(decode_eml(&raw), Err(MimeError::ParseFailed)));
    assert!(matches!(
        ingest_message(&raw, None, vec![]),
        Err(MimeError::ParseFailed)
    ));
}
