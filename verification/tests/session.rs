use base64::Engine;
use fauxmail::session::{Action, Session, Step};

fn open_session() -> Session {
    Session::new(None, None)
}

fn auth_session() -> Session {
    Session::new(Some(b"user".to_vec()), Some(b"pass".to_vec()))
}

fn replies(step: &Step) -> Vec<String> {
    step.replies.clone()
}

fn b64(s: &[u8]) -> String {
    base64::engine::general_purpose::STANDARD.encode(s)
}

#[test]
fn greeting_banner() {
    assert_eq!(fauxmail::session::greeting(), "220 fauxmail dev smtp\r\n");
}

#[test]
fn helo_replies_start_with_250() {
    let mut s = open_session();
    let step = s.handle_line(b"HELO box.example\r\n");
    let rs = replies(&step);
    assert_eq!(rs, vec!["250-fauxmail\r\n".to_string(), "250 OK\r\n".to_string()]);
    for r in &rs {
        assert!(r.starts_with("250"));
    }
    let step = s.handle_line(b"ehlo box.example\r\n");
    for r in replies(&step) {
        assert!(r.starts_with("250"));
    }
}

#[test]
fn ehlo_advertises_auth_only_when_required() {
    let mut s = auth_session();
    let step = s.handle_line(b"EHLO box.example\r\n");
    assert_eq!(
        replies(&step),
        vec![
            "250-fauxmail\r\n".to_string(),
            "250-AUTH PLAIN LOGIN\r\n".to_string(),
            "250 OK\r\n".to_string()
        ]
    );
}

#[test]
fn auth_gate_rejects_mail_rcpt_data() {
    let mut s = auth_session();
    for cmd in [
        "MAIL FROM:<a@example.test>\r\n",
        "RCPT TO:<b@example.test>\r\n",
        "DATA\r\n",
    ] {
        let step = s.handle_line(cmd.as_bytes());
        assert_eq!(replies(&step), vec!["530 Authentication required\r\n".to_string()]);
        assert!(matches!(step.action, Action::Continue));
    }
    assert!(!s.authed);
    assert!(s.mail_from.is_none());
    assert!(s.rcpts.is_empty());
}

#[test]
fn auth_not_required_rejected_with_503() {
    let mut s = open_session();
    let step = s.handle_line(b"AUTH LOGIN\r\n");
    assert_eq!(replies(&step), vec!["503 AUTH not required\r\n".to_string()]);
}

#[test]
fn auth_login_success_sets_authenticated() {
    let mut s = auth_session();
    let step = s.handle_line(b"AUTH LOGIN\r\n");
    assert_eq!(replies(&step), vec!["334 VXNlcm5hbWU6\r\n".to_string()]);
    let step = s.handle_line(format!("{}\r\n", b64(b"user")).as_bytes());
    assert_eq!(replies(&step), vec!["334 UGFzc3dvcmQ6\r\n".to_string()]);
    let step = s.handle_line(format!("{}\r\n", b64(b"pass")).as_bytes());
    assert_eq!(replies(&step), vec!["235 Authentication successful\r\n".to_string()]);
    assert!(s.authed);
    let step = s.handle_line(b"MAIL FROM:<a@example.test>\r\n");
    assert_eq!(replies(&step), vec!["250 OK\r\n".to_string()]);
}

#[test]
fn auth_login_wrong_password_replies_535() {
    let mut s = auth_session();
    s.handle_line(b"AUTH LOGIN\r\n");
    s.handle_line(format!("{}\r\n", b64(b"user")).as_bytes());
    let step = s.handle_line(format!("{}\r\n", b64(b"wrong")).as_bytes());
    assert_eq!(replies(&step), vec!["535 Authentication failed\r\n".to_string()]);
    assert!(!s.authed);
    let step = s.handle_line(b"DATA\r\n");
    assert_eq!(replies(&step), vec!["530 Authentication required\r\n".to_string()]);
}

#[test]
fn auth_login_bad_base64_replies_535_and_stays_open() {
    let mut s = auth_session();
    s.handle_line(b"AUTH LOGIN\r\n");
    let step = s.handle_line(b"!!!not-base64!!!\r\n");
    assert_eq!(replies(&step), vec!["535 auth failed\r\n".to_string()]);
    assert!(matches!(step.action, Action::Continue));
    let step = s.handle_line(b"NOOP\r\n");
    assert_eq!(replies(&step), vec!["250 OK\r\n".to_string()]);
}

#[test]
fn auth_plain_success_and_failure() {
    let mut s = auth_session();
    let blob = b64(b"\x00user\x00pass");
    let step = s.handle_line(format!("AUTH PLAIN {}\r\n", blob).as_bytes());
    assert_eq!(replies(&step), vec!["235 Authentication successful\r\n".to_string()]);
    assert!(s.authed);

    let mut s = auth_session();
    let blob = b64(b"\x00user\x00nope");
    let step = s.handle_line(format!("AUTH PLAIN {}\r\n", blob).as_bytes());
    assert_eq!(replies(&step), vec!["535 Authentication failed\r\n".to_string()]);
    assert!(!s.authed);
}

#[test]
fn auth_unknown_mechanism_replies_504() {
    let mut s = auth_session();
    let step = s.handle_line(b"AUTH CRAM-MD5\r\n");
    assert_eq!(
        replies(&step),
        vec!["504 Unrecognized authentication type\r\n".to_string()]
    );
}

#[test]
fn mail_from_parses_address_and_clears_recipients() {
    let mut s = open_session();
    s.handle_line(b"RCPT TO:<x@example.test>\r\n");
    let step = s.handle_line(b"MAIL FROM:<a@example.test>\r\n");
    assert_eq!(replies(&step), vec!["250 OK\r\n".to_string()]);
    assert_eq!(s.mail_from.as_deref(), Some(b"a@example.test".as_slice()));
    assert!(s.rcpts.is_empty());
    let step = s.handle_line(b"RCPT TO: <b@example.test> \r\n");
    assert_eq!(replies(&step), vec!["250 Accepted\r\n".to_string()]);
    assert_eq!(s.rcpts, vec![b"b@example.test".to_vec()]);
}

#[test]
fn mail_from_empty_sender_is_empty_string() {
    let mut s = open_session();
    s.handle_line(b"MAIL FROM:<>\r\n");
    assert_eq!(s.mail_from.as_deref(), Some(b"".as_slice()));
}

#[test]
fn rset_clears_envelope_then_data_collects_empty() {
    let mut s = open_session();
    s.handle_line(b"MAIL FROM:<a@example.test>\r\n");
    s.handle_line(b"RCPT TO:<b@example.test>\r\n");
    s.handle_line(b"RCPT TO:<c@example.test>\r\n");
    assert_eq!(s.rcpts.len(), 2);
    let step = s.handle_line(b"RSET\r\n");
    assert_eq!(replies(&step), vec!["250 OK\r\n".to_string()]);
    assert!(s.mail_from.is_none());
    assert!(s.rcpts.is_empty());
    let step = s.handle_line(b"DATA\r\n");
    assert_eq!(
        replies(&step),
        vec!["354 End data with <CR><LF>.<CR><LF>\r\n".to_string()]
    );
    let step = s.handle_line(b".\r\n");
    match step.action {
        Action::Deliver(env) => {
            assert!(env.from.is_none());
            assert!(env.to.is_empty());
            assert!(env.raw.is_empty());
        },
        _ => panic!("expected delivery"),
    }
}

#[test]
fn data_collects_until_lone_dot() {
    let mut s = open_session();
    s.handle_line(b"MAIL FROM:<a@example.test>\r\n");
    s.handle_line(b"RCPT TO:<b@example.test>\r\n");
    s.handle_line(b"DATA\r\n");
    let step = s.handle_line(b"Subject: hi\r\n");
    assert!(step.replies.is_empty());
    s.handle_line(b"\r\n");
    s.handle_line(b".line starting with a dot\r\n");
    let step = s.handle_line(b".\r\n");
    match step.action {
        Action::Deliver(env) => {
            assert_eq!(env.from.as_deref(), Some(b"a@example.test".as_slice()));
            assert_eq!(env.to, vec![b"b@example.test".to_vec()]);
            assert_eq!(
                env.raw,
                b"Subject: hi\r\n\r\n.line starting with a dot\r\n".to_vec()
            );
        },
        _ => panic!("expected delivery"),
    }
    // Bytes after the dot are commands again.
    let step = s.handle_line(b"NOOP\r\n");
    assert_eq!(replies(&step), vec!["250 OK\r\n".to_string()]);
}

#[test]
fn data_accepts_lf_only_terminator() {
    let mut s = open_session();
    s.handle_line(b"DATA\r\n");
    s.handle_line(b"body\n");
    let step = s.handle_line(b".\n");
    match step.action {
        Action::Deliver(env) => assert_eq!(env.raw, b"body\n".to_vec()),
        _ => panic!("expected delivery"),
    }
}

#[test]
fn envelope_survives_delivery() {
    // The pending envelope is not cleared by a completed DATA.
    let mut s = open_session();
    s.handle_line(b"MAIL FROM:<a@example.test>\r\n");
    s.handle_line(b"RCPT TO:<b@example.test>\r\n");
    s.handle_line(b"DATA\r\n");
    s.handle_line(b".\r\n");
    assert_eq!(s.mail_from.as_deref(), Some(b"a@example.test".as_slice()));
    assert_eq!(s.rcpts, vec![b"b@example.test".to_vec()]);
}

#[test]
fn quit_closes_and_ignores_later_lines() {
    let mut s = open_session();
    let step = s.handle_line(b"QUIT\r\n");
    assert_eq!(replies(&step), vec!["221 Bye\r\n".to_string()]);
    assert!(matches!(step.action, Action::Close));
    let step = s.handle_line(b"NOOP\r\n");
    assert!(step.replies.is_empty());
    assert!(matches!(step.action, Action::Close));
}

#[test]
fn unknown_command_replies_502() {
    let mut s = open_session();
    let step = s.handle_line(b"FROBNICATE\r\n");
    assert_eq!(replies(&step), vec!["502 Command not implemented\r\n".to_string()]);
}

#[test]
fn eof_in_data_delivers_partial_message() {
    let mut s = open_session();
    s.handle_line(b"DATA\r\n");
    s.handle_line(b"half a message\r\n");
    let step = s.handle_eof();
    match step.action {
        Action::Deliver(env) => assert_eq!(env.raw, b"half a message\r\n".to_vec()),
        _ => panic!("expected delivery"),
    }
    let step = s.handle_eof();
    assert!(matches!(step.action, Action::Close));
}

#[test]
fn delivery_reply_names_id_or_aborts() {
    assert_eq!(
        fauxmail::session::delivery_reply(true, "abc-123"),
        "250 OK id=abc-123\r\n"
    );
    assert_eq!(
        fauxmail::session::delivery_reply(false, "abc-123"),
        "451 Requested action aborted: local error\r\n"
    );
}

#[test]
fn auth_plain_without_token_fails() {
    let mut s = auth_session();
    let step = s.handle_line(b"AUTH PLAIN\r\n");
    assert_eq!(replies(&step), vec!["535 Authentication failed\r\n".to_string()]);
    assert!(!s.authed);
}

#[test]
fn auth_plain_bad_base64_replies_535() {
    let mut s = auth_session();
    let step = s.handle_line(b"AUTH PLAIN ???\r\n");
    assert_eq!(replies(&step), vec!["535 auth failed\r\n".to_string()]);
    assert!(!s.authed);
}

#[test]
fn helo_keeps_pending_envelope() {
    let mut s = open_session();
    s.handle_line(b"MAIL FROM:<a@example.test>\r\n");
    s.handle_line(b"RCPT TO:<b@example.test>\r\n");
    s.handle_line(b"EHLO again.example\r\n");
    assert_eq!(s.mail_from.as_deref(), Some(b"a@example.test".as_slice()));
    assert_eq!(s.rcpts, vec![b"b@example.test".to_vec()]);
}
