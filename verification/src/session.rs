//! The per-connection SMTP session state machine.
//!
//! The machine consumes one protocol line at a time (terminator included) and
//! yields the reply lines to write back together with an action for the
//! surrounding connection loop: keep reading, close the connection, or hand a
//! completed message over for ingestion.  The whole transition is pinned by
//! the spec function [`sv_step`].

use crate::auth::{b64_decode, base64_decode, nul_chunk, plain_pass, plain_user};
use crate::bytes::{
    ascii_seq, bytes_eq, copy_byte_list, copy_bytes, copy_opt_bytes, has_prefix, is_angle, is_ws,
    starts_with, str_bytes, subvec, third_word, to_upper, trim_angles, trim_line, trim_line_ends,
    trim_with, trim_ws, upper_seq, word3,
};
use vstd::prelude::*;

verus! {

/// Where the session stands between lines.
#[derive(Clone, Copy)]
pub enum Mode {
    /// Reading protocol commands.
    Command,
    /// `AUTH LOGIN` sent the username prompt; the next line is the username.
    AuthUser,
    /// The password prompt went out; the next line is the password.
    AuthPass,
    /// `DATA` was accepted; lines accumulate until a lone dot.
    Data,
    /// `QUIT` was answered; no further line is processed.
    Closed,
}

/// One session, owned by its connection.
pub struct Session {
    /// Whether credentials are configured, making authentication mandatory.
    pub require_auth: bool,
    /// The configured username (empty when authentication is not required).
    pub user: Vec<u8>,
    /// The configured password (empty when authentication is not required).
    pub pass: Vec<u8>,
    /// Whether an AUTH exchange has succeeded.
    pub authed: bool,
    /// The pending envelope sender, if `MAIL FROM` has been seen.
    pub mail_from: Option<Vec<u8>>,
    /// The pending recipients, in order, duplicates allowed.
    pub rcpts: Vec<Vec<u8>>,
    /// Where the session stands.
    pub mode: Mode,
    /// The username given during `AUTH LOGIN`, kept for the password step.
    pub pending_user: Vec<u8>,
    /// The message bytes collected so far while in [`Mode::Data`].
    pub data: Vec<u8>,
}

/// The mathematical shape of a [`Session`].
#[verifier::ext_equal]
pub ghost struct SessionView {
    pub require_auth: bool,
    pub user: Seq<u8>,
    pub pass: Seq<u8>,
    pub authed: bool,
    pub mail_from: Option<Seq<u8>>,
    pub rcpts: Seq<Seq<u8>>,
    pub mode: Mode,
    pub pending_user: Seq<u8>,
    pub data: Seq<u8>,
}

impl View for Session {
    type V = SessionView;

    open spec fn view(&self) -> SessionView {
        SessionView {
            require_auth: self.require_auth,
            user: self.user@,
            pass: self.pass@,
            authed: self.authed,
            mail_from: self.mail_from.deep_view(),
            rcpts: self.rcpts.deep_view(),
            mode: self.mode,
            pending_user: self.pending_user@,
            data: self.data@,
        }
    }
}

/// A completed message handed over for ingestion: the pending envelope and
/// the raw bytes collected between `DATA` and the terminating lone dot.
pub struct Envelope {
    /// The pending sender, if any; empty string for `MAIL FROM:<>`.
    pub from: Option<Vec<u8>>,
    /// The pending recipients, in order.
    pub to: Vec<Vec<u8>>,
    /// The collected message bytes.
    pub raw: Vec<u8>,
}

/// The mathematical shape of an [`Envelope`].
#[verifier::ext_equal]
pub ghost struct EnvelopeView {
    pub from: Option<Seq<u8>>,
    pub to: Seq<Seq<u8>>,
    pub raw: Seq<u8>,
}

impl View for Envelope {
    type V = EnvelopeView;

    open spec fn view(&self) -> EnvelopeView {
        EnvelopeView { from: self.from.deep_view(), to: self.to.deep_view(), raw: self.raw@ }
    }
}

/// What the connection loop must do after a line was handled.
pub enum Action {
    /// Keep reading lines.
    Continue,
    /// Close the connection; no further line is processed.
    Close,
    /// Ingest the completed message, reply with [`delivery_reply`], then keep
    /// reading lines.
    Deliver(Envelope),
}

/// The mathematical shape of an [`Action`].
#[verifier::ext_equal]
pub ghost enum ActionView {
    Continue,
    Close,
    Deliver(EnvelopeView),
}

impl View for Action {
    type V = ActionView;

    open spec fn view(&self) -> ActionView {
        match self {
            Action::Continue => ActionView::Continue,
            Action::Close => ActionView::Close,
            Action::Deliver(e) => ActionView::Deliver(e@),
        }
    }
}

/// What one handled line produces.
pub struct Step {
    /// Reply lines to write back, in order, terminators included.
    pub replies: Vec<String>,
    /// What the connection loop must do next.
    pub action: Action,
}

/// The mathematical shape of a [`Step`], beside the session it leaves behind.
#[verifier::ext_equal]
pub ghost struct StepView {
    pub sess: SessionView,
    pub replies: Seq<Seq<char>>,
    pub action: ActionView,
}

// Command keywords, matched case-insensitively against the line's prefix.
pub open spec fn kw_ehlo() -> Seq<u8> {
    ascii_seq("EHLO"@)
}

pub open spec fn kw_helo() -> Seq<u8> {
    ascii_seq("HELO"@)
}

pub open spec fn kw_auth() -> Seq<u8> {
    ascii_seq("AUTH "@)
}

pub open spec fn kw_auth_login() -> Seq<u8> {
    ascii_seq("AUTH LOGIN"@)
}

pub open spec fn kw_auth_plain() -> Seq<u8> {
    ascii_seq("AUTH PLAIN"@)
}

pub open spec fn kw_mail_from() -> Seq<u8> {
    ascii_seq("MAIL FROM:"@)
}

pub open spec fn kw_rcpt_to() -> Seq<u8> {
    ascii_seq("RCPT TO:"@)
}

pub open spec fn kw_data() -> Seq<u8> {
    ascii_seq("DATA"@)
}

pub open spec fn kw_rset() -> Seq<u8> {
    ascii_seq("RSET"@)
}

pub open spec fn kw_noop() -> Seq<u8> {
    ascii_seq("NOOP"@)
}

pub open spec fn kw_quit() -> Seq<u8> {
    ascii_seq("QUIT"@)
}

/// A data line that terminates collection: exactly a dot.
pub open spec fn dot_crlf() -> Seq<u8> {
    ascii_seq(".\r\n"@)
}

pub open spec fn dot_lf() -> Seq<u8> {
    ascii_seq(".\n"@)
}

// Reply lines.
pub open spec fn r_banner() -> Seq<char> {
    "220 fauxmail dev smtp\r\n"@
}

pub open spec fn r_helo_name() -> Seq<char> {
    "250-fauxmail\r\n"@
}

pub open spec fn r_helo_auth() -> Seq<char> {
    "250-AUTH PLAIN LOGIN\r\n"@
}

pub open spec fn r_ok() -> Seq<char> {
    "250 OK\r\n"@
}

pub open spec fn r_accepted() -> Seq<char> {
    "250 Accepted\r\n"@
}

pub open spec fn r_not_required() -> Seq<char> {
    "503 AUTH not required\r\n"@
}

pub open spec fn r_username_prompt() -> Seq<char> {
    "334 VXNlcm5hbWU6\r\n"@
}

pub open spec fn r_password_prompt() -> Seq<char> {
    "334 UGFzc3dvcmQ6\r\n"@
}

pub open spec fn r_auth_ok() -> Seq<char> {
    "235 Authentication successful\r\n"@
}

pub open spec fn r_auth_failed() -> Seq<char> {
    "535 Authentication failed\r\n"@
}

pub open spec fn r_auth_bad() -> Seq<char> {
    "535 auth failed\r\n"@
}

pub open spec fn r_unknown_mech() -> Seq<char> {
    "504 Unrecognized authentication type\r\n"@
}

pub open spec fn r_need_auth() -> Seq<char> {
    "530 Authentication required\r\n"@
}

pub open spec fn r_start_data() -> Seq<char> {
    "354 End data with <CR><LF>.<CR><LF>\r\n"@
}

pub open spec fn r_aborted() -> Seq<char> {
    "451 Requested action aborted: local error\r\n"@
}

pub open spec fn r_bye() -> Seq<char> {
    "221 Bye\r\n"@
}

pub open spec fn r_unknown_cmd() -> Seq<char> {
    "502 Command not implemented\r\n"@
}

/// An address argument: the remainder of the command, whitespace-trimmed,
/// then stripped of angle brackets on both ends.
pub open spec fn addr_of(rest: Seq<u8>) -> Seq<u8> {
    trim_with(trim_with(rest, |b: u8| is_ws(b)), |b: u8| is_angle(b))
}

/// A step that leaves the session as it is and keeps reading.
pub open spec fn sv_reply(s: SessionView, rs: Seq<Seq<char>>) -> StepView {
    StepView { sess: s, replies: rs, action: ActionView::Continue }
}

/// The `EHLO`/`HELO` replies: the capability line appears only when
/// authentication is required.
pub open spec fn helo_replies(require_auth: bool) -> Seq<Seq<char>> {
    if require_auth {
        seq![r_helo_name(), r_helo_auth(), r_ok()]
    } else {
        seq![r_helo_name(), r_ok()]
    }
}

/// The `AUTH PLAIN` outcome, given what the blob decoded to.
pub open spec fn sv_auth_plain(s: SessionView, dec: Option<Seq<u8>>) -> StepView {
    match dec {
        None => sv_reply(s, seq![r_auth_bad()]),
        Some(d) => {
            if plain_user(d) == s.user && plain_pass(d) == s.pass {
                StepView {
                    sess: SessionView { authed: true, ..s },
                    replies: seq![r_auth_ok()],
                    action: ActionView::Continue,
                }
            } else {
                sv_reply(s, seq![r_auth_failed()])
            }
        },
    }
}

/// The username step of `AUTH LOGIN`, given what the line decoded to.
pub open spec fn sv_auth_user(s: SessionView, dec: Option<Seq<u8>>) -> StepView {
    match dec {
        None => StepView {
            sess: SessionView { mode: Mode::Command, ..s },
            replies: seq![r_auth_bad()],
            action: ActionView::Continue,
        },
        Some(u) => StepView {
            sess: SessionView { mode: Mode::AuthPass, pending_user: u, ..s },
            replies: seq![r_password_prompt()],
            action: ActionView::Continue,
        },
    }
}

/// The password step of `AUTH LOGIN`, given what the line decoded to.
pub open spec fn sv_auth_pass(s: SessionView, dec: Option<Seq<u8>>) -> StepView {
    match dec {
        None => StepView {
            sess: SessionView { mode: Mode::Command, ..s },
            replies: seq![r_auth_bad()],
            action: ActionView::Continue,
        },
        Some(p) => {
            if s.pending_user == s.user && p == s.pass {
                StepView {
                    sess: SessionView { mode: Mode::Command, authed: true, ..s },
                    replies: seq![r_auth_ok()],
                    action: ActionView::Continue,
                }
            } else {
                StepView {
                    sess: SessionView { mode: Mode::Command, ..s },
                    replies: seq![r_auth_failed()],
                    action: ActionView::Continue,
                }
            }
        },
    }
}

/// One line while collecting message data.
pub open spec fn sv_data(s: SessionView, line: Seq<u8>) -> StepView {
    if line == dot_crlf() || line == dot_lf() {
        StepView {
            sess: SessionView { mode: Mode::Command, data: Seq::empty(), ..s },
            replies: Seq::empty(),
            action: ActionView::Deliver(
                EnvelopeView { from: s.mail_from, to: s.rcpts, raw: s.data },
            ),
        }
    } else {
        StepView {
            sess: SessionView { data: s.data + line, ..s },
            replies: Seq::empty(),
            action: ActionView::Continue,
        }
    }
}

/// One command line, already stripped of its terminator.
pub open spec fn sv_command(s: SessionView, t: Seq<u8>) -> StepView {
    let up = upper_seq(t);
    if starts_with(up, kw_ehlo()) || starts_with(up, kw_helo()) {
        sv_reply(s, helo_replies(s.require_auth))
    } else if starts_with(up, kw_auth()) {
        if !s.require_auth {
            sv_reply(s, seq![r_not_required()])
        } else if starts_with(up, kw_auth_login()) {
            StepView {
                sess: SessionView { mode: Mode::AuthUser, ..s },
                replies: seq![r_username_prompt()],
                action: ActionView::Continue,
            }
        } else if starts_with(up, kw_auth_plain()) {
            sv_auth_plain(s, b64_decode(third_word(t)))
        } else {
            sv_reply(s, seq![r_unknown_mech()])
        }
    } else if starts_with(up, kw_mail_from()) {
        if s.require_auth && !s.authed {
            sv_reply(s, seq![r_need_auth()])
        } else {
            StepView {
                sess: SessionView {
                    mail_from: Some(addr_of(t.subrange(10, t.len() as int))),
                    rcpts: Seq::empty(),
                    ..s
                },
                replies: seq![r_ok()],
                action: ActionView::Continue,
            }
        }
    } else if starts_with(up, kw_rcpt_to()) {
        if s.require_auth && !s.authed {
            sv_reply(s, seq![r_need_auth()])
        } else {
            StepView {
                sess: SessionView {
                    rcpts: s.rcpts.push(addr_of(t.subrange(8, t.len() as int))),
                    ..s
                },
                replies: seq![r_accepted()],
                action: ActionView::Continue,
            }
        }
    } else if up == kw_data() {
        if s.require_auth && !s.authed {
            sv_reply(s, seq![r_need_auth()])
        } else {
            StepView {
                sess: SessionView { mode: Mode::Data, data: Seq::empty(), ..s },
                replies: seq![r_start_data()],
                action: ActionView::Continue,
            }
        }
    } else if up == kw_rset() {
        StepView {
            sess: SessionView { mail_from: None, rcpts: Seq::empty(), ..s },
            replies: seq![r_ok()],
            action: ActionView::Continue,
        }
    } else if up == kw_noop() {
        sv_reply(s, seq![r_ok()])
    } else if up == kw_quit() {
        StepView {
            sess: SessionView { mode: Mode::Closed, ..s },
            replies: seq![r_bye()],
            action: ActionView::Close,
        }
    } else {
        sv_reply(s, seq![r_unknown_cmd()])
    }
}

/// The full transition: one raw line (terminator included) against the
/// session's current mode.
pub open spec fn sv_step(s: SessionView, line: Seq<u8>) -> StepView {
    match s.mode {
        Mode::Closed => StepView { sess: s, replies: Seq::empty(), action: ActionView::Close },
        Mode::Data => sv_data(s, line),
        Mode::AuthUser => sv_auth_user(s, b64_decode(trim_line(line))),
        Mode::AuthPass => sv_auth_pass(s, b64_decode(trim_line(line))),
        Mode::Command => sv_command(s, trim_line(line)),
    }
}

/// The transition on end of input: a session collecting data delivers what it
/// has; any other session closes.
pub open spec fn sv_eof(s: SessionView) -> StepView {
    match s.mode {
        Mode::Data => StepView {
            sess: SessionView { mode: Mode::Command, data: Seq::empty(), ..s },
            replies: Seq::empty(),
            action: ActionView::Deliver(
                EnvelopeView { from: s.mail_from, to: s.rcpts, raw: s.data },
            ),
        },
        _ => StepView {
            sess: SessionView { mode: Mode::Closed, ..s },
            replies: Seq::empty(),
            action: ActionView::Close,
        },
    }
}

fn reply1(a: &str) -> (r: Vec<String>)
    ensures
        r.deep_view() == seq![a@],
{
    let mut v: Vec<String> = Vec::new();
    v.push(a.to_owned());
    proof {
        assert(v.deep_view() =~= seq![a@]);
    }
    v
}

impl Session {
    /// A fresh session for one connection.  Authentication is required
    /// exactly when both credentials are configured.
    pub fn new(user: Option<Vec<u8>>, pass: Option<Vec<u8>>) -> (s: Session)
        ensures
            s@.require_auth == (user is Some && pass is Some),
            s@.user == (match user {
                Some(u) => u@,
                None => Seq::<u8>::empty(),
            }),
            s@.pass == (match pass {
                Some(p) => p@,
                None => Seq::<u8>::empty(),
            }),
            s@.authed == !s@.require_auth,
            s@.mail_from is None,
            s@.rcpts == Seq::<Seq<u8>>::empty(),
            s@.mode is Command,
            s@.pending_user == Seq::<u8>::empty(),
            s@.data == Seq::<u8>::empty(),
    {
        let require = user.is_some() && pass.is_some();
        let u = match user {
            Some(v) => v,
            None => Vec::new(),
        };
        let p = match pass {
            Some(v) => v,
            None => Vec::new(),
        };
        let s = Session {
            require_auth: require,
            user: u,
            pass: p,
            authed: !require,
            mail_from: None,
            rcpts: Vec::new(),
            mode: Mode::Command,
            pending_user: Vec::new(),
            data: Vec::new(),
        };
        proof {
            assert(s@.rcpts =~= Seq::<Seq<u8>>::empty());
        }
        s
    }

    /// Handle one line read from the connection, terminator included.
    pub fn handle_line(&mut self, line: &[u8]) -> (r: Step)
        ensures
            ({
                let st = sv_step(old(self)@, line@);
                final(self)@ == st.sess && r.replies.deep_view() == st.replies && r.action@
                    == st.action
            }),
    {
        match self.mode {
            Mode::Closed => {
                let r = Step { replies: Vec::new(), action: Action::Close };
                proof {
                    assert(r.replies.deep_view() =~= Seq::<Seq<char>>::empty());
                }
                r
            },
            Mode::Data => {
                let r = self.on_data_line(line);
                proof {
                    assert(sv_step(old(self)@, line@) == sv_data(old(self)@, line@));
                }
                r
            },
            Mode::AuthUser => {
                let t = trim_line_ends(line);
                let dec = base64_decode(t.as_slice());
                let ghost gdec = dec.deep_view();
                let r = self.on_auth_user(dec);
                proof {
                    assert(gdec == b64_decode(trim_line(line@)));
                    assert(sv_step(old(self)@, line@) == sv_auth_user(old(self)@, gdec));
                }
                r
            },
            Mode::AuthPass => {
                let t = trim_line_ends(line);
                let dec = base64_decode(t.as_slice());
                let ghost gdec = dec.deep_view();
                let r = self.on_auth_pass(dec);
                proof {
                    assert(gdec == b64_decode(trim_line(line@)));
                    assert(sv_step(old(self)@, line@) == sv_auth_pass(old(self)@, gdec));
                }
                r
            },
            Mode::Command => {
                let t = trim_line_ends(line);
                let ghost gt = t@;
                let r = self.on_command(t);
                proof {
                    assert(gt == trim_line(line@));
                    assert(sv_step(old(self)@, line@) == sv_command(old(self)@, gt));
                }
                r
            },
        }
    }

    /// Handle the end of input: deliver a half-collected message, else close.
    pub fn handle_eof(&mut self) -> (r: Step)
        ensures
            ({
                let st = sv_eof(old(self)@);
                final(self)@ == st.sess && r.replies.deep_view() == st.replies && r.action@
                    == st.action
            }),
    {
        match self.mode {
            Mode::Data => {
                self.mode = Mode::Command;
                let from = copy_opt_bytes(&self.mail_from);
                let to = copy_byte_list(&self.rcpts);
                let raw = self.data.split_off(0);
                proof {
                    assert(self.data@ =~= Seq::<u8>::empty());
                    assert(raw@ =~= old(self)@.data);
                }
                let r = Step {
                    replies: Vec::new(),
                    action: Action::Deliver(Envelope { from, to, raw }),
                };
                proof {
                    assert(r.replies.deep_view() =~= Seq::<Seq<char>>::empty());
                    assert(self@ =~= sv_eof(old(self)@).sess);
                }
                r
            },
            _ => {
                self.mode = Mode::Closed;
                let r = Step { replies: Vec::new(), action: Action::Close };
                proof {
                    assert(r.replies.deep_view() =~= Seq::<Seq<char>>::empty());
                    assert(self@ =~= sv_eof(old(self)@).sess);
                }
                r
            },
        }
    }

    fn on_data_line(&mut self, line: &[u8]) -> (r: Step)
        requires
            old(self).mode is Data,
        ensures
            ({
                let st = sv_data(old(self)@, line@);
                final(self)@ == st.sess && r.replies.deep_view() == st.replies && r.action@
                    == st.action
            }),
    {
        proof {
            reveal_strlit(".\r\n");
            reveal_strlit(".\n");
        }
        let dot1 = str_bytes(".\r\n");
        let dot2 = str_bytes(".\n");
        if bytes_eq(line, dot1.as_slice()) || bytes_eq(line, dot2.as_slice()) {
            self.mode = Mode::Command;
            let from = copy_opt_bytes(&self.mail_from);
            let to = copy_byte_list(&self.rcpts);
            let raw = self.data.split_off(0);
            proof {
                assert(self.data@ =~= Seq::<u8>::empty());
            }
            let r = Step {
                replies: Vec::new(),
                action: Action::Deliver(Envelope { from, to, raw }),
            };
            proof {
                assert(r.replies.deep_view() =~= Seq::<Seq<char>>::empty());
                assert(self@ =~= sv_data(old(self)@, line@).sess);
            }
            r
        } else {
            let mut chunk = copy_bytes(line);
            self.data.append(&mut chunk);
            let r = Step { replies: Vec::new(), action: Action::Continue };
            proof {
                assert(r.replies.deep_view() =~= Seq::<Seq<char>>::empty());
                assert(self@ =~= sv_data(old(self)@, line@).sess);
            }
            r
        }
    }

    fn on_auth_user(&mut self, dec: Option<Vec<u8>>) -> (r: Step)
        requires
            old(self).mode is AuthUser,
        ensures
            ({
                let st = sv_auth_user(old(self)@, dec.deep_view());
                final(self)@ == st.sess && r.replies.deep_view() == st.replies && r.action@
                    == st.action
            }),
    {
        let ghost gdec = dec.deep_view();
        match dec {
            None => {
                self.mode = Mode::Command;
                let r = Step {
                    replies: reply1("535 auth failed\r\n"),
                    action: Action::Continue,
                };
                proof {
                    assert(self@ =~= sv_auth_user(old(self)@, gdec).sess);
                }
                r
            },
            Some(u) => {
                proof {
                    assert(gdec == Some(u@));
                }
                self.mode = Mode::AuthPass;
                self.pending_user = u;
                let r = Step {
                    replies: reply1("334 UGFzc3dvcmQ6\r\n"),
                    action: Action::Continue,
                };
                proof {
                    assert(self@ =~= sv_auth_user(old(self)@, gdec).sess);
                }
                r
            },
        }
    }

    fn on_auth_pass(&mut self, dec: Option<Vec<u8>>) -> (r: Step)
        requires
            old(self).mode is AuthPass,
        ensures
            ({
                let st = sv_auth_pass(old(self)@, dec.deep_view());
                final(self)@ == st.sess && r.replies.deep_view() == st.replies && r.action@
                    == st.action
            }),
    {
        let ghost gdec = dec.deep_view();
        self.mode = Mode::Command;
        match dec {
            None => {
                let r = Step {
                    replies: reply1("535 auth failed\r\n"),
                    action: Action::Continue,
                };
                proof {
                    assert(self@ =~= sv_auth_pass(old(self)@, gdec).sess);
                }
                r
            },
            Some(p) => {
                proof {
                    assert(gdec == Some(p@));
                }
                if bytes_eq(self.pending_user.as_slice(), self.user.as_slice()) && bytes_eq(
                    p.as_slice(),
                    self.pass.as_slice(),
                ) {
                    self.authed = true;
                    let r = Step {
                        replies: reply1("235 Authentication successful\r\n"),
                        action: Action::Continue,
                    };
                    proof {
                        assert(self@ =~= sv_auth_pass(old(self)@, gdec).sess);
                    }
                    r
                } else {
                    let r = Step {
                        replies: reply1("535 Authentication failed\r\n"),
                        action: Action::Continue,
                    };
                    proof {
                        assert(self@ =~= sv_auth_pass(old(self)@, gdec).sess);
                    }
                    r
                }
            },
        }
    }

    fn on_command(&mut self, t: Vec<u8>) -> (r: Step)
        requires
            old(self).mode is Command,
        ensures
            ({
                let st = sv_command(old(self)@, t@);
                final(self)@ == st.sess && r.replies.deep_view() == st.replies && r.action@
                    == st.action
            }),
    {
        proof {
            reveal_strlit("EHLO");
            reveal_strlit("HELO");
            reveal_strlit("AUTH ");
            reveal_strlit("AUTH LOGIN");
            reveal_strlit("AUTH PLAIN");
            reveal_strlit("MAIL FROM:");
            reveal_strlit("RCPT TO:");
            reveal_strlit("DATA");
            reveal_strlit("RSET");
            reveal_strlit("NOOP");
            reveal_strlit("QUIT");
        }
        let up = to_upper(t.as_slice());
        if has_prefix(up.as_slice(), str_bytes("EHLO").as_slice()) || has_prefix(
            up.as_slice(),
            str_bytes("HELO").as_slice(),
        ) {
            let mut rs: Vec<String> = Vec::new();
            rs.push("250-fauxmail\r\n".to_owned());
            if self.require_auth {
                rs.push("250-AUTH PLAIN LOGIN\r\n".to_owned());
            }
            rs.push("250 OK\r\n".to_owned());
            proof {
                assert(rs.deep_view() =~= helo_replies(self.require_auth));
            }
            Step { replies: rs, action: Action::Continue }
        } else if has_prefix(up.as_slice(), str_bytes("AUTH ").as_slice()) {
            if !self.require_auth {
                Step { replies: reply1("503 AUTH not required\r\n"), action: Action::Continue }
            } else if has_prefix(up.as_slice(), str_bytes("AUTH LOGIN").as_slice()) {
                self.mode = Mode::AuthUser;
                let r = Step {
                    replies: reply1("334 VXNlcm5hbWU6\r\n"),
                    action: Action::Continue,
                };
                proof {
                    assert(self@ =~= sv_command(old(self)@, t@).sess);
                }
                r
            } else if has_prefix(up.as_slice(), str_bytes("AUTH PLAIN").as_slice()) {
                let tok = word3(t.as_slice());
                let dec = base64_decode(tok.as_slice());
                match dec {
                    None => Step {
                        replies: reply1("535 auth failed\r\n"),
                        action: Action::Continue,
                    },
                    Some(d) => {
                        let u = nul_chunk(d.as_slice(), 1);
                        let p = nul_chunk(d.as_slice(), 2);
                        if bytes_eq(u.as_slice(), self.user.as_slice()) && bytes_eq(
                            p.as_slice(),
                            self.pass.as_slice(),
                        ) {
                            self.authed = true;
                            let r = Step {
                                replies: reply1("235 Authentication successful\r\n"),
                                action: Action::Continue,
                            };
                            proof {
                                assert(self@ =~= sv_command(old(self)@, t@).sess);
                            }
                            r
                        } else {
                            Step {
                                replies: reply1("535 Authentication failed\r\n"),
                                action: Action::Continue,
                            }
                        }
                    },
                }
            } else {
                Step {
                    replies: reply1("504 Unrecognized authentication type\r\n"),
                    action: Action::Continue,
                }
            }
        } else if has_prefix(up.as_slice(), str_bytes("MAIL FROM:").as_slice()) {
            if self.require_auth && !self.authed {
                Step { replies: reply1("530 Authentication required\r\n"), action: Action::Continue }
            } else {
                let rest = subvec(t.as_slice(), 10, t.len());
                let addr = trim_angles(trim_ws(rest.as_slice()).as_slice());
                self.mail_from = Some(addr);
                self.rcpts = Vec::new();
                let r = Step { replies: reply1("250 OK\r\n"), action: Action::Continue };
                proof {
                    assert(self@.rcpts =~= Seq::<Seq<u8>>::empty());
                    assert(self@ =~= sv_command(old(self)@, t@).sess);
                }
                r
            }
        } else if has_prefix(up.as_slice(), str_bytes("RCPT TO:").as_slice()) {
            if self.require_auth && !self.authed {
                Step { replies: reply1("530 Authentication required\r\n"), action: Action::Continue }
            } else {
                let rest = subvec(t.as_slice(), 8, t.len());
                let addr = trim_angles(trim_ws(rest.as_slice()).as_slice());
                self.rcpts.push(addr);
                let r = Step { replies: reply1("250 Accepted\r\n"), action: Action::Continue };
                proof {
                    assert(self@.rcpts =~~= sv_command(old(self)@, t@).sess.rcpts);
                    assert(self@ =~= sv_command(old(self)@, t@).sess);
                }
                r
            }
        } else if bytes_eq(up.as_slice(), str_bytes("DATA").as_slice()) {
            if self.require_auth && !self.authed {
                Step { replies: reply1("530 Authentication required\r\n"), action: Action::Continue }
            } else {
                self.mode = Mode::Data;
                self.data = Vec::new();
                let r = Step {
                    replies: reply1("354 End data with <CR><LF>.<CR><LF>\r\n"),
                    action: Action::Continue,
                };
                proof {
                    assert(self@.data =~= Seq::<u8>::empty());
                    assert(self@ =~= sv_command(old(self)@, t@).sess);
                }
                r
            }
        } else if bytes_eq(up.as_slice(), str_bytes("RSET").as_slice()) {
            self.mail_from = None;
            self.rcpts = Vec::new();
            let r = Step { replies: reply1("250 OK\r\n"), action: Action::Continue };
            proof {
                assert(self@.rcpts =~= Seq::<Seq<u8>>::empty());
                assert(self@ =~= sv_command(old(self)@, t@).sess);
            }
            r
        } else if bytes_eq(up.as_slice(), str_bytes("NOOP").as_slice()) {
            Step { replies: reply1("250 OK\r\n"), action: Action::Continue }
        } else if bytes_eq(up.as_slice(), str_bytes("QUIT").as_slice()) {
            self.mode = Mode::Closed;
            let r = Step { replies: reply1("221 Bye\r\n"), action: Action::Close };
            proof {
                assert(self@ =~= sv_command(old(self)@, t@).sess);
            }
            r
        } else {
            Step { replies: reply1("502 Command not implemented\r\n"), action: Action::Continue }
        }
    }
}

/// The banner written when a connection is accepted.
pub fn greeting() -> (r: String)
    ensures
        r@ == r_banner(),
{
    "220 fauxmail dev smtp\r\n".to_owned()
}

/// The reply after a delivery attempt: success names the stored message's
/// generated identifier, failure keeps the connection open.
pub fn delivery_reply(stored: bool, id: &str) -> (r: String)
    ensures
        stored ==> r@ == "250 OK id="@ + id@ + "\r\n"@,
        !stored ==> r@ == r_aborted(),
{
    if stored {
        let mut s = "250 OK id=".to_owned();
        s.append(id);
        s.append("\r\n");
        s
    } else {
        "451 Requested action aborted: local error\r\n".to_owned()
    }
}

} // verus!
