//! Session-level laws: properties of the transition function [`sv_step`]
//! that hold for every session and every line of the right shape.

use crate::bytes::{starts_with, trim_line, upper_seq};
use crate::session::{
    dot_crlf, dot_lf, kw_data, kw_ehlo, kw_helo, kw_mail_from, kw_quit, kw_rcpt_to, kw_rset,
    r_auth_failed, r_auth_ok, r_bye, r_need_auth, r_password_prompt, sv_auth_pass, sv_auth_user,
    sv_step, ActionView, EnvelopeView, SessionView,
};
use vstd::prelude::*;

verus! {

proof fn lemma_prefix_first_byte(s: Seq<u8>, p: Seq<u8>)
    requires
        starts_with(s, p),
        p.len() > 0,
    ensures
        s.len() >= p.len(),
        s[0] == p[0],
{
    assert(s.subrange(0, p.len() as int)[0] == s[0]);
}

proof fn reveal_keywords()
    ensures
        kw_ehlo().len() == 4 && kw_ehlo()[0] == 69,
        kw_helo().len() == 4 && kw_helo()[0] == 72,
        crate::session::kw_auth().len() == 5 && crate::session::kw_auth()[0] == 65,
        kw_mail_from().len() == 10 && kw_mail_from()[0] == 77,
        kw_rcpt_to().len() == 8 && kw_rcpt_to()[0] == 82,
        kw_data().len() == 4 && kw_data()[0] == 68,
        kw_rset().len() == 4 && kw_rset()[0] == 82 && kw_rset()[1] == 83,
        kw_rcpt_to()[1] == 67,
        crate::session::kw_noop().len() == 4 && crate::session::kw_noop()[0] == 78,
        kw_quit().len() == 4 && kw_quit()[0] == 81,
{
    reveal_strlit("EHLO");
    reveal_strlit("HELO");
    reveal_strlit("AUTH ");
    reveal_strlit("MAIL FROM:");
    reveal_strlit("RCPT TO:");
    reveal_strlit("DATA");
    reveal_strlit("RSET");
    reveal_strlit("NOOP");
    reveal_strlit("QUIT");
}

/// Every reply to a `HELO` or `EHLO` line begins with `250`.
pub proof fn lemma_helo_replies_start_250(s: SessionView, line: Seq<u8>)
    requires
        s.mode is Command,
        starts_with(upper_seq(trim_line(line)), kw_ehlo()) || starts_with(
            upper_seq(trim_line(line)),
            kw_helo(),
        ),
    ensures
        sv_step(s, line).sess == s,
        sv_step(s, line).action is Continue,
        sv_step(s, line).replies.len() >= 2,
        forall|i: int|
            0 <= i < sv_step(s, line).replies.len() ==> (#[trigger] sv_step(
                s,
                line,
            ).replies[i]).subrange(0, 3) == "250"@,
{
    reveal_strlit("250");
    reveal_strlit("250-fauxmail\r\n");
    reveal_strlit("250-AUTH PLAIN LOGIN\r\n");
    reveal_strlit("250 OK\r\n");
    assert("250-fauxmail\r\n"@.subrange(0, 3) =~= "250"@);
    assert("250-AUTH PLAIN LOGIN\r\n"@.subrange(0, 3) =~= "250"@);
    assert("250 OK\r\n"@.subrange(0, 3) =~= "250"@);
}

/// With authentication required and not yet given, a `MAIL FROM`, `RCPT TO`
/// or `DATA` line is answered `530` alone and the session does not change.
pub proof fn lemma_auth_gate(s: SessionView, line: Seq<u8>)
    requires
        s.mode is Command,
        s.require_auth,
        !s.authed,
        starts_with(upper_seq(trim_line(line)), kw_mail_from()) || starts_with(
            upper_seq(trim_line(line)),
            kw_rcpt_to(),
        ) || upper_seq(trim_line(line)) == kw_data(),
    ensures
        sv_step(s, line).sess == s,
        sv_step(s, line).replies == seq![r_need_auth()],
        sv_step(s, line).action is Continue,
{
    reveal_keywords();
    let up = upper_seq(trim_line(line));
    if starts_with(up, kw_mail_from()) {
        lemma_prefix_first_byte(up, kw_mail_from());
        if starts_with(up, kw_ehlo()) {
            lemma_prefix_first_byte(up, kw_ehlo());
        }
        if starts_with(up, kw_helo()) {
            lemma_prefix_first_byte(up, kw_helo());
        }
        if starts_with(up, crate::session::kw_auth()) {
            lemma_prefix_first_byte(up, crate::session::kw_auth());
        }
    } else if starts_with(up, kw_rcpt_to()) {
        lemma_prefix_first_byte(up, kw_rcpt_to());
        if starts_with(up, kw_ehlo()) {
            lemma_prefix_first_byte(up, kw_ehlo());
        }
        if starts_with(up, kw_helo()) {
            lemma_prefix_first_byte(up, kw_helo());
        }
        if starts_with(up, crate::session::kw_auth()) {
            lemma_prefix_first_byte(up, crate::session::kw_auth());
        }
        if starts_with(up, kw_mail_from()) {
            lemma_prefix_first_byte(up, kw_mail_from());
        }
    } else {
        assert(up == kw_data());
        if starts_with(up, kw_ehlo()) {
            lemma_prefix_first_byte(up, kw_ehlo());
        }
        if starts_with(up, kw_helo()) {
            lemma_prefix_first_byte(up, kw_helo());
        }
        if starts_with(up, crate::session::kw_auth()) {
            lemma_prefix_first_byte(up, crate::session::kw_auth());
        }
        if starts_with(up, kw_mail_from()) {
            lemma_prefix_first_byte(up, kw_mail_from());
        }
        if starts_with(up, kw_rcpt_to()) {
            lemma_prefix_first_byte(up, kw_rcpt_to());
        }
    }
}

/// An `AUTH LOGIN` exchange whose two lines decode to the configured
/// username and password authenticates the session, answering the password
/// prompt and then `235`.
pub proof fn lemma_auth_login_success(s: SessionView, u: Seq<u8>, p: Seq<u8>)
    requires
        s.mode is AuthUser,
        u == s.user,
        p == s.pass,
    ensures
        sv_auth_user(s, Some(u)).replies == seq![r_password_prompt()],
        sv_auth_user(s, Some(u)).sess.mode is AuthPass,
        sv_auth_pass(sv_auth_user(s, Some(u)).sess, Some(p)).sess.authed,
        sv_auth_pass(sv_auth_user(s, Some(u)).sess, Some(p)).sess.mode is Command,
        sv_auth_pass(sv_auth_user(s, Some(u)).sess, Some(p)).replies == seq![r_auth_ok()],
{
}

/// An `AUTH LOGIN` exchange whose password line decodes to anything but the
/// configured password is answered `535` and leaves the session
/// unauthenticated.
pub proof fn lemma_auth_login_wrong_password(s: SessionView, u: Seq<u8>, p: Seq<u8>)
    requires
        s.mode is AuthUser,
        u == s.user,
        p != s.pass,
        !s.authed,
    ensures
        sv_auth_pass(sv_auth_user(s, Some(u)).sess, Some(p)).sess.authed == false,
        sv_auth_pass(sv_auth_user(s, Some(u)).sess, Some(p)).sess.mode is Command,
        sv_auth_pass(sv_auth_user(s, Some(u)).sess, Some(p)).replies == seq![r_auth_failed()],
{
}

/// `RSET` after `MAIL FROM` and any `RCPT TO`s clears the whole pending
/// envelope, and a following `DATA` collects for an empty envelope: the
/// terminating dot then delivers no sender, no recipients, and exactly the
/// collected bytes — here none.
pub proof fn lemma_rset_clears_envelope(
    s: SessionView,
    mail_line: Seq<u8>,
    rcpt1: Seq<u8>,
    rcpt2: Seq<u8>,
    rset_line: Seq<u8>,
    data_line: Seq<u8>,
)
    requires
        s.mode is Command,
        !(s.require_auth && !s.authed),
        starts_with(upper_seq(trim_line(mail_line)), kw_mail_from()),
        starts_with(upper_seq(trim_line(rcpt1)), kw_rcpt_to()),
        starts_with(upper_seq(trim_line(rcpt2)), kw_rcpt_to()),
        upper_seq(trim_line(rset_line)) == kw_rset(),
        upper_seq(trim_line(data_line)) == kw_data(),
    ensures
        ({
            let s1 = sv_step(s, mail_line).sess;
            let s2 = sv_step(s1, rcpt1).sess;
            let s3 = sv_step(s2, rcpt2).sess;
            let s4 = sv_step(s3, rset_line).sess;
            let s5 = sv_step(s4, data_line).sess;
            &&& s4.mail_from is None
            &&& s4.rcpts == Seq::<Seq<u8>>::empty()
            &&& s5.mode is Data
            &&& sv_step(s5, dot_crlf()).action == ActionView::Deliver(
                EnvelopeView {
                    from: None,
                    to: Seq::<Seq<u8>>::empty(),
                    raw: Seq::<u8>::empty(),
                },
            )
        }),
{
    reveal_keywords();
    let up1 = upper_seq(trim_line(mail_line));
    lemma_prefix_first_byte(up1, kw_mail_from());
    no_early_match(up1);
    let s1 = sv_step(s, mail_line).sess;
    let up2 = upper_seq(trim_line(rcpt1));
    lemma_prefix_first_byte(up2, kw_rcpt_to());
    no_early_match(up2);
    if starts_with(up2, kw_mail_from()) {
        lemma_prefix_first_byte(up2, kw_mail_from());
    }
    let s2 = sv_step(s1, rcpt1).sess;
    let up3 = upper_seq(trim_line(rcpt2));
    lemma_prefix_first_byte(up3, kw_rcpt_to());
    no_early_match(up3);
    if starts_with(up3, kw_mail_from()) {
        lemma_prefix_first_byte(up3, kw_mail_from());
    }
    let s3 = sv_step(s2, rcpt2).sess;
    let up4 = upper_seq(trim_line(rset_line));
    no_early_match(up4);
    if starts_with(up4, kw_mail_from()) {
        lemma_prefix_first_byte(up4, kw_mail_from());
    }
    if starts_with(up4, kw_rcpt_to()) {
        lemma_prefix_first_byte(up4, kw_rcpt_to());
    }
    let s4 = sv_step(s3, rset_line).sess;
    assert(s4.rcpts =~= Seq::<Seq<u8>>::empty());
    let up5 = upper_seq(trim_line(data_line));
    no_early_match(up5);
    if starts_with(up5, kw_mail_from()) {
        lemma_prefix_first_byte(up5, kw_mail_from());
    }
    if starts_with(up5, kw_rcpt_to()) {
        lemma_prefix_first_byte(up5, kw_rcpt_to());
    }
    let s5 = sv_step(s4, data_line).sess;
    assert(s5.data =~= Seq::<u8>::empty());
    assert(sv_step(s5, dot_crlf()).action == ActionView::Deliver(
        EnvelopeView { from: None, to: Seq::<Seq<u8>>::empty(), raw: Seq::<u8>::empty() },
    ));
}

proof fn no_early_match(up: Seq<u8>)
    requires
        up.len() > 0 ==> (up[0] == 77 || up[0] == 82 || up[0] == 68 || up[0] == 81),
    ensures
        !starts_with(up, kw_ehlo()),
        !starts_with(up, kw_helo()),
        !starts_with(up, crate::session::kw_auth()),
{
    reveal_keywords();
    if starts_with(up, kw_ehlo()) {
        lemma_prefix_first_byte(up, kw_ehlo());
    }
    if starts_with(up, kw_helo()) {
        lemma_prefix_first_byte(up, kw_helo());
    }
    if starts_with(up, crate::session::kw_auth()) {
        lemma_prefix_first_byte(up, crate::session::kw_auth());
    }
}

/// A data line that is exactly a lone dot ends collection: what was gathered
/// up to it — and nothing after it — is delivered, and the session reads
/// commands again.
pub proof fn lemma_data_dot_terminates(s: SessionView, line: Seq<u8>)
    requires
        s.mode is Data,
        line == dot_crlf() || line == dot_lf(),
    ensures
        sv_step(s, line).action == ActionView::Deliver(
            EnvelopeView { from: s.mail_from, to: s.rcpts, raw: s.data },
        ),
        sv_step(s, line).sess.mode is Command,
        sv_step(s, line).sess.data == Seq::<u8>::empty(),
        sv_step(s, line).replies == Seq::<Seq<char>>::empty(),
{
}

/// Any other data line is appended verbatim, terminator included, with no
/// reply.
pub proof fn lemma_data_line_collected(s: SessionView, line: Seq<u8>)
    requires
        s.mode is Data,
        line != dot_crlf(),
        line != dot_lf(),
    ensures
        sv_step(s, line).sess.data == s.data + line,
        sv_step(s, line).sess.mode is Data,
        sv_step(s, line).replies == Seq::<Seq<char>>::empty(),
        sv_step(s, line).action is Continue,
{
}

/// `QUIT` is answered `221` and closes the session; no later line is
/// answered or changes it.
pub proof fn lemma_quit_closes(s: SessionView, line: Seq<u8>, later: Seq<u8>)
    requires
        s.mode is Command,
        upper_seq(trim_line(line)) == kw_quit(),
    ensures
        sv_step(s, line).replies == seq![r_bye()],
        sv_step(s, line).action is Close,
        sv_step(s, line).sess.mode is Closed,
        sv_step(sv_step(s, line).sess, later).replies == Seq::<Seq<char>>::empty(),
        sv_step(sv_step(s, line).sess, later).action is Close,
        sv_step(sv_step(s, line).sess, later).sess == sv_step(s, line).sess,
{
    reveal_keywords();
    let up = upper_seq(trim_line(line));
    no_early_match(up);
    if starts_with(up, kw_mail_from()) {
        lemma_prefix_first_byte(up, kw_mail_from());
    }
    if starts_with(up, kw_rcpt_to()) {
        lemma_prefix_first_byte(up, kw_rcpt_to());
    }
}

} // verus!
