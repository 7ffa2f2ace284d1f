//! The protocol-level guarantees of the state machine, stated over
//! [`spec_step`] and [`spec_run`] and proved once and for all: which
//! commands are rejected in which phases, which commands can never fail,
//! what a full transaction or an abrupt disconnect leaves behind, and the
//! shape of the fixed replies.

use vstd::prelude::*;

use crate::session::{spec_quit, spec_run};
use crate::smtp::{
    appended_body, ehlo_greeting_text, has_prefix, is_space_char, is_terminator_line, is_verb,
    joined_with, lemma_matches_ci_excl, lemma_not_verb_at, lemma_token_end_range,
    lemma_token_start_range, matches_ci_char, reply_text, spec_step, MailView, Reply,
    SmtpErrorKind, StateView, token_end, token_start,
};

verus! {

/// A sequence of characters entirely free of whitespace, so that it
/// survives tokenization as a single piece.
pub open spec fn no_spaces(s: Seq<char>) -> bool {
    forall|i: int| 0 <= i < s.len() ==> !is_space_char(#[trigger] s[i])
}

/// A line the data phase records as body content: not the terminator, and
/// its first word (if any) is none of the commands recognised in every
/// phase.
pub open spec fn is_body_content(line: Seq<char>) -> bool {
    let a = token_start(line, 0);
    let b = token_end(line, a);
    !is_terminator_line(line) && (a == b || {
        let cmd = line.subrange(a, b);
        &&& !is_verb(cmd, "noop"@)
        &&& !is_verb(cmd, "help"@)
        &&& !is_verb(cmd, "info"@)
        &&& !is_verb(cmd, "vrfy"@)
        &&& !is_verb(cmd, "expn"@)
        &&& !is_verb(cmd, "rset"@)
        &&& !is_verb(cmd, "auth"@)
        &&& !is_verb(cmd, "quit"@)
    })
}

/// The informational commands (`NOOP`, `HELP`, `INFO`, `VRFY`, `EXPN`)
/// succeed in every phase and change nothing at all: the state — and with
/// it any message being assembled — is returned untouched.
pub proof fn lemma_noops_preserve_state(st: StateView, line: Seq<char>)
    requires
        ({
            let a = token_start(line, 0);
            let b = token_end(line, a);
            let cmd = line.subrange(a, b);
            a != b && (is_verb(cmd, "noop"@) || is_verb(cmd, "help"@) || is_verb(cmd, "info"@)
                || is_verb(cmd, "vrfy"@) || is_verb(cmd, "expn"@))
        }),
    ensures
        spec_step(st, line) == Ok::<(StateView, Reply), SmtpErrorKind>((st, Reply::Okay)),
{
}

/// `RSET` succeeds in every phase and returns the session to its initial
/// state, discarding any in-progress message.  (A later successful `MAIL`
/// always opens a fresh, empty message: see [`lemma_step_mail_line`].)
pub proof fn lemma_rset_resets(st: StateView, line: Seq<char>)
    requires
        ({
            let a = token_start(line, 0);
            let b = token_end(line, a);
            a != b && is_verb(line.subrange(a, b), "rset"@)
        }),
    ensures
        spec_step(st, line) == Ok::<(StateView, Reply), SmtpErrorKind>(
            (StateView::Fresh, Reply::Okay),
        ),
{
    reveal_strlit("rset");
    reveal_strlit("noop");
    reveal_strlit("help");
    reveal_strlit("info");
    reveal_strlit("vrfy");
    reveal_strlit("expn");
    let a = token_start(line, 0);
    let b = token_end(line, a);
    let cmd = line.subrange(a, b);
    assert(matches_ci_char(cmd[0], "rset"@[0]));
    lemma_matches_ci_excl(cmd[0], 'r', 'n');
    lemma_not_verb_at(cmd, "noop"@, 0);
    lemma_matches_ci_excl(cmd[0], 'r', 'h');
    lemma_not_verb_at(cmd, "help"@, 0);
    lemma_matches_ci_excl(cmd[0], 'r', 'i');
    lemma_not_verb_at(cmd, "info"@, 0);
    lemma_matches_ci_excl(cmd[0], 'r', 'v');
    lemma_not_verb_at(cmd, "vrfy"@, 0);
    lemma_matches_ci_excl(cmd[0], 'r', 'e');
    lemma_not_verb_at(cmd, "expn"@, 0);
}

/// `AUTH` succeeds from every state, with no look at its argument: the
/// reply is unconditional acceptance and the state does not change.
pub proof fn lemma_auth_always_succeeds(st: StateView, line: Seq<char>)
    requires
        ({
            let a = token_start(line, 0);
            let b = token_end(line, a);
            a != b && is_verb(line.subrange(a, b), "auth"@)
        }),
    ensures
        spec_step(st, line) == Ok::<(StateView, Reply), SmtpErrorKind>((st, Reply::AuthOkay)),
{
    reveal_strlit("auth");
    reveal_strlit("noop");
    reveal_strlit("help");
    reveal_strlit("info");
    reveal_strlit("vrfy");
    reveal_strlit("expn");
    reveal_strlit("rset");
    let a = token_start(line, 0);
    let b = token_end(line, a);
    let cmd = line.subrange(a, b);
    assert(matches_ci_char(cmd[0], "auth"@[0]));
    lemma_matches_ci_excl(cmd[0], 'a', 'n');
    lemma_not_verb_at(cmd, "noop"@, 0);
    lemma_matches_ci_excl(cmd[0], 'a', 'h');
    lemma_not_verb_at(cmd, "help"@, 0);
    lemma_matches_ci_excl(cmd[0], 'a', 'i');
    lemma_not_verb_at(cmd, "info"@, 0);
    lemma_matches_ci_excl(cmd[0], 'a', 'v');
    lemma_not_verb_at(cmd, "vrfy"@, 0);
    lemma_matches_ci_excl(cmd[0], 'a', 'e');
    lemma_not_verb_at(cmd, "expn"@, 0);
    lemma_matches_ci_excl(cmd[0], 'a', 'r');
    lemma_not_verb_at(cmd, "rset"@, 0);
}

/// From the initial state, any command that is not a greeting and not one
/// of the always-valid commands is rejected as out of sequence.  In
/// particular `MAIL`, `RCPT`, `DATA` and any unrecognised verb all fail
/// from a fresh session.
pub proof fn lemma_fresh_rejects_non_greeting(line: Seq<char>)
    requires
        ({
            let a = token_start(line, 0);
            let b = token_end(line, a);
            let cmd = line.subrange(a, b);
            &&& a != b
            &&& !is_verb(cmd, "noop"@)
            &&& !is_verb(cmd, "help"@)
            &&& !is_verb(cmd, "info"@)
            &&& !is_verb(cmd, "vrfy"@)
            &&& !is_verb(cmd, "expn"@)
            &&& !is_verb(cmd, "rset"@)
            &&& !is_verb(cmd, "auth"@)
            &&& !is_verb(cmd, "quit"@)
            &&& !is_verb(cmd, "ehlo"@)
            &&& !is_verb(cmd, "helo"@)
        }),
    ensures
        spec_step(StateView::Fresh, line) == Err::<(StateView, Reply), SmtpErrorKind>(
            SmtpErrorKind::UnexpectedCommand,
        ),
{
}

/// `RCPT` is rejected before a successful `MAIL`, whether or not the
/// session has been greeted.
pub proof fn lemma_rcpt_requires_mail(st: StateView, line: Seq<char>)
    requires
        st is Fresh || st is Greeted,
        ({
            let a = token_start(line, 0);
            let b = token_end(line, a);
            a != b && is_verb(line.subrange(a, b), "rcpt"@)
        }),
    ensures
        spec_step(st, line) == Err::<(StateView, Reply), SmtpErrorKind>(
            SmtpErrorKind::UnexpectedCommand,
        ),
{
    reveal_strlit("rcpt");
    reveal_strlit("noop");
    reveal_strlit("help");
    reveal_strlit("info");
    reveal_strlit("vrfy");
    reveal_strlit("expn");
    reveal_strlit("rset");
    reveal_strlit("auth");
    reveal_strlit("quit");
    reveal_strlit("ehlo");
    reveal_strlit("helo");
    reveal_strlit("mail");
    let a = token_start(line, 0);
    let b = token_end(line, a);
    let cmd = line.subrange(a, b);
    assert(matches_ci_char(cmd[0], "rcpt"@[0]));
    assert(matches_ci_char(cmd[1], "rcpt"@[1]));
    lemma_matches_ci_excl(cmd[0], 'r', 'n');
    lemma_not_verb_at(cmd, "noop"@, 0);
    lemma_matches_ci_excl(cmd[0], 'r', 'h');
    lemma_not_verb_at(cmd, "help"@, 0);
    lemma_not_verb_at(cmd, "helo"@, 0);
    lemma_matches_ci_excl(cmd[0], 'r', 'i');
    lemma_not_verb_at(cmd, "info"@, 0);
    lemma_matches_ci_excl(cmd[0], 'r', 'v');
    lemma_not_verb_at(cmd, "vrfy"@, 0);
    lemma_matches_ci_excl(cmd[0], 'r', 'e');
    lemma_not_verb_at(cmd, "expn"@, 0);
    lemma_not_verb_at(cmd, "ehlo"@, 0);
    lemma_matches_ci_excl(cmd[1], 'c', 's');
    lemma_not_verb_at(cmd, "rset"@, 1);
    lemma_matches_ci_excl(cmd[0], 'r', 'a');
    lemma_not_verb_at(cmd, "auth"@, 0);
    lemma_matches_ci_excl(cmd[0], 'r', 'q');
    lemma_not_verb_at(cmd, "quit"@, 0);
    lemma_matches_ci_excl(cmd[0], 'r', 'm');
    lemma_not_verb_at(cmd, "mail"@, 0);
}

/// `DATA` is rejected until at least one recipient has been accepted:
/// from the initial state, from a greeted session with no open message,
/// and from an open message whose recipient list is still empty.
pub proof fn lemma_data_requires_rcpt(st: StateView, line: Seq<char>)
    requires
        st is Fresh || st is Greeted || (st is ReceivingRcpt && st->ReceivingRcpt_0.to.len()
            == 0),
        ({
            let a = token_start(line, 0);
            let b = token_end(line, a);
            a != b && is_verb(line.subrange(a, b), "data"@)
        }),
    ensures
        spec_step(st, line) == Err::<(StateView, Reply), SmtpErrorKind>(
            SmtpErrorKind::UnexpectedCommand,
        ),
{
    reveal_strlit("data");
    reveal_strlit("noop");
    reveal_strlit("help");
    reveal_strlit("info");
    reveal_strlit("vrfy");
    reveal_strlit("expn");
    reveal_strlit("rset");
    reveal_strlit("auth");
    reveal_strlit("quit");
    reveal_strlit("ehlo");
    reveal_strlit("helo");
    reveal_strlit("mail");
    reveal_strlit("rcpt");
    let a = token_start(line, 0);
    let b = token_end(line, a);
    let cmd = line.subrange(a, b);
    assert(matches_ci_char(cmd[0], "data"@[0]));
    lemma_matches_ci_excl(cmd[0], 'd', 'n');
    lemma_not_verb_at(cmd, "noop"@, 0);
    lemma_matches_ci_excl(cmd[0], 'd', 'h');
    lemma_not_verb_at(cmd, "help"@, 0);
    lemma_not_verb_at(cmd, "helo"@, 0);
    lemma_matches_ci_excl(cmd[0], 'd', 'i');
    lemma_not_verb_at(cmd, "info"@, 0);
    lemma_matches_ci_excl(cmd[0], 'd', 'v');
    lemma_not_verb_at(cmd, "vrfy"@, 0);
    lemma_matches_ci_excl(cmd[0], 'd', 'e');
    lemma_not_verb_at(cmd, "expn"@, 0);
    lemma_not_verb_at(cmd, "ehlo"@, 0);
    lemma_matches_ci_excl(cmd[0], 'd', 'r');
    lemma_not_verb_at(cmd, "rset"@, 0);
    lemma_not_verb_at(cmd, "rcpt"@, 0);
    lemma_matches_ci_excl(cmd[0], 'd', 'a');
    lemma_not_verb_at(cmd, "auth"@, 0);
    lemma_matches_ci_excl(cmd[0], 'd', 'q');
    lemma_not_verb_at(cmd, "quit"@, 0);
    lemma_matches_ci_excl(cmd[0], 'd', 'm');
    lemma_not_verb_at(cmd, "mail"@, 0);
}

/// A `HELO` line greets a fresh session, whatever follows the verb.
pub proof fn lemma_step_helo_line(d: Seq<char>)
    ensures
        spec_step(StateView::Fresh, "HELO "@ + d) == Ok::<(StateView, Reply), SmtpErrorKind>(
            (StateView::Greeted, Reply::Okay),
        ),
{
    reveal_strlit("HELO ");
    reveal_strlit("HELO");
    reveal_strlit("noop");
    reveal_strlit("help");
    reveal_strlit("info");
    reveal_strlit("vrfy");
    reveal_strlit("expn");
    reveal_strlit("rset");
    reveal_strlit("auth");
    reveal_strlit("quit");
    reveal_strlit("ehlo");
    reveal_strlit("helo");
    let line = "HELO "@ + d;
    assert(line[0] == 'H' && line[1] == 'E' && line[2] == 'L' && line[3] == 'O' && line[4]
        == ' ');
    assert(forall|j: int| 0 <= j < 4 ==> !is_space_char(#[trigger] line[j]));
    lemma_token_start_range(line, 0, 0);
    lemma_token_end_range(line, 0, 4);
    let cmd = line.subrange(0, 4);
    assert(cmd =~= "HELO"@);
    assert(matches_ci_char('H', 'h') && matches_ci_char('E', 'e') && matches_ci_char('L', 'l')
        && matches_ci_char('O', 'o'));
    assert(is_verb(cmd, "helo"@));
    assert(matches_ci_char(cmd[0], 'h'));
    assert(matches_ci_char(cmd[3], 'o'));
    lemma_matches_ci_excl(cmd[0], 'h', 'n');
    lemma_not_verb_at(cmd, "noop"@, 0);
    lemma_matches_ci_excl(cmd[3], 'o', 'p');
    lemma_not_verb_at(cmd, "help"@, 3);
    lemma_matches_ci_excl(cmd[0], 'h', 'i');
    lemma_not_verb_at(cmd, "info"@, 0);
    lemma_matches_ci_excl(cmd[0], 'h', 'v');
    lemma_not_verb_at(cmd, "vrfy"@, 0);
    lemma_matches_ci_excl(cmd[0], 'h', 'e');
    lemma_not_verb_at(cmd, "expn"@, 0);
    lemma_not_verb_at(cmd, "ehlo"@, 0);
    lemma_matches_ci_excl(cmd[0], 'h', 'r');
    lemma_not_verb_at(cmd, "rset"@, 0);
    lemma_matches_ci_excl(cmd[0], 'h', 'a');
    lemma_not_verb_at(cmd, "auth"@, 0);
    lemma_matches_ci_excl(cmd[0], 'h', 'q');
    lemma_not_verb_at(cmd, "quit"@, 0);
}

/// A `MAIL FROM:` line with a whitespace-free argument opens a fresh,
/// empty message carrying that argument as its sender.  It is accepted
/// from a greeted session, or after a completed message to start the next
/// one on the same connection.
pub proof fn lemma_step_mail_line(st: StateView, s: Seq<char>)
    requires
        st is Greeted || st is Received,
        no_spaces(s),
    ensures
        spec_step(st, "MAIL FROM:"@ + s) == Ok::<(StateView, Reply), SmtpErrorKind>(
            (
                StateView::ReceivingRcpt(
                    MailView { from: s, to: Seq::empty(), data: Seq::empty() },
                ),
                Reply::Okay,
            ),
        ),
{
    reveal_strlit("MAIL FROM:");
    reveal_strlit("MAIL");
    reveal_strlit("FROM:");
    reveal_strlit("noop");
    reveal_strlit("help");
    reveal_strlit("info");
    reveal_strlit("vrfy");
    reveal_strlit("expn");
    reveal_strlit("rset");
    reveal_strlit("auth");
    reveal_strlit("quit");
    reveal_strlit("ehlo");
    reveal_strlit("helo");
    reveal_strlit("mail");
    let line = "MAIL FROM:"@ + s;
    assert(line[0] == 'M' && line[1] == 'A' && line[2] == 'I' && line[3] == 'L' && line[4]
        == ' ');
    assert(line[5] == 'F' && line[6] == 'R' && line[7] == 'O' && line[8] == 'M' && line[9]
        == ':');
    assert(forall|j: int| 0 <= j < 4 ==> !is_space_char(#[trigger] line[j]));
    lemma_token_start_range(line, 0, 0);
    lemma_token_end_range(line, 0, 4);
    let cmd = line.subrange(0, 4);
    assert(cmd =~= "MAIL"@);
    assert(matches_ci_char('M', 'm') && matches_ci_char('A', 'a') && matches_ci_char('I', 'i')
        && matches_ci_char('L', 'l'));
    assert(is_verb(cmd, "mail"@));
    assert(matches_ci_char(cmd[0], 'm'));
    lemma_matches_ci_excl(cmd[0], 'm', 'n');
    lemma_not_verb_at(cmd, "noop"@, 0);
    lemma_matches_ci_excl(cmd[0], 'm', 'h');
    lemma_not_verb_at(cmd, "help"@, 0);
    lemma_not_verb_at(cmd, "helo"@, 0);
    lemma_matches_ci_excl(cmd[0], 'm', 'i');
    lemma_not_verb_at(cmd, "info"@, 0);
    lemma_matches_ci_excl(cmd[0], 'm', 'v');
    lemma_not_verb_at(cmd, "vrfy"@, 0);
    lemma_matches_ci_excl(cmd[0], 'm', 'e');
    lemma_not_verb_at(cmd, "expn"@, 0);
    lemma_not_verb_at(cmd, "ehlo"@, 0);
    lemma_matches_ci_excl(cmd[0], 'm', 'r');
    lemma_not_verb_at(cmd, "rset"@, 0);
    lemma_matches_ci_excl(cmd[0], 'm', 'a');
    lemma_not_verb_at(cmd, "auth"@, 0);
    lemma_matches_ci_excl(cmd[0], 'm', 'q');
    lemma_not_verb_at(cmd, "quit"@, 0);
    assert(is_space_char(line[4]));
    assert(!is_space_char(line[5]));
    lemma_token_start_range(line, 4, 5);
    assert forall|j: int| 5 <= j < line.len() implies !is_space_char(#[trigger] line[j]) by {
        if j >= 10 {
            assert(line[j] == s[j - 10]);
        }
    }
    lemma_token_end_range(line, 5, line.len() as int);
    let tok = line.subrange(5, line.len() as int);
    assert(tok =~= "FROM:"@ + s);
    assert(tok.subrange(0, 5) =~= "FROM:"@);
    assert(has_prefix(tok, "FROM:"@));
    assert(tok.skip("FROM:"@.len() as int) =~= s);
}

/// An `RCPT TO:` line with a whitespace-free argument appends that
/// argument to the open message's recipient list and changes nothing
/// else.
pub proof fn lemma_step_rcpt_line(m: MailView, r: Seq<char>)
    requires
        no_spaces(r),
    ensures
        spec_step(StateView::ReceivingRcpt(m), "RCPT TO:"@ + r) == Ok::<
            (StateView, Reply),
            SmtpErrorKind,
        >(
            (
                StateView::ReceivingRcpt(
                    MailView { from: m.from, to: m.to.push(r), data: m.data },
                ),
                Reply::Okay,
            ),
        ),
{
    reveal_strlit("RCPT TO:");
    reveal_strlit("RCPT");
    reveal_strlit("TO:");
    reveal_strlit("noop");
    reveal_strlit("help");
    reveal_strlit("info");
    reveal_strlit("vrfy");
    reveal_strlit("expn");
    reveal_strlit("rset");
    reveal_strlit("auth");
    reveal_strlit("quit");
    reveal_strlit("ehlo");
    reveal_strlit("helo");
    reveal_strlit("mail");
    reveal_strlit("rcpt");
    let line = "RCPT TO:"@ + r;
    assert(line[0] == 'R' && line[1] == 'C' && line[2] == 'P' && line[3] == 'T' && line[4]
        == ' ');
    assert(line[5] == 'T' && line[6] == 'O' && line[7] == ':');
    assert(forall|j: int| 0 <= j < 4 ==> !is_space_char(#[trigger] line[j]));
    lemma_token_start_range(line, 0, 0);
    lemma_token_end_range(line, 0, 4);
    let cmd = line.subrange(0, 4);
    assert(cmd =~= "RCPT"@);
    assert(matches_ci_char('R', 'r') && matches_ci_char('C', 'c') && matches_ci_char('P', 'p')
        && matches_ci_char('T', 't'));
    assert(is_verb(cmd, "rcpt"@));
    assert(matches_ci_char(cmd[0], 'r'));
    assert(matches_ci_char(cmd[1], 'c'));
    lemma_matches_ci_excl(cmd[0], 'r', 'n');
    lemma_not_verb_at(cmd, "noop"@, 0);
    lemma_matches_ci_excl(cmd[0], 'r', 'h');
    lemma_not_verb_at(cmd, "help"@, 0);
    lemma_not_verb_at(cmd, "helo"@, 0);
    lemma_matches_ci_excl(cmd[0], 'r', 'i');
    lemma_not_verb_at(cmd, "info"@, 0);
    lemma_matches_ci_excl(cmd[0], 'r', 'v');
    lemma_not_verb_at(cmd, "vrfy"@, 0);
    lemma_matches_ci_excl(cmd[0], 'r', 'e');
    lemma_not_verb_at(cmd, "expn"@, 0);
    lemma_not_verb_at(cmd, "ehlo"@, 0);
    lemma_matches_ci_excl(cmd[1], 'c', 's');
    lemma_not_verb_at(cmd, "rset"@, 1);
    lemma_matches_ci_excl(cmd[0], 'r', 'a');
    lemma_not_verb_at(cmd, "auth"@, 0);
    lemma_matches_ci_excl(cmd[0], 'r', 'q');
    lemma_not_verb_at(cmd, "quit"@, 0);
    lemma_matches_ci_excl(cmd[0], 'r', 'm');
    lemma_not_verb_at(cmd, "mail"@, 0);
    assert(is_space_char(line[4]));
    assert(!is_space_char(line[5]));
    lemma_token_start_range(line, 4, 5);
    assert forall|j: int| 5 <= j < line.len() implies !is_space_char(#[trigger] line[j]) by {
        if j >= 8 {
            assert(line[j] == r[j - 8]);
        }
    }
    lemma_token_end_range(line, 5, line.len() as int);
    let tok = line.subrange(5, line.len() as int);
    assert(tok =~= "TO:"@ + r);
    assert(tok.subrange(0, 3) =~= "TO:"@);
    assert(has_prefix(tok, "TO:"@));
    assert(tok.skip("TO:"@.len() as int) =~= r);
}

/// A `DATA` line opens the data phase when at least one recipient has
/// been accepted, and is rejected when none has.
pub proof fn lemma_step_data_line(m: MailView)
    ensures
        m.to.len() > 0 ==> spec_step(StateView::ReceivingRcpt(m), "DATA"@) == Ok::<
            (StateView, Reply),
            SmtpErrorKind,
        >((StateView::ReceivingData(m), Reply::SendData)),
        m.to.len() == 0 ==> spec_step(StateView::ReceivingRcpt(m), "DATA"@) == Err::<
            (StateView, Reply),
            SmtpErrorKind,
        >(SmtpErrorKind::UnexpectedCommand),
{
    reveal_strlit("DATA");
    reveal_strlit("noop");
    reveal_strlit("help");
    reveal_strlit("info");
    reveal_strlit("vrfy");
    reveal_strlit("expn");
    reveal_strlit("rset");
    reveal_strlit("auth");
    reveal_strlit("quit");
    reveal_strlit("ehlo");
    reveal_strlit("helo");
    reveal_strlit("mail");
    reveal_strlit("rcpt");
    reveal_strlit("data");
    let line = "DATA"@;
    assert(line[0] == 'D' && line[1] == 'A' && line[2] == 'T' && line[3] == 'A');
    assert(forall|j: int| 0 <= j < 4 ==> !is_space_char(#[trigger] line[j]));
    lemma_token_start_range(line, 0, 0);
    lemma_token_end_range(line, 0, 4);
    let cmd = line.subrange(0, 4);
    assert(cmd =~= "DATA"@);
    assert(matches_ci_char('D', 'd') && matches_ci_char('A', 'a') && matches_ci_char('T', 't'));
    assert(is_verb(cmd, "data"@));
    assert(matches_ci_char(cmd[0], 'd'));
    lemma_matches_ci_excl(cmd[0], 'd', 'n');
    lemma_not_verb_at(cmd, "noop"@, 0);
    lemma_matches_ci_excl(cmd[0], 'd', 'h');
    lemma_not_verb_at(cmd, "help"@, 0);
    lemma_not_verb_at(cmd, "helo"@, 0);
    lemma_matches_ci_excl(cmd[0], 'd', 'i');
    lemma_not_verb_at(cmd, "info"@, 0);
    lemma_matches_ci_excl(cmd[0], 'd', 'v');
    lemma_not_verb_at(cmd, "vrfy"@, 0);
    lemma_matches_ci_excl(cmd[0], 'd', 'e');
    lemma_not_verb_at(cmd, "expn"@, 0);
    lemma_not_verb_at(cmd, "ehlo"@, 0);
    lemma_matches_ci_excl(cmd[0], 'd', 'r');
    lemma_not_verb_at(cmd, "rset"@, 0);
    lemma_not_verb_at(cmd, "rcpt"@, 0);
    lemma_matches_ci_excl(cmd[0], 'd', 'a');
    lemma_not_verb_at(cmd, "auth"@, 0);
    lemma_matches_ci_excl(cmd[0], 'd', 'q');
    lemma_not_verb_at(cmd, "quit"@, 0);
    lemma_matches_ci_excl(cmd[0], 'd', 'm');
    lemma_not_verb_at(cmd, "mail"@, 0);
}

/// In the data phase, a body-content line is appended to the body
/// verbatim and draws no reply.
pub proof fn lemma_step_body_line(m: MailView, line: Seq<char>)
    requires
        is_body_content(line),
    ensures
        spec_step(StateView::ReceivingData(m), line) == Ok::<(StateView, Reply), SmtpErrorKind>(
            (
                StateView::ReceivingData(
                    MailView { from: m.from, to: m.to, data: appended_body(m.data, line) },
                ),
                Reply::Empty,
            ),
        ),
{
}

/// The lone-dot line ends the data phase: the message is complete, the
/// terminator itself is not part of the body.
pub proof fn lemma_step_terminator(m: MailView)
    ensures
        spec_step(StateView::ReceivingData(m), "."@) == Ok::<(StateView, Reply), SmtpErrorKind>(
            (StateView::Received(m), Reply::Okay),
        ),
{
    reveal_strlit(".");
    reveal_strlit("noop");
    reveal_strlit("help");
    reveal_strlit("info");
    reveal_strlit("vrfy");
    reveal_strlit("expn");
    reveal_strlit("rset");
    reveal_strlit("auth");
    reveal_strlit("quit");
    let line = "."@;
    assert(line.len() == 1);
    assert(!is_space_char(line[0]));
    lemma_token_start_range(line, 0, 0);
    lemma_token_end_range(line, 0, 1);
    assert(is_terminator_line(line));
}

/// Any line whose first word spells `QUIT` ends the session with `Bye`,
/// surfacing a data-phase message as received.
pub proof fn lemma_step_quit_verb(st: StateView, line: Seq<char>)
    requires
        ({
            let a = token_start(line, 0);
            let b = token_end(line, a);
            a != b && is_verb(line.subrange(a, b), "quit"@)
        }),
    ensures
        spec_step(st, line) == Ok::<(StateView, Reply), SmtpErrorKind>(
            (spec_quit(st), Reply::Bye),
        ),
{
    reveal_strlit("quit");
    reveal_strlit("noop");
    reveal_strlit("help");
    reveal_strlit("info");
    reveal_strlit("vrfy");
    reveal_strlit("expn");
    reveal_strlit("rset");
    reveal_strlit("auth");
    let a = token_start(line, 0);
    let b = token_end(line, a);
    let cmd = line.subrange(a, b);
    assert(matches_ci_char(cmd[0], "quit"@[0]));
    lemma_matches_ci_excl(cmd[0], 'q', 'n');
    lemma_not_verb_at(cmd, "noop"@, 0);
    lemma_matches_ci_excl(cmd[0], 'q', 'h');
    lemma_not_verb_at(cmd, "help"@, 0);
    lemma_matches_ci_excl(cmd[0], 'q', 'i');
    lemma_not_verb_at(cmd, "info"@, 0);
    lemma_matches_ci_excl(cmd[0], 'q', 'v');
    lemma_not_verb_at(cmd, "vrfy"@, 0);
    lemma_matches_ci_excl(cmd[0], 'q', 'e');
    lemma_not_verb_at(cmd, "expn"@, 0);
    lemma_matches_ci_excl(cmd[0], 'q', 'r');
    lemma_not_verb_at(cmd, "rset"@, 0);
    lemma_matches_ci_excl(cmd[0], 'q', 'a');
    lemma_not_verb_at(cmd, "auth"@, 0);
}

/// `HELO`'s reply is exactly one line: a single terminating line feed and
/// no line break anywhere before it.
pub proof fn lemma_helo_reply_single_line(banner: Seq<char>)
    ensures
        reply_text(Reply::Okay, banner).len() == 7,
        reply_text(Reply::Okay, banner)[6] == '\n',
        forall|i: int| 0 <= i < 6 ==> #[trigger] reply_text(Reply::Okay, banner)[i] != '\n',
{
    reveal_strlit("250 OK\n");
}

/// The `EHLO` banner is two lines: a continuation line (marker `250-`)
/// naming the domain, then the final line advertising the fixed
/// capability list.  For a domain free of line breaks, the continuation
/// line holds none either, so the break after it is the banner's first.
pub proof fn lemma_ehlo_banner_shape(d: Seq<char>)
    requires
        forall|i: int| 0 <= i < d.len() ==> #[trigger] d[i] != '\n',
    ensures
        ({
            let g = ehlo_greeting_text(d);
            let first = "250-"@ + d + " Hello "@ + d;
            &&& g == first + "\n"@ + ("250 AUTH PLAIN LOGIN"@ + "\n"@)
            &&& first.subrange(0, 4) == "250-"@
            &&& forall|i: int| 0 <= i < first.len() ==> #[trigger] first[i] != '\n'
            &&& g.len() > 0 && g[g.len() - 1] == '\n'
        }),
{
    reveal_strlit("250-");
    reveal_strlit(" Hello ");
    reveal_strlit("\n");
    reveal_strlit("\n250 AUTH PLAIN LOGIN\n");
    reveal_strlit("250 AUTH PLAIN LOGIN");
    let g = ehlo_greeting_text(d);
    let first = "250-"@ + d + " Hello "@ + d;
    assert(g =~= first + "\n"@ + ("250 AUTH PLAIN LOGIN"@ + "\n"@));
    assert(first.subrange(0, 4) =~= "250-"@);
    assert forall|i: int| 0 <= i < first.len() implies #[trigger] first[i] != '\n' by {
        if 4 <= i < 4 + d.len() {
            assert(first[i] == d[i - 4]);
        } else if 4 + d.len() <= i < 11 + d.len() {
            assert(first[i] == " Hello "@[i - 4 - d.len()]);
        } else if i >= 11 + d.len() {
            assert(first[i] == d[i - 11 - d.len()]);
        }
    }
}

/// The lines of a run of `RCPT TO:` commands, one per recipient.
pub open spec fn rcpt_lines(rs: Seq<Seq<char>>) -> Seq<Seq<char>>
    decreases rs.len(),
{
    if rs.len() == 0 {
        Seq::empty()
    } else {
        seq!["RCPT TO:"@ + rs[0]] + rcpt_lines(rs.drop_first())
    }
}

pub proof fn lemma_rcpt_lines_len(rs: Seq<Seq<char>>)
    ensures
        rcpt_lines(rs).len() == rs.len(),
    decreases rs.len(),
{
    if rs.len() > 0 {
        lemma_rcpt_lines_len(rs.drop_first());
    }
}

/// The body after recording each line of `body`, in order, on top of
/// `data`.
pub open spec fn folded_body(data: Seq<char>, body: Seq<Seq<char>>) -> Seq<char>
    decreases body.len(),
{
    if body.len() == 0 {
        data
    } else {
        folded_body(appended_body(data, body[0]), body.drop_first())
    }
}

/// On top of a non-empty body, recording lines is plain joining: each
/// recorded line costs exactly one `'\n'` separator.
pub proof fn lemma_folded_body_nonempty(data: Seq<char>, body: Seq<Seq<char>>)
    requires
        data.len() > 0,
    ensures
        folded_body(data, body) == if body.len() == 0 {
            data
        } else {
            data + "\n"@ + joined_with(body, "\n"@)
        },
    decreases body.len(),
{
    if body.len() > 0 {
        let data1 = data + "\n"@ + body[0];
        assert(appended_body(data, body[0]) == data1);
        lemma_folded_body_nonempty(data1, body.drop_first());
        if body.drop_first().len() == 0 {
            assert(body.len() == 1);
        } else {
            assert(joined_with(body, "\n"@) == body[0] + "\n"@ + joined_with(
                body.drop_first(),
                "\n"@,
            ));
            assert((data + "\n"@ + body[0]) + "\n"@ + joined_with(body.drop_first(), "\n"@)
                =~= data + "\n"@ + (body[0] + "\n"@ + joined_with(body.drop_first(), "\n"@)));
        }
    }
}

/// The body a data phase accumulates from scratch is the input lines
/// joined with `'\n'`, provided the first line is not empty (an empty
/// first line leaves no trace, since the join puts separators only
/// between recorded text).
pub proof fn lemma_captured_body_is_joined(body: Seq<Seq<char>>)
    requires
        body.len() > 0 ==> body[0].len() > 0,
    ensures
        folded_body(Seq::empty(), body) == joined_with(body, "\n"@),
{
    if body.len() == 0 {
    } else {
        assert(appended_body(Seq::empty(), body[0]) == body[0]);
        lemma_folded_body_nonempty(body[0], body.drop_first());
        if body.drop_first().len() == 0 {
            assert(body.len() == 1);
        } else {
            assert(joined_with(body, "\n"@) == body[0] + "\n"@ + joined_with(
                body.drop_first(),
                "\n"@,
            ));
        }
    }
}

/// Running a block of `RCPT TO:` lines from the recipient phase appends
/// exactly those recipients, in order, and then continues with the rest
/// of the input.
pub proof fn lemma_run_rcpts(m: MailView, rs: Seq<Seq<char>>, tail: Seq<Seq<char>>)
    requires
        forall|i: int| 0 <= i < rs.len() ==> no_spaces(#[trigger] rs[i]),
    ensures
        ({
            let after = MailView { from: m.from, to: m.to + rs, data: m.data };
            &&& spec_run(StateView::ReceivingRcpt(m), rcpt_lines(rs) + tail).0 == spec_run(
                StateView::ReceivingRcpt(after),
                tail,
            ).0
            &&& spec_run(StateView::ReceivingRcpt(m), rcpt_lines(rs) + tail).2 == spec_run(
                StateView::ReceivingRcpt(after),
                tail,
            ).2
        }),
    decreases rs.len(),
{
    lemma_rcpt_lines_len(rs);
    if rs.len() == 0 {
        assert(rcpt_lines(rs) + tail =~= tail);
        assert(MailView { from: m.from, to: m.to + rs, data: m.data } =~= m);
    } else {
        let lines = rcpt_lines(rs) + tail;
        assert(lines[0] == "RCPT TO:"@ + rs[0]);
        lemma_step_rcpt_line(m, rs[0]);
        let m1 = MailView { from: m.from, to: m.to.push(rs[0]), data: m.data };
        assert(lines.drop_first() =~= rcpt_lines(rs.drop_first()) + tail);
        assert forall|i: int| 0 <= i < rs.drop_first().len() implies no_spaces(
            #[trigger] rs.drop_first()[i],
        ) by {
            assert(rs.drop_first()[i] == rs[i + 1]);
        }
        lemma_run_rcpts(m1, rs.drop_first(), tail);
        assert(m.to.push(rs[0]) + rs.drop_first() =~= m.to + rs);
    }
}

/// Running a block of body-content lines from the data phase records
/// exactly those lines, in order, and then continues with the rest of
/// the input.
pub proof fn lemma_run_body(m: MailView, body: Seq<Seq<char>>, tail: Seq<Seq<char>>)
    requires
        forall|i: int| 0 <= i < body.len() ==> is_body_content(#[trigger] body[i]),
    ensures
        ({
            let after = MailView { from: m.from, to: m.to, data: folded_body(m.data, body) };
            &&& spec_run(StateView::ReceivingData(m), body + tail).0 == spec_run(
                StateView::ReceivingData(after),
                tail,
            ).0
            &&& spec_run(StateView::ReceivingData(m), body + tail).2 == spec_run(
                StateView::ReceivingData(after),
                tail,
            ).2
        }),
    decreases body.len(),
{
    if body.len() == 0 {
        assert(body + tail =~= tail);
        assert(MailView { from: m.from, to: m.to, data: folded_body(m.data, body) } =~= m);
    } else {
        let lines = body + tail;
        assert(lines[0] == body[0]);
        lemma_step_body_line(m, body[0]);
        let m1 = MailView { from: m.from, to: m.to, data: appended_body(m.data, body[0]) };
        assert(lines.drop_first() =~= body.drop_first() + tail);
        assert forall|i: int| 0 <= i < body.drop_first().len() implies is_body_content(
            #[trigger] body.drop_first()[i],
        ) by {
            assert(body.drop_first()[i] == body[i + 1]);
        }
        lemma_run_body(m1, body.drop_first(), tail);
    }
}

/// A complete transaction — greeting, `MAIL FROM:`, one or more
/// `RCPT TO:`, `DATA`, body lines, the lone-dot terminator, `QUIT` —
/// ends without error in a received state whose message carries exactly
/// the given sender, the recipients in order, and the body lines joined
/// in order.  Together with [`run_session`]'s contract, this is the
/// message such a session hands to persistence.
///
/// [`run_session`]: crate::session::run_session
pub proof fn lemma_full_transaction_captures_message(
    d: Seq<char>,
    s: Seq<char>,
    rcpts: Seq<Seq<char>>,
    body: Seq<Seq<char>>,
)
    requires
        no_spaces(s),
        rcpts.len() >= 1,
        forall|i: int| 0 <= i < rcpts.len() ==> no_spaces(#[trigger] rcpts[i]),
        forall|i: int| 0 <= i < body.len() ==> is_body_content(#[trigger] body[i]),
    ensures
        ({
            let lines = seq!["HELO "@ + d, "MAIL FROM:"@ + s] + rcpt_lines(rcpts) + seq!["DATA"@]
                + body + seq!["."@, "QUIT"@];
            let w = spec_run(StateView::Fresh, lines);
            &&& w.2 is None
            &&& w.0 == StateView::Received(
                MailView { from: s, to: rcpts, data: folded_body(Seq::empty(), body) },
            )
        }),
{
    lemma_rcpt_lines_len(rcpts);
    let lines = seq!["HELO "@ + d, "MAIL FROM:"@ + s] + rcpt_lines(rcpts) + seq!["DATA"@] + body
        + seq!["."@, "QUIT"@];
    let tail1 = seq!["DATA"@] + body + seq!["."@, "QUIT"@];
    let tail2 = body + seq!["."@, "QUIT"@];
    let tail3 = seq!["."@, "QUIT"@];
    assert(lines.len() == 5 + rcpts.len() + body.len());
    assert(lines[0] == "HELO "@ + d);
    lemma_step_helo_line(d);
    let l1 = lines.drop_first();
    assert(spec_run(StateView::Fresh, lines).0 == spec_run(StateView::Greeted, l1).0);
    assert(spec_run(StateView::Fresh, lines).2 == spec_run(StateView::Greeted, l1).2);
    assert(l1[0] == "MAIL FROM:"@ + s);
    lemma_step_mail_line(StateView::Greeted, s);
    let m0 = MailView { from: s, to: Seq::empty(), data: Seq::empty() };
    let l2 = l1.drop_first();
    assert(spec_run(StateView::Greeted, l1).0 == spec_run(StateView::ReceivingRcpt(m0), l2).0);
    assert(spec_run(StateView::Greeted, l1).2 == spec_run(StateView::ReceivingRcpt(m0), l2).2);
    assert(l2 =~= rcpt_lines(rcpts) + tail1);
    lemma_run_rcpts(m0, rcpts, tail1);
    let m1 = MailView { from: s, to: rcpts, data: Seq::empty() };
    assert(MailView { from: m0.from, to: m0.to + rcpts, data: m0.data } =~= m1);
    assert(spec_run(StateView::ReceivingRcpt(m0), l2).0 == spec_run(
        StateView::ReceivingRcpt(m1),
        tail1,
    ).0);
    assert(spec_run(StateView::ReceivingRcpt(m0), l2).2 == spec_run(
        StateView::ReceivingRcpt(m1),
        tail1,
    ).2);
    assert(tail1[0] == "DATA"@);
    lemma_step_data_line(m1);
    assert(tail1.drop_first() =~= tail2);
    assert(spec_run(StateView::ReceivingRcpt(m1), tail1).0 == spec_run(
        StateView::ReceivingData(m1),
        tail2,
    ).0);
    assert(spec_run(StateView::ReceivingRcpt(m1), tail1).2 == spec_run(
        StateView::ReceivingData(m1),
        tail2,
    ).2);
    lemma_run_body(m1, body, tail3);
    let m2 = MailView { from: s, to: rcpts, data: folded_body(Seq::empty(), body) };
    assert(MailView { from: m1.from, to: m1.to, data: folded_body(m1.data, body) } =~= m2);
    assert(spec_run(StateView::ReceivingData(m1), tail2).0 == spec_run(
        StateView::ReceivingData(m2),
        tail3,
    ).0);
    assert(spec_run(StateView::ReceivingData(m1), tail2).2 == spec_run(
        StateView::ReceivingData(m2),
        tail3,
    ).2);
    assert(tail3[0] == "."@);
    lemma_step_terminator(m2);
    let l5 = tail3.drop_first();
    assert(spec_run(StateView::ReceivingData(m2), tail3).0 == spec_run(
        StateView::Received(m2),
        l5,
    ).0);
    assert(spec_run(StateView::ReceivingData(m2), tail3).2 == spec_run(
        StateView::Received(m2),
        l5,
    ).2);
    assert(l5 =~= seq!["QUIT"@]);
    reveal_strlit("QUIT");
    reveal_strlit("quit");
    let q = "QUIT"@;
    assert(q[0] == 'Q' && q[1] == 'U' && q[2] == 'I' && q[3] == 'T');
    assert(forall|j: int| 0 <= j < 4 ==> !is_space_char(#[trigger] q[j]));
    lemma_token_start_range(q, 0, 0);
    lemma_token_end_range(q, 0, 4);
    assert(q.subrange(0, 4) =~= q);
    assert(matches_ci_char('Q', 'q') && matches_ci_char('U', 'u') && matches_ci_char('I', 'i')
        && matches_ci_char('T', 't'));
    assert(is_verb(q.subrange(0, 4), "quit"@));
    lemma_step_quit_verb(StateView::Received(m2), q);
    assert(l5[0] == q);
}

/// A session that opens a message, enters the data phase, sends some
/// body lines and then disconnects — no terminator, no `QUIT` — still
/// ends without error in a received state carrying the partial body
/// verbatim: the implicit `QUIT` at end of input surfaces it.  Together
/// with [`run_session`]'s contract, exactly one message, with that
/// partial body, is handed to persistence.
///
/// [`run_session`]: crate::session::run_session
pub proof fn lemma_disconnect_still_captures(
    d: Seq<char>,
    s: Seq<char>,
    rcpts: Seq<Seq<char>>,
    body: Seq<Seq<char>>,
)
    requires
        no_spaces(s),
        rcpts.len() >= 1,
        forall|i: int| 0 <= i < rcpts.len() ==> no_spaces(#[trigger] rcpts[i]),
        forall|i: int| 0 <= i < body.len() ==> is_body_content(#[trigger] body[i]),
    ensures
        ({
            let lines = seq!["HELO "@ + d, "MAIL FROM:"@ + s] + rcpt_lines(rcpts) + seq!["DATA"@]
                + body;
            let w = spec_run(StateView::Fresh, lines);
            &&& w.2 is None
            &&& w.0 == StateView::Received(
                MailView { from: s, to: rcpts, data: folded_body(Seq::empty(), body) },
            )
        }),
{
    lemma_rcpt_lines_len(rcpts);
    let lines = seq!["HELO "@ + d, "MAIL FROM:"@ + s] + rcpt_lines(rcpts) + seq!["DATA"@] + body;
    let tail1 = seq!["DATA"@] + body;
    let empty_tail = Seq::<Seq<char>>::empty();
    assert(lines.len() == 3 + rcpts.len() + body.len());
    assert(lines[0] == "HELO "@ + d);
    lemma_step_helo_line(d);
    let l1 = lines.drop_first();
    assert(spec_run(StateView::Fresh, lines).0 == spec_run(StateView::Greeted, l1).0);
    assert(spec_run(StateView::Fresh, lines).2 == spec_run(StateView::Greeted, l1).2);
    assert(l1[0] == "MAIL FROM:"@ + s);
    lemma_step_mail_line(StateView::Greeted, s);
    let m0 = MailView { from: s, to: Seq::empty(), data: Seq::empty() };
    let l2 = l1.drop_first();
    assert(spec_run(StateView::Greeted, l1).0 == spec_run(StateView::ReceivingRcpt(m0), l2).0);
    assert(spec_run(StateView::Greeted, l1).2 == spec_run(StateView::ReceivingRcpt(m0), l2).2);
    assert(l2 =~= rcpt_lines(rcpts) + tail1);
    lemma_run_rcpts(m0, rcpts, tail1);
    let m1 = MailView { from: s, to: rcpts, data: Seq::empty() };
    assert(MailView { from: m0.from, to: m0.to + rcpts, data: m0.data } =~= m1);
    assert(spec_run(StateView::ReceivingRcpt(m0), l2).0 == spec_run(
        StateView::ReceivingRcpt(m1),
        tail1,
    ).0);
    assert(spec_run(StateView::ReceivingRcpt(m0), l2).2 == spec_run(
        StateView::ReceivingRcpt(m1),
        tail1,
    ).2);
    assert(tail1[0] == "DATA"@);
    lemma_step_data_line(m1);
    assert(tail1.drop_first() =~= body);
    assert(spec_run(StateView::ReceivingRcpt(m1), tail1).0 == spec_run(
        StateView::ReceivingData(m1),
        body,
    ).0);
    assert(spec_run(StateView::ReceivingRcpt(m1), tail1).2 == spec_run(
        StateView::ReceivingData(m1),
        body,
    ).2);
    assert(body + empty_tail =~= body);
    lemma_run_body(m1, body, empty_tail);
    let m2 = MailView { from: s, to: rcpts, data: folded_body(Seq::empty(), body) };
    assert(MailView { from: m1.from, to: m1.to, data: folded_body(m1.data, body) } =~= m2);
    assert(spec_run(StateView::ReceivingData(m2), empty_tail) == (
        StateView::Received(m2),
        Seq::<Reply>::empty(),
        None::<SmtpErrorKind>,
    ));
}

} // verus!
