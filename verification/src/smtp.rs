//! The SMTP session state machine: one line of protocol text in, a reply
//! and a new session phase out.  Pure and synchronous; no I/O.

use vstd::prelude::*;

verus! {

/// A mail message being assembled: the envelope (sender and recipients)
/// plus the body text accumulated during the data phase.
#[derive(Debug, PartialEq, Eq)]
pub struct Mail {
    /// The raw text following `MAIL FROM:`, unparsed and unvalidated.
    pub from: String,
    /// One entry per accepted `RCPT TO:` command, in order of arrival.
    pub to: Vec<String>,
    /// Body text, line by line; lines are joined with a single `'\n'`.
    pub data: String,
}

/// The mathematical value of a [`Mail`].
#[verifier::ext_equal]
pub struct MailView {
    pub from: Seq<char>,
    pub to: Seq<Seq<char>>,
    pub data: Seq<char>,
}

impl View for Mail {
    type V = MailView;

    open spec fn view(&self) -> MailView {
        MailView { from: self.from@, to: self.to.deep_view(), data: self.data@ }
    }
}

/// The phase of a session, carrying the in-progress [`Mail`] where one
/// exists.  A connection starts `Fresh`; a greeting moves it to `Greeted`;
/// `MAIL` opens a message and recipients accumulate in `ReceivingRcpt`;
/// `DATA` switches to `ReceivingData`, where lines are body content; the
/// terminator line or a `QUIT` during the data phase completes the message.
#[derive(Debug, PartialEq, Eq)]
pub enum State {
    Fresh,
    Greeted,
    ReceivingRcpt(Mail),
    ReceivingData(Mail),
    Received(Mail),
}

/// The mathematical value of a [`State`].
#[verifier::ext_equal]
pub enum StateView {
    Fresh,
    Greeted,
    ReceivingRcpt(MailView),
    ReceivingData(MailView),
    Received(MailView),
}

impl View for State {
    type V = StateView;

    open spec fn view(&self) -> StateView {
        match self {
            State::Fresh => StateView::Fresh,
            State::Greeted => StateView::Greeted,
            State::ReceivingRcpt(m) => StateView::ReceivingRcpt(m@),
            State::ReceivingData(m) => StateView::ReceivingData(m@),
            State::Received(m) => StateView::Received(m@),
        }
    }
}

/// The phase of a [`State`] without its payload; used for error reports.
#[derive(Clone, Copy, Debug, PartialEq, Eq, Structural)]
pub enum Phase {
    Fresh,
    Greeted,
    ReceivingRcpt,
    ReceivingData,
    Received,
}

/// The phase a given state is in.
pub open spec fn phase_of(st: StateView) -> Phase {
    match st {
        StateView::Fresh => Phase::Fresh,
        StateView::Greeted => Phase::Greeted,
        StateView::ReceivingRcpt(_) => Phase::ReceivingRcpt,
        StateView::ReceivingData(_) => Phase::ReceivingData,
        StateView::Received(_) => Phase::Received,
    }
}

/// The reply the machine asks the driver to send.  `Empty` means no bytes
/// are written; `Bye` is the only reply after which the connection closes.
#[derive(Clone, Copy, Debug, PartialEq, Eq, Structural)]
pub enum Reply {
    /// The generic `250 OK` acknowledgement.
    Okay,
    /// Unconditional acceptance of an `AUTH` attempt.
    AuthOkay,
    /// The multi-line capability banner answering `EHLO`.
    EhloBanner,
    /// The prompt asking the peer to send the message content.
    SendData,
    /// The closing reply to `QUIT`.
    Bye,
    /// No reply at all (body lines are not acknowledged one by one).
    Empty,
}

/// Why a line was rejected.  A rejected line never changes the session
/// state; the strict driver closes the connection on any of these.
#[derive(Clone, Copy, Debug, PartialEq, Eq, Structural)]
pub enum SmtpErrorKind {
    /// The line holds no command word at all (outside the data phase).
    EmptyCommand,
    /// `MAIL` came without an argument.
    EmptyMailArg,
    /// The `MAIL` argument does not start with `FROM:`.
    MissingFromPrefix,
    /// `RCPT` came without an argument.
    EmptyRcptArg,
    /// The `RCPT` argument does not start with `TO:`.
    MissingToPrefix,
    /// The command is not valid in the current phase.
    UnexpectedCommand,
}

/// A rejected line, with the offending text and the phase it arrived in.
#[derive(Debug, PartialEq, Eq)]
pub struct SmtpError {
    pub kind: SmtpErrorKind,
    /// The line that was rejected, verbatim.
    pub line: String,
    /// The phase the session was in; the state itself is left unchanged.
    pub phase: Phase,
}

/// Whitespace for the purposes of command tokenization (the ASCII
/// whitespace characters that can appear in a protocol line).
pub open spec fn is_space_char(c: char) -> bool {
    c == ' ' || c == '\t' || c == '\r' || c == '\n'
}

/// Index of the first non-whitespace character at or after `from`
/// (`s.len()` if there is none).
pub open spec fn token_start(s: Seq<char>, from: int) -> int
    recommends
        0 <= from <= s.len(),
    decreases s.len() - from when 0 <= from <= s.len()
{
    if from >= s.len() {
        s.len() as int
    } else if is_space_char(s[from]) {
        token_start(s, from + 1)
    } else {
        from
    }
}

/// Index of the first whitespace character at or after `from`
/// (`s.len()` if there is none).
pub open spec fn token_end(s: Seq<char>, from: int) -> int
    recommends
        0 <= from <= s.len(),
    decreases s.len() - from when 0 <= from <= s.len()
{
    if from >= s.len() {
        s.len() as int
    } else if is_space_char(s[from]) {
        from
    } else {
        token_end(s, from + 1)
    }
}

/// `token_start` lands exactly where the whitespace run `[i, e)` ends.
pub proof fn lemma_token_start_range(s: Seq<char>, i: int, e: int)
    requires
        0 <= i <= e <= s.len(),
        forall|j: int| i <= j < e ==> is_space_char(#[trigger] s[j]),
        e < s.len() ==> !is_space_char(s[e]),
    ensures
        token_start(s, i) == e,
    decreases e - i,
{
    if i < e {
        lemma_token_start_range(s, i + 1, e);
    }
}

/// `token_end` lands exactly where the non-whitespace run `[i, e)` ends.
pub proof fn lemma_token_end_range(s: Seq<char>, i: int, e: int)
    requires
        0 <= i <= e <= s.len(),
        forall|j: int| i <= j < e ==> !is_space_char(#[trigger] s[j]),
        e < s.len() ==> is_space_char(s[e]),
    ensures
        token_end(s, i) == e,
    decreases e - i,
{
    if i < e {
        lemma_token_end_range(s, i + 1, e);
    }
}

/// Whether `c` spells the (lowercase ASCII) letter `l`, ignoring case.
pub open spec fn matches_ci_char(c: char, l: char) -> bool {
    c == l || (97 <= l as u32 <= 122 && c as u32 == l as u32 - 32)
}

/// Whether the token `tok` spells the command verb `verb` (given in
/// lowercase ASCII), ignoring the case of `tok`.
pub open spec fn is_verb(tok: Seq<char>, verb: Seq<char>) -> bool {
    tok.len() == verb.len() && (forall|i: int|
        0 <= i < tok.len() ==> #[trigger] matches_ci_char(tok[i], verb[i]))
}

/// Every token spells itself.
pub proof fn lemma_is_verb_refl(v: Seq<char>)
    ensures
        is_verb(v, v),
{
}

/// A character spells at most one lowercase letter, whatever its case.
pub proof fn lemma_matches_ci_excl(c: char, l1: char, l2: char)
    requires
        97 <= l1 as u32 <= 122,
        97 <= l2 as u32 <= 122,
        l1 as u32 != l2 as u32,
        matches_ci_char(c, l1),
    ensures
        !matches_ci_char(c, l2),
{
}

/// One mismatching position refutes a verb match.
pub proof fn lemma_not_verb_at(cmd: Seq<char>, verb: Seq<char>, i: int)
    requires
        0 <= i < cmd.len(),
        0 <= i < verb.len(),
        !matches_ci_char(cmd[i], verb[i]),
    ensures
        !is_verb(cmd, verb),
{
}

/// Whether `t` starts with `p` (character for character, case-sensitive).
pub open spec fn has_prefix(t: Seq<char>, p: Seq<char>) -> bool {
    p.len() <= t.len() && t.subrange(0, p.len() as int) == p
}

/// The line that ends the data phase: a lone dot, optionally carrying the
/// line ending the framer left attached.
pub open spec fn is_terminator_line(s: Seq<char>) -> bool {
    s == "."@ || s == ".\n"@ || s == ".\r\n"@
}

/// A body line is recorded verbatim; lines are joined with a single `'\n'`
/// so that the stored body round-trips to the lines that were sent.
pub open spec fn appended_body(data: Seq<char>, line: Seq<char>) -> Seq<char> {
    if data.len() == 0 {
        line
    } else {
        data + "\n"@ + line
    }
}

/// `items` joined with the separator `sep` between consecutive entries.
pub open spec fn joined_with(items: Seq<Seq<char>>, sep: Seq<char>) -> Seq<char>
    decreases items.len(),
{
    if items.len() == 0 {
        Seq::empty()
    } else if items.len() == 1 {
        items[0]
    } else {
        items[0] + sep + joined_with(items.drop_first(), sep)
    }
}

/// Joining splits around any interior position.
pub proof fn lemma_joined_with_split(items: Seq<Seq<char>>, sep: Seq<char>, k: int)
    requires
        0 < k < items.len(),
    ensures
        joined_with(items, sep) == joined_with(items.take(k), sep) + sep + joined_with(
            items.skip(k),
            sep,
        ),
    decreases k,
{
    if k == 1 {
        assert(items.take(1).len() == 1);
        assert(items.take(1)[0] == items[0]);
        assert(items.skip(1) =~= items.drop_first());
        assert(joined_with(items.take(1), sep) == items[0]);
        if items.len() == 2 {
            assert(items.drop_first().len() == 1);
        }
    } else {
        let rest = items.drop_first();
        lemma_joined_with_split(rest, sep, k - 1);
        assert(rest.take(k - 1) =~= items.take(k).drop_first());
        assert(rest.skip(k - 1) =~= items.skip(k));
        assert(items.take(k).len() == k);
        assert(items.take(k)[0] == items[0]);
        assert(joined_with(items.take(k), sep) == items[0] + sep + joined_with(
            items.take(k).drop_first(),
            sep,
        ));
        assert(items[0] + sep + (joined_with(rest.take(k - 1), sep) + sep + joined_with(
            rest.skip(k - 1),
            sep,
        )) =~= (items[0] + sep + joined_with(rest.take(k - 1), sep)) + sep + joined_with(
            rest.skip(k - 1),
            sep,
        ));
    }
}

impl Mail {
    /// The recipient list joined with `", "`, the form in which it is
    /// recorded beside the stored message.
    pub fn recipients_line(&self) -> (out: String)
        ensures
            out@ == joined_with(self@.to, ", "@),
    {
        let n = self.to.len();
        let mut out = String::new();
        let mut i: usize = 0;
        while i < n
            invariant
                i <= n,
                n == self.to.len(),
                i == 0 ==> out@ == Seq::<char>::empty(),
                i > 0 ==> out@ == joined_with(self@.to.take(i as int), ", "@),
            decreases n - i,
        {
            let ghost before = out@;
            if i > 0 {
                out.append(", ");
            }
            out.append(self.to[i].as_str());
            proof {
                assert(self@.to[i as int] == self.to@[i as int]@);
                if i == 0 {
                    assert(self@.to.take(1).len() == 1);
                    assert(out@ =~= self@.to[0]);
                    assert(out@ == joined_with(self@.to.take(1), ", "@));
                } else {
                    lemma_joined_with_split(self@.to.take(i as int + 1), ", "@, i as int);
                    assert(self@.to.take(i as int + 1).take(i as int) =~= self@.to.take(i as int));
                    assert(self@.to.take(i as int + 1).skip(i as int) =~= seq![
                        self@.to[i as int],
                    ]);
                    assert(joined_with(seq![self@.to[i as int]], ", "@) == self@.to[i as int]);
                    assert(out@ =~= joined_with(self@.to.take(i as int), ", "@) + ", "@
                        + self@.to[i as int]);
                }
            }
            i = i + 1;
        }
        proof {
            if n > 0 {
                assert(self@.to.take(n as int) =~= self@.to);
            } else {
                assert(self@.to.len() == 0);
            }
        }
        out
    }
}

/// Exec mirror of [`is_space_char`].
fn is_space(c: char) -> (r: bool)
    ensures
        r == is_space_char(c),
{
    c == ' ' || c == '\t' || c == '\r' || c == '\n'
}

/// Finds the first whitespace-delimited token at or after `from`:
/// returns `(start, end)`; the token is empty iff `start == end`.
fn scan_token(s: &str, from: usize) -> (r: (usize, usize))
    requires
        from <= s@.len(),
    ensures
        r.0 == token_start(s@, from as int),
        r.1 == token_end(s@, r.0 as int),
        from <= r.0 <= r.1 <= s@.len(),
{
    let n = s.unicode_len();
    let mut i: usize = from;
    while i < n && is_space(s.get_char(i))
        invariant
            from <= i <= n,
            n == s@.len(),
            token_start(s@, from as int) == token_start(s@, i as int),
        decreases n - i,
    {
        i = i + 1;
    }
    let mut j: usize = i;
    while j < n && !is_space(s.get_char(j))
        invariant
            i <= j <= n,
            n == s@.len(),
            token_end(s@, i as int) == token_end(s@, j as int),
        decreases n - j,
    {
        j = j + 1;
    }
    (i, j)
}

/// Whether the token `s[a..b]` spells `verb` (a lowercase ASCII literal),
/// ignoring the case of the token.
fn token_matches(s: &str, a: usize, b: usize, verb: &str) -> (r: bool)
    requires
        a <= b <= s@.len(),
    ensures
        r == is_verb(s@.subrange(a as int, b as int), verb@),
{
    let vn = verb.unicode_len();
    if b - a != vn {
        return false;
    }
    let mut k: usize = 0;
    while k < vn
        invariant
            0 <= k <= vn,
            a <= b <= s@.len(),
            b - a == vn,
            vn == verb@.len(),
            forall|i: int|
                0 <= i < k ==> #[trigger] matches_ci_char(
                    s@.subrange(a as int, b as int)[i],
                    verb@[i],
                ),
        decreases vn - k,
    {
        let c = s.get_char(a + k);
        let l = verb.get_char(k);
        let cu = c as u32;
        let lu = l as u32;
        let ok = c == l || (97 <= lu && lu <= 122 && cu == lu - 32);
        proof {
            assert(s@.subrange(a as int, b as int)[k as int] == s@[a + k]);
            assert(ok == matches_ci_char(c, l));
        }
        if !ok {
            proof {
                assert(!matches_ci_char(
                    s@.subrange(a as int, b as int)[k as int],
                    verb@[k as int],
                ));
            }
            return false;
        }
        k = k + 1;
    }
    true
}

/// Whether the token `s[a..b]` starts with `prefix`, case-sensitively.
fn token_has_prefix(s: &str, a: usize, b: usize, prefix: &str) -> (r: bool)
    requires
        a <= b <= s@.len(),
    ensures
        r == has_prefix(s@.subrange(a as int, b as int), prefix@),
{
    let ghost tok = s@.subrange(a as int, b as int);
    let pn = prefix.unicode_len();
    if b - a < pn {
        return false;
    }
    let mut k: usize = 0;
    while k < pn
        invariant
            0 <= k <= pn,
            a <= b <= s@.len(),
            pn <= b - a,
            pn == prefix@.len(),
            tok == s@.subrange(a as int, b as int),
            forall|i: int| 0 <= i < k ==> tok[i] == prefix@[i],
        decreases pn - k,
    {
        let c = s.get_char(a + k);
        let p = prefix.get_char(k);
        proof {
            assert(tok[k as int] == s@[a + k]);
        }
        if c != p {
            proof {
                assert(!has_prefix(tok, prefix@)) by {
                    if has_prefix(tok, prefix@) {
                        assert(tok.subrange(0, pn as int)[k as int] == prefix@[k as int]);
                        assert(tok.subrange(0, pn as int)[k as int] == tok[k as int]);
                    }
                }
            }
            return false;
        }
        k = k + 1;
    }
    proof {
        assert(tok.subrange(0, pn as int) =~= prefix@);
    }
    true
}

/// Whether the whole line is the data-phase terminator.
fn is_terminator(s: &str) -> (r: bool)
    ensures
        r == is_terminator_line(s@),
{
    proof {
        reveal_strlit(".");
        reveal_strlit(".\n");
        reveal_strlit(".\r\n");
    }
    let n = s.unicode_len();
    if n == 1 {
        let r = s.get_char(0) == '.';
        proof {
            if r {
                assert(s@ =~= "."@);
            }
        }
        r
    } else if n == 2 {
        let r = s.get_char(0) == '.' && s.get_char(1) == '\n';
        proof {
            if r {
                assert(s@ =~= ".\n"@);
            }
        }
        r
    } else if n == 3 {
        let r = s.get_char(0) == '.' && s.get_char(1) == '\r' && s.get_char(2) == '\n';
        proof {
            if r {
                assert(s@ =~= ".\r\n"@);
            }
        }
        r
    } else {
        false
    }
}

/// Records one more body line, joining lines with a single `'\n'`.
fn append_line(data: &mut String, line: &str)
    ensures
        final(data)@ == appended_body(old(data)@, line@),
{
    if data.as_str().is_empty() {
        data.append(line);
        proof {
            assert(data@ =~= line@);
        }
    } else {
        data.append("\n");
        data.append(line);
        proof {
            assert(data@ =~= old(data)@ + "\n"@ + line@);
        }
    }
}

/// The outcome of looking for a command's prefixed argument token.
enum ArgParse {
    /// There is no token after the command at all.
    Missing,
    /// There is a token, but it does not carry the required prefix.
    BadPrefix,
    /// The argument text after the prefix (possibly empty).
    Found(String),
}

/// Finds the token after position `from` and strips `prefix` from it.
fn parse_prefixed_arg(s: &str, from: usize, prefix: &str) -> (r: ArgParse)
    requires
        from <= s@.len(),
    ensures
        ({
            let a2 = token_start(s@, from as int);
            let b2 = token_end(s@, a2);
            let tok = s@.subrange(a2, b2);
            match r {
                ArgParse::Missing => a2 == b2,
                ArgParse::BadPrefix => a2 != b2 && !has_prefix(tok, prefix@),
                ArgParse::Found(arg) => a2 != b2 && has_prefix(tok, prefix@) && arg@ == tok.skip(
                    prefix@.len() as int,
                ),
            }
        }),
{
    let se = scan_token(s, from);
    let a2: usize = se.0;
    let b2: usize = se.1;
    if a2 == b2 {
        return ArgParse::Missing;
    }
    if !token_has_prefix(s, a2, b2, prefix) {
        return ArgParse::BadPrefix;
    }
    let pn = prefix.unicode_len();
    let arg = s.substring_char(a2 + pn, b2).to_owned();
    proof {
        assert(arg@ =~= s@.subrange(a2 as int, b2 as int).skip(prefix@.len() as int));
    }
    ArgParse::Found(arg)
}

/// The capability banner sent in answer to `EHLO`: a continuation line
/// naming the domain, then the final line advertising `AUTH`.
pub open spec fn ehlo_greeting_text(domain: Seq<char>) -> Seq<char> {
    "250-"@ + domain + " Hello "@ + domain + "\n250 AUTH PLAIN LOGIN\n"@
}

/// The wire text of each reply; `banner` is the machine's `EHLO` banner.
pub open spec fn reply_text(r: Reply, banner: Seq<char>) -> Seq<char> {
    match r {
        Reply::Okay => "250 OK\n"@,
        Reply::AuthOkay => "235 OK\n"@,
        Reply::EhloBanner => banner,
        Reply::SendData => "354 END DATA WITH <CR><LF>.<CR><LF>\n"@,
        Reply::Bye => "221 BYE\n"@,
        Reply::Empty => ""@,
    }
}

/// What `MAIL` does once the machine is in a state that allows it: the
/// token after the command, stripped of `FROM:`, becomes the sender of a
/// fresh message with no recipients and no body.
pub open spec fn spec_parse_mail(line: Seq<char>, from: int) -> Result<
    (StateView, Reply),
    SmtpErrorKind,
> {
    let a2: int = token_start(line, from);
    let b2: int = token_end(line, a2);
    let tok = line.subrange(a2, b2);
    if a2 == b2 {
        Err(SmtpErrorKind::EmptyMailArg)
    } else if !has_prefix(tok, "FROM:"@) {
        Err(SmtpErrorKind::MissingFromPrefix)
    } else {
        Ok(
            (
                StateView::ReceivingRcpt(
                    MailView {
                        from: tok.skip("FROM:"@.len() as int),
                        to: Seq::empty(),
                        data: Seq::empty(),
                    },
                ),
                Reply::Okay,
            ),
        )
    }
}

/// What `RCPT` does in the recipient phase: the token after the command,
/// stripped of `TO:`, is appended to the recipient list.
pub open spec fn spec_parse_rcpt(m: MailView, line: Seq<char>, from: int) -> Result<
    (StateView, Reply),
    SmtpErrorKind,
> {
    let a2: int = token_start(line, from);
    let b2: int = token_end(line, a2);
    let tok = line.subrange(a2, b2);
    if a2 == b2 {
        Err(SmtpErrorKind::EmptyRcptArg)
    } else if !has_prefix(tok, "TO:"@) {
        Err(SmtpErrorKind::MissingToPrefix)
    } else {
        Ok(
            (
                StateView::ReceivingRcpt(
                    MailView {
                        from: m.from,
                        to: m.to.push(tok.skip("TO:"@.len() as int)),
                        data: m.data,
                    },
                ),
                Reply::Okay,
            ),
        )
    }
}

/// The transition function of the session state machine: one line of
/// protocol text plus the current state gives the next state and a reply,
/// or an error that leaves the state untouched.
///
/// The first whitespace-delimited word of the line is the command verb,
/// matched case-insensitively.  `NOOP`, `HELP`, `INFO`, `VRFY`, `EXPN`,
/// `RSET`, `AUTH` and `QUIT` are recognised in every phase, the data phase
/// included; any other line arriving in the data phase is body content
/// (or the lone-dot terminator).  `DATA` requires at least one recipient.
pub open spec fn spec_step(st: StateView, line: Seq<char>) -> Result<
    (StateView, Reply),
    SmtpErrorKind,
> {
    let a: int = token_start(line, 0);
    let b: int = token_end(line, a);
    if a == b {
        match st {
            StateView::ReceivingData(m) => Ok(
                (
                    StateView::ReceivingData(
                        MailView { from: m.from, to: m.to, data: appended_body(m.data, line) },
                    ),
                    Reply::Empty,
                ),
            ),
            _ => Err(SmtpErrorKind::EmptyCommand),
        }
    } else {
        let cmd = line.subrange(a, b);
        if is_verb(cmd, "noop"@) || is_verb(cmd, "help"@) || is_verb(cmd, "info"@) || is_verb(
            cmd,
            "vrfy"@,
        ) || is_verb(cmd, "expn"@) {
            Ok((st, Reply::Okay))
        } else if is_verb(cmd, "rset"@) {
            Ok((StateView::Fresh, Reply::Okay))
        } else if is_verb(cmd, "auth"@) {
            Ok((st, Reply::AuthOkay))
        } else if is_verb(cmd, "quit"@) {
            match st {
                StateView::ReceivingData(m) => Ok((StateView::Received(m), Reply::Bye)),
                _ => Ok((st, Reply::Bye)),
            }
        } else if st is ReceivingData {
            let m = st->ReceivingData_0;
            if is_terminator_line(line) {
                Ok((StateView::Received(m), Reply::Okay))
            } else {
                Ok(
                    (
                        StateView::ReceivingData(
                            MailView { from: m.from, to: m.to, data: appended_body(m.data, line) },
                        ),
                        Reply::Empty,
                    ),
                )
            }
        } else if is_verb(cmd, "ehlo"@) {
            if st is Fresh {
                Ok((StateView::Greeted, Reply::EhloBanner))
            } else {
                Err(SmtpErrorKind::UnexpectedCommand)
            }
        } else if is_verb(cmd, "helo"@) {
            if st is Fresh {
                Ok((StateView::Greeted, Reply::Okay))
            } else {
                Err(SmtpErrorKind::UnexpectedCommand)
            }
        } else if is_verb(cmd, "mail"@) {
            if st is Greeted || st is Received {
                spec_parse_mail(line, b)
            } else {
                Err(SmtpErrorKind::UnexpectedCommand)
            }
        } else if is_verb(cmd, "rcpt"@) {
            match st {
                StateView::ReceivingRcpt(m) => spec_parse_rcpt(m, line, b),
                _ => Err(SmtpErrorKind::UnexpectedCommand),
            }
        } else if is_verb(cmd, "data"@) {
            match st {
                StateView::ReceivingRcpt(m) => if m.to.len() > 0 {
                    Ok((StateView::ReceivingData(m), Reply::SendData))
                } else {
                    Err(SmtpErrorKind::UnexpectedCommand)
                },
                _ => Err(SmtpErrorKind::UnexpectedCommand),
            }
        } else {
            Err(SmtpErrorKind::UnexpectedCommand)
        }
    }
}

/// Exec mirror of [`phase_of`].
fn phase(st: &State) -> (p: Phase)
    ensures
        p == phase_of(st@),
{
    match st {
        State::Fresh => Phase::Fresh,
        State::Greeted => Phase::Greeted,
        State::ReceivingRcpt(_) => Phase::ReceivingRcpt,
        State::ReceivingData(_) => Phase::ReceivingData,
        State::Received(_) => Phase::Received,
    }
}

/// Builds the error report for a rejected line.
fn make_error(kind: SmtpErrorKind, line: &str, st: &State) -> (e: SmtpError)
    ensures
        e.kind == kind,
        e.line@ == line@,
        e.phase == phase_of(st@),
{
    SmtpError { kind, line: String::from_str(line), phase: phase(st) }
}

/// The fixed banner written when a connection opens, before any command.
pub fn greeting() -> (out: String)
    ensures
        out@ == "220 haxmail\n"@,
{
    String::from_str("220 haxmail\n")
}

/// The session state machine: the current phase plus the `EHLO` banner
/// fixed at construction time.
pub struct StateMachine {
    pub state: State,
    pub ehlo_greeting: String,
}

impl StateMachine {
    /// A machine for a fresh connection serving `domain`.
    pub fn new(domain: &str) -> (sm: StateMachine)
        ensures
            sm.state == State::Fresh,
            sm.ehlo_greeting@ == ehlo_greeting_text(domain@),
    {
        let mut greeting_line = String::new();
        greeting_line.append("250-");
        greeting_line.append(domain);
        greeting_line.append(" Hello ");
        greeting_line.append(domain);
        greeting_line.append("\n250 AUTH PLAIN LOGIN\n");
        proof {
            assert(greeting_line@ =~= ehlo_greeting_text(domain@));
        }
        StateMachine { state: State::Fresh, ehlo_greeting: greeting_line }
    }

    /// The wire text of a reply, ready to be written to the peer.
    pub fn reply_string(&self, r: Reply) -> (out: String)
        ensures
            out@ == reply_text(r, self.ehlo_greeting@),
    {
        match r {
            Reply::Okay => String::from_str("250 OK\n"),
            Reply::AuthOkay => String::from_str("235 OK\n"),
            Reply::EhloBanner => self.ehlo_greeting.clone(),
            Reply::SendData => String::from_str("354 END DATA WITH <CR><LF>.<CR><LF>\n"),
            Reply::Bye => String::from_str("221 BYE\n"),
            Reply::Empty => {
                let out = String::new();
                proof {
                    reveal_strlit("");
                    assert(out@ =~= ""@);
                }
                out
            },
        }
    }

    /// Feeds one line of protocol text to the machine.  The result and the
    /// state change are exactly those of [`spec_step`] on the old state; a
    /// rejected line leaves the state untouched and reports the line and
    /// the phase it arrived in.
    pub fn handle_smtp(&mut self, raw_msg: &str) -> (r: Result<Reply, SmtpError>)
        ensures
            final(self).ehlo_greeting == old(self).ehlo_greeting,
            ({
                let step = spec_step(old(self).state@, raw_msg@);
                match r {
                    Ok(rep) => step == Ok::<(StateView, Reply), SmtpErrorKind>(
                        (final(self).state@, rep),
                    ),
                    Err(e) => {
                        &&& step == Err::<(StateView, Reply), SmtpErrorKind>(e.kind)
                        &&& final(self).state == old(self).state
                        &&& e.line@ == raw_msg@
                        &&& e.phase == phase_of(old(self).state@)
                    },
                }
            }),
    {
        let se = scan_token(raw_msg, 0);
        let a: usize = se.0;
        let b: usize = se.1;
        if a != b {
            if token_matches(raw_msg, a, b, "noop") || token_matches(raw_msg, a, b, "help")
                || token_matches(raw_msg, a, b, "info") || token_matches(raw_msg, a, b, "vrfy")
                || token_matches(raw_msg, a, b, "expn") {
                return Ok(Reply::Okay);
            }
            if token_matches(raw_msg, a, b, "rset") {
                self.state = State::Fresh;
                return Ok(Reply::Okay);
            }
            if token_matches(raw_msg, a, b, "auth") {
                return Ok(Reply::AuthOkay);
            }
        }
        let mut st = State::Fresh;
        core::mem::swap(&mut st, &mut self.state);
        match st {
            State::ReceivingData(mut mail) => {
                if a == b {
                    append_line(&mut mail.data, raw_msg);
                    self.state = State::ReceivingData(mail);
                    Ok(Reply::Empty)
                } else if token_matches(raw_msg, a, b, "quit") {
                    self.state = State::Received(mail);
                    Ok(Reply::Bye)
                } else if is_terminator(raw_msg) {
                    self.state = State::Received(mail);
                    Ok(Reply::Okay)
                } else {
                    append_line(&mut mail.data, raw_msg);
                    self.state = State::ReceivingData(mail);
                    Ok(Reply::Empty)
                }
            },
            prior => {
                if a == b {
                    let e = make_error(SmtpErrorKind::EmptyCommand, raw_msg, &prior);
                    self.state = prior;
                    return Err(e);
                }
                if token_matches(raw_msg, a, b, "quit") {
                    self.state = prior;
                    return Ok(Reply::Bye);
                }
                if token_matches(raw_msg, a, b, "ehlo") {
                    if matches!(&prior, State::Fresh) {
                        self.state = State::Greeted;
                        return Ok(Reply::EhloBanner);
                    }
                    let e = make_error(SmtpErrorKind::UnexpectedCommand, raw_msg, &prior);
                    self.state = prior;
                    return Err(e);
                }
                if token_matches(raw_msg, a, b, "helo") {
                    if matches!(&prior, State::Fresh) {
                        self.state = State::Greeted;
                        return Ok(Reply::Okay);
                    }
                    let e = make_error(SmtpErrorKind::UnexpectedCommand, raw_msg, &prior);
                    self.state = prior;
                    return Err(e);
                }
                if token_matches(raw_msg, a, b, "mail") {
                    let allowed = match &prior {
                        State::Greeted => true,
                        State::Received(_) => true,
                        _ => false,
                    };
                    if allowed {
                        match parse_prefixed_arg(raw_msg, b, "FROM:") {
                            ArgParse::Missing => {
                                let e = make_error(SmtpErrorKind::EmptyMailArg, raw_msg, &prior);
                                self.state = prior;
                                return Err(e);
                            },
                            ArgParse::BadPrefix => {
                                let e = make_error(
                                    SmtpErrorKind::MissingFromPrefix,
                                    raw_msg,
                                    &prior,
                                );
                                self.state = prior;
                                return Err(e);
                            },
                            ArgParse::Found(arg) => {
                                let fresh = Mail { from: arg, to: Vec::new(), data: String::new() };
                                proof {
                                    assert(fresh@.to =~= Seq::<Seq<char>>::empty());
                                }
                                self.state = State::ReceivingRcpt(fresh);
                                return Ok(Reply::Okay);
                            },
                        }
                    }
                    let e = make_error(SmtpErrorKind::UnexpectedCommand, raw_msg, &prior);
                    self.state = prior;
                    return Err(e);
                }
                if token_matches(raw_msg, a, b, "rcpt") {
                    match prior {
                        State::ReceivingRcpt(mut mail) => {
                            match parse_prefixed_arg(raw_msg, b, "TO:") {
                                ArgParse::Missing => {
                                    let e = SmtpError {
                                        kind: SmtpErrorKind::EmptyRcptArg,
                                        line: String::from_str(raw_msg),
                                        phase: Phase::ReceivingRcpt,
                                    };
                                    self.state = State::ReceivingRcpt(mail);
                                    return Err(e);
                                },
                                ArgParse::BadPrefix => {
                                    let e = SmtpError {
                                        kind: SmtpErrorKind::MissingToPrefix,
                                        line: String::from_str(raw_msg),
                                        phase: Phase::ReceivingRcpt,
                                    };
                                    self.state = State::ReceivingRcpt(mail);
                                    return Err(e);
                                },
                                ArgParse::Found(arg) => {
                                    let ghost prev = mail.to.deep_view();
                                    let ghost argv = arg@;
                                    mail.to.push(arg);
                                    proof {
                                        assert(mail.to.deep_view() =~= prev.push(argv));
                                    }
                                    self.state = State::ReceivingRcpt(mail);
                                    return Ok(Reply::Okay);
                                },
                            }
                        },
                        other => {
                            let e = make_error(SmtpErrorKind::UnexpectedCommand, raw_msg, &other);
                            self.state = other;
                            return Err(e);
                        },
                    }
                }
                if token_matches(raw_msg, a, b, "data") {
                    match prior {
                        State::ReceivingRcpt(mail) => {
                            if mail.to.len() > 0 {
                                self.state = State::ReceivingData(mail);
                                return Ok(Reply::SendData);
                            }
                            let e = SmtpError {
                                kind: SmtpErrorKind::UnexpectedCommand,
                                line: String::from_str(raw_msg),
                                phase: Phase::ReceivingRcpt,
                            };
                            self.state = State::ReceivingRcpt(mail);
                            return Err(e);
                        },
                        other => {
                            let e = make_error(SmtpErrorKind::UnexpectedCommand, raw_msg, &other);
                            self.state = other;
                            return Err(e);
                        },
                    }
                }
                let e = make_error(SmtpErrorKind::UnexpectedCommand, raw_msg, &prior);
                self.state = prior;
                Err(e)
            },
        }
    }
}

} // verus!
