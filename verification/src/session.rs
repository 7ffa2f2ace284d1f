//! Driving a whole session: feed input lines to the state machine one by
//! one, collect the replies, and decide which message (if any) is handed
//! to persistence when the session ends.
//!
//! The policy is strict: a rejected line ends the session at once and
//! nothing is persisted.  Running out of input (the peer closing its end)
//! acts as an implicit `QUIT`, so a message still in the data phase is
//! surfaced with its partial body.

use vstd::prelude::*;

use crate::smtp::{
    is_space_char, lemma_is_verb_refl, lemma_not_verb_at, lemma_token_end_range,
    lemma_token_start_range, matches_ci_char, spec_step, Mail, Reply, SmtpError, SmtpErrorKind,
    State, StateMachine, StateView,
};

verus! {

/// What the synthesized `QUIT` at end of input does to the state: a
/// message still in the data phase is surfaced as received; every other
/// state is left alone.
pub open spec fn spec_quit(st: StateView) -> StateView {
    match st {
        StateView::ReceivingData(m) => StateView::Received(m),
        _ => st,
    }
}

/// The whole-session fold: starting from `st`, steps through `lines`,
/// stopping at the first rejected line or after a `Bye` reply; running
/// out of lines acts as an implicit `QUIT`.  Yields the final state, the
/// replies produced, and the error that ended the session, if any.
pub open spec fn spec_run(st: StateView, lines: Seq<Seq<char>>) -> (StateView, Seq<Reply>, Option<
    SmtpErrorKind,
>)
    decreases lines.len(),
{
    if lines.len() == 0 {
        (spec_quit(st), Seq::empty(), None)
    } else {
        match spec_step(st, lines[0]) {
            Ok((st2, rep)) => {
                if rep == Reply::Bye {
                    (st2, seq![rep], None)
                } else {
                    let rest = spec_run(st2, lines.drop_first());
                    (rest.0, seq![rep] + rest.1, rest.2)
                }
            },
            Err(k) => (st, Seq::empty(), Some(k)),
        }
    }
}

/// A `QUIT` line always succeeds with `Bye`: it surfaces a data-phase
/// message as received and leaves every other state alone.
pub proof fn lemma_step_quit(st: StateView)
    ensures
        spec_step(st, "quit"@) == Ok::<(StateView, Reply), SmtpErrorKind>(
            (spec_quit(st), Reply::Bye),
        ),
{
    reveal_strlit("quit");
    reveal_strlit("noop");
    reveal_strlit("help");
    reveal_strlit("info");
    reveal_strlit("vrfy");
    reveal_strlit("expn");
    reveal_strlit("rset");
    reveal_strlit("auth");
    let line = "quit"@;
    assert(line.len() == 4);
    assert(line[0] == 'q' && line[1] == 'u' && line[2] == 'i' && line[3] == 't');
    assert(forall|j: int| 0 <= j < 4 ==> !is_space_char(#[trigger] line[j]));
    lemma_token_start_range(line, 0, 0);
    lemma_token_end_range(line, 0, 4);
    let cmd = line.subrange(0, 4);
    assert(cmd =~= line);
    lemma_is_verb_refl(line);
    assert(!matches_ci_char('q', 'n'));
    lemma_not_verb_at(cmd, "noop"@, 0);
    assert(!matches_ci_char('q', 'h'));
    lemma_not_verb_at(cmd, "help"@, 0);
    assert(!matches_ci_char('q', 'i'));
    lemma_not_verb_at(cmd, "info"@, 0);
    assert(!matches_ci_char('q', 'v'));
    lemma_not_verb_at(cmd, "vrfy"@, 0);
    assert(!matches_ci_char('q', 'e'));
    lemma_not_verb_at(cmd, "expn"@, 0);
    assert(!matches_ci_char('q', 'r'));
    lemma_not_verb_at(cmd, "rset"@, 0);
    assert(!matches_ci_char('q', 'a'));
    lemma_not_verb_at(cmd, "auth"@, 0);
}

/// What a finished session leaves behind: the replies that were (or would
/// have been) written, the message to persist if one was completed or cut
/// off mid-body, and the error that ended the session, if any.
#[derive(Debug)]
pub struct SessionOutcome {
    pub replies: Vec<Reply>,
    pub stored: Option<Mail>,
    pub error: Option<SmtpError>,
}

/// Runs one connection's worth of input lines through a fresh machine for
/// `domain` and reports exactly what [`spec_run`] says: the same replies,
/// the same terminal error, and a stored message precisely when the run
/// ends without error in a received or data-phase state.
pub fn run_session(domain: &str, lines: &Vec<String>) -> (out: SessionOutcome)
    ensures
        ({
            let w = spec_run(StateView::Fresh, lines.deep_view());
            &&& out.replies@ == w.1
            &&& (match out.error {
                Some(e) => w.2 == Some(e.kind),
                None => w.2 is None,
            })
            &&& (match out.stored {
                Some(m) => w.2 is None && ((w.0 is Received && m@ == w.0->Received_0) || (
                w.0 is ReceivingData
                    && m@ == w.0->ReceivingData_0)),
                None => w.2 is Some || !(w.0 is Received || w.0 is ReceivingData),
            })
        }),
{
    let ghost all = lines.deep_view();
    let mut sm = StateMachine::new(domain);
    let mut replies: Vec<Reply> = Vec::new();
    let mut error: Option<SmtpError> = None;
    let mut closed = false;
    let mut i: usize = 0;
    proof {
        assert(all.skip(0) =~= all);
        assert(replies@ + spec_run(StateView::Fresh, all).1 =~= spec_run(StateView::Fresh, all).1);
    }
    while i < lines.len() && !closed && error.is_none()
        invariant
            i <= lines.len(),
            all == lines.deep_view(),
            ({
                let w = spec_run(StateView::Fresh, all);
                match error {
                    Some(e) => {
                        &&& w.0 == sm.state@
                        &&& w.1 == replies@
                        &&& w.2 == Some(e.kind)
                    },
                    None => {
                        if closed {
                            &&& w.0 == sm.state@
                            &&& w.1 == replies@
                            &&& w.2 is None
                        } else {
                            let rest = spec_run(sm.state@, all.skip(i as int));
                            &&& w.0 == rest.0
                            &&& w.1 == replies@ + rest.1
                            &&& w.2 == rest.2
                        }
                    },
                }
            }),
        decreases lines.len() - i,
    {
        let ghost cur = sm.state@;
        let ghost restpre = spec_run(cur, all.skip(i as int));
        let line: &String = &lines[i];
        let res = sm.handle_smtp(line.as_str());
        proof {
            assert(all[i as int] == lines@[i as int]@);
            assert(all.skip(i as int)[0] == all[i as int]);
            assert(all.skip(i as int).drop_first() =~= all.skip(i as int + 1));
        }
        match res {
            Ok(rep) => {
                let ghost repspre = replies@;
                replies.push(rep);
                if rep == Reply::Bye {
                    closed = true;
                    proof {
                        assert(replies@ =~= repspre + restpre.1);
                    }
                } else {
                    proof {
                        let rest2 = spec_run(sm.state@, all.skip(i as int + 1));
                        assert(restpre.1 == seq![rep] + rest2.1);
                        assert((repspre + seq![rep]) + rest2.1 =~= repspre + (seq![rep]
                            + rest2.1));
                    }
                }
            },
            Err(e) => {
                proof {
                    assert(replies@ + restpre.1 =~= replies@);
                }
                error = Some(e);
            },
        }
        i = i + 1;
    }
    if !closed && error.is_none() {
        proof {
            assert(all.skip(lines.len() as int) =~= Seq::<Seq<char>>::empty());
        }
        let ghost cur = sm.state@;
        let eof = sm.handle_smtp("quit");
        proof {
            lemma_step_quit(cur);
            match eof {
                Ok(_) => {},
                Err(_) => {},
            }
            assert(sm.state@ == spec_quit(cur));
        }
    }
    let StateMachine { state: fin, ehlo_greeting: _ } = sm;
    let stored = if error.is_some() {
        None
    } else {
        match fin {
            State::Received(m) => Some(m),
            State::ReceivingData(m) => Some(m),
            _ => None,
        }
    };
    SessionOutcome { replies, stored, error }
}

} // verus!
