use haxmail::smtp::{Mail, Phase, Reply, SmtpErrorKind, State, StateMachine};

#[test]
fn test_regular_flow() {
    let mut sm = StateMachine::new("localhost");
    assert_eq!(sm.state, State::Fresh);
    sm.handle_smtp("HELO localhost").unwrap();
    assert_eq!(sm.state, State::Greeted);
    sm.handle_smtp("MAIL FROM: <tiger@gmail.com>").unwrap();

    assert!(matches!(sm.state, State::ReceivingRcpt(_)));
    sm.handle_smtp("RCPT TO: <a@localhost>").unwrap();
    assert!(matches!(sm.state, State::ReceivingRcpt(_)));
    sm.handle_smtp("RCPT TO: <b@localhost>").unwrap();
    assert!(matches!(sm.state, State::ReceivingRcpt(_)));
    sm.handle_smtp("DATA hello world\n").unwrap();
    assert!(matches!(sm.state, State::ReceivingData(_)));
    sm.handle_smtp("DATA hello world2\n").unwrap();
    assert!(matches!(sm.state, State::ReceivingData(_)));
    sm.handle_smtp("QUIT").unwrap();
    println!("{:?}", sm.state);
    assert!(matches!(sm.state, State::Received(_)));
}

fn mail(from: &str, to: &[&str], data: &str) -> Mail {
    Mail {
        from: from.to_string(),
        to: to.iter().map(|r| r.to_string()).collect(),
        data: data.to_string(),
    }
}

#[test]
fn fresh_rejects_everything_but_greetings() {
    for line in ["MAIL FROM:<a@x.com>", "RCPT TO:<b@y.com>", "DATA", "FOO bar"] {
        let mut sm = StateMachine::new("localhost");
        let err = sm.handle_smtp(line).unwrap_err();
        assert_eq!(err.kind, SmtpErrorKind::UnexpectedCommand);
        assert_eq!(err.phase, Phase::Fresh);
        assert_eq!(err.line, line.to_string());
        assert_eq!(sm.state, State::Fresh);
    }
}

#[test]
fn rcpt_fails_before_mail() {
    let mut sm = StateMachine::new("localhost");
    let err = sm.handle_smtp("RCPT TO:<b@y.com>").unwrap_err();
    assert_eq!(err.kind, SmtpErrorKind::UnexpectedCommand);
    assert_eq!(sm.state, State::Fresh);

    sm.handle_smtp("HELO localhost").unwrap();
    let err = sm.handle_smtp("RCPT TO:<b@y.com>").unwrap_err();
    assert_eq!(err.kind, SmtpErrorKind::UnexpectedCommand);
    assert_eq!(err.phase, Phase::Greeted);
    assert_eq!(sm.state, State::Greeted);
}

#[test]
fn data_fails_before_any_rcpt() {
    let mut sm = StateMachine::new("localhost");
    assert!(sm.handle_smtp("DATA").is_err());

    sm.handle_smtp("HELO localhost").unwrap();
    assert!(sm.handle_smtp("DATA").is_err());
    assert_eq!(sm.state, State::Greeted);

    sm.handle_smtp("MAIL FROM:<a@x.com>").unwrap();
    let err = sm.handle_smtp("DATA").unwrap_err();
    assert_eq!(err.kind, SmtpErrorKind::UnexpectedCommand);
    assert_eq!(err.phase, Phase::ReceivingRcpt);
    assert_eq!(sm.state, State::ReceivingRcpt(mail("<a@x.com>", &[], "")));
}

#[test]
fn auth_succeeds_in_every_phase() {
    let mut sm = StateMachine::new("localhost");
    assert_eq!(sm.handle_smtp("AUTH PLAIN anything").unwrap(), Reply::AuthOkay);
    assert_eq!(sm.state, State::Fresh);

    sm.handle_smtp("HELO localhost").unwrap();
    assert_eq!(sm.handle_smtp("AUTH").unwrap(), Reply::AuthOkay);
    assert_eq!(sm.state, State::Greeted);

    sm.handle_smtp("MAIL FROM:<a@x.com>").unwrap();
    assert_eq!(sm.handle_smtp("auth login").unwrap(), Reply::AuthOkay);
    assert_eq!(sm.state, State::ReceivingRcpt(mail("<a@x.com>", &[], "")));

    sm.handle_smtp("RCPT TO:<b@y.com>").unwrap();
    sm.handle_smtp("DATA").unwrap();
    assert_eq!(sm.handle_smtp("AUTH secret").unwrap(), Reply::AuthOkay);
    assert_eq!(sm.state, State::ReceivingData(mail("<a@x.com>", &["<b@y.com>"], "")));
}

#[test]
fn informational_commands_change_nothing() {
    let mut sm = StateMachine::new("localhost");
    sm.handle_smtp("HELO localhost").unwrap();
    sm.handle_smtp("MAIL FROM:<a@x.com>").unwrap();
    sm.handle_smtp("RCPT TO:<b@y.com>").unwrap();
    let expected = State::ReceivingRcpt(mail("<a@x.com>", &["<b@y.com>"], ""));
    for line in ["NOOP", "HELP", "INFO", "VRFY <b@y.com>", "EXPN list"] {
        assert_eq!(sm.handle_smtp(line).unwrap(), Reply::Okay);
        assert_eq!(sm.state, expected);
    }
}

#[test]
fn rset_returns_to_initial_state_from_any_phase() {
    let mut sm = StateMachine::new("localhost");
    assert_eq!(sm.handle_smtp("RSET").unwrap(), Reply::Okay);
    assert_eq!(sm.state, State::Fresh);

    sm.handle_smtp("HELO localhost").unwrap();
    sm.handle_smtp("RSET").unwrap();
    assert_eq!(sm.state, State::Fresh);

    sm.handle_smtp("HELO localhost").unwrap();
    sm.handle_smtp("MAIL FROM:<a@x.com>").unwrap();
    sm.handle_smtp("RCPT TO:<b@y.com>").unwrap();
    sm.handle_smtp("RSET").unwrap();
    assert_eq!(sm.state, State::Fresh);

    // A later MAIL starts over with a fresh, empty message.
    sm.handle_smtp("HELO localhost").unwrap();
    sm.handle_smtp("MAIL FROM:<c@z.com>").unwrap();
    assert_eq!(sm.state, State::ReceivingRcpt(mail("<c@z.com>", &[], "")));

    sm.handle_smtp("RCPT TO:<b@y.com>").unwrap();
    sm.handle_smtp("DATA").unwrap();
    sm.handle_smtp("body line").unwrap();
    sm.handle_smtp("RSET").unwrap();
    assert_eq!(sm.state, State::Fresh);
}

#[test]
fn second_greeting_is_rejected() {
    let mut sm = StateMachine::new("localhost");
    sm.handle_smtp("HELO localhost").unwrap();
    let err = sm.handle_smtp("HELO localhost").unwrap_err();
    assert_eq!(err.kind, SmtpErrorKind::UnexpectedCommand);
    assert_eq!(sm.state, State::Greeted);
}

#[test]
fn greeting_verbs_are_case_insensitive() {
    for line in ["helo x", "HeLo x", "HELO x"] {
        let mut sm = StateMachine::new("localhost");
        assert_eq!(sm.handle_smtp(line).unwrap(), Reply::Okay);
        assert_eq!(sm.state, State::Greeted);
    }
    let mut sm = StateMachine::new("localhost");
    assert_eq!(sm.handle_smtp("eHlO x").unwrap(), Reply::EhloBanner);
    assert_eq!(sm.state, State::Greeted);
}

#[test]
fn parse_error_variants() {
    let mut sm = StateMachine::new("localhost");

    let err = sm.handle_smtp("").unwrap_err();
    assert_eq!(err.kind, SmtpErrorKind::EmptyCommand);
    let err = sm.handle_smtp("   ").unwrap_err();
    assert_eq!(err.kind, SmtpErrorKind::EmptyCommand);

    sm.handle_smtp("HELO localhost").unwrap();
    let err = sm.handle_smtp("MAIL").unwrap_err();
    assert_eq!(err.kind, SmtpErrorKind::EmptyMailArg);
    let err = sm.handle_smtp("MAIL TO:<a@x.com>").unwrap_err();
    assert_eq!(err.kind, SmtpErrorKind::MissingFromPrefix);
    assert_eq!(sm.state, State::Greeted);

    sm.handle_smtp("MAIL FROM:<a@x.com>").unwrap();
    let err = sm.handle_smtp("RCPT").unwrap_err();
    assert_eq!(err.kind, SmtpErrorKind::EmptyRcptArg);
    let err = sm.handle_smtp("RCPT FROM:<b@y.com>").unwrap_err();
    assert_eq!(err.kind, SmtpErrorKind::MissingToPrefix);
    assert_eq!(sm.state, State::ReceivingRcpt(mail("<a@x.com>", &[], "")));
}

#[test]
fn terminator_forms_complete_the_message() {
    for term in [".", ".\n", ".\r\n"] {
        let mut sm = StateMachine::new("localhost");
        sm.handle_smtp("HELO localhost").unwrap();
        sm.handle_smtp("MAIL FROM:<a@x.com>").unwrap();
        sm.handle_smtp("RCPT TO:<b@y.com>").unwrap();
        sm.handle_smtp("DATA").unwrap();
        assert_eq!(sm.handle_smtp("hello").unwrap(), Reply::Empty);
        assert_eq!(sm.handle_smtp(term).unwrap(), Reply::Okay);
        assert_eq!(sm.state, State::Received(mail("<a@x.com>", &["<b@y.com>"], "hello")));
    }
}

#[test]
fn near_terminators_are_body_content() {
    let mut sm = StateMachine::new("localhost");
    sm.handle_smtp("HELO localhost").unwrap();
    sm.handle_smtp("MAIL FROM:<a@x.com>").unwrap();
    sm.handle_smtp("RCPT TO:<b@y.com>").unwrap();
    sm.handle_smtp("DATA").unwrap();
    assert_eq!(sm.handle_smtp("..").unwrap(), Reply::Empty);
    assert_eq!(sm.handle_smtp(". not alone").unwrap(), Reply::Empty);
    assert_eq!(
        sm.state,
        State::ReceivingData(mail("<a@x.com>", &["<b@y.com>"], "..\n. not alone"))
    );
}

#[test]
fn data_phase_still_recognises_universal_commands() {
    let mut sm = StateMachine::new("localhost");
    sm.handle_smtp("HELO localhost").unwrap();
    sm.handle_smtp("MAIL FROM:<a@x.com>").unwrap();
    sm.handle_smtp("RCPT TO:<b@y.com>").unwrap();
    sm.handle_smtp("DATA").unwrap();
    assert_eq!(sm.handle_smtp("NOOP").unwrap(), Reply::Okay);
    assert_eq!(sm.state, State::ReceivingData(mail("<a@x.com>", &["<b@y.com>"], "")));
    // A line that merely starts like a command is body content.
    assert_eq!(sm.handle_smtp("mail from nowhere").unwrap(), Reply::Empty);
    assert_eq!(
        sm.state,
        State::ReceivingData(mail("<a@x.com>", &["<b@y.com>"], "mail from nowhere"))
    );
    // RSET mid-body discards the whole message.
    sm.handle_smtp("RSET").unwrap();
    assert_eq!(sm.state, State::Fresh);
}

#[test]
fn empty_line_in_data_phase_is_body_content() {
    let mut sm = StateMachine::new("localhost");
    sm.handle_smtp("HELO localhost").unwrap();
    sm.handle_smtp("MAIL FROM:<a@x.com>").unwrap();
    sm.handle_smtp("RCPT TO:<b@y.com>").unwrap();
    sm.handle_smtp("DATA").unwrap();
    sm.handle_smtp("first").unwrap();
    assert_eq!(sm.handle_smtp("").unwrap(), Reply::Empty);
    sm.handle_smtp("third").unwrap();
    assert_eq!(
        sm.state,
        State::ReceivingData(mail("<a@x.com>", &["<b@y.com>"], "first\n\nthird"))
    );
}

#[test]
fn mail_after_completed_message_starts_a_new_one() {
    let mut sm = StateMachine::new("localhost");
    sm.handle_smtp("HELO localhost").unwrap();
    sm.handle_smtp("MAIL FROM:<a@x.com>").unwrap();
    sm.handle_smtp("RCPT TO:<b@y.com>").unwrap();
    sm.handle_smtp("DATA").unwrap();
    sm.handle_smtp("body").unwrap();
    sm.handle_smtp(".").unwrap();
    assert!(matches!(sm.state, State::Received(_)));
    sm.handle_smtp("MAIL FROM:<c@z.com>").unwrap();
    assert_eq!(sm.state, State::ReceivingRcpt(mail("<c@z.com>", &[], "")));
}

#[test]
fn quit_outside_data_phase_keeps_state() {
    let mut sm = StateMachine::new("localhost");
    assert_eq!(sm.handle_smtp("QUIT").unwrap(), Reply::Bye);
    assert_eq!(sm.state, State::Fresh);

    let mut sm = StateMachine::new("localhost");
    sm.handle_smtp("HELO localhost").unwrap();
    assert_eq!(sm.handle_smtp("QUIT").unwrap(), Reply::Bye);
    assert_eq!(sm.state, State::Greeted);
}
