use haxmail::session::run_session;
use haxmail::smtp::{greeting, Mail, Reply, SmtpErrorKind, StateMachine};

fn lines(input: &[&str]) -> Vec<String> {
    input.iter().map(|l| l.to_string()).collect()
}

#[test]
fn full_scenario_stores_one_message() {
    let input = lines(&[
        "HELO localhost",
        "MAIL FROM:<a@x.com>",
        "RCPT TO:<b@y.com>",
        "RCPT TO:<c@y.com>",
        "DATA",
        "hello",
        "world",
        ".",
        "QUIT",
    ]);
    let out = run_session("localhost", &input);
    assert!(out.error.is_none());
    assert_eq!(
        out.replies,
        vec![
            Reply::Okay,
            Reply::Okay,
            Reply::Okay,
            Reply::Okay,
            Reply::SendData,
            Reply::Empty,
            Reply::Empty,
            Reply::Okay,
            Reply::Bye,
        ]
    );
    let mail = out.stored.expect("one message should be stored");
    assert_eq!(mail.from, "<a@x.com>");
    assert_eq!(mail.to, vec!["<b@y.com>".to_string(), "<c@y.com>".to_string()]);
    assert_eq!(mail.data, "hello\nworld");
}

#[test]
fn disconnect_mid_body_still_stores_partial_message() {
    let input = lines(&[
        "HELO localhost",
        "MAIL FROM:<a@x.com>",
        "RCPT TO:<b@y.com>",
        "DATA",
        "partial one",
        "partial two",
    ]);
    let out = run_session("localhost", &input);
    assert!(out.error.is_none());
    let mail = out.stored.expect("the cut-off message should be stored");
    assert_eq!(mail.from, "<a@x.com>");
    assert_eq!(mail.to, vec!["<b@y.com>".to_string()]);
    assert_eq!(mail.data, "partial one\npartial two");
}

#[test]
fn quit_without_message_stores_nothing() {
    let out = run_session("localhost", &lines(&["HELO localhost", "QUIT"]));
    assert!(out.error.is_none());
    assert!(out.stored.is_none());
    assert_eq!(out.replies, vec![Reply::Okay, Reply::Bye]);
}

#[test]
fn empty_input_stores_nothing() {
    let out = run_session("localhost", &Vec::new());
    assert!(out.error.is_none());
    assert!(out.stored.is_none());
    assert!(out.replies.is_empty());
}

#[test]
fn sequence_error_ends_session_without_storing() {
    let out = run_session("localhost", &lines(&["MAIL FROM:<a@x.com>", "HELO localhost"]));
    let err = out.error.expect("the out-of-sequence MAIL must fail");
    assert_eq!(err.kind, SmtpErrorKind::UnexpectedCommand);
    assert!(out.stored.is_none());
    assert!(out.replies.is_empty());
}

#[test]
fn lines_after_quit_are_ignored() {
    let out = run_session(
        "localhost",
        &lines(&["HELO localhost", "QUIT", "MAIL FROM:<a@x.com>"]),
    );
    assert!(out.error.is_none());
    assert!(out.stored.is_none());
    assert_eq!(out.replies, vec![Reply::Okay, Reply::Bye]);
}

#[test]
fn connection_greeting_banner() {
    assert_eq!(greeting(), "220 haxmail\n");
}

#[test]
fn helo_reply_is_a_single_line() {
    let sm = StateMachine::new("example.org");
    let ok = sm.reply_string(Reply::Okay);
    assert_eq!(ok, "250 OK\n");
    assert_eq!(ok.matches('\n').count(), 1);
    assert!(ok.ends_with('\n'));
}

#[test]
fn ehlo_banner_lists_capabilities_before_final_line() {
    let sm = StateMachine::new("example.org");
    let banner = sm.reply_string(Reply::EhloBanner);
    assert_eq!(banner, "250-example.org Hello example.org\n250 AUTH PLAIN LOGIN\n");
    assert!(banner.ends_with('\n'));
    let body: Vec<&str> = banner.trim_end_matches('\n').split('\n').collect();
    assert_eq!(body.len(), 2);
    assert!(body[0].starts_with("250-"));
    assert!(body[1].starts_with("250 "));
}

#[test]
fn fixed_replies_have_their_wire_text() {
    let sm = StateMachine::new("example.org");
    assert_eq!(sm.reply_string(Reply::AuthOkay), "235 OK\n");
    assert_eq!(sm.reply_string(Reply::SendData), "354 END DATA WITH <CR><LF>.<CR><LF>\n");
    assert_eq!(sm.reply_string(Reply::Bye), "221 BYE\n");
    assert_eq!(sm.reply_string(Reply::Empty), "");
}

#[test]
fn recipients_line_joins_in_order() {
    let mail = Mail {
        from: "<a@x.com>".to_string(),
        to: vec!["<b@y.com>".to_string(), "<c@y.com>".to_string(), "<d@z.com>".to_string()],
        data: String::new(),
    };
    assert_eq!(mail.recipients_line(), "<b@y.com>, <c@y.com>, <d@z.com>");

    let single = Mail { from: String::new(), to: vec!["<only@y.com>".to_string()], data: String::new() };
    assert_eq!(single.recipients_line(), "<only@y.com>");

    let none = Mail { from: String::new(), to: Vec::new(), data: String::new() };
    assert_eq!(none.recipients_line(), "");
}
