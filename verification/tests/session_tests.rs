//! A scripted session walked through the framer, the engine and the
//! operation post-processing together, as the driver does over a socket.

use imap_client::engine::check_command_success;
use imap_client::error::Error;
use imap_client::framer::{FramerStep, GroupReader};
use imap_client::ops::retrieve_payload;
use imap_client::protocol::{login_command, retrieve_command, select_command};

fn b(s: &str) -> Vec<u8> {
    s.as_bytes().to_vec()
}

/// Feeds scripted lines to a reader until the group is complete.
fn run_script(tag: &str, lines: &[&[u8]]) -> Vec<Vec<u8>> {
    let mut reader = GroupReader::new(b(tag));
    let mut queue: Vec<Vec<u8>> = lines.iter().map(|l| l.to_vec()).collect();
    queue.reverse();
    loop {
        let line = queue.pop().expect("script ran dry");
        match reader.on_line(line).unwrap() {
            FramerStep::NeedLine => {},
            FramerStep::NeedLiteral(n) => {
                let literal = queue.pop().expect("script ran dry");
                assert_eq!(literal.len(), n);
                reader.on_literal(literal);
            },
            FramerStep::Done(group) => return group,
        }
    }
}

#[test]
fn scripted_retrieve_session_writes_payload() {
    // LOGIN and SELECT answered OK, then a FETCH whose untagged line
    // declares the 5-octet literal `hello`; the payload must come out
    // exactly.
    let cmd = login_command(&b("user"), &b("pw"));
    assert_eq!(cmd, b("logtag LOGIN \"user\" \"pw\"\r\n"));
    let group = run_script("logtag", &[b"logtag OK LOGIN completed\r\n"]);
    assert!(check_command_success(&b("logtag"), &group).is_ok());

    let cmd = select_command(None);
    assert_eq!(cmd, b("ftag SELECT \"Inbox\"\r\n"));
    let group = run_script("ftag", &[b"* 1 EXISTS\r\n", b"ftag OK SELECT completed\r\n"]);
    assert!(check_command_success(&b("ftag"), &group).is_ok());

    let cmd = retrieve_command(Some(1));
    assert_eq!(cmd, b("rtag FETCH 1 BODY.PEEK[]\r\n"));
    let group = run_script(
        "rtag",
        &[b"* 1 FETCH (BODY[] {5}\r\n", b"hello", b")\r\n", b"rtag OK FETCH\r\n"],
    );
    assert!(check_command_success(&b("rtag"), &group).is_ok());
    assert_eq!(retrieve_payload(&group).unwrap(), b"hello");
}

#[test]
fn scripted_login_failure_is_command_failed() {
    // A LOGIN answered `NO` fails the command; the driver turns that into
    // its login-failure exit.
    let group = run_script("logtag", &[b"logtag NO LOGIN failed\r\n"]);
    assert_eq!(check_command_success(&b("logtag"), &group).unwrap_err(), Error::CommandFailed);
}
