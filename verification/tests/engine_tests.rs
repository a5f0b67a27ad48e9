use imap_client::engine::{build_command, check_command_success};
use imap_client::error::Error;
use imap_client::quote::into_quoted;

fn b(s: &str) -> Vec<u8> {
    s.as_bytes().to_vec()
}

#[test]
fn quoted_form_escapes_backslash_and_quote() {
    // into_quoted("a\"b\\c") must give "\"a\\\"b\\\\c\"".
    let quoted = into_quoted(&b("a\"b\\c"));
    assert_eq!(quoted, b("\"a\\\"b\\\\c\""));
}

#[test]
fn quoted_form_of_plain_text_only_wraps() {
    assert_eq!(into_quoted(&b("user")), b("\"user\""));
    assert_eq!(into_quoted(&b("")), b("\"\""));
}

#[test]
fn command_bytes_join_single_spaces() {
    // The tag, the verb and each argument are separated by single spaces,
    // and CR LF follows the last argument directly.
    let cmd = build_command(&b("logtag"), &b("LOGIN"), &vec![b("\"u\""), b("\"p\"")]);
    assert_eq!(cmd, b("logtag LOGIN \"u\" \"p\"\r\n"));
}

#[test]
fn command_bytes_without_arguments() {
    let cmd = build_command(&b("t"), &b("NOOP"), &Vec::new());
    assert_eq!(cmd, b("t NOOP\r\n"));
}

#[test]
fn completion_ok_is_accepted_case_insensitively() {
    let group = vec![b("* 1 EXISTS\r\n"), b("ftag OK SELECT done\r\n")];
    assert!(check_command_success(&b("ftag"), &group).is_ok());
    let group = vec![b("ftag Ok done\r\n")];
    assert!(check_command_success(&b("ftag"), &group).is_ok());
}

#[test]
fn completion_no_is_command_failed() {
    // A LOGIN answered `logtag NO ...` fails the command; the driver maps
    // that to its login-failure exit.
    let group = vec![b("logtag NO authentication rejected\r\n")];
    assert_eq!(check_command_success(&b("logtag"), &group).unwrap_err(), Error::CommandFailed);
}

#[test]
fn completion_bad_is_command_failed() {
    let group = vec![b("ptag BAD syntax\r\n")];
    assert_eq!(check_command_success(&b("ptag"), &group).unwrap_err(), Error::CommandFailed);
}

#[test]
fn empty_group_is_infallible() {
    let group: Vec<Vec<u8>> = Vec::new();
    assert_eq!(check_command_success(&b("t"), &group).unwrap_err(), Error::Infallible);
}

#[test]
fn completion_for_other_tag_is_command_failed() {
    let group = vec![b("other OK fine\r\n")];
    assert_eq!(check_command_success(&b("t"), &group).unwrap_err(), Error::CommandFailed);
}
