use imap_client::envelope::{unfold, EnvelopeHeader};
use imap_client::error::Error;

fn b(s: &str) -> Vec<u8> {
    s.as_bytes().to_vec()
}

#[test]
fn unfolding_replaces_continuations() {
    // Each CR LF SP becomes a space, each CR LF HTAB a tab, interleaved.
    let folded = b("a\r\n b\r\n\tc\r\n d");
    assert_eq!(unfold(&folded), b("a b\tc d"));
}

#[test]
fn unfolding_keeps_bare_line_breaks() {
    let input = b("From: x\r\nTo: y\r\n");
    assert_eq!(unfold(&input), input);
}

#[test]
fn unfolding_empty_is_empty() {
    assert_eq!(unfold(&b("")), b(""));
}

#[test]
fn envelope_full_header_renders_every_line() {
    // The fields of the second scripted scenario.
    let payload = b("From: a@x\r\nTo: b@y\r\nDate: d\r\nSubject: s\r\n");
    let header = EnvelopeHeader::parse(&payload).unwrap();
    assert_eq!(header.render(), b("From: a@x\nTo: b@y\nDate: d\nSubject: s\n"));
}

#[test]
fn envelope_missing_subject_gets_default() {
    let payload = b("From: a@x\r\nTo: b@y\r\nDate: d\r\n");
    let header = EnvelopeHeader::parse(&payload).unwrap();
    assert_eq!(header.render(), b("From: a@x\nTo: b@y\nDate: d\nSubject: <No subject>\n"));
}

#[test]
fn envelope_missing_to_renders_bare_colon() {
    // The To: line carries no space when the recipient is absent.
    let payload = b("From: a@x\r\nDate: d\r\nSubject: s\r\n");
    let header = EnvelopeHeader::parse(&payload).unwrap();
    assert_eq!(header.render(), b("From: a@x\nTo:\nDate: d\nSubject: s\n"));
}

#[test]
fn envelope_field_names_read_case_insensitively() {
    let payload = b("FROM: a\r\nto: b\r\nDaTe: c\r\nSUBJECT: d\r\n");
    let header = EnvelopeHeader::parse(&payload).unwrap();
    assert_eq!(header.render(), b("From: a\nTo: b\nDate: c\nSubject: d\n"));
}

#[test]
fn envelope_unknown_field_is_malformed() {
    let payload = b("From: a\r\nReply-To: b\r\n");
    assert_eq!(EnvelopeHeader::parse(&payload).unwrap_err(), Error::MalformedHeader);
}

#[test]
fn envelope_field_without_separator_is_malformed() {
    let payload = b("From a@x\r\n");
    assert_eq!(EnvelopeHeader::parse(&payload).unwrap_err(), Error::MalformedHeader);
}

#[test]
fn envelope_empty_payload_is_malformed() {
    // Trimming an all-whitespace payload leaves one empty field, which has
    // no `": "` separator.
    assert_eq!(EnvelopeHeader::parse(&b("\r\n")).unwrap_err(), Error::MalformedHeader);
}

#[test]
fn envelope_later_field_overwrites_earlier() {
    let payload = b("From: one\r\nFrom: two\r\nDate: d\r\n");
    let header = EnvelopeHeader::parse(&payload).unwrap();
    assert_eq!(header.render(), b("From: two\nTo:\nDate: d\nSubject: <No subject>\n"));
}
