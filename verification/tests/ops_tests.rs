use imap_client::error::Error;
use imap_client::ops::{
    first_plain_index, list_render, mime_header_check, mime_payload, parse_render,
    retrieve_payload,
};

fn b(s: &str) -> Vec<u8> {
    s.as_bytes().to_vec()
}

fn fetch_line(prefix: &str, literal: &[u8]) -> Vec<u8> {
    let mut line = b(prefix);
    line.extend_from_slice(format!("{{{}}}\r\n", literal.len()).as_bytes());
    line.extend_from_slice(literal);
    line
}

#[test]
fn retrieve_extracts_the_declared_literal() {
    // The first scripted scenario: BODY[] carries the 5-octet literal
    // `hello`, which must come out byte-for-byte.
    let group = vec![fetch_line("* 1 FETCH (BODY[] ", b"hello"), b("rtag OK FETCH\r\n")];
    assert_eq!(retrieve_payload(&group).unwrap(), b"hello");
}

#[test]
fn retrieve_keeps_binary_payload_bytes() {
    let payload = vec![0u8, b'\r', b'\n', 0xFF, b'{'];
    let group = vec![fetch_line("* 1 FETCH (BODY[] ", &payload), b("rtag OK\r\n")];
    assert_eq!(retrieve_payload(&group).unwrap(), payload);
}

#[test]
fn retrieve_clamps_a_short_line() {
    // The line declares more octets than it holds; what is there comes out.
    let group = vec![b("* 1 FETCH (BODY[] {99}\r\nhi"), b("rtag OK\r\n")];
    assert_eq!(retrieve_payload(&group).unwrap(), b"hi");
}

#[test]
fn retrieve_of_empty_group_is_infallible() {
    let group: Vec<Vec<u8>> = Vec::new();
    assert_eq!(retrieve_payload(&group).unwrap_err(), Error::Infallible);
}

#[test]
fn mime_payload_extracts_exact_range() {
    let group = vec![fetch_line("* 1 FETCH (BODY[2] ", b"BODY"), b("mtag OK\r\n")];
    assert_eq!(mime_payload(&group).unwrap(), b"BODY");
}

#[test]
fn mime_payload_rejects_short_line() {
    let group = vec![b("* 1 FETCH (BODY[2] {99}\r\nhi"), b("mtag OK\r\n")];
    assert_eq!(mime_payload(&group).unwrap_err(), Error::Infallible);
}

#[test]
fn parse_renders_envelope_from_group() {
    let group = vec![
        fetch_line("* 1 FETCH (BODY[HEADER.FIELDS (FROM TO DATE SUBJECT)] ",
            b"From: a@x\r\nTo: b@y\r\nDate: d\r\nSubject: s\r\n"),
        b("ptag OK FETCH\r\n"),
    ];
    assert_eq!(parse_render(&group).unwrap(), b("From: a@x\nTo: b@y\nDate: d\nSubject: s\n"));
}

#[test]
fn parse_missing_subject_renders_default() {
    // The third scripted scenario: the payload omits Subject.
    let group = vec![
        fetch_line("* 1 FETCH (BODY[HEADER.FIELDS (FROM TO DATE SUBJECT)] ",
            b"From: a@x\r\nTo: b@y\r\nDate: d\r\n"),
        b("ptag OK FETCH\r\n"),
    ];
    assert_eq!(
        parse_render(&group).unwrap(),
        b("From: a@x\nTo: b@y\nDate: d\nSubject: <No subject>\n")
    );
}

#[test]
fn parse_without_marker_is_infallible() {
    let group = vec![b("* 1 FETCH nothing\r\n"), b("ptag OK\r\n")];
    assert_eq!(parse_render(&group).unwrap_err(), Error::Infallible);
}

#[test]
fn parse_bad_header_is_malformed() {
    let group = vec![
        fetch_line("* 1 FETCH (BODY[HEADER.FIELDS (FROM TO DATE SUBJECT)] ", b"What: ever\r\n"),
        b("ptag OK\r\n"),
    ];
    assert_eq!(parse_render(&group).unwrap_err(), Error::MalformedHeader);
}

#[test]
fn list_two_messages_with_and_without_subject() {
    // The fourth scripted scenario: subjects `hi` and (absent). The tagged
    // completion line carries no literal and is passed over; the walk
    // succeeds with one entry per untagged line.
    let group = vec![
        fetch_line("* 1 FETCH (BODY[HEADER.FIELDS (SUBJECT)] ", b"Subject: hi\r\n\r\n"),
        fetch_line("* 2 FETCH (BODY[HEADER.FIELDS (SUBJECT)] ", b"\r\n"),
        b("ltag OK FETCH\r\n"),
    ];
    let (out, verdict) = list_render(&group);
    assert_eq!(out, b("1: hi\n2: <No subject>\n"));
    assert!(verdict.is_ok());
}

#[test]
fn list_fails_at_malformed_untagged_line() {
    // An untagged line without a `}` CR LF marker is the malformed-header
    // error; the entries rendered before it are kept.
    let group = vec![
        fetch_line("* 1 FETCH (BODY[HEADER.FIELDS (SUBJECT)] ", b"Subject: hi\r\n"),
        b("* 2 FETCH no literal here\r\n"),
        b("ltag OK FETCH\r\n"),
    ];
    let (out, verdict) = list_render(&group);
    assert_eq!(out, b("1: hi\n"));
    assert_eq!(verdict.unwrap_err(), Error::MalformedHeader);
}

#[test]
fn list_of_marked_lines_only_succeeds() {
    let group = vec![
        fetch_line("* 1 FETCH (BODY[HEADER.FIELDS (SUBJECT)] ", b"Subject: one\r\n"),
        fetch_line("* 2 FETCH (BODY[HEADER.FIELDS (SUBJECT)] ", b"Subject: two\r\n"),
    ];
    let (out, verdict) = list_render(&group);
    assert_eq!(out, b("1: one\n2: two\n"));
    assert!(verdict.is_ok());
}

#[test]
fn list_folded_subject_is_unfolded() {
    let group = vec![
        fetch_line("* 1 FETCH (BODY[HEADER.FIELDS (SUBJECT)] ", b"Subject: one\r\n two\r\n"),
    ];
    let (out, verdict) = list_render(&group);
    assert_eq!(out, b("1: one two\n"));
    assert!(verdict.is_ok());
}

#[test]
fn mime_header_accepted_when_markers_present() {
    let group = vec![
        fetch_line("* 1 FETCH (BODY[HEADER.FIELDS (MIME-Version Content-type)] ",
            b"MIME-Version: 1.0\r\nContent-Type: multipart/alternative; boundary=xyz\r\n"),
        b("mhvtag OK\r\n"),
    ];
    assert!(mime_header_check(&group).is_ok());
}

#[test]
fn mime_header_wrong_version_fails_match() {
    let group = vec![
        fetch_line("* 1 FETCH (BODY[HEADER.FIELDS (MIME-Version Content-type)] ",
            b"MIME-Version: 2.3\r\nContent-Type: multipart/alternative; boundary=xyz\r\n"),
        b("mhvtag OK\r\n"),
    ];
    assert_eq!(mime_header_check(&group).unwrap_err(), Error::MimeHeaderMatchFail);
}

#[test]
fn mime_header_wrong_content_type_fails_match() {
    let group = vec![
        fetch_line("* 1 FETCH (BODY[HEADER.FIELDS (MIME-Version Content-type)] ",
            b"MIME-Version: 1.0\r\nContent-Type: text/plain\r\n"),
        b("mhvtag OK\r\n"),
    ];
    assert_eq!(mime_header_check(&group).unwrap_err(), Error::MimeHeaderMatchFail);
}

#[test]
fn mime_header_single_field_is_malformed() {
    let group = vec![
        fetch_line("* 1 FETCH (BODY[HEADER.FIELDS (MIME-Version Content-type)] ",
            b"MIME-Version: 1.0"),
        b("mhvtag OK\r\n"),
    ];
    assert_eq!(mime_header_check(&group).unwrap_err(), Error::MalformedHeader);
}

#[test]
fn first_plain_index_counts_preceding_parts() {
    // The fifth scripted scenario: one non-plain part stands before the
    // 7bit text/plain descriptor, so the index is 2.
    let line = b("* 1 FETCH (BODYSTRUCTURE ((\"text\" \"html\" (\"charset\" \"UTF-8\") NIL NIL \"7bit\" 100 5)(\"text\" \"plain\" (\"charset\" \"UTF-8\") NIL NIL \"7bit\" 200 9) \"alternative\"))\r\n");
    let group = vec![line, b("mbvtag OK\r\n")];
    assert_eq!(first_plain_index(&group).unwrap(), 2);
}

#[test]
fn first_plain_index_without_separator_is_one() {
    let line = b("* 1 FETCH (BODYSTRUCTURE (\"text\" \"plain\" (\"charset\" \"UTF-8\") NIL NIL \"8bit\" 3 1))\r\n");
    let group = vec![line, b("mbvtag OK\r\n")];
    assert_eq!(first_plain_index(&group).unwrap(), 1);
}

#[test]
fn first_plain_index_counts_three_separators() {
    // Three `)(` separators stand before the quoted-printable descriptor,
    // so the index is 4.
    let line = b("* 1 FETCH (BODYSTRUCTURE ((\"a\" \"b\")(\"c\" \"d\")(\"e\" \"f\")(\"text\" \"plain\" (\"charset\" \"UTF-8\") NIL NIL \"quoted-printable\")))\r\n");
    let group = vec![line, b("mbvtag OK\r\n")];
    assert_eq!(first_plain_index(&group).unwrap(), 4);
}

#[test]
fn first_plain_index_takes_earliest_descriptor() {
    let line = b("* 1 FETCH (BODYSTRUCTURE ((\"text\" \"plain\" (\"charset\" \"UTF-8\") NIL NIL \"8bit\")(\"text\" \"plain\" (\"charset\" \"UTF-8\") NIL NIL \"7bit\")))\r\n");
    let group = vec![line, b("mbvtag OK\r\n")];
    assert_eq!(first_plain_index(&group).unwrap(), 1);
}

#[test]
fn no_plain_part_fails_match() {
    let line = b("* 1 FETCH (BODYSTRUCTURE (\"text\" \"html\" (\"charset\" \"UTF-8\") NIL NIL \"7bit\"))\r\n");
    let group = vec![line, b("mbvtag OK\r\n")];
    assert_eq!(first_plain_index(&group).unwrap_err(), Error::MimeMatchFail);
}
