use imap_client::error::Error;
use imap_client::framer::{parse_literal_length, FramerStep, GroupReader};

fn b(s: &str) -> Vec<u8> {
    s.as_bytes().to_vec()
}

#[test]
fn literal_roundtrip_with_binary_bytes() {
    // An untagged line declaring a 5-octet literal holding CR, LF and NUL:
    // the literal must come back verbatim, appended after the marker.
    let mut reader = GroupReader::new(b("rtag"));
    let line = b("* 1 FETCH (BODY[] {5}\r\n");
    let step = reader.on_line(line.clone()).unwrap();
    match step {
        FramerStep::NeedLiteral(n) => assert_eq!(n, 5),
        _ => panic!("expected a literal request"),
    }
    assert!(reader.is_awaiting());
    let payload = vec![b'h', 0u8, b'\r', b'\n', b'x'];
    let step = reader.on_literal(payload.clone());
    assert!(matches!(step, FramerStep::NeedLine));
    // The closing line of the FETCH response is neither untagged nor tagged.
    let step = reader.on_line(b(")\r\n")).unwrap();
    assert!(matches!(step, FramerStep::NeedLine));
    let step = reader.on_line(b("rtag OK FETCH\r\n")).unwrap();
    match step {
        FramerStep::Done(group) => {
            assert_eq!(group.len(), 2);
            let mut expected = line.clone();
            expected.extend_from_slice(&payload);
            assert_eq!(group[0], expected);
            let tail = &group[0][group[0].len() - 5..];
            assert_eq!(tail, &payload[..]);
            assert_eq!(group[1], b("rtag OK FETCH\r\n"));
        },
        _ => panic!("expected a finished group"),
    }
}

#[test]
fn tag_discrimination_ignores_other_tags() {
    // A completion line for a different tag is discarded; only the expected
    // tag ends the group.
    let mut reader = GroupReader::new(b("t1"));
    let step = reader.on_line(b("t2 OK other\r\n")).unwrap();
    assert!(matches!(step, FramerStep::NeedLine));
    let step = reader.on_line(b("t1x OK prefixed\r\n")).unwrap();
    assert!(matches!(step, FramerStep::NeedLine));
    let step = reader.on_line(b("t1 OK mine\r\n")).unwrap();
    match step {
        FramerStep::Done(group) => {
            assert_eq!(group.len(), 1);
            assert_eq!(group[0], b("t1 OK mine\r\n"));
        },
        _ => panic!("expected a finished group"),
    }
}

#[test]
fn untagged_line_without_literal_is_collected() {
    let mut reader = GroupReader::new(b("atag"));
    let step = reader.on_line(b("* 3 EXISTS\r\n")).unwrap();
    assert!(matches!(step, FramerStep::NeedLine));
    let step = reader.on_line(b("atag OK done\r\n")).unwrap();
    match step {
        FramerStep::Done(group) => {
            assert_eq!(group.len(), 2);
            assert_eq!(group[0], b("* 3 EXISTS\r\n"));
        },
        _ => panic!("expected a finished group"),
    }
}

#[test]
fn malformed_literal_declaration_is_infallible() {
    // The closing brace comes before the opening one, so the declared
    // decimal cannot be read.
    let mut reader = GroupReader::new(b("atag"));
    let r = reader.on_line(b("* x }\r\n{\r\n"));
    assert_eq!(r.unwrap_err(), Error::Infallible);
}

#[test]
fn parse_literal_length_reads_offset_and_count() {
    let line = b("* 1 FETCH (BODY[] {5}\r\nhello");
    let (off, n) = parse_literal_length(&line).unwrap();
    assert_eq!(n, 5);
    assert_eq!(&line[off..off + n], b"hello");
}

#[test]
fn parse_literal_length_rejects_missing_braces() {
    assert_eq!(parse_literal_length(&b("* 1 FETCH\r\n")).unwrap_err(), Error::Infallible);
    assert_eq!(parse_literal_length(&b("* {x}\r\n")).unwrap_err(), Error::Infallible);
    assert_eq!(parse_literal_length(&b("* {}\r\n")).unwrap_err(), Error::Infallible);
}

#[test]
fn line_with_brace_but_no_marker_is_plain_text() {
    // A `{` without a closing `}` CR LF is ordinary text: the line is
    // collected as it is.
    let mut reader = GroupReader::new(b("atag"));
    let step = reader.on_line(b("* note { brace\r\n")).unwrap();
    assert!(matches!(step, FramerStep::NeedLine));
    assert!(!reader.is_awaiting());
    let step = reader.on_line(b("atag OK\r\n")).unwrap();
    match step {
        FramerStep::Done(group) => assert_eq!(group.len(), 2),
        _ => panic!("expected a finished group"),
    }
}
