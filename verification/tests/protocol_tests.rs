use imap_client::bytes_util::{format_decimal, parse_u32, trim_bytes, to_lower_vec, find_sub,
    parse_decimal};
use imap_client::protocol::{bodystructure_command, list_command, login_command,
    mime_fetch_command, mime_header_command, parse_command, retrieve_command, select_command};

fn b(s: &str) -> Vec<u8> {
    s.as_bytes().to_vec()
}

#[test]
fn login_command_quotes_credentials() {
    let cmd = login_command(&b("u"), &b("p\"w"));
    assert_eq!(cmd, b("logtag LOGIN \"u\" \"p\\\"w\"\r\n"));
}

#[test]
fn select_command_defaults_to_inbox() {
    assert_eq!(select_command(None), b("ftag SELECT \"Inbox\"\r\n"));
    assert_eq!(select_command(Some(&b("Work"))), b("ftag SELECT \"Work\"\r\n"));
}

#[test]
fn retrieve_command_uses_number_or_star() {
    assert_eq!(retrieve_command(Some(12)), b("rtag FETCH 12 BODY.PEEK[]\r\n"));
    assert_eq!(retrieve_command(None), b("rtag FETCH * BODY.PEEK[]\r\n"));
}

#[test]
fn parse_command_names_envelope_fields() {
    assert_eq!(
        parse_command(Some(1)),
        b("ptag FETCH 1 BODY.PEEK[HEADER.FIELDS (FROM TO DATE SUBJECT)]\r\n")
    );
}

#[test]
fn list_command_walks_all_messages() {
    assert_eq!(list_command(), b("ltag FETCH 1:* BODY.PEEK[HEADER.FIELDS (SUBJECT)]\r\n"));
}

#[test]
fn mime_commands_name_their_fetches() {
    assert_eq!(
        mime_header_command(Some(2)),
        b("mhvtag FETCH 2 BODY.PEEK[HEADER.FIELDS (MIME-Version Content-type)]\r\n")
    );
    assert_eq!(bodystructure_command(None), b("mbvtag FETCH * BODYSTRUCTURE\r\n"));
    assert_eq!(mime_fetch_command(Some(2), 4), b("mtag FETCH 2 BODY.PEEK[4]\r\n"));
}

#[test]
fn decimal_rendering_is_plain() {
    assert_eq!(format_decimal(0), b("0"));
    assert_eq!(format_decimal(7), b("7"));
    assert_eq!(format_decimal(10), b("10"));
    assert_eq!(format_decimal(4294967295), b("4294967295"));
}

#[test]
fn decimal_parsing_roundtrips() {
    assert_eq!(parse_decimal(b"0"), Some(0));
    assert_eq!(parse_decimal(b"00123"), Some(123));
    assert_eq!(parse_decimal(b""), None);
    assert_eq!(parse_decimal(b"12a"), None);
    for n in [0u64, 1, 9, 10, 99, 12345] {
        let rendered = format_decimal(n);
        assert_eq!(parse_decimal(&rendered), Some(n as usize));
    }
}

#[test]
fn u32_parsing_handles_sign_and_range() {
    assert_eq!(parse_u32(b"42"), Some(42));
    assert_eq!(parse_u32(b"+42"), Some(42));
    assert_eq!(parse_u32(b"++42"), None);
    assert_eq!(parse_u32(b"-1"), None);
    assert_eq!(parse_u32(b"4294967295"), Some(u32::MAX));
    assert_eq!(parse_u32(b"4294967296"), None);
    assert_eq!(parse_u32(b"+"), None);
    assert_eq!(parse_u32(b""), None);
}

#[test]
fn trim_strips_ascii_whitespace() {
    assert_eq!(trim_bytes(b" \t\r\n x y \r\n"), b("x y"));
    assert_eq!(trim_bytes(b"   "), b(""));
    assert_eq!(trim_bytes(b"xy"), b("xy"));
}

#[test]
fn lowering_folds_ascii_only() {
    assert_eq!(to_lower_vec(&b("AbC-12")), b("abc-12"));
    let high = vec![0xC3u8, 0x84];
    assert_eq!(to_lower_vec(&high), high);
}

#[test]
fn find_sub_reports_first_occurrence() {
    assert_eq!(find_sub(b"abcabc", b"bc"), Some(1));
    assert_eq!(find_sub(b"abc", b"cd"), None);
    assert_eq!(find_sub(b"", b"a"), None);
    assert_eq!(find_sub(b"aaa", b"aa"), Some(0));
}
