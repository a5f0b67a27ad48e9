use imap_client::args::{Args, ArgsBuilder, Error as CliError};
use imap_client::cli_args::{ArgParseError, Command, InputArgs, InputArgsBuilder};

fn b(s: &str) -> Vec<u8> {
    s.as_bytes().to_vec()
}

fn argv(words: &[&str]) -> Vec<Vec<u8>> {
    words.iter().map(|w| b(w)).collect()
}

#[test]
fn full_argument_vector_parses() {
    let args = InputArgs::try_from(argv(&[
        "prog", "-u", "user", "-p", "pass", "-f", "Work", "-n", "7", "-t", "retrieve", "host",
    ]))
    .unwrap();
    assert_eq!(args.username, b("user"));
    assert_eq!(args.password, b("pass"));
    assert_eq!(args.folder, b("Work"));
    assert_eq!(args.message_num, Some(7));
    assert!(args.tls);
    assert_eq!(args.command, Command::Retrieve);
    assert_eq!(args.server_name, b("host"));
}

#[test]
fn folder_defaults_to_inbox_and_tls_to_off() {
    let args = InputArgs::try_from(argv(&["prog", "-u", "u", "-p", "p", "list", "host"])).unwrap();
    assert_eq!(args.folder, b("Inbox"));
    assert!(!args.tls);
    assert_eq!(args.message_num, None);
    assert_eq!(args.command, Command::List);
}

#[test]
fn command_word_reads_case_insensitively() {
    let args = InputArgs::try_from(argv(&["prog", "-u", "u", "-p", "p", "MIME", "host"])).unwrap();
    assert_eq!(args.command, Command::Mime);
    let args = InputArgs::try_from(argv(&["prog", "-u", "u", "-p", "p", "Parse", "host"])).unwrap();
    assert_eq!(args.command, Command::Parse);
}

#[test]
fn unknown_command_word_is_invalid() {
    let e = InputArgs::try_from(argv(&["prog", "-u", "u", "-p", "p", "delete", "host"]))
        .unwrap_err();
    assert_eq!(e, ArgParseError::Invalid);
}

#[test]
fn duplicate_flag_is_rejected() {
    let e = InputArgs::try_from(argv(&["prog", "-u", "a", "-u", "b", "list", "host"]))
        .unwrap_err();
    assert_eq!(e, ArgParseError::Duplicate);
    let e = InputArgs::try_from(argv(&["prog", "-t", "-t", "list", "host"])).unwrap_err();
    assert_eq!(e, ArgParseError::Duplicate);
}

#[test]
fn missing_required_flag_is_rejected() {
    let e = InputArgs::try_from(argv(&["prog", "-u", "u", "list", "host"])).unwrap_err();
    assert_eq!(e, ArgParseError::Missing);
}

#[test]
fn missing_server_name_is_rejected() {
    let e = InputArgs::try_from(argv(&["prog", "-u", "u", "-p", "p", "list"])).unwrap_err();
    assert_eq!(e, ArgParseError::Missing);
}

#[test]
fn missing_flag_value_is_rejected() {
    let e = InputArgs::try_from(argv(&["prog", "-u"])).unwrap_err();
    assert_eq!(e, ArgParseError::Missing);
}

#[test]
fn empty_argument_list_is_rejected() {
    let e = InputArgs::try_from(argv(&["prog"])).unwrap_err();
    assert_eq!(e, ArgParseError::Missing);
}

#[test]
fn message_number_accepts_plus_and_padding() {
    let args = InputArgs::try_from(argv(&["prog", "-n", " +042 ", "-u", "u", "-p", "p", "parse",
        "host"]))
    .unwrap();
    assert_eq!(args.message_num, Some(42));
}

#[test]
fn message_number_out_of_range_is_invalid() {
    let e = InputArgs::try_from(argv(&["prog", "-n", "4294967296", "-u", "u", "-p", "p", "parse",
        "host"]))
    .unwrap_err();
    assert_eq!(e, ArgParseError::Invalid);
    let args = InputArgs::try_from(argv(&["prog", "-n", "4294967295", "-u", "u", "-p", "p",
        "parse", "host"]))
    .unwrap();
    assert_eq!(args.message_num, Some(u32::MAX));
}

#[test]
fn message_number_with_letters_is_invalid() {
    let e = InputArgs::try_from(argv(&["prog", "-n", "x7", "-u", "u", "-p", "p", "parse", "host"]))
        .unwrap_err();
    assert_eq!(e, ArgParseError::Invalid);
}

#[test]
fn builder_setters_reject_duplicates() {
    let builder = InputArgsBuilder::default();
    let builder = builder.username(b("a")).unwrap();
    let e = builder.username(b("b")).unwrap_err();
    assert_eq!(e, ArgParseError::Duplicate);
}

#[test]
fn builder_build_requires_all_four() {
    let builder = InputArgsBuilder::default();
    let builder = builder.username(b("u")).unwrap();
    let builder = builder.password(b("p")).unwrap();
    let builder = builder.command(b("list")).unwrap();
    let e = builder.build().unwrap_err();
    assert_eq!(e, ArgParseError::Missing);
}

#[test]
fn builder_full_chain_builds_record() {
    let args = InputArgsBuilder::default()
        .username(b("u"))
        .unwrap()
        .password(b("p"))
        .unwrap()
        .folder(b("F"))
        .unwrap()
        .message_num(3)
        .unwrap()
        .tls(true)
        .unwrap()
        .command(b("retrieve"))
        .unwrap()
        .server_name(b("h"))
        .unwrap()
        .build()
        .unwrap();
    assert_eq!(args.folder, b("F"));
    assert_eq!(args.message_num, Some(3));
    assert!(args.tls);
}

#[test]
fn optional_folder_stays_unset_in_args_record() {
    // The record shape without the folder default: the connection layer
    // applies `Inbox` later.
    let args = Args::try_from(argv(&["prog", "-u", "u", "-p", "p", "list", "host"])).unwrap();
    assert_eq!(args.folder, None);
    let args = Args::try_from(argv(&["prog", "-u", "u", "-p", "p", "-f", "Work", "list", "host"]))
        .unwrap();
    assert_eq!(args.folder, Some(b("Work")));
}

#[test]
fn args_builder_mirrors_setter_contract() {
    let builder = ArgsBuilder::default().tls(false).unwrap();
    let e = builder.tls(true).unwrap_err();
    assert_eq!(e, CliError::Duplicate);
}

#[test]
fn args_record_requires_password() {
    let e = Args::try_from(argv(&["prog", "-u", "u", "retrieve", "host"])).unwrap_err();
    assert_eq!(e, CliError::Missing);
}
