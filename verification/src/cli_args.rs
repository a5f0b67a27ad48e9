//! Command-line argument handling: the configuration record, its builder
//! whose fallible setters reject duplicate flags, and the scan that turns an
//! argument vector into the record.

use vstd::prelude::*;

use crate::bytes_util::{lower_seq, to_lower_vec, trim_bytes, trim_seq, u32_dec, parse_u32, bytes_eq};
use crate::protocol::{default_folder, default_folder_vec};

verus! {

/// Why an argument vector was rejected.
#[derive(Clone, Copy, Debug, PartialEq, Eq, Structural)]
pub enum ArgParseError {
    /// A required flag or value is absent.
    Missing,
    /// A flag appeared twice.
    Duplicate,
    /// A value or the command word could not be read.
    Invalid,
}

/// The four read operations the client can perform.
#[derive(Clone, Copy, Debug, PartialEq, Eq, Structural)]
pub enum Command {
    Retrieve,
    Parse,
    Mime,
    List,
}

pub open spec fn kw_retrieve() -> Seq<u8> {
    seq!['r' as u8, 'e' as u8, 't' as u8, 'r' as u8, 'i' as u8, 'e' as u8, 'v' as u8, 'e' as u8]
}

pub open spec fn kw_parse() -> Seq<u8> {
    seq!['p' as u8, 'a' as u8, 'r' as u8, 's' as u8, 'e' as u8]
}

pub open spec fn kw_mime() -> Seq<u8> {
    seq!['m' as u8, 'i' as u8, 'm' as u8, 'e' as u8]
}

pub open spec fn kw_list() -> Seq<u8> {
    seq!['l' as u8, 'i' as u8, 's' as u8, 't' as u8]
}

/// The command named by a word, read case-insensitively; any other word is
/// invalid.
pub open spec fn command_of(s: Seq<u8>) -> Result<Command, ArgParseError> {
    let l = lower_seq(s);
    if l == kw_retrieve() {
        Ok(Command::Retrieve)
    } else if l == kw_parse() {
        Ok(Command::Parse)
    } else if l == kw_mime() {
        Ok(Command::Mime)
    } else if l == kw_list() {
        Ok(Command::List)
    } else {
        Err(ArgParseError::Invalid)
    }
}

impl Command {
    /// Reads a command word, case-insensitively.
    pub fn from_str(s: &Vec<u8>) -> (r: Result<Command, ArgParseError>)
        ensures
            r == command_of(s@),
    {
        let l = to_lower_vec(s);
        let w_retrieve: Vec<u8> = vec![
            'r' as u8,
            'e' as u8,
            't' as u8,
            'r' as u8,
            'i' as u8,
            'e' as u8,
            'v' as u8,
            'e' as u8,
        ];
        let w_parse: Vec<u8> = vec!['p' as u8, 'a' as u8, 'r' as u8, 's' as u8, 'e' as u8];
        let w_mime: Vec<u8> = vec!['m' as u8, 'i' as u8, 'm' as u8, 'e' as u8];
        let w_list: Vec<u8> = vec!['l' as u8, 'i' as u8, 's' as u8, 't' as u8];
        proof {
            assert(w_retrieve@ =~= kw_retrieve());
            assert(w_parse@ =~= kw_parse());
            assert(w_mime@ =~= kw_mime());
            assert(w_list@ =~= kw_list());
        }
        if bytes_eq(l.as_slice(), w_retrieve.as_slice()) {
            Ok(Command::Retrieve)
        } else if bytes_eq(l.as_slice(), w_parse.as_slice()) {
            Ok(Command::Parse)
        } else if bytes_eq(l.as_slice(), w_mime.as_slice()) {
            Ok(Command::Mime)
        } else if bytes_eq(l.as_slice(), w_list.as_slice()) {
            Ok(Command::List)
        } else {
            Err(ArgParseError::Invalid)
        }
    }
}

/// The mathematical value of a configuration record.
#[verifier::ext_equal]
pub struct InputArgsModel {
    pub username: Seq<u8>,
    pub password: Seq<u8>,
    pub folder: Seq<u8>,
    pub message_num: Option<u32>,
    pub tls: bool,
    pub command: Command,
    pub server_name: Seq<u8>,
}

/// The configuration of one invocation, as read from the command line.
#[derive(Debug)]
pub struct InputArgs {
    pub username: Vec<u8>,
    pub password: Vec<u8>,
    pub folder: Vec<u8>,
    pub message_num: Option<u32>,
    pub tls: bool,
    pub command: Command,
    pub server_name: Vec<u8>,
}

impl View for InputArgs {
    type V = InputArgsModel;

    open spec fn view(&self) -> InputArgsModel {
        InputArgsModel {
            username: self.username@,
            password: self.password@,
            folder: self.folder@,
            message_num: self.message_num,
            tls: self.tls,
            command: self.command,
            server_name: self.server_name@,
        }
    }
}

/// The mathematical value of a builder in progress.
#[verifier::ext_equal]
pub struct BuilderModel {
    pub username: Option<Seq<u8>>,
    pub password: Option<Seq<u8>>,
    pub folder: Option<Seq<u8>>,
    pub message_num: Option<u32>,
    pub tls: Option<bool>,
    pub command: Option<Command>,
    pub server_name: Option<Seq<u8>>,
}

/// The builder before any flag has been seen.
pub open spec fn empty_builder() -> BuilderModel {
    BuilderModel {
        username: None,
        password: None,
        folder: None,
        message_num: None,
        tls: None,
        command: None,
        server_name: None,
    }
}

/// Collects the configuration one flag at a time; each setter rejects a
/// flag that was already given.
#[derive(Debug)]
pub struct InputArgsBuilder {
    pub username: Option<Vec<u8>>,
    pub password: Option<Vec<u8>>,
    pub folder: Option<Vec<u8>>,
    pub message_num: Option<u32>,
    pub tls: Option<bool>,
    pub command: Option<Command>,
    pub server_name: Option<Vec<u8>>,
}

pub open spec fn opt_view(o: Option<Vec<u8>>) -> Option<Seq<u8>> {
    match o {
        Some(v) => Some(v@),
        None => None,
    }
}

impl View for InputArgsBuilder {
    type V = BuilderModel;

    open spec fn view(&self) -> BuilderModel {
        BuilderModel {
            username: opt_view(self.username),
            password: opt_view(self.password),
            folder: opt_view(self.folder),
            message_num: self.message_num,
            tls: self.tls,
            command: self.command,
            server_name: opt_view(self.server_name),
        }
    }
}

impl Default for InputArgsBuilder {
    /// The builder with every slot empty.
    fn default() -> (r: InputArgsBuilder)
        ensures
            r@ == empty_builder(),
    {
        let r = InputArgsBuilder {
            username: None,
            password: None,
            folder: None,
            message_num: None,
            tls: None,
            command: None,
            server_name: None,
        };
        proof {
            assert(r@ =~= empty_builder());
        }
        r
    }
}

/// What a finished builder yields: the record when the four required slots
/// are filled — the folder defaulting to `Inbox` and TLS to off — and the
/// missing-argument error otherwise.
pub open spec fn build_spec(b: BuilderModel) -> Result<InputArgsModel, ArgParseError> {
    if b.username is None {
        Err(ArgParseError::Missing)
    } else if b.password is None {
        Err(ArgParseError::Missing)
    } else if b.command is None {
        Err(ArgParseError::Missing)
    } else if b.server_name is None {
        Err(ArgParseError::Missing)
    } else {
        Ok(
            InputArgsModel {
                username: b.username.unwrap(),
                password: b.password.unwrap(),
                folder: match b.folder {
                    Some(f) => f,
                    None => default_folder(),
                },
                message_num: b.message_num,
                tls: match b.tls {
                    Some(t) => t,
                    None => false,
                },
                command: b.command.unwrap(),
                server_name: b.server_name.unwrap(),
            },
        )
    }
}

impl InputArgsBuilder {
    /// Sets the username; a second `-u` is a duplicate.
    pub fn username(self, username: Vec<u8>) -> (r: Result<InputArgsBuilder, ArgParseError>)
        ensures
            match r {
                Ok(b) => self.username is None && b@ == (BuilderModel {
                    username: Some(username@),
                    ..self@
                }),
                Err(e) => e == ArgParseError::Duplicate && self.username is Some,
            },
    {
        if self.username.is_some() {
            Err(ArgParseError::Duplicate)
        } else {
            let b = InputArgsBuilder { username: Some(username), ..self };
            proof {
                assert(b@ =~= (BuilderModel { username: Some(username@), ..self@ }));
            }
            Ok(b)
        }
    }

    /// Sets the password; a second `-p` is a duplicate.
    pub fn password(self, password: Vec<u8>) -> (r: Result<InputArgsBuilder, ArgParseError>)
        ensures
            match r {
                Ok(b) => self.password is None && b@ == (BuilderModel {
                    password: Some(password@),
                    ..self@
                }),
                Err(e) => e == ArgParseError::Duplicate && self.password is Some,
            },
    {
        if self.password.is_some() {
            Err(ArgParseError::Duplicate)
        } else {
            let b = InputArgsBuilder { password: Some(password), ..self };
            proof {
                assert(b@ =~= (BuilderModel { password: Some(password@), ..self@ }));
            }
            Ok(b)
        }
    }

    /// Sets the folder; a second `-f` is a duplicate.
    pub fn folder(self, folder: Vec<u8>) -> (r: Result<InputArgsBuilder, ArgParseError>)
        ensures
            match r {
                Ok(b) => self.folder is None && b@ == (BuilderModel {
                    folder: Some(folder@),
                    ..self@
                }),
                Err(e) => e == ArgParseError::Duplicate && self.folder is Some,
            },
    {
        if self.folder.is_some() {
            Err(ArgParseError::Duplicate)
        } else {
            let b = InputArgsBuilder { folder: Some(folder), ..self };
            proof {
                assert(b@ =~= (BuilderModel { folder: Some(folder@), ..self@ }));
            }
            Ok(b)
        }
    }

    /// Sets the message number; a second `-n` is a duplicate.
    pub fn message_num(self, n: u32) -> (r: Result<InputArgsBuilder, ArgParseError>)
        ensures
            match r {
                Ok(b) => self.message_num is None && b@ == (BuilderModel {
                    message_num: Some(n),
                    ..self@
                }),
                Err(e) => e == ArgParseError::Duplicate && self.message_num is Some,
            },
    {
        if self.message_num.is_some() {
            Err(ArgParseError::Duplicate)
        } else {
            let b = InputArgsBuilder { message_num: Some(n), ..self };
            proof {
                assert(b@ =~= (BuilderModel { message_num: Some(n), ..self@ }));
            }
            Ok(b)
        }
    }

    /// Sets the TLS flag; a second `-t` is a duplicate.
    pub fn tls(self, tls: bool) -> (r: Result<InputArgsBuilder, ArgParseError>)
        ensures
            match r {
                Ok(b) => self.tls is None && b@ == (BuilderModel { tls: Some(tls), ..self@ }),
                Err(e) => e == ArgParseError::Duplicate && self.tls is Some,
            },
    {
        if self.tls.is_some() {
            Err(ArgParseError::Duplicate)
        } else {
            let b = InputArgsBuilder { tls: Some(tls), ..self };
            proof {
                assert(b@ =~= (BuilderModel { tls: Some(tls), ..self@ }));
            }
            Ok(b)
        }
    }

    /// Reads and sets the command word; an unreadable word is invalid, a
    /// second command word a duplicate.
    pub fn command(self, command_str: Vec<u8>) -> (r: Result<InputArgsBuilder, ArgParseError>)
        ensures
            match r {
                Ok(b) => command_of(command_str@) matches Ok(c) && self.command is None && b@ == (
                BuilderModel { command: Some(c), ..self@ }),
                Err(e) => if command_of(command_str@) is Err {
                    e == ArgParseError::Invalid
                } else {
                    e == ArgParseError::Duplicate && self.command is Some
                },
            },
    {
        let command = match Command::from_str(&command_str) {
            Ok(c) => c,
            Err(e) => {
                return Err(e);
            },
        };
        if self.command.is_some() {
            Err(ArgParseError::Duplicate)
        } else {
            let b = InputArgsBuilder { command: Some(command), ..self };
            proof {
                assert(b@ =~= (BuilderModel { command: Some(command), ..self@ }));
            }
            Ok(b)
        }
    }

    /// Sets the server name; a second positional argument is a duplicate.
    pub fn server_name(self, server_name: Vec<u8>) -> (r: Result<InputArgsBuilder, ArgParseError>)
        ensures
            match r {
                Ok(b) => self.server_name is None && b@ == (BuilderModel {
                    server_name: Some(server_name@),
                    ..self@
                }),
                Err(e) => e == ArgParseError::Duplicate && self.server_name is Some,
            },
    {
        if self.server_name.is_some() {
            Err(ArgParseError::Duplicate)
        } else {
            let b = InputArgsBuilder { server_name: Some(server_name), ..self };
            proof {
                assert(b@ =~= (BuilderModel { server_name: Some(server_name@), ..self@ }));
            }
            Ok(b)
        }
    }

    /// Finishes the builder: username, password, command and server name are
    /// required; the folder defaults to `Inbox` and TLS to off.
    pub fn build(self) -> (r: Result<InputArgs, ArgParseError>)
        ensures
            match r {
                Ok(a) => build_spec(self@) == Ok::<InputArgsModel, ArgParseError>(a@),
                Err(e) => build_spec(self@) == Err::<InputArgsModel, ArgParseError>(e),
            },
    {
        let username = match self.username {
            Some(u) => u,
            None => {
                return Err(ArgParseError::Missing);
            },
        };
        let password = match self.password {
            Some(p) => p,
            None => {
                return Err(ArgParseError::Missing);
            },
        };
        let command = match self.command {
            Some(c) => c,
            None => {
                return Err(ArgParseError::Missing);
            },
        };
        let server_name = match self.server_name {
            Some(s) => s,
            None => {
                return Err(ArgParseError::Missing);
            },
        };
        let folder = match self.folder {
            Some(f) => f,
            None => default_folder_vec(),
        };
        let tls = match self.tls {
            Some(t) => t,
            None => false,
        };
        let a = InputArgs {
            username,
            password,
            folder,
            message_num: self.message_num,
            tls,
            command,
            server_name,
        };
        proof {
            assert(build_spec(self@) matches Ok(m) && m =~= a@);
        }
        Ok(a)
    }
}

pub open spec fn flag_u() -> Seq<u8> {
    seq!['-' as u8, 'u' as u8]
}

pub open spec fn flag_p() -> Seq<u8> {
    seq!['-' as u8, 'p' as u8]
}

pub open spec fn flag_f() -> Seq<u8> {
    seq!['-' as u8, 'f' as u8]
}

pub open spec fn flag_n() -> Seq<u8> {
    seq!['-' as u8, 'n' as u8]
}

pub open spec fn flag_t() -> Seq<u8> {
    seq!['-' as u8, 't' as u8]
}

/// The scan over the arguments after the program name: each `-u`, `-p`,
/// `-f`, `-n` takes the following argument as its value, `-t` stands alone,
/// and the first other word is the command, followed by the server name;
/// running out of arguments is the missing-argument error.
pub open spec fn parse_loop(rest: Seq<Seq<u8>>, b: BuilderModel) -> Result<
    InputArgsModel,
    ArgParseError,
>
    decreases rest.len(),
{
    if rest.len() == 0 {
        Err(ArgParseError::Missing)
    } else {
        let a = rest[0];
        if a == flag_u() {
            if rest.len() < 2 {
                Err(ArgParseError::Missing)
            } else if b.username is Some {
                Err(ArgParseError::Duplicate)
            } else {
                parse_loop(rest.skip(2), BuilderModel { username: Some(rest[1]), ..b })
            }
        } else if a == flag_p() {
            if rest.len() < 2 {
                Err(ArgParseError::Missing)
            } else if b.password is Some {
                Err(ArgParseError::Duplicate)
            } else {
                parse_loop(rest.skip(2), BuilderModel { password: Some(rest[1]), ..b })
            }
        } else if a == flag_f() {
            if rest.len() < 2 {
                Err(ArgParseError::Missing)
            } else if b.folder is Some {
                Err(ArgParseError::Duplicate)
            } else {
                parse_loop(rest.skip(2), BuilderModel { folder: Some(rest[1]), ..b })
            }
        } else if a == flag_n() {
            if rest.len() < 2 {
                Err(ArgParseError::Missing)
            } else {
                match u32_dec(trim_seq(rest[1])) {
                    None => Err(ArgParseError::Invalid),
                    Some(v) => if b.message_num is Some {
                        Err(ArgParseError::Duplicate)
                    } else {
                        parse_loop(rest.skip(2), BuilderModel { message_num: Some(v), ..b })
                    },
                }
            }
        } else if a == flag_t() {
            if b.tls is Some {
                Err(ArgParseError::Duplicate)
            } else {
                parse_loop(rest.skip(1), BuilderModel { tls: Some(true), ..b })
            }
        } else {
            match command_of(a) {
                Err(e) => Err(e),
                Ok(c) => if b.command is Some {
                    Err(ArgParseError::Duplicate)
                } else if rest.len() < 2 {
                    Err(ArgParseError::Missing)
                } else if b.server_name is Some {
                    Err(ArgParseError::Duplicate)
                } else {
                    build_spec(
                        BuilderModel { command: Some(c), server_name: Some(rest[1]), ..b },
                    )
                },
            }
        }
    }
}

/// What an argument vector yields: the scan starts after the program name
/// with an empty builder.
pub open spec fn parse_args_spec(args: Seq<Seq<u8>>) -> Result<InputArgsModel, ArgParseError> {
    parse_loop(args.skip(1), empty_builder())
}

/// Whether an argument is a two-byte flag `-<c>`.
fn is_flag(arg: &Vec<u8>, c: u8) -> (r: bool)
    ensures
        r == (arg@ == seq!['-' as u8, c]),
{
    let r = arg.len() == 2 && arg[0] == '-' as u8 && arg[1] == c;
    proof {
        if r {
            assert(arg@ =~= seq!['-' as u8, c]);
        } else {
            if arg@ == seq!['-' as u8, c] {
                assert(arg@.len() == 2);
                assert(arg@[0] == '-' as u8);
                assert(arg@[1] == c);
            }
        }
    }
    r
}

impl InputArgs {
    /// Reads the configuration out of the full argument vector, program
    /// name first.
    pub fn try_from(args: Vec<Vec<u8>>) -> (r: Result<InputArgs, ArgParseError>)
        requires
            args@.len() >= 1,
        ensures
            match r {
                Ok(a) => parse_args_spec(args.deep_view()) == Ok::<InputArgsModel, ArgParseError>(
                    a@,
                ),
                Err(e) => parse_args_spec(args.deep_view()) == Err::<
                    InputArgsModel,
                    ArgParseError,
                >(e),
            },
    {
        let ghost dv = args.deep_view();
        let mut builder = InputArgsBuilder::default();
        let mut i: usize = 1;
        proof {
            assert(dv.skip(1) =~= dv.skip(1));
        }
        while i < args.len()
            invariant
                1 <= i <= args@.len(),
                dv == args.deep_view(),
                dv.len() == args@.len(),
                parse_loop(dv.skip(i as int), builder@) == parse_args_spec(dv),
            decreases args.len() - i,
        {
            let ghost rest = dv.skip(i as int);
            proof {
                assert(rest[0] == dv[i as int]);
                assert(dv[i as int] == args@[i as int]@);
                if i + 1 < dv.len() {
                    assert(rest[1] == dv[i + 1]);
                    assert(dv[i + 1] == args@[i + 1]@);
                }
                assert(rest.skip(1) =~= dv.skip(i + 1));
                if i + 2 <= dv.len() {
                    assert(rest.skip(2) =~= dv.skip(i + 2));
                }
            }
            let arg = &args[i];
            if is_flag(arg, 'u' as u8) {
                if i + 1 >= args.len() {
                    return Err(ArgParseError::Missing);
                }
                let value = args[i + 1].clone();
                builder = match builder.username(value) {
                    Ok(b) => b,
                    Err(e) => {
                        return Err(e);
                    },
                };
                i = i + 2;
            } else if is_flag(arg, 'p' as u8) {
                if i + 1 >= args.len() {
                    return Err(ArgParseError::Missing);
                }
                let value = args[i + 1].clone();
                builder = match builder.password(value) {
                    Ok(b) => b,
                    Err(e) => {
                        return Err(e);
                    },
                };
                i = i + 2;
            } else if is_flag(arg, 'f' as u8) {
                if i + 1 >= args.len() {
                    return Err(ArgParseError::Missing);
                }
                let value = args[i + 1].clone();
                builder = match builder.folder(value) {
                    Ok(b) => b,
                    Err(e) => {
                        return Err(e);
                    },
                };
                i = i + 2;
            } else if is_flag(arg, 'n' as u8) {
                if i + 1 >= args.len() {
                    return Err(ArgParseError::Missing);
                }
                let value = trim_bytes(args[i + 1].as_slice());
                let n = match parse_u32(value.as_slice()) {
                    Some(n) => n,
                    None => {
                        return Err(ArgParseError::Invalid);
                    },
                };
                builder = match builder.message_num(n) {
                    Ok(b) => b,
                    Err(e) => {
                        return Err(e);
                    },
                };
                i = i + 2;
            } else if is_flag(arg, 't' as u8) {
                builder = match builder.tls(true) {
                    Ok(b) => b,
                    Err(e) => {
                        return Err(e);
                    },
                };
                i = i + 1;
            } else {
                let word = arg.clone();
                let with_command = match builder.command(word) {
                    Ok(b) => b,
                    Err(e) => {
                        return Err(e);
                    },
                };
                if i + 1 >= args.len() {
                    return Err(ArgParseError::Missing);
                }
                let server = args[i + 1].clone();
                let finished = match with_command.server_name(server) {
                    Ok(b) => b,
                    Err(e) => {
                        return Err(e);
                    },
                };
                proof {
                    assert(finished@ =~= (BuilderModel {
                        command: Some(command_of(rest[0]).unwrap()),
                        server_name: Some(rest[1]),
                        ..builder@
                    }));
                }
                return finished.build();
            }
        }
        proof {
            assert(dv.skip(i as int).len() == 0);
        }
        Err(ArgParseError::Missing)
    }
}

} // verus!
