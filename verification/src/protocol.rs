//! The fixed protocol vocabulary — tags, verbs, FETCH arguments, match
//! patterns — and the builders that assemble each operation's outgoing
//! command bytes.

use vstd::prelude::*;

use crate::bytes_util::{dec_repr, format_decimal};
use crate::engine::{build_command, command_bytes};
use crate::quote::{into_quoted, quoted};

verus! {

/// The fixed tag of the LOGIN command.
pub open spec fn login_tag() -> Seq<u8> {
    seq!['l' as u8, 'o' as u8, 'g' as u8, 't' as u8, 'a' as u8, 'g' as u8]
}

/// The byte vector holding `logtag`.
pub fn login_tag_vec() -> (r: Vec<u8>)
    ensures
        r@ == login_tag(),
{
    let r: Vec<u8> = vec!['l' as u8, 'o' as u8, 'g' as u8, 't' as u8, 'a' as u8, 'g' as u8];
    proof {
        assert(r@ =~= login_tag());
    }
    r
}

/// The fixed tag of the SELECT command.
pub open spec fn folder_tag() -> Seq<u8> {
    seq!['f' as u8, 't' as u8, 'a' as u8, 'g' as u8]
}

/// The byte vector holding `ftag`.
pub fn folder_tag_vec() -> (r: Vec<u8>)
    ensures
        r@ == folder_tag(),
{
    let r: Vec<u8> = vec!['f' as u8, 't' as u8, 'a' as u8, 'g' as u8];
    proof {
        assert(r@ =~= folder_tag());
    }
    r
}

/// The fixed tag of the retrieve FETCH.
pub open spec fn retrieve_tag() -> Seq<u8> {
    seq!['r' as u8, 't' as u8, 'a' as u8, 'g' as u8]
}

/// The byte vector holding `rtag`.
pub fn retrieve_tag_vec() -> (r: Vec<u8>)
    ensures
        r@ == retrieve_tag(),
{
    let r: Vec<u8> = vec!['r' as u8, 't' as u8, 'a' as u8, 'g' as u8];
    proof {
        assert(r@ =~= retrieve_tag());
    }
    r
}

/// The fixed tag of the envelope FETCH.
pub open spec fn parse_tag() -> Seq<u8> {
    seq!['p' as u8, 't' as u8, 'a' as u8, 'g' as u8]
}

/// The byte vector holding `ptag`.
pub fn parse_tag_vec() -> (r: Vec<u8>)
    ensures
        r@ == parse_tag(),
{
    let r: Vec<u8> = vec!['p' as u8, 't' as u8, 'a' as u8, 'g' as u8];
    proof {
        assert(r@ =~= parse_tag());
    }
    r
}

/// The fixed tag of the list FETCH.
pub open spec fn list_tag() -> Seq<u8> {
    seq!['l' as u8, 't' as u8, 'a' as u8, 'g' as u8]
}

/// The byte vector holding `ltag`.
pub fn list_tag_vec() -> (r: Vec<u8>)
    ensures
        r@ == list_tag(),
{
    let r: Vec<u8> = vec!['l' as u8, 't' as u8, 'a' as u8, 'g' as u8];
    proof {
        assert(r@ =~= list_tag());
    }
    r
}

/// The fixed tag of the body-part FETCH.
pub open spec fn mime_tag() -> Seq<u8> {
    seq!['m' as u8, 't' as u8, 'a' as u8, 'g' as u8]
}

/// The byte vector holding `mtag`.
pub fn mime_tag_vec() -> (r: Vec<u8>)
    ensures
        r@ == mime_tag(),
{
    let r: Vec<u8> = vec!['m' as u8, 't' as u8, 'a' as u8, 'g' as u8];
    proof {
        assert(r@ =~= mime_tag());
    }
    r
}

/// The fixed tag of the MIME header verification FETCH.
pub open spec fn mhv_tag() -> Seq<u8> {
    seq!['m' as u8, 'h' as u8, 'v' as u8, 't' as u8, 'a' as u8, 'g' as u8]
}

/// The byte vector holding `mhvtag`.
pub fn mhv_tag_vec() -> (r: Vec<u8>)
    ensures
        r@ == mhv_tag(),
{
    let r: Vec<u8> = vec!['m' as u8, 'h' as u8, 'v' as u8, 't' as u8, 'a' as u8, 'g' as u8];
    proof {
        assert(r@ =~= mhv_tag());
    }
    r
}

/// The fixed tag of the BODYSTRUCTURE FETCH.
pub open spec fn mbv_tag() -> Seq<u8> {
    seq!['m' as u8, 'b' as u8, 'v' as u8, 't' as u8, 'a' as u8, 'g' as u8]
}

/// The byte vector holding `mbvtag`.
pub fn mbv_tag_vec() -> (r: Vec<u8>)
    ensures
        r@ == mbv_tag(),
{
    let r: Vec<u8> = vec!['m' as u8, 'b' as u8, 'v' as u8, 't' as u8, 'a' as u8, 'g' as u8];
    proof {
        assert(r@ =~= mbv_tag());
    }
    r
}

/// The LOGIN verb.
pub open spec fn verb_login() -> Seq<u8> {
    seq!['L' as u8, 'O' as u8, 'G' as u8, 'I' as u8, 'N' as u8]
}

/// The byte vector holding `LOGIN`.
pub fn verb_login_vec() -> (r: Vec<u8>)
    ensures
        r@ == verb_login(),
{
    let r: Vec<u8> = vec!['L' as u8, 'O' as u8, 'G' as u8, 'I' as u8, 'N' as u8];
    proof {
        assert(r@ =~= verb_login());
    }
    r
}

/// The SELECT verb.
pub open spec fn verb_select() -> Seq<u8> {
    seq!['S' as u8, 'E' as u8, 'L' as u8, 'E' as u8, 'C' as u8, 'T' as u8]
}

/// The byte vector holding `SELECT`.
pub fn verb_select_vec() -> (r: Vec<u8>)
    ensures
        r@ == verb_select(),
{
    let r: Vec<u8> = vec!['S' as u8, 'E' as u8, 'L' as u8, 'E' as u8, 'C' as u8, 'T' as u8];
    proof {
        assert(r@ =~= verb_select());
    }
    r
}

/// The FETCH verb.
pub open spec fn verb_fetch() -> Seq<u8> {
    seq!['F' as u8, 'E' as u8, 'T' as u8, 'C' as u8, 'H' as u8]
}

/// The byte vector holding `FETCH`.
pub fn verb_fetch_vec() -> (r: Vec<u8>)
    ensures
        r@ == verb_fetch(),
{
    let r: Vec<u8> = vec!['F' as u8, 'E' as u8, 'T' as u8, 'C' as u8, 'H' as u8];
    proof {
        assert(r@ =~= verb_fetch());
    }
    r
}

/// The argument fetching the full raw message.
pub open spec fn arg_body_peek() -> Seq<u8> {
    seq!['B' as u8, 'O' as u8, 'D' as u8, 'Y' as u8, '.' as u8, 'P' as u8, 'E' as u8, 'E' as u8, 'K' as u8, '[' as u8, ']' as u8]
}

/// The byte vector holding `BODY.PEEK[]`.
pub fn arg_body_peek_vec() -> (r: Vec<u8>)
    ensures
        r@ == arg_body_peek(),
{
    let r: Vec<u8> = vec!['B' as u8, 'O' as u8, 'D' as u8, 'Y' as u8, '.' as u8, 'P' as u8, 'E' as u8, 'E' as u8, 'K' as u8, '[' as u8, ']' as u8];
    proof {
        assert(r@ =~= arg_body_peek());
    }
    r
}

/// The argument fetching the envelope header fields.
pub open spec fn arg_envelope_fields() -> Seq<u8> {
    seq!['B' as u8, 'O' as u8, 'D' as u8, 'Y' as u8, '.' as u8, 'P' as u8, 'E' as u8, 'E' as u8, 'K' as u8, '[' as u8, 'H' as u8, 'E' as u8, 'A' as u8, 'D' as u8, 'E' as u8, 'R' as u8, '.' as u8, 'F' as u8, 'I' as u8, 'E' as u8, 'L' as u8, 'D' as u8, 'S' as u8, ' ' as u8, '(' as u8, 'F' as u8, 'R' as u8, 'O' as u8, 'M' as u8, ' ' as u8, 'T' as u8, 'O' as u8, ' ' as u8, 'D' as u8, 'A' as u8, 'T' as u8, 'E' as u8, ' ' as u8, 'S' as u8, 'U' as u8, 'B' as u8, 'J' as u8, 'E' as u8, 'C' as u8, 'T' as u8, ')' as u8, ']' as u8]
}

/// The byte vector holding `BODY.PEEK[HEADER.FIELDS (FROM TO DATE SUBJECT)]`.
pub fn arg_envelope_fields_vec() -> (r: Vec<u8>)
    ensures
        r@ == arg_envelope_fields(),
{
    let r: Vec<u8> = vec!['B' as u8, 'O' as u8, 'D' as u8, 'Y' as u8, '.' as u8, 'P' as u8, 'E' as u8, 'E' as u8, 'K' as u8, '[' as u8, 'H' as u8, 'E' as u8, 'A' as u8, 'D' as u8, 'E' as u8, 'R' as u8, '.' as u8, 'F' as u8, 'I' as u8, 'E' as u8, 'L' as u8, 'D' as u8, 'S' as u8, ' ' as u8, '(' as u8, 'F' as u8, 'R' as u8, 'O' as u8, 'M' as u8, ' ' as u8, 'T' as u8, 'O' as u8, ' ' as u8, 'D' as u8, 'A' as u8, 'T' as u8, 'E' as u8, ' ' as u8, 'S' as u8, 'U' as u8, 'B' as u8, 'J' as u8, 'E' as u8, 'C' as u8, 'T' as u8, ')' as u8, ']' as u8];
    proof {
        assert(r@ =~= arg_envelope_fields());
    }
    r
}

/// The sequence-set argument naming every message.
pub open spec fn arg_all_messages() -> Seq<u8> {
    seq!['1' as u8, ':' as u8, '*' as u8]
}

/// The byte vector holding `1:*`.
pub fn arg_all_messages_vec() -> (r: Vec<u8>)
    ensures
        r@ == arg_all_messages(),
{
    let r: Vec<u8> = vec!['1' as u8, ':' as u8, '*' as u8];
    proof {
        assert(r@ =~= arg_all_messages());
    }
    r
}

/// The argument fetching only the Subject header field.
pub open spec fn arg_subject_fields() -> Seq<u8> {
    seq!['B' as u8, 'O' as u8, 'D' as u8, 'Y' as u8, '.' as u8, 'P' as u8, 'E' as u8, 'E' as u8, 'K' as u8, '[' as u8, 'H' as u8, 'E' as u8, 'A' as u8, 'D' as u8, 'E' as u8, 'R' as u8, '.' as u8, 'F' as u8, 'I' as u8, 'E' as u8, 'L' as u8, 'D' as u8, 'S' as u8, ' ' as u8, '(' as u8, 'S' as u8, 'U' as u8, 'B' as u8, 'J' as u8, 'E' as u8, 'C' as u8, 'T' as u8, ')' as u8, ']' as u8]
}

/// The byte vector holding `BODY.PEEK[HEADER.FIELDS (SUBJECT)]`.
pub fn arg_subject_fields_vec() -> (r: Vec<u8>)
    ensures
        r@ == arg_subject_fields(),
{
    let r: Vec<u8> = vec!['B' as u8, 'O' as u8, 'D' as u8, 'Y' as u8, '.' as u8, 'P' as u8, 'E' as u8, 'E' as u8, 'K' as u8, '[' as u8, 'H' as u8, 'E' as u8, 'A' as u8, 'D' as u8, 'E' as u8, 'R' as u8, '.' as u8, 'F' as u8, 'I' as u8, 'E' as u8, 'L' as u8, 'D' as u8, 'S' as u8, ' ' as u8, '(' as u8, 'S' as u8, 'U' as u8, 'B' as u8, 'J' as u8, 'E' as u8, 'C' as u8, 'T' as u8, ')' as u8, ']' as u8];
    proof {
        assert(r@ =~= arg_subject_fields());
    }
    r
}

/// The argument fetching the MIME header fields.
pub open spec fn arg_mime_fields() -> Seq<u8> {
    seq!['B' as u8, 'O' as u8, 'D' as u8, 'Y' as u8, '.' as u8, 'P' as u8, 'E' as u8, 'E' as u8, 'K' as u8, '[' as u8, 'H' as u8, 'E' as u8, 'A' as u8, 'D' as u8, 'E' as u8, 'R' as u8, '.' as u8, 'F' as u8, 'I' as u8, 'E' as u8, 'L' as u8, 'D' as u8, 'S' as u8, ' ' as u8, '(' as u8, 'M' as u8, 'I' as u8, 'M' as u8, 'E' as u8, '-' as u8, 'V' as u8, 'e' as u8, 'r' as u8, 's' as u8, 'i' as u8, 'o' as u8, 'n' as u8, ' ' as u8, 'C' as u8, 'o' as u8, 'n' as u8, 't' as u8, 'e' as u8, 'n' as u8, 't' as u8, '-' as u8, 't' as u8, 'y' as u8, 'p' as u8, 'e' as u8, ')' as u8, ']' as u8]
}

/// The byte vector holding `BODY.PEEK[HEADER.FIELDS (MIME-Version Content-type)]`.
pub fn arg_mime_fields_vec() -> (r: Vec<u8>)
    ensures
        r@ == arg_mime_fields(),
{
    let r: Vec<u8> = vec!['B' as u8, 'O' as u8, 'D' as u8, 'Y' as u8, '.' as u8, 'P' as u8, 'E' as u8, 'E' as u8, 'K' as u8, '[' as u8, 'H' as u8, 'E' as u8, 'A' as u8, 'D' as u8, 'E' as u8, 'R' as u8, '.' as u8, 'F' as u8, 'I' as u8, 'E' as u8, 'L' as u8, 'D' as u8, 'S' as u8, ' ' as u8, '(' as u8, 'M' as u8, 'I' as u8, 'M' as u8, 'E' as u8, '-' as u8, 'V' as u8, 'e' as u8, 'r' as u8, 's' as u8, 'i' as u8, 'o' as u8, 'n' as u8, ' ' as u8, 'C' as u8, 'o' as u8, 'n' as u8, 't' as u8, 'e' as u8, 'n' as u8, 't' as u8, '-' as u8, 't' as u8, 'y' as u8, 'p' as u8, 'e' as u8, ')' as u8, ']' as u8];
    proof {
        assert(r@ =~= arg_mime_fields());
    }
    r
}

/// The argument fetching the MIME tree description.
pub open spec fn arg_bodystructure() -> Seq<u8> {
    seq!['B' as u8, 'O' as u8, 'D' as u8, 'Y' as u8, 'S' as u8, 'T' as u8, 'R' as u8, 'U' as u8, 'C' as u8, 'T' as u8, 'U' as u8, 'R' as u8, 'E' as u8]
}

/// The byte vector holding `BODYSTRUCTURE`.
pub fn arg_bodystructure_vec() -> (r: Vec<u8>)
    ensures
        r@ == arg_bodystructure(),
{
    let r: Vec<u8> = vec!['B' as u8, 'O' as u8, 'D' as u8, 'Y' as u8, 'S' as u8, 'T' as u8, 'R' as u8, 'U' as u8, 'C' as u8, 'T' as u8, 'U' as u8, 'R' as u8, 'E' as u8];
    proof {
        assert(r@ =~= arg_bodystructure());
    }
    r
}

/// The folder opened when the caller names none.
pub open spec fn default_folder() -> Seq<u8> {
    seq!['I' as u8, 'n' as u8, 'b' as u8, 'o' as u8, 'x' as u8]
}

/// The byte vector holding `Inbox`.
pub fn default_folder_vec() -> (r: Vec<u8>)
    ensures
        r@ == default_folder(),
{
    let r: Vec<u8> = vec!['I' as u8, 'n' as u8, 'b' as u8, 'o' as u8, 'x' as u8];
    proof {
        assert(r@ =~= default_folder());
    }
    r
}

/// A quoted-printable text/plain part descriptor.
pub open spec fn plain_qp() -> Seq<u8> {
    seq!['(' as u8, '"' as u8, 't' as u8, 'e' as u8, 'x' as u8, 't' as u8, '"' as u8, ' ' as u8, '"' as u8, 'p' as u8, 'l' as u8, 'a' as u8, 'i' as u8, 'n' as u8, '"' as u8, ' ' as u8, '(' as u8, '"' as u8, 'c' as u8, 'h' as u8, 'a' as u8, 'r' as u8, 's' as u8, 'e' as u8, 't' as u8, '"' as u8, ' ' as u8, '"' as u8, 'U' as u8, 'T' as u8, 'F' as u8, '-' as u8, '8' as u8, '"' as u8, ')' as u8, ' ' as u8, 'N' as u8, 'I' as u8, 'L' as u8, ' ' as u8, 'N' as u8, 'I' as u8, 'L' as u8, ' ' as u8, '"' as u8, 'q' as u8, 'u' as u8, 'o' as u8, 't' as u8, 'e' as u8, 'd' as u8, '-' as u8, 'p' as u8, 'r' as u8, 'i' as u8, 'n' as u8, 't' as u8, 'a' as u8, 'b' as u8, 'l' as u8, 'e' as u8, '"' as u8]
}

/// The byte vector holding `("text" "plain" ("charset" "UTF-8") NIL NIL "quoted-printable"`.
pub fn plain_qp_vec() -> (r: Vec<u8>)
    ensures
        r@ == plain_qp(),
{
    let r: Vec<u8> = vec!['(' as u8, '"' as u8, 't' as u8, 'e' as u8, 'x' as u8, 't' as u8, '"' as u8, ' ' as u8, '"' as u8, 'p' as u8, 'l' as u8, 'a' as u8, 'i' as u8, 'n' as u8, '"' as u8, ' ' as u8, '(' as u8, '"' as u8, 'c' as u8, 'h' as u8, 'a' as u8, 'r' as u8, 's' as u8, 'e' as u8, 't' as u8, '"' as u8, ' ' as u8, '"' as u8, 'U' as u8, 'T' as u8, 'F' as u8, '-' as u8, '8' as u8, '"' as u8, ')' as u8, ' ' as u8, 'N' as u8, 'I' as u8, 'L' as u8, ' ' as u8, 'N' as u8, 'I' as u8, 'L' as u8, ' ' as u8, '"' as u8, 'q' as u8, 'u' as u8, 'o' as u8, 't' as u8, 'e' as u8, 'd' as u8, '-' as u8, 'p' as u8, 'r' as u8, 'i' as u8, 'n' as u8, 't' as u8, 'a' as u8, 'b' as u8, 'l' as u8, 'e' as u8, '"' as u8];
    proof {
        assert(r@ =~= plain_qp());
    }
    r
}

/// A 7bit text/plain part descriptor.
pub open spec fn plain_7bit() -> Seq<u8> {
    seq!['(' as u8, '"' as u8, 't' as u8, 'e' as u8, 'x' as u8, 't' as u8, '"' as u8, ' ' as u8, '"' as u8, 'p' as u8, 'l' as u8, 'a' as u8, 'i' as u8, 'n' as u8, '"' as u8, ' ' as u8, '(' as u8, '"' as u8, 'c' as u8, 'h' as u8, 'a' as u8, 'r' as u8, 's' as u8, 'e' as u8, 't' as u8, '"' as u8, ' ' as u8, '"' as u8, 'U' as u8, 'T' as u8, 'F' as u8, '-' as u8, '8' as u8, '"' as u8, ')' as u8, ' ' as u8, 'N' as u8, 'I' as u8, 'L' as u8, ' ' as u8, 'N' as u8, 'I' as u8, 'L' as u8, ' ' as u8, '"' as u8, '7' as u8, 'b' as u8, 'i' as u8, 't' as u8, '"' as u8]
}

/// The byte vector holding `("text" "plain" ("charset" "UTF-8") NIL NIL "7bit"`.
pub fn plain_7bit_vec() -> (r: Vec<u8>)
    ensures
        r@ == plain_7bit(),
{
    let r: Vec<u8> = vec!['(' as u8, '"' as u8, 't' as u8, 'e' as u8, 'x' as u8, 't' as u8, '"' as u8, ' ' as u8, '"' as u8, 'p' as u8, 'l' as u8, 'a' as u8, 'i' as u8, 'n' as u8, '"' as u8, ' ' as u8, '(' as u8, '"' as u8, 'c' as u8, 'h' as u8, 'a' as u8, 'r' as u8, 's' as u8, 'e' as u8, 't' as u8, '"' as u8, ' ' as u8, '"' as u8, 'U' as u8, 'T' as u8, 'F' as u8, '-' as u8, '8' as u8, '"' as u8, ')' as u8, ' ' as u8, 'N' as u8, 'I' as u8, 'L' as u8, ' ' as u8, 'N' as u8, 'I' as u8, 'L' as u8, ' ' as u8, '"' as u8, '7' as u8, 'b' as u8, 'i' as u8, 't' as u8, '"' as u8];
    proof {
        assert(r@ =~= plain_7bit());
    }
    r
}

/// An 8bit text/plain part descriptor.
pub open spec fn plain_8bit() -> Seq<u8> {
    seq!['(' as u8, '"' as u8, 't' as u8, 'e' as u8, 'x' as u8, 't' as u8, '"' as u8, ' ' as u8, '"' as u8, 'p' as u8, 'l' as u8, 'a' as u8, 'i' as u8, 'n' as u8, '"' as u8, ' ' as u8, '(' as u8, '"' as u8, 'c' as u8, 'h' as u8, 'a' as u8, 'r' as u8, 's' as u8, 'e' as u8, 't' as u8, '"' as u8, ' ' as u8, '"' as u8, 'U' as u8, 'T' as u8, 'F' as u8, '-' as u8, '8' as u8, '"' as u8, ')' as u8, ' ' as u8, 'N' as u8, 'I' as u8, 'L' as u8, ' ' as u8, 'N' as u8, 'I' as u8, 'L' as u8, ' ' as u8, '"' as u8, '8' as u8, 'b' as u8, 'i' as u8, 't' as u8, '"' as u8]
}

/// The byte vector holding `("text" "plain" ("charset" "UTF-8") NIL NIL "8bit"`.
pub fn plain_8bit_vec() -> (r: Vec<u8>)
    ensures
        r@ == plain_8bit(),
{
    let r: Vec<u8> = vec!['(' as u8, '"' as u8, 't' as u8, 'e' as u8, 'x' as u8, 't' as u8, '"' as u8, ' ' as u8, '"' as u8, 'p' as u8, 'l' as u8, 'a' as u8, 'i' as u8, 'n' as u8, '"' as u8, ' ' as u8, '(' as u8, '"' as u8, 'c' as u8, 'h' as u8, 'a' as u8, 'r' as u8, 's' as u8, 'e' as u8, 't' as u8, '"' as u8, ' ' as u8, '"' as u8, 'U' as u8, 'T' as u8, 'F' as u8, '-' as u8, '8' as u8, '"' as u8, ')' as u8, ' ' as u8, 'N' as u8, 'I' as u8, 'L' as u8, ' ' as u8, 'N' as u8, 'I' as u8, 'L' as u8, ' ' as u8, '"' as u8, '8' as u8, 'b' as u8, 'i' as u8, 't' as u8, '"' as u8];
    proof {
        assert(r@ =~= plain_8bit());
    }
    r
}

/// The required MIME-Version marker.
pub open spec fn mime_version_kw() -> Seq<u8> {
    seq!['1' as u8, '.' as u8, '0' as u8]
}

/// The byte vector holding `1.0`.
pub fn mime_version_kw_vec() -> (r: Vec<u8>)
    ensures
        r@ == mime_version_kw(),
{
    let r: Vec<u8> = vec!['1' as u8, '.' as u8, '0' as u8];
    proof {
        assert(r@ =~= mime_version_kw());
    }
    r
}

/// The required Content-Type marker.
pub open spec fn mime_boundary_kw() -> Seq<u8> {
    seq!['m' as u8, 'u' as u8, 'l' as u8, 't' as u8, 'i' as u8, 'p' as u8, 'a' as u8, 'r' as u8, 't' as u8, '/' as u8, 'a' as u8, 'l' as u8, 't' as u8, 'e' as u8, 'r' as u8, 'n' as u8, 'a' as u8, 't' as u8, 'i' as u8, 'v' as u8, 'e' as u8, ';' as u8, ' ' as u8, 'b' as u8, 'o' as u8, 'u' as u8, 'n' as u8, 'd' as u8, 'a' as u8, 'r' as u8, 'y' as u8, '=' as u8]
}

/// The byte vector holding `multipart/alternative; boundary=`.
pub fn mime_boundary_kw_vec() -> (r: Vec<u8>)
    ensures
        r@ == mime_boundary_kw(),
{
    let r: Vec<u8> = vec!['m' as u8, 'u' as u8, 'l' as u8, 't' as u8, 'i' as u8, 'p' as u8, 'a' as u8, 'r' as u8, 't' as u8, '/' as u8, 'a' as u8, 'l' as u8, 't' as u8, 'e' as u8, 'r' as u8, 'n' as u8, 'a' as u8, 't' as u8, 'i' as u8, 'v' as u8, 'e' as u8, ';' as u8, ' ' as u8, 'b' as u8, 'o' as u8, 'u' as u8, 'n' as u8, 'd' as u8, 'a' as u8, 'r' as u8, 'y' as u8, '=' as u8];
    proof {
        assert(r@ =~= mime_boundary_kw());
    }
    r
}

/// The opening of a body-part FETCH argument.
pub open spec fn body_peek_open() -> Seq<u8> {
    seq!['B' as u8, 'O' as u8, 'D' as u8, 'Y' as u8, '.' as u8, 'P' as u8, 'E' as u8, 'E' as u8, 'K' as u8, '[' as u8]
}

/// The byte vector holding `BODY.PEEK[`.
pub fn body_peek_open_vec() -> (r: Vec<u8>)
    ensures
        r@ == body_peek_open(),
{
    let r: Vec<u8> = vec!['B' as u8, 'O' as u8, 'D' as u8, 'Y' as u8, '.' as u8, 'P' as u8, 'E' as u8, 'E' as u8, 'K' as u8, '[' as u8];
    proof {
        assert(r@ =~= body_peek_open());
    }
    r
}

/// The message reference of a FETCH: the decimal sequence number, or `*` for
/// the last message when none is given.
pub open spec fn msg_ref(n: Option<u32>) -> Seq<u8> {
    match n {
        Some(v) => dec_repr(v as nat),
        None => seq!['*' as u8],
    }
}

/// Builds the message reference of a FETCH.
pub fn msg_ref_vec(n: Option<u32>) -> (r: Vec<u8>)
    ensures
        r@ == msg_ref(n),
{
    match n {
        Some(v) => format_decimal(v as u64),
        None => {
            let r: Vec<u8> = vec!['*' as u8];
            proof {
                assert(r@ =~= seq!['*' as u8]);
            }
            r
        },
    }
}

/// The LOGIN command: both credentials in quoted form.
pub fn login_command(user: &Vec<u8>, pass: &Vec<u8>) -> (r: Vec<u8>)
    ensures
        r@ == command_bytes(login_tag(), verb_login(), seq![quoted(user@), quoted(pass@)]),
{
    let mut args: Vec<Vec<u8>> = Vec::new();
    args.push(into_quoted(user));
    args.push(into_quoted(pass));
    proof {
        assert(args.deep_view() =~~= seq![quoted(user@), quoted(pass@)]);
    }
    build_command(&login_tag_vec(), &verb_login_vec(), &args)
}

/// The SELECT command for the named folder, or for `Inbox` when none is
/// named; the folder goes out in quoted form.
pub fn select_command(folder: Option<&Vec<u8>>) -> (r: Vec<u8>)
    ensures
        r@ == command_bytes(
            folder_tag(),
            verb_select(),
            seq![
                quoted(
                    match folder {
                        Some(f) => f@,
                        None => default_folder(),
                    },
                ),
            ],
        ),
{
    let quoted_folder = match folder {
        Some(f) => into_quoted(f),
        None => into_quoted(&default_folder_vec()),
    };
    let ghost q = quoted_folder@;
    let mut args: Vec<Vec<u8>> = Vec::new();
    args.push(quoted_folder);
    proof {
        assert(args.deep_view() =~~= seq![q]);
    }
    build_command(&folder_tag_vec(), &verb_select_vec(), &args)
}

/// The FETCH command retrieving the full raw message.
pub fn retrieve_command(n: Option<u32>) -> (r: Vec<u8>)
    ensures
        r@ == command_bytes(retrieve_tag(), verb_fetch(), seq![msg_ref(n), arg_body_peek()]),
{
    let mut args: Vec<Vec<u8>> = Vec::new();
    args.push(msg_ref_vec(n));
    args.push(arg_body_peek_vec());
    proof {
        assert(args.deep_view() =~~= seq![msg_ref(n), arg_body_peek()]);
    }
    build_command(&retrieve_tag_vec(), &verb_fetch_vec(), &args)
}

/// The FETCH command retrieving the envelope header fields.
pub fn parse_command(n: Option<u32>) -> (r: Vec<u8>)
    ensures
        r@ == command_bytes(parse_tag(), verb_fetch(), seq![msg_ref(n), arg_envelope_fields()]),
{
    let mut args: Vec<Vec<u8>> = Vec::new();
    args.push(msg_ref_vec(n));
    args.push(arg_envelope_fields_vec());
    proof {
        assert(args.deep_view() =~~= seq![msg_ref(n), arg_envelope_fields()]);
    }
    build_command(&parse_tag_vec(), &verb_fetch_vec(), &args)
}

/// The FETCH command retrieving every message's Subject field.
pub fn list_command() -> (r: Vec<u8>)
    ensures
        r@ == command_bytes(list_tag(), verb_fetch(), seq![arg_all_messages(), arg_subject_fields()]),
{
    let mut args: Vec<Vec<u8>> = Vec::new();
    args.push(arg_all_messages_vec());
    args.push(arg_subject_fields_vec());
    proof {
        assert(args.deep_view() =~~= seq![arg_all_messages(), arg_subject_fields()]);
    }
    build_command(&list_tag_vec(), &verb_fetch_vec(), &args)
}

/// The FETCH command retrieving the MIME header fields for validation.
pub fn mime_header_command(n: Option<u32>) -> (r: Vec<u8>)
    ensures
        r@ == command_bytes(mhv_tag(), verb_fetch(), seq![msg_ref(n), arg_mime_fields()]),
{
    let mut args: Vec<Vec<u8>> = Vec::new();
    args.push(msg_ref_vec(n));
    args.push(arg_mime_fields_vec());
    proof {
        assert(args.deep_view() =~~= seq![msg_ref(n), arg_mime_fields()]);
    }
    build_command(&mhv_tag_vec(), &verb_fetch_vec(), &args)
}

/// The FETCH command retrieving the BODYSTRUCTURE description.
pub fn bodystructure_command(n: Option<u32>) -> (r: Vec<u8>)
    ensures
        r@ == command_bytes(mbv_tag(), verb_fetch(), seq![msg_ref(n), arg_bodystructure()]),
{
    let mut args: Vec<Vec<u8>> = Vec::new();
    args.push(msg_ref_vec(n));
    args.push(arg_bodystructure_vec());
    proof {
        assert(args.deep_view() =~~= seq![msg_ref(n), arg_bodystructure()]);
    }
    build_command(&mbv_tag_vec(), &verb_fetch_vec(), &args)
}

/// The body-part FETCH argument `BODY.PEEK[<idx>]`.
pub open spec fn body_peek_idx(idx: nat) -> Seq<u8> {
    body_peek_open() + dec_repr(idx) + seq![']' as u8]
}

/// The FETCH command retrieving one body part by its 1-based index.
pub fn mime_fetch_command(n: Option<u32>, idx: usize) -> (r: Vec<u8>)
    ensures
        r@ == command_bytes(mime_tag(), verb_fetch(), seq![msg_ref(n), body_peek_idx(idx as nat)]),
{
    let mut part: Vec<u8> = body_peek_open_vec();
    let mut digits = format_decimal(idx as u64);
    part.append(&mut digits);
    part.push(']' as u8);
    proof {
        assert(part@ =~= body_peek_idx(idx as nat));
    }
    let ghost p = part@;
    let mut args: Vec<Vec<u8>> = Vec::new();
    args.push(msg_ref_vec(n));
    args.push(part);
    proof {
        assert(args.deep_view() =~~= seq![msg_ref(n), p]);
    }
    build_command(&mime_tag_vec(), &verb_fetch_vec(), &args)
}

} // verus!
