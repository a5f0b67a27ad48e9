//! Envelope-header handling: RFC 5322 unfolding of continuation lines, the
//! envelope record parsed from a `HEADER.FIELDS` literal, and its fixed
//! presentation form.

use vstd::prelude::*;

use crate::bytes_util::{
    bytes_eq, find_sub, first_match, lower_seq, sub_vec, to_lower_vec, trim_bytes, trim_seq,
};
use crate::engine::crlf;
use crate::error::Error;

verus! {

/// Header unfolding: every CR LF SP becomes a single SP and every CR LF HTAB
/// a single HTAB; all other bytes are kept, scanning left to right.
pub open spec fn unfolded(s: Seq<u8>) -> Seq<u8>
    decreases s.len(),
{
    if s.len() == 0 {
        Seq::empty()
    } else if s.len() >= 3 && s[0] == '\r' as u8 && s[1] == '\n' as u8 && (s[2] == ' ' as u8 || s[2]
        == '\t' as u8) {
        seq![s[2]] + unfolded(s.skip(3))
    } else {
        seq![s[0]] + unfolded(s.skip(1))
    }
}

/// Law: unfolding replaces each CR LF SP by SP and each CR LF HTAB by HTAB,
/// and leaves every other byte alone.
pub proof fn lemma_unfold_replaces(rest: Seq<u8>, s: Seq<u8>)
    ensures
        unfolded(seq!['\r' as u8, '\n' as u8, ' ' as u8] + rest) == seq![' ' as u8] + unfolded(
            rest,
        ),
        unfolded(seq!['\r' as u8, '\n' as u8, '\t' as u8] + rest) == seq!['\t' as u8] + unfolded(
            rest,
        ),
        s.len() > 0 && !(s.len() >= 3 && s[0] == '\r' as u8 && s[1] == '\n' as u8 && (s[2]
            == ' ' as u8 || s[2] == '\t' as u8)) ==> unfolded(s) == seq![s[0]] + unfolded(
            s.skip(1),
        ),
        unfolded(Seq::<u8>::empty()) == Seq::<u8>::empty(),
{
    let a = seq!['\r' as u8, '\n' as u8, ' ' as u8] + rest;
    assert(a.len() >= 3 && a[0] == '\r' as u8 && a[1] == '\n' as u8 && a[2] == ' ' as u8);
    assert(a.skip(3) =~= rest);
    assert(unfolded(a) == seq![a[2]] + unfolded(rest));
    assert(seq![a[2]] =~= seq![' ' as u8]);
    let b = seq!['\r' as u8, '\n' as u8, '\t' as u8] + rest;
    assert(b.len() >= 3 && b[0] == '\r' as u8 && b[1] == '\n' as u8 && b[2] == '\t' as u8);
    assert(b.skip(3) =~= rest);
    assert(unfolded(b) == seq![b[2]] + unfolded(rest));
    assert(seq![b[2]] =~= seq!['\t' as u8]);
}

/// Undoes header folding in a byte string.
pub fn unfold(s: &[u8]) -> (r: Vec<u8>)
    ensures
        r@ == unfolded(s@),
{
    let mut r: Vec<u8> = Vec::new();
    let mut i: usize = 0;
    proof {
        assert(s@.skip(0) =~= s@);
        assert(r@ + unfolded(s@.skip(0)) =~= unfolded(s@));
    }
    while i < s.len()
        invariant
            i <= s@.len(),
            unfolded(s@) == r@ + unfolded(s@.skip(i as int)),
        decreases s.len() - i,
    {
        let ghost rem = s@.skip(i as int);
        if s.len() - i > 2 && s[i] == '\r' as u8 && s[i + 1] == '\n' as u8 && (s[i + 2]
            == ' ' as u8 || s[i + 2] == '\t' as u8) {
            r.push(s[i + 2]);
            proof {
                assert(rem.len() >= 3);
                assert(rem[0] == '\r' as u8 && rem[1] == '\n' as u8);
                assert(rem[2] == s@[i + 2]);
                assert(rem.skip(3) =~= s@.skip(i + 3));
                assert(unfolded(rem) == seq![rem[2]] + unfolded(s@.skip(i + 3)));
                assert(r@ + unfolded(s@.skip(i + 3)) =~= unfolded(s@));
            }
            i = i + 3;
        } else {
            r.push(s[i]);
            proof {
                assert(rem[0] == s@[i as int]);
                assert(rem.skip(1) =~= s@.skip(i + 1));
                if !(rem.len() >= 3 && rem[0] == '\r' as u8 && rem[1] == '\n' as u8 && (rem[2]
                    == ' ' as u8 || rem[2] == '\t' as u8)) {
                    assert(unfolded(rem) == seq![rem[0]] + unfolded(s@.skip(i + 1)));
                }
                assert(r@ + unfolded(s@.skip(i + 1)) =~= unfolded(s@));
            }
            i = i + 1;
        }
    }
    proof {
        assert(s@.skip(s@.len() as int) =~= Seq::<u8>::empty());
        assert(r@ =~= unfolded(s@));
    }
    r
}

/// The mathematical value of an envelope header.
#[verifier::ext_equal]
pub struct EnvModel {
    pub from: Seq<u8>,
    pub to: Option<Seq<u8>>,
    pub date: Seq<u8>,
    pub subject: Option<Seq<u8>>,
}

/// The envelope before any field has been seen.
pub open spec fn empty_env() -> EnvModel {
    EnvModel { from: Seq::empty(), to: None, date: Seq::empty(), subject: None }
}

/// The separator between a field name and its data.
pub open spec fn colon_sp() -> Seq<u8> {
    seq![':' as u8, ' ' as u8]
}

/// Splitting at the first occurrence of `pat`: the part before it and the
/// part after it.
pub open spec fn split_once_spec(s: Seq<u8>, pat: Seq<u8>) -> Option<(Seq<u8>, Seq<u8>)> {
    match first_match(s, pat) {
        Some(i) => Some((s.take(i), s.skip(i + pat.len()))),
        None => None,
    }
}

/// Splitting on every occurrence of `pat`, left to right; the pieces between
/// the separators, empty pieces kept.
pub open spec fn split_all(s: Seq<u8>, pat: Seq<u8>) -> Seq<Seq<u8>>
    decreases s.len(),
    via split_all_decreases
{
    if pat.len() == 0 {
        seq![s]
    } else {
        match first_match(s, pat) {
            None => seq![s],
            Some(i) => seq![s.take(i)] + split_all(s.skip(i + pat.len()), pat),
        }
    }
}

#[via_fn]
proof fn split_all_decreases(s: Seq<u8>, pat: Seq<u8>) {
    if pat.len() != 0 {
        crate::bytes_util::lemma_first_match(s, pat);
    }
}

pub open spec fn from_kw() -> Seq<u8> {
    seq!['f' as u8, 'r' as u8, 'o' as u8, 'm' as u8]
}

pub open spec fn to_kw() -> Seq<u8> {
    seq!['t' as u8, 'o' as u8]
}

pub open spec fn date_kw() -> Seq<u8> {
    seq!['d' as u8, 'a' as u8, 't' as u8, 'e' as u8]
}

pub open spec fn subject_kw() -> Seq<u8> {
    seq!['s' as u8, 'u' as u8, 'b' as u8, 'j' as u8, 'e' as u8, 'c' as u8, 't' as u8]
}

/// One header field applied to the record: the field must contain `": "`;
/// its name, lower-cased and trimmed, picks the slot; an unknown name is a
/// malformed header.
pub open spec fn apply_field(e: EnvModel, f: Seq<u8>) -> Option<EnvModel> {
    match split_once_spec(f, colon_sp()) {
        None => None,
        Some(p) => {
            let n = trim_seq(lower_seq(p.0));
            let data = p.1;
            if n == from_kw() {
                Some(EnvModel { from: data, ..e })
            } else if n == to_kw() {
                Some(EnvModel { to: Some(data), ..e })
            } else if n == date_kw() {
                Some(EnvModel { date: data, ..e })
            } else if n == subject_kw() {
                Some(EnvModel { subject: Some(data), ..e })
            } else {
                None
            }
        },
    }
}

/// All fields applied in order; the first malformed field rejects the whole
/// header.
pub open spec fn parse_fields(e: EnvModel, fields: Seq<Seq<u8>>) -> Option<EnvModel>
    decreases fields.len(),
{
    if fields.len() == 0 {
        Some(e)
    } else {
        match apply_field(e, fields[0]) {
            None => None,
            Some(e2) => parse_fields(e2, fields.skip(1)),
        }
    }
}

/// The envelope parsed from an unfolded header literal: the literal is
/// trimmed, split on CR LF into fields, and the fields are applied in order.
pub open spec fn parse_envelope(s: Seq<u8>) -> Option<EnvModel> {
    parse_fields(empty_env(), split_all(trim_seq(s), crlf()))
}

/// The fixed presentation form:
/// `From: <from>\nTo:[ <to>]\nDate: <date>\nSubject: <subject-or-default>\n`.
/// The `To:` line shows no text after the colon when `to` is absent, and one
/// leading space before the value when present; an absent subject renders as
/// `<No subject>`.
pub open spec fn render_env(e: EnvModel) -> Seq<u8> {
    label_from() + e.from + label_to() + (match e.to {
        Some(t) => seq![' ' as u8] + t,
        None => Seq::<u8>::empty(),
    }) + label_date() + e.date + label_subject() + (match e.subject {
        Some(su) => su,
        None => no_subject(),
    }) + seq!['\n' as u8]
}

pub open spec fn label_from() -> Seq<u8> {
    seq!['F' as u8, 'r' as u8, 'o' as u8, 'm' as u8, ':' as u8, ' ' as u8]
}

pub open spec fn label_to() -> Seq<u8> {
    seq!['\n' as u8, 'T' as u8, 'o' as u8, ':' as u8]
}

pub open spec fn label_date() -> Seq<u8> {
    seq!['\n' as u8, 'D' as u8, 'a' as u8, 't' as u8, 'e' as u8, ':' as u8, ' ' as u8]
}

pub open spec fn label_subject() -> Seq<u8> {
    seq![
        '\n' as u8,
        'S' as u8,
        'u' as u8,
        'b' as u8,
        'j' as u8,
        'e' as u8,
        'c' as u8,
        't' as u8,
        ':' as u8,
        ' ' as u8,
    ]
}

/// The default shown for a message without a subject.
pub open spec fn no_subject() -> Seq<u8> {
    seq![
        '<' as u8,
        'N' as u8,
        'o' as u8,
        ' ' as u8,
        's' as u8,
        'u' as u8,
        'b' as u8,
        'j' as u8,
        'e' as u8,
        'c' as u8,
        't' as u8,
        '>' as u8,
    ]
}

/// The byte vector holding the default subject text.
pub fn no_subject_vec() -> (r: Vec<u8>)
    ensures
        r@ == no_subject(),
{
    let r: Vec<u8> = vec![
        '<' as u8,
        'N' as u8,
        'o' as u8,
        ' ' as u8,
        's' as u8,
        'u' as u8,
        'b' as u8,
        'j' as u8,
        'e' as u8,
        'c' as u8,
        't' as u8,
        '>' as u8,
    ];
    proof {
        assert(r@ =~= no_subject());
    }
    r
}

/// The envelope header of one message: who it is from and when, with the
/// optional recipient and subject.
#[derive(Debug)]
pub struct EnvelopeHeader {
    pub from: Vec<u8>,
    pub to: Option<Vec<u8>>,
    pub date: Vec<u8>,
    pub subject: Option<Vec<u8>>,
}

impl View for EnvelopeHeader {
    type V = EnvModel;

    open spec fn view(&self) -> EnvModel {
        EnvModel {
            from: self.from@,
            to: match self.to {
                Some(t) => Some(t@),
                None => None,
            },
            date: self.date@,
            subject: match self.subject {
                Some(s) => Some(s@),
                None => None,
            },
        }
    }
}

impl EnvelopeHeader {
    /// Parses an unfolded header literal into the envelope record: trim,
    /// split on CR LF, and take each `Name: data` field, names read
    /// case-insensitively; an unknown name or a field without `": "` is a
    /// malformed header.
    pub fn parse(s: &Vec<u8>) -> (r: Result<EnvelopeHeader, Error>)
        ensures
            match r {
                Ok(h) => parse_envelope(s@) == Some(h@),
                Err(e) => e == Error::MalformedHeader && parse_envelope(s@) is None,
            },
    {
        let mut env = EnvelopeHeader { from: Vec::new(), to: None, date: Vec::new(), subject: None };
        proof {
            assert(env@ =~~= empty_env());
        }
        let mut rem = trim_bytes(s.as_slice());
        let crlf_pat: Vec<u8> = vec!['\r' as u8, '\n' as u8];
        proof {
            assert(crlf_pat@ =~= crlf());
        }
        loop
            invariant
                crlf_pat@ == crlf(),
                parse_fields(env@, split_all(rem@, crlf())) == parse_envelope(s@),
            decreases rem@.len() + 1,
        {
            let ghost pre_fields = split_all(rem@, crlf());
            match find_sub(rem.as_slice(), crlf_pat.as_slice()) {
                Some(i) => {
                    proof {
                        crate::bytes_util::lemma_first_match(rem@, crlf());
                    }
                    let rl = rem.len();
                    let field = sub_vec(rem.as_slice(), 0, i);
                    let rest = sub_vec(rem.as_slice(), i + 2, rl);
                    proof {
                        assert(field@ =~= rem@.take(i as int));
                        assert(rest@ =~= rem@.skip(i + 2));
                        assert(pre_fields == seq![field@] + split_all(rest@, crlf()));
                        assert(pre_fields[0] == field@);
                        assert(pre_fields.skip(1) =~= split_all(rest@, crlf()));
                    }
                    match Self::apply_one(env, &field) {
                        Ok(e2) => {
                            env = e2;
                        },
                        Err(e) => {
                            return Err(e);
                        },
                    }
                    rem = rest;
                },
                None => {
                    proof {
                        assert(pre_fields == seq![rem@]);
                        assert(pre_fields[0] == rem@);
                        assert(pre_fields.skip(1) =~= Seq::<Seq<u8>>::empty());
                    }
                    match Self::apply_one(env, &rem) {
                        Ok(e2) => {
                            env = e2;
                        },
                        Err(e) => {
                            return Err(e);
                        },
                    }
                    proof {
                        assert(parse_fields(env@, Seq::<Seq<u8>>::empty()) == Some(env@));
                    }
                    return Ok(env);
                },
            }
        }
    }

    /// Applies one `Name: data` field to the record.
    fn apply_one(env: EnvelopeHeader, field: &Vec<u8>) -> (r: Result<EnvelopeHeader, Error>)
        ensures
            match r {
                Ok(h) => apply_field(env@, field@) == Some(h@),
                Err(e) => e == Error::MalformedHeader && apply_field(env@, field@) is None,
            },
    {
        let sep: Vec<u8> = vec![':' as u8, ' ' as u8];
        proof {
            assert(sep@ =~= colon_sp());
        }
        let i = match find_sub(field.as_slice(), sep.as_slice()) {
            Some(i) => i,
            None => {
                return Err(Error::MalformedHeader);
            },
        };
        proof {
            crate::bytes_util::lemma_first_match(field@, colon_sp());
        }
        let fl = field.len();
        let name = sub_vec(field.as_slice(), 0, i);
        let data = sub_vec(field.as_slice(), i + 2, fl);
        proof {
            assert(name@ =~= field@.take(i as int));
            assert(data@ =~= field@.skip(i + 2));
        }
        let lowered = to_lower_vec(&name);
        let norm = trim_bytes(lowered.as_slice());
        let kw_from: Vec<u8> = vec!['f' as u8, 'r' as u8, 'o' as u8, 'm' as u8];
        let kw_to: Vec<u8> = vec!['t' as u8, 'o' as u8];
        let kw_date: Vec<u8> = vec!['d' as u8, 'a' as u8, 't' as u8, 'e' as u8];
        let kw_subject: Vec<u8> = vec![
            's' as u8,
            'u' as u8,
            'b' as u8,
            'j' as u8,
            'e' as u8,
            'c' as u8,
            't' as u8,
        ];
        proof {
            assert(kw_from@ =~= from_kw());
            assert(kw_to@ =~= to_kw());
            assert(kw_date@ =~= date_kw());
            assert(kw_subject@ =~= subject_kw());
        }
        if bytes_eq(norm.as_slice(), kw_from.as_slice()) {
            Ok(EnvelopeHeader { from: data, ..env })
        } else if bytes_eq(norm.as_slice(), kw_to.as_slice()) {
            Ok(EnvelopeHeader { to: Some(data), ..env })
        } else if bytes_eq(norm.as_slice(), kw_date.as_slice()) {
            Ok(EnvelopeHeader { date: data, ..env })
        } else if bytes_eq(norm.as_slice(), kw_subject.as_slice()) {
            Ok(EnvelopeHeader { subject: Some(data), ..env })
        } else {
            Err(Error::MalformedHeader)
        }
    }

    /// Renders the record in its fixed presentation form.
    pub fn render(&self) -> (r: Vec<u8>)
        ensures
            r@ == render_env(self@),
    {
        let mut out: Vec<u8> = Vec::new();
        let mut l1: Vec<u8> = vec![
            'F' as u8,
            'r' as u8,
            'o' as u8,
            'm' as u8,
            ':' as u8,
            ' ' as u8,
        ];
        out.append(&mut l1);
        out.extend_from_slice(self.from.as_slice());
        let mut l2: Vec<u8> = vec!['\n' as u8, 'T' as u8, 'o' as u8, ':' as u8];
        out.append(&mut l2);
        match &self.to {
            Some(t) => {
                out.push(' ' as u8);
                out.extend_from_slice(t.as_slice());
            },
            None => {},
        }
        let mut l3: Vec<u8> = vec![
            '\n' as u8,
            'D' as u8,
            'a' as u8,
            't' as u8,
            'e' as u8,
            ':' as u8,
            ' ' as u8,
        ];
        out.append(&mut l3);
        out.extend_from_slice(self.date.as_slice());
        let mut l4: Vec<u8> = vec![
            '\n' as u8,
            'S' as u8,
            'u' as u8,
            'b' as u8,
            'j' as u8,
            'e' as u8,
            'c' as u8,
            't' as u8,
            ':' as u8,
            ' ' as u8,
        ];
        out.append(&mut l4);
        match &self.subject {
            Some(su) => {
                out.extend_from_slice(su.as_slice());
            },
            None => {
                let mut d: Vec<u8> = vec![
                    '<' as u8,
                    'N' as u8,
                    'o' as u8,
                    ' ' as u8,
                    's' as u8,
                    'u' as u8,
                    'b' as u8,
                    'j' as u8,
                    'e' as u8,
                    'c' as u8,
                    't' as u8,
                    '>' as u8,
                ];
                out.append(&mut d);
            },
        }
        out.push('\n' as u8);
        proof {
            assert(out@ =~= render_env(self@));
        }
        out
    }
}

} // verus!
