//! Post-processing of response groups, one function per read operation:
//! extracting literal payloads, rendering the envelope, listing subjects,
//! validating MIME headers, and locating the first plain-text body part.

use vstd::prelude::*;

use crate::bytes_util::{find_sub, first_match, format_decimal, match_at, sub_vec, trim_bytes,
    trim_seq, dec_repr};
use crate::envelope::{colon_sp, parse_envelope, render_env, split_once_spec, unfold, unfolded,
    EnvelopeHeader};
use crate::engine::crlf;
use crate::error::Error;
use crate::framer::{decl_fits, is_untagged_line, literal_decl, marker_close};
use crate::envelope::no_subject;
use crate::protocol::{mime_boundary_kw, mime_version_kw, plain_7bit, plain_8bit, plain_qp};

verus! {

/// The payload bytes a literal declaration selects out of its line, cut off
/// at the end of the line when the line is shorter than declared.
pub open spec fn clamped_payload(line: Seq<u8>) -> Seq<u8> {
    let d = literal_decl(line).unwrap();
    let lo = if d.0 <= line.len() {
        d.0
    } else {
        line.len() as int
    };
    let hi = if d.0 + d.1 <= line.len() {
        d.0 + d.1
    } else {
        line.len() as int
    };
    line.subrange(lo, hi)
}

/// Extracts the raw message out of a retrieve response group: the first
/// line's literal declaration selects the payload, which is returned
/// byte-for-byte; a group without lines or without a well-formed declaration
/// is the internal-invariant error.
pub fn retrieve_payload(responses: &Vec<Vec<u8>>) -> (r: Result<Vec<u8>, Error>)
    ensures
        ({
            let rs = responses.deep_view();
            match r {
                Ok(v) => rs.len() > 0 && decl_fits(rs[0]) && v@ == clamped_payload(rs[0]),
                Err(e) => e == Error::Infallible && (rs.len() == 0 || !decl_fits(rs[0])),
            }
        }),
{
    if responses.len() == 0 {
        return Err(Error::Infallible);
    }
    let line = &responses[0];
    proof {
        assert(responses.deep_view()[0] == line@);
    }
    let (start, to_read) = match crate::framer::parse_literal_length(line) {
        Ok(p) => p,
        Err(e) => {
            return Err(e);
        },
    };
    let len = line.len();
    let lo = if start <= len {
        start
    } else {
        len
    };
    let hi = if to_read <= len - lo && start <= len {
        start + to_read
    } else {
        len
    };
    Ok(sub_vec(line.as_slice(), lo, hi))
}

/// Extracts one body part out of a mime FETCH response group: as with the
/// raw message, but the declared range must lie inside the line; a short
/// line is the internal-invariant error.
pub fn mime_payload(responses: &Vec<Vec<u8>>) -> (r: Result<Vec<u8>, Error>)
    ensures
        ({
            let rs = responses.deep_view();
            match r {
                Ok(v) => rs.len() > 0 && decl_fits(rs[0]) && literal_decl(rs[0]).unwrap().0
                    + literal_decl(rs[0]).unwrap().1 <= rs[0].len() && v@ == rs[0].subrange(
                    literal_decl(rs[0]).unwrap().0,
                    literal_decl(rs[0]).unwrap().0 + literal_decl(rs[0]).unwrap().1,
                ),
                Err(e) => e == Error::Infallible && (rs.len() == 0 || !decl_fits(rs[0])
                    || literal_decl(rs[0]).unwrap().0 + literal_decl(rs[0]).unwrap().1
                    > rs[0].len()),
            }
        }),
{
    if responses.len() == 0 {
        return Err(Error::Infallible);
    }
    let line = &responses[0];
    proof {
        assert(responses.deep_view()[0] == line@);
    }
    let (start, to_read) = match crate::framer::parse_literal_length(line) {
        Ok(p) => p,
        Err(e) => {
            return Err(e);
        },
    };
    let len = line.len();
    if start > len || to_read > len - start {
        return Err(Error::Infallible);
    }
    Ok(sub_vec(line.as_slice(), start, start + to_read))
}

/// The rendered envelope of a parse response group: the first line is
/// trimmed, the text after its `}` CR LF marker is unfolded and parsed, and
/// the record is rendered in the fixed presentation form.
pub open spec fn parse_result(rs: Seq<Seq<u8>>) -> Result<Seq<u8>, Error> {
    if rs.len() == 0 {
        Err(Error::Infallible)
    } else {
        match split_once_spec(trim_seq(rs[0]), marker_close()) {
            None => Err(Error::Infallible),
            Some(p) => match parse_envelope(unfolded(p.1)) {
                None => Err(Error::MalformedHeader),
                Some(m) => Ok(render_env(m)),
            },
        }
    }
}

/// Turns a parse response group into the rendered envelope presentation.
pub fn parse_render(responses: &Vec<Vec<u8>>) -> (r: Result<Vec<u8>, Error>)
    ensures
        ({
            let want = parse_result(responses.deep_view());
            match r {
                Ok(v) => want == Ok::<Seq<u8>, Error>(v@),
                Err(e) => want == Err::<Seq<u8>, Error>(e),
            }
        }),
{
    if responses.len() == 0 {
        return Err(Error::Infallible);
    }
    let line = &responses[0];
    proof {
        assert(responses.deep_view()[0] == line@);
    }
    let trimmed = trim_bytes(line.as_slice());
    let marker: Vec<u8> = vec!['}' as u8, '\r' as u8, '\n' as u8];
    proof {
        assert(marker@ =~= marker_close());
    }
    let i = match find_sub(trimmed.as_slice(), marker.as_slice()) {
        Some(i) => i,
        None => {
            return Err(Error::Infallible);
        },
    };
    proof {
        crate::bytes_util::lemma_first_match(trimmed@, marker_close());
    }
    let tl = trimmed.len();
    let lit = sub_vec(trimmed.as_slice(), i + 3, tl);
    proof {
        assert(lit@ =~= trimmed@.skip(i + 3));
    }
    let u = unfold(lit.as_slice());
    match EnvelopeHeader::parse(&u) {
        Ok(h) => Ok(h.render()),
        Err(e) => Err(e),
    }
}

/// The subject drawn out of one list response line: nothing at all when the
/// line has no `}` CR LF marker; otherwise the text after the first `": "`
/// of the unfolded, trimmed literal, itself trimmed — or no subject when the
/// literal has no `": "`.
pub open spec fn subject_of(line: Seq<u8>) -> Option<Option<Seq<u8>>> {
    match split_once_spec(line, marker_close()) {
        None => None,
        Some(p) => {
            let u = trim_seq(unfolded(p.1));
            match split_once_spec(u, colon_sp()) {
                None => Some(None),
                Some(q) => Some(Some(trim_seq(q.1))),
            }
        },
    }
}

/// One printed list line: the 1-based index, a colon and a space, the
/// subject or its default, and a newline.
pub open spec fn list_entry(k: nat, sub: Option<Seq<u8>>) -> Seq<u8> {
    dec_repr((k + 1) as nat) + colon_sp() + (match sub {
        Some(s) => s,
        None => no_subject(),
    }) + seq!['\n' as u8]
}

/// The number of untagged lines among the first `upto` lines of a group.
pub open spec fn count_untagged(lines: Seq<Seq<u8>>, upto: int) -> nat
    decreases upto,
{
    if upto <= 0 {
        0
    } else {
        count_untagged(lines, upto - 1) + (if is_untagged_line(lines[upto - 1]) {
            1nat
        } else {
            0nat
        })
    }
}

/// The printed list lines for the first `upto` lines of a group: one entry
/// per untagged line, numbered in untagged order; any other line — the
/// tagged completion — yields nothing.
pub open spec fn list_out(lines: Seq<Seq<u8>>, upto: int) -> Seq<u8>
    decreases upto,
{
    if upto <= 0 {
        Seq::empty()
    } else {
        list_out(lines, upto - 1) + (if is_untagged_line(lines[upto - 1]) {
            list_entry(count_untagged(lines, upto - 1), subject_of(lines[upto - 1]).unwrap())
        } else {
            Seq::empty()
        })
    }
}

/// An untagged line without a `}` CR LF marker is malformed.
pub open spec fn is_bad_line(l: Seq<u8>) -> bool {
    is_untagged_line(l) && subject_of(l) is None
}

/// The first malformed untagged line of a group, if any.
pub open spec fn first_bad(lines: Seq<Seq<u8>>) -> Option<int>
    decreases lines.len(),
{
    if lines.len() == 0 {
        None
    } else if is_bad_line(lines[0]) {
        Some(0)
    } else {
        match first_bad(lines.skip(1)) {
            Some(i) => Some(i + 1),
            None => None,
        }
    }
}

proof fn lemma_first_bad(lines: Seq<Seq<u8>>)
    ensures
        match first_bad(lines) {
            Some(i) => 0 <= i < lines.len() && is_bad_line(lines[i]) && forall|j: int|
                0 <= j < i ==> !is_bad_line(#[trigger] lines[j]),
            None => forall|j: int| 0 <= j < lines.len() ==> !is_bad_line(#[trigger] lines[j]),
        },
    decreases lines.len(),
{
    if lines.len() > 0 && !is_bad_line(lines[0]) {
        lemma_first_bad(lines.skip(1));
        match first_bad(lines.skip(1)) {
            Some(i0) => {
                assert(lines.skip(1)[i0] == lines[i0 + 1]);
                assert forall|j: int| 0 <= j < i0 + 1 implies !is_bad_line(
                    #[trigger] lines[j],
                ) by {
                    if j > 0 {
                        assert(lines.skip(1)[j - 1] == lines[j]);
                        assert(!is_bad_line(lines.skip(1)[j - 1]));
                    }
                }
            },
            None => {
                assert forall|j: int| 0 <= j < lines.len() implies !is_bad_line(
                    #[trigger] lines[j],
                ) by {
                    if j > 0 {
                        assert(lines.skip(1)[j - 1] == lines[j]);
                        assert(!is_bad_line(lines.skip(1)[j - 1]));
                    }
                }
            },
        }
    }
}

/// Renders the list output: one line per untagged response line, in receipt
/// order, each with its 1-based index and subject; any other line — the
/// tagged completion — is passed over. The walk fails with the
/// malformed-header error only at an untagged line without a literal
/// marker, returning what was rendered before it.
pub fn list_render(responses: &Vec<Vec<u8>>) -> (r: (Vec<u8>, Result<(), Error>))
    ensures
        ({
            let rs = responses.deep_view();
            match first_bad(rs) {
                None => r.1 == Ok::<(), Error>(()) && r.0@ == list_out(rs, rs.len() as int),
                Some(j) => r.1 == Err::<(), Error>(Error::MalformedHeader) && r.0@ == list_out(
                    rs,
                    j,
                ),
            }
        }),
{
    let ghost rs = responses.deep_view();
    proof {
        lemma_first_bad(rs);
    }
    let mut out: Vec<u8> = Vec::new();
    let marker: Vec<u8> = vec!['}' as u8, '\r' as u8, '\n' as u8];
    let sep: Vec<u8> = vec![':' as u8, ' ' as u8];
    proof {
        assert(marker@ =~= marker_close());
        assert(sep@ =~= colon_sp());
    }
    let mut k: usize = 0;
    let mut cnt: usize = 0;
    while k < responses.len()
        invariant
            k <= responses@.len(),
            rs == responses.deep_view(),
            rs.len() == responses@.len(),
            marker@ == marker_close(),
            sep@ == colon_sp(),
            cnt <= k,
            cnt == count_untagged(rs, k as int),
            forall|j: int| 0 <= j < k ==> !is_bad_line(#[trigger] rs[j]),
            out@ == list_out(rs, k as int),
        decreases responses.len() - k,
    {
        let line = &responses[k];
        proof {
            assert(rs[k as int] == line@);
        }
        if line.len() == 0 || line[0] != '*' as u8 {
            proof {
                assert(!is_untagged_line(rs[k as int]));
                assert(out@ =~= list_out(rs, k + 1));
            }
            k = k + 1;
            continue;
        }
        let i = match find_sub(line.as_slice(), marker.as_slice()) {
            Some(i) => i,
            None => {
                proof {
                    lemma_first_bad(rs);
                    assert(is_bad_line(rs[k as int]));
                    assert(first_bad(rs) == Some(k as int)) by {
                        match first_bad(rs) {
                            Some(i2) => {
                                if i2 < k {
                                    assert(!is_bad_line(rs[i2]));
                                } else if i2 > k {
                                    assert(!is_bad_line(rs[k as int]));
                                }
                            },
                            None => {
                                assert(!is_bad_line(rs[k as int]));
                            },
                        }
                    }
                }
                return (out, Err(Error::MalformedHeader));
            },
        };
        proof {
            crate::bytes_util::lemma_first_match(line@, marker_close());
        }
        let ll = line.len();
        let lit = sub_vec(line.as_slice(), i + 3, ll);
        proof {
            assert(lit@ =~= line@.skip(i + 3));
        }
        let u = unfold(lit.as_slice());
        let t = trim_bytes(u.as_slice());
        let ghost sub = subject_of(rs[k as int]);
        let mut entry: Vec<u8> = format_decimal((cnt as u64) + 1);
        entry.push(':' as u8);
        entry.push(' ' as u8);
        match find_sub(t.as_slice(), sep.as_slice()) {
            Some(q) => {
                proof {
                    crate::bytes_util::lemma_first_match(t@, colon_sp());
                }
                let tl2 = t.len();
                let data = sub_vec(t.as_slice(), q + 2, tl2);
                proof {
                    assert(data@ =~= t@.skip(q + 2));
                }
                let trimmed_data = trim_bytes(data.as_slice());
                entry.extend_from_slice(trimmed_data.as_slice());
            },
            None => {
                let mut d = crate::envelope::no_subject_vec();
                entry.append(&mut d);
            },
        }
        entry.push('\n' as u8);
        proof {
            assert(sub is Some);
            assert(entry@ =~= list_entry(cnt as nat, sub.unwrap()));
        }
        out.extend_from_slice(entry.as_slice());
        proof {
            assert(list_out(rs, k + 1) == list_out(rs, k as int) + list_entry(
                count_untagged(rs, k as int),
                subject_of(rs[k as int]).unwrap(),
            ));
        }
        cnt = cnt + 1;
        k = k + 1;
    }
    proof {
        lemma_first_bad(rs);
        if first_bad(rs) is Some {
            let j = first_bad(rs).unwrap();
            assert(!is_bad_line(rs[j]));
        }
    }
    (out, Ok(()))
}

/// Whether `pat` occurs anywhere in `s`.
pub open spec fn contains_sub(s: Seq<u8>, pat: Seq<u8>) -> bool {
    first_match(s, pat) is Some
}

/// The verdict on a MIME header response group: the literal after the first
/// line's `}` CR LF marker is unfolded and split at its first CR LF into the
/// MIME-Version field and the Content-Type field; the former must mention
/// `1.0`, the latter `multipart/alternative; boundary=`.
pub open spec fn mime_header_result(rs: Seq<Seq<u8>>) -> Result<(), Error> {
    if rs.len() == 0 {
        Err(Error::Infallible)
    } else {
        match split_once_spec(trim_seq(rs[0]), marker_close()) {
            None => Err(Error::Infallible),
            Some(p) => {
                let u = unfolded(p.1);
                match split_once_spec(u, crlf()) {
                    None => Err(Error::MalformedHeader),
                    Some(q) => if contains_sub(q.0, mime_version_kw()) && contains_sub(
                        q.1,
                        mime_boundary_kw(),
                    ) {
                        Ok(())
                    } else {
                        Err(Error::MimeHeaderMatchFail)
                    },
                }
            },
        }
    }
}

/// Validates the MIME header response group.
pub fn mime_header_check(responses: &Vec<Vec<u8>>) -> (r: Result<(), Error>)
    ensures
        r == mime_header_result(responses.deep_view()),
{
    if responses.len() == 0 {
        return Err(Error::Infallible);
    }
    let line = &responses[0];
    proof {
        assert(responses.deep_view()[0] == line@);
    }
    let trimmed = trim_bytes(line.as_slice());
    let marker: Vec<u8> = vec!['}' as u8, '\r' as u8, '\n' as u8];
    proof {
        assert(marker@ =~= marker_close());
    }
    let i = match find_sub(trimmed.as_slice(), marker.as_slice()) {
        Some(i) => i,
        None => {
            return Err(Error::Infallible);
        },
    };
    proof {
        crate::bytes_util::lemma_first_match(trimmed@, marker_close());
    }
    let tl = trimmed.len();
    let lit = sub_vec(trimmed.as_slice(), i + 3, tl);
    proof {
        assert(lit@ =~= trimmed@.skip(i + 3));
    }
    let u = unfold(lit.as_slice());
    let crlf_pat: Vec<u8> = vec!['\r' as u8, '\n' as u8];
    proof {
        assert(crlf_pat@ =~= crlf());
    }
    let j = match find_sub(u.as_slice(), crlf_pat.as_slice()) {
        Some(j) => j,
        None => {
            return Err(Error::MalformedHeader);
        },
    };
    proof {
        crate::bytes_util::lemma_first_match(u@, crlf());
    }
    let mime = sub_vec(u.as_slice(), 0, j);
    let ul = u.len();
    let content = sub_vec(u.as_slice(), j + 2, ul);
    proof {
        assert(mime@ =~= u@.take(j as int));
        assert(content@ =~= u@.skip(j + 2));
    }
    let version_kw = crate::protocol::mime_version_kw_vec();
    let boundary_kw = crate::protocol::mime_boundary_kw_vec();
    let has_version = find_sub(mime.as_slice(), version_kw.as_slice()).is_some();
    let has_boundary = find_sub(content.as_slice(), boundary_kw.as_slice()).is_some();
    if !has_version || !has_boundary {
        return Err(Error::MimeHeaderMatchFail);
    }
    Ok(())
}

/// `)(` separators in `s`, counted left to right without overlap.
pub open spec fn sep_count(s: Seq<u8>) -> nat
    decreases s.len(),
{
    if s.len() < 2 {
        0
    } else if s[0] == ')' as u8 && s[1] == '(' as u8 {
        1 + sep_count(s.skip(2))
    } else {
        sep_count(s.skip(1))
    }
}

/// Counts the `)(` separators in the first `upto` bytes of a slice.
fn count_seps(s: &[u8], upto: usize) -> (r: usize)
    requires
        upto <= s@.len(),
    ensures
        r == sep_count(s@.take(upto as int)),
        2 * r <= upto,
{
    let ghost t = s@.take(upto as int);
    let mut cnt: usize = 0;
    let mut i: usize = 0;
    proof {
        assert(t.skip(0) =~= t);
    }
    while i < upto
        invariant
            i <= upto <= s@.len(),
            t == s@.take(upto as int),
            2 * cnt <= i,
            sep_count(t) == cnt + sep_count(t.skip(i as int)),
        decreases upto - i,
    {
        let ghost rem = t.skip(i as int);
        if i + 1 < upto && s[i] == ')' as u8 && s[i + 1] == '(' as u8 {
            proof {
                assert(rem.len() >= 2);
                assert(rem[0] == ')' as u8 && rem[1] == '(' as u8);
                assert(rem.skip(2) =~= t.skip(i + 2));
                assert(sep_count(rem) == 1 + sep_count(t.skip(i + 2)));
            }
            cnt = cnt + 1;
            i = i + 2;
        } else {
            proof {
                if rem.len() >= 2 {
                    assert(rem[0] == t[i as int]);
                    assert(rem[1] == t[i + 1]);
                }
                assert(rem.skip(1) =~= t.skip(i + 1));
                if rem.len() < 2 {
                    assert(sep_count(rem) == sep_count(t.skip(i + 1))) by {
                        assert(rem.len() <= 1);
                        if rem.len() == 1 {
                            assert(t.skip(i + 1).len() == 0);
                        }
                    }
                } else {
                    assert(sep_count(rem) == sep_count(t.skip(i + 1)));
                }
            }
            i = i + 1;
        }
    }
    proof {
        assert(t.skip(i as int).len() <= 1);
        assert(sep_count(t.skip(i as int)) == 0);
    }
    cnt
}

/// The smaller of two optional positions, a missing one counting as larger.
pub open spec fn opt_min(a: Option<int>, b: Option<int>) -> Option<int> {
    match (a, b) {
        (Some(x), Some(y)) => if x <= y {
            Some(x)
        } else {
            Some(y)
        },
        (Some(x), None) => Some(x),
        (None, Some(y)) => Some(y),
        (None, None) => None,
    }
}

/// The earliest position where any recognized `text/plain` descriptor
/// starts in a BODYSTRUCTURE line.
pub open spec fn plain_start(s: Seq<u8>) -> Option<int> {
    opt_min(
        opt_min(first_match(s, plain_qp()), first_match(s, plain_7bit())),
        first_match(s, plain_8bit()),
    )
}

/// The verdict on a BODYSTRUCTURE response group: no recognized descriptor
/// is the match-failure error; otherwise the 1-based body-part index is one
/// more than the number of `)(` separators up to and including the
/// descriptor's first byte.
pub open spec fn plain_index_result(rs: Seq<Seq<u8>>) -> Result<int, Error> {
    if rs.len() == 0 {
        Err(Error::Infallible)
    } else {
        match plain_start(rs[0]) {
            None => Err(Error::MimeMatchFail),
            Some(i) => Ok(sep_count(rs[0].take(i + 1)) + 1 as int),
        }
    }
}

/// Finds the 1-based index of the first plain-text body part described by a
/// BODYSTRUCTURE response group.
#[verifier::rlimit(60)]
pub fn first_plain_index(responses: &Vec<Vec<u8>>) -> (r: Result<usize, Error>)
    ensures
        ({
            let want = plain_index_result(responses.deep_view());
            match r {
                Ok(k) => want == Ok::<int, Error>(k as int),
                Err(e) => want == Err::<int, Error>(e),
            }
        }),
{
    if responses.len() == 0 {
        return Err(Error::Infallible);
    }
    let line = &responses[0];
    proof {
        assert(responses.deep_view()[0] == line@);
    }
    let pat_qp = crate::protocol::plain_qp_vec();
    let pat_7 = crate::protocol::plain_7bit_vec();
    let pat_8 = crate::protocol::plain_8bit_vec();
    let f_qp = find_sub(line.as_slice(), pat_qp.as_slice());
    let f_7 = find_sub(line.as_slice(), pat_7.as_slice());
    let f_8 = find_sub(line.as_slice(), pat_8.as_slice());
    let m01 = min_opt(f_qp, f_7);
    let start = match min_opt(m01, f_8) {
        Some(s) => s,
        None => {
            return Err(Error::MimeMatchFail);
        },
    };
    proof {
        crate::bytes_util::lemma_first_match(line@, plain_qp());
        crate::bytes_util::lemma_first_match(line@, plain_7bit());
        crate::bytes_util::lemma_first_match(line@, plain_8bit());
        let si = start as int;
        assert(plain_start(line@) == Some(si));
        assert(match_at(line@, plain_qp(), si) || match_at(line@, plain_7bit(), si) || match_at(
            line@,
            plain_8bit(),
            si,
        ));
        assert(si + 1 <= line@.len());
    }
    let ll = line.len();
    proof {
        assert(start + 1 <= ll);
    }
    let cnt = count_seps(line.as_slice(), start + 1);
    Ok(cnt + 1)
}

/// The smaller of two optional positions.
fn min_opt(a: Option<usize>, b: Option<usize>) -> (r: Option<usize>)
    ensures
        ({
            let ai = match a {
                Some(x) => Some(x as int),
                None => None::<int>,
            };
            let bi = match b {
                Some(x) => Some(x as int),
                None => None::<int>,
            };
            let ri = match r {
                Some(x) => Some(x as int),
                None => None::<int>,
            };
            ri == opt_min(ai, bi)
        }),
{
    match (a, b) {
        (Some(x), Some(y)) => if x <= y {
            Some(x)
        } else {
            Some(y)
        },
        (Some(x), None) => Some(x),
        (None, Some(y)) => Some(y),
        (None, None) => None,
    }
}

} // verus!
