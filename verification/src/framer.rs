//! The response-group reader. One server response group is zero or more
//! untagged lines, each possibly extended by a literal octet block, followed
//! by exactly one tagged completion line. The reader is a step machine: the
//! caller reads one line (up to and including LF) or one exact-length literal
//! from the stream, hands the bytes over, and is told what to read next.

use vstd::prelude::*;

use crate::bytes_util::{
    all_digits, dec_value, find_sub, first_match, match_at, parse_decimal, sub_vec,
};
use crate::error::Error;

verus! {

/// An untagged data line starts with `*`.
pub open spec fn is_untagged_line(l: Seq<u8>) -> bool {
    l.len() > 0 && l[0] == '*' as u8
}

/// A tagged completion line starts with the expected tag followed by a space.
pub open spec fn is_tagged_line(l: Seq<u8>, tag: Seq<u8>) -> bool {
    l.len() > tag.len() && l.take(tag.len() as int) == tag && l[tag.len() as int] == ' ' as u8
}

/// The closing part of a literal marker: `}` CR LF.
pub open spec fn marker_close() -> Seq<u8> {
    seq!['}' as u8, '\r' as u8, '\n' as u8]
}

/// A line declares a literal when it contains a `{` and the substring `}`
/// CR LF somewhere.
pub open spec fn has_marker(l: Seq<u8>) -> bool {
    l.contains('{' as u8) && first_match(l, marker_close()) is Some
}

/// The literal declaration parsed out of a line: the decimal between the
/// first `{` and the first `}` gives the octet count, and the payload offset
/// is three bytes past the first `}` (right after `}` CR LF). A line without
/// a well-formed declaration yields nothing.
pub open spec fn literal_decl(l: Seq<u8>) -> Option<(int, nat)> {
    match (first_match(l, seq!['{' as u8]), first_match(l, seq!['}' as u8])) {
        (Some(a), Some(b)) => if a + 1 < b && all_digits(l.subrange(a + 1, b)) {
            Some((b + 3, dec_value(l.subrange(a + 1, b))))
        } else {
            None
        },
        _ => None,
    }
}

/// Whether a literal declaration is present and fits the machine word.
pub open spec fn decl_fits(l: Seq<u8>) -> bool {
    match literal_decl(l) {
        Some(d) => d.0 <= usize::MAX && d.1 <= usize::MAX,
        None => false,
    }
}

/// A one-byte pattern matches exactly at the positions holding that byte.
proof fn lemma_single_byte_match(l: Seq<u8>, c: u8)
    ensures
        forall|i: int|
            #[trigger] match_at(l, seq![c], i) <==> (0 <= i < l.len() && l[i] == c),
        forall|i: int| 0 <= i < l.len() && (#[trigger] l[i]) == c ==> match_at(l, seq![c], i),
{
    assert forall|i: int| 0 <= i < l.len() && l[i] == c implies match_at(l, seq![c], i) by {
        assert(l.subrange(i, i + 1) =~= seq![c]);
    }
    assert forall|i: int| match_at(l, seq![c], i) implies 0 <= i < l.len() && l[i] == c by {
        assert(l.subrange(i, i + 1)[0] == c);
    }
}

/// Parses the literal declaration of a response line: the index right after
/// `}` CR LF and the declared octet count. A malformed declaration is the
/// internal-invariant error.
pub fn parse_literal_length(bytes: &Vec<u8>) -> (r: Result<(usize, usize), Error>)
    ensures
        match r {
            Ok(p) => literal_decl(bytes@) == Some((p.0 as int, p.1 as nat)),
            Err(e) => e == Error::Infallible && !decl_fits(bytes@),
        },
{
    let open_pat: Vec<u8> = vec!['{' as u8];
    let close_pat: Vec<u8> = vec!['}' as u8];
    proof {
        assert(open_pat@ =~= seq!['{' as u8]);
        assert(close_pat@ =~= seq!['}' as u8]);
    }
    let a = match find_sub(bytes.as_slice(), open_pat.as_slice()) {
        Some(a) => a,
        None => {
            return Err(Error::Infallible);
        },
    };
    let b = match find_sub(bytes.as_slice(), close_pat.as_slice()) {
        Some(b) => b,
        None => {
            return Err(Error::Infallible);
        },
    };
    proof {
        lemma_single_byte_match(bytes@, '{' as u8);
        lemma_single_byte_match(bytes@, '}' as u8);
        crate::bytes_util::lemma_first_match(bytes@, seq!['{' as u8]);
        crate::bytes_util::lemma_first_match(bytes@, seq!['}' as u8]);
    }
    proof {
        assert(a < bytes@.len());
        assert(b < bytes@.len());
    }
    if b <= a || b - a < 2 {
        return Err(Error::Infallible);
    }
    let digits = sub_vec(bytes.as_slice(), a + 1, b);
    let n = match parse_decimal(digits.as_slice()) {
        Some(n) => n,
        None => {
            return Err(Error::Infallible);
        },
    };
    if b > usize::MAX - 3 {
        return Err(Error::Infallible);
    }
    Ok((b + 3, n))
}

/// What the caller must read from the stream next.
#[derive(Debug)]
pub enum FramerStep {
    /// Read one line, up to and including the next LF.
    NeedLine,
    /// Read exactly this many literal octets.
    NeedLiteral(usize),
    /// The group is complete; these are its lines in receipt order, the
    /// tagged completion last.
    Done(Vec<Vec<u8>>),
}

/// Collects one response group for one tag. Lines come in through
/// [`GroupReader::on_line`]; when a line declares a literal the reader asks
/// for the octets, which come in through [`GroupReader::on_literal`].
pub struct GroupReader {
    tag: Vec<u8>,
    lines: Vec<Vec<u8>>,
    awaiting: Option<Vec<u8>>,
}

impl GroupReader {
    /// The tag whose completion line ends the group.
    pub closed spec fn tag_spec(&self) -> Seq<u8> {
        self.tag@
    }

    /// The untagged lines collected so far, literals already appended.
    pub closed spec fn lines_spec(&self) -> Seq<Seq<u8>> {
        self.lines.deep_view()
    }

    /// The line whose declared literal octets are still outstanding.
    pub closed spec fn awaiting_spec(&self) -> Option<Seq<u8>> {
        match self.awaiting {
            Some(l) => Some(l@),
            None => None,
        }
    }

    /// A fresh reader for one command's response group.
    pub fn new(tag: Vec<u8>) -> (r: GroupReader)
        ensures
            r.tag_spec() == tag@,
            r.lines_spec() == Seq::<Seq<u8>>::empty(),
            r.awaiting_spec() is None,
    {
        let r = GroupReader { tag, lines: Vec::new(), awaiting: None };
        proof {
            assert(r.lines_spec() =~= Seq::<Seq<u8>>::empty());
        }
        r
    }

    /// Whether the reader is waiting for literal octets rather than a line.
    pub fn is_awaiting(&self) -> (r: bool)
        ensures
            r == (self.awaiting_spec() is Some),
    {
        self.awaiting.is_some()
    }

    /// Takes one line read from the stream and decides: an untagged line
    /// with a literal declaration makes the reader wait for the octets; an
    /// untagged line without one is collected; the tagged completion line
    /// finishes the group; anything else is discarded.
    pub fn on_line(&mut self, line: Vec<u8>) -> (r: Result<FramerStep, Error>)
        requires
            old(self).awaiting_spec() is None,
        ensures
            final(self).tag_spec() == old(self).tag_spec(),
            ({
                let l = line@;
                let t = old(self).tag_spec();
                let ls = old(self).lines_spec();
                if is_untagged_line(l) && has_marker(l) && decl_fits(l) {
                    &&& r matches Ok(FramerStep::NeedLiteral(n)) && n as nat
                        == literal_decl(l).unwrap().1
                    &&& final(self).lines_spec() == ls
                    &&& final(self).awaiting_spec() == Some(l)
                } else if is_untagged_line(l) && has_marker(l) {
                    &&& r matches Err(e) && e == Error::Infallible
                    &&& final(self).lines_spec() == ls
                    &&& final(self).awaiting_spec() is None
                } else if is_untagged_line(l) {
                    &&& r matches Ok(FramerStep::NeedLine)
                    &&& final(self).lines_spec() == ls.push(l)
                    &&& final(self).awaiting_spec() is None
                } else if is_tagged_line(l, t) {
                    &&& r matches Ok(FramerStep::Done(g)) && g.deep_view() == ls.push(l)
                    &&& final(self).lines_spec() == Seq::<Seq<u8>>::empty()
                    &&& final(self).awaiting_spec() is None
                } else {
                    &&& r matches Ok(FramerStep::NeedLine)
                    &&& final(self).lines_spec() == ls
                    &&& final(self).awaiting_spec() is None
                }
            }),
    {
        let ghost ls = self.lines.deep_view();
        if line.len() > 0 && line[0] == '*' as u8 {
            let open_pat: Vec<u8> = vec!['{' as u8];
            let close_vec: Vec<u8> = vec!['}' as u8, '\r' as u8, '\n' as u8];
            proof {
                assert(open_pat@ =~= seq!['{' as u8]);
                assert(close_vec@ =~= marker_close());
                lemma_single_byte_match(line@, '{' as u8);
                crate::bytes_util::lemma_first_match(line@, seq!['{' as u8]);
            }
            let has_open = find_sub(line.as_slice(), open_pat.as_slice()).is_some();
            let has_close = find_sub(line.as_slice(), close_vec.as_slice()).is_some();
            if has_open && has_close {
                match parse_literal_length(&line) {
                    Ok((_, n)) => {
                        self.awaiting = Some(line);
                        Ok(FramerStep::NeedLiteral(n))
                    },
                    Err(e) => Err(e),
                }
            } else {
                proof {
                    assert(!has_marker(line@));
                }
                self.lines.push(line);
                proof {
                    lemma_deep_view_push(old(self).lines, self.lines);
                }
                Ok(FramerStep::NeedLine)
            }
        } else {
            let tagged = line.len() > self.tag.len() && crate::bytes_util::is_prefix(
                self.tag.as_slice(),
                line.as_slice(),
            ) && line[self.tag.len()] == ' ' as u8;
            proof {
                if line@.len() > self.tag@.len() && self.tag@.is_prefix_of(line@) {
                    assert(line@.take(self.tag@.len() as int) =~= self.tag@);
                }
                assert(tagged == is_tagged_line(line@, self.tag@));
            }
            if tagged {
                self.lines.push(line);
                proof {
                    lemma_deep_view_push(old(self).lines, self.lines);
                }
                let mut out: Vec<Vec<u8>> = Vec::new();
                core::mem::swap(&mut out, &mut self.lines);
                proof {
                    assert(self.lines.deep_view() =~= Seq::<Seq<u8>>::empty());
                }
                Ok(FramerStep::Done(out))
            } else {
                Ok(FramerStep::NeedLine)
            }
        }
    }

    /// Takes the literal octets that the current line declared and appends
    /// them verbatim to that line, which is then collected. The octets are
    /// never re-interpreted.
    pub fn on_literal(&mut self, literal: Vec<u8>) -> (r: FramerStep)
        requires
            old(self).awaiting_spec() is Some,
        ensures
            final(self).tag_spec() == old(self).tag_spec(),
            final(self).lines_spec() == old(self).lines_spec().push(
                old(self).awaiting_spec().unwrap() + literal@,
            ),
            final(self).awaiting_spec() is None,
            r is NeedLine,
    {
        let mut line = self.awaiting.take().unwrap();
        let mut lit = literal;
        line.append(&mut lit);
        self.lines.push(line);
        proof {
            lemma_deep_view_push(old(self).lines, self.lines);
        }
        FramerStep::NeedLine
    }
}

/// Pushing onto a vector of byte vectors pushes the element's view onto the
/// deep view.
proof fn lemma_deep_view_push(pre: Vec<Vec<u8>>, post: Vec<Vec<u8>>)
    requires
        post@.len() == pre@.len() + 1,
        forall|i: int| 0 <= i < pre@.len() ==> post@[i] == pre@[i],
    ensures
        post.deep_view() == pre.deep_view().push(post@[post@.len() - 1]@),
{
    assert(post.deep_view() =~~= pre.deep_view().push(post@[post@.len() - 1]@));
}

/// Law: an untagged line that ends with a well-formed literal marker
/// `{N}` CR LF, with no brace bytes before the marker, declares a literal of
/// exactly N octets starting right after the marker — that is, at the end of
/// the line as read. Hence, once the N octets `b` are appended, the stored
/// line ends with exactly `b` after the `}` CR LF, whatever bytes `b` holds.
#[verifier::rlimit(60)]
pub proof fn lemma_literal_roundtrip(pre: Seq<u8>, digits: Seq<u8>, n: nat, b: Seq<u8>)
    requires
        pre.len() > 0,
        pre[0] == '*' as u8,
        forall|j: int| 0 <= j < pre.len() ==> pre[j] != '{' as u8 && pre[j] != '}' as u8,
        digits.len() >= 1,
        all_digits(digits),
        dec_value(digits) == n,
        b.len() == n,
    ensures
        ({
            let l = pre + seq!['{' as u8] + digits + marker_close();
            &&& is_untagged_line(l)
            &&& has_marker(l)
            &&& literal_decl(l) == Some((l.len() as int, n))
            &&& (l + b).skip(l.len() as int) == b
        }),
{
    let l = pre + seq!['{' as u8] + digits + marker_close();
    let a = pre.len() as int;
    let c = a + 1 + digits.len();
    assert(l[0] == pre[0]);
    assert(l[a] == '{' as u8);
    assert(l[c] == '}' as u8);
    lemma_single_byte_match(l, '{' as u8);
    lemma_single_byte_match(l, '}' as u8);
    crate::bytes_util::lemma_first_match(l, seq!['{' as u8]);
    crate::bytes_util::lemma_first_match(l, seq!['}' as u8]);
    // the first `{` is at a, the first `}` at c
    assert(forall|j: int| 0 <= j < a ==> l[j] == pre[j]);
    assert(forall|j: int| a < j < c ==> l[j] == digits[j - a - 1]);
    assert(forall|j: int| 0 <= j < a ==> l[j] != '{' as u8);
    assert forall|j: int| a < j < c implies l[j] != '{' as u8 && l[j] != '}' as u8 by {
        assert('0' as u8 <= digits[j - a - 1] <= '9' as u8);
    }
    let fo = first_match(l, seq!['{' as u8]);
    let fc = first_match(l, seq!['}' as u8]);
    assert(match_at(l, seq!['{' as u8], a));
    assert(match_at(l, seq!['}' as u8], c));
    assert(fo is Some);
    assert(fc is Some);
    let ao = fo.unwrap();
    let co = fc.unwrap();
    assert(l[ao] == '{' as u8);
    assert(ao == a) by {
        if ao < a {
            assert(l[ao] != '{' as u8);
        }
        if ao > a {
            assert(!match_at(l, seq!['{' as u8], a));
        }
    }
    assert(co == c) by {
        if co < a {
            assert(l[co] != '}' as u8);
        }
        if a < co < c {
            assert(l[co] != '}' as u8);
        }
        if co == a {
            assert(l[co] == '{' as u8 && '{' as u8 != '}' as u8);
        }
        if co > c {
            assert(!match_at(l, seq!['}' as u8], c));
        }
    }
    assert(l.subrange(a + 1, c) =~= digits);
    assert(literal_decl(l) == Some((c + 3, n)));
    assert(c + 3 == l.len());
    // the marker `}` CR LF is present at c
    assert(l[c + 1] == '\r' as u8);
    assert(l[c + 2] == '\n' as u8);
    assert(l.subrange(c, c + 3) =~= marker_close());
    crate::bytes_util::lemma_first_match(l, marker_close());
    assert(match_at(l, marker_close(), c));
    assert(first_match(l, marker_close()) is Some);
    assert(l.contains('{' as u8));
    assert((l + b).skip(l.len() as int) =~= b);
}

/// Whether every byte may appear in a tag: letters, digits, or underscore.
pub open spec fn is_tag_byte(b: u8) -> bool {
    ('A' as u8 <= b <= 'Z' as u8) || ('a' as u8 <= b <= 'z' as u8) || ('0' as u8 <= b <= '9' as u8)
        || b == '_' as u8
}

/// A well-formed tag: non-empty, only letters, digits and underscores, so in
/// particular no whitespace and no `*`.
pub open spec fn tag_wf(t: Seq<u8>) -> bool {
    t.len() >= 1 && forall|i: int| 0 <= i < t.len() ==> is_tag_byte(#[trigger] t[i])
}

/// Law: completion lines for two different well-formed tags cannot be
/// confused. A line carrying the other tag is neither untagged nor a
/// completion for the expected tag — the reader discards it — while the
/// expected tag's own completion line is recognized.
pub proof fn lemma_tag_discrimination(t1: Seq<u8>, t2: Seq<u8>, rest1: Seq<u8>, rest2: Seq<u8>)
    requires
        t1 != t2,
        tag_wf(t1),
        tag_wf(t2),
    ensures
        !is_untagged_line(t2 + seq![' ' as u8] + rest2),
        !is_tagged_line(t2 + seq![' ' as u8] + rest2, t1),
        is_tagged_line(t1 + seq![' ' as u8] + rest1, t1),
{
    let l1 = t1 + seq![' ' as u8] + rest1;
    let l2 = t2 + seq![' ' as u8] + rest2;
    assert(l2[0] == t2[0]);
    assert(is_tag_byte(t2[0]));
    assert(l2[0] != '*' as u8);
    assert(l1.take(t1.len() as int) =~= t1);
    assert(l1[t1.len() as int] == ' ' as u8);
    if is_tagged_line(l2, t1) {
        let n1 = t1.len() as int;
        let n2 = t2.len() as int;
        assert(l2.take(n1) == t1);
        if n1 < n2 {
            // t2 would carry a tag byte where l2 must show t1's trailing space
            assert(l2[n1] == t2[n1]);
            assert(is_tag_byte(t2[n1]));
            assert(l2[n1] == ' ' as u8);
            assert(!is_tag_byte(' ' as u8));
            assert(false);
        } else if n1 == n2 {
            assert(l2.take(n1) =~= t2);
            assert(t1 == t2);
            assert(false);
        } else {
            // t1 would have to contain the space that follows t2 in l2
            assert(l2.take(n1)[n2] == l2[n2]);
            assert(l2[n2] == ' ' as u8);
            assert(t1[n2] == ' ' as u8);
            assert(is_tag_byte(t1[n2]));
            assert(false);
        }
    }
}

} // verus!
