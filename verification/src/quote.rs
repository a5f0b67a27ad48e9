//! IMAP quoted-string encoding of user-supplied strings: backslashes are
//! doubled, double quotes are backslash-escaped, and the result is wrapped in
//! double quotes.

use vstd::prelude::*;

verus! {

/// The backslash-escaped body of a quoted string: `\` and `"` get a leading
/// backslash, every other byte is kept as it is.
pub open spec fn escaped(s: Seq<u8>) -> Seq<u8>
    decreases s.len(),
{
    if s.len() == 0 {
        Seq::empty()
    } else {
        let head = if s[0] == '\\' as u8 || s[0] == '"' as u8 {
            seq!['\\' as u8, s[0]]
        } else {
            seq![s[0]]
        };
        head + escaped(s.skip(1))
    }
}

/// The full quoted form: the escaped body wrapped in double quotes.
pub open spec fn quoted(s: Seq<u8>) -> Seq<u8> {
    seq!['"' as u8] + escaped(s) + seq!['"' as u8]
}

/// Decoding of a quoted-string body: a backslash takes the next byte
/// verbatim; a bare double quote or a trailing backslash is malformed.
pub open spec fn unescaped(s: Seq<u8>) -> Option<Seq<u8>>
    decreases s.len(),
{
    if s.len() == 0 {
        Some(Seq::empty())
    } else if s[0] == '\\' as u8 {
        if s.len() < 2 {
            None
        } else {
            match unescaped(s.skip(2)) {
                Some(rest) => Some(seq![s[1]] + rest),
                None => None,
            }
        }
    } else if s[0] == '"' as u8 {
        None
    } else {
        match unescaped(s.skip(1)) {
            Some(rest) => Some(seq![s[0]] + rest),
            None => None,
        }
    }
}

/// Decoding of an IMAP quoted string: strip the surrounding double quotes,
/// then unescape the body.
pub open spec fn quoted_decode(q: Seq<u8>) -> Option<Seq<u8>> {
    if q.len() >= 2 && q[0] == '"' as u8 && q[q.len() - 1] == '"' as u8 {
        unescaped(q.subrange(1, q.len() - 1))
    } else {
        None
    }
}

/// Law: decoding the quoted form of any byte string yields the original
/// string; quoting loses nothing and is unambiguous.
pub proof fn lemma_quoted_roundtrip(s: Seq<u8>)
    ensures
        quoted_decode(quoted(s)) == Some(s),
{
    let q = quoted(s);
    assert(q.len() >= 2);
    assert(q[0] == '"' as u8);
    assert(q[q.len() - 1] == '"' as u8);
    assert(q.subrange(1, q.len() - 1) =~= escaped(s));
    lemma_unescape_escaped(s);
}

/// Unescaping undoes escaping on the body of a quoted string.
proof fn lemma_unescape_escaped(s: Seq<u8>)
    ensures
        unescaped(escaped(s)) == Some(s),
    decreases s.len(),
{
    if s.len() == 0 {
        assert(escaped(s) =~= Seq::<u8>::empty());
        assert(unescaped(escaped(s)) == Some(Seq::<u8>::empty()));
        assert(Seq::<u8>::empty() =~= s);
    } else {
        lemma_unescape_escaped(s.skip(1));
        let e = escaped(s);
        if s[0] == '\\' as u8 || s[0] == '"' as u8 {
            assert(e =~= seq!['\\' as u8, s[0]] + escaped(s.skip(1)));
            assert(e[0] == '\\' as u8);
            assert(e.len() >= 2);
            assert(e.skip(2) =~= escaped(s.skip(1)));
            assert(e[1] == s[0]);
            assert(unescaped(e) == Some(seq![s[0]] + s.skip(1)));
            assert(seq![s[0]] + s.skip(1) =~= s);
        } else {
            assert(e =~= seq![s[0]] + escaped(s.skip(1)));
            assert(e[0] == s[0]);
            assert(e[0] != '\\' as u8 && e[0] != '"' as u8);
            assert(e.skip(1) =~= escaped(s.skip(1)));
            assert(unescaped(e) == Some(seq![s[0]] + s.skip(1)));
            assert(seq![s[0]] + s.skip(1) =~= s);
        }
    }
}

/// Encodes a user-supplied string as an IMAP quoted string: `\` becomes
/// `\\`, `"` becomes `\"`, and the whole is wrapped in double quotes.
pub fn into_quoted(s: &Vec<u8>) -> (r: Vec<u8>)
    ensures
        r@ == quoted(s@),
{
    let mut r: Vec<u8> = Vec::new();
    r.push('"' as u8);
    let mut i: usize = 0;
    while i < s.len()
        invariant
            i <= s.len(),
            r@ == seq!['"' as u8] + escaped(s@.take(i as int)),
        decreases s.len() - i,
    {
        let b = s[i];
        if b == '\\' as u8 || b == '"' as u8 {
            r.push('\\' as u8);
            r.push(b);
        } else {
            r.push(b);
        }
        proof {
            lemma_escaped_snoc(s@.take(i as int), b);
            assert(s@.take(i + 1 as int) =~= s@.take(i as int).push(b));
            assert(r@ =~= seq!['"' as u8] + escaped(s@.take(i + 1 as int)));
        }
        i = i + 1;
    }
    r.push('"' as u8);
    proof {
        assert(s@.take(s@.len() as int) =~= s@);
        assert(r@ =~= quoted(s@));
    }
    r
}

/// Escaping distributes over appending one byte at the end.
proof fn lemma_escaped_snoc(s: Seq<u8>, b: u8)
    ensures
        escaped(s.push(b)) == escaped(s) + (if b == '\\' as u8 || b == '"' as u8 {
            seq!['\\' as u8, b]
        } else {
            seq![b]
        }),
    decreases s.len(),
{
    let tail = if b == '\\' as u8 || b == '"' as u8 {
        seq!['\\' as u8, b]
    } else {
        seq![b]
    };
    if s.len() == 0 {
        assert(s.push(b) =~= seq![b]);
        assert(s.push(b)[0] == b);
        assert(s.push(b).skip(1) =~= Seq::<u8>::empty());
        assert(escaped(s.push(b).skip(1)) == Seq::<u8>::empty());
        assert(escaped(s.push(b)) == tail + Seq::<u8>::empty());
        assert(tail + Seq::<u8>::empty() =~= tail);
        assert(escaped(s) + tail =~= tail);
    } else {
        lemma_escaped_snoc(s.skip(1), b);
        assert(s.push(b).skip(1) =~= s.skip(1).push(b));
        assert(s.push(b)[0] == s[0]);
        let head = if s[0] == '\\' as u8 || s[0] == '"' as u8 {
            seq!['\\' as u8, s[0]]
        } else {
            seq![s[0]]
        };
        assert(escaped(s.push(b)) == head + escaped(s.skip(1).push(b)));
        assert(escaped(s.push(b)) =~= escaped(s) + tail);
    }
}

} // verus!
