//! The command engine: building the byte image of a tagged command, and
//! classifying the tagged completion line of a response group.

use vstd::prelude::*;

use crate::bytes_util::{is_prefix, lower_seq, to_lower_vec};
use crate::error::Error;

verus! {

/// A single space byte.
pub open spec fn sp() -> Seq<u8> {
    seq![' ' as u8]
}

/// The CR LF line terminator.
pub open spec fn crlf() -> Seq<u8> {
    seq!['\r' as u8, '\n' as u8]
}

/// Each argument, preceded by one space, in order.
pub open spec fn joined_tail(args: Seq<Seq<u8>>) -> Seq<u8>
    decreases args.len(),
{
    if args.len() == 0 {
        Seq::empty()
    } else {
        sp() + args[0] + joined_tail(args.skip(1))
    }
}

/// The byte image of a tagged command: the tag, the verb and the arguments
/// separated by single spaces, then CR LF.
pub open spec fn command_bytes(tag: Seq<u8>, verb: Seq<u8>, args: Seq<Seq<u8>>) -> Seq<u8> {
    tag + sp() + verb + joined_tail(args) + crlf()
}

/// Appending one argument extends the joined tail by a space and that
/// argument.
proof fn lemma_joined_tail_snoc(args: Seq<Seq<u8>>, x: Seq<u8>)
    ensures
        joined_tail(args.push(x)) == joined_tail(args) + sp() + x,
    decreases args.len(),
{
    if args.len() == 0 {
        assert(args.push(x) =~= seq![x]);
        assert(args.push(x)[0] == x);
        assert(args.push(x).skip(1) =~= Seq::<Seq<u8>>::empty());
        assert(joined_tail(args.push(x)) == sp() + x + joined_tail(Seq::<Seq<u8>>::empty()));
        assert(joined_tail(args.push(x)) =~= joined_tail(args) + sp() + x);
    } else {
        lemma_joined_tail_snoc(args.skip(1), x);
        assert(args.push(x).skip(1) =~= args.skip(1).push(x));
        assert(args.push(x)[0] == args[0]);
        assert(joined_tail(args.push(x)) == sp() + args[0] + joined_tail(args.skip(1).push(x)));
        assert(joined_tail(args.push(x)) =~= joined_tail(args) + sp() + x);
    }
}

/// Builds the outgoing bytes `tag SP verb (SP arg)* CRLF` of one tagged
/// command.
pub fn build_command(tag: &Vec<u8>, verb: &Vec<u8>, args: &Vec<Vec<u8>>) -> (r: Vec<u8>)
    ensures
        r@ == command_bytes(tag@, verb@, args.deep_view()),
{
    let mut out: Vec<u8> = Vec::new();
    out.extend_from_slice(tag.as_slice());
    out.push(' ' as u8);
    out.extend_from_slice(verb.as_slice());
    proof {
        assert(args.deep_view().take(0) =~= Seq::<Seq<u8>>::empty());
        assert(out@ =~= tag@ + sp() + verb@ + joined_tail(args.deep_view().take(0)));
    }
    let mut i: usize = 0;
    while i < args.len()
        invariant
            i <= args@.len(),
            args.deep_view().len() == args@.len(),
            out@ == tag@ + sp() + verb@ + joined_tail(args.deep_view().take(i as int)),
        decreases args.len() - i,
    {
        out.push(' ' as u8);
        out.extend_from_slice(args[i].as_slice());
        proof {
            let dv = args.deep_view();
            assert(dv[i as int] == args@[i as int]@);
            lemma_joined_tail_snoc(dv.take(i as int), dv[i as int]);
            assert(dv.take(i + 1) =~= dv.take(i as int).push(dv[i as int]));
            assert(out@ =~= tag@ + sp() + verb@ + joined_tail(dv.take(i + 1)));
        }
        i = i + 1;
    }
    out.push('\r' as u8);
    out.push('\n' as u8);
    proof {
        assert(args.deep_view().take(args.deep_view().len() as int) =~= args.deep_view());
        assert(out@ =~= command_bytes(tag@, verb@, args.deep_view()));
    }
    out
}

/// The prefix an `OK` completion must show once the line is lower-cased:
/// the tag, a space, and `ok`.
pub open spec fn ok_prefix(tag: Seq<u8>) -> Seq<u8> {
    tag + seq![' ' as u8, 'o' as u8, 'k' as u8]
}

/// Classifies the tagged completion line of a response group: the last line
/// is lower-cased and must start with the tag followed by ` ok`. Any other
/// completion is a failed command; an empty group cannot happen and is the
/// internal-invariant error.
pub fn check_command_success(tag: &Vec<u8>, responses: &Vec<Vec<u8>>) -> (r: Result<(), Error>)
    ensures
        match r {
            Ok(()) => responses@.len() > 0 && ok_prefix(tag@).is_prefix_of(
                lower_seq(responses@.last()@),
            ),
            Err(e) => if responses@.len() == 0 {
                e == Error::Infallible
            } else {
                e == Error::CommandFailed && !ok_prefix(tag@).is_prefix_of(
                    lower_seq(responses@.last()@),
                )
            },
        },
{
    if responses.len() == 0 {
        return Err(Error::Infallible);
    }
    let last = &responses[responses.len() - 1];
    let lowered = to_lower_vec(last);
    let mut prefix: Vec<u8> = Vec::new();
    prefix.extend_from_slice(tag.as_slice());
    prefix.push(' ' as u8);
    prefix.push('o' as u8);
    prefix.push('k' as u8);
    proof {
        assert(prefix@ =~= ok_prefix(tag@));
    }
    if is_prefix(prefix.as_slice(), lowered.as_slice()) {
        Ok(())
    } else {
        Err(Error::CommandFailed)
    }
}

} // verus!
