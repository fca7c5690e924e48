//! Substring replacement, used to derive one tool path from another.

use vstd::prelude::*;

use crate::text::starts_with_at;
use crate::text::spec_starts_with_at;

verus! {

/// `s` with every occurrence of `from` replaced by `to`: occurrences
/// are found left to right and do not overlap.
pub open spec fn replace_seq(s: Seq<char>, from: Seq<char>, to: Seq<char>) -> Seq<char>
    decreases s.len() when from.len() > 0
{
    if s.len() < from.len() {
        s
    } else if s.subrange(0, from.len() as int) == from {
        to + replace_seq(s.skip(from.len() as int), from, to)
    } else {
        seq![s[0]] + replace_seq(s.skip(1), from, to)
    }
}

/// Replaces every occurrence of `from` in `s` by `to`, left to right,
/// without overlap.
pub fn replace_all(s: &str, from: &str, to: &str) -> (r: String)
    requires
        from@.len() > 0,
    ensures
        r@ == replace_seq(s@, from@, to@),
{
    let len = s.unicode_len();
    let flen = from.unicode_len();
    let mut out = String::new();
    let mut i: usize = 0;
    proof {
        assert(s@.skip(0) =~= s@);
    }
    while i < len
        invariant
            i <= len,
            replace_seq(s@, from@, to@) == out@ + replace_seq(s@.skip(i as int), from@, to@),
        decreases len - i,
    {
        let ghost rest = s@.skip(i as int);
        if starts_with_at(s, i, from) {
            proof {
                assert(rest.subrange(0, from@.len() as int) =~= s@.subrange(
                    i as int,
                    i + from@.len(),
                ));
                assert(rest.skip(from@.len() as int) =~= s@.skip(i + from@.len()));
                assert(replace_seq(rest, from@, to@) == to@ + replace_seq(
                    s@.skip(i + from@.len()),
                    from@,
                    to@,
                ));
            }
            out.append(to);
            i = i + flen;
        } else {
            let piece = s.substring_char(i, i + 1);
            proof {
                assert(seq![rest[0]] =~= piece@);
                assert(rest.skip(1) =~= s@.skip(i + 1));
                if rest.len() >= from@.len() {
                    assert(rest.subrange(0, from@.len() as int) =~= s@.subrange(
                        i as int,
                        i + from@.len(),
                    ));
                    assert(replace_seq(rest, from@, to@) == seq![rest[0]] + replace_seq(
                        rest.skip(1),
                        from@,
                        to@,
                    ));
                } else {
                    assert(replace_seq(rest, from@, to@) == rest);
                    assert(rest.skip(1).len() < from@.len());
                    assert(replace_seq(rest.skip(1), from@, to@) == rest.skip(1));
                    assert(rest =~= seq![rest[0]] + rest.skip(1));
                }
            }
            out.append(piece);
            i = i + 1;
        }
    }
    proof {
        assert(s@.skip(len as int) =~= Seq::<char>::empty());
        assert(replace_seq(Seq::<char>::empty(), from@, to@) == Seq::<char>::empty());
    }
    out
}

} // verus!
