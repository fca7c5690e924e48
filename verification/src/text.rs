//! Character classes and elementary scanning over text.
//!
//! The tool-specific line formats are pattern matches over runs of
//! characters from a few classes (hexadecimal digits, whitespace,
//! word characters). `run_end` gives the end of the maximal run of a
//! class starting at a position; the format matchers in the other
//! modules are built from it.

use vstd::prelude::*;

verus! {

/// Whitespace, as the log and dump formats use it (ASCII whitespace).
pub open spec fn is_space_char(c: char) -> bool {
    c == ' ' || c == '\t' || c == '\n' || c == '\r' || c == '\x0b' || c == '\x0c'
}

/// A hexadecimal digit.
pub open spec fn is_hex_char(c: char) -> bool {
    ('0' <= c && c <= '9') || ('a' <= c && c <= 'f') || ('A' <= c && c <= 'F')
}

/// A word character: letter, digit or underscore.
pub open spec fn is_word_char(c: char) -> bool {
    ('0' <= c && c <= '9') || ('a' <= c && c <= 'z') || ('A' <= c && c <= 'Z') || c == '_'
}

/// A decimal digit.
pub open spec fn is_dec_char(c: char) -> bool {
    '0' <= c && c <= '9'
}

pub fn space_char(c: char) -> (b: bool)
    ensures
        b == is_space_char(c),
{
    c == ' ' || c == '\t' || c == '\n' || c == '\r' || c == '\x0b' || c == '\x0c'
}

pub fn hex_char(c: char) -> (b: bool)
    ensures
        b == is_hex_char(c),
{
    ('0' <= c && c <= '9') || ('a' <= c && c <= 'f') || ('A' <= c && c <= 'F')
}

pub fn word_char(c: char) -> (b: bool)
    ensures
        b == is_word_char(c),
{
    ('0' <= c && c <= '9') || ('a' <= c && c <= 'z') || ('A' <= c && c <= 'Z') || c == '_'
}

pub fn dec_char(c: char) -> (b: bool)
    ensures
        b == is_dec_char(c),
{
    '0' <= c && c <= '9'
}

/// The end of the maximal run of characters satisfying `p` that starts
/// at position `i`: the least `j >= i` with `j == s.len()` or `!p(s[j])`.
pub open spec fn run_end(s: Seq<char>, i: int, p: spec_fn(char) -> bool) -> int
    decreases s.len() - i when 0 <= i <= s.len()
{
    if i >= s.len() || !p(s[i]) {
        i
    } else {
        run_end(s, i + 1, p)
    }
}

pub proof fn lemma_run_end(s: Seq<char>, i: int, p: spec_fn(char) -> bool)
    requires
        0 <= i <= s.len(),
    ensures
        i <= run_end(s, i, p) <= s.len(),
        forall|k: int| i <= k < run_end(s, i, p) ==> p(#[trigger] s[k]),
        run_end(s, i, p) < s.len() ==> !p(s[run_end(s, i, p)]),
    decreases s.len() - i,
{
    if i >= s.len() || !p(s[i]) {
    } else {
        lemma_run_end(s, i + 1, p);
    }
}

/// The hexadecimal-digit class as a value, for `run_end`.
pub open spec fn hexp() -> spec_fn(char) -> bool {
    |c: char| is_hex_char(c)
}

/// The whitespace class as a value, for `run_end`.
pub open spec fn spacep() -> spec_fn(char) -> bool {
    |c: char| is_space_char(c)
}

/// The non-whitespace class as a value, for `run_end`.
pub open spec fn non_spacep() -> spec_fn(char) -> bool {
    |c: char| !is_space_char(c)
}

/// The decimal-digit class as a value, for `run_end`.
pub open spec fn decp() -> spec_fn(char) -> bool {
    |c: char| is_dec_char(c)
}

/// Everything but a line break, for `run_end`.
pub open spec fn non_newlinep() -> spec_fn(char) -> bool {
    |c: char| c != '\n'
}

/// Everything but a colon, for `run_end`.
pub open spec fn non_colonp() -> spec_fn(char) -> bool {
    |c: char| c != ':'
}

/// Scanning a run starting inside `s` is scanning it in the tail of `s`.
pub proof fn lemma_run_end_shift(s: Seq<char>, from: int, i: int, p: spec_fn(char) -> bool)
    requires
        0 <= from <= i <= s.len(),
    ensures
        run_end(s.skip(from), i - from, p) == run_end(s, i, p) - from,
    decreases s.len() - i,
{
    assert(s.skip(from).len() == s.len() - from);
    if i >= s.len() || !p(s[i]) {
        assert(i - from >= s.skip(from).len() || !p(s.skip(from)[i - from]));
    } else {
        assert(p(s.skip(from)[i - from]));
        lemma_run_end_shift(s, from, i + 1, p);
    }
}

/// The end of the maximal hexadecimal-digit run starting at `from`.
pub fn scan_hex_end(s: &str, from: usize) -> (j: usize)
    requires
        from <= s@.len(),
    ensures
        j == run_end(s@, from as int, hexp()),
        from <= j <= s@.len(),
{
    let len = s.unicode_len();
    let mut j: usize = from;
    while j < len && hex_char(s.get_char(j))
        invariant
            from <= j <= len,
            run_end(s@, from as int, hexp()) == run_end(s@, j as int, hexp()),
        decreases len - j,
    {
        j += 1;
    }
    j
}

/// The end of the maximal whitespace run starting at `from`.
pub fn scan_space_end(s: &str, from: usize) -> (j: usize)
    requires
        from <= s@.len(),
    ensures
        j == run_end(s@, from as int, spacep()),
        from <= j <= s@.len(),
{
    let len = s.unicode_len();
    let mut j: usize = from;
    while j < len && space_char(s.get_char(j))
        invariant
            from <= j <= len,
            run_end(s@, from as int, spacep()) == run_end(s@, j as int, spacep()),
        decreases len - j,
    {
        j += 1;
    }
    j
}

/// The end of the maximal non-whitespace run starting at `from`.
pub fn scan_non_space_end(s: &str, from: usize) -> (j: usize)
    requires
        from <= s@.len(),
    ensures
        j == run_end(s@, from as int, non_spacep()),
        from <= j <= s@.len(),
{
    let len = s.unicode_len();
    let mut j: usize = from;
    while j < len && !space_char(s.get_char(j))
        invariant
            from <= j <= len,
            run_end(s@, from as int, non_spacep()) == run_end(s@, j as int, non_spacep()),
        decreases len - j,
    {
        j += 1;
    }
    j
}

/// The end of the maximal decimal-digit run starting at `from`.
pub fn scan_dec_end(s: &str, from: usize) -> (j: usize)
    requires
        from <= s@.len(),
    ensures
        j == run_end(s@, from as int, decp()),
        from <= j <= s@.len(),
{
    let len = s.unicode_len();
    let mut j: usize = from;
    while j < len && dec_char(s.get_char(j))
        invariant
            from <= j <= len,
            run_end(s@, from as int, decp()) == run_end(s@, j as int, decp()),
        decreases len - j,
    {
        j += 1;
    }
    j
}

/// The position of the first line break at or after `from`, or the end.
pub fn scan_to_newline(s: &str, from: usize) -> (j: usize)
    requires
        from <= s@.len(),
    ensures
        j == run_end(s@, from as int, non_newlinep()),
        from <= j <= s@.len(),
{
    let len = s.unicode_len();
    let mut j: usize = from;
    while j < len && s.get_char(j) != '\n'
        invariant
            from <= j <= len,
            run_end(s@, from as int, non_newlinep()) == run_end(s@, j as int, non_newlinep()),
        decreases len - j,
    {
        j += 1;
    }
    j
}

/// The position of the first colon at or after `from`, or the end.
pub fn scan_to_colon(s: &str, from: usize) -> (j: usize)
    requires
        from <= s@.len(),
    ensures
        j == run_end(s@, from as int, non_colonp()),
        from <= j <= s@.len(),
{
    let len = s.unicode_len();
    let mut j: usize = from;
    while j < len && s.get_char(j) != ':'
        invariant
            from <= j <= len,
            run_end(s@, from as int, non_colonp()) == run_end(s@, j as int, non_colonp()),
        decreases len - j,
    {
        j += 1;
    }
    j
}

/// The lines of a text: pieces separated by `'\n'`, a final line break
/// ending the last line rather than opening an empty one.
pub open spec fn lines_of(s: Seq<char>) -> Seq<Seq<char>>
    decreases s.len(),
{
    if s.len() == 0 {
        Seq::empty()
    } else {
        let j = run_end(s, 0, non_newlinep());
        if 0 <= j && j < s.len() {
            seq![s.subrange(0, j)] + lines_of(s.skip(j + 1))
        } else {
            seq![s]
        }
    }
}

/// Splits a text into its lines.
pub fn split_lines(s: &str) -> (r: Vec<String>)
    ensures
        r@.map_values(|x: String| x@) == lines_of(s@),
{
    let len = s.unicode_len();
    let mut r: Vec<String> = Vec::new();
    let mut pos: usize = 0;
    proof {
        assert(s@.skip(0) =~= s@);
    }
    while pos < len
        invariant
            pos <= len,
            lines_of(s@) =~= r@.map_values(|x: String| x@) + lines_of(s@.skip(pos as int)),
        decreases len - pos,
    {
        let j = scan_to_newline(s, pos);
        let ghost rest = s@.skip(pos as int);
        proof {
            lemma_run_end_shift(s@, pos as int, pos as int, non_newlinep());
            assert(run_end(rest, 0, non_newlinep()) == j - pos);
            lemma_run_end(s@, pos as int, non_newlinep());
        }
        let piece = s.substring_char(pos, j);
        let line = String::from_str(piece);
        if j < len {
            proof {
                assert(rest.subrange(0, j - pos) =~= s@.subrange(pos as int, j as int));
                assert(rest.skip(j - pos + 1) =~= s@.skip(j + 1));
                assert(lines_of(rest) == seq![line@] + lines_of(s@.skip(j + 1)));
            }
            r.push(line);
            pos = j + 1;
            proof {
                assert(r@.map_values(|x: String| x@) =~= r@.drop_last().map_values(
                    |x: String| x@,
                ) + seq![line@]);
            }
        } else {
            proof {
                assert(rest.subrange(0, j - pos) =~= rest);
                assert(lines_of(rest) == seq![line@]);
            }
            r.push(line);
            pos = len;
            proof {
                assert(r@.map_values(|x: String| x@) =~= r@.drop_last().map_values(
                    |x: String| x@,
                ) + seq![line@]);
            }
        }
    }
    proof {
        assert(lines_of(s@.skip(pos as int)) =~= Seq::<Seq<char>>::empty());
        assert(r@.map_values(|x: String| x@) =~= lines_of(s@));
    }
    r
}

/// Whether the characters of `s` from `from` on begin with `pat`.
pub open spec fn spec_starts_with_at(s: Seq<char>, from: int, pat: Seq<char>) -> bool {
    from + pat.len() <= s.len() && s.subrange(from, from + pat.len() as int) == pat
}

/// Character-for-character equality of two string slices.
pub fn str_eq(a: &str, b: &str) -> (r: bool)
    ensures
        r == (a@ == b@),
{
    let alen = a.unicode_len();
    let blen = b.unicode_len();
    if alen != blen {
        assert(a@ != b@);
        return false;
    }
    let mut i: usize = 0;
    while i < alen
        invariant
            i <= alen,
            forall|k: int| 0 <= k < i ==> a@[k] == b@[k],
        decreases alen - i,
    {
        if a.get_char(i) != b.get_char(i) {
            assert(a@ != b@);
            return false;
        }
        i += 1;
    }
    proof {
        assert(a@ =~= b@);
    }
    true
}

/// Whether the characters of `s` from position `from` on begin with `pat`.
pub fn starts_with_at(s: &str, from: usize, pat: &str) -> (r: bool)
    requires
        from <= s@.len(),
    ensures
        r == spec_starts_with_at(s@, from as int, pat@),
{
    let slen = s.unicode_len();
    let plen = pat.unicode_len();
    if plen > slen - from {
        return false;
    }
    let mut i: usize = 0;
    while i < plen
        invariant
            i <= plen,
            from + plen <= slen,
            forall|k: int| 0 <= k < i ==> s@[from + k] == pat@[k],
        decreases plen - i,
    {
        if s.get_char(from + i) != pat.get_char(i) {
            assert(s@.subrange(from as int, from + pat@.len() as int)[i as int] != pat@[i as int]);
            return false;
        }
        i += 1;
    }
    proof {
        assert(s@.subrange(from as int, from + pat@.len() as int) =~= pat@);
    }
    true
}

} // verus!
