//! Filtering the raw log to the lines whose address lies in range.
//!
//! A line carries an address when it holds, anywhere in the line, a
//! record of five whitespace-separated fields: four runs of
//! hexadecimal digits and a final word. The third field is the
//! instruction address. The earliest such record in the line counts.

use vstd::prelude::*;

use crate::numbers::hex_val;
use crate::numbers::parse_hex_u32;
use crate::range::AddressRange;
use crate::text::hexp;
use crate::text::is_hex_char;
use crate::text::is_word_char;
use crate::text::lemma_run_end;
use crate::text::lines_of;
use crate::text::run_end;
use crate::text::scan_hex_end;
use crate::text::scan_space_end;
use crate::text::spacep;
use crate::text::split_lines;
use crate::text::word_char;

verus! {

/// Whether a five-field record begins at position `p` of `s`: a run of
/// hexadecimal digits, whitespace, a second run, whitespace, a third
/// run, whitespace, a fourth run, whitespace, and a word character.
pub open spec fn record_match_at(s: Seq<char>, p: int) -> bool {
    let e1 = run_end(s, p, hexp());
    let s1 = run_end(s, e1, spacep());
    let e2 = run_end(s, s1, hexp());
    let s2 = run_end(s, e2, spacep());
    let e3 = run_end(s, s2, hexp());
    let s3 = run_end(s, e3, spacep());
    let e4 = run_end(s, s3, hexp());
    let s4 = run_end(s, e4, spacep());
    e1 > p && s1 > e1 && e2 > s1 && s2 > e2 && e3 > s2 && s3 > e3 && e4 > s3 && s4 > e4 && s4
        < s.len() && is_word_char(s[s4])
}

/// The third field of the record that begins at position `p` of `s`.
pub open spec fn capture_at(s: Seq<char>, p: int) -> Seq<char> {
    let e1 = run_end(s, p, hexp());
    let s1 = run_end(s, e1, spacep());
    let e2 = run_end(s, s1, hexp());
    let s2 = run_end(s, e2, spacep());
    let e3 = run_end(s, s2, hexp());
    s.subrange(s2, e3)
}

/// The earliest position at or after `p` where a record begins.
pub open spec fn first_match_from(s: Seq<char>, p: int) -> Option<int>
    decreases s.len() - p when 0 <= p <= s.len()
{
    if p >= s.len() {
        None
    } else if record_match_at(s, p) {
        Some(p)
    } else {
        first_match_from(s, p + 1)
    }
}

/// The address field of a line: the third field of the earliest
/// record in it, if the line holds a record at all.
pub open spec fn record_addr_text(line: Seq<char>) -> Option<Seq<char>> {
    match first_match_from(line, 0) {
        Some(p) => Some(capture_at(line, p)),
        None => None,
    }
}

/// The address a line carries, if it holds a record whose address
/// field fits in 32 bits.
pub open spec fn record_addr(line: Seq<char>) -> Option<u32> {
    match record_addr_text(line) {
        Some(t) => if hex_val(t) <= u32::MAX {
            Some(hex_val(t) as u32)
        } else {
            None
        },
        None => None,
    }
}

/// Whether a line is retained by the filter: it carries an address
/// `a` with `start < a < start + size`, both bounds strict.
pub open spec fn line_in_range(line: Seq<char>, start: u32, size: u32) -> bool {
    match record_addr(line) {
        Some(a) => start < a && a < start + size,
        None => false,
    }
}

/// The retained lines, in order, each with a line break appended.
pub open spec fn filter_lines(lines: Seq<Seq<char>>, start: u32, size: u32) -> Seq<char>
    decreases lines.len(),
{
    if lines.len() == 0 {
        Seq::empty()
    } else {
        (if line_in_range(lines[0], start, size) {
            lines[0] + seq!['\n']
        } else {
            Seq::empty()
        }) + filter_lines(lines.skip(1), start, size)
    }
}

/// Range filter correctness: a log line carrying the address `a` is
/// retained for the range `[start, start + size)` exactly when
/// `start < a < start + size`, both bounds strict — an address equal
/// to either boundary is excluded.
pub proof fn lemma_range_filter_strict(line: Seq<char>, a: u32, start: u32, size: u32)
    requires
        record_addr(line) == Some(a),
    ensures
        line_in_range(line, start, size) <==> (start < a && a < start + size),
{
}

/// Looks for a record beginning exactly at position `p`, and gives the
/// bounds of its third field.
fn match_record_at(line: &str, p: usize) -> (m: Option<(usize, usize)>)
    requires
        p <= line@.len(),
    ensures
        m is Some <==> record_match_at(line@, p as int),
        m is Some ==> {
            &&& capture_at(line@, p as int) == line@.subrange(
                m.unwrap().0 as int,
                m.unwrap().1 as int,
            )
            &&& p <= m.unwrap().0 < m.unwrap().1 <= line@.len()
            &&& forall|k: int|
                m.unwrap().0 <= k < m.unwrap().1 ==> is_hex_char(#[trigger] line@[k])
        },
{
    let len = line.unicode_len();
    let e1 = scan_hex_end(line, p);
    if e1 == p {
        return None;
    }
    let s1 = scan_space_end(line, e1);
    if s1 == e1 {
        return None;
    }
    let e2 = scan_hex_end(line, s1);
    if e2 == s1 {
        return None;
    }
    let s2 = scan_space_end(line, e2);
    if s2 == e2 {
        return None;
    }
    let e3 = scan_hex_end(line, s2);
    if e3 == s2 {
        return None;
    }
    let s3 = scan_space_end(line, e3);
    if s3 == e3 {
        return None;
    }
    let e4 = scan_hex_end(line, s3);
    if e4 == s3 {
        return None;
    }
    let s4 = scan_space_end(line, e4);
    if s4 == e4 {
        return None;
    }
    if s4 < len && word_char(line.get_char(s4)) {
        proof {
            lemma_run_end(line@, s2 as int, hexp());
            assert(forall|k: int| s2 <= k < e3 ==> is_hex_char(#[trigger] line@[k]));
        }
        Some((s2, e3))
    } else {
        None
    }
}

/// Finds the earliest record in the line and gives the bounds of its
/// third field, the address field.
pub fn find_record(line: &str) -> (r: Option<(usize, usize)>)
    ensures
        match r {
            Some(c) => {
                &&& record_addr_text(line@) == Some(
                    line@.subrange(c.0 as int, c.1 as int),
                )
                &&& c.0 < c.1 <= line@.len()
                &&& forall|k: int| c.0 <= k < c.1 ==> is_hex_char(#[trigger] line@[k])
            },
            None => record_addr_text(line@) is None,
        },
{
    let len = line.unicode_len();
    let mut p: usize = 0;
    while p < len
        invariant
            p <= len,
            first_match_from(line@, 0) == first_match_from(line@, p as int),
        decreases len - p,
    {
        match match_record_at(line, p) {
            Some(c) => {
                return Some(c);
            },
            None => {
                p += 1;
            },
        }
    }
    None
}

/// Whether this log line is retained for the given range: it carries
/// an address strictly between `start` and `start + size`.
pub fn line_passes(line: &str, range: &AddressRange) -> (b: bool)
    ensures
        b == line_in_range(line@, range.start, range.size),
{
    match find_record(line) {
        None => false,
        Some((cs, ce)) => {
            let cap = line.substring_char(cs, ce);
            match parse_hex_u32(cap) {
                None => false,
                Some(v) => v > range.start && v - range.start < range.size,
            }
        },
    }
}

/// Keeps, in order, the log lines whose address lies strictly inside
/// the range, each with a line break appended; every other line is
/// dropped.
pub fn filter_log_text(log_text: &str, range: &AddressRange) -> (r: String)
    ensures
        r@ == filter_lines(lines_of(log_text@), range.start, range.size),
{
    let lines = split_lines(log_text);
    let ghost lviews = lines_of(log_text@);
    let mut out = String::new();
    let mut i: usize = 0;
    proof {
        assert(lviews.skip(0) =~= lviews);
    }
    while i < lines.len()
        invariant
            i <= lines.len(),
            lines@.map_values(|x: String| x@) == lviews,
            filter_lines(lviews, range.start, range.size) == out@ + filter_lines(
                lviews.skip(i as int),
                range.start,
                range.size,
            ),
        decreases lines.len() - i,
    {
        let ghost rest = lviews.skip(i as int);
        proof {
            assert(rest[0] == lviews[i as int]);
            assert(rest.skip(1) =~= lviews.skip(i + 1));
        }
        if line_passes(lines[i].as_str(), range) {
            out.append(lines[i].as_str());
            out.append("\n");
            proof {
                reveal_strlit("\n");
                assert("\n"@ =~= seq!['\n']);
            }
        }
        i += 1;
    }
    proof {
        assert(lviews.skip(lines@.len() as int) =~= Seq::<Seq<char>>::empty());
    }
    out
}

} // verus!
