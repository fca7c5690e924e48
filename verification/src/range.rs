//! The valid address range, and its extraction from program-header
//! dump text.

use vstd::prelude::*;

use crate::numbers::hex_val;
use crate::numbers::parse_hex_u32;
use crate::text::hexp;
use crate::text::is_hex_char;
use crate::text::is_space_char;
use crate::text::lemma_run_end;
use crate::text::lines_of;
use crate::text::run_end;
use crate::text::scan_hex_end;
use crate::text::scan_space_end;
use crate::text::space_char;
use crate::text::spacep;
use crate::text::spec_starts_with_at;
use crate::text::split_lines;
use crate::text::starts_with_at;

verus! {

/// The address range of the loadable segment the filter works with.
/// `start` is the entry-point address (or the unset sentinel,
/// `u32::MAX`, while no entry-point line has been seen); `size` is the
/// size of the first loadable segment whose base shares the entry
/// point's 64 KiB-aligned segment, or `0` if none was found.
#[derive(Clone, Copy, Debug, PartialEq, Eq, Structural)]
pub struct AddressRange {
    pub start: u32,
    pub size: u32,
}

/// The end of a `0x`-prefixed hexadecimal field starting at `f`, or
/// `-1` if no such field starts there.
pub open spec fn field_end(s: Seq<char>, f: int) -> int {
    if 0 <= f && f + 2 <= s.len() && s[f] == '0' && s[f + 1] == 'x' {
        let e = run_end(s, f + 2, hexp());
        if e > f + 2 {
            e
        } else {
            -1
        }
    } else {
        -1
    }
}

/// Whether an entry-point announcement begins at position `p`: the
/// words `Entry point`, one whitespace character, and a hexadecimal
/// field.
pub open spec fn entry_match_at(s: Seq<char>, p: int) -> bool {
    let l = "Entry point"@.len() as int;
    &&& spec_starts_with_at(s, p, "Entry point"@)
    &&& p + l < s.len()
    &&& is_space_char(s[p + l])
    &&& field_end(s, p + l + 1) >= 0
}

/// The digits of the entry-point address announced at position `p`.
pub open spec fn entry_capture(s: Seq<char>, p: int) -> Seq<char> {
    let l = "Entry point"@.len() as int;
    s.subrange(p + l + 3, field_end(s, p + l + 1))
}

/// The earliest position at or after `p` where an entry-point
/// announcement begins.
pub open spec fn first_entry_from(s: Seq<char>, p: int) -> Option<int>
    decreases s.len() - p when 0 <= p <= s.len()
{
    if p >= s.len() {
        None
    } else if entry_match_at(s, p) {
        Some(p)
    } else {
        first_entry_from(s, p + 1)
    }
}

/// The base and size fields of a loadable-segment line beginning at
/// position `p`: the word `LOAD` and five whitespace-separated
/// hexadecimal fields followed by whitespace. The third field is the
/// segment's base, the fourth its size.
pub open spec fn load_fields_at(s: Seq<char>, p: int) -> Option<(Seq<char>, Seq<char>)> {
    if !spec_starts_with_at(s, p, "LOAD"@) {
        None
    } else {
        let q0 = p + "LOAD"@.len() as int;
        let f1 = run_end(s, q0, spacep());
        let e1 = field_end(s, f1);
        if f1 <= q0 || e1 < 0 {
            None
        } else {
            let f2 = run_end(s, e1, spacep());
            let e2 = field_end(s, f2);
            if f2 <= e1 || e2 < 0 {
                None
            } else {
                let f3 = run_end(s, e2, spacep());
                let e3 = field_end(s, f3);
                if f3 <= e2 || e3 < 0 {
                    None
                } else {
                    let f4 = run_end(s, e3, spacep());
                    let e4 = field_end(s, f4);
                    if f4 <= e3 || e4 < 0 {
                        None
                    } else {
                        let f5 = run_end(s, e4, spacep());
                        let e5 = field_end(s, f5);
                        if f5 <= e4 || e5 < 0 || run_end(s, e5, spacep()) <= e5 {
                            None
                        } else {
                            Some((s.subrange(f3 + 2, e3), s.subrange(f4 + 2, e4)))
                        }
                    }
                }
            }
        }
    }
}

/// The earliest position at or after `p` where a loadable-segment
/// line's pattern begins.
pub open spec fn first_load_from(s: Seq<char>, p: int) -> Option<int>
    decreases s.len() - p when 0 <= p <= s.len()
{
    if p >= s.len() {
        None
    } else if load_fields_at(s, p) is Some {
        Some(p)
    } else {
        first_load_from(s, p + 1)
    }
}

/// The entry-point address a line announces, if it announces one
/// whose value fits in 32 bits.
pub open spec fn entry_addr(line: Seq<char>) -> Option<u32> {
    match first_entry_from(line, 0) {
        Some(p) => {
            let t = entry_capture(line, p);
            if hex_val(t) <= u32::MAX {
                Some(hex_val(t) as u32)
            } else {
                None
            }
        },
        None => None,
    }
}

/// The base and size a loadable-segment line carries, if it is one
/// and both values fit in 32 bits.
pub open spec fn load_base_size(line: Seq<char>) -> Option<(u32, u32)> {
    match first_load_from(line, 0) {
        Some(p) => {
            let (bt, st) = load_fields_at(line, p).unwrap();
            if hex_val(bt) <= u32::MAX && hex_val(st) <= u32::MAX {
                Some((hex_val(bt) as u32, hex_val(st) as u32))
            } else {
                None
            }
        },
        None => None,
    }
}

/// One pass over the dump's lines, carrying the entry point seen so
/// far. An entry-point line replaces it; the first loadable segment
/// whose base shares the entry point's 64 KiB-aligned segment gives
/// the size and ends the scan; reaching the end without one leaves
/// the size at zero.
pub open spec fn scan_range(lines: Seq<Seq<char>>, start: u32) -> AddressRange
    decreases lines.len(),
{
    if lines.len() == 0 {
        AddressRange { start, size: 0 }
    } else if entry_addr(lines[0]) is Some {
        scan_range(lines.skip(1), entry_addr(lines[0]).unwrap())
    } else if load_base_size(lines[0]) is Some {
        let (base, size) = load_base_size(lines[0]).unwrap();
        if base & 0xFFFF0000 == start & 0xFFFF0000 {
            AddressRange { start, size }
        } else {
            scan_range(lines.skip(1), start)
        }
    } else {
        scan_range(lines.skip(1), start)
    }
}

/// The address range a program-header dump describes: the scan starts
/// with the sentinel entry point, `u32::MAX`.
pub open spec fn extracted_range(text: Seq<char>) -> AddressRange {
    scan_range(lines_of(text), u32::MAX)
}

/// Reads a `0x`-prefixed hexadecimal field starting exactly at `f`,
/// giving the end of its digits.
fn scan_field(line: &str, f: usize) -> (r: Option<usize>)
    requires
        f <= line@.len(),
    ensures
        match r {
            Some(e) => {
                &&& e == field_end(line@, f as int)
                &&& f + 2 < e <= line@.len()
                &&& forall|k: int| f + 2 <= k < e ==> is_hex_char(#[trigger] line@[k])
            },
            None => field_end(line@, f as int) == -1,
        },
{
    let len = line.unicode_len();
    if len < 2 || f > len - 2 {
        return None;
    }
    if line.get_char(f) != '0' {
        return None;
    }
    if line.get_char(f + 1) != 'x' {
        return None;
    }
    let e = scan_hex_end(line, f + 2);
    if e == f + 2 {
        return None;
    }
    proof {
        lemma_run_end(line@, f + 2, hexp());
        assert(forall|k: int| f + 2 <= k < e ==> is_hex_char(#[trigger] line@[k]));
    }
    Some(e)
}

/// Looks for an entry-point announcement beginning exactly at `p`,
/// giving the bounds of its address digits.
fn match_entry_at(line: &str, p: usize) -> (m: Option<(usize, usize)>)
    requires
        p <= line@.len(),
    ensures
        m is Some <==> entry_match_at(line@, p as int),
        m is Some ==> {
            &&& entry_capture(line@, p as int) == line@.subrange(
                m.unwrap().0 as int,
                m.unwrap().1 as int,
            )
            &&& m.unwrap().0 < m.unwrap().1 <= line@.len()
            &&& forall|k: int|
                m.unwrap().0 <= k < m.unwrap().1 ==> is_hex_char(#[trigger] line@[k])
        },
{
    let len = line.unicode_len();
    let lit = "Entry point";
    let litlen = lit.unicode_len();
    if !starts_with_at(line, p, lit) {
        return None;
    }
    if p + litlen >= len {
        return None;
    }
    if !space_char(line.get_char(p + litlen)) {
        return None;
    }
    match scan_field(line, p + litlen + 1) {
        Some(e) => Some((p + litlen + 3, e)),
        None => None,
    }
}

/// Looks for a loadable-segment pattern beginning exactly at `p`,
/// giving the bounds of the base and size fields' digits.
fn match_load_at(line: &str, p: usize) -> (m: Option<(usize, usize, usize, usize)>)
    requires
        p <= line@.len(),
    ensures
        m is Some <==> load_fields_at(line@, p as int) is Some,
        m is Some ==> {
            &&& load_fields_at(line@, p as int).unwrap().0 == line@.subrange(
                m.unwrap().0 as int,
                m.unwrap().1 as int,
            )
            &&& load_fields_at(line@, p as int).unwrap().1 == line@.subrange(
                m.unwrap().2 as int,
                m.unwrap().3 as int,
            )
            &&& m.unwrap().0 < m.unwrap().1 <= line@.len()
            &&& m.unwrap().2 < m.unwrap().3 <= line@.len()
            &&& forall|k: int|
                m.unwrap().0 <= k < m.unwrap().1 ==> is_hex_char(#[trigger] line@[k])
            &&& forall|k: int|
                m.unwrap().2 <= k < m.unwrap().3 ==> is_hex_char(#[trigger] line@[k])
        },
{
    let len = line.unicode_len();
    let lit = "LOAD";
    let litlen = lit.unicode_len();
    if !starts_with_at(line, p, lit) {
        return None;
    }
    assert(p + litlen <= len);
    let q0 = p + litlen;
    let f1 = scan_space_end(line, q0);
    if f1 == q0 {
        return None;
    }
    let e1 = match scan_field(line, f1) {
        Some(e) => e,
        None => {
            return None;
        },
    };
    let f2 = scan_space_end(line, e1);
    if f2 == e1 {
        return None;
    }
    let e2 = match scan_field(line, f2) {
        Some(e) => e,
        None => {
            return None;
        },
    };
    let f3 = scan_space_end(line, e2);
    if f3 == e2 {
        return None;
    }
    let e3 = match scan_field(line, f3) {
        Some(e) => e,
        None => {
            return None;
        },
    };
    let f4 = scan_space_end(line, e3);
    if f4 == e3 {
        return None;
    }
    let e4 = match scan_field(line, f4) {
        Some(e) => e,
        None => {
            return None;
        },
    };
    let f5 = scan_space_end(line, e4);
    if f5 == e4 {
        return None;
    }
    let e5 = match scan_field(line, f5) {
        Some(e) => e,
        None => {
            return None;
        },
    };
    let sp = scan_space_end(line, e5);
    if sp == e5 {
        return None;
    }
    Some((f3 + 2, e3, f4 + 2, e4))
}

/// The entry-point address a line announces, if any fits in 32 bits.
pub fn find_entry(line: &str) -> (r: Option<u32>)
    ensures
        r == entry_addr(line@),
{
    let len = line.unicode_len();
    let mut p: usize = 0;
    while p < len
        invariant
            p <= len,
            first_entry_from(line@, 0) == first_entry_from(line@, p as int),
        decreases len - p,
    {
        match match_entry_at(line, p) {
            Some((cs, ce)) => {
                let cap = line.substring_char(cs, ce);
                match parse_hex_u32(cap) {
                    Some(v) => {
                        return Some(v);
                    },
                    None => {
                        return None;
                    },
                }
            },
            None => {
                p += 1;
            },
        }
    }
    None
}

/// The base and size of a loadable-segment line, if it is one and
/// both fit in 32 bits.
pub fn find_load(line: &str) -> (r: Option<(u32, u32)>)
    ensures
        r == load_base_size(line@),
{
    let len = line.unicode_len();
    let mut p: usize = 0;
    while p < len
        invariant
            p <= len,
            first_load_from(line@, 0) == first_load_from(line@, p as int),
        decreases len - p,
    {
        match match_load_at(line, p) {
            Some((bs, be, ss, se)) => {
                let bt = line.substring_char(bs, be);
                let st = line.substring_char(ss, se);
                match (parse_hex_u32(bt), parse_hex_u32(st)) {
                    (Some(b), Some(s)) => {
                        return Some((b, s));
                    },
                    _ => {
                        return None;
                    },
                }
            },
            None => {
                p += 1;
            },
        }
    }
    None
}

/// Extracts the address range from program-header dump text: the
/// entry point of the last entry-point line seen before the scan
/// ends, and the size of the first loadable segment whose base shares
/// the entry point's 64 KiB-aligned segment. Without an entry-point
/// line the start stays at the sentinel `u32::MAX`; without a
/// qualifying segment the size stays `0`.
pub fn extract_range(header_text: &str) -> (r: AddressRange)
    ensures
        r == extracted_range(header_text@),
{
    let lines = split_lines(header_text);
    let ghost lviews = lines_of(header_text@);
    let mut start: u32 = u32::MAX;
    let mut i: usize = 0;
    proof {
        assert(lviews.skip(0) =~= lviews);
    }
    while i < lines.len()
        invariant
            i <= lines.len(),
            lines@.map_values(|x: String| x@) == lviews,
            scan_range(lviews, u32::MAX) == scan_range(lviews.skip(i as int), start),
        decreases lines.len() - i,
    {
        let ghost rest = lviews.skip(i as int);
        proof {
            assert(rest[0] == lviews[i as int]);
            assert(rest.skip(1) =~= lviews.skip(i + 1));
        }
        match find_entry(lines[i].as_str()) {
            Some(v) => {
                start = v;
            },
            None => {
                match find_load(lines[i].as_str()) {
                    Some((base, size)) => {
                        if base & 0xFFFF0000 == start & 0xFFFF0000 {
                            return AddressRange { start, size };
                        }
                    },
                    None => {},
                }
            },
        }
        i += 1;
    }
    proof {
        assert(lviews.skip(lines@.len() as int) =~= Seq::<Seq<char>>::empty());
    }
    AddressRange { start, size: 0 }
}

} // verus!
