//! From a log line to the symbolizer's operand, and from the
//! symbolizer's answer to a source location.

use vstd::prelude::*;

use crate::numbers::dec_val;
use crate::numbers::parse_dec_usize;
use crate::text::is_dec_char;
use crate::text::decp;
use crate::text::lemma_run_end;
use crate::text::non_colonp;
use crate::text::non_spacep;
use crate::text::run_end;
use crate::text::scan_dec_end;
use crate::text::scan_non_space_end;
use crate::text::scan_space_end;
use crate::text::scan_to_colon;
use crate::text::spacep;

verus! {

/// The sentinel that stands in for anything that could not be
/// resolved or fetched.
pub open spec fn not_found_text() -> Seq<char> {
    "    Not found\n"@
}

/// The sentinel as a value.
pub fn not_found_sentinel() -> (r: String)
    ensures
        r@ == not_found_text(),
{
    String::from_str("    Not found\n")
}

/// The third whitespace-separated token of a line, if the line has
/// three; the token handed to the symbolizer as the address operand.
pub open spec fn third_token(s: Seq<char>) -> Option<Seq<char>> {
    let t0 = run_end(s, 0, spacep());
    let e0 = run_end(s, t0, non_spacep());
    let t1 = run_end(s, e0, spacep());
    let e1 = run_end(s, t1, non_spacep());
    let t2 = run_end(s, e1, spacep());
    let e2 = run_end(s, t2, non_spacep());
    if t2 < s.len() {
        Some(s.subrange(t2, e2))
    } else {
        None
    }
}

/// The address operand of a log line: its third whitespace-separated
/// token. `None` when the line has fewer than three tokens.
pub fn address_operand(line: &str) -> (r: Option<String>)
    ensures
        match r {
            Some(t) => third_token(line@) == Some(t@),
            None => third_token(line@) is None,
        },
{
    let len = line.unicode_len();
    let t0 = scan_space_end(line, 0);
    let e0 = scan_non_space_end(line, t0);
    let t1 = scan_space_end(line, e0);
    let e1 = scan_non_space_end(line, t1);
    let t2 = scan_space_end(line, e1);
    let e2 = scan_non_space_end(line, t2);
    if t2 < len {
        Some(String::from_str(line.substring_char(t2, e2)))
    } else {
        None
    }
}

/// `s` with every trailing line break removed.
pub open spec fn trim_trailing_newlines(s: Seq<char>) -> Seq<char>
    decreases s.len(),
{
    if s.len() > 0 && s.last() == '\n' {
        trim_trailing_newlines(s.drop_last())
    } else {
        s
    }
}

/// Whether every character of `s` is a decimal digit.
pub open spec fn all_dec(s: Seq<char>) -> bool {
    forall|k: int| 0 <= k < s.len() ==> is_dec_char(#[trigger] s[k])
}

/// The location a symbolizer answer names. The file name is what
/// stands before the first colon; the line number is what stands
/// between the first and second colon, with trailing line breaks
/// removed, read as a positive decimal number. `None` when the answer
/// has no colon, or the number part is not a positive decimal number
/// that fits the machine.
pub open spec fn location_of(s: Seq<char>) -> Option<(Seq<char>, int)> {
    let c1 = run_end(s, 0, non_colonp());
    if c1 >= s.len() {
        None
    } else {
        let c2 = run_end(s, c1 + 1, non_colonp());
        let trimmed = trim_trailing_newlines(s.subrange(c1 + 1, c2));
        if trimmed.len() > 0 && all_dec(trimmed) && 1 <= dec_val(trimmed) <= usize::MAX {
            Some((s.subrange(0, c1), dec_val(trimmed)))
        } else {
            None
        }
    }
}

/// Splits a symbolizer answer `file:line` into the file name and the
/// line number. `None` exactly when no source line can be fetched
/// from it: no colon, or no positive in-range decimal number between
/// the first and second colon.
pub fn parse_location(src_info: &str) -> (r: Option<(String, usize)>)
    ensures
        match r {
            Some(p) => location_of(src_info@) == Some((p.0@, p.1 as int)),
            None => location_of(src_info@) is None,
        },
{
    let len = src_info.unicode_len();
    let c1 = scan_to_colon(src_info, 0);
    if c1 == len {
        return None;
    }
    let c2 = scan_to_colon(src_info, c1 + 1);
    let ghost numtext = src_info@.subrange(c1 + 1, c2 as int);
    let mut end: usize = c2;
    while end > c1 + 1 && src_info.get_char(end - 1) == '\n'
        invariant
            c1 + 1 <= end <= c2,
            trim_trailing_newlines(numtext) == trim_trailing_newlines(
                src_info@.subrange(c1 + 1, end as int),
            ),
        decreases end,
    {
        proof {
            assert(src_info@.subrange(c1 + 1, end as int).drop_last() =~= src_info@.subrange(
                c1 + 1,
                end - 1,
            ));
        }
        end -= 1;
    }
    let ghost trimmed = trim_trailing_newlines(numtext);
    proof {
        assert(trimmed == src_info@.subrange(c1 + 1, end as int));
    }
    if end == c1 + 1 {
        return None;
    }
    let j = scan_dec_end(src_info, c1 + 1);
    if j < end {
        proof {
            lemma_run_end(src_info@, c1 + 1, decp());
            assert(!is_dec_char(trimmed[j - (c1 + 1)]));
        }
        return None;
    }
    proof {
        lemma_run_end(src_info@, c1 + 1, decp());
        assert(forall|k: int| 0 <= k < trimmed.len() ==> is_dec_char(#[trigger] trimmed[k]));
    }
    let numstr = src_info.substring_char(c1 + 1, end);
    match parse_dec_usize(numstr) {
        Some(v) => {
            if v >= 1 {
                let fname = String::from_str(src_info.substring_char(0, c1));
                Some((fname, v))
            } else {
                None
            }
        },
        None => None,
    }
}

/// The text a source line is rendered as under its header: the line
/// under four spaces of indent, with a line break appended.
pub open spec fn indented(text: Seq<char>) -> Seq<char> {
    "    "@ + text + "\n"@
}

/// Renders a fetched source line for the header block.
pub fn indent_line(text: &str) -> (r: String)
    ensures
        r@ == indented(text@),
{
    let mut r = String::from_str("    ");
    r.append(text);
    r.append("\n");
    r
}

/// Renders what the fetch stage hands back: the source line under
/// four spaces of indent when one was found, the sentinel when not.
pub fn render_fetched(found: Option<&str>) -> (r: String)
    ensures
        match found {
            Some(t) => r@ == indented(t@),
            None => r@ == not_found_text(),
        },
{
    match found {
        Some(t) => indent_line(t),
        None => not_found_sentinel(),
    }
}

} // verus!
