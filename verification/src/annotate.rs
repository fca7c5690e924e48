//! Grouping the annotated output: consecutive log lines whose
//! resolved location text is the same share one header block.
//!
//! The grouping is a fold over the line sequence carrying one piece
//! of state, the location text of the line handled last. Location
//! texts are compared as raw text, so two consecutive resolution
//! failures (both the sentinel) share a block, while any change of
//! text, into or out of the sentinel too, opens a new one.

use vstd::prelude::*;

use crate::config::DebuggerVarilator;
use crate::text::str_eq;

verus! {

/// One line break.
pub open spec fn nl() -> Seq<char> {
    seq!['\n']
}

/// What one log line adds to the output, given the location text of
/// the line before it: a header block (blank line, the raw location
/// text, the fetched source text) when the location text changed,
/// then the raw log line, in either case with a line break appended.
pub open spec fn block_for(
    last: Seq<char>,
    line: Seq<char>,
    loc: Seq<char>,
    fetched: Seq<char>,
) -> Seq<char> {
    if loc != last {
        nl() + loc + fetched + line + nl()
    } else {
        line + nl()
    }
}

/// The whole annotated output of a run: the blocks of all lines in
/// order, each line's location text becoming the state of the next.
pub open spec fn annotate_fold(
    last: Seq<char>,
    lines: Seq<Seq<char>>,
    locs: Seq<Seq<char>>,
    fetches: Seq<Seq<char>>,
) -> Seq<char>
    recommends
        lines.len() == locs.len() == fetches.len(),
    decreases lines.len(),
{
    if lines.len() == 0 {
        Seq::empty()
    } else {
        block_for(last, lines[0], locs[0], fetches[0]) + annotate_fold(
            locs[0],
            lines.skip(1),
            locs.skip(1),
            fetches.skip(1),
        )
    }
}

/// The lines in order, each with a line break appended and nothing
/// between them.
pub open spec fn cat_lines(lines: Seq<Seq<char>>) -> Seq<char>
    decreases lines.len(),
{
    if lines.len() == 0 {
        Seq::empty()
    } else {
        lines[0] + nl() + cat_lines(lines.skip(1))
    }
}

/// The shape of a header block: whenever one is emitted, it is
/// exactly a blank line, the raw resolver output unchanged, and the
/// fetched text unchanged, immediately before the log line itself.
pub proof fn lemma_header_block_shape(
    last: Seq<char>,
    line: Seq<char>,
    loc: Seq<char>,
    fetched: Seq<char>,
)
    requires
        loc != last,
    ensures
        block_for(last, line, loc, fetched) == nl() + loc + fetched + line + nl(),
{
}

/// Appends one line's block to the output buffer.
pub fn append_block(out: &mut String, last: &str, line: &str, loc: &str, fetched: &str)
    ensures
        final(out)@ == old(out)@ + block_for(last@, line@, loc@, fetched@),
{
    proof {
        reveal_strlit("\n");
        assert("\n"@ =~= nl());
    }
    if !str_eq(last, loc) {
        out.append("\n");
        out.append(loc);
        out.append(fetched);
    }
    out.append(line);
    out.append("\n");
    proof {
        assert(final(out)@ =~= old(out)@ + block_for(last@, line@, loc@, fetched@));
    }
}

impl DebuggerVarilator {
    /// Whether handling a line with this location text would open a
    /// new header block: its text differs from the last one's.
    pub fn needs_header(&self, loc: &str) -> (b: bool)
        ensures
            b == (loc@ != self.last_src_line@),
    {
        !str_eq(self.last_src_line.as_str(), loc)
    }

    /// Handles one log line: appends its block to the output — a
    /// header block first when the location text changed — and makes
    /// its location text the state for the next line. `fetched` is
    /// only ever shown inside a header block.
    pub fn push_line(&mut self, line: &str, loc: &str, fetched: &str)
        ensures
            final(self).config == old(self).config,
            final(self).last_src_line@ == loc@,
            final(self).output@ == old(self).output@ + block_for(
                old(self).last_src_line@,
                line@,
                loc@,
                fetched@,
            ),
    {
        append_block(&mut self.output, self.last_src_line.as_str(), line, loc, fetched);
        self.last_src_line = String::from_str(loc);
    }
}

/// Annotates a whole run at once: line `i` resolved to the location
/// text `locs[i]`, whose fetched source text is `fetches[i]`. The
/// state starts empty, as a fresh run's does.
pub fn annotate_lines(lines: &Vec<String>, locs: &Vec<String>, fetches: &Vec<String>) -> (out:
    String)
    requires
        lines@.len() == locs@.len() == fetches@.len(),
    ensures
        out@ == annotate_fold(
            Seq::<char>::empty(),
            lines@.map_values(|x: String| x@),
            locs@.map_values(|x: String| x@),
            fetches@.map_values(|x: String| x@),
        ),
{
    let ghost lv = lines@.map_values(|x: String| x@);
    let ghost cv = locs@.map_values(|x: String| x@);
    let ghost fv = fetches@.map_values(|x: String| x@);
    let mut out = String::new();
    let mut last = String::new();
    let mut i: usize = 0;
    proof {
        assert(lv.skip(0) =~= lv);
        assert(cv.skip(0) =~= cv);
        assert(fv.skip(0) =~= fv);
    }
    while i < lines.len()
        invariant
            i <= lines.len(),
            annotate_fold(Seq::<char>::empty(), lv, cv, fv) == out@ + annotate_fold(
                last@,
                lv.skip(i as int),
                cv.skip(i as int),
                fv.skip(i as int),
            ),
        decreases lines.len() - i,
    {
        proof {
            assert(lv.skip(i as int).skip(1) =~= lv.skip(i + 1));
            assert(cv.skip(i as int).skip(1) =~= cv.skip(i + 1));
            assert(fv.skip(i as int).skip(1) =~= fv.skip(i + 1));
        }
        append_block(
            &mut out,
            last.as_str(),
            lines[i].as_str(),
            locs[i].as_str(),
            fetches[i].as_str(),
        );
        last = locs[i].clone();
        i += 1;
    }
    proof {
        assert(lv.skip(lines@.len() as int) =~= Seq::<Seq<char>>::empty());
    }
    out
}

/// While the location text keeps repeating the state, no header block
/// is opened: the lines pass through bare, whatever their fetched
/// texts would have been.
pub proof fn lemma_same_location_tail(
    last: Seq<char>,
    lines: Seq<Seq<char>>,
    locs: Seq<Seq<char>>,
    fetches: Seq<Seq<char>>,
)
    requires
        lines.len() == locs.len() == fetches.len(),
        forall|i: int| 0 <= i < locs.len() ==> locs[i] == last,
    ensures
        annotate_fold(last, lines, locs, fetches) == cat_lines(lines),
    decreases lines.len(),
{
    if lines.len() > 0 {
        lemma_same_location_tail(locs[0], lines.skip(1), locs.skip(1), fetches.skip(1));
        assert(annotate_fold(last, lines, locs, fetches) =~= cat_lines(lines));
    }
}

/// Grouping idempotence: when every line of a run resolves to one and
/// the same location text, and that text differs from the starting
/// state, exactly one header block is emitted — the first line's —
/// and all the original lines follow it in input order.
pub proof fn lemma_grouping_idempotent(
    last: Seq<char>,
    loc: Seq<char>,
    lines: Seq<Seq<char>>,
    locs: Seq<Seq<char>>,
    fetches: Seq<Seq<char>>,
)
    requires
        lines.len() == locs.len() == fetches.len(),
        lines.len() > 0,
        forall|i: int| 0 <= i < locs.len() ==> locs[i] == loc,
        loc != last,
    ensures
        annotate_fold(last, lines, locs, fetches) == nl() + loc + fetches[0] + cat_lines(lines),
{
    lemma_same_location_tail(loc, lines.skip(1), locs.skip(1), fetches.skip(1));
    assert(annotate_fold(last, lines, locs, fetches) =~= nl() + loc + fetches[0] + cat_lines(
        lines,
    ));
}

/// Header re-trigger: four lines whose location texts run `A, A, B,
/// A`, with `A` and `B` different and `A` not the starting state,
/// emit header blocks before the first, third and fourth line, but
/// none before the second.
pub proof fn lemma_header_retrigger(
    a: Seq<char>,
    b: Seq<char>,
    l1: Seq<char>,
    l2: Seq<char>,
    l3: Seq<char>,
    l4: Seq<char>,
    f1: Seq<char>,
    f2: Seq<char>,
    f3: Seq<char>,
    f4: Seq<char>,
)
    requires
        a != b,
        a.len() > 0,
    ensures
        annotate_fold(
            Seq::<char>::empty(),
            seq![l1, l2, l3, l4],
            seq![a, a, b, a],
            seq![f1, f2, f3, f4],
        ) == nl() + a + f1 + l1 + nl() + (l2 + nl()) + (nl() + b + f3 + l3 + nl()) + (nl() + a + f4
            + l4 + nl()),
{
    reveal_with_fuel(annotate_fold, 5);
    let lines = seq![l1, l2, l3, l4];
    let locs = seq![a, a, b, a];
    let fetches = seq![f1, f2, f3, f4];
    assert(a != Seq::<char>::empty());
    assert(lines.skip(1) =~= seq![l2, l3, l4]);
    assert(locs.skip(1) =~= seq![a, b, a]);
    assert(fetches.skip(1) =~= seq![f2, f3, f4]);
    assert(seq![l2, l3, l4].skip(1) =~= seq![l3, l4]);
    assert(seq![a, b, a].skip(1) =~= seq![b, a]);
    assert(seq![f2, f3, f4].skip(1) =~= seq![f3, f4]);
    assert(seq![l3, l4].skip(1) =~= seq![l4]);
    assert(seq![b, a].skip(1) =~= seq![a]);
    assert(seq![f3, f4].skip(1) =~= seq![f4]);
    assert(seq![l4].skip(1) =~= Seq::<Seq<char>>::empty());
    assert(seq![a].skip(1) =~= Seq::<Seq<char>>::empty());
    assert(seq![f4].skip(1) =~= Seq::<Seq<char>>::empty());
    assert(annotate_fold(Seq::<char>::empty(), lines, locs, fetches) =~= nl() + a + f1 + l1 + nl()
        + (l2 + nl()) + (nl() + b + f3 + l3 + nl()) + (nl() + a + f4 + l4 + nl()));
}

/// Sentinel stability, first half: two consecutive lines with the
/// same location text — as two consecutive resolution failures have,
/// the sentinel's text being stable — emit no second header block.
pub proof fn lemma_repeated_location_no_header(
    last: Seq<char>,
    s: Seq<char>,
    l1: Seq<char>,
    l2: Seq<char>,
    f1: Seq<char>,
    f2: Seq<char>,
)
    ensures
        annotate_fold(last, seq![l1, l2], seq![s, s], seq![f1, f2]) == block_for(last, l1, s, f1)
            + (l2 + nl()),
{
    reveal_with_fuel(annotate_fold, 3);
    assert(seq![l1, l2].skip(1) =~= seq![l2]);
    assert(seq![s, s].skip(1) =~= seq![s]);
    assert(seq![f1, f2].skip(1) =~= seq![f2]);
    assert(seq![l2].skip(1) =~= Seq::<Seq<char>>::empty());
    assert(seq![s].skip(1) =~= Seq::<Seq<char>>::empty());
    assert(seq![f2].skip(1) =~= Seq::<Seq<char>>::empty());
    assert(annotate_fold(last, seq![l1, l2], seq![s, s], seq![f1, f2]) =~= block_for(
        last,
        l1,
        s,
        f1,
    ) + (l2 + nl()));
}

/// Sentinel stability, second half: a change of location text between
/// two consecutive lines — out of a resolved location into the
/// sentinel, or the other way round — emits a new header block.
pub proof fn lemma_location_change_emits_header(
    last: Seq<char>,
    r: Seq<char>,
    s: Seq<char>,
    l1: Seq<char>,
    l2: Seq<char>,
    f1: Seq<char>,
    f2: Seq<char>,
)
    requires
        r != s,
    ensures
        annotate_fold(last, seq![l1, l2], seq![r, s], seq![f1, f2]) == block_for(last, l1, r, f1)
            + (nl() + s + f2 + l2 + nl()),
{
    reveal_with_fuel(annotate_fold, 3);
    assert(seq![l1, l2].skip(1) =~= seq![l2]);
    assert(seq![r, s].skip(1) =~= seq![s]);
    assert(seq![f1, f2].skip(1) =~= seq![f2]);
    assert(seq![l2].skip(1) =~= Seq::<Seq<char>>::empty());
    assert(seq![s].skip(1) =~= Seq::<Seq<char>>::empty());
    assert(seq![f2].skip(1) =~= Seq::<Seq<char>>::empty());
    assert(annotate_fold(last, seq![l1, l2], seq![r, s], seq![f1, f2]) =~= block_for(
        last,
        l1,
        r,
        f1,
    ) + (nl() + s + f2 + l2 + nl()));
}

} // verus!
