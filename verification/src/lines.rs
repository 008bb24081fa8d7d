//! Framing of a recording into its lines. A recording is a run of lines,
//! one record on each; reading ends with the input or at the first empty
//! line. What a line holds is for the caller to decode.

use vstd::prelude::*;

verus! {

/// The byte that ends a line.
pub const NEWLINE: u8 = 10;

/// One line of the input: the bytes from `start` up to `end`, without the
/// newline that may follow them.
#[derive(Clone, Copy, Debug, PartialEq, Eq, Structural)]
pub struct Line {
    pub start: usize,
    pub end: usize,
}

/// `line` is a whole, non-empty line of `input`: it holds no newline, and
/// it runs up to a newline or to the end of the input.
pub open spec fn is_line(input: Seq<u8>, line: Line) -> bool {
    &&& line.start < line.end <= input.len()
    &&& forall|i: int| line.start <= i < line.end ==> input[i] != NEWLINE
    &&& line.end < input.len() ==> input[line.end as int] == NEWLINE
}

/// Where the line after `lines` would start.
pub open spec fn next_start(lines: Seq<Line>) -> int {
    if lines.len() == 0 {
        0
    } else {
        lines.last().end + 1
    }
}

/// No line starts at `at`: the input is used up, or the line there is empty.
pub open spec fn stops_at(input: Seq<u8>, at: int) -> bool {
    at >= input.len() || input[at] == NEWLINE
}

/// `lines` are the lines of `input` from its start, one after the other,
/// up to the end of the input or the first empty line.
pub open spec fn framed(input: Seq<u8>, lines: Seq<Line>) -> bool {
    &&& forall|k: int| 0 <= k < lines.len() ==> is_line(input, #[trigger] lines[k])
    &&& forall|k: int|
        0 <= k < lines.len() ==> (#[trigger] lines[k]).start == next_start(lines.take(k))
    &&& stops_at(input, next_start(lines))
}

/// Splits a recording into its lines.
pub fn split_lines(input: &[u8]) -> (lines: Vec<Line>)
    ensures
        framed(input@, lines@),
{
    let mut lines: Vec<Line> = Vec::new();
    let mut start: usize = 0;
    let mut more: bool = true;
    while more && start < input.len()
        invariant
            start <= input@.len(),
            forall|k: int| 0 <= k < lines@.len() ==> is_line(input@, #[trigger] lines@[k]),
            forall|k: int|
                0 <= k < lines@.len() ==> (#[trigger] lines@[k]).start == next_start(
                    lines@.take(k),
                ),
            more ==> start == next_start(lines@),
            !more ==> stops_at(input@, next_start(lines@)),
        decreases
                (if more {
                    input@.len() - start + 1
                } else {
                    0
                }),
    {
        let mut end: usize = start;
        while end < input.len() && input[end] != NEWLINE
            invariant
                start <= end <= input@.len(),
                forall|i: int| start <= i < end ==> input@[i] != NEWLINE,
            decreases input@.len() - end,
        {
            end += 1;
        }
        if end == start {
            more = false;
        } else {
            let ghost earlier = lines@;
            lines.push(Line { start, end });
            proof {
                assert(lines@.take(earlier.len() as int) == earlier);
                assert forall|k: int| 0 <= k < lines@.len() implies (#[trigger] lines@[k]).start
                    == next_start(lines@.take(k)) by {
                    if k < earlier.len() {
                        assert(lines@.take(k) == earlier.take(k));
                        assert(lines@[k] == earlier[k]);
                    }
                }
            }
            if end == input.len() {
                more = false;
            } else {
                start = end + 1;
            }
        }
    }
    lines
}

/// Two lines of one input that start at the same byte are the same line.
proof fn lemma_line_from_start(input: Seq<u8>, a: Line, b: Line)
    requires
        is_line(input, a),
        is_line(input, b),
        a.start == b.start,
    ensures
        a == b,
{
    if a.end < b.end {
        assert(input[a.end as int] == NEWLINE);
    } else if b.end < a.end {
        assert(input[b.end as int] == NEWLINE);
    }
}

/// Two framings of one input agree on every line that both hold.
proof fn lemma_framings_agree(input: Seq<u8>, a: Seq<Line>, b: Seq<Line>, k: int)
    requires
        framed(input, a),
        framed(input, b),
        0 <= k < a.len(),
        k < b.len(),
    ensures
        a[k] == b[k],
        a.take(k + 1) == b.take(k + 1),
    decreases k,
{
    if k > 0 {
        lemma_framings_agree(input, a, b, k - 1);
    } else {
        assert(a.take(0) =~= b.take(0));
    }
    lemma_line_from_start(input, a[k], b[k]);
    assert(a.take(k + 1) =~= a.take(k).push(a[k]));
    assert(b.take(k + 1) =~= b.take(k).push(b[k]));
}

/// An input has one framing only: `framed` leaves no choice.
pub proof fn lemma_framing_is_unique(input: Seq<u8>, a: Seq<Line>, b: Seq<Line>)
    requires
        framed(input, a),
        framed(input, b),
    ensures
        a == b,
{
    let n = if a.len() <= b.len() {
        a.len() as int
    } else {
        b.len() as int
    };
    if n > 0 {
        lemma_framings_agree(input, a, b, n - 1);
    }
    assert(a.take(n) == b.take(n)) by {
        if n == 0 {
            assert(a.take(0) =~= b.take(0));
        }
    }
    if a.len() < b.len() {
        assert(a.take(n) == a);
        assert(b.take(n) == a);
        assert(is_line(input, b[n]));
        assert(b[n].start == next_start(b.take(n)));
    } else if b.len() < a.len() {
        assert(b.take(n) == b);
        assert(a.take(n) == b);
        assert(is_line(input, a[n]));
        assert(a[n].start == next_start(a.take(n)));
    } else {
        assert(a.take(n) == a);
        assert(b.take(n) == b);
    }
}

} // verus!
