//! The match overlay: emphasises the styled ranges of a line that the matches
//! of the pattern meet at a boundary. The ranges keep their texts; a match that
//! neither begins where a range begins nor ends where the range it begins in
//! ends leaves every style as it was.

use crate::matcher::MatchRange;
use crate::style::byte_len;
use crate::style::emphasized;
use crate::style::spans_of;
use crate::style::StyledRange;
use crate::style::StyledSpan;
use vstd::prelude::*;

verus! {

/// The byte offset at which span `i` begins, which is where span `i - 1` ends:
/// the bytes of all spans before it.
pub open spec fn boundary(spans: Seq<StyledSpan>, i: int) -> int
    decreases i,
{
    if i <= 0 {
        0
    } else {
        boundary(spans, i - 1) + byte_len(spans[i - 1].text)
    }
}

/// The number of bytes of all spans together.
pub open spec fn total_bytes(spans: Seq<StyledSpan>) -> int {
    boundary(spans, spans.len() as int)
}

/// The match `m` emphasises span `i`: it begins in that span, and either
/// begins where the span begins or ends where the span ends.
pub open spec fn is_marked_by(spans: Seq<StyledSpan>, i: int, m: MatchRange) -> bool {
    &&& 0 <= i < spans.len()
    &&& boundary(spans, i) <= m.start < boundary(spans, i + 1)
    &&& (m.start == boundary(spans, i) || m.end == boundary(spans, i + 1))
}

/// One of the first `count` matches emphasises span `i`.
pub open spec fn is_marked_within(
    spans: Seq<StyledSpan>,
    i: int,
    matches: Seq<MatchRange>,
    count: int,
) -> bool {
    exists|k: int| 0 <= k < count && k < matches.len() && is_marked_by(spans, i, #[trigger] matches[k])
}

/// One of the matches emphasises span `i`.
pub open spec fn is_marked(spans: Seq<StyledSpan>, i: int, matches: Seq<MatchRange>) -> bool {
    is_marked_within(spans, i, matches, matches.len() as int)
}

/// The spans with the first `count` matches laid over them.
pub open spec fn overlaid_within(
    spans: Seq<StyledSpan>,
    matches: Seq<MatchRange>,
    count: int,
) -> Seq<StyledSpan> {
    Seq::new(
        spans.len(),
        |i: int|
            StyledSpan {
                style: if is_marked_within(spans, i, matches, count) {
                    emphasized(spans[i].style)
                } else {
                    spans[i].style
                },
                text: spans[i].text,
            },
    )
}

/// The spans with the matches laid over them: every span that a match
/// emphasises is bold and in the highlight colour, every other span has the
/// style it had, and all have the text they had.
pub open spec fn overlaid(spans: Seq<StyledSpan>, matches: Seq<MatchRange>) -> Seq<StyledSpan> {
    overlaid_within(spans, matches, matches.len() as int)
}

/// Boundaries never decrease.
pub proof fn lemma_boundary_monotonic(spans: Seq<StyledSpan>, i: int, j: int)
    requires
        0 <= i <= j,
    ensures
        0 <= boundary(spans, i) <= boundary(spans, j),
    decreases j,
{
    if j > 0 {
        if i < j {
            lemma_boundary_monotonic(spans, i, j - 1);
        } else {
            lemma_boundary_monotonic(spans, i - 1, j - 1);
        }
    }
}

/// A match emphasises at most one span.
pub proof fn lemma_marks_one_span(spans: Seq<StyledSpan>, i: int, j: int, m: MatchRange)
    requires
        is_marked_by(spans, i, m),
        is_marked_by(spans, j, m),
    ensures
        i == j,
{
    if i < j {
        lemma_boundary_monotonic(spans, i + 1, j);
    } else if j < i {
        lemma_boundary_monotonic(spans, j + 1, i);
    }
}

/// The overlay keeps the partition of the line: as many spans, the same
/// texts, the same boundaries.
pub proof fn lemma_overlay_keeps_partition(spans: Seq<StyledSpan>, matches: Seq<MatchRange>, i: int)
    requires
        0 <= i <= spans.len(),
    ensures
        overlaid(spans, matches).len() == spans.len(),
        forall|j: int| 0 <= j < spans.len() ==> overlaid(spans, matches)[j].text == spans[j].text,
        boundary(overlaid(spans, matches), i) == boundary(spans, i),
    decreases i,
{
    if i > 0 {
        lemma_overlay_keeps_partition(spans, matches, i - 1);
    }
}

/// The boundaries of `ranges`, as far as they can be counted: entry `i` is
/// where range `i` begins. Where the ranges have more bytes than can be
/// counted, the entries end with the last boundary that can.
fn boundaries(ranges: &Vec<StyledRange>) -> (bounds: Vec<usize>)
    ensures
        1 <= bounds@.len() <= ranges@.len() + 1,
        forall|i: int| 0 <= i < bounds@.len() ==> bounds@[i] == boundary(spans_of(ranges@), i),
        bounds@.len() <= ranges@.len() ==> boundary(spans_of(ranges@), bounds@.len() as int)
            > usize::MAX,
{
    let ghost spans = spans_of(ranges@);
    let mut bounds: Vec<usize> = Vec::new();
    bounds.push(0);
    let mut reached: usize = 0;
    let mut i: usize = 0;
    while i < ranges.len()
        invariant
            spans == spans_of(ranges@),
            0 <= i <= ranges@.len(),
            bounds@.len() == i + 1,
            reached == boundary(spans, i as int),
            forall|k: int| 0 <= k < bounds@.len() ==> bounds@[k] == boundary(spans, k),
        decreases ranges@.len() - i,
    {
        let width = ranges[i].len();
        assert(spans[i as int].text == ranges@[i as int].text@);
        if width > usize::MAX - reached {
            return bounds;
        }
        reached = reached + width;
        bounds.push(reached);
        i += 1;
    }
    bounds
}

/// The last entry of `bounds` that is not behind `target`.
fn locate(bounds: &Vec<usize>, target: usize) -> (at: usize)
    requires
        bounds@.len() > 0,
        bounds@[0] == 0,
        forall|i: int, j: int| 0 <= i <= j < bounds@.len() ==> bounds@[i] <= bounds@[j],
    ensures
        at < bounds@.len(),
        bounds@[at as int] <= target,
        forall|j: int| at < j < bounds@.len() ==> bounds@[j] > target,
{
    let mut low: usize = 0;
    let mut high: usize = bounds.len();
    while high - low > 1
        invariant
            0 <= low < high <= bounds@.len(),
            bounds@[low as int] <= target,
            forall|j: int| high <= j < bounds@.len() ==> bounds@[j] > target,
            forall|i: int, j: int| 0 <= i <= j < bounds@.len() ==> bounds@[i] <= bounds@[j],
        decreases high - low,
    {
        let middle = low + (high - low) / 2;
        if bounds[middle] <= target {
            low = middle;
        } else {
            high = middle;
        }
    }
    low
}

/// Lays the matches of a line over its styled ranges, in place: every range
/// that a match emphasises becomes bold in the highlight colour. A match
/// emphasises the range in which it begins, if it begins where that range
/// begins or ends where that range ends. Texts and boundaries stay as they are.
pub fn highlight_matches_in_line(ranges: &mut Vec<StyledRange>, matches: &Vec<MatchRange>)
    ensures
        spans_of(final(ranges)@) == overlaid(spans_of(old(ranges)@), matches@),
{
    let ghost spans = spans_of(ranges@);
    let bounds = boundaries(ranges);
    let count = ranges.len();
    let counted = bounds.len() - 1;
    proof {
        assert forall|i: int, j: int| 0 <= i <= j < bounds@.len() implies bounds@[i] <= bounds@[j] by {
            lemma_boundary_monotonic(spans, i, j);
        }
    }
    let mut k: usize = 0;
    while k < matches.len()
        invariant
            0 <= k <= matches@.len(),
            count == spans.len(),
            count == ranges@.len(),
            counted <= count,
            bounds@.len() == counted + 1,
            bounds@[0] == 0,
            forall|i: int| 0 <= i < bounds@.len() ==> bounds@[i] == boundary(spans, i),
            forall|i: int, j: int| 0 <= i <= j < bounds@.len() ==> bounds@[i] <= bounds@[j],
            counted < count ==> boundary(spans, counted + 1) > usize::MAX,
            spans_of(ranges@) =~= overlaid_within(spans, matches@, k as int),
        decreases matches@.len() - k,
    {
        let m = matches[k];
        let at = locate(&bounds, m.start);
        let ghost before = spans_of(ranges@);
        let marks = if at < counted {
            bounds[at] == m.start || bounds[at + 1] == m.end
        } else {
            at < count && bounds[at] == m.start
        };
        if marks {
            ranges[at].style = ranges[at].style.emphasize();
        }
        proof {
            let now = spans_of(ranges@);
            let next = overlaid_within(spans, matches@, k + 1);
            assert(marks <==> is_marked_by(spans, at as int, m));
            assert forall|i: int| 0 <= i < count implies now[i] == next[i] by {
                assert(before[i] == overlaid_within(spans, matches@, k as int)[i]);
                if is_marked_by(spans, i, m) {
                    if i < at {
                        assert(bounds@[i + 1] <= bounds@[at as int]);
                    } else if i > at {
                        if at < counted {
                            lemma_boundary_monotonic(spans, at + 1, i);
                        } else {
                            lemma_boundary_monotonic(spans, counted + 1, i);
                        }
                    }
                    assert(i == at);
                    assert(is_marked_within(spans, i, matches@, k + 1));
                } else {
                    assert(is_marked_within(spans, i, matches@, k + 1) == is_marked_within(
                        spans,
                        i,
                        matches@,
                        k as int,
                    ));
                }
                if is_marked_within(spans, i, matches@, k as int) {
                    assert(is_marked_within(spans, i, matches@, k + 1));
                }
            }
            assert(now =~= next);
        }
        k += 1;
    }
}

} // verus!
