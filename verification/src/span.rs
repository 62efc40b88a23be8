//! Line index of a text: the byte offset at which each of its lines begins and
//! ends, and the exact slice of the text that a span of lines covers.
//!
//! Lines end behind a line feed (`\n`); a carriage return in front of it belongs
//! to the line. Line numbers count from 1, so entry `n` of the table is the
//! offset behind line `n`, where line `n + 1` begins.

use vstd::prelude::*;
use vstd::string::StringSliceAdditionalSpecFns;
use vstd::utf8::*;

verus! {

/// The byte that ends a line.
pub const LINE_FEED: u8 = 0x0a;

/// `p` lies directly behind a line of `bytes`: behind a line feed, or at the
/// end of a text whose last line has no line feed.
pub open spec fn is_line_end(bytes: Seq<u8>, p: int) -> bool {
    0 < p <= bytes.len() && (bytes[p - 1] == LINE_FEED || p == bytes.len())
}

/// The line ends among the first `n` positions of `bytes`, in ascending order.
pub open spec fn line_ends_within(bytes: Seq<u8>, n: int) -> Seq<int> {
    Seq::new(n as nat, |i: int| i + 1).filter(|p: int| is_line_end(bytes, p))
}

/// All line ends of `bytes`, in ascending order.
pub open spec fn line_ends(bytes: Seq<u8>) -> Seq<int> {
    line_ends_within(bytes, bytes.len() as int)
}

/// The line table of `bytes`: offset 0, then the end of every line. A text
/// without bytes has one line, which is empty.
pub open spec fn line_table(bytes: Seq<u8>) -> Seq<int> {
    if bytes.len() == 0 {
        seq![0int, 0int]
    } else {
        seq![0int] + line_ends(bytes)
    }
}

/// The lines `start + 1 ..= end` can be cut out of `bytes` by `table`: both
/// entries exist, lie in the text in this order, and split no character.
pub open spec fn span_in_text(table: Seq<int>, bytes: Seq<u8>, start: int, end: int) -> bool {
    &&& 0 <= start <= end < table.len()
    &&& 0 <= table[start] <= table[end] <= bytes.len()
    &&& is_char_boundary(bytes, table[start])
    &&& is_char_boundary(bytes, table[end])
}

/// The bytes of the lines `start + 1 ..= end`.
pub open spec fn span_bytes(table: Seq<int>, bytes: Seq<u8>, start: int, end: int) -> Seq<u8> {
    bytes.subrange(table[start], table[end])
}

/// Between two neighbouring line ends no further position is a line end.
proof fn lemma_line_ends_step(bytes: Seq<u8>, n: int)
    requires
        0 <= n < bytes.len(),
    ensures
        line_ends_within(bytes, n + 1) == if is_line_end(bytes, n + 1) {
            line_ends_within(bytes, n).push(n + 1)
        } else {
            line_ends_within(bytes, n)
        },
{
    let positions = Seq::new(n as nat, |i: int| i + 1);
    let pred = |p: int| is_line_end(bytes, p);
    assert(Seq::new((n + 1) as nat, |i: int| i + 1) =~= positions.push(n + 1));
    positions.lemma_filter_push(n + 1, pred);
}

/// What `line_ends_within` holds: exactly the line ends up to `n`, ascending.
proof fn lemma_line_ends_within(bytes: Seq<u8>, n: int)
    requires
        0 <= n <= bytes.len(),
    ensures
        forall|k: int|
            0 <= k < line_ends_within(bytes, n).len() ==> {
                &&& 0 < #[trigger] line_ends_within(bytes, n)[k] <= n
                &&& is_line_end(bytes, line_ends_within(bytes, n)[k])
            },
        forall|i: int, j: int|
            0 <= i < j < line_ends_within(bytes, n).len() ==> line_ends_within(bytes, n)[i]
                < line_ends_within(bytes, n)[j],
        forall|p: int|
            0 < p <= n && is_line_end(bytes, p) ==> line_ends_within(bytes, n).contains(p),
        n > 0 && is_line_end(bytes, n) ==> line_ends_within(bytes, n).len() > 0
            && line_ends_within(bytes, n).last() == n,
        line_ends_within(bytes, n).len() <= n,
    decreases n,
{
    if n == 0 {
        reveal(Seq::filter);
        assert(Seq::new(0nat, |i: int| i + 1).len() == 0);
    } else {
        lemma_line_ends_within(bytes, n - 1);
        lemma_line_ends_step(bytes, n - 1);
        let before = line_ends_within(bytes, n - 1);
        let now = line_ends_within(bytes, n);
        if is_line_end(bytes, n) {
            assert(now == before.push(n));
            assert forall|p: int| 0 < p <= n && is_line_end(bytes, p) implies now.contains(p) by {
                if p == n {
                    assert(now[now.len() - 1] == p);
                } else {
                    let k = choose|k: int| 0 <= k < before.len() && before[k] == p;
                    assert(now[k] == p);
                }
            }
        } else {
            assert(now == before);
        }
    }
}

/// The shape of every line table: it has at least two entries, begins at 0,
/// ends at the length of the text, and never decreases; with at least one byte
/// in the text it increases strictly.
pub proof fn lemma_table_shape(bytes: Seq<u8>)
    ensures
        line_table(bytes).len() >= 2,
        line_table(bytes).len() <= bytes.len() + 2,
        line_table(bytes)[0] == 0,
        line_table(bytes).last() == bytes.len(),
        forall|i: int, j: int|
            0 <= i <= j < line_table(bytes).len() ==> line_table(bytes)[i] <= line_table(
                bytes,
            )[j],
        bytes.len() > 0 ==> forall|i: int, j: int|
            0 <= i < j < line_table(bytes).len() ==> line_table(bytes)[i] < line_table(bytes)[j],
        forall|k: int|
            0 <= k < line_table(bytes).len() ==> 0 <= #[trigger] line_table(bytes)[k]
                <= bytes.len(),
{
    if bytes.len() > 0 {
        lemma_line_ends_within(bytes, bytes.len() as int);
        let ends = line_ends(bytes);
        let table = line_table(bytes);
        assert(is_line_end(bytes, bytes.len() as int));
        assert forall|k: int| 0 < k < table.len() implies table[k] == ends[k - 1] by {}
        assert(table.last() == ends.last());
    }
}

/// Every entry of a line table behind the first is the end of a line, and the
/// end of every line is an entry: line `n` is `table[n - 1] .. table[n]`, its
/// line feed included.
pub proof fn lemma_table_holds_line_ends(bytes: Seq<u8>)
    requires
        bytes.len() > 0,
    ensures
        forall|k: int|
            0 < k < line_table(bytes).len() ==> is_line_end(bytes, #[trigger] line_table(bytes)[k]),
        forall|p: int|
            is_line_end(bytes, p) ==> exists|k: int|
                0 < k < line_table(bytes).len() && #[trigger] line_table(bytes)[k] == p,
{
    lemma_line_ends_within(bytes, bytes.len() as int);
    let ends = line_ends(bytes);
    let table = line_table(bytes);
    assert forall|k: int| 0 < k < table.len() implies is_line_end(bytes, #[trigger] table[k]) by {
        assert(table[k] == ends[k - 1]);
    }
    assert forall|p: int| is_line_end(bytes, p) implies exists|k: int|
        0 < k < table.len() && #[trigger] table[k] == p by {
        assert(ends.contains(p));
        let k = choose|k: int| 0 <= k < ends.len() && ends[k] == p;
        assert(table[k + 1] == p);
    }
}

/// A line holds no line feed but its last byte.
pub proof fn lemma_line_has_one_end(bytes: Seq<u8>, k: int, p: int)
    requires
        0 <= k < line_table(bytes).len() - 1,
        line_table(bytes)[k] <= p < line_table(bytes)[k + 1] - 1,
    ensures
        bytes[p] != LINE_FEED,
{
    lemma_table_shape(bytes);
    if bytes[p] == LINE_FEED {
        lemma_table_holds_line_ends(bytes);
        let table = line_table(bytes);
        assert(is_line_end(bytes, p + 1));
        let m = choose|m: int| 0 < m < table.len() && #[trigger] table[m] == p + 1;
        if m <= k {
            assert(table[m] <= table[k]);
        } else {
            assert(table[k + 1] <= table[m]);
        }
    }
}

/// In well-formed UTF-8 a character begins behind every line feed.
proof fn lemma_boundary_behind_line_feed(bytes: Seq<u8>, p: int)
    requires
        valid_utf8(bytes),
        0 < p <= bytes.len(),
        bytes[p - 1] == LINE_FEED,
    ensures
        is_char_boundary(bytes, p),
{
    if p == bytes.len() {
        is_char_boundary_start_end_of_seq(bytes);
    } else {
        is_char_boundary_iff_not_is_continuation_byte(bytes, p - 1);
        assert(is_char_boundary(bytes, p - 1));
        valid_utf8_split(bytes, p - 1);
        let tail = bytes.subrange(p - 1, bytes.len() as int);
        assert(valid_utf8(tail));
        assert(tail[0] == LINE_FEED);
        assert(is_leading_byte_width_1(tail[0]));
        assert(length_of_first_scalar(tail) == 1);
        assert(valid_utf8(pop_first_scalar(tail)));
        assert(is_char_boundary(tail, 1)) by {
            reveal_with_fuel(is_char_boundary, 2);
        }
        is_char_boundary_iff_not_is_continuation_byte(tail, 1);
        assert(tail[1] == bytes[p]);
        is_char_boundary_iff_not_is_continuation_byte(bytes, p);
    }
}

/// A character boundary of a text is one of every part of the text that
/// begins with the text and ends at a character boundary behind it.
pub proof fn lemma_boundary_in_prefix(bytes: Seq<u8>, p: int, q: int)
    requires
        valid_utf8(bytes),
        0 <= p <= q <= bytes.len(),
        is_char_boundary(bytes, p),
        is_char_boundary(bytes, q),
    ensures
        valid_utf8(bytes.subrange(0, q)),
        is_char_boundary(bytes.subrange(0, q), p),
{
    valid_utf8_split(bytes, q);
    let head = bytes.subrange(0, q);
    if p < q {
        is_char_boundary_iff_not_is_continuation_byte(bytes, p);
        is_char_boundary_iff_not_is_continuation_byte(head, p);
    } else {
        is_char_boundary_start_end_of_seq(head);
    }
}

/// Every span of lines that a line table knows can be cut out of its text:
/// no entry splits a character.
pub proof fn lemma_span_in_text(bytes: Seq<u8>, start: int, end: int)
    requires
        valid_utf8(bytes),
        0 <= start <= end < line_table(bytes).len(),
    ensures
        span_in_text(line_table(bytes), bytes, start, end),
{
    lemma_table_shape(bytes);
    lemma_entry_is_boundary(bytes, start);
    lemma_entry_is_boundary(bytes, end);
}

proof fn lemma_entry_is_boundary(bytes: Seq<u8>, k: int)
    requires
        valid_utf8(bytes),
        0 <= k < line_table(bytes).len(),
    ensures
        is_char_boundary(bytes, line_table(bytes)[k]),
{
    lemma_table_shape(bytes);
    let p = line_table(bytes)[k];
    is_char_boundary_start_end_of_seq(bytes);
    if 0 < p < bytes.len() {
        lemma_table_holds_line_ends(bytes);
        assert(is_line_end(bytes, p));
        lemma_boundary_behind_line_feed(bytes, p);
    }
}

/// A span of lines, put back between what stands before and behind it, gives
/// the text again, byte for byte.
pub proof fn lemma_span_round_trip(bytes: Seq<u8>, start: int, end: int)
    requires
        0 <= start <= end < line_table(bytes).len(),
    ensures
        bytes.subrange(0, line_table(bytes)[start]) + span_bytes(
            line_table(bytes),
            bytes,
            start,
            end,
        ) + bytes.subrange(line_table(bytes)[end], bytes.len() as int) == bytes,
{
    lemma_table_shape(bytes);
    let table = line_table(bytes);
    assert(bytes.subrange(0, table[start]) + bytes.subrange(table[start], table[end])
        + bytes.subrange(table[end], bytes.len() as int) =~= bytes);
}

/// A span of lines is its lines, one behind the other.
pub proof fn lemma_span_is_its_lines(bytes: Seq<u8>, start: int, end: int)
    requires
        0 <= start < end < line_table(bytes).len(),
    ensures
        span_bytes(line_table(bytes), bytes, start, end) == span_bytes(
            line_table(bytes),
            bytes,
            start,
            end - 1,
        ) + span_bytes(line_table(bytes), bytes, end - 1, end),
{
    lemma_table_shape(bytes);
    let table = line_table(bytes);
    assert(bytes.subrange(table[start], table[end]) =~= bytes.subrange(table[start], table[end - 1])
        + bytes.subrange(table[end - 1], table[end]));
}

/// The line table of one text.
pub struct ByteSpanTable {
    offsets: Vec<usize>,
}

impl View for ByteSpanTable {
    type V = Seq<int>;

    closed spec fn view(&self) -> Seq<int> {
        self.offsets@.map_values(|offset: usize| offset as int)
    }
}

impl ByteSpanTable {
    /// What holds of every table: it has an entry for the beginning of the
    /// text and one for the end of its last line, it begins at 0, and it never
    /// decreases.
    #[verifier::type_invariant]
    spec fn well_formed(self) -> bool {
        &&& self.offsets@.len() >= 2
        &&& self.offsets@[0] == 0
        &&& forall|i: int, j: int|
            0 <= i <= j < self.offsets@.len() ==> self.offsets@[i] <= self.offsets@[j]
    }

    /// Scans `text` once and records where each of its lines ends.
    pub fn new(text: &str) -> (table: ByteSpanTable)
        ensures
            table@ == line_table(text.spec_bytes()),
            table@.last() == text.spec_bytes().len(),
    {
        let bytes = text.as_bytes();
        let n = bytes.len();
        let mut offsets: Vec<usize> = Vec::new();
        offsets.push(0);
        if n == 0 {
            offsets.push(0);
            assert(offsets@.map_values(|offset: usize| offset as int) =~= line_table(bytes@));
            return ByteSpanTable { offsets };
        }
        let mut i: usize = 0;
        proof {
            lemma_line_ends_within(bytes@, 0);
        }
        while i < n
            invariant
                n == bytes@.len(),
                0 <= i <= n,
                offsets@.map_values(|offset: usize| offset as int) =~= seq![0int]
                    + line_ends_within(bytes@, i as int),
            decreases n - i,
        {
            proof {
                lemma_line_ends_step(bytes@, i as int);
            }
            let ghost before = offsets@;
            if bytes[i] == LINE_FEED || i + 1 == n {
                offsets.push(i + 1);
                assert(offsets@.map_values(|offset: usize| offset as int) =~= before.map_values(
                    |offset: usize| offset as int,
                ).push(i + 1));
            }
            i += 1;
        }
        proof {
            lemma_table_shape(bytes@);
            let table = offsets@.map_values(|offset: usize| offset as int);
            assert forall|i: int, j: int| 0 <= i <= j < offsets@.len() implies offsets@[i]
                <= offsets@[j] by {
                assert(table[i] <= table[j]);
            }
            assert(table[0] == 0);
        }
        ByteSpanTable { offsets }
    }

    /// The number of entries: one more than the text has lines.
    pub fn len(&self) -> (n: usize)
        ensures
            n == self@.len(),
            n >= 2,
    {
        proof {
            use_type_invariant(self);
        }
        self.offsets.len()
    }

    /// The offset behind line `line`, where line `line + 1` begins.
    pub fn get(&self, line: usize) -> (offset: Option<usize>)
        ensures
            match offset {
                Some(p) => line < self@.len() && p == self@[line as int],
                None => line >= self@.len(),
            },
    {
        if line < self.offsets.len() {
            Some(self.offsets[line])
        } else {
            None
        }
    }

    /// The last entry, which for the table of a text is the length of that
    /// text. No entry is larger.
    pub fn last(&self) -> (offset: usize)
        ensures
            offset == self@.last(),
            forall|line: int| 0 <= line < self@.len() ==> 0 <= #[trigger] self@[line] <= offset,
    {
        proof {
            use_type_invariant(self);
        }
        self.offsets[self.offsets.len() - 1]
    }

    /// The text of the lines `start_line + 1 ..= end_line`, cut out of `text`
    /// at the two entries; `None` where the table and `text` do not admit the
    /// span (see `span_in_text`). With the table of `text` itself every span
    /// of lines that the table knows is admitted.
    pub fn slice<'a>(&self, text: &'a str, start_line: usize, end_line: usize) -> (part: Option<
        &'a str,
    >)
        ensures
            match part {
                Some(s) => {
                    &&& span_in_text(self@, text.spec_bytes(), start_line as int, end_line as int)
                    &&& s.spec_bytes() == span_bytes(
                        self@,
                        text.spec_bytes(),
                        start_line as int,
                        end_line as int,
                    )
                },
                None => !span_in_text(self@, text.spec_bytes(), start_line as int, end_line as int),
            },
            self@ == line_table(text.spec_bytes()) && start_line <= end_line < self@.len()
                ==> part.is_some(),
    {
        proof {
            encode_utf8_valid_utf8(text@);
            if self@ == line_table(text.spec_bytes()) && start_line <= end_line < self@.len() {
                lemma_span_in_text(text.spec_bytes(), start_line as int, end_line as int);
            }
        }
        if start_line > end_line || end_line >= self.offsets.len() {
            return None;
        }
        let from = self.offsets[start_line];
        let to = self.offsets[end_line];
        assert(self@[start_line as int] == from && self@[end_line as int] == to);
        if from > to || to > text.as_bytes().len() || !text.is_char_boundary(from)
            || !text.is_char_boundary(to) {
            return None;
        }
        let (head, _) = text.split_at(to);
        proof {
            lemma_boundary_in_prefix(text.spec_bytes(), from as int, to as int);
        }
        let (_, part) = head.split_at(from);
        assert(part.spec_bytes() =~= text.spec_bytes().subrange(from as int, to as int));
        Some(part)
    }
}

} // verus!
