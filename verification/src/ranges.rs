//! Time windows: which parts of a requested window are not yet stored, and
//! how a window is cut into requests the bank accepts.

use vstd::prelude::*;

use crate::datetime::{DateTimeUtc, MAX_TIMESTAMP};

verus! {

/// A closed window of time `[start, end]`.
pub type Span = (DateTimeUtc, DateTimeUtc);

/// `t` lies in the closed window `s`.
pub open spec fn in_span(s: Span, t: DateTimeUtc) -> bool {
    s.0.not_after(t) && t.not_after(s.1)
}

/// Some window of `spans` contains `t`.
pub open spec fn covers(spans: Seq<Span>, t: DateTimeUtc) -> bool {
    exists|i: int| 0 <= i < spans.len() && #[trigger] in_span(spans[i], t)
}

/// Every window starts strictly before it ends.
pub open spec fn all_proper(spans: Seq<Span>) -> bool {
    forall|i: int| 0 <= i < spans.len() ==> (#[trigger] spans[i]).0.before(spans[i].1)
}

/// Proper windows, each ending strictly before the next one starts:
/// the one list of windows that describes a given set of instants.
pub open spec fn canonical(spans: Seq<Span>) -> bool {
    &&& all_proper(spans)
    &&& forall|i: int| 0 <= i < spans.len() - 1 ==> (#[trigger] spans[i]).1.before(spans[i + 1].0)
}

/// Instant `t` of the requested window `[from, to]` that the stored range
/// `[range_start, range_end]` leaves to be fetched: left of the stored start
/// (when the window begins before it), right of the stored end (when the
/// window ends after it), or anywhere when a marker is missing.
pub open spec fn missing(
    from: DateTimeUtc,
    to: DateTimeUtc,
    range_end: Option<DateTimeUtc>,
    range_start: Option<DateTimeUtc>,
    t: DateTimeUtc,
) -> bool {
    &&& from.not_after(t)
    &&& t.not_after(to)
    &&& {
        ||| match range_start {
            None => true,
            Some(rs) => from.before(rs) && t.not_after(rs),
        }
        ||| match range_end {
            None => true,
            Some(re) => re.before(to) && re.not_after(t),
        }
    }
}

/// The gap left of the stored start: from `from` up to the stored start
/// (clamped to `to`) when the window begins before it; the whole window when
/// the start is unknown.
pub open spec fn left_gap(from: DateTimeUtc, to: DateTimeUtc, range_start: Option<DateTimeUtc>) -> Option<Span> {
    match range_start {
        None => Some((from, to)),
        Some(rs) => if from.before(rs) { Some((from, rs.earlier_of(to))) } else { None },
    }
}

/// The gap right of the stored end: from the stored end (clamped to `from`)
/// up to `to` when the window ends after it; the whole window when the end
/// is unknown.
pub open spec fn right_gap(from: DateTimeUtc, to: DateTimeUtc, range_end: Option<DateTimeUtc>) -> Option<Span> {
    match range_end {
        None => Some((from, to)),
        Some(re) => if re.before(to) { Some((re.later_of(from), to)) } else { None },
    }
}

/// The windows to fetch: nothing for an empty request, otherwise the left
/// and right gaps in order, joined into one window when the right gap starts
/// no later than the left gap ends.
pub open spec fn missing_ranges(
    from: DateTimeUtc,
    to: DateTimeUtc,
    range_end: Option<DateTimeUtc>,
    range_start: Option<DateTimeUtc>,
) -> Seq<Span> {
    if !from.before(to) {
        Seq::empty()
    } else {
        match (left_gap(from, to, range_start), right_gap(from, to, range_end)) {
            (None, None) => Seq::empty(),
            (Some(a), None) => seq![a],
            (None, Some(b)) => seq![b],
            (Some(a), Some(b)) => if b.0.not_after(a.1) {
                seq![(a.0, a.1.later_of(b.1))]
            } else {
                seq![a, b]
            },
        }
    }
}

/// The windows of `[from, to]` that still have to be fetched, given the
/// stored range `[range_start, range_end]` (either marker may be unknown).
///
/// The left gap `[from, range_start]` is missing when `from` is before the
/// stored start; the right gap `[range_end, to]` when `to` is after the
/// stored end; an unknown marker makes the whole window missing. Gaps are
/// clamped to the window and merged when they overlap or touch.
pub fn compute_missing_ranges(
    from: DateTimeUtc,
    to: DateTimeUtc,
    range_end: Option<DateTimeUtc>,
    range_start: Option<DateTimeUtc>,
) -> (ranges: Vec<Span>)
    ensures
        ranges@ == missing_ranges(from, to, range_end, range_start),
        canonical(ranges@),
        from.before(to) ==> forall|t: DateTimeUtc|
            #![trigger covers(ranges@, t)]
            #![trigger missing(from, to, range_end, range_start, t)]
            covers(ranges@, t) == missing(from, to, range_end, range_start, t),
{
    let mut ranges: Vec<Span> = Vec::new();
    if !from.is_before(&to) {
        return ranges;
    }
    if range_end.is_none() && range_start.is_none() {
        ranges.push((from, to));
        proof {
            lemma_missing_ranges_cover(from, to, range_end, range_start);
        }
        return ranges;
    }
    let left: Option<Span> = match range_start {
        Some(rs) => if from.is_before(&rs) { Some((from, rs.earliest(to))) } else { None },
        None => Some((from, to)),
    };
    let right: Option<Span> = match range_end {
        Some(re) => if re.is_before(&to) { Some((re.latest(from), to)) } else { None },
        None => Some((from, to)),
    };
    match (left, right) {
        (None, None) => {},
        (Some(a), None) => {
            ranges.push(a);
        },
        (None, Some(b)) => {
            ranges.push(b);
        },
        (Some(a), Some(b)) => {
            if b.0.is_not_after(&a.1) {
                ranges.push((a.0, a.1.latest(b.1)));
            } else {
                ranges.push(a);
                ranges.push(b);
            }
        },
    }
    proof {
        assert(ranges@ =~= missing_ranges(from, to, range_end, range_start));
        lemma_missing_ranges_cover(from, to, range_end, range_start);
    }
    ranges
}

/// A window that lies inside the stored range has nothing left to fetch.
pub proof fn lemma_stored_window_needs_nothing(
    from: DateTimeUtc,
    to: DateTimeUtc,
    range_end: DateTimeUtc,
    range_start: DateTimeUtc,
)
    requires
        range_start.not_after(from),
        to.not_after(range_end),
    ensures
        missing_ranges(from, to, Some(range_end), Some(range_start)).len() == 0,
{
}

/// The windows to fetch are canonical and hold exactly the missing instants.
pub proof fn lemma_missing_ranges_cover(
    from: DateTimeUtc,
    to: DateTimeUtc,
    range_end: Option<DateTimeUtc>,
    range_start: Option<DateTimeUtc>,
)
    ensures
        canonical(missing_ranges(from, to, range_end, range_start)),
        from.before(to) ==> forall|t: DateTimeUtc|
            #![trigger covers(missing_ranges(from, to, range_end, range_start), t)]
            #![trigger missing(from, to, range_end, range_start, t)]
            covers(missing_ranges(from, to, range_end, range_start), t) == missing(from, to, range_end, range_start, t),
{
    let r = missing_ranges(from, to, range_end, range_start);
    if from.before(to) {
        assert forall|t: DateTimeUtc| #[trigger] covers(r, t) == missing(from, to, range_end, range_start, t) by {
            if r.len() >= 1 {
                if in_span(r[0], t) {
                    assert(covers(r, t));
                }
            }
            if r.len() == 2 {
                if in_span(r[1], t) {
                    assert(covers(r, t));
                }
            }
        }
    }
}

/// The instant a positive number of whole seconds after `t`; from inside a
/// leap second the count starts at the end of that leap second.
pub open spec fn plus_seconds(t: DateTimeUtc, seconds: int) -> DateTimeUtc {
    DateTimeUtc {
        secs: (t.secs + seconds) as i64,
        nanos: if t.nanos >= 1_000_000_000 { (t.nanos - 1_000_000_000) as u32 } else { t.nanos },
    }
}

/// The start of the last chunk when `[start, end]` is cut into chunks of
/// `max_seconds` seconds, following the steps while they stay in range.
pub open spec fn last_chunk_start(start: DateTimeUtc, end: DateTimeUtc, max_seconds: int) -> DateTimeUtc
    decreases end.secs - start.secs,
{
    if 0 < max_seconds && start.secs + max_seconds <= MAX_TIMESTAMP && plus_seconds(start, max_seconds).before(end) {
        last_chunk_start(plus_seconds(start, max_seconds), end, max_seconds)
    } else {
        start
    }
}

/// Every step of `max_seconds` from a chunk start of `[start, end]` stays
/// within the representable instants.
pub open spec fn chunks_fit(start: DateTimeUtc, end: DateTimeUtc, max_seconds: int) -> bool {
    start.before(end) ==> last_chunk_start(start, end, max_seconds).secs + max_seconds <= MAX_TIMESTAMP
}

proof fn lemma_last_chunk_start_not_before(start: DateTimeUtc, end: DateTimeUtc, max_seconds: int)
    ensures
        last_chunk_start(start, end, max_seconds).secs >= start.secs,
    decreases end.secs - start.secs,
{
    if 0 < max_seconds && start.secs + max_seconds <= MAX_TIMESTAMP && plus_seconds(start, max_seconds).before(end) {
        lemma_last_chunk_start_not_before(plus_seconds(start, max_seconds), end, max_seconds);
    }
}

/// Whether `[start, end]` can be cut into chunks of `max_seconds` seconds
/// without a step leaving the representable instants.
pub fn fits_chunking(start: DateTimeUtc, end: DateTimeUtc, max_seconds: i64) -> (r: bool)
    requires
        max_seconds > 0,
    ensures
        r == chunks_fit(start, end, max_seconds as int),
{
    if !start.is_before(&end) {
        return true;
    }
    let mut cur = start;
    loop
        invariant
            max_seconds > 0,
            cur.before(end),
            last_chunk_start(cur, end, max_seconds as int) == last_chunk_start(start, end, max_seconds as int),
        decreases end.secs - cur.secs,
    {
        if cur.secs > MAX_TIMESTAMP - max_seconds {
            return false;
        }
        let stepped = DateTimeUtc {
            secs: cur.secs + max_seconds,
            nanos: if cur.nanos >= 1_000_000_000 { cur.nanos - 1_000_000_000 } else { cur.nanos },
        };
        if !stepped.is_before(&end) {
            return true;
        }
        cur = stepped;
    }
}

/// Proper windows, each starting where the previous one ends.
pub open spec fn contiguous(spans: Seq<Span>) -> bool {
    &&& all_proper(spans)
    &&& forall|k: int| 0 <= k < spans.len() - 1 ==> (#[trigger] spans[k]).1 == spans[k + 1].0
}

proof fn lemma_contiguous_covers(spans: Seq<Span>, t: DateTimeUtc)
    requires
        spans.len() > 0,
        contiguous(spans),
    ensures
        spans[0].0.before(spans.last().1),
        covers(spans, t) == in_span((spans[0].0, spans.last().1), t),
    decreases spans.len(),
{
    let n = spans.len();
    if n == 1 {
        assert(spans[0].0.before(spans[0].1));
        if in_span(spans[0], t) {
            assert(covers(spans, t));
        }
    } else {
        let init = spans.drop_last();
        assert(contiguous(init)) by {
            assert forall|k: int| 0 <= k < init.len() implies (#[trigger] init[k]).0.before(init[k].1) by {
                assert(init[k] == spans[k]);
            }
            assert forall|k: int| 0 <= k < init.len() - 1 implies (#[trigger] init[k]).1 == init[k + 1].0 by {
                assert(init[k] == spans[k]);
                assert(init[k + 1] == spans[k + 1]);
            }
        }
        lemma_contiguous_covers(init, t);
        assert(init[0] == spans[0]);
        assert(init.last() == spans[n - 2]);
        assert(spans[n - 2].1 == spans[n - 1].0);
        assert(spans[n - 1].0.before(spans[n - 1].1));
        if covers(spans, t) {
            let i = choose|i: int| 0 <= i < spans.len() && #[trigger] in_span(spans[i], t);
            if i < n - 1 {
                assert(init[i] == spans[i]);
                assert(in_span(init[i], t));
            }
        }
        if covers(init, t) {
            let i = choose|i: int| 0 <= i < init.len() && #[trigger] in_span(init[i], t);
            assert(spans[i] == init[i]);
            assert(in_span(spans[i], t));
        }
        if in_span(spans[n - 1], t) {
            assert(covers(spans, t));
        }
    }
}

/// The chunks of `[start, end]`: consecutive windows of `max_seconds`
/// seconds from `start`, the last one ending at `end` (possibly shorter);
/// none for an empty window.
pub open spec fn chunk_spans(start: DateTimeUtc, end: DateTimeUtc, max_seconds: int) -> Seq<Span>
    decreases end.secs - start.secs,
{
    if !start.before(end) || max_seconds <= 0 {
        Seq::empty()
    } else if start.secs + max_seconds <= MAX_TIMESTAMP && plus_seconds(start, max_seconds).before(end) {
        seq![(start, plus_seconds(start, max_seconds))] + chunk_spans(plus_seconds(start, max_seconds), end, max_seconds)
    } else {
        seq![(start, end)]
    }
}

/// The chunks of each window in turn.
pub open spec fn windows_chunks(spans: Seq<Span>, max_seconds: int) -> Seq<Span>
    decreases spans.len(),
{
    if spans.len() == 0 {
        Seq::empty()
    } else {
        windows_chunks(spans.drop_last(), max_seconds) + chunk_spans(spans.last().0, spans.last().1, max_seconds)
    }
}

/// Every window can be cut into chunks of `max_seconds` seconds.
pub open spec fn all_chunks_fit(spans: Seq<Span>, max_seconds: int) -> bool {
    forall|i: int| 0 <= i < spans.len() ==> chunks_fit((#[trigger] spans[i]).0, spans[i].1, max_seconds)
}

/// Cuts `[start, end]` into consecutive chunks of `max_seconds` seconds;
/// the last chunk ends at `end` and may be shorter.
pub fn split_into_chunks(start: DateTimeUtc, end: DateTimeUtc, max_seconds: i64) -> (chunks: Vec<Span>)
    requires
        start.before(end) ==> 0 < max_seconds <= i64::MAX / 1000,
        chunks_fit(start, end, max_seconds as int),
    ensures
        chunks@ == chunk_spans(start, end, max_seconds as int),
        !start.before(end) ==> chunks@.len() == 0,
        start.before(end) ==> {
            &&& chunks@.len() > 0
            &&& chunks@[0].0 == start
            &&& chunks@.last().1 == end
            &&& end.not_after(plus_seconds(chunks@.last().0, max_seconds as int))
        },
        all_proper(chunks@),
        forall|k: int| 0 <= k < chunks@.len() - 1 ==> {
            &&& (#[trigger] chunks@[k]).1 == chunks@[k + 1].0
            &&& chunks@[k].1 == plus_seconds(chunks@[k].0, max_seconds as int)
        },
        start.before(end) ==> forall|t: DateTimeUtc| #[trigger] covers(chunks@, t) == in_span((start, end), t),
{
    let mut chunks: Vec<Span> = Vec::new();
    if !start.is_before(&end) {
        return chunks;
    }
    let mut cur = start;
    while cur.is_before(&end)
        invariant
            start.before(end),
            0 < max_seconds <= i64::MAX / 1000,
            cur.before(end) ==> last_chunk_start(cur, end, max_seconds as int).secs + max_seconds <= MAX_TIMESTAMP,
            cur.not_after(end),
            chunks@ + chunk_spans(cur, end, max_seconds as int) == chunk_spans(start, end, max_seconds as int),
            chunks@.len() == 0 ==> cur == start,
            chunks@.len() > 0 ==> {
                &&& chunks@[0].0 == start
                &&& chunks@.last().1 == cur
                &&& chunks@.last().1 == (if end.before(plus_seconds(chunks@.last().0, max_seconds as int)) {
                    end
                } else {
                    plus_seconds(chunks@.last().0, max_seconds as int)
                })
            },
            all_proper(chunks@),
            forall|k: int| 0 <= k < chunks@.len() - 1 ==> {
                &&& (#[trigger] chunks@[k]).1 == chunks@[k + 1].0
                &&& chunks@[k].1 == plus_seconds(chunks@[k].0, max_seconds as int)
            },
        decreases (end.secs - cur.secs) * 4_294_967_296 + end.nanos - cur.nanos,
    {
        let ghost old_chunks = chunks@;
        proof {
            lemma_last_chunk_start_not_before(cur, end, max_seconds as int);
        }
        let stepped = DateTimeUtc {
            secs: cur.secs + max_seconds,
            nanos: if cur.nanos >= 1_000_000_000 { cur.nanos - 1_000_000_000 } else { cur.nanos },
        };
        let next = stepped.earliest(end);
        chunks.push((cur, next));
        proof {
            assert forall|k: int| 0 <= k < chunks@.len() - 1 implies {
                &&& (#[trigger] chunks@[k]).1 == chunks@[k + 1].0
                &&& chunks@[k].1 == plus_seconds(chunks@[k].0, max_seconds as int)
            } by {
                assert(chunks@[k] == old_chunks[k]);
                if k < old_chunks.len() - 1 {
                    assert(chunks@[k + 1] == old_chunks[k + 1]);
                } else {
                    assert(chunks@[k + 1] == (cur, next));
                    assert(old_chunks.last().1 == cur);
                    assert(old_chunks.last().1 == plus_seconds(old_chunks.last().0, max_seconds as int));
                }
            }
            assert forall|k: int| 0 <= k < chunks@.len() implies (#[trigger] chunks@[k]).0.before(chunks@[k].1) by {
                if k < old_chunks.len() {
                    assert(chunks@[k] == old_chunks[k]);
                }
            }
        }
        cur = next;
    }
    proof {
        assert forall|t: DateTimeUtc| #[trigger] covers(chunks@, t) == in_span((start, end), t) by {
            lemma_contiguous_covers(chunks@, t);
        }
    }
    chunks
}

} // verus!
