use mimir::datetime::{DateTimeUtc, MAX_TIMESTAMP};
use mimir::ranges::{compute_missing_ranges, fits_chunking, split_into_chunks};

fn at(secs: i64) -> DateTimeUtc {
    DateTimeUtc { secs, nanos: 0 }
}

#[test]
fn empty_window_has_nothing_missing() {
    assert!(compute_missing_ranges(at(10), at(10), None, None).is_empty());
    assert!(compute_missing_ranges(at(20), at(10), Some(at(5)), Some(at(1))).is_empty());
}

#[test]
fn unknown_markers_fetch_whole_window() {
    assert_eq!(compute_missing_ranges(at(0), at(100), None, None), vec![(at(0), at(100))]);
    assert_eq!(compute_missing_ranges(at(0), at(100), Some(at(50)), None), vec![(at(0), at(100))]);
    assert_eq!(compute_missing_ranges(at(0), at(100), None, Some(at(50))), vec![(at(0), at(100))]);
}

#[test]
fn left_and_right_gaps_are_kept_apart() {
    // stored [40, 60] inside the window [0, 100]
    let r = compute_missing_ranges(at(0), at(100), Some(at(60)), Some(at(40)));
    assert_eq!(r, vec![(at(0), at(40)), (at(60), at(100))]);
}

#[test]
fn only_left_gap() {
    // stored [40, 200]: the window ends inside it
    let r = compute_missing_ranges(at(0), at(100), Some(at(200)), Some(at(40)));
    assert_eq!(r, vec![(at(0), at(40))]);
}

#[test]
fn only_right_gap() {
    // stored [-50, 60]: the window starts inside it
    let r = compute_missing_ranges(at(0), at(100), Some(at(60)), Some(at(-50)));
    assert_eq!(r, vec![(at(60), at(100))]);
}

#[test]
fn window_inside_stored_range_needs_nothing() {
    let r = compute_missing_ranges(at(10), at(20), Some(at(30)), Some(at(0)));
    assert!(r.is_empty());
}

#[test]
fn gaps_are_clamped_to_the_window() {
    // stored start after the window end, stored end before the window start
    let r = compute_missing_ranges(at(10), at(20), Some(at(5)), Some(at(30)));
    assert_eq!(r, vec![(at(10), at(20))]);
}

#[test]
fn touching_gaps_are_merged() {
    // stored start == stored end: the two gaps meet there
    let r = compute_missing_ranges(at(0), at(100), Some(at(50)), Some(at(50)));
    assert_eq!(r, vec![(at(0), at(100))]);
}

#[test]
fn adjacent_gaps_one_nanosecond_apart_stay_separate() {
    let rs = DateTimeUtc { secs: 50, nanos: 0 };
    let re = DateTimeUtc { secs: 50, nanos: 1 };
    let r = compute_missing_ranges(at(0), at(100), Some(re), Some(rs));
    assert_eq!(r, vec![(at(0), rs), (re, at(100))]);
}

#[test]
fn chunks_of_at_most_max_seconds() {
    let chunks = split_into_chunks(at(0), at(25), 10);
    assert_eq!(chunks, vec![(at(0), at(10)), (at(10), at(20)), (at(20), at(25))]);
}

#[test]
fn exact_multiple_gives_full_chunks() {
    let chunks = split_into_chunks(at(0), at(20), 10);
    assert_eq!(chunks, vec![(at(0), at(10)), (at(10), at(20))]);
}

#[test]
fn empty_range_gives_no_chunks() {
    assert!(split_into_chunks(at(5), at(5), 10).is_empty());
    assert!(split_into_chunks(at(6), at(5), 10).is_empty());
    assert!(split_into_chunks(at(6), at(5), 0).is_empty());
    assert!(split_into_chunks(at(5), at(5), i64::MAX).is_empty());
}

#[test]
fn chunks_keep_nanoseconds() {
    let start = DateTimeUtc { secs: 0, nanos: 500 };
    let end = DateTimeUtc { secs: 15, nanos: 0 };
    let chunks = split_into_chunks(start, end, 10);
    assert_eq!(chunks, vec![(start, DateTimeUtc { secs: 10, nanos: 500 }), (DateTimeUtc { secs: 10, nanos: 500 }, end)]);
}

#[test]
fn monobank_window_of_a_year_takes_twelve_requests() {
    let year = 365 * 86_400;
    let chunks = split_into_chunks(at(0), at(year), mimir::account::handler::MAX_SECONDS);
    assert_eq!(chunks.len(), 12);
    assert_eq!(chunks[0], (at(0), at(2_682_000)));
    assert_eq!(chunks.last().unwrap().1, at(year));
}

#[test]
fn chunking_fits_when_every_step_stays_in_range() {
    let max = MAX_TIMESTAMP;
    assert!(fits_chunking(at(0), at(100), 10));
    assert!(fits_chunking(at(5), at(5), 10));
    assert!(!fits_chunking(at(max - 5), at(max), 10));
    assert!(!fits_chunking(at(max - 25), at(max - 3), 10));
    // The window's end plus one step is out of range, but no chunk start is.
    assert!(fits_chunking(at(max - 25), at(max - 5), 10));
    let chunks = split_into_chunks(at(max - 25), at(max - 5), 10);
    assert_eq!(chunks, vec![(at(max - 25), at(max - 15)), (at(max - 15), at(max - 5))]);
}

#[test]
fn chunk_steps_agree_with_chrono() {
    let max = MAX_TIMESTAMP;
    for (start, end) in [(max - 25, max - 5), (max - 25, max - 3), (max - 5, max)] {
        let ours = fits_chunking(at(start), at(end), 10);
        let mut cur = chrono::DateTime::from_timestamp(start, 0).unwrap();
        let stop = chrono::DateTime::from_timestamp(end, 0).unwrap();
        let mut theirs = true;
        while cur < stop {
            match cur.checked_add_signed(chrono::TimeDelta::seconds(10)) {
                Some(next) => cur = next.min(stop),
                None => {
                    theirs = false;
                    break;
                }
            }
        }
        assert_eq!(ours, theirs, "window {}..{}", start, end);
    }
}
