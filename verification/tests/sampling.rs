//! Head, tail and sample.
use arrs::commands::head::Head;
use arrs::commands::sample::{keep_first, place, sample_indices, Place, Reservoir};
use arrs::commands::tail::{tail_indices, Tail};
use arrs::error::Error;
use rand::seq::SliceRandom;
use rand::{Rng, SeedableRng};
use rand_chacha::ChaCha20Rng;

// ids 0..=9 spread over three batches.
const FRAGMENTS: &[&[i32]] = &[&[0, 1, 2, 3], &[4, 5, 6], &[7, 8, 9]];

/// The last `limit` rows among those that match.
fn tail(limit: u64, keep: fn(i32) -> bool) -> Vec<i32> {
    let mut t: Tail<Vec<i32>> = Tail::new(limit);
    for f in FRAGMENTS {
        let matching: Vec<i32> = f.iter().copied().filter(|i| keep(*i)).collect();
        let rows = matching.len() as u64;
        t.push(matching, rows);
    }
    t.finish()
        .into_iter()
        .flat_map(|s| s.batch[s.offset as usize..(s.offset + s.rows) as usize].to_vec())
        .collect()
}

#[test]
fn keeps_last_matching_rows_across_batches() {
    // Even ids are [0, 2, 4, 6, 8]; the last three are [4, 6, 8].
    assert_eq!(tail(3, |i| i % 2 == 0), vec![4, 6, 8]);
}

#[test]
fn limit_exceeding_matches_returns_all_matching() {
    assert_eq!(tail(100, |i| i >= 7), vec![7, 8, 9]);
}

#[test]
fn empty_match_returns_no_batches() {
    assert!(tail(3, |i| i > 100).is_empty());
    assert!(tail(0, |_| true).is_empty());
}

#[test]
fn tails_without_a_filter_are_positions() {
    assert_eq!(tail_indices(3, 10), vec![7, 8, 9]);
    assert_eq!(tail_indices(30, 2), vec![0, 1]);
    assert!(tail_indices(0, 5).is_empty());
}

#[test]
fn head_stops_at_its_limit() {
    let mut h = Head::new(5);
    assert_eq!(h.take(4), 4);
    assert!(!h.is_done());
    assert_eq!(h.take(3), 1);
    assert!(h.is_done());
    assert_eq!(h.take(3), 0);
}

/// A sample of the matching rows, and what was refused.
fn sample(limit: u64, seed: Option<u64>, keep: fn(i32) -> bool) -> Result<Vec<i32>, Error> {
    let mut reservoir = Reservoir::new(limit, seed);
    let mut held: Vec<i32> = Vec::new();
    for id in FRAGMENTS.iter().flat_map(|f| f.iter().copied()).filter(|i| keep(*i)) {
        match reservoir.next() {
            Place::Append => held.push(id),
            Place::Replace(at) => held[at as usize] = id,
            Place::Skip => {}
        }
    }
    reservoir.finish()?;
    Ok(held)
}

#[test]
fn samples_only_matching_rows_and_is_reproducible() {
    let a = sample(3, Some(42), |i| i % 2 == 0).unwrap();
    let b = sample(3, Some(42), |i| i % 2 == 0).unwrap();
    assert_eq!(a, b, "reproducible");
    assert_eq!(a.len(), 3);
    for id in a {
        assert!([0, 2, 4, 6, 8].contains(&id), "sampled non-matching id {id}");
    }
}

#[test]
fn covers_all_matching_when_limit_equals_match_count() {
    let mut ids = sample(5, Some(1), |i| i % 2 == 0).unwrap();
    ids.sort_unstable();
    assert_eq!(ids, vec![0, 2, 4, 6, 8]);
}

#[test]
fn errors_when_sample_larger_than_match_count() {
    // Only one row matches, so a sample of 3 is impossible.
    let err = sample(3, Some(1), |i| i == 0).unwrap_err();
    assert!(matches!(err, Error::SampleTooLarge { requested: 3, rowcount: 1 }));
}

#[test]
fn empty_match_yields_no_batch() {
    // Zero matches with a positive limit is "too large" (0 available rows).
    let err = sample(1, Some(1), |i| i > 100).unwrap_err();
    assert!(matches!(err, Error::SampleTooLarge { requested: 1, rowcount: 0 }));
}

#[test]
fn an_oversize_sample_is_refused() {
    let err = sample_indices(100, 5, Some(1)).unwrap_err();
    assert!(err.message().contains("larger than"), "{}", err.message());
}

#[test]
fn samples_by_position_are_a_shuffled_prefix() {
    for seed in [0, 1, 42, u64::MAX] {
        let mut pool: Vec<u64> = (0..20).collect();
        pool.shuffle(&mut ChaCha20Rng::seed_from_u64(seed));
        pool.truncate(7);
        assert_eq!(sample_indices(7, 20, Some(seed)).unwrap(), Some(pool));
    }
    assert_eq!(sample_indices(0, 20, Some(1)).unwrap(), None);
}

#[test]
fn unseeded_samples_hold_distinct_rows() {
    let mut rows = sample_indices(5, 5, None).unwrap().unwrap();
    rows.sort_unstable();
    assert_eq!(rows, vec![0, 1, 2, 3, 4]);
    let mut ids = sample(10, None, |_| true).unwrap();
    ids.sort_unstable();
    assert_eq!(ids, (0..10).collect::<Vec<i32>>());
}

#[test]
fn reservoirs_draw_one_number_per_row_past_the_limit() {
    let mut rng = ChaCha20Rng::seed_from_u64(9);
    let mut held: Vec<i32> = Vec::new();
    for (seen, id) in (0..10).enumerate() {
        if held.len() < 3 {
            held.push(id);
        } else {
            let j = rng.random_range(0..=seen as u64);
            if j < 3 {
                held[j as usize] = id;
            }
        }
    }
    assert_eq!(sample(3, Some(9), |_| true).unwrap(), held);
}

#[test]
fn shuffled_positions_are_cut_at_the_limit() {
    assert_eq!(keep_first(vec![4, 1, 3, 0, 2], 2), vec![4, 1]);
    assert_eq!(keep_first(vec![4, 1], 2), vec![4, 1]);
    assert!(keep_first(vec![4, 1], 0).is_empty());
}

#[test]
fn a_drawn_number_says_which_row_gives_way() {
    assert_eq!(place(0, 3), Place::Replace(0));
    assert_eq!(place(2, 3), Place::Replace(2));
    assert_eq!(place(3, 3), Place::Skip);
}

#[test]
fn a_stream_of_as_many_rows_as_wanted_is_held_in_order() {
    let mut reservoir = Reservoir::new(3, Some(7));
    for _ in 0..3 {
        assert_eq!(reservoir.next(), Place::Append);
    }
    assert!(reservoir.finish().is_ok());
}

#[test]
fn no_slice_of_a_tail_is_empty() {
    let mut kept: Tail<u8> = Tail::new(4);
    for (batch, rows) in [(0, 3), (1, 0), (2, 2), (3, 0), (4, 2)] {
        kept.push(batch, rows);
    }
    let slices = kept.finish();
    assert_eq!(slices.iter().map(|s| (s.batch, s.offset, s.rows)).collect::<Vec<_>>(), [
        (2, 0, 2),
        (4, 0, 2),
    ]);
    let mut none: Tail<u8> = Tail::new(0);
    none.push(0, 3);
    assert!(none.finish().is_empty());
}
