//! Sizes, percentages and digit groups.
use arrs::binary64::percent_text;
use arrs::commands::common::human_bytes;
use arrs::commands::freq::percent;
use arrs::commands::lance::index_stats::coverage_display;
use arrs::commands::lance::stat::{group_digits, median_u64};
use arrs::dataset::IndexStats;

#[test]
fn human_bytes_boundaries() {
    assert_eq!(human_bytes(0), "0 B");
    assert_eq!(human_bytes(1023), "1023 B");
    assert_eq!(human_bytes(1024), "1.0 KiB");
    // Just under 1 MiB must not render as `1024.0 KiB`.
    assert_eq!(human_bytes(1_048_575), "1.0 MiB");
    assert_eq!(human_bytes(1_048_576), "1.0 MiB");
}

#[test]
fn sizes_of_every_unit() {
    assert_eq!(human_bytes(1536), "1.5 KiB");
    assert_eq!(human_bytes(5 * 1024 * 1024 * 1024), "5.0 GiB");
    assert_eq!(human_bytes(3 * 1024 * 1024 * 1024 * 1024), "3.0 TiB");
}

#[test]
fn median_even_length_rounds_up() {
    assert_eq!(median_u64(&[100, 200]), 150);
    assert_eq!(median_u64(&[3800, 3801]), 3801);
    assert_eq!(median_u64(&[10, 20, 30]), 20);
    assert_eq!(median_u64(&[5]), 5);
}

#[test]
fn medians_near_the_limit_do_not_overflow() {
    assert_eq!(median_u64(&[u64::MAX - 1, u64::MAX]), u64::MAX);
    assert_eq!(median_u64(&[u64::MAX, u64::MAX]), u64::MAX);
}

#[test]
fn group_digits_inserts_underscores() {
    assert_eq!(group_digits(0), "0");
    assert_eq!(group_digits(312), "312");
    assert_eq!(group_digits(12_400), "12_400");
    assert_eq!(group_digits(1_204_000), "1_204_000");
}

fn stats(indexed: u64, unindexed: u64) -> IndexStats {
    IndexStats {
        name: "idx".to_string(),
        index_type: "BTree".to_string(),
        indexed_rows: indexed,
        unindexed_rows: unindexed,
        detail: String::new(),
    }
}

#[test]
fn coverage_display_rounds_to_one_decimal() {
    assert_eq!(coverage_display(&stats(980_000, 20_000)), "98.0%");
    assert_eq!(coverage_display(&stats(100, 0)), "100.0%");
    // 4/6 = 0.6666… rounds to 66.7%.
    assert_eq!(coverage_display(&stats(4, 2)), "66.7%");
    // 2/3 of a thousand → 66.7% as well (half-up on the hidden digit).
    assert_eq!(coverage_display(&stats(1, 2)), "33.3%");
}

#[test]
fn coverage_display_is_na_for_empty_index() {
    assert_eq!(coverage_display(&stats(0, 0)), "n/a");
}

/// The same figure in machine arithmetic.
fn in_doubles(part: u64, whole: u64) -> String {
    format!("{:.1}%", part as f64 / whole as f64 * 100.0)
}

#[test]
fn percentages_agree_with_double_precision() {
    let mut x: u64 = 0x9e37_79b9_7f4a_7c15;
    for round in 0..20_000_u32 {
        x ^= x << 13;
        x ^= x >> 7;
        x ^= x << 17;
        let whole = (x >> (round % 60)).max(1);
        x ^= x << 13;
        x ^= x >> 7;
        x ^= x << 17;
        let part = x % whole;
        assert_eq!(percent(part, whole), in_doubles(part, whole), "{part}/{whole}");
    }
    for whole in 1..200_u64 {
        for part in 0..=whole {
            assert_eq!(percent(part, whole), in_doubles(part, whole), "{part}/{whole}");
            assert_eq!(percent_text(part, whole) + "%", percent(part, whole));
        }
    }
}

#[test]
fn sizes_agree_with_double_precision() {
    let units = ["B", "KiB", "MiB", "GiB", "TiB", "PiB"];
    let in_doubles = |bytes: u64| -> String {
        let mut value = bytes as f64;
        let mut unit = 0;
        while value >= 1023.95 && unit < units.len() - 1 {
            value /= 1024.0;
            unit += 1;
        }
        format!("{value:.1} {}", units[unit])
    };
    for bytes in [1024, 1_047_000, 1_048_524, 1_048_525, 1_073_741_823, 1 << 40, 1 << 50, u64::MAX] {
        assert_eq!(human_bytes(bytes), in_doubles(bytes), "{bytes}");
    }
}
