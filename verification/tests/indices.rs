//! Row index expressions.
use arrs::error::Error;
use arrs::indices::{resolve, resolve_index, resolve_single};

#[test]
fn single_positive() {
    assert_eq!(resolve("5", 10).unwrap(), vec![5]);
}

#[test]
fn single_negative() {
    assert_eq!(resolve("-1", 10).unwrap(), vec![9]);
    assert_eq!(resolve("-10", 10).unwrap(), vec![0]);
}

#[test]
fn range_closed() {
    assert_eq!(resolve("2:5", 10).unwrap(), vec![2, 3, 4, 5]);
}

#[test]
fn range_open_start() {
    assert_eq!(resolve(":3", 10).unwrap(), vec![0, 1, 2, 3]);
}

#[test]
fn range_open_end() {
    assert_eq!(resolve("7:", 10).unwrap(), vec![7, 8, 9]);
}

#[test]
fn range_full() {
    assert_eq!(resolve(":", 4).unwrap(), vec![0, 1, 2, 3]);
}

#[test]
fn range_negative_to_negative() {
    // Last 5 of 10 rows = indices 5..=9
    assert_eq!(resolve("-5:-1", 10).unwrap(), vec![5, 6, 7, 8, 9]);
}

#[test]
fn range_negative_to_positive() {
    assert_eq!(resolve("-5:9", 10).unwrap(), vec![5, 6, 7, 8, 9]);
}

#[test]
fn order_preserved_and_dupes_kept() {
    assert_eq!(resolve("3,1,1,0:2", 5).unwrap(), vec![3, 1, 1, 0, 1, 2]);
}

#[test]
fn out_of_range_positive() {
    assert!(matches!(
        resolve("10", 10),
        Err(Error::IndexOutOfRange { .. })
    ));
}

#[test]
fn out_of_range_negative() {
    assert!(matches!(
        resolve("-11", 10),
        Err(Error::IndexOutOfRange { .. })
    ));
}

#[test]
fn empty_range_error() {
    assert!(matches!(resolve("5:2", 10), Err(Error::EmptyRange { .. })));
}

#[test]
fn invalid_int_error() {
    assert!(matches!(resolve("abc", 10), Err(Error::IndexParse(_))));
}

#[test]
fn empty_input_error() {
    assert!(matches!(resolve("", 10), Err(Error::IndexParse(_))));
}

#[test]
fn empty_dataset_single_error() {
    assert!(matches!(
        resolve("0", 0),
        Err(Error::IndexOutOfRange { .. })
    ));
}

#[test]
fn errors_name_what_is_wrong() {
    assert_eq!(
        resolve("1,x", 10).unwrap_err().message(),
        "--indices parse error: invalid integer 'x'"
    );
    assert_eq!(
        resolve("7", 5).unwrap_err().message(),
        "index 7 is out of range for dataset with 5 rows"
    );
    assert!(matches!(
        resolve("-7", 5),
        Err(Error::IndexOutOfRange { index: -7, rowcount: 5 })
    ));
    assert!(matches!(
        resolve("4:-4", 5),
        Err(Error::EmptyRange { start: 4, end: -4 })
    ));
}

#[test]
fn white_space_around_tokens_is_ignored() {
    assert_eq!(resolve(" 1 , 2:3 ", 5).unwrap(), vec![1, 2, 3]);
    assert!(matches!(resolve("1,,2", 5), Err(Error::IndexParse(_))));
    assert!(matches!(resolve("   ", 5), Err(Error::IndexParse(_))));
}

#[test]
fn extreme_integers_are_read_exactly() {
    assert!(matches!(
        resolve("9223372036854775807", 10),
        Err(Error::IndexOutOfRange { index: i64::MAX, rowcount: 10 })
    ));
    assert!(matches!(
        resolve("-9223372036854775808", 10),
        Err(Error::IndexOutOfRange { index: i64::MIN, rowcount: 10 })
    ));
    assert!(matches!(resolve("9223372036854775808", 10), Err(Error::IndexParse(_))));
}

#[test]
fn one_index_counts_from_either_end() {
    assert_eq!(resolve_index(0, 3).unwrap(), 0);
    assert_eq!(resolve_index(-1, 3).unwrap(), 2);
    assert_eq!(resolve_single(2, 3).unwrap(), 2);
    assert!(resolve_index(3, 3).is_err());
    assert!(resolve_index(-4, 3).is_err());
}
