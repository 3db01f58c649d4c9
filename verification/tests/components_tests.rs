use personal_site::components::{available_chars, columnar_layout, num_rows, Layout};

#[test]
fn rows_round_up() {
    assert_eq!(num_rows(10, 3), 4);
    assert_eq!(num_rows(9, 3), 3);
    assert_eq!(num_rows(0, 4), 0);
    assert_eq!(num_rows(1, 10), 1);
}

#[test]
fn available_width_in_characters() {
    assert_eq!(available_chars(65), 0);
    assert_eq!(available_chars(1024), 106);
    assert_eq!(available_chars(82), 1);
}

#[test]
fn short_listing_stays_on_one_line() {
    // widths 3+2, 5+2, 2+2 = 16 < 20
    match columnar_layout(&vec![3, 5, 2], 20) {
        Layout::Row => {}
        _ => panic!("expected one line"),
    }
    match columnar_layout(&vec![], 1) {
        Layout::Row => {}
        _ => panic!("expected one line"),
    }
}

#[test]
fn long_listing_goes_into_columns() {
    // total 16, not < 16: try 3 columns (rows 1, widths 5,7,4 = 16, no),
    // then 2 columns (rows 2, columns [3,5] and [2]: 7 + 4 = 11 < 16)
    match columnar_layout(&vec![3, 5, 2], 16) {
        Layout::Grid { rows, widths } => {
            assert_eq!(rows, 2);
            assert_eq!(widths, vec![7, 4]);
        }
        Layout::Row => panic!("expected columns"),
    }
    // nothing fits: one column as wide as the widest item
    match columnar_layout(&vec![3, 5, 2], 3) {
        Layout::Grid { rows, widths } => {
            assert_eq!(rows, 3);
            assert_eq!(widths, vec![7]);
        }
        Layout::Row => panic!("expected columns"),
    }
}

#[test]
fn at_most_ten_columns() {
    let lens = vec![1usize; 25];
    // total 75, not < 60; ten columns of 3 rows: 9 columns of width 3 = 27 < 60
    match columnar_layout(&lens, 60) {
        Layout::Grid { rows, widths } => {
            assert_eq!(rows, 3);
            assert_eq!(widths.len(), 9);
            assert!(widths.iter().all(|w| *w == 3));
        }
        Layout::Row => panic!("expected columns"),
    }
}
