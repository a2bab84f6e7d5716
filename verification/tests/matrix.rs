use std::cmp::Ordering;

use dht_client::matrix::Position;

fn positions() -> Vec<Position> {
    let mut all = Vec::new();
    for row in [0u32, 1, 2, 10, u32::MAX] {
        for col in [0u16, 1, 9, u16::MAX] {
            all.push(Position { row, col });
        }
    }
    all
}

#[test]
fn positions_are_ordered_by_row_then_column() {
    assert!(Position { row: 1, col: 2 } < Position { row: 1, col: 3 });
    assert!(Position { row: 1, col: 9 } < Position { row: 2, col: 0 });
    assert!(Position { row: 2, col: 0 } > Position { row: 1, col: 65_535 });
    assert!(Position { row: 3, col: 3 } <= Position { row: 3, col: 3 });
    assert!(Position { row: 3, col: 3 } >= Position { row: 3, col: 3 });
    assert!(!(Position { row: 3, col: 3 } < Position { row: 3, col: 3 }));
}

#[test]
fn comparison_agrees_with_the_pair_of_row_and_column() {
    for a in positions() {
        for b in positions() {
            let expected = (a.row, a.col).cmp(&(b.row, b.col));
            assert_eq!(a.partial_cmp(&b), Some(expected));
            assert_eq!(a.cmp(&b), expected);
            assert_eq!(a == b, expected == Ordering::Equal);
            assert_eq!(a < b, expected == Ordering::Less);
            assert_eq!(a > b, expected == Ordering::Greater);
        }
    }
}

#[test]
fn sorting_puts_rows_first() {
    let mut all = vec![
        Position { row: 2, col: 1 },
        Position { row: 0, col: 7 },
        Position { row: 2, col: 0 },
        Position { row: 1, col: 3 },
        Position { row: 0, col: 2 },
    ];
    all.sort();
    assert_eq!(
        all,
        vec![
            Position { row: 0, col: 2 },
            Position { row: 0, col: 7 },
            Position { row: 1, col: 3 },
            Position { row: 2, col: 0 },
            Position { row: 2, col: 1 },
        ]
    );
}
