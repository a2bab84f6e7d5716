use std::time::{Duration, Instant};

use dht_client::codec::{decode, DHTCell};
use dht_client::matrix::{Cell, Position, CELL_SIZE, CHUNK_SIZE, COMMITMENT_SIZE};
use dht_client::reference::{key_for, SEPARATOR};

fn content(seed: u8) -> [u8; CELL_SIZE] {
    let mut bytes = [0u8; CELL_SIZE];
    for (i, byte) in bytes.iter_mut().enumerate() {
        *byte = seed.wrapping_add(i as u8);
    }
    bytes
}

fn cell(row: u32, col: u16, seed: u8) -> Cell {
    Cell { position: Position { row, col }, content: content(seed) }
}

#[test]
fn cell_size_is_commitment_and_chunk() {
    assert_eq!(COMMITMENT_SIZE, 48);
    assert_eq!(CHUNK_SIZE, 32);
    assert_eq!(CELL_SIZE, COMMITMENT_SIZE + CHUNK_SIZE);
    assert_eq!(CELL_SIZE, 80);
}

#[test]
fn key_is_row_column_block_in_decimal() {
    assert_eq!(key_for(7, &Position { row: 0, col: 1 }), b"0:1:7".to_vec());
    assert_eq!(key_for(0, &Position { row: 0, col: 0 }), b"0:0:0".to_vec());
    assert_eq!(key_for(1000, &Position { row: 10, col: 100 }), b"10:100:1000".to_vec());
    assert_eq!(key_for(99, &Position { row: 9, col: 10 }), b"9:10:99".to_vec());
    assert_eq!(key_for(123456, &Position { row: 255, col: 256 }), b"255:256:123456".to_vec());
}

#[test]
fn key_of_the_largest_numbers() {
    let position = Position { row: u32::MAX, col: u16::MAX };
    assert_eq!(key_for(u32::MAX, &position), b"4294967295:65535:4294967295".to_vec());
}

#[test]
fn key_holds_two_separators() {
    let key = key_for(42, &Position { row: 3, col: 14 });
    assert_eq!(SEPARATOR, b':');
    assert_eq!(key.iter().filter(|byte| **byte == SEPARATOR).count(), 2);
}

#[test]
fn reference_is_the_key_as_text() {
    let position = Position { row: 17, col: 4 };
    let text = position.reference(2023);
    assert_eq!(text, "17:4:2023");
    assert_eq!(text.as_bytes(), key_for(2023, &position).as_slice());
    assert_eq!(cell(17, 4, 9).reference(2023), text);
    assert_eq!(DHTCell(cell(17, 4, 9)).reference(2023), text);
}

#[test]
fn key_is_deterministic() {
    for block in [0u32, 1, 7, 4_000_000_000] {
        for row in [0u32, 1, 9, 10, 99, 100, 65_536] {
            for col in [0u16, 1, 9, 10, 255, 256] {
                let position = Position { row, col };
                assert_eq!(key_for(block, &position), key_for(block, &position));
            }
        }
    }
}

#[test]
fn different_positions_have_different_keys() {
    let block = 12;
    let mut keys: Vec<Vec<u8>> = Vec::new();
    for row in 0..40u32 {
        for col in 0..40u16 {
            let key = key_for(block, &Position { row, col });
            assert!(!keys.contains(&key));
            keys.push(key);
        }
    }
    assert_eq!(keys.len(), 1600);
}

#[test]
fn digits_do_not_run_across_the_separator() {
    assert_ne!(key_for(5, &Position { row: 1, col: 23 }), key_for(5, &Position { row: 12, col: 3 }));
    assert_ne!(key_for(34, &Position { row: 1, col: 2 }), key_for(4, &Position { row: 1, col: 23 }));
    assert_ne!(key_for(1, &Position { row: 11, col: 1 }), key_for(11, &Position { row: 1, col: 1 }));
}

#[test]
fn different_blocks_have_different_keys() {
    let position = Position { row: 3, col: 4 };
    assert_ne!(key_for(1, &position), key_for(2, &position));
    assert_ne!(key_for(1, &position), key_for(10, &position));
}

#[test]
fn decode_takes_a_value_of_cell_size() {
    let position = Position { row: 4, col: 2 };
    let value = content(3).to_vec();
    let decoded = decode(&position, &value);
    assert_eq!(decoded, Some(Cell { position, content: content(3) }));
}

#[test]
fn decode_rejects_other_sizes() {
    let position = Position { row: 4, col: 2 };
    assert_eq!(decode(&position, &[]), None);
    assert_eq!(decode(&position, &vec![1u8; CELL_SIZE - 1]), None);
    assert_eq!(decode(&position, &vec![1u8; CELL_SIZE + 1]), None);
    assert_eq!(decode(&position, &vec![1u8; 1]), None);
    assert_eq!(decode(&position, &vec![1u8; 2 * CELL_SIZE]), None);
}

#[test]
fn decode_rejects_every_size_but_one() {
    let position = Position { row: 0, col: 0 };
    for len in 0..200usize {
        let decoded = decode(&position, &vec![7u8; len]);
        assert_eq!(decoded.is_some(), len == CELL_SIZE);
    }
}

#[test]
fn record_holds_key_and_content() {
    let cell = cell(2, 5, 40);
    let expires = Instant::now();
    let record = DHTCell(cell).dht_record_until(9, Some(expires));
    assert_eq!(record.key, b"2:5:9".to_vec());
    assert_eq!(record.value, cell.content.to_vec());
    assert_eq!(record.publisher, None);
    assert_eq!(record.expires, Some(expires));
}

#[test]
fn record_without_expiry() {
    let record = DHTCell(cell(0, 0, 1)).dht_record_until(0, None);
    assert_eq!(record.key, b"0:0:0".to_vec());
    assert_eq!(record.expires, None);
    assert_eq!(record.publisher, None);
}

#[test]
fn record_expires_after_its_time_to_live() {
    let cell = cell(1, 1, 0);
    let before = Instant::now();
    let record = DHTCell(cell).dht_record(3, 3600);
    let after = Instant::now();
    assert_eq!(record.key, key_for(3, &cell.position));
    assert_eq!(record.value, cell.content.to_vec());
    assert_eq!(record.publisher, None);
    let expires = record.expires.expect("an hour from now can be represented");
    assert!(expires >= before + Duration::from_secs(3600));
    assert!(expires <= after + Duration::from_secs(3600));
}

#[test]
fn record_with_no_time_to_live_expires_now() {
    let before = Instant::now();
    let record = DHTCell(cell(1, 1, 0)).dht_record(3, 0);
    let after = Instant::now();
    let expires = record.expires.expect("now can be represented");
    assert!(before <= expires && expires <= after);
}

#[test]
fn record_beyond_the_clock_never_expires() {
    let cell = cell(8, 8, 8);
    let record = DHTCell(cell).dht_record(1, u64::MAX);
    assert_eq!(record.expires, None);
    assert_eq!(record.key, key_for(1, &cell.position));
    assert_eq!(record.value, cell.content.to_vec());
}

#[test]
fn decode_reads_back_what_a_record_holds() {
    let cell = cell(77, 12, 200);
    let record = DHTCell(cell).dht_record(5, 10);
    assert_eq!(decode(&cell.position, &record.value), Some(cell));
}

#[test]
fn positions_are_equal_by_row_and_column() {
    assert_eq!(Position { row: 1, col: 2 }, Position { row: 1, col: 2 });
    assert_ne!(Position { row: 1, col: 2 }, Position { row: 2, col: 1 });
    assert_ne!(Position { row: 1, col: 2 }, Position { row: 1, col: 3 });
}
