use dht_client::client::Client;
use dht_client::matrix::{Cell, Position, CELL_SIZE};
use dht_client::port::{PortError, PutReply, Quorum};
use dht_client::publish::{PublishBatch, SuccessRatio};
use dht_client::reference::key_for;

fn cell_at(row: u32, col: u16) -> Cell {
    let mut content = [0u8; CELL_SIZE];
    for (i, byte) in content.iter_mut().enumerate() {
        *byte = (row as u8).wrapping_mul(7).wrapping_add(col as u8).wrapping_add(i as u8);
    }
    Cell { position: Position { row, col }, content }
}

fn cells(count: u16) -> Vec<Cell> {
    (0..count).map(|col| cell_at(1, col)).collect()
}

fn as_float(ratio: SuccessRatio) -> f32 {
    1.0 - ((ratio.denominator - ratio.numerator) as f32 / ratio.denominator as f32)
}

fn replies_with_failures(total: usize, failures: usize) -> Vec<PutReply> {
    (0..total).map(|i| if i < failures { Err(PortError::Engine) } else { Ok(()) }).collect()
}

#[test]
fn no_cells_succeed_as_a_whole() {
    for limit in [0usize, 1, 8] {
        let ratio = Client::new(limit, 60).insert_into_dht(5, Vec::new(), &[]);
        assert_eq!(ratio, SuccessRatio { numerator: 1, denominator: 1 });
        assert_eq!(as_float(ratio), 1.0);
    }
}

#[test]
fn one_failure_in_four() {
    let replies: Vec<PutReply> = vec![Ok(()), Ok(()), Err(PortError::Engine), Ok(())];
    let ratio = Client::new(4, 60).insert_into_dht(5, cells(4), &replies);
    assert_eq!(ratio, SuccessRatio { numerator: 3, denominator: 4 });
    assert!((as_float(ratio) - 0.75).abs() < 1e-6);
}

#[test]
fn every_failure_gives_zero() {
    for total in [1usize, 2, 5, 64] {
        let replies = replies_with_failures(total, total);
        let ratio = Client::new(3, 60).insert_into_dht(1, cells(total as u16), &replies);
        assert_eq!(ratio, SuccessRatio { numerator: 0, denominator: total });
        assert_eq!(as_float(ratio), 0.0);
    }
}

#[test]
fn one_cell_that_fails_gives_zero() {
    let ratio = Client::new(1, 60).insert_into_dht(1, cells(1), &[Err(PortError::Engine)]);
    assert_eq!(ratio, SuccessRatio { numerator: 0, denominator: 1 });
    assert_eq!(as_float(ratio), 0.0);
}

#[test]
fn no_failure_gives_one() {
    for total in [1usize, 3, 50] {
        let replies = replies_with_failures(total, 0);
        let ratio = Client::new(2, 60).insert_into_dht(1, cells(total as u16), &replies);
        assert_eq!(ratio, SuccessRatio { numerator: total, denominator: total });
        assert_eq!(as_float(ratio), 1.0);
    }
}

#[test]
fn some_failures_give_their_share() {
    for total in 1..=12usize {
        for failures in 0..=total {
            let replies = replies_with_failures(total, failures);
            let ratio = Client::new(5, 60).insert_into_dht(9, cells(total as u16), &replies);
            assert_eq!(
                ratio,
                SuccessRatio { numerator: total - failures, denominator: total }
            );
            let expected = (total - failures) as f32 / total as f32;
            assert!((as_float(ratio) - expected).abs() < 1e-6);
            assert!(0.0 <= as_float(ratio) && as_float(ratio) <= 1.0);
        }
    }
}

#[test]
fn every_kind_of_error_counts() {
    let replies: Vec<PutReply> = vec![
        Err(PortError::Engine),
        Err(PortError::CommandChannelClosed),
        Err(PortError::ReplyChannelClosed),
        Ok(()),
        Ok(()),
    ];
    let ratio = Client::new(2, 60).insert_into_dht(1, cells(5), &replies);
    assert_eq!(ratio, SuccessRatio { numerator: 2, denominator: 5 });
}

#[test]
fn the_ratio_does_not_depend_on_the_limit() {
    let replies = replies_with_failures(10, 3);
    for limit in [0usize, 1, 2, 9, 10, 11, usize::MAX] {
        let ratio = Client::new(limit, 60).insert_into_dht(1, cells(10), &replies);
        assert_eq!(ratio, SuccessRatio { numerator: 7, denominator: 10 });
    }
}

#[test]
fn puts_wait_while_the_limit_is_reached() {
    let mut batch = PublishBatch::new(3, cells(5), 2, 60);
    assert_eq!(batch.in_flight(), 0);
    assert!(batch.next_put().is_some());
    assert!(batch.next_put().is_some());
    assert_eq!(batch.in_flight(), 2);
    assert!(batch.next_put().is_none());
    assert!(batch.next_put().is_none());
    assert_eq!(batch.in_flight(), 2);

    batch.record_reply(&Ok(()));
    assert_eq!(batch.in_flight(), 1);
    assert!(batch.next_put().is_some());
    assert!(batch.next_put().is_none());
    assert_eq!(batch.in_flight(), 2);

    batch.record_reply(&Err(PortError::Engine));
    batch.record_reply(&Ok(()));
    assert_eq!(batch.in_flight(), 0);
    assert!(!batch.is_done());
    assert!(batch.next_put().is_some());
    assert!(batch.next_put().is_some());
    assert!(batch.next_put().is_none());
    batch.record_reply(&Ok(()));
    batch.record_reply(&Ok(()));
    assert!(batch.is_done());
    assert!(batch.next_put().is_none());
    assert_eq!(batch.success_ratio(), SuccessRatio { numerator: 4, denominator: 5 });
}

#[test]
fn no_more_puts_are_in_flight_than_the_limit() {
    for limit in [1usize, 2, 3, 7] {
        let mut batch = PublishBatch::new(3, cells(20), limit, 60);
        let mut most_in_flight = 0;
        let mut answered = 0;
        while !batch.is_done() {
            while batch.next_put().is_some() {
                assert!(batch.in_flight() <= limit);
            }
            most_in_flight = most_in_flight.max(batch.in_flight());
            let reply: PutReply = if answered % 2 == 0 { Ok(()) } else { Err(PortError::Engine) };
            batch.record_reply(&reply);
            answered += 1;
        }
        assert_eq!(answered, 20);
        assert_eq!(most_in_flight, limit);
        assert_eq!(batch.success_ratio(), SuccessRatio { numerator: 10, denominator: 20 });
    }
}

#[test]
fn a_limit_of_zero_is_no_limit() {
    let mut batch = PublishBatch::new(3, cells(9), 0, 60);
    let mut handed_out = 0;
    while batch.next_put().is_some() {
        handed_out += 1;
    }
    assert_eq!(handed_out, 9);
    assert_eq!(batch.in_flight(), 9);
    for _ in 0..9 {
        batch.record_reply(&Ok(()));
    }
    assert!(batch.is_done());
    assert_eq!(batch.success_ratio(), SuccessRatio { numerator: 9, denominator: 9 });
}

#[test]
fn puts_go_out_in_the_order_of_the_cells() {
    let cells = cells(6);
    let mut batch = Client::new(6, 120).publish_batch(44, cells.clone());
    for cell in &cells {
        let put = batch.next_put().expect("the limit is not reached");
        assert_eq!(put.quorum, Quorum::One);
        assert_eq!(put.record.key, key_for(44, &cell.position));
        assert_eq!(put.record.value, cell.content.to_vec());
        assert_eq!(put.record.publisher, None);
        assert!(put.record.expires.is_some());
    }
    assert!(batch.next_put().is_none());
}

#[test]
fn an_empty_batch_is_done_at_once() {
    let mut batch = PublishBatch::new(3, Vec::new(), 4, 60);
    assert!(batch.is_done());
    assert!(batch.next_put().is_none());
    assert_eq!(batch.in_flight(), 0);
    assert_eq!(batch.success_ratio(), SuccessRatio { numerator: 1, denominator: 1 });
}

#[test]
fn the_ratio_stands_at_every_moment() {
    let mut batch = PublishBatch::new(3, cells(4), 4, 60);
    assert_eq!(batch.success_ratio(), SuccessRatio { numerator: 4, denominator: 4 });
    while batch.next_put().is_some() {}
    batch.record_reply(&Err(PortError::Engine));
    assert_eq!(batch.success_ratio(), SuccessRatio { numerator: 3, denominator: 4 });
    batch.record_reply(&Err(PortError::Engine));
    assert_eq!(batch.success_ratio(), SuccessRatio { numerator: 2, denominator: 4 });
}
