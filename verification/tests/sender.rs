use treasure_hunt::codec::Payload;
use treasure_hunt::error::GameError;
use treasure_hunt::sender::{
    Pending, ReliableSender, Retry, RETRY_LIMIT, RETRY_TIMEOUT_MS, SEND_BUDGET_MS,
};
use treasure_hunt::types::Direction;

#[test]
fn sender_constants_fit_together() {
    assert_eq!(RETRY_LIMIT, 3);
    assert_eq!(RETRY_TIMEOUT_MS, 500);
    assert_eq!(SEND_BUDGET_MS, RETRY_TIMEOUT_MS * RETRY_LIMIT as u64);
}

#[test]
fn sender_numbers_its_commands_from_one() {
    let mut sender = ReliableSender::new();
    assert!(!sender.is_waiting());
    assert_eq!(sender.begin(Payload::Connect), Some(b"1:connect".to_vec()));
    assert!(sender.is_waiting());
    assert_eq!(
        sender.pending,
        Some(Pending { sequence: 1, payload: Payload::Connect, attempts: 1 })
    );
    assert!(sender.on_ack(1));
    assert!(!sender.is_waiting());
    assert_eq!(sender.begin(Payload::Move(Direction::Up)), Some(b"2:MOVE:W".to_vec()));
    assert!(sender.on_ack(2));
    assert_eq!(sender.begin(Payload::Move(Direction::Right)), Some(b"3:MOVE:D".to_vec()));
}

#[test]
fn sender_without_a_peer_gives_up_after_the_retry_limit() {
    let mut sender = ReliableSender::new();
    let mut transmissions = 0;
    let first = sender.begin(Payload::Connect).unwrap();
    transmissions += 1;
    let mut elapsed = 0;
    let outcome = loop {
        elapsed += RETRY_TIMEOUT_MS;
        match sender.on_timeout(elapsed) {
            Retry::Resend(bytes) => {
                assert_eq!(bytes, first);
                transmissions += 1;
            }
            other => break other,
        }
    };
    assert_eq!(outcome, Retry::GaveUp(GameError::SendTimeout));
    assert_eq!(transmissions, RETRY_LIMIT);
    assert_eq!(elapsed, SEND_BUDGET_MS);
    assert!(!sender.is_waiting());
    assert_eq!(sender.next_sequence, 2);
}

#[test]
fn sender_resends_under_the_same_sequence_number() {
    let mut sender = ReliableSender::new();
    sender.begin(Payload::Connect);
    sender.on_ack(1);
    assert_eq!(sender.begin(Payload::Move(Direction::Left)), Some(b"2:MOVE:A".to_vec()));
    assert_eq!(sender.on_timeout(500), Retry::Resend(b"2:MOVE:A".to_vec()));
    assert_eq!(sender.pending.map(|p| p.attempts), Some(2));
    assert_eq!(sender.on_timeout(1000), Retry::Resend(b"2:MOVE:A".to_vec()));
    assert_eq!(sender.pending.map(|p| p.attempts), Some(3));
    assert_eq!(sender.next_sequence, 3);
    assert_eq!(sender.on_timeout(1499), Retry::GaveUp(GameError::SendTimeout));
    assert_eq!(sender.pending, None);
}

#[test]
fn sender_gives_up_when_the_time_is_spent() {
    let mut sender = ReliableSender::new();
    sender.begin(Payload::Connect);
    assert_eq!(sender.on_timeout(SEND_BUDGET_MS), Retry::GaveUp(GameError::SendTimeout));
    assert!(!sender.is_waiting());

    sender.begin(Payload::Connect);
    assert_eq!(sender.on_timeout(SEND_BUDGET_MS - 1), Retry::Resend(b"2:connect".to_vec()));
    assert_eq!(sender.on_timeout(u64::MAX), Retry::GaveUp(GameError::SendTimeout));
}

#[test]
fn sender_succeeds_on_the_awaited_acknowledgment_at_any_attempt() {
    for timeouts in 0..RETRY_LIMIT {
        let mut sender = ReliableSender::new();
        sender.begin(Payload::Connect);
        for k in 0..timeouts {
            let retry = sender.on_timeout(RETRY_TIMEOUT_MS * (k as u64 + 1));
            if k + 1 < RETRY_LIMIT {
                assert_eq!(retry, Retry::Resend(b"1:connect".to_vec()));
            }
        }
        if sender.is_waiting() {
            assert!(sender.on_ack(1));
        }
        assert!(!sender.is_waiting());
    }
}

#[test]
fn sender_ignores_acknowledgments_it_does_not_await() {
    let mut sender = ReliableSender::new();
    assert!(!sender.on_ack(1));
    sender.begin(Payload::Connect);
    sender.on_ack(1);
    sender.begin(Payload::Move(Direction::Down));
    assert!(!sender.on_ack(1));
    assert!(!sender.on_ack(3));
    assert!(!sender.on_ack(0));
    assert_eq!(
        sender.pending,
        Some(Pending { sequence: 2, payload: Payload::Move(Direction::Down), attempts: 1 })
    );
    assert!(sender.on_ack(2));
    assert!(!sender.on_ack(2));
}

#[test]
fn sender_takes_on_one_command_at_a_time() {
    let mut sender = ReliableSender::new();
    sender.begin(Payload::Connect);
    assert_eq!(sender.begin(Payload::Move(Direction::Up)), None);
    assert_eq!(sender.next_sequence, 2);
    assert_eq!(
        sender.pending,
        Some(Pending { sequence: 1, payload: Payload::Connect, attempts: 1 })
    );
    sender.on_ack(1);
    assert_eq!(sender.begin(Payload::Move(Direction::Up)), Some(b"2:MOVE:W".to_vec()));
}

#[test]
fn sender_that_is_idle_has_nothing_to_time_out() {
    let mut sender = ReliableSender::new();
    assert_eq!(sender.on_timeout(0), Retry::Idle);
    assert_eq!(sender.on_timeout(5000), Retry::Idle);
    assert_eq!(sender.next_sequence, 1);
}

#[test]
fn sender_starts_over_after_the_highest_sequence() {
    let mut sender = ReliableSender { next_sequence: u32::MAX, pending: None };
    assert_eq!(sender.begin(Payload::Connect), Some(b"4294967295:connect".to_vec()));
    assert_eq!(sender.next_sequence, 0);
    assert!(sender.on_ack(u32::MAX));
    assert_eq!(sender.begin(Payload::Connect), Some(b"0:connect".to_vec()));
    assert_eq!(sender.next_sequence, 1);
}
