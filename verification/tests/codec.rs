use treasure_hunt::codec::{
    decode_ack, decode_command, decode_server_message, decode_snapshot, encode_ack,
    encode_command, encode_snapshot, find_byte, read_payload, Command, Payload, ServerMessage,
};
use treasure_hunt::error::GameError;
use treasure_hunt::types::{Cell, Direction, PlayerRecord, PlayerState, Snapshot};

fn record(id: u16, x: u8, y: u8, score: i32) -> PlayerRecord {
    PlayerRecord { id, state: PlayerState { x, y, score } }
}

fn sample_snapshot() -> Snapshot {
    Snapshot {
        time_remaining: 42,
        players: vec![record(1, 0, 0, 0), record(2, 9, 4, 30), record(3, 7, 7, -5)],
        treasures: vec![Cell { x: 2, y: 3 }, Cell { x: 5, y: 5 }],
        traps: vec![Cell { x: 3, y: 3 }],
    }
}

#[test]
fn command_connect_is_written_with_its_sequence() {
    let bytes = encode_command(&Command { sequence: 1, payload: Payload::Connect });
    assert_eq!(bytes, b"1:connect".to_vec());
}

#[test]
fn command_moves_are_written_with_their_letters() {
    let cases = [
        (Direction::Up, &b"7:MOVE:W"[..]),
        (Direction::Left, &b"7:MOVE:A"[..]),
        (Direction::Down, &b"7:MOVE:S"[..]),
        (Direction::Right, &b"7:MOVE:D"[..]),
    ];
    for (direction, expected) in cases {
        let bytes = encode_command(&Command { sequence: 7, payload: Payload::Move(direction) });
        assert_eq!(bytes, expected.to_vec());
    }
}

#[test]
fn command_with_the_highest_sequence_is_written_in_full() {
    let bytes = encode_command(&Command { sequence: u32::MAX, payload: Payload::Other });
    assert_eq!(bytes, b"4294967295:".to_vec());
}

#[test]
fn command_is_read_back() {
    assert_eq!(
        decode_command(b"1:MOVE:D"),
        Ok(Command { sequence: 1, payload: Payload::Move(Direction::Right) })
    );
    assert_eq!(
        decode_command(b"12:connect"),
        Ok(Command { sequence: 12, payload: Payload::Connect })
    );
    assert_eq!(
        decode_command(b"4294967295:MOVE:W"),
        Ok(Command { sequence: u32::MAX, payload: Payload::Move(Direction::Up) })
    );
}

#[test]
fn command_round_trip_on_every_payload() {
    let payloads = [
        Payload::Connect,
        Payload::Move(Direction::Up),
        Payload::Move(Direction::Left),
        Payload::Move(Direction::Down),
        Payload::Move(Direction::Right),
        Payload::Other,
    ];
    for sequence in [0u32, 1, 9, 10, 99, 100, 65535, 4294967295] {
        for payload in payloads {
            let command = Command { sequence, payload };
            assert_eq!(decode_command(&encode_command(&command)), Ok(command));
        }
    }
}

#[test]
fn command_without_colon_is_malformed() {
    assert_eq!(decode_command(b"connect"), Err(GameError::MalformedMessage));
    assert_eq!(decode_command(b""), Err(GameError::MalformedMessage));
    assert_eq!(decode_command(b"17"), Err(GameError::MalformedMessage));
}

#[test]
fn command_without_sequence_number_is_malformed() {
    assert_eq!(decode_command(b":connect"), Err(GameError::MalformedMessage));
    assert_eq!(decode_command(b"abc:connect"), Err(GameError::MalformedMessage));
    assert_eq!(decode_command(b"-1:connect"), Err(GameError::MalformedMessage));
    assert_eq!(decode_command(b"1 :connect"), Err(GameError::MalformedMessage));
    assert_eq!(decode_command(b" 1:connect"), Err(GameError::MalformedMessage));
    assert_eq!(decode_command(b"+:connect"), Err(GameError::MalformedMessage));
    assert_eq!(decode_command(b"MOVE:D"), Err(GameError::MalformedMessage));
}

#[test]
fn command_with_too_large_a_sequence_is_malformed() {
    assert_eq!(decode_command(b"4294967296:connect"), Err(GameError::MalformedMessage));
    assert_eq!(
        decode_command(b"99999999999999999999999999:connect"),
        Err(GameError::MalformedMessage)
    );
}

#[test]
fn command_sequence_may_have_a_plus_sign_and_leading_zeros() {
    assert_eq!(
        decode_command(b"+5:connect"),
        Ok(Command { sequence: 5, payload: Payload::Connect })
    );
    assert_eq!(
        decode_command(b"007:MOVE:A"),
        Ok(Command { sequence: 7, payload: Payload::Move(Direction::Left) })
    );
}

#[test]
fn command_is_cut_at_the_first_colon_only() {
    assert_eq!(
        decode_command(b"3:MOVE:S"),
        Ok(Command { sequence: 3, payload: Payload::Move(Direction::Down) })
    );
    assert_eq!(decode_command(b"3:4:connect"), Ok(Command { sequence: 3, payload: Payload::Other }));
}

#[test]
fn unknown_payloads_are_read_as_other() {
    for text in [
        &b"5:hello"[..],
        &b"5:"[..],
        &b"5:MOVE:Q"[..],
        &b"5:MOVE:"[..],
        &b"5:MOVE:WW"[..],
        &b"5:move:w"[..],
        &b"5:MOVE:w"[..],
        &b"5:Connect"[..],
        &b"5:connect "[..],
        &b"5:connected"[..],
    ] {
        assert_eq!(decode_command(text), Ok(Command { sequence: 5, payload: Payload::Other }));
    }
}

#[test]
fn payload_text_is_told_apart() {
    assert_eq!(read_payload(b"connect"), Payload::Connect);
    assert_eq!(read_payload(b"MOVE:W"), Payload::Move(Direction::Up));
    assert_eq!(read_payload(b"MOVE:A"), Payload::Move(Direction::Left));
    assert_eq!(read_payload(b"MOVE:S"), Payload::Move(Direction::Down));
    assert_eq!(read_payload(b"MOVE:D"), Payload::Move(Direction::Right));
    assert_eq!(read_payload(b""), Payload::Other);
    assert_eq!(read_payload(b"MOVE D"), Payload::Other);
}

#[test]
fn first_separator_is_found() {
    assert_eq!(find_byte(b"ab:cd:ef", b':'), 2);
    assert_eq!(find_byte(b":x", b':'), 0);
    assert_eq!(find_byte(b"abc", b':'), 3);
    assert_eq!(find_byte(b"", b':'), 0);
}

#[test]
fn ack_is_written_and_read() {
    assert_eq!(encode_ack(1), b"ACK:1".to_vec());
    assert_eq!(encode_ack(0), b"ACK:0".to_vec());
    assert_eq!(encode_ack(4294967295), b"ACK:4294967295".to_vec());
    assert_eq!(decode_ack(b"ACK:1"), Some(1));
    assert_eq!(decode_ack(b"ACK:4294967295"), Some(4294967295));
    for sequence in [0u32, 5, 10, 123456, u32::MAX] {
        assert_eq!(decode_ack(&encode_ack(sequence)), Some(sequence));
    }
}

#[test]
fn ack_that_is_none_is_refused() {
    assert_eq!(decode_ack(b"ACK:"), None);
    assert_eq!(decode_ack(b"ACK:connect"), None);
    assert_eq!(decode_ack(b"ACK:4294967296"), None);
    assert_eq!(decode_ack(b"ACK"), None);
    assert_eq!(decode_ack(b"ack:1"), None);
    assert_eq!(decode_ack(b"NAK:1"), None);
    assert_eq!(decode_ack(b""), None);
    assert_eq!(decode_ack(b"ACK:1 "), None);
}

#[test]
fn snapshot_of_a_fresh_world_is_written_with_an_empty_player_segment() {
    let snapshot = Snapshot {
        time_remaining: 60,
        players: vec![],
        treasures: vec![Cell { x: 2, y: 3 }, Cell { x: 5, y: 5 }],
        traps: vec![Cell { x: 3, y: 3 }, Cell { x: 6, y: 6 }],
    };
    assert_eq!(
        encode_snapshot(&snapshot),
        b"GAME_STATE|TIME:60||(2, 3),(5, 5)|(3, 3),(6, 6)".to_vec()
    );
}

#[test]
fn snapshot_with_players_is_written_record_by_record() {
    assert_eq!(
        encode_snapshot(&sample_snapshot()),
        b"GAME_STATE|TIME:42|P1:(0, 0, 0)|P2:(9, 4, 30)|P3:(7, 7, -5)|(2, 3),(5, 5)|(3, 3)"
            .to_vec()
    );
}

#[test]
fn snapshot_with_nothing_in_it_is_written_with_empty_segments() {
    let snapshot = Snapshot { time_remaining: 0, players: vec![], treasures: vec![], traps: vec![] };
    assert_eq!(encode_snapshot(&snapshot), b"GAME_STATE|TIME:0|||".to_vec());
    assert_eq!(decode_snapshot(b"GAME_STATE|TIME:0|||"), Ok(snapshot));
}

#[test]
fn snapshot_numbers_are_written_at_their_limits() {
    let snapshot = Snapshot {
        time_remaining: u32::MAX,
        players: vec![record(65535, 255, 0, i32::MIN), record(0, 0, 255, i32::MAX)],
        treasures: vec![Cell { x: 255, y: 255 }],
        traps: vec![Cell { x: 0, y: 0 }],
    };
    let bytes = encode_snapshot(&snapshot);
    assert_eq!(
        bytes,
        b"GAME_STATE|TIME:4294967295|P65535:(255, 0, -2147483648)|P0:(0, 255, 2147483647)|(255, 255)|(0, 0)"
            .to_vec()
    );
    assert_eq!(decode_snapshot(&bytes), Ok(snapshot));
}

#[test]
fn snapshot_round_trip_with_zero_to_three_players() {
    let all = sample_snapshot();
    for players in 0..=3usize {
        for treasures in 0..=2usize {
            for traps in 0..=1usize {
                let snapshot = Snapshot {
                    time_remaining: 17,
                    players: all.players[..players].to_vec(),
                    treasures: all.treasures[..treasures].to_vec(),
                    traps: all.traps[..traps].to_vec(),
                };
                assert_eq!(decode_snapshot(&encode_snapshot(&snapshot)), Ok(snapshot));
            }
        }
    }
}

#[test]
fn snapshot_round_trip_with_many_cells() {
    let mut treasures = Vec::new();
    let mut traps = Vec::new();
    for i in 0..40u8 {
        treasures.push(Cell { x: i, y: 255 - i });
        traps.push(Cell { x: 100 + i, y: i });
    }
    let snapshot = Snapshot { time_remaining: 1, players: vec![record(2, 3, 4, 50)], treasures, traps };
    assert_eq!(decode_snapshot(&encode_snapshot(&snapshot)), Ok(snapshot));
}

#[test]
fn snapshot_with_fewer_than_four_segments_is_malformed() {
    assert_eq!(decode_snapshot(b""), Err(GameError::MalformedSnapshot));
    assert_eq!(decode_snapshot(b"GAME_STATE"), Err(GameError::MalformedSnapshot));
    assert_eq!(decode_snapshot(b"GAME_STATE|TIME:60"), Err(GameError::MalformedSnapshot));
    assert_eq!(decode_snapshot(b"GAME_STATE|TIME:60|(1, 2)"), Err(GameError::MalformedSnapshot));
    assert_eq!(decode_snapshot(b"||"), Err(GameError::MalformedSnapshot));
}

#[test]
fn snapshot_with_exactly_four_segments_has_no_players() {
    assert_eq!(
        decode_snapshot(b"GAME_STATE|TIME:9|(1, 2)|(3, 4)"),
        Ok(Snapshot {
            time_remaining: 9,
            players: vec![],
            treasures: vec![Cell { x: 1, y: 2 }],
            traps: vec![Cell { x: 3, y: 4 }],
        })
    );
    assert_eq!(
        decode_snapshot(b"|||"),
        Ok(Snapshot { time_remaining: 0, players: vec![], treasures: vec![], traps: vec![] })
    );
}

#[test]
fn snapshot_number_that_cannot_be_read_counts_as_zero() {
    assert_eq!(
        decode_snapshot(b"GAME_STATE|TIME:soon|P1:(x, 2, 3)|P?:(4, 256, 1.5)|(a, 1),(2, b)|(300, 7)"),
        Ok(Snapshot {
            time_remaining: 0,
            players: vec![record(1, 0, 2, 3), record(0, 4, 0, 0)],
            treasures: vec![Cell { x: 0, y: 1 }, Cell { x: 2, y: 0 }],
            traps: vec![Cell { x: 0, y: 7 }],
        })
    );
}

#[test]
fn snapshot_countdown_without_a_number_is_zero() {
    let empty = Snapshot { time_remaining: 0, players: vec![], treasures: vec![], traps: vec![] };
    assert_eq!(decode_snapshot(b"GAME_STATE|TIME|||"), Ok(empty.clone()));
    assert_eq!(decode_snapshot(b"GAME_STATE|TIME:|||"), Ok(empty.clone()));
    assert_eq!(decode_snapshot(b"GAME_STATE|TIME: 5|||"), Ok(empty.clone()));
    assert_eq!(decode_snapshot(b"GAME_STATE|TIME:4294967296|||"), Ok(empty));
    assert_eq!(
        decode_snapshot(b"GAME_STATE|TIME:5:6|||"),
        Ok(Snapshot { time_remaining: 5, players: vec![], treasures: vec![], traps: vec![] })
    );
}

#[test]
fn snapshot_record_of_another_shape_is_left_out() {
    let decoded = decode_snapshot(
        b"GAME_STATE|TIME:3|P1|Q2:(1, 1, 1)|P3:(1, 2)|P4:(1, 2, 3, 4)|P5:x|P6:(6, 6, 6)||P7:()|(1, 1)|",
    );
    assert_eq!(
        decoded,
        Ok(Snapshot {
            time_remaining: 3,
            players: vec![record(6, 6, 6, 6)],
            treasures: vec![Cell { x: 1, y: 1 }],
            traps: vec![],
        })
    );
}

#[test]
fn snapshot_numbers_may_have_blanks_around_them() {
    assert_eq!(
        decode_snapshot(b"GAME_STATE|TIME:8|P2:( 1 ,\t2,  -3 )|( 4 ,5 )|(6,7)"),
        Ok(Snapshot {
            time_remaining: 8,
            players: vec![record(2, 1, 2, -3)],
            treasures: vec![Cell { x: 4, y: 5 }],
            traps: vec![Cell { x: 6, y: 7 }],
        })
    );
}

#[test]
fn snapshot_cell_list_with_a_field_left_over_drops_it() {
    assert_eq!(
        decode_snapshot(b"GAME_STATE|TIME:8|(1, 2),(3|(9"),
        Ok(Snapshot {
            time_remaining: 8,
            players: vec![],
            treasures: vec![Cell { x: 1, y: 2 }],
            traps: vec![],
        })
    );
}

#[test]
fn server_message_ack_is_recognized() {
    assert_eq!(decode_server_message(b"ACK:3"), ServerMessage::Ack(3));
    assert_eq!(decode_server_message(&encode_ack(77)), ServerMessage::Ack(77));
}

#[test]
fn server_message_snapshot_is_recognized() {
    let snapshot = sample_snapshot();
    assert_eq!(
        decode_server_message(&encode_snapshot(&snapshot)),
        ServerMessage::Snapshot(snapshot)
    );
}

#[test]
fn server_message_of_another_kind_is_unrecognized() {
    assert_eq!(decode_server_message(b""), ServerMessage::Unrecognized);
    assert_eq!(decode_server_message(b"ACK:connect"), ServerMessage::Unrecognized);
    assert_eq!(decode_server_message(b"GAME_STATE"), ServerMessage::Unrecognized);
    assert_eq!(decode_server_message(b"GAME_STATE|TIME:1|x"), ServerMessage::Unrecognized);
    assert_eq!(decode_server_message(b"STATE|TIME:1|||"), ServerMessage::Unrecognized);
    assert_eq!(decode_server_message(b"1:MOVE:D"), ServerMessage::Unrecognized);
}
