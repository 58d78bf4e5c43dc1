use treasure_hunt::codec::{decode_snapshot, encode_command, Command, Payload};
use treasure_hunt::error::GameError;
use treasure_hunt::server::Server;
use treasure_hunt::session::Endpoint;
use treasure_hunt::types::{Cell, Direction, PlayerState};
use treasure_hunt::world::GameWorld;

fn endpoint(port: u16) -> Endpoint {
    Endpoint { host: 2130706433, port }
}

fn contains(haystack: &[u8], needle: &[u8]) -> bool {
    haystack.windows(needle.len()).any(|window| window == needle)
}

fn full_server() -> Server {
    let mut server = Server::new();
    for port in [8081u16, 8082, 8083] {
        let reply = server.handle_datagram(endpoint(port), b"1:connect", 0);
        assert_eq!(reply.outcome, Ok(1));
    }
    server
}

#[test]
fn connect_is_acknowledged_and_creates_a_player() {
    let mut server = Server::new();
    let reply = server.handle_datagram(endpoint(8081), b"1:connect", 7);
    assert_eq!(reply.outcome, Ok(1));
    assert_eq!(reply.ack, Some(b"ACK:1".to_vec()));
    assert_eq!(reply.recipients, vec![endpoint(8081)]);
    assert_eq!(
        reply.snapshot,
        b"GAME_STATE|TIME:60|P1:(0, 0, 0)|(2, 3),(5, 5)|(3, 3),(6, 6)".to_vec()
    );
    assert_eq!(server.world().player_count(), 1);
    assert_eq!(server.sessions().lookup(endpoint(8081)), Some(1));
    assert_eq!(server.sessions().session(1).map(|s| s.last_seen_at), Some(7));
}

#[test]
fn move_is_acknowledged_and_shown_in_the_snapshot() {
    let mut server = Server::new();
    server.handle_datagram(endpoint(8081), b"1:connect", 0);
    let reply = server.handle_datagram(endpoint(8081), b"1:MOVE:D", 1);
    assert_eq!(reply.outcome, Ok(1));
    assert_eq!(reply.ack, Some(b"ACK:1".to_vec()));
    assert!(contains(&reply.snapshot, b"P1:(1, 0, 0)"));
    assert_eq!(server.world().player(1), Some(PlayerState { x: 1, y: 0, score: 0 }));
    assert_eq!(reply.recipients, vec![endpoint(8081)]);
}

#[test]
fn move_of_the_second_player_is_shown_under_its_identity() {
    let mut server = Server::new();
    server.handle_datagram(endpoint(8081), b"1:connect", 0);
    server.handle_datagram(endpoint(8082), b"1:connect", 0);
    let reply = server.handle_datagram(endpoint(8082), b"2:MOVE:D", 1);
    assert_eq!(reply.ack, Some(b"ACK:2".to_vec()));
    assert!(contains(&reply.snapshot, b"P1:(0, 0, 0)|P2:(1, 0, 0)"));
    assert_eq!(reply.recipients, vec![endpoint(8081), endpoint(8082)]);
}

#[test]
fn fourth_connect_gets_no_acknowledgment_and_no_player() {
    let mut server = full_server();
    let before = server.world().snapshot();
    let reply = server.handle_datagram(endpoint(8084), b"1:connect", 5);
    assert_eq!(reply.outcome, Err(GameError::CapacityExceeded));
    assert_eq!(reply.ack, None);
    assert_eq!(server.world().player_count(), 3);
    assert_eq!(server.world().snapshot(), before);
    assert_eq!(server.sessions().len(), 3);
    assert_eq!(server.sessions().lookup(endpoint(8084)), None);
    assert_eq!(reply.recipients, vec![endpoint(8081), endpoint(8082), endpoint(8083)]);
    assert_eq!(decode_snapshot(&reply.snapshot), Ok(before));
}

#[test]
fn repeated_connect_is_acknowledged_again_without_a_second_player() {
    let mut server = Server::new();
    server.handle_datagram(endpoint(8081), b"1:connect", 0);
    server.handle_datagram(endpoint(8081), b"2:MOVE:S", 1);
    let reply = server.handle_datagram(endpoint(8081), b"1:connect", 2);
    assert_eq!(reply.outcome, Ok(1));
    assert_eq!(reply.ack, Some(b"ACK:1".to_vec()));
    assert_eq!(server.world().player_count(), 1);
    assert_eq!(server.world().player(1), Some(PlayerState { x: 0, y: 1, score: 0 }));
    assert_eq!(server.sessions().session(1).map(|s| s.filter.last_accepted), Some(2));
}

#[test]
fn resent_move_does_not_act_twice() {
    let mut server = Server::new();
    server.handle_datagram(endpoint(8081), b"1:connect", 0);
    assert_eq!(server.handle_datagram(endpoint(8081), b"2:MOVE:D", 1).outcome, Ok(2));
    let once = server.world().snapshot();
    let reply = server.handle_datagram(endpoint(8081), b"2:MOVE:D", 2);
    assert_eq!(reply.outcome, Err(GameError::DuplicateOrStale));
    assert_eq!(reply.ack, None);
    assert_eq!(server.world().snapshot(), once);
    assert_eq!(server.world().player(1), Some(PlayerState { x: 1, y: 0, score: 0 }));
    assert_eq!(decode_snapshot(&reply.snapshot), Ok(once));
}

#[test]
fn resent_move_does_not_act_after_later_moves_either() {
    let mut server = Server::new();
    server.handle_datagram(endpoint(8081), b"1:connect", 0);
    server.handle_datagram(endpoint(8081), b"2:MOVE:D", 1);
    server.handle_datagram(endpoint(8081), b"3:MOVE:S", 2);
    server.handle_datagram(endpoint(8081), b"7:MOVE:S", 3);
    let before = server.world().snapshot();
    for stale in [&b"2:MOVE:D"[..], &b"3:MOVE:S"[..], &b"5:MOVE:W"[..], &b"7:MOVE:S"[..]] {
        let reply = server.handle_datagram(endpoint(8081), stale, 4);
        assert_eq!(reply.outcome, Err(GameError::DuplicateOrStale));
        assert_eq!(reply.ack, None);
    }
    assert_eq!(server.world().snapshot(), before);
    assert_eq!(server.handle_datagram(endpoint(8081), b"8:MOVE:W", 5).outcome, Ok(8));
}

#[test]
fn sequences_of_different_senders_do_not_mix() {
    let mut server = Server::new();
    server.handle_datagram(endpoint(8081), b"1:connect", 0);
    server.handle_datagram(endpoint(8082), b"1:connect", 0);
    assert_eq!(server.handle_datagram(endpoint(8081), b"9:MOVE:D", 1).outcome, Ok(9));
    assert_eq!(server.handle_datagram(endpoint(8082), b"2:MOVE:S", 1).outcome, Ok(2));
    assert_eq!(
        server.handle_datagram(endpoint(8081), b"2:MOVE:S", 1).outcome,
        Err(GameError::DuplicateOrStale)
    );
    assert_eq!(server.world().player(1), Some(PlayerState { x: 1, y: 0, score: 0 }));
    assert_eq!(server.world().player(2), Some(PlayerState { x: 0, y: 1, score: 0 }));
}

#[test]
fn malformed_datagram_is_dropped_and_the_snapshot_still_goes_out() {
    let mut server = Server::new();
    server.handle_datagram(endpoint(8081), b"1:connect", 0);
    let before = server.world().snapshot();
    for junk in [&b""[..], &b"connect"[..], &b"x:MOVE:D"[..], &b"MOVE:D"[..], &b"\xff\xfe"[..]] {
        let reply = server.handle_datagram(endpoint(8081), junk, 1);
        assert_eq!(reply.outcome, Err(GameError::MalformedMessage));
        assert_eq!(reply.ack, None);
        assert_eq!(decode_snapshot(&reply.snapshot), Ok(before.clone()));
        assert_eq!(reply.recipients, vec![endpoint(8081)]);
    }
    assert_eq!(server.world().snapshot(), before);
    assert_eq!(server.sessions().session(1).map(|s| s.filter.last_accepted), Some(0));
}

#[test]
fn command_of_a_stranger_is_dropped() {
    let mut server = Server::new();
    server.handle_datagram(endpoint(8081), b"1:connect", 0);
    let before = server.world().snapshot();
    let reply = server.handle_datagram(endpoint(9999), b"1:MOVE:D", 1);
    assert_eq!(reply.outcome, Err(GameError::UnknownSender));
    assert_eq!(reply.ack, None);
    assert_eq!(server.world().snapshot(), before);
    assert_eq!(server.sessions().len(), 1);
    assert_eq!(
        server.handle_datagram(endpoint(9999), b"1:ping", 1).outcome,
        Err(GameError::UnknownSender)
    );
}

#[test]
fn unknown_payload_is_acknowledged_and_moves_nobody() {
    let mut server = Server::new();
    server.handle_datagram(endpoint(8081), b"1:connect", 0);
    let before = server.world().snapshot();
    let reply = server.handle_datagram(endpoint(8081), b"2:MOVE:Q", 3);
    assert_eq!(reply.outcome, Ok(2));
    assert_eq!(reply.ack, Some(b"ACK:2".to_vec()));
    assert_eq!(server.world().snapshot(), before);
    assert_eq!(server.sessions().session(1).map(|s| s.filter.last_accepted), Some(2));
    assert_eq!(server.sessions().session(1).map(|s| s.last_seen_at), Some(3));
    assert_eq!(
        server.handle_datagram(endpoint(8081), b"2:MOVE:D", 4).outcome,
        Err(GameError::DuplicateOrStale)
    );
}

#[test]
fn accepted_messages_mark_the_session_as_seen() {
    let mut server = Server::new();
    server.handle_datagram(endpoint(8081), b"1:connect", 10);
    server.handle_datagram(endpoint(8081), b"2:MOVE:D", 20);
    assert_eq!(server.sessions().session(1).map(|s| s.last_seen_at), Some(20));
    server.handle_datagram(endpoint(8081), b"2:MOVE:D", 30);
    server.handle_datagram(endpoint(8081), b"junk", 40);
    assert_eq!(server.sessions().session(1).map(|s| s.last_seen_at), Some(20));
    server.handle_datagram(endpoint(8081), b"9:connect", 50);
    assert_eq!(server.sessions().session(1).map(|s| s.last_seen_at), Some(50));
}

#[test]
fn what_a_client_writes_is_what_the_server_reads() {
    let mut server = Server::new();
    let connect = encode_command(&Command { sequence: 1, payload: Payload::Connect });
    assert_eq!(server.handle_datagram(endpoint(8081), &connect, 0).outcome, Ok(1));
    let step = encode_command(&Command { sequence: 2, payload: Payload::Move(Direction::Down) });
    assert_eq!(server.handle_datagram(endpoint(8081), &step, 0).outcome, Ok(2));
    assert_eq!(server.world().player(1), Some(PlayerState { x: 0, y: 1, score: 0 }));
}

#[test]
fn treasure_found_over_the_wire_is_scored_once() {
    let mut server = Server::new();
    server.handle_datagram(endpoint(8081), b"1:connect", 0);
    let path = [b'D', b'D', b'S', b'S', b'S'];
    let mut sequence = 2u32;
    for letter in path {
        let datagram = [sequence.to_string().as_bytes(), b":MOVE:", &[letter]].concat();
        assert_eq!(server.handle_datagram(endpoint(8081), &datagram, 0).outcome, Ok(sequence));
        sequence += 1;
    }
    assert_eq!(server.world().player(1), Some(PlayerState { x: 2, y: 3, score: 10 }));
    let reply = server.handle_datagram(endpoint(8081), b"6:MOVE:S", 0);
    assert_eq!(reply.outcome, Err(GameError::DuplicateOrStale));
    assert_eq!(
        reply.snapshot,
        b"GAME_STATE|TIME:60|P1:(2, 3, 10)|(5, 5)|(3, 3),(6, 6)".to_vec()
    );
}

#[test]
fn tick_and_broadcast_follow_the_world() {
    let mut server = Server::new();
    server.handle_datagram(endpoint(8081), b"1:connect", 0);
    server.tick();
    server.tick();
    assert_eq!(server.world().time_remaining(), 58);
    let (snapshot, recipients) = server.broadcast();
    assert_eq!(
        snapshot,
        b"GAME_STATE|TIME:58|P1:(0, 0, 0)|(2, 3),(5, 5)|(3, 3),(6, 6)".to_vec()
    );
    assert_eq!(recipients, vec![endpoint(8081)]);
}

#[test]
fn server_can_start_from_a_world_of_the_callers_choosing() {
    let world =
        GameWorld::with_layout(2, 1, vec![Cell { x: 1, y: 0 }], vec![], 3).unwrap();
    let mut server = Server::with_world(world);
    let (snapshot, recipients) = server.broadcast();
    assert_eq!(snapshot, b"GAME_STATE|TIME:3||(1, 0)|".to_vec());
    assert_eq!(recipients, vec![]);
    server.handle_datagram(endpoint(1), b"1:connect", 0);
    let reply = server.handle_datagram(endpoint(1), b"2:MOVE:D", 0);
    assert_eq!(reply.snapshot, b"GAME_STATE|TIME:3|P1:(1, 0, 10)||".to_vec());
}
