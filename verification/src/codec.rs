//! The wire codec: commands, acknowledgments and world snapshots as the bytes
//! of one datagram each.
//!
//! | direction        | shape                                                        |
//! |------------------|--------------------------------------------------------------|
//! | client to server | `<seq>:connect`                                              |
//! | client to server | `<seq>:MOVE:<W, A, S or D>`                                  |
//! | server to client | `ACK:<seq>`                                                  |
//! | server to client | `GAME_STATE|TIME:<n>|<players>|<treasures>|<traps>`          |
//!
//! Reading a command is strict: a command that cannot be read is refused as a
//! whole, so that it can never touch the world. Reading a snapshot is
//! forgiving: a number that cannot be read counts as 0 and a record that
//! cannot be told apart is left out, so that one bad field does not blank the
//! display.

use vstd::prelude::*;
use vstd::slice::slice_subrange;
use crate::error::GameError;
use crate::number::{
    decimal, i32_of, parse_i32, parse_u16, parse_u32, parse_u8, push_decimal,
    push_signed_decimal, signed_decimal, u16_of, u32_of, u8_of,
};
use crate::text::{
    first_index, has_prefix, join, lemma_first_index_is, lemma_join_push, same_bytes, split,
    split_fields, starts_with, trim, trim_blanks,
};
use crate::types::{Cell, Direction, PlayerRecord, PlayerState, Snapshot, SnapshotView};

verus! {

/// The byte `|`, between the segments of a snapshot.
pub const PIPE: u8 = 124;

/// The byte `:`.
pub const COLON: u8 = 58;

/// The byte `,`.
pub const COMMA: u8 = 44;

/// The byte `(`.
pub const OPEN: u8 = 40;

/// The byte `)`.
pub const CLOSE: u8 = 41;

/// The space.
pub const SPACE: u8 = 32;

/// The byte `P`, in front of a player record.
pub const PLAYER_MARK: u8 = 80;

/// What a command asks for.
#[derive(Clone, Copy, Debug, PartialEq, Eq, Structural)]
pub enum Payload {
    /// The handshake of a new client.
    Connect,
    /// One step in a direction.
    Move(Direction),
    /// Anything else. The server acknowledges it like any command and does
    /// nothing. Written out, it is the empty payload.
    Other,
}

/// A command of a client: a sequence number and what is asked for.
#[derive(Clone, Copy, Debug, PartialEq, Eq, Structural)]
pub struct Command {
    pub sequence: u32,
    pub payload: Payload,
}

/// What a datagram of the server says.
#[derive(Clone, Debug, PartialEq, Eq)]
pub enum ServerMessage {
    /// The command with this sequence number was accepted.
    Ack(u32),
    /// The state of the world.
    Snapshot(Snapshot),
    /// Neither of the two.
    Unrecognized,
}

/// The text `GAME_STATE`.
pub open spec fn game_state_tag() -> Seq<u8> {
    seq![71u8, 65u8, 77u8, 69u8, 95u8, 83u8, 84u8, 65u8, 84u8, 69u8]
}

/// The text `TIME`.
pub open spec fn time_tag() -> Seq<u8> {
    seq![84u8, 73u8, 77u8, 69u8]
}

/// The text `ACK`.
pub open spec fn ack_tag() -> Seq<u8> {
    seq![65u8, 67u8, 75u8]
}

/// The text `connect`.
pub open spec fn connect_text() -> Seq<u8> {
    seq![99u8, 111u8, 110u8, 110u8, 101u8, 99u8, 116u8]
}

/// The text `MOVE`.
pub open spec fn move_tag() -> Seq<u8> {
    seq![77u8, 79u8, 86u8, 69u8]
}

/// The letter of a direction: `W`, `A`, `S` or `D`.
pub open spec fn direction_letter(direction: Direction) -> u8 {
    match direction {
        Direction::Up => 87,
        Direction::Left => 65,
        Direction::Down => 83,
        Direction::Right => 68,
    }
}

/// The text of a payload.
pub open spec fn payload_text(payload: Payload) -> Seq<u8> {
    match payload {
        Payload::Connect => connect_text(),
        Payload::Move(direction) => move_tag().push(COLON).push(direction_letter(direction)),
        Payload::Other => Seq::empty(),
    }
}

/// The bytes of a command: the sequence number, a colon and the payload.
pub open spec fn command_text(command: Command) -> Seq<u8> {
    decimal(command.sequence as nat).push(COLON) + payload_text(command.payload)
}

/// The bytes of an acknowledgment: `ACK`, a colon and the sequence number.
pub open spec fn ack_text(sequence: u32) -> Seq<u8> {
    ack_tag().push(COLON) + decimal(sequence as nat)
}

/// The text of a cell: `(x, y)`.
pub open spec fn cell_text(cell: Cell) -> Seq<u8> {
    seq![OPEN] + decimal(cell.x as nat) + seq![COMMA, SPACE] + decimal(cell.y as nat) + seq![CLOSE]
}

/// The texts of the cells of a list, in order.
pub open spec fn cell_texts(cells: Seq<Cell>) -> Seq<Seq<u8>> {
    Seq::new(cells.len(), |i: int| cell_text(cells[i]))
}

/// The text of a list of cells: the texts of the cells with commas between
/// them, nothing at all for the empty list.
pub open spec fn cell_list_text(cells: Seq<Cell>) -> Seq<u8> {
    join(cell_texts(cells), COMMA)
}

/// The text of a player's state: `(x, y, score)`.
pub open spec fn state_text(state: PlayerState) -> Seq<u8> {
    seq![OPEN] + decimal(state.x as nat) + seq![COMMA, SPACE] + decimal(state.y as nat) + seq![
        COMMA,
        SPACE,
    ] + signed_decimal(state.score as int) + seq![CLOSE]
}

/// The text of a player record: `P<id>:(x, y, score)`.
pub open spec fn player_text(player: PlayerRecord) -> Seq<u8> {
    seq![PLAYER_MARK] + decimal(player.id as nat) + seq![COLON] + state_text(player.state)
}

/// The texts of the records of a list of players, in order.
pub open spec fn player_texts(players: Seq<PlayerRecord>) -> Seq<Seq<u8>> {
    Seq::new(players.len(), |i: int| player_text(players[i]))
}

/// The segments that the players take up in a snapshot: one per player, in
/// order; a single empty segment when there is no player.
pub open spec fn player_segments(players: Seq<PlayerRecord>) -> Seq<Seq<u8>> {
    if players.len() == 0 {
        seq![Seq::<u8>::empty()]
    } else {
        player_texts(players)
    }
}

/// The text of the countdown segment: `TIME:<seconds>`.
pub open spec fn time_text(seconds: u32) -> Seq<u8> {
    time_tag().push(COLON) + decimal(seconds as nat)
}

/// The segments of a snapshot: the tag, the countdown, the players, the
/// treasures and the traps.
pub open spec fn snapshot_segments(snapshot: SnapshotView) -> Seq<Seq<u8>> {
    seq![game_state_tag(), time_text(snapshot.time_remaining)] + player_segments(snapshot.players)
        + seq![cell_list_text(snapshot.treasures), cell_list_text(snapshot.traps)]
}

/// The bytes of a snapshot: its segments with `|` between them.
pub open spec fn snapshot_text(snapshot: SnapshotView) -> Seq<u8> {
    join(snapshot_segments(snapshot), PIPE)
}

/// Appends `bytes` to `out`.
pub fn push_all(out: &mut Vec<u8>, bytes: &[u8])
    ensures
        final(out)@ == old(out)@ + bytes@,
{
    let n: usize = bytes.len();
    let mut i: usize = 0;
    while i < n
        invariant
            n == bytes@.len(),
            i <= n,
            out@ == old(out)@ + bytes@.take(i as int),
        decreases n - i,
    {
        out.push(bytes[i]);
        assert(bytes@.take(i + 1) =~= bytes@.take(i as int).push(bytes@[i as int]));
        i = i + 1;
    }
    assert(bytes@.take(n as int) =~= bytes@);
}

/// The letter of a direction.
pub fn letter_of(direction: Direction) -> (letter: u8)
    ensures
        letter == direction_letter(direction),
{
    match direction {
        Direction::Up => 87,
        Direction::Left => 65,
        Direction::Down => 83,
        Direction::Right => 68,
    }
}

/// Writes a command as the bytes of a datagram.
pub fn encode_command(command: &Command) -> (bytes: Vec<u8>)
    ensures
        bytes@ == command_text(*command),
{
    let mut out: Vec<u8> = Vec::new();
    push_decimal(&mut out, command.sequence as u64);
    out.push(COLON);
    match command.payload {
        Payload::Connect => {
            let word: [u8; 7] = [99, 111, 110, 110, 101, 99, 116];
            assert(word@ =~= connect_text());
            push_all(&mut out, &word);
        },
        Payload::Move(direction) => {
            let word: [u8; 5] = [77, 79, 86, 69, 58];
            assert(word@ =~= move_tag().push(COLON));
            push_all(&mut out, &word);
            out.push(letter_of(direction));
        },
        Payload::Other => {},
    }
    assert(out@ =~= command_text(*command));
    out
}

/// Writes the acknowledgment of `sequence` as the bytes of a datagram.
pub fn encode_ack(sequence: u32) -> (bytes: Vec<u8>)
    ensures
        bytes@ == ack_text(sequence),
{
    let mut out: Vec<u8> = Vec::new();
    let word: [u8; 4] = [65, 67, 75, 58];
    assert(word@ =~= ack_tag().push(COLON));
    push_all(&mut out, &word);
    push_decimal(&mut out, sequence as u64);
    assert(out@ =~= ack_text(sequence));
    out
}

/// Appends the text of `cell` to `out`.
fn push_cell(out: &mut Vec<u8>, cell: Cell)
    ensures
        final(out)@ == old(out)@ + cell_text(cell),
{
    out.push(OPEN);
    push_decimal(out, cell.x as u64);
    out.push(COMMA);
    out.push(SPACE);
    push_decimal(out, cell.y as u64);
    out.push(CLOSE);
    assert(out@ =~= old(out)@ + cell_text(cell));
}

/// Appends the text of a list of cells to `out`.
fn push_cell_list(out: &mut Vec<u8>, cells: &Vec<Cell>)
    ensures
        final(out)@ == old(out)@ + cell_list_text(cells@),
{
    let n: usize = cells.len();
    let mut i: usize = 0;
    assert(cell_texts(cells@.take(0)) =~= Seq::<Seq<u8>>::empty());
    assert(out@ =~= old(out)@ + join(cell_texts(cells@.take(0)), COMMA));
    while i < n
        invariant
            n == cells@.len(),
            i <= n,
            out@ == old(out)@ + join(cell_texts(cells@.take(i as int)), COMMA),
        decreases n - i,
    {
        let ghost before = out@;
        if i > 0 {
            out.push(COMMA);
        }
        push_cell(out, cells[i]);
        proof {
            let done = cell_texts(cells@.take(i as int));
            let text = cell_text(cells@[i as int]);
            assert(cell_texts(cells@.take(i + 1)) =~= done.push(text));
            lemma_join_push(done, text, COMMA);
            if i > 0 {
                assert(out@ =~= old(out)@ + (join(done, COMMA).push(COMMA) + text));
            } else {
                assert(join(done, COMMA) =~= Seq::<u8>::empty());
                assert(out@ =~= old(out)@ + text);
            }
        }
        i = i + 1;
    }
    assert(cells@.take(n as int) =~= cells@);
}

/// Appends the text of a player record to `out`.
fn push_player(out: &mut Vec<u8>, player: PlayerRecord)
    ensures
        final(out)@ == old(out)@ + player_text(player),
{
    out.push(PLAYER_MARK);
    push_decimal(out, player.id as u64);
    out.push(COLON);
    out.push(OPEN);
    push_decimal(out, player.state.x as u64);
    out.push(COMMA);
    out.push(SPACE);
    push_decimal(out, player.state.y as u64);
    out.push(COMMA);
    out.push(SPACE);
    push_signed_decimal(out, player.state.score);
    out.push(CLOSE);
    assert(out@ =~= old(out)@ + player_text(player));
}

/// Writes a snapshot as the bytes of a datagram.
pub fn encode_snapshot(snapshot: &Snapshot) -> (bytes: Vec<u8>)
    ensures
        bytes@ == snapshot_text(snapshot@),
{
    let mut out: Vec<u8> = Vec::new();
    let tag: [u8; 10] = [71, 65, 77, 69, 95, 83, 84, 65, 84, 69];
    assert(tag@ =~= game_state_tag());
    push_all(&mut out, &tag);
    let ghost mut segments: Seq<Seq<u8>> = seq![game_state_tag()];
    assert(out@ =~= join(segments, PIPE));

    out.push(PIPE);
    let word: [u8; 5] = [84, 73, 77, 69, 58];
    assert(word@ =~= time_tag().push(COLON));
    push_all(&mut out, &word);
    push_decimal(&mut out, snapshot.time_remaining as u64);
    proof {
        let segment = time_text(snapshot.time_remaining);
        lemma_join_push(segments, segment, PIPE);
        assert(out@ =~= join(segments, PIPE).push(PIPE) + segment);
        segments = segments.push(segment);
    }
    let ghost head = segments;
    assert(head =~= seq![game_state_tag(), time_text(snapshot.time_remaining)]);

    let n: usize = snapshot.players.len();
    if n == 0 {
        out.push(PIPE);
        proof {
            lemma_join_push(segments, Seq::<u8>::empty(), PIPE);
            assert(out@ =~= join(segments, PIPE).push(PIPE) + Seq::<u8>::empty());
            segments = segments.push(Seq::<u8>::empty());
            assert(segments =~= head + player_segments(snapshot@.players));
        }
    } else {
        let mut i: usize = 0;
        assert(segments =~= head + player_segments(snapshot@.players).take(0));
        while i < n
            invariant
                n == snapshot.players@.len(),
                n > 0,
                i <= n,
                head.len() == 2,
                out@ == join(segments, PIPE),
                segments == head + player_segments(snapshot@.players).take(i as int),
            decreases n - i,
        {
            out.push(PIPE);
            push_player(&mut out, snapshot.players[i]);
            proof {
                let segment = player_text(snapshot.players@[i as int]);
                lemma_join_push(segments, segment, PIPE);
                assert(out@ =~= join(segments, PIPE).push(PIPE) + segment);
                assert(player_segments(snapshot@.players)[i as int] == segment);
                assert(head + player_segments(snapshot@.players).take(i + 1) =~= segments.push(
                    segment,
                ));
                segments = segments.push(segment);
            }
            i = i + 1;
        }
        assert(player_segments(snapshot@.players).take(n as int) =~= player_segments(
            snapshot@.players,
        ));
    }

    out.push(PIPE);
    push_cell_list(&mut out, &snapshot.treasures);
    proof {
        let segment = cell_list_text(snapshot.treasures@);
        lemma_join_push(segments, segment, PIPE);
        assert(out@ =~= join(segments, PIPE).push(PIPE) + segment);
        segments = segments.push(segment);
    }
    out.push(PIPE);
    push_cell_list(&mut out, &snapshot.traps);
    proof {
        let segment = cell_list_text(snapshot.traps@);
        lemma_join_push(segments, segment, PIPE);
        assert(out@ =~= join(segments, PIPE).push(PIPE) + segment);
        segments = segments.push(segment);
        assert(segments =~= snapshot_segments(snapshot@));
    }
    out
}

/// The payload that a text stands for.
pub open spec fn payload_of(text: Seq<u8>) -> Payload {
    if text == connect_text() {
        Payload::Connect
    } else if text == payload_text(Payload::Move(Direction::Up)) {
        Payload::Move(Direction::Up)
    } else if text == payload_text(Payload::Move(Direction::Left)) {
        Payload::Move(Direction::Left)
    } else if text == payload_text(Payload::Move(Direction::Down)) {
        Payload::Move(Direction::Down)
    } else if text == payload_text(Payload::Move(Direction::Right)) {
        Payload::Move(Direction::Right)
    } else {
        Payload::Other
    }
}

/// What the bytes of a datagram say as a command. The bytes are cut at the
/// first colon. They are a command when there is a colon and what stands
/// before it is a number of thirty-two unsigned bits; what follows the colon
/// is the payload.
pub open spec fn command_of(bytes: Seq<u8>) -> Result<Command, GameError> {
    let cut = first_index(bytes, COLON);
    if cut >= bytes.len() {
        Err(GameError::MalformedMessage)
    } else {
        match u32_of(bytes.take(cut)) {
            Some(sequence) => Ok(Command { sequence, payload: payload_of(bytes.skip(cut + 1)) }),
            None => Err(GameError::MalformedMessage),
        }
    }
}

/// The sequence number that an acknowledgment carries; `None` when the bytes
/// are no acknowledgment.
pub open spec fn ack_of(bytes: Seq<u8>) -> Option<u32> {
    if starts_with(bytes, ack_tag().push(COLON)) {
        u32_of(bytes.skip(4))
    } else {
        None
    }
}

/// What `text` reads as in eight unsigned bits, 0 when it does not.
pub open spec fn u8_or_zero(text: Seq<u8>) -> u8 {
    match u8_of(text) {
        Some(v) => v,
        None => 0,
    }
}

/// What `text` reads as in sixteen unsigned bits, 0 when it does not.
pub open spec fn u16_or_zero(text: Seq<u8>) -> u16 {
    match u16_of(text) {
        Some(v) => v,
        None => 0,
    }
}

/// What `text` reads as in thirty-two unsigned bits, 0 when it does not.
pub open spec fn u32_or_zero(text: Seq<u8>) -> u32 {
    match u32_of(text) {
        Some(v) => v,
        None => 0,
    }
}

/// What `text` reads as in thirty-two signed bits, 0 when it does not.
pub open spec fn i32_or_zero(text: Seq<u8>) -> i32 {
    match i32_of(text) {
        Some(v) => v,
        None => 0,
    }
}

/// The countdown that a segment gives: the number between its first and its
/// second colon; 0 when there is no colon or no number.
pub open spec fn time_of(segment: Seq<u8>) -> u32 {
    let fields = split(segment, COLON);
    if fields.len() >= 2 {
        u32_or_zero(fields[1])
    } else {
        0
    }
}

/// The player record that a segment gives, if it gives one.
///
/// A record begins with `P`. What follows is cut at colons: the first field
/// is the identity, the second the position. The position loses its first
/// and its last byte, where the parentheses stand, and is cut at commas into
/// exactly three numbers. A segment of another shape gives no record; a
/// number that cannot be read counts as 0.
pub open spec fn player_of(segment: Seq<u8>) -> Option<PlayerRecord> {
    if segment.len() == 0 || segment[0] != PLAYER_MARK {
        None
    } else {
        let fields = split(segment.skip(1), COLON);
        if fields.len() < 2 || fields[1].len() < 2 {
            None
        } else {
            let numbers = split(fields[1].subrange(1, fields[1].len() - 1), COMMA);
            if numbers.len() != 3 {
                None
            } else {
                Some(
                    PlayerRecord {
                        id: u16_or_zero(fields[0]),
                        state: PlayerState {
                            x: u8_or_zero(trim(numbers[0])),
                            y: u8_or_zero(trim(numbers[1])),
                            score: i32_or_zero(trim(numbers[2])),
                        },
                    },
                )
            }
        }
    }
}

/// The records that a run of segments gives, in order; segments that give
/// none are passed over.
pub open spec fn players_of(segments: Seq<Seq<u8>>) -> Seq<PlayerRecord>
    decreases segments.len(),
{
    if segments.len() == 0 {
        Seq::empty()
    } else {
        match player_of(segments.last()) {
            Some(player) => players_of(segments.drop_last()).push(player),
            None => players_of(segments.drop_last()),
        }
    }
}

/// `text` without its first byte.
pub open spec fn without_first(text: Seq<u8>) -> Seq<u8> {
    if text.len() > 0 {
        text.skip(1)
    } else {
        text
    }
}

/// `text` without its last byte.
pub open spec fn without_last(text: Seq<u8>) -> Seq<u8> {
    if text.len() > 0 {
        text.drop_last()
    } else {
        text
    }
}

/// The cell that two neighbouring fields of a cell list give: the first
/// without its opening parenthesis is the column, the second without its
/// closing parenthesis the row.
pub open spec fn cell_of(first: Seq<u8>, second: Seq<u8>) -> Cell {
    Cell { x: u8_or_zero(trim(without_first(first))), y: u8_or_zero(trim(without_last(second))) }
}

/// The cells that a segment gives. The segment is cut at commas and the
/// fields are taken two by two; a field left over at the end gives nothing.
pub open spec fn cells_of(segment: Seq<u8>) -> Seq<Cell> {
    let fields = split(segment, COMMA);
    Seq::new((fields.len() / 2) as nat, |i: int| cell_of(fields[2 * i], fields[2 * i + 1]))
}

/// What the bytes of a datagram say as a snapshot. The bytes are cut at `|`.
/// With fewer than four segments they are no snapshot. Otherwise the second
/// segment gives the countdown, the last two give the treasures and the
/// traps, and the segments in between give the players.
pub open spec fn snapshot_of(bytes: Seq<u8>) -> Result<SnapshotView, GameError> {
    let segments = split(bytes, PIPE);
    if segments.len() < 4 {
        Err(GameError::MalformedSnapshot)
    } else {
        Ok(
            SnapshotView {
                time_remaining: time_of(segments[1]),
                players: players_of(segments.subrange(2, segments.len() - 2)),
                treasures: cells_of(segments[segments.len() - 2]),
                traps: cells_of(segments[segments.len() - 1]),
            },
        )
    }
}

/// The position of the first `sep` in `s`, or `s.len()` when there is none.
pub fn find_byte(s: &[u8], sep: u8) -> (at: usize)
    ensures
        at == first_index(s@, sep),
{
    let n: usize = s.len();
    let mut i: usize = 0;
    while i < n && s[i] != sep
        invariant
            n == s@.len(),
            i <= n,
            forall|j: int| 0 <= j < i ==> s@[j] != sep,
        decreases n - i,
    {
        i = i + 1;
    }
    proof {
        lemma_first_index_is(s@, sep, i as int);
    }
    i
}

/// Tells which payload a text stands for.
pub fn read_payload(text: &[u8]) -> (payload: Payload)
    ensures
        payload == payload_of(text@),
{
    let connect: [u8; 7] = [99, 111, 110, 110, 101, 99, 116];
    assert(connect@ =~= connect_text());
    if same_bytes(text, &connect) {
        return Payload::Connect;
    }
    let prefix: [u8; 5] = [77, 79, 86, 69, 58];
    assert(prefix@ =~= move_tag().push(COLON));
    if text.len() == 6 && has_prefix(text, &prefix) {
        let letter: u8 = text[5];
        assert(text@ =~= move_tag().push(COLON).push(letter));
        if letter == 87 {
            return Payload::Move(Direction::Up);
        } else if letter == 65 {
            return Payload::Move(Direction::Left);
        } else if letter == 83 {
            return Payload::Move(Direction::Down);
        } else if letter == 68 {
            return Payload::Move(Direction::Right);
        }
        assert(payload_text(Payload::Move(Direction::Up))[5] == 87);
        assert(payload_text(Payload::Move(Direction::Left))[5] == 65);
        assert(payload_text(Payload::Move(Direction::Down))[5] == 83);
        assert(payload_text(Payload::Move(Direction::Right))[5] == 68);
        return Payload::Other;
    }
    proof {
        let up = payload_text(Payload::Move(Direction::Up));
        let left = payload_text(Payload::Move(Direction::Left));
        let down = payload_text(Payload::Move(Direction::Down));
        let right = payload_text(Payload::Move(Direction::Right));
        assert(up.len() == 6 && left.len() == 6 && down.len() == 6 && right.len() == 6);
        assert(up.take(5) =~= move_tag().push(COLON));
        assert(left.take(5) =~= move_tag().push(COLON));
        assert(down.take(5) =~= move_tag().push(COLON));
        assert(right.take(5) =~= move_tag().push(COLON));
    }
    Payload::Other
}

/// Reads the bytes of a datagram as a command.
///
/// The result is `Ok` exactly when the bytes hold a colon and a sequence
/// number stands before the first one; every other input gives
/// `MalformedMessage`.
pub fn decode_command(bytes: &[u8]) -> (result: Result<Command, GameError>)
    ensures
        result == command_of(bytes@),
{
    let cut: usize = find_byte(bytes, COLON);
    if cut >= bytes.len() {
        return Err(GameError::MalformedMessage);
    }
    let head: &[u8] = slice_subrange(bytes, 0, cut);
    let rest: &[u8] = slice_subrange(bytes, cut + 1, bytes.len());
    assert(head@ =~= bytes@.take(cut as int));
    assert(rest@ =~= bytes@.skip(cut + 1));
    match parse_u32(head) {
        Some(sequence) => Ok(Command { sequence, payload: read_payload(rest) }),
        None => Err(GameError::MalformedMessage),
    }
}

/// Reads the bytes of a datagram as an acknowledgment and gives the sequence
/// number it carries; `None` when the bytes are no acknowledgment.
pub fn decode_ack(bytes: &[u8]) -> (sequence: Option<u32>)
    ensures
        sequence == ack_of(bytes@),
{
    let word: [u8; 4] = [65, 67, 75, 58];
    assert(word@ =~= ack_tag().push(COLON));
    if has_prefix(bytes, &word) {
        let rest: &[u8] = slice_subrange(bytes, 4, bytes.len());
        assert(rest@ =~= bytes@.skip(4));
        parse_u32(rest)
    } else {
        None
    }
}

/// Reads the countdown of a segment.
fn read_time(segment: &[u8]) -> (seconds: u32)
    ensures
        seconds == time_of(segment@),
{
    let fields: Vec<&[u8]> = split_fields(segment, COLON);
    if fields.len() >= 2 {
        match parse_u32(fields[1]) {
            Some(t) => t,
            None => 0,
        }
    } else {
        0
    }
}

/// Reads the player record of a segment.
fn read_player(segment: &[u8]) -> (player: Option<PlayerRecord>)
    ensures
        player == player_of(segment@),
{
    if segment.len() == 0 || segment[0] != PLAYER_MARK {
        return None;
    }
    let body: &[u8] = slice_subrange(segment, 1, segment.len());
    assert(body@ =~= segment@.skip(1));
    let fields: Vec<&[u8]> = split_fields(body, COLON);
    if fields.len() < 2 {
        return None;
    }
    let position: &[u8] = fields[1];
    if position.len() < 2 {
        return None;
    }
    let inner: &[u8] = slice_subrange(position, 1, position.len() - 1);
    let numbers: Vec<&[u8]> = split_fields(inner, COMMA);
    if numbers.len() != 3 {
        return None;
    }
    let id: u16 = match parse_u16(fields[0]) {
        Some(v) => v,
        None => 0,
    };
    let x: u8 = match parse_u8(trim_blanks(numbers[0])) {
        Some(v) => v,
        None => 0,
    };
    let y: u8 = match parse_u8(trim_blanks(numbers[1])) {
        Some(v) => v,
        None => 0,
    };
    let score: i32 = match parse_i32(trim_blanks(numbers[2])) {
        Some(v) => v,
        None => 0,
    };
    Some(PlayerRecord { id, state: PlayerState { x, y, score } })
}

/// Reads the cells of a segment.
fn read_cells(segment: &[u8]) -> (cells: Vec<Cell>)
    ensures
        cells@ == cells_of(segment@),
{
    let fields: Vec<&[u8]> = split_fields(segment, COMMA);
    let pairs: usize = fields.len() / 2;
    let mut cells: Vec<Cell> = Vec::new();
    let mut i: usize = 0;
    while i < pairs
        invariant
            pairs == fields@.len() / 2,
            fields@.len() <= usize::MAX,
            i <= pairs,
            fields@.len() == split(segment@, COMMA).len(),
            forall|k: int|
                0 <= k < fields@.len() ==> (#[trigger] fields@[k])@ == split(segment@, COMMA)[k],
            cells@.len() == i,
            forall|k: int| 0 <= k < i ==> cells@[k] == cells_of(segment@)[k],
        decreases pairs - i,
    {
        let first: &[u8] = fields[2 * i];
        let second: &[u8] = fields[2 * i + 1];
        let column: &[u8] = if first.len() > 0 {
            slice_subrange(first, 1, first.len())
        } else {
            first
        };
        let row: &[u8] = if second.len() > 0 {
            slice_subrange(second, 0, second.len() - 1)
        } else {
            second
        };
        assert(column@ =~= without_first(first@));
        assert(row@ =~= without_last(second@));
        let x: u8 = match parse_u8(trim_blanks(column)) {
            Some(v) => v,
            None => 0,
        };
        let y: u8 = match parse_u8(trim_blanks(row)) {
            Some(v) => v,
            None => 0,
        };
        cells.push(Cell { x, y });
        i = i + 1;
    }
    assert(cells@ =~= cells_of(segment@));
    cells
}

/// Reads the bytes of a datagram as a snapshot.
///
/// The result is `Ok` exactly when the bytes have at least four segments;
/// fewer give `MalformedSnapshot`. Within a snapshot nothing is refused: see
/// [`snapshot_of`] for what each segment gives.
pub fn decode_snapshot(bytes: &[u8]) -> (result: Result<Snapshot, GameError>)
    ensures
        match result {
            Ok(snapshot) => snapshot_of(bytes@) == Ok::<SnapshotView, GameError>(snapshot@),
            Err(error) => snapshot_of(bytes@) == Err::<SnapshotView, GameError>(error),
        },
{
    let segments: Vec<&[u8]> = split_fields(bytes, PIPE);
    let n: usize = segments.len();
    if n < 4 {
        return Err(GameError::MalformedSnapshot);
    }
    let time_remaining: u32 = read_time(segments[1]);
    let ghost middle = split(bytes@, PIPE).subrange(2, n - 2);
    let mut players: Vec<PlayerRecord> = Vec::new();
    let mut i: usize = 2;
    assert(middle.take(0) =~= Seq::<Seq<u8>>::empty());
    while i < n - 2
        invariant
            n == segments@.len(),
            n >= 4,
            2 <= i <= n - 2,
            n == split(bytes@, PIPE).len(),
            forall|k: int|
                0 <= k < segments@.len() ==> (#[trigger] segments@[k])@ == split(bytes@, PIPE)[k],
            middle == split(bytes@, PIPE).subrange(2, n - 2),
            players@ == players_of(middle.take(i - 2)),
        decreases n - i,
    {
        proof {
            let cur = middle.take(i - 1);
            assert(cur.last() == split(bytes@, PIPE)[i as int]);
            assert(cur.drop_last() =~= middle.take(i - 2));
        }
        match read_player(segments[i]) {
            Some(player) => {
                players.push(player);
            },
            None => {},
        }
        i = i + 1;
    }
    assert(middle.take(n - 4) =~= middle);
    let treasures: Vec<Cell> = read_cells(segments[n - 2]);
    let traps: Vec<Cell> = read_cells(segments[n - 1]);
    Ok(Snapshot { time_remaining, players, treasures, traps })
}

/// Whether the bytes are an acknowledgment: they begin with `ACK:` and a
/// sequence number follows.
pub open spec fn is_ack(bytes: Seq<u8>) -> bool {
    ack_of(bytes) is Some
}

/// Whether the bytes are a snapshot: they begin with `GAME_STATE|` and have
/// at least four segments.
pub open spec fn is_snapshot(bytes: Seq<u8>) -> bool {
    starts_with(bytes, game_state_tag().push(PIPE)) && snapshot_of(bytes) is Ok
}

/// Reads a datagram of the server.
///
/// A datagram that begins with `ACK:` is an acknowledgment if a sequence
/// number follows, and unrecognized if not. One that begins with
/// `GAME_STATE|` is a snapshot if it has at least four segments, and
/// unrecognized if not. Every other datagram is unrecognized.
pub fn decode_server_message(bytes: &[u8]) -> (message: ServerMessage)
    ensures
        match message {
            ServerMessage::Ack(sequence) => ack_of(bytes@) == Some(sequence),
            ServerMessage::Snapshot(snapshot) => !is_ack(bytes@) && is_snapshot(bytes@)
                && snapshot_of(bytes@) == Ok::<SnapshotView, GameError>(snapshot@),
            ServerMessage::Unrecognized => !is_ack(bytes@) && !is_snapshot(bytes@),
        },
{
    let ack_word: [u8; 4] = [65, 67, 75, 58];
    assert(ack_word@ =~= ack_tag().push(COLON));
    let state_word: [u8; 11] = [71, 65, 77, 69, 95, 83, 84, 65, 84, 69, 124];
    assert(state_word@ =~= game_state_tag().push(PIPE));
    if has_prefix(bytes, &ack_word) {
        proof {
            if starts_with(bytes@, game_state_tag().push(PIPE)) {
                assert(bytes@.take(11)[0] == 71);
                assert(bytes@.take(4)[0] == 65);
            }
        }
        match decode_ack(bytes) {
            Some(sequence) => ServerMessage::Ack(sequence),
            None => ServerMessage::Unrecognized,
        }
    } else if has_prefix(bytes, &state_word) {
        match decode_snapshot(bytes) {
            Ok(snapshot) => ServerMessage::Snapshot(snapshot),
            Err(_) => ServerMessage::Unrecognized,
        }
    } else {
        ServerMessage::Unrecognized
    }
}

} // verus!
