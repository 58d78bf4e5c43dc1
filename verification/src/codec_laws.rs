//! What holds of the wire codec as a whole: reading gives back what was
//! written, for commands, acknowledgments and snapshots alike.

use vstd::prelude::*;
use crate::codec::{
    ack_of, ack_tag, ack_text, cell_list_text, cell_of, cell_text, cell_texts, cells_of,
    command_of, command_text, connect_text, game_state_tag, payload_of, payload_text,
    player_of, player_segments, player_text, player_texts, players_of, snapshot_of,
    snapshot_segments, snapshot_text, state_text, time_of, time_tag, time_text, Command, Payload,
    CLOSE, COLON, COMMA, OPEN, PIPE, PLAYER_MARK, SPACE,
};
use crate::error::GameError;
use crate::number::{
    decimal, is_digit, lemma_decimal, lemma_signed_round_trip,
    lemma_unsigned_round_trip, signed_decimal, MINUS,
};
use crate::text::{
    all_free_of, free_of, is_blank, join, lemma_first_index_is, lemma_join_free_of,
    lemma_join_push, lemma_split_head, lemma_split_join, lemma_split_single, split, starts_with,
    trim, trim_start,
};
use crate::types::{Cell, Direction, PlayerRecord, PlayerState, SnapshotView};

verus! {

/// The digits of a number hold no byte that is not a digit.
pub proof fn lemma_decimal_free_of(n: nat, sep: u8)
    requires
        !is_digit(sep),
    ensures
        free_of(decimal(n), sep),
{
    lemma_decimal(n);
    assert forall|i: int| 0 <= i < decimal(n).len() implies decimal(n)[i] != sep by {
        assert(is_digit(decimal(n)[i]));
    }
}

/// The text of a signed number holds digits and at most a minus sign.
pub proof fn lemma_signed_decimal_free_of(v: int, sep: u8)
    requires
        !is_digit(sep),
        sep != MINUS,
    ensures
        free_of(signed_decimal(v), sep),
{
    if v < 0 {
        lemma_decimal_free_of((-v) as nat, sep);
        let s = signed_decimal(v);
        assert forall|i: int| 0 <= i < s.len() implies s[i] != sep by {
            if i > 0 {
                assert(s[i] == decimal((-v) as nat)[i - 1]);
            }
        }
    } else {
        lemma_decimal_free_of(v as nat, sep);
    }
}

/// A text that neither begins nor ends with a blank is its own trimmed form.
pub proof fn lemma_trim_solid(s: Seq<u8>)
    requires
        s.len() > 0 ==> !is_blank(s[0]) && !is_blank(s.last()),
    ensures
        trim(s) == s,
{
}

/// A space in front of a text that neither begins nor ends with a blank is
/// trimmed away, and nothing else.
pub proof fn lemma_trim_after_space(s: Seq<u8>)
    requires
        s.len() > 0,
        !is_blank(s[0]),
        !is_blank(s.last()),
    ensures
        trim(seq![SPACE] + s) == s,
{
    let padded = seq![SPACE] + s;
    assert(padded[0] == SPACE);
    assert(padded.skip(1) =~= s);
    assert(trim_start(padded) == trim_start(s));
}

/// Written numbers begin and end with a digit, so trimming leaves them alone.
pub proof fn lemma_decimal_solid(n: nat)
    ensures
        decimal(n).len() > 0,
        !is_blank(decimal(n)[0]),
        !is_blank(decimal(n).last()),
{
    lemma_decimal(n);
    assert(is_digit(decimal(n)[0]));
    assert(is_digit(decimal(n)[decimal(n).len() - 1]));
}

/// A written signed number begins with a digit or a minus sign and ends with
/// a digit.
pub proof fn lemma_signed_decimal_solid(v: int)
    ensures
        signed_decimal(v).len() > 0,
        !is_blank(signed_decimal(v)[0]),
        !is_blank(signed_decimal(v).last()),
{
    if v < 0 {
        lemma_decimal_solid((-v) as nat);
        let s = signed_decimal(v);
        assert(s.last() == decimal((-v) as nat).last());
    } else {
        lemma_decimal_solid(v as nat);
    }
}

/// Reading the text of a payload gives the payload back.
pub proof fn lemma_payload_round_trip(payload: Payload)
    ensures
        payload_of(payload_text(payload)) == payload,
{
    let up = payload_text(Payload::Move(Direction::Up));
    let left = payload_text(Payload::Move(Direction::Left));
    let down = payload_text(Payload::Move(Direction::Down));
    let right = payload_text(Payload::Move(Direction::Right));
    assert(connect_text().len() == 7);
    assert(up.len() == 6 && up[5] == 87);
    assert(left.len() == 6 && left[5] == 65);
    assert(down.len() == 6 && down[5] == 83);
    assert(right.len() == 6 && right[5] == 68);
    assert(payload_text(Payload::Other).len() == 0);
}

/// Reading what `encode_command` writes gives the command back: for every
/// command `c`, `command_of(command_text(c))` is `Ok(c)`.
pub proof fn lemma_command_round_trip(command: Command)
    ensures
        command_of(command_text(command)) == Ok::<Command, GameError>(command),
{
    let number = decimal(command.sequence as nat);
    let rest = payload_text(command.payload);
    let bytes = command_text(command);
    lemma_decimal_free_of(command.sequence as nat, COLON);
    lemma_unsigned_round_trip(command.sequence as nat);
    lemma_payload_round_trip(command.payload);
    let cut = number.len() as int;
    assert(bytes[cut] == COLON);
    assert forall|j: int| 0 <= j < cut implies bytes[j] != COLON by {
        assert(bytes[j] == number[j]);
    }
    lemma_first_index_is(bytes, COLON, cut);
    assert(bytes.take(cut) =~= number);
    assert(bytes.skip(cut + 1) =~= rest);
}

/// Reading what `encode_ack` writes gives the sequence number back.
pub proof fn lemma_ack_round_trip(sequence: u32)
    ensures
        ack_of(ack_text(sequence)) == Some(sequence),
{
    let bytes = ack_text(sequence);
    lemma_unsigned_round_trip(sequence as nat);
    assert(bytes.take(4) =~= ack_tag().push(COLON));
    assert(bytes.skip(4) =~= decimal(sequence as nat));
}

/// The countdown segment gives back the seconds written into it.
pub proof fn lemma_time_round_trip(seconds: u32)
    ensures
        time_of(time_text(seconds)) == seconds,
        free_of(time_text(seconds), PIPE),
{
    let number = decimal(seconds as nat);
    lemma_decimal_free_of(seconds as nat, COLON);
    lemma_decimal_free_of(seconds as nat, PIPE);
    lemma_unsigned_round_trip(seconds as nat);
    assert(free_of(time_tag(), COLON));
    lemma_split_head(time_tag(), number, COLON);
    lemma_split_single(number, COLON);
    assert(split(time_text(seconds), COLON) =~= seq![time_tag(), number]);
    let text = time_text(seconds);
    assert forall|i: int| 0 <= i < text.len() implies text[i] != PIPE by {
        if i >= 5 {
            assert(text[i] == number[i - 5]);
        }
    }
}

/// Two texts that are free of a byte are free of it when put together.
pub proof fn lemma_free_of_concat(a: Seq<u8>, b: Seq<u8>, sep: u8)
    requires
        free_of(a, sep),
        free_of(b, sep),
    ensures
        free_of(a + b, sep),
{
    assert forall|i: int| 0 <= i < (a + b).len() implies (a + b)[i] != sep by {
        if i < a.len() {
            assert((a + b)[i] == a[i]);
        } else {
            assert((a + b)[i] == b[i - a.len()]);
        }
    }
}

/// The text of a state holds parentheses, commas, spaces, digits and at most
/// a minus sign.
pub proof fn lemma_state_text_free_of(state: PlayerState, sep: u8)
    requires
        sep == PIPE || sep == COLON,
    ensures
        free_of(state_text(state), sep),
{
    let x = decimal(state.x as nat);
    let y = decimal(state.y as nat);
    let score = signed_decimal(state.score as int);
    lemma_decimal_free_of(state.x as nat, sep);
    lemma_decimal_free_of(state.y as nat, sep);
    lemma_signed_decimal_free_of(state.score as int, sep);
    assert(free_of(seq![OPEN], sep));
    assert(free_of(seq![COMMA, SPACE], sep));
    assert(free_of(seq![CLOSE], sep));
    let a = seq![OPEN] + x;
    lemma_free_of_concat(seq![OPEN], x, sep);
    let b = a + seq![COMMA, SPACE];
    lemma_free_of_concat(a, seq![COMMA, SPACE], sep);
    let c = b + y;
    lemma_free_of_concat(b, y, sep);
    let d = c + seq![COMMA, SPACE];
    lemma_free_of_concat(c, seq![COMMA, SPACE], sep);
    let e = d + score;
    lemma_free_of_concat(d, score, sep);
    lemma_free_of_concat(e, seq![CLOSE], sep);
}

/// Between its parentheses the text of a state is cut at its two commas into
/// the three numbers, the second and the third after a space.
pub proof fn lemma_state_numbers(state: PlayerState)
    ensures
        state_text(state).len() >= 2,
        split(state_text(state).subrange(1, state_text(state).len() - 1), COMMA) == seq![
            decimal(state.x as nat),
            seq![SPACE] + decimal(state.y as nat),
            seq![SPACE] + signed_decimal(state.score as int),
        ],
{
    let x = decimal(state.x as nat);
    let y = decimal(state.y as nat);
    let score = signed_decimal(state.score as int);
    let text = state_text(state);
    lemma_decimal_free_of(state.x as nat, COMMA);
    lemma_decimal_free_of(state.y as nat, COMMA);
    lemma_signed_decimal_free_of(state.score as int, COMMA);
    let second = seq![SPACE] + y;
    let third = seq![SPACE] + score;
    assert(free_of(seq![SPACE], COMMA));
    lemma_free_of_concat(seq![SPACE], y, COMMA);
    lemma_free_of_concat(seq![SPACE], score, COMMA);
    let inner = text.subrange(1, text.len() - 1);
    assert(inner =~= x.push(COMMA) + (second.push(COMMA) + third));
    lemma_split_head(x, second.push(COMMA) + third, COMMA);
    lemma_split_head(second, third, COMMA);
    lemma_split_single(third, COMMA);
    assert(split(inner, COMMA) =~= seq![x, second, third]);
}

/// After its mark a player record is cut at its one colon into the identity
/// and the state.
pub proof fn lemma_player_fields(player: PlayerRecord)
    ensures
        player_text(player).len() > 0,
        player_text(player)[0] == PLAYER_MARK,
        split(player_text(player).skip(1), COLON) == seq![
            decimal(player.id as nat),
            state_text(player.state),
        ],
{
    let id = decimal(player.id as nat);
    let state = state_text(player.state);
    let text = player_text(player);
    lemma_decimal_free_of(player.id as nat, COLON);
    lemma_state_text_free_of(player.state, COLON);
    assert(text[0] == PLAYER_MARK);
    assert(text.skip(1) =~= id.push(COLON) + state);
    lemma_split_head(id, state, COLON);
    lemma_split_single(state, COLON);
    assert(split(text.skip(1), COLON) =~= seq![id, state]);
}

/// A player record gives back the player written into it, and holds no `|`.
pub proof fn lemma_player_round_trip(player: PlayerRecord)
    ensures
        player_of(player_text(player)) == Some(player),
        free_of(player_text(player), PIPE),
{
    let id = decimal(player.id as nat);
    let x = decimal(player.state.x as nat);
    let y = decimal(player.state.y as nat);
    let score = signed_decimal(player.state.score as int);
    let text = player_text(player);

    assert(free_of(text, PIPE)) by {
        lemma_decimal_free_of(player.id as nat, PIPE);
        lemma_state_text_free_of(player.state, PIPE);
        assert(free_of(seq![PLAYER_MARK], PIPE));
        assert(free_of(seq![COLON], PIPE));
        lemma_free_of_concat(seq![PLAYER_MARK], id, PIPE);
        lemma_free_of_concat(seq![PLAYER_MARK] + id, seq![COLON], PIPE);
        lemma_free_of_concat(seq![PLAYER_MARK] + id + seq![COLON], state_text(player.state), PIPE);
    }

    lemma_player_fields(player);
    lemma_state_numbers(player.state);
    lemma_decimal_solid(player.state.x as nat);
    lemma_decimal_solid(player.state.y as nat);
    lemma_signed_decimal_solid(player.state.score as int);
    lemma_trim_solid(x);
    lemma_trim_after_space(y);
    lemma_trim_after_space(score);
    lemma_unsigned_round_trip(player.id as nat);
    lemma_unsigned_round_trip(player.state.x as nat);
    lemma_unsigned_round_trip(player.state.y as nat);
    lemma_signed_round_trip(player.state.score as int);
}

/// The records of a run of player texts are the players that were written.
pub proof fn lemma_players_round_trip(players: Seq<PlayerRecord>)
    ensures
        players_of(player_texts(players)) == players,
        all_free_of(player_texts(players), PIPE),
    decreases players.len(),
{
    let texts = player_texts(players);
    if players.len() == 0 {
        assert(players_of(texts) =~= players);
    } else {
        let init = players.drop_last();
        lemma_players_round_trip(init);
        lemma_player_round_trip(players.last());
        assert(texts.drop_last() =~= player_texts(init));
        assert(texts.last() == player_text(players.last()));
        assert(players_of(texts) =~= players);
        assert forall|i: int| 0 <= i < texts.len() implies free_of(#[trigger] texts[i], PIPE) by {
            if i < init.len() {
                assert(texts[i] == player_texts(init)[i]);
            }
        }
    }
}

/// The comma-separated fields of a cell list: for each cell the field `(x`
/// and then the field ` y)`.
pub open spec fn cell_fields(cells: Seq<Cell>) -> Seq<Seq<u8>> {
    Seq::new(
        2 * cells.len(),
        |j: int|
            if j % 2 == 0 {
                seq![OPEN] + decimal(cells[j / 2].x as nat)
            } else {
                seq![SPACE] + decimal(cells[j / 2].y as nat) + seq![CLOSE]
            },
    )
}

/// The text of a cell list is the comma-join of its fields.
pub proof fn lemma_cell_list_fields(cells: Seq<Cell>)
    ensures
        cell_list_text(cells) == join(cell_fields(cells), COMMA),
    decreases cells.len(),
{
    if cells.len() == 0 {
        assert(cell_texts(cells) =~= Seq::<Seq<u8>>::empty());
        assert(cell_fields(cells) =~= Seq::<Seq<u8>>::empty());
    } else {
        let init = cells.drop_last();
        let cell = cells.last();
        lemma_cell_list_fields(init);
        let first = seq![OPEN] + decimal(cell.x as nat);
        let second = seq![SPACE] + decimal(cell.y as nat) + seq![CLOSE];
        assert(cell_texts(cells) =~= cell_texts(init).push(cell_text(cell)));
        assert(cell_fields(cells) =~= cell_fields(init).push(first).push(second)) by {
            let a = cell_fields(cells);
            let b = cell_fields(init).push(first).push(second);
            assert(a.len() == b.len());
            assert forall|j: int| 0 <= j < a.len() implies a[j] == b[j] by {
                if j < 2 * init.len() {
                    assert(init[j / 2] == cells[j / 2]);
                } else {
                    assert(j / 2 == cells.len() - 1);
                }
            }
        }
        lemma_join_push(cell_texts(init), cell_text(cell), COMMA);
        lemma_join_push(cell_fields(init), first, COMMA);
        lemma_join_push(cell_fields(init).push(first), second, COMMA);
        assert(cell_text(cell) =~= first.push(COMMA) + second);
        if init.len() == 0 {
            assert(cell_fields(init).len() == 0);
            assert(cell_texts(init).len() == 0);
            assert(join(cell_fields(cells), COMMA) =~= cell_text(cell));
        } else {
            assert(cell_fields(init).len() > 0);
            assert(cell_texts(init).len() > 0);
            assert(join(cell_fields(cells), COMMA) =~= join(cell_texts(init), COMMA).push(COMMA)
                + cell_text(cell));
        }
    }
}

/// No field of a cell list holds a comma or a `|`.
pub proof fn lemma_cell_fields_free_of(cells: Seq<Cell>, sep: u8)
    requires
        sep == COMMA || sep == PIPE,
    ensures
        all_free_of(cell_fields(cells), sep),
{
    let fields = cell_fields(cells);
    assert forall|j: int| 0 <= j < fields.len() implies free_of(#[trigger] fields[j], sep) by {
        let cell = cells[j / 2];
        let f = fields[j];
        if j % 2 == 0 {
            lemma_decimal_free_of(cell.x as nat, sep);
            assert forall|i: int| 0 <= i < f.len() implies f[i] != sep by {
                if i > 0 {
                    assert(f[i] == decimal(cell.x as nat)[i - 1]);
                }
            }
        } else {
            lemma_decimal_free_of(cell.y as nat, sep);
            let number = decimal(cell.y as nat);
            assert forall|i: int| 0 <= i < f.len() implies f[i] != sep by {
                if 0 < i <= number.len() {
                    assert(f[i] == number[i - 1]);
                }
            }
        }
    }
}

/// A cell list gives back the cells written into it, and holds no `|`.
pub proof fn lemma_cells_round_trip(cells: Seq<Cell>)
    ensures
        cells_of(cell_list_text(cells)) == cells,
        free_of(cell_list_text(cells), PIPE),
{
    let fields = cell_fields(cells);
    lemma_cell_list_fields(cells);
    lemma_cell_fields_free_of(cells, COMMA);
    lemma_cell_fields_free_of(cells, PIPE);
    lemma_join_free_of(fields, COMMA, PIPE);
    if cells.len() == 0 {
        assert(fields =~= Seq::<Seq<u8>>::empty());
        assert(cell_list_text(cells) =~= Seq::<u8>::empty());
        lemma_split_single(Seq::<u8>::empty(), COMMA);
        assert(cells_of(cell_list_text(cells)) =~= cells);
    } else {
        lemma_split_join(fields, COMMA);
        let read = cells_of(cell_list_text(cells));
        assert(split(cell_list_text(cells), COMMA) == fields);
        assert(read.len() == cells.len());
        assert forall|i: int| 0 <= i < cells.len() implies read[i] == cells[i] by {
            let cell = cells[i];
            let x = decimal(cell.x as nat);
            let y = decimal(cell.y as nat);
            let first = fields[2 * i];
            let second = fields[2 * i + 1];
            assert((2 * i) / 2 == i && (2 * i) % 2 == 0);
            assert((2 * i + 1) / 2 == i && (2 * i + 1) % 2 == 1);
            assert(first == seq![OPEN] + x);
            assert(second == seq![SPACE] + y + seq![CLOSE]);
            assert(first.skip(1) =~= x);
            assert(second.drop_last() =~= seq![SPACE] + y);
            lemma_decimal_solid(cell.x as nat);
            lemma_decimal_solid(cell.y as nat);
            lemma_trim_solid(x);
            lemma_trim_after_space(y);
            lemma_unsigned_round_trip(cell.x as nat);
            lemma_unsigned_round_trip(cell.y as nat);
            assert(read[i] == cell_of(first, second));
        }
        assert(read =~= cells);
    }
}

/// Reading what `encode_snapshot` writes gives the snapshot back: for every
/// snapshot `s`, with any number of players, treasures and traps,
/// `snapshot_of(snapshot_text(s))` is `Ok(s)`.
pub proof fn lemma_snapshot_round_trip(snapshot: SnapshotView)
    ensures
        snapshot_of(snapshot_text(snapshot)) == Ok::<SnapshotView, GameError>(snapshot),
{
    let segments = snapshot_segments(snapshot);
    let middle = player_segments(snapshot.players);
    let n = segments.len() as int;
    lemma_time_round_trip(snapshot.time_remaining);
    lemma_players_round_trip(snapshot.players);
    lemma_cells_round_trip(snapshot.treasures);
    lemma_cells_round_trip(snapshot.traps);
    assert(free_of(game_state_tag(), PIPE));
    assert(free_of(Seq::<u8>::empty(), PIPE));
    assert(n == 4 + middle.len());
    assert forall|i: int| 0 <= i < n implies free_of(#[trigger] segments[i], PIPE) by {
        if 2 <= i < n - 2 {
            assert(segments[i] == middle[i - 2]);
            if snapshot.players.len() > 0 {
                assert(middle[i - 2] == player_texts(snapshot.players)[i - 2]);
            }
        }
    }
    lemma_split_join(segments, PIPE);
    assert(segments.subrange(2, n - 2) =~= middle);
    assert(players_of(middle) == snapshot.players) by {
        if snapshot.players.len() == 0 {
            assert(middle.drop_last() =~= Seq::<Seq<u8>>::empty());
            assert(players_of(middle.drop_last()) =~= Seq::<PlayerRecord>::empty());
            assert(middle.last() =~= Seq::<u8>::empty());
            assert(players_of(middle) =~= snapshot.players);
        } else {
            assert(middle =~= player_texts(snapshot.players));
        }
    }
    assert(segments[1] == time_text(snapshot.time_remaining));
    assert(segments[n - 2] == cell_list_text(snapshot.treasures));
    assert(segments[n - 1] == cell_list_text(snapshot.traps));
}

/// A written snapshot begins with `GAME_STATE|`, so a client tells it apart
/// from an acknowledgment, which begins with `ACK:`.
pub proof fn lemma_snapshot_is_recognized(snapshot: SnapshotView)
    ensures
        starts_with(snapshot_text(snapshot), game_state_tag().push(PIPE)),
        ack_of(snapshot_text(snapshot)) is None,
{
    let segments = snapshot_segments(snapshot);
    let rest = segments.skip(1);
    crate::text::lemma_join_front(segments, PIPE);
    let text = snapshot_text(snapshot);
    assert(text == game_state_tag().push(PIPE) + join(rest, PIPE));
    assert(text.take(11) =~= game_state_tag().push(PIPE));
    assert(text.take(4)[0] == 71);
    assert(ack_tag().push(COLON)[0] == 65);
}

} // verus!
