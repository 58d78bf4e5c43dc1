//! What the display shows of a snapshot: one letter for each cell of the
//! grid, and the score of the player at the keyboard.

use vstd::prelude::*;
use crate::types::{holds_cell, Cell, PlayerId, Snapshot, SnapshotView};

verus! {

/// The letter for the player at the keyboard: `P`.
pub const GLYPH_SELF: u8 = 80;

/// The letter for any other player: `O`.
pub const GLYPH_OTHER: u8 = 79;

/// The letter for a treasure: `T`.
pub const GLYPH_TREASURE: u8 = 84;

/// The letter for a trap: `X`.
pub const GLYPH_TRAP: u8 = 88;

/// The letter for an empty cell: `.`.
pub const GLYPH_EMPTY: u8 = 46;

/// The space between the letters of a row.
pub const GLYPH_GAP: u8 = 32;

/// Whether the player `local` stands on `cell` in the snapshot.
pub open spec fn is_here(snapshot: SnapshotView, local: PlayerId, cell: Cell) -> bool {
    snapshot.player(local) matches Some(state) && state.x == cell.x && state.y == cell.y
}

/// The letter that stands for `cell`. The player at the keyboard goes before
/// other players, players go before treasures, and treasures before traps.
pub open spec fn glyph(snapshot: SnapshotView, local: PlayerId, cell: Cell) -> u8 {
    if is_here(snapshot, local, cell) {
        GLYPH_SELF
    } else if snapshot.occupied(cell) {
        GLYPH_OTHER
    } else if snapshot.treasures.contains(cell) {
        GLYPH_TREASURE
    } else if snapshot.traps.contains(cell) {
        GLYPH_TRAP
    } else {
        GLYPH_EMPTY
    }
}

/// The text of row `y` of a grid that is `width` cells wide: for each cell
/// its letter and a space.
pub open spec fn row_text(snapshot: SnapshotView, local: PlayerId, width: u8, y: u8) -> Seq<u8> {
    Seq::new(
        (2 * width) as nat,
        |i: int|
            if i % 2 == 0 {
                glyph(snapshot, local, Cell { x: (i / 2) as u8, y })
            } else {
                GLYPH_GAP
            },
    )
}

/// The score to show: that of the player `local`, 0 while the snapshot does
/// not list the player.
pub open spec fn shown_score(snapshot: SnapshotView, local: PlayerId) -> i32 {
    match snapshot.player(local) {
        Some(state) => state.score,
        None => 0,
    }
}

/// The column at which a grid of `grid_width` cells begins when it is
/// centred on a terminal of `terminal_width` columns. A cell takes two
/// columns; a grid wider than the terminal begins at column 0.
pub open spec fn centred_offset(terminal_width: u16, grid_width: u8) -> u16 {
    if terminal_width >= 2 * grid_width {
        ((terminal_width - 2 * grid_width) / 2) as u16
    } else {
        0
    }
}

/// The letter that stands for `cell`.
pub fn cell_glyph(snapshot: &Snapshot, local: PlayerId, cell: Cell) -> (letter: u8)
    ensures
        letter == glyph(snapshot@, local, cell),
{
    let here: bool = match snapshot.player(local) {
        Some(state) => state.x == cell.x && state.y == cell.y,
        None => false,
    };
    if here {
        GLYPH_SELF
    } else if snapshot.occupied(cell) {
        GLYPH_OTHER
    } else if holds_cell(&snapshot.treasures, cell) {
        GLYPH_TREASURE
    } else if holds_cell(&snapshot.traps, cell) {
        GLYPH_TRAP
    } else {
        GLYPH_EMPTY
    }
}

/// The text of row `y` of a grid that is `width` cells wide.
pub fn render_row(snapshot: &Snapshot, local: PlayerId, width: u8, y: u8) -> (row: Vec<u8>)
    ensures
        row@ == row_text(snapshot@, local, width, y),
{
    let mut row: Vec<u8> = Vec::new();
    let mut x: u8 = 0;
    while x < width
        invariant
            x <= width,
            row@ == row_text(snapshot@, local, width, y).take(2 * x),
        decreases width - x,
    {
        row.push(cell_glyph(snapshot, local, Cell { x, y }));
        row.push(GLYPH_GAP);
        proof {
            let whole = row_text(snapshot@, local, width, y);
            assert((2 * x) / 2 == x && (2 * x) % 2 == 0);
            assert((2 * x + 1) % 2 == 1);
            assert(row@ =~= whole.take(2 * (x + 1)));
        }
        x = x + 1;
    }
    assert(row_text(snapshot@, local, width, y).take(2 * width) =~= row_text(
        snapshot@,
        local,
        width,
        y,
    ));
    row
}

/// The score to show for the player `local`.
pub fn score_of(snapshot: &Snapshot, local: PlayerId) -> (score: i32)
    ensures
        score == shown_score(snapshot@, local),
{
    match snapshot.player(local) {
        Some(state) => state.score,
        None => 0,
    }
}

/// The column at which the grid begins on a terminal of `terminal_width`
/// columns.
pub fn grid_offset(terminal_width: u16, grid_width: u8) -> (offset: u16)
    ensures
        offset == centred_offset(terminal_width, grid_width),
{
    let wide: u16 = 2 * (grid_width as u16);
    if terminal_width >= wide {
        (terminal_width - wide) / 2
    } else {
        0
    }
}

} // verus!
