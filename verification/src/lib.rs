//! A server-authoritative grid game played over datagrams.
//!
//! Players walk a grid, pick up treasures and step on traps while a clock
//! runs down. The server owns the world; clients send moves and show the
//! snapshot the server last sent. Datagrams may be lost, repeated or arrive
//! late, so every command carries a sequence number, is acknowledged, and is
//! sent again a bounded number of times; the server acts on each command at
//! most once.
//!
//! Nothing here touches a socket, a clock or a terminal. Each side of the
//! protocol is a value that is told what happened and answers what to do:
//!
//! - [`codec`]: commands, acknowledgments and snapshots as bytes, with
//!   [`text`] and [`number`] underneath and [`codec_laws`] for what reading
//!   and writing have to do with each other;
//! - [`world`]: the grid, the players, the treasures and traps, the clock,
//!   with [`world_laws`];
//! - [`dedup`] and [`session`]: who plays as whom, and which sequence
//!   numbers are still accepted;
//! - [`server`]: what one datagram does to the game and what goes back out,
//!   with [`server_laws`];
//! - [`sender`] and [`client`]: sending until acknowledged or given up, and
//!   the life of a client;
//! - [`render`]: what the display shows of a snapshot.

pub mod client;
pub mod codec;
pub mod codec_laws;
pub mod dedup;
pub mod error;
pub mod number;
pub mod render;
pub mod sender;
pub mod server;
pub mod server_laws;
pub mod session;
pub mod text;
pub mod types;
pub mod world;
pub mod world_laws;
