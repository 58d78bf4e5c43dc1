//! The reliable sender: one command at a time, sent again until it is
//! acknowledged or given up.
//!
//! The sender itself neither sends nor waits. Its owner sends what
//! [`ReliableSender::begin`] hands out, waits up to `RETRY_TIMEOUT_MS` for an
//! acknowledgment, and reports what happened: [`ReliableSender::on_ack`] when
//! one came, [`ReliableSender::on_timeout`] when none did. A command is sent
//! at most `RETRY_LIMIT` times, always under the sequence number it first
//! had, so that the receiver can tell a resent command from a new one.

use vstd::prelude::*;
use crate::codec::{command_text, encode_command, Command, Payload};
use crate::error::GameError;

verus! {

/// How many times a command is sent before it is given up.
pub const RETRY_LIMIT: u32 = 3;

/// How long the sender's owner waits for an acknowledgment after each
/// transmission, in milliseconds.
pub const RETRY_TIMEOUT_MS: u64 = 500;

/// How long a send may take in all, in milliseconds: `RETRY_LIMIT` waits of
/// `RETRY_TIMEOUT_MS` each.
pub const SEND_BUDGET_MS: u64 = 1500;

/// The command that is on its way.
#[derive(Clone, Copy, Debug, PartialEq, Eq, Structural)]
pub struct Pending {
    /// The sequence number it was given.
    pub sequence: u32,
    /// What it asks for.
    pub payload: Payload,
    /// How many times it has been sent.
    pub attempts: u32,
}

/// The state of the sender: the number that the next command will get, and
/// the command that awaits its acknowledgment, if there is one.
#[derive(Clone, Copy, Debug)]
pub struct ReliableSender {
    pub next_sequence: u32,
    pub pending: Option<Pending>,
}

/// What the owner of the sender is to do after a wait ran out.
#[derive(Clone, Debug, PartialEq, Eq)]
pub enum Retry {
    /// Send these bytes, the same command again, and wait once more.
    Resend(Vec<u8>),
    /// The command is given up, for the reason given.
    GaveUp(GameError),
    /// No command was on its way.
    Idle,
}

impl Pending {
    /// The command as it goes over the wire.
    pub open spec fn command(self) -> Command {
        Command { sequence: self.sequence, payload: self.payload }
    }

    /// Whether the command is sent once more when a wait runs out after
    /// `elapsed_ms` milliseconds since it was first sent: there are attempts
    /// left and time left.
    pub open spec fn retries(self, elapsed_ms: u64) -> bool {
        self.attempts < RETRY_LIMIT && elapsed_ms < SEND_BUDGET_MS
    }
}

/// The sequence number after `sequence`; after the highest one the numbers
/// start over at 0.
pub open spec fn successor(sequence: u32) -> u32 {
    if sequence == u32::MAX {
        0
    } else {
        (sequence + 1) as u32
    }
}

impl ReliableSender {
    /// Whether no command is on its way.
    pub open spec fn is_idle(self) -> bool {
        self.pending is None
    }

    /// The sender after it took on `payload`: the command has the next
    /// sequence number and was sent once. A sender that is not idle takes on
    /// nothing and stays as it is.
    pub open spec fn begun(self, payload: Payload) -> ReliableSender {
        if self.is_idle() {
            ReliableSender {
                next_sequence: successor(self.next_sequence),
                pending: Some(Pending { sequence: self.next_sequence, payload, attempts: 1 }),
            }
        } else {
            self
        }
    }

    /// Whether an acknowledgment of `sequence` is the one awaited.
    pub open spec fn awaits(self, sequence: u32) -> bool {
        self.pending matches Some(pending) && pending.sequence == sequence
    }

    /// The sender after an acknowledgment of `sequence` came in: idle if it
    /// was the one awaited, unchanged if not.
    pub open spec fn acknowledged(self, sequence: u32) -> ReliableSender {
        if self.awaits(sequence) {
            ReliableSender { pending: None, ..self }
        } else {
            self
        }
    }

    /// The sender after a wait ran out, `elapsed_ms` milliseconds after the
    /// command was first sent: the command was sent once more if it is
    /// retried, and is dropped if not.
    pub open spec fn timed_out(self, elapsed_ms: u64) -> ReliableSender {
        match self.pending {
            Some(pending) => {
                if pending.retries(elapsed_ms) {
                    ReliableSender {
                        pending: Some(
                            Pending { attempts: (pending.attempts + 1) as u32, ..pending },
                        ),
                        ..self
                    }
                } else {
                    ReliableSender { pending: None, ..self }
                }
            },
            None => self,
        }
    }

    /// How many times the pending command is sent again while the waits run
    /// out at the given times, one after another, with no acknowledgment.
    pub open spec fn resends(self, waits: Seq<u64>) -> nat
        decreases waits.len(),
    {
        if waits.len() == 0 {
            0
        } else {
            match self.pending {
                Some(pending) if pending.retries(waits[0]) => 1 + self.timed_out(waits[0]).resends(
                    waits.skip(1),
                ),
                _ => 0,
            }
        }
    }

    /// The sender after the waits ran out at the given times, one after
    /// another, with no acknowledgment.
    pub open spec fn timed_out_all(self, waits: Seq<u64>) -> ReliableSender
        decreases waits.len(),
    {
        if waits.len() == 0 {
            self
        } else {
            self.timed_out(waits[0]).timed_out_all(waits.skip(1))
        }
    }

    /// A sender that has sent nothing yet. Its first command gets the
    /// sequence number 1.
    pub fn new() -> (sender: ReliableSender)
        ensures
            sender.next_sequence == 1,
            sender.is_idle(),
    {
        ReliableSender { next_sequence: 1, pending: None }
    }

    /// Whether a command awaits its acknowledgment.
    pub fn is_waiting(&self) -> (waiting: bool)
        ensures
            waiting == !self.is_idle(),
    {
        self.pending.is_some()
    }

    /// Takes on a command with `payload` and hands out the bytes to send.
    ///
    /// While another command awaits its acknowledgment nothing is taken on:
    /// the answer is `None` and the sender stays as it is.
    pub fn begin(&mut self, payload: Payload) -> (packet: Option<Vec<u8>>)
        ensures
            *final(self) == old(self).begun(payload),
            packet is Some == old(self).is_idle(),
            packet matches Some(bytes) ==> bytes@ == command_text(
                Command { sequence: old(self).next_sequence, payload },
            ),
    {
        if self.pending.is_some() {
            return None;
        }
        let sequence: u32 = self.next_sequence;
        self.next_sequence = if sequence == u32::MAX {
            0
        } else {
            sequence + 1
        };
        self.pending = Some(Pending { sequence, payload, attempts: 1 });
        Some(encode_command(&Command { sequence, payload }))
    }

    /// Takes note of an acknowledgment of `sequence` and tells whether it
    /// was the one awaited. If so, the send has succeeded and the sender is
    /// idle again; if not, nothing changes.
    pub fn on_ack(&mut self, sequence: u32) -> (done: bool)
        ensures
            done == old(self).awaits(sequence),
            *final(self) == old(self).acknowledged(sequence),
    {
        match self.pending {
            Some(pending) => {
                if pending.sequence == sequence {
                    self.pending = None;
                    true
                } else {
                    false
                }
            },
            None => false,
        }
    }

    /// Takes note that a wait for the acknowledgment ran out, `elapsed_ms`
    /// milliseconds after the command was first sent, and says what to do.
    ///
    /// The command is sent again, unchanged, if it was sent fewer than
    /// `RETRY_LIMIT` times and fewer than `SEND_BUDGET_MS` milliseconds have
    /// gone by. Otherwise it is given up with `SendTimeout`, and the sender
    /// is idle again.
    pub fn on_timeout(&mut self, elapsed_ms: u64) -> (retry: Retry)
        ensures
            *final(self) == old(self).timed_out(elapsed_ms),
            match old(self).pending {
                Some(pending) => {
                    if pending.retries(elapsed_ms) {
                        retry matches Retry::Resend(bytes) && bytes@ == command_text(
                            pending.command(),
                        )
                    } else {
                        retry == Retry::GaveUp(GameError::SendTimeout)
                    }
                },
                None => retry == Retry::Idle,
            },
    {
        match self.pending {
            Some(pending) => {
                if pending.attempts < RETRY_LIMIT && elapsed_ms < SEND_BUDGET_MS {
                    self.pending = Some(
                        Pending {
                            sequence: pending.sequence,
                            payload: pending.payload,
                            attempts: pending.attempts + 1,
                        },
                    );
                    Retry::Resend(
                        encode_command(
                            &Command { sequence: pending.sequence, payload: pending.payload },
                        ),
                    )
                } else {
                    self.pending = None;
                    Retry::GaveUp(GameError::SendTimeout)
                }
            },
            None => Retry::Idle,
        }
    }
}

/// A command is never sent more than `RETRY_LIMIT` times: whenever the waits
/// run out, the number of resends is at most the number of attempts left.
pub proof fn lemma_resends_are_bounded(sender: ReliableSender, waits: Seq<u64>)
    requires
        sender.pending matches Some(pending) && pending.attempts <= RETRY_LIMIT,
    ensures
        sender.pending->Some_0.attempts + sender.resends(waits) <= RETRY_LIMIT,
    decreases waits.len(),
{
    if waits.len() > 0 {
        let pending = sender.pending->Some_0;
        if pending.retries(waits[0]) {
            lemma_resends_are_bounded(sender.timed_out(waits[0]), waits.skip(1));
        }
    }
}

/// A sender whose peer never answers gives up after exactly `RETRY_LIMIT`
/// transmissions. If every wait but the last runs out within the budget and
/// there are as many waits as attempts, the command is sent again after each
/// wait but the last, always under the same sequence number, and after the
/// last wait the sender is idle: the send has failed.
pub proof fn lemma_unanswered_send_is_given_up(sender: ReliableSender, waits: Seq<u64>)
    requires
        sender.pending matches Some(pending) && 1 <= pending.attempts <= RETRY_LIMIT,
        waits.len() == RETRY_LIMIT - sender.pending->Some_0.attempts + 1,
        forall|i: int| 0 <= i < waits.len() - 1 ==> waits[i] < SEND_BUDGET_MS,
    ensures
        sender.pending->Some_0.attempts + sender.resends(waits) == RETRY_LIMIT,
        sender.timed_out_all(waits).is_idle(),
        sender.timed_out_all(waits).next_sequence == sender.next_sequence,
        sender.timed_out_all(waits.drop_last()).pending == Some(
            Pending { attempts: RETRY_LIMIT, ..sender.pending->Some_0 },
        ),
    decreases waits.len(),
{
    let pending = sender.pending->Some_0;
    let rest = waits.skip(1);
    if pending.attempts < RETRY_LIMIT {
        let next = sender.timed_out(waits[0]);
        assert(pending.retries(waits[0]));
        assert forall|i: int| 0 <= i < rest.len() - 1 implies rest[i] < SEND_BUDGET_MS by {
            assert(rest[i] == waits[i + 1]);
        }
        lemma_unanswered_send_is_given_up(next, rest);
        assert(waits.drop_last().skip(1) =~= rest.drop_last());
        assert(waits.drop_last()[0] == waits[0]);
    } else {
        assert(waits.len() == 1);
        assert(!pending.retries(waits[0]));
        assert(rest.len() == 0);
        assert(sender.timed_out(waits[0]).timed_out_all(rest) == sender.timed_out(waits[0]));
        assert(waits.drop_last().len() == 0);
    }
}

/// From the first transmission on: a sender that takes on a command and is
/// never answered sends it `RETRY_LIMIT` times in all and then fails.
pub proof fn lemma_send_without_peer(sender: ReliableSender, payload: Payload, waits: Seq<u64>)
    requires
        sender.is_idle(),
        waits.len() == RETRY_LIMIT,
        forall|i: int| 0 <= i < waits.len() - 1 ==> waits[i] < SEND_BUDGET_MS,
    ensures
        1 + sender.begun(payload).resends(waits) == RETRY_LIMIT,
        sender.begun(payload).timed_out_all(waits).is_idle(),
{
    lemma_unanswered_send_is_given_up(sender.begun(payload), waits);
}

/// An acknowledgment ends the send at once, and only the awaited one does:
/// after the acknowledgment of the pending sequence number the sender is
/// idle, and an acknowledgment of any other number changes nothing.
pub proof fn lemma_only_the_awaited_ack_counts(sender: ReliableSender, sequence: u32)
    ensures
        sender.awaits(sequence) ==> sender.acknowledged(sequence).is_idle(),
        !sender.awaits(sequence) ==> sender.acknowledged(sequence) == sender,
        sender.acknowledged(sequence).next_sequence == sender.next_sequence,
{
}

/// A resend carries the sequence number and the payload of the first
/// transmission.
pub proof fn lemma_resend_is_the_same_command(sender: ReliableSender, elapsed_ms: u64)
    requires
        sender.pending matches Some(pending) && pending.retries(elapsed_ms),
    ensures
        sender.timed_out(elapsed_ms).pending matches Some(next) && next.command()
            == sender.pending->Some_0.command(),
{
}

} // verus!
