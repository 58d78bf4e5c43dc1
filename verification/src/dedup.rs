//! Duplicate and stale-sequence rejection for one sender.
//!
//! A sender numbers its commands upwards from 1 and resends a command under
//! the number it first had. The receiver keeps, for each sender, the highest
//! number it has accepted, and accepts a command exactly when its number is
//! higher. A resent command is therefore accepted at most once. Numbers may
//! be skipped: nothing is buffered, reordered or waited for.

use vstd::prelude::*;

verus! {

/// The highest sequence number accepted from one sender; 0 when none was.
#[derive(Clone, Copy, Debug, PartialEq, Eq, Structural)]
pub struct DedupFilter {
    pub last_accepted: u32,
}

impl DedupFilter {
    /// Whether the filter accepts `sequence`: it is higher than every
    /// sequence accepted before.
    pub open spec fn admits(self, sequence: u32) -> bool {
        sequence > self.last_accepted
    }

    /// The filter after `sequence` was offered to it: `sequence` is the
    /// highest accepted one if it was accepted, and nothing changed if not.
    pub open spec fn offer(self, sequence: u32) -> DedupFilter {
        if self.admits(sequence) {
            DedupFilter { last_accepted: sequence }
        } else {
            self
        }
    }

    /// The filter after a run of sequences was offered to it, the first of
    /// them first.
    pub open spec fn offer_all(self, sequences: Seq<u32>) -> DedupFilter
        decreases sequences.len(),
    {
        if sequences.len() == 0 {
            self
        } else {
            self.offer_all(sequences.drop_last()).offer(sequences.last())
        }
    }

    /// A filter that has accepted nothing yet.
    pub fn new() -> (filter: DedupFilter)
        ensures
            filter.last_accepted == 0,
    {
        DedupFilter { last_accepted: 0 }
    }

    /// Offers `sequence` to the filter and tells whether it was accepted.
    pub fn accept(&mut self, sequence: u32) -> (accepted: bool)
        ensures
            accepted == old(self).admits(sequence),
            *final(self) == old(self).offer(sequence),
    {
        if sequence > self.last_accepted {
            self.last_accepted = sequence;
            true
        } else {
            false
        }
    }
}

/// The highest accepted sequence never goes down, whatever is offered.
pub proof fn lemma_offers_never_lower(filter: DedupFilter, sequences: Seq<u32>)
    ensures
        filter.offer_all(sequences).last_accepted >= filter.last_accepted,
    decreases sequences.len(),
{
    if sequences.len() > 0 {
        lemma_offers_never_lower(filter, sequences.drop_last());
    }
}

/// Once a sequence was accepted, it is rejected ever after, whatever was
/// offered in between.
pub proof fn lemma_accepted_once(filter: DedupFilter, sequence: u32, later: Seq<u32>)
    requires
        filter.admits(sequence),
    ensures
        !filter.offer(sequence).offer_all(later).admits(sequence),
{
    lemma_offers_never_lower(filter.offer(sequence), later);
}

/// Of two sequences `first < second` that are offered in this order, the
/// first being accepted, the second is accepted too, and from then on every
/// resend of either is rejected, whatever was offered in between.
pub proof fn lemma_in_order_accepted_resend_rejected(
    filter: DedupFilter,
    first: u32,
    second: u32,
    later: Seq<u32>,
)
    requires
        filter.admits(first),
        first < second,
    ensures
        filter.offer(first).admits(second),
        !filter.offer(first).offer(second).offer_all(later).admits(first),
        !filter.offer(first).offer(second).offer_all(later).admits(second),
{
    lemma_offers_never_lower(filter.offer(first).offer(second), later);
}

/// A sequence is rejected exactly when it is a duplicate of, or older than,
/// the highest accepted one; a gap in the numbers is no reason to reject.
pub proof fn lemma_gaps_are_accepted(filter: DedupFilter, sequence: u32)
    ensures
        filter.admits(sequence) <==> sequence > filter.last_accepted,
        sequence > filter.last_accepted ==> filter.offer(sequence).last_accepted == sequence,
{
}

} // verus!
