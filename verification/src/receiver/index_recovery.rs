//! RFC 3711 sequence-number index recovery: turning a wrapping 16-bit RTP
//! sequence number back into a packet's true position in the stream.
//!
//! The header's sequence number wraps every 65536 packets, so a packet saying
//! "3" may be at position 3, or 65539, or 131075, ... one candidate per
//! rollover. Packets do not teleport: the candidate closest to the highest
//! index seen is the right one.

use vstd::prelude::*;

verus! {

/// The extended index that a sequence number stands for, given the highest
/// extended index among authenticated packets (RFC 3711, appendix A): the
/// candidate in the previous, the same or the next rollover, the previous one
/// of rollover 0 being rollover 0 again. Extended indexes are 64-bit numbers
/// and wrap like them.
pub open spec fn extended_index(highest: Option<u64>, seq: u16) -> u64 {
    match highest {
        None => seq as u64,
        Some(h) => {
            let rollover = h / 0x1_0000;
            let low = h % 0x1_0000;
            let chosen: int = if low < 0x8000 && seq - low > 0x8000 {
                if rollover == 0 { 0 } else { rollover - 1 }
            } else if low >= 0x8000 && low - 0x8000 > seq {
                rollover + 1
            } else {
                rollover as int
            };
            ((chosen * 0x1_0000 + seq) % 0x1_0000_0000_0000_0000) as u64
        },
    }
}

/// The higher of the highest index so far and a newly authenticated one.
pub open spec fn raised(highest: Option<u64>, index: u64) -> u64 {
    match highest {
        Some(h) => if h >= index { h } else { index },
        None => index,
    }
}

/// How far apart two indexes lie.
pub open spec fn index_distance(a: int, b: int) -> int {
    if a <= b { b - a } else { a - b }
}

/// Law: the recovered index carries the sequence number in its low 16 bits.
pub proof fn law_recovered_index_keeps_seq(highest: Option<u64>, seq: u16)
    ensures
        extended_index(highest, seq) % 0x1_0000 == seq,
{
}

/// Law: no index with this sequence number lies closer to the highest index
/// than the recovered one. Left out: a packet of the rollover after the last
/// one that 64 bits can hold, whose index wraps to zero.
pub proof fn law_recovered_index_is_nearest(highest: u64, seq: u16, other: nat)
    requires
        highest % 0x1_0000 - 0x8000 > seq ==> highest / 0x1_0000 < 0xffff_ffff_ffff,
        other % 0x1_0000 == seq,
    ensures
        index_distance(extended_index(Some(highest), seq) as int, highest as int)
            <= index_distance(other as int, highest as int),
{
    let r = extended_index(Some(highest), seq) as int;
    assert(r % 0x1_0000 == seq);
    // two indexes with one sequence number are whole rollovers apart
    assert((other - r) % 0x1_0000 == 0) by {
        vstd::arithmetic::div_mod::lemma_sub_mod_noop(other as int, r, 0x1_0000);
    }
}

/// Law: a packet that lies less than half the sequence range from the highest
/// index is recovered exactly, in either direction and across any wrap.
pub proof fn law_recovery_undoes_truncation(highest: u64, index: u64)
    requires
        index_distance(index as int, highest as int) < 0x8000,
    ensures
        extended_index(Some(highest), (index % 0x1_0000) as u16) == index,
{
}

/// Recovers a packet's true position in the stream from the 16-bit sequence
/// number in its header (RFC 3711, section 3.3.1).
#[derive(Debug)]
pub struct IndexRecovery {
    /// Highest extended index among authenticated packets; `None` until the
    /// first packet authenticates.
    highest: Option<u64>,
}

impl View for IndexRecovery {
    type V = Option<u64>;

    closed spec fn view(&self) -> Option<u64> {
        self.highest
    }
}

impl Default for IndexRecovery {
    fn default() -> (r: Self)
        ensures
            r@ is None,
    {
        IndexRecovery { highest: None }
    }
}

impl Clone for IndexRecovery {
    fn clone(&self) -> (r: Self)
        ensures
            r@ == self@,
    {
        IndexRecovery { highest: self.highest }
    }
}

impl IndexRecovery {
    /// Recovers the extended index of `seq`.
    pub fn recover(&self, seq: u16) -> (r: u64)
        ensures
            r == extended_index(self@, seq),
    {
        let highest: u64 = match self.highest {
            None => {
                return seq as u64;
            },
            Some(h) => h,
        };
        // how often the counter has wrapped, and the sequence number of the
        // highest packet
        let rollover: u64 = highest / 0x1_0000;
        let low: u64 = highest % 0x1_0000;
        let s: u64 = seq as u64;
        let chosen: u64 = if low < 0x8000 {
            // the counter wrapped recently: far above means before that wrap
            if s > low + 0x8000 {
                rollover.saturating_sub(1)
            } else {
                rollover
            }
        } else if low - 0x8000 > s {
            // a wrap is coming up: far below means after it
            rollover + 1
        } else {
            rollover
        };
        // the last rollover that 64 bits can hold is followed by the first
        if chosen > 0xffff_ffff_ffff {
            s
        } else {
            chosen * 0x1_0000 + s
        }
    }

    /// Records an authenticated packet's index: the highest one is kept.
    pub fn update(&mut self, index: u64)
        ensures
            final(self)@ == Some(raised(old(self)@, index)),
    {
        let keep: bool = match self.highest {
            Some(h) => h >= index,
            None => false,
        };
        if !keep {
            self.highest = Some(index);
        }
    }
}

/// Law: before any packet has authenticated, the sequence number is the index. At
/// equal distance from the highest index the same rollover is taken. The highest
/// index is the higher of the two.
pub proof fn law_recovery_starts_and_ties(highest: Option<u64>, seq: u16, index: u64)
    ensures
        extended_index(None, seq) == seq,
        highest matches Some(h) ==> (index_distance(seq as int, (h % 0x1_0000) as int) == 0x8000
            ==> extended_index(highest, seq) == h / 0x1_0000 * 0x1_0000 + seq),
        raised(None, index) == index,
        highest matches Some(h) ==> raised(highest, index) >= h && raised(highest, index) >= index
            && (raised(highest, index) == h || raised(highest, index) == index),
{
}

} // verus!
