//! The bookkeeping of a room's command queue: what is counted when a command is refused,
//! starts and finishes, and the totals over all rooms.
use vstd::prelude::*;
use crate::state::RoomCommandStats;

verus! {

/// 2^64, the modulus of the 64-bit counters.
pub open spec fn u64_modulus() -> int {
    0x1_0000_0000_0000_0000
}

/// `x + d` on a 64-bit counter, which wraps around.
pub open spec fn wrapped_u64(x: int, d: int) -> int {
    (x + d) % u64_modulus()
}

/// `x + d` on a word-sized counter, which wraps around.
pub open spec fn wrapped_usize(x: int, d: int) -> int {
    (x + d) % (usize::MAX as int + 1)
}

impl Default for RoomCommandStats {
    fn default() -> (r: RoomCommandStats)
        ensures
            r.queued == 0 && r.processed == 0 && r.rejected == 0 && r.total_micros == 0 && r.max_micros == 0,
    {
        RoomCommandStats { queued: 0, processed: 0, rejected: 0, total_micros: 0, max_micros: 0 }
    }
}

impl RoomCommandStats {
    /// A command that found every slot taken: counted as rejected.
    pub fn record_rejected(&mut self)
        ensures
            final(self).rejected == wrapped_u64(old(self).rejected as int, 1),
            final(self).queued == old(self).queued,
            final(self).processed == old(self).processed,
            final(self).total_micros == old(self).total_micros,
            final(self).max_micros == old(self).max_micros,
    {
        self.rejected = self.rejected.wrapping_add(1);
    }

    /// A command that got a slot: counted as queued.
    pub fn record_queued(&mut self)
        ensures
            final(self).queued == wrapped_usize(old(self).queued as int, 1),
            final(self).rejected == old(self).rejected,
            final(self).processed == old(self).processed,
            final(self).total_micros == old(self).total_micros,
            final(self).max_micros == old(self).max_micros,
    {
        let ghost q = self.queued as int;
        self.queued = self.queued.wrapping_add(1);
        proof {
            assert(usize::MIN == 0);
            if q < usize::MAX as int {
                assert(self.queued == q + 1);
            } else {
                assert(self.queued == 0);
            }
        }
    }

    /// A command that took `elapsed_micros`: no longer queued, counted as processed, its
    /// time added to the total and kept as the maximum when it is the longest so far.
    pub fn finish_command(&mut self, elapsed_micros: u64)
        ensures
            final(self).queued == wrapped_usize(old(self).queued as int, -1),
            final(self).processed == wrapped_u64(old(self).processed as int, 1),
            final(self).total_micros == wrapped_u64(old(self).total_micros as int, elapsed_micros as int),
            final(self).max_micros == if elapsed_micros > old(self).max_micros { elapsed_micros } else { old(self).max_micros },
            final(self).rejected == old(self).rejected,
    {
        let ghost q = self.queued as int;
        self.queued = self.queued.wrapping_sub(1);
        proof {
            assert(usize::MIN == 0);
            if q > 0 {
                assert(self.queued == q - 1);
            } else {
                assert(self.queued == usize::MAX);
                assert((q - 1) % (usize::MAX as int + 1) == usize::MAX as int);
            }
        }
        self.processed = self.processed.wrapping_add(1);
        self.total_micros = self.total_micros.wrapping_add(elapsed_micros);
        if elapsed_micros > self.max_micros {
            self.max_micros = elapsed_micros;
        }
    }
}

/// The length of a command in microseconds, held at the largest 64-bit value.
pub fn elapsed_micros_clamped(micros: u128) -> (r: u64)
    ensures
        r == if micros > u64::MAX as u128 { u64::MAX as int } else { micros as int },
{
    if micros > u64::MAX as u128 {
        u64::MAX
    } else {
        micros as u64
    }
}

/// Sum of the queued counts of `s`.
pub open spec fn sum_queued(s: Seq<RoomCommandStats>) -> int
    decreases s.len(),
{
    if s.len() == 0 { 0 } else { sum_queued(s.drop_last()) + s.last().queued }
}

/// Sum of the processed counts of `s`.
pub open spec fn sum_processed(s: Seq<RoomCommandStats>) -> int
    decreases s.len(),
{
    if s.len() == 0 { 0 } else { sum_processed(s.drop_last()) + s.last().processed }
}

/// Sum of the rejected counts of `s`.
pub open spec fn sum_rejected(s: Seq<RoomCommandStats>) -> int
    decreases s.len(),
{
    if s.len() == 0 { 0 } else { sum_rejected(s.drop_last()) + s.last().rejected }
}

/// Sum of the command times of `s`.
pub open spec fn sum_micros(s: Seq<RoomCommandStats>) -> int
    decreases s.len(),
{
    if s.len() == 0 { 0 } else { sum_micros(s.drop_last()) + s.last().total_micros }
}

/// The longest command of `s`, 0 for none.
pub open spec fn longest(s: Seq<RoomCommandStats>) -> int
    decreases s.len(),
{
    if s.len() == 0 {
        0
    } else {
        let m = longest(s.drop_last());
        if s.last().max_micros > m { s.last().max_micros as int } else { m }
    }
}

/// The sums fit their counters, at every prefix.
pub open spec fn totals_fit(s: Seq<RoomCommandStats>) -> bool {
    &&& sum_queued(s) <= usize::MAX
    &&& sum_processed(s) <= u64::MAX
    &&& sum_rejected(s) <= u64::MAX
    &&& sum_micros(s) <= u64::MAX
}

proof fn lemma_sums_grow(s: Seq<RoomCommandStats>, i: int)
    requires
        0 <= i <= s.len(),
    ensures
        sum_queued(s.take(i)) <= sum_queued(s),
        sum_processed(s.take(i)) <= sum_processed(s),
        sum_rejected(s.take(i)) <= sum_rejected(s),
        sum_micros(s.take(i)) <= sum_micros(s),
    decreases s.len() - i,
{
    if i < s.len() {
        lemma_sums_grow(s, i + 1);
        assert(s.take(i + 1).drop_last() =~= s.take(i));
    } else {
        assert(s.take(i) =~= s);
    }
}

/// The command counters of all rooms together: the counts and times added up, the
/// longest command the longest of any room.
pub fn room_command_stats_total(stats: &Vec<RoomCommandStats>) -> (r: RoomCommandStats)
    requires
        totals_fit(stats@),
    ensures
        r.queued == sum_queued(stats@),
        r.processed == sum_processed(stats@),
        r.rejected == sum_rejected(stats@),
        r.total_micros == sum_micros(stats@),
        r.max_micros == longest(stats@),
{
    let mut total = RoomCommandStats::default();
    let mut i: usize = 0;
    assert(stats@.take(0) =~= Seq::<RoomCommandStats>::empty());
    while i < stats.len()
        invariant
            i <= stats@.len(),
            totals_fit(stats@),
            total.queued == sum_queued(stats@.take(i as int)),
            total.processed == sum_processed(stats@.take(i as int)),
            total.rejected == sum_rejected(stats@.take(i as int)),
            total.total_micros == sum_micros(stats@.take(i as int)),
            total.max_micros == longest(stats@.take(i as int)),
        decreases stats@.len() - i,
    {
        let s = stats[i];
        proof {
            assert(stats@.take(i + 1).drop_last() =~= stats@.take(i as int));
            assert(stats@.take(i + 1).last() == s);
            lemma_sums_grow(stats@, i + 1);
        }
        total.queued = total.queued + s.queued;
        total.processed = total.processed + s.processed;
        total.rejected = total.rejected + s.rejected;
        total.total_micros = total.total_micros + s.total_micros;
        if s.max_micros > total.max_micros {
            total.max_micros = s.max_micros;
        }
        i = i + 1;
    }
    assert(stats@.take(stats@.len() as int) =~= stats@);
    total
}

} // verus!
