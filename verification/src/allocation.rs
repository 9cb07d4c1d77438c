//! Bookkeeping of the satellite-to-channel allocation.
//!
//! Each of the 16 channels either is free (PRN 0) or tracks one of the 32
//! satellites; each satellite either has no channel (-1) or names the channel
//! that tracks it. The two tables always agree.
use vstd::prelude::*;

verus! {

/// Number of satellites (PRN 1 to 32).
pub const MAX_SAT: usize = 32;

/// Number of signal channels.
pub const MAX_CHAN: usize = 16;

/// Whether the channel table and the satellite table agree: every tracked
/// PRN names its channel back, and every allocated satellite's channel tracks
/// it.
pub open spec fn tables_agree(prns: Seq<usize>, channels: Seq<i32>) -> bool {
    &&& prns.len() == 16
    &&& channels.len() == 32
    &&& forall|c: int| 0 <= c < 16 ==> #[trigger] prns[c] <= 32
    &&& forall|sv: int| 0 <= sv < 32 ==> -1 <= #[trigger] channels[sv] < 16
    &&& forall|sv: int|
        0 <= sv < 32 && #[trigger] channels[sv] >= 0 ==> prns[channels[sv] as int] == sv + 1
    &&& forall|c: int|
        0 <= c < 16 && #[trigger] prns[c] != 0 ==> channels[prns[c] - 1] == c
}

/// The first free channel at or after `from`, or 16 when every channel from
/// there on is busy.
pub open spec fn first_free_from(prns: Seq<usize>, from: int) -> int
    decreases 16 - from,
{
    if from >= 16 {
        16
    } else if prns[from] == 0 {
        from
    } else {
        first_free_from(prns, from + 1)
    }
}

/// The state of the allocation: channel PRNs, satellite channels, and the
/// (satellite, channel) pairs allocated so far in this pass.
pub type AllocationState = (Seq<usize>, Seq<i32>, Seq<(usize, usize)>);

/// The allocation decision for satellite `sv`: a visible satellite without a
/// channel takes the first free channel, if any; a satellite that is no
/// longer visible releases its channel.
pub open spec fn allocation_step(state: AllocationState, sv: int, visible: bool) -> AllocationState {
    let (prns, channels, assigned) = state;
    if visible {
        if channels[sv] == -1 {
            let free = first_free_from(prns, 0);
            if free < 16 {
                (
                    prns.update(free, (sv + 1) as usize),
                    channels.update(sv, free as i32),
                    assigned.push((sv as usize, free as usize)),
                )
            } else {
                state
            }
        } else {
            state
        }
    } else if channels[sv] >= 0 {
        (prns.update(channels[sv] as int, 0usize), channels.update(sv, -1i32), assigned)
    } else {
        state
    }
}

/// The state after deciding satellites `0..count` in order.
pub open spec fn allocation_after(start: AllocationState, visible: Seq<bool>, count: int) -> AllocationState
    decreases count,
{
    if count <= 0 {
        start
    } else {
        allocation_step(allocation_after(start, visible, count - 1), count - 1, visible[count - 1])
    }
}

/// Number of visible satellites among `0..count`.
pub open spec fn visible_count(visible: Seq<bool>, count: int) -> int
    decreases count,
{
    if count <= 0 {
        0
    } else {
        visible_count(visible, count - 1) + if visible[count - 1] {
            1int
        } else {
            0
        }
    }
}

/// The first free channel is free, and every channel before it is busy.
proof fn lemma_first_free(prns: Seq<usize>, from: int)
    requires
        prns.len() == 16,
        0 <= from <= 16,
    ensures
        from <= first_free_from(prns, from) <= 16,
        first_free_from(prns, from) < 16 ==> prns[first_free_from(prns, from)] == 0,
        forall|c: int| from <= c < first_free_from(prns, from) ==> prns[c] != 0,
    decreases 16 - from,
{
    if from < 16 && prns[from] != 0 {
        lemma_first_free(prns, from + 1);
    }
}

/// One decision keeps the tables in agreement and changes only the decided
/// satellite's entry of the satellite table.
proof fn lemma_step_keeps_agreement(state: AllocationState, sv: int, visible: bool)
    requires
        tables_agree(state.0, state.1),
        0 <= sv < 32,
    ensures
        tables_agree(allocation_step(state, sv, visible).0, allocation_step(state, sv, visible).1),
        forall|other: int|
            0 <= other < 32 && other != sv ==> #[trigger] allocation_step(state, sv, visible).1[other]
                == state.1[other],
        allocation_step(state, sv, visible).1[sv] >= 0 ==> visible,
        visible && state.1[sv] >= 0 ==> allocation_step(state, sv, visible).1[sv] == state.1[sv],
{
    lemma_first_free(state.0, 0);
    let (prns, channels, assigned) = state;
    let next = allocation_step(state, sv, visible);
    if visible && channels[sv] == -1 && first_free_from(prns, 0) < 16 {
        let free = first_free_from(prns, 0);
        assert forall|c: int| 0 <= c < 16 && #[trigger] next.0[c] != 0 implies next.1[next.0[c] - 1]
            == c by {
            if c != free {
                assert(channels[prns[c] - 1] == c);
            }
        }
        assert forall|other: int| 0 <= other < 32 && #[trigger] next.1[other] >= 0 implies next.0[
            next.1[other] as int] == other + 1 by {
            if other != sv {
                assert(prns[channels[other] as int] == other + 1);
                assert(channels[other] != free) by {
                    if channels[other] == free {
                        assert(prns[free] == 0);
                    }
                }
            }
        }
    } else if !visible && channels[sv] >= 0 {
        let released = channels[sv] as int;
        assert forall|other: int| 0 <= other < 32 && #[trigger] next.1[other] >= 0 implies next.0[
            next.1[other] as int] == other + 1 by {
            assert(prns[channels[other] as int] == other + 1);
        }
        assert forall|c: int| 0 <= c < 16 && #[trigger] next.0[c] != 0 implies next.1[next.0[c] - 1]
            == c by {
            assert(channels[prns[c] - 1] == c);
        }
    }
}

/// A pass keeps the tables in agreement; after it, every satellite that holds
/// a channel is visible, and a satellite that stays visible keeps the channel
/// it had.
pub proof fn lemma_allocation_pass(start: AllocationState, visible: Seq<bool>, count: int)
    requires
        tables_agree(start.0, start.1),
        visible.len() == 32,
        0 <= count <= 32,
    ensures
        tables_agree(allocation_after(start, visible, count).0, allocation_after(start, visible, count).1),
        forall|sv: int|
            0 <= sv < count && #[trigger] allocation_after(start, visible, count).1[sv] >= 0
                ==> visible[sv],
        forall|sv: int|
            0 <= sv < count && visible[sv] && start.1[sv] >= 0 ==> #[trigger] allocation_after(
                start,
                visible,
                count,
            ).1[sv] == start.1[sv],
        forall|sv: int| count <= sv < 32 ==> #[trigger] allocation_after(start, visible, count).1[sv] == start.1[sv],
    decreases count,
{
    if count > 0 {
        lemma_allocation_pass(start, visible, count - 1);
        lemma_step_keeps_agreement(allocation_after(start, visible, count - 1), count - 1, visible[count - 1]);
    }
}

/// The channel and satellite allocation tables.
pub struct ChannelAllocation {
    /// PRN tracked by each channel, 0 for a free channel.
    channel_prns: [usize; 16],
    /// Channel of each satellite, -1 for none.
    allocated_satellite: [i32; 32],
}

impl View for ChannelAllocation {
    type V = (Seq<usize>, Seq<i32>);

    closed spec fn view(&self) -> (Seq<usize>, Seq<i32>) {
        (self.channel_prns@, self.allocated_satellite@)
    }
}

impl ChannelAllocation {
    #[verifier::type_invariant]
    spec fn agrees(self) -> bool {
        tables_agree(self.channel_prns@, self.allocated_satellite@)
    }

    /// All channels free and no satellite allocated.
    pub fn new() -> (allocation: Self)
        ensures
            allocation@.0 == Seq::new(16, |c: int| 0usize),
            allocation@.1 == Seq::new(32, |sv: int| -1i32),
    {
        let allocation = ChannelAllocation { channel_prns: [0; 16], allocated_satellite: [-1; 32] };
        assert(allocation@.0 =~= Seq::new(16, |c: int| 0usize));
        assert(allocation@.1 =~= Seq::new(32, |sv: int| -1i32));
        allocation
    }

    /// The PRN tracked by a channel, 0 when it is free.
    pub fn channel_prn(&self, channel: usize) -> (prn: usize)
        requires
            channel < 16,
        ensures
            prn == self@.0[channel as int],
            prn <= 32,
    {
        proof {
            use_type_invariant(self);
        }
        self.channel_prns[channel]
    }

    /// The channel of a satellite (index `prn - 1`), -1 when it has none.
    pub fn satellite_channel(&self, sv: usize) -> (channel: i32)
        requires
            sv < 32,
        ensures
            channel == self@.1[sv as int],
            -1 <= channel < 16,
    {
        proof {
            use_type_invariant(self);
        }
        self.allocated_satellite[sv]
    }

    /// Allocates channels from satellite visibility, satellite by satellite:
    /// a visible satellite without a channel takes the first free channel,
    /// and a satellite that is no longer visible releases its channel.
    ///
    /// Returns the number of visible satellites and the (satellite, channel)
    /// pairs newly allocated, in satellite order.
    pub fn allocate(&mut self, visible: &[bool; 32]) -> (result: (i32, Vec<(usize, usize)>))
        ensures
            ({
                let after = allocation_after(
                    (old(self)@.0, old(self)@.1, Seq::empty()),
                    visible@,
                    32,
                );
                &&& final(self)@.0 == after.0
                &&& final(self)@.1 == after.1
                &&& result.1@ == after.2
            }),
            result.0 == visible_count(visible@, 32),
    {
        proof {
            use_type_invariant(&*self);
        }
        let ghost start: AllocationState = (self.channel_prns@, self.allocated_satellite@, Seq::empty());
        let mut prns = self.channel_prns;
        let mut channels = self.allocated_satellite;
        let mut assigned: Vec<(usize, usize)> = Vec::new();
        let mut count: i32 = 0;
        let mut sv: usize = 0;
        while sv < 32
            invariant
                sv <= 32,
                tables_agree(start.0, start.1),
                visible@.len() == 32,
                (prns@, channels@, assigned@) == allocation_after(start, visible@, sv as int),
                count == visible_count(visible@, sv as int),
                0 <= count <= sv,
            decreases 32 - sv,
        {
            proof {
                lemma_allocation_pass(start, visible@, sv as int);
                lemma_first_free(prns@, 0);
            }
            let ghost before: AllocationState = (prns@, channels@, assigned@);
            if visible[sv] {
                count = count + 1;
                if channels[sv] == -1 {
                    let mut free: usize = 0;
                    while free < 16 && prns[free] != 0
                        invariant
                            free <= 16,
                            prns@.len() == 16,
                            forall|c: int| 0 <= c < free ==> prns@[c] != 0,
                            first_free_from(prns@, 0) == first_free_from(prns@, free as int),
                        decreases 16 - free,
                    {
                        free = free + 1;
                    }
                    if free < 16 {
                        prns[free] = sv + 1;
                        channels[sv] = free as i32;
                        assigned.push((sv, free));
                    }
                }
            } else if channels[sv] >= 0 {
                let released = channels[sv] as usize;
                prns[released] = 0;
                channels[sv] = -1;
            }
            proof {
                assert((prns@, channels@, assigned@) == allocation_step(before, sv as int, visible@[sv as int]));
            }
            sv = sv + 1;
        }
        proof {
            lemma_allocation_pass(start, visible@, 32);
        }
        *self = ChannelAllocation { channel_prns: prns, allocated_satellite: channels };
        (count, assigned)
    }
}

} // verus!
