//! The decisions taken at every frame deadline: which channels regenerate
//! their navigation message, whether the next hourly ephemeris set takes
//! over, and which channels then rebuild their subframes from it.
use vstd::prelude::*;

verus! {

/// What one frame deadline asks of the channels.
pub struct PeriodicPlan {
    /// The ephemeris set that takes over, if any.
    pub new_set: Option<usize>,
    /// Per channel: whether it regenerates its navigation message.
    pub regenerate_message: Vec<bool>,
    /// Per channel: whether it rebuilds its subframes from the new set.
    pub rebuild_subframes: Vec<bool>,
}

/// The set after `current` takes over when it exists and its time window
/// holds the deadline.
pub open spec fn spec_next_set(current: int, set_count: int, next_matches_time: bool) -> Option<usize> {
    if current + 1 < set_count && current + 1 <= usize::MAX && next_matches_time {
        Some((current + 1) as usize)
    } else {
        None
    }
}

/// Whether a channel holding `prn` rebuilds its subframes: it holds a
/// satellite, and the new set has a valid ephemeris for that satellite.
pub open spec fn spec_rebuilds(prn: int, new_set: Option<usize>, next_set_valid: Seq<bool>) -> bool {
    &&& new_set is Some
    &&& prn != 0
    &&& prn - 1 < next_set_valid.len()
    &&& next_set_valid[prn - 1]
}

/// The ephemeris set in use after a frame deadline, given whether the set
/// after `current` (if there is one) covers the deadline.
pub fn next_ephemeris_set(current: usize, set_count: usize, next_matches_time: bool) -> (next: Option<usize>)
    ensures
        next == spec_next_set(current as int, set_count as int, next_matches_time),
{
    if current < usize::MAX && current + 1 < set_count && next_matches_time {
        Some(current + 1)
    } else {
        None
    }
}

/// Plans one frame deadline for the channels holding `prns` (0 for a free
/// channel). Every occupied channel regenerates its navigation message; when
/// the next set takes over, each occupied channel whose satellite has a valid
/// ephemeris in it (`next_set_valid`, by PRN minus one) rebuilds its
/// subframes.
pub fn plan_frame_deadline(
    prns: &[usize],
    current_set: usize,
    set_count: usize,
    next_matches_time: bool,
    next_set_valid: &[bool],
) -> (plan: PeriodicPlan)
    ensures
        plan.new_set == spec_next_set(current_set as int, set_count as int, next_matches_time),
        plan.regenerate_message@.len() == prns@.len(),
        plan.rebuild_subframes@.len() == prns@.len(),
        forall|k: int| 0 <= k < prns@.len() ==> #[trigger] plan.regenerate_message@[k] == (prns@[k] != 0),
        forall|k: int|
            0 <= k < prns@.len() ==> #[trigger] plan.rebuild_subframes@[k] == spec_rebuilds(
                prns@[k] as int,
                plan.new_set,
                next_set_valid@,
            ),
{
    let new_set = next_ephemeris_set(current_set, set_count, next_matches_time);
    let mut regenerate_message: Vec<bool> = Vec::new();
    let mut rebuild_subframes: Vec<bool> = Vec::new();
    let mut k: usize = 0;
    while k < prns.len()
        invariant
            k <= prns@.len(),
            regenerate_message@.len() == k,
            rebuild_subframes@.len() == k,
            forall|j: int| 0 <= j < k ==> #[trigger] regenerate_message@[j] == (prns@[j] != 0),
            forall|j: int|
                0 <= j < k ==> #[trigger] rebuild_subframes@[j] == spec_rebuilds(
                    prns@[j] as int,
                    new_set,
                    next_set_valid@,
                ),
        decreases prns@.len() - k,
    {
        let prn = prns[k];
        regenerate_message.push(prn != 0);
        let rebuild = new_set.is_some() && prn != 0 && prn - 1 < next_set_valid.len()
            && next_set_valid[prn - 1];
        rebuild_subframes.push(rebuild);
        k = k + 1;
    }
    PeriodicPlan { new_set, regenerate_message, rebuild_subframes }
}

} // verus!
