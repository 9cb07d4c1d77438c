//! Grouping of broadcast ephemeris records into hourly sets.
use vstd::prelude::*;

use crate::error::Error;

verus! {

/// Number of ephemeris sets the fixed storage holds (a daily broadcast file).
pub const EPHEM_ARRAY_SIZE: usize = 15;

/// Where one ephemeris record goes.
#[derive(Clone, Copy, Debug, PartialEq, Eq, Structural)]
pub enum RecordPlacement {
    /// The record's PRN is outside 1..=32; it is skipped.
    Skip,
    /// The record fills satellite slot `sv` of set `set`; `starts_set` tells
    /// whether it opened that set, whose clock time then becomes the set's
    /// reference.
    Slot {
        /// Index of the ephemeris set.
        set: usize,
        /// Satellite index, PRN - 1.
        sv: usize,
        /// Whether the record opened the set.
        starts_set: bool,
    },
}

/// Progress of the grouping: how many sets are stored and which one receives
/// records.
#[derive(Clone, Copy, Debug)]
pub struct EphemerisSetCursor {
    stored_set_count: usize,
    current_set_index: usize,
}

/// The model of the grouping: stored sets and the receiving set.
pub struct SetProgress {
    /// Number of sets opened so far.
    pub stored: nat,
    /// Index of the set receiving records.
    pub current: nat,
}

impl View for EphemerisSetCursor {
    type V = SetProgress;

    closed spec fn view(&self) -> SetProgress {
        SetProgress { stored: self.stored_set_count as nat, current: self.current_set_index as nat }
    }
}

impl EphemerisSetCursor {
    #[verifier::type_invariant]
    spec fn within_storage(self) -> bool {
        &&& self.stored_set_count <= EPHEM_ARRAY_SIZE
        &&& (self.stored_set_count == 0 ==> self.current_set_index == 0)
        &&& (self.stored_set_count > 0 ==> self.current_set_index == self.stored_set_count - 1)
    }

    /// No set opened yet.
    pub fn new() -> (cursor: Self)
        ensures
            cursor@.stored == 0 && cursor@.current == 0,
    {
        EphemerisSetCursor { stored_set_count: 0, current_set_index: 0 }
    }

    /// Number of sets opened so far.
    pub fn stored_set_count(&self) -> (count: usize)
        ensures
            count == self@.stored,
            count <= EPHEM_ARRAY_SIZE,
    {
        proof {
            use_type_invariant(self);
        }
        self.stored_set_count
    }

    /// Places one record with PRN `prn`. `far_from_set_start` tells whether
    /// its clock time lies more than an hour from the receiving set's
    /// reference time.
    ///
    /// The first record opens set 0; a record far from the reference opens
    /// the next set, which fails once all sets are in use. Records of other
    /// PRNs than 1..=32 are skipped and change nothing.
    pub fn place(&mut self, prn: usize, far_from_set_start: bool) -> (placement: Result<RecordPlacement, Error>)
        ensures
            !(1 <= prn <= 32) ==> placement == Ok::<RecordPlacement, Error>(RecordPlacement::Skip)
                && final(self)@ == old(self)@,
            1 <= prn <= 32 && old(self)@.stored == 0 ==> placement == Ok::<RecordPlacement, Error>(
                RecordPlacement::Slot { set: 0, sv: (prn - 1) as usize, starts_set: true },
            ) && final(self)@ == (SetProgress { stored: 1, current: 0 }),
            1 <= prn <= 32 && old(self)@.stored > 0 && !far_from_set_start ==> placement == Ok::<
                RecordPlacement,
                Error,
            >(
                RecordPlacement::Slot {
                    set: old(self)@.current as usize,
                    sv: (prn - 1) as usize,
                    starts_set: false,
                },
            ) && final(self)@ == old(self)@,
            1 <= prn <= 32 && old(self)@.stored > 0 && far_from_set_start && old(self)@.stored
                == EPHEM_ARRAY_SIZE ==> (placement matches Err(
                Error::TooManyEphemerisSets { max_supported: m },
            ) && m == EPHEM_ARRAY_SIZE) && final(self)@ == old(self)@,
            1 <= prn <= 32 && old(self)@.stored > 0 && far_from_set_start && old(self)@.stored
                < EPHEM_ARRAY_SIZE ==> placement == Ok::<RecordPlacement, Error>(
                RecordPlacement::Slot {
                    set: old(self)@.stored as usize,
                    sv: (prn - 1) as usize,
                    starts_set: true,
                },
            ) && final(self)@ == (SetProgress { stored: old(self)@.stored + 1, current: old(self)@.stored }),
            placement matches Ok(RecordPlacement::Slot { set, sv, .. }) ==> set < EPHEM_ARRAY_SIZE
                && sv < 32,
    {
        proof {
            use_type_invariant(&*self);
        }
        if prn == 0 || prn > 32 {
            return Ok(RecordPlacement::Skip);
        }
        let sv = prn - 1;
        if self.stored_set_count == 0 {
            *self = EphemerisSetCursor { stored_set_count: 1, current_set_index: 0 };
            return Ok(RecordPlacement::Slot { set: 0, sv, starts_set: true });
        }
        if far_from_set_start {
            if self.stored_set_count == EPHEM_ARRAY_SIZE {
                return Err(Error::TooManyEphemerisSets { max_supported: EPHEM_ARRAY_SIZE });
            }
            let set = self.stored_set_count;
            *self = EphemerisSetCursor { stored_set_count: set + 1, current_set_index: set };
            return Ok(RecordPlacement::Slot { set, sv, starts_set: true });
        }
        Ok(RecordPlacement::Slot { set: self.current_set_index, sv, starts_set: false })
    }
}

/// The stored satellite health: a nonzero health below 32 gets bit 5 set
/// (the summary bit of the six-bit health word).
pub fn adjusted_health(health: i32) -> (stored: i32)
    ensures
        stored == if 0 < health < 32 {
            health + 32
        } else {
            health as int
        },
{
    if health > 0 && health < 32 {
        health + 32
    } else {
        health
    }
}

} // verus!
