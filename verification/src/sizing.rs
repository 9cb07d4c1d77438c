//! Checked dimensions of interleaved I/Q sample blocks.
use vstd::prelude::*;

use crate::error::Error;

verus! {

/// The reason given for a count of `i16` values whose bytes exceed the block
/// limit: an overflow of `usize`, or the 64 MiB limit itself.
pub open spec fn byte_len_error(value_count: int) -> Seq<char> {
    if 2 * value_count > usize::MAX {
        "interleaved I/Q byte size overflow"@
    } else {
        "I/Q block exceeds the 64 MiB block limit"@
    }
}

/// The reason given for a count of complex samples whose block exceeds the
/// block limit.
pub open spec fn sizing_error(complex_samples: int) -> Seq<char> {
    if 2 * complex_samples > usize::MAX {
        "interleaved I/Q length overflow"@
    } else {
        byte_len_error(2 * complex_samples)
    }
}

/// Maximum bytes in one interleaved `i16` I/Q block (64 MiB).
pub const MAX_INTERLEAVED_BYTES: usize = 67_108_864;

/// Maximum scalar `i16` values in one interleaved I/Q block.
pub const MAX_INTERLEAVED_I16_VALUES: usize = 33_554_432;

/// Maximum complex samples in one interleaved I/Q block.
pub const MAX_COMPLEX_SAMPLES: usize = 16_777_216;

/// Checked dimensions for one pre-format interleaved I/Q block.
#[derive(Clone, Copy, Debug, PartialEq, Eq, Structural)]
pub struct IqBlockSizing {
    /// Number of complex samples represented by the block.
    complex_samples: usize,
    /// Number of scalar `i16` values after I/Q interleaving.
    interleaved_i16_len: usize,
    /// Allocation size of the interleaved scalar values.
    interleaved_bytes: usize,
}

impl View for IqBlockSizing {
    type V = nat;

    /// The number of complex samples of the block.
    closed spec fn view(&self) -> nat {
        self.complex_samples as nat
    }
}

impl IqBlockSizing {
    #[verifier::type_invariant]
    spec fn dimensions_agree(self) -> bool {
        &&& self.interleaved_i16_len == 2 * self.complex_samples
        &&& self.interleaved_bytes == 4 * self.complex_samples
        &&& self.interleaved_bytes <= MAX_INTERLEAVED_BYTES
    }

    /// Derives every block dimension from a complex-sample count.
    ///
    /// Fails when the interleaved block would exceed 64 MiB.
    pub fn new(complex_samples: usize) -> (sizing: Result<Self, Error>)
        ensures
            4 * complex_samples <= MAX_INTERLEAVED_BYTES ==> (sizing matches Ok(s) && s@
                == complex_samples),
            4 * complex_samples > MAX_INTERLEAVED_BYTES ==> (sizing matches Err(
                Error::UnsupportedWorkload { reason },
            ) && reason@ == sizing_error(complex_samples as int)),
    {
        let interleaved_i16_len = match complex_samples.checked_mul(2) {
            Some(len) => len,
            None => {
                return Err(Error::unsupported_workload("interleaved I/Q length overflow"));
            },
        };
        let interleaved_bytes = Self::checked_i16_byte_len(interleaved_i16_len)?;
        Ok(Self { complex_samples, interleaved_i16_len, interleaved_bytes })
    }

    /// Validates and derives dimensions from an interleaved `i16` length.
    pub fn from_interleaved_i16_len(interleaved_i16_len: usize) -> (sizing: Result<Self, Error>)
        ensures
            interleaved_i16_len % 2 == 0 && 2 * interleaved_i16_len <= MAX_INTERLEAVED_BYTES ==> (
            sizing matches Ok(s) && 2 * s@ == interleaved_i16_len),
            interleaved_i16_len % 2 != 0 ==> (sizing matches Err(Error::UnsupportedWorkload { reason })
                && reason@ == "interleaved I/Q length is not even"@),
            interleaved_i16_len % 2 == 0 && 2 * interleaved_i16_len > MAX_INTERLEAVED_BYTES ==> (
            sizing matches Err(Error::UnsupportedWorkload { reason }) && reason@ == sizing_error(
                (interleaved_i16_len / 2) as int,
            )),
    {
        if interleaved_i16_len % 2 != 0 {
            return Err(Error::unsupported_workload("interleaved I/Q length is not even"));
        }
        Self::new(interleaved_i16_len / 2)
    }

    /// Returns the number of complex I/Q samples.
    pub fn complex_samples(self) -> (count: usize)
        ensures
            count == self@,
            4 * count <= MAX_INTERLEAVED_BYTES,
    {
        proof {
            use_type_invariant(&self);
        }
        self.complex_samples
    }

    /// Returns the number of scalar values in the interleaved `i16` block.
    pub fn interleaved_i16_len(self) -> (len: usize)
        ensures
            len == 2 * self@,
    {
        proof {
            use_type_invariant(&self);
        }
        self.interleaved_i16_len
    }

    /// Returns the byte size of the interleaved `i16` block.
    pub fn interleaved_bytes(self) -> (bytes: usize)
        ensures
            bytes == 4 * self@,
            bytes <= MAX_INTERLEAVED_BYTES,
    {
        proof {
            use_type_invariant(&self);
        }
        self.interleaved_bytes
    }

    /// Computes the byte size of scalar `i16` values, rejecting blocks above
    /// 64 MiB.
    pub fn checked_i16_byte_len(value_count: usize) -> (bytes: Result<usize, Error>)
        ensures
            2 * value_count <= MAX_INTERLEAVED_BYTES ==> bytes == Ok::<usize, Error>(
                (2 * value_count) as usize,
            ),
            2 * value_count > MAX_INTERLEAVED_BYTES ==> (bytes matches Err(
                Error::UnsupportedWorkload { reason },
            ) && reason@ == byte_len_error(value_count as int)),
    {
        let byte_count = match value_count.checked_mul(2) {
            Some(count) => count,
            None => {
                return Err(Error::unsupported_workload("interleaved I/Q byte size overflow"));
            },
        };
        if byte_count > MAX_INTERLEAVED_BYTES {
            return Err(Error::unsupported_workload("I/Q block exceeds the 64 MiB block limit"));
        }
        Ok(byte_count)
    }
}

} // verus!
