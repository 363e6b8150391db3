//! Cost parameters of Argon2id and the rule that resolves an optional override.

use vstd::prelude::*;

verus! {

/// Default memory cost, in blocks of 1 KiB.
pub const DEFAULT_MEMORY_COST: u32 = 19456;

/// Default number of passes.
pub const DEFAULT_TIME_COST: u32 = 2;

/// Default number of lanes.
pub const DEFAULT_PARALLELISM: u32 = 1;

/// Default digest length in bytes.
pub const DEFAULT_OUTPUT_LENGTH: usize = 32;

/// Length in bytes of a freshly drawn salt.
pub const DEFAULT_SALT_LENGTH: usize = 16;

/// Smallest memory cost the algorithm accepts.
pub const MIN_MEMORY_COST: u32 = 8;

/// Largest number of lanes the algorithm accepts.
pub const MAX_PARALLELISM: u32 = 0xFF_FFFF;

/// Shortest digest that the text form of a hash can carry.
pub const MIN_OUTPUT_LENGTH: usize = 10;

/// Longest digest that the text form of a hash can carry.
pub const MAX_OUTPUT_LENGTH: usize = 64;

/// Shortest salt the algorithm accepts, in bytes.
pub const MIN_SALT_LENGTH: usize = 8;

/// Longest salt that the text form of a hash can carry, in bytes.
pub const MAX_SALT_LENGTH: usize = 48;

/// Longest password, in bytes, that the algorithm accepts.
pub const MAX_PASSWORD_LENGTH: usize = 0xFFFF_FFFF;

/// The cost parameters of one hash computation.
#[derive(Clone, Copy, Debug, PartialEq, Eq)]
pub struct Parameters {
    pub memory_cost: u32,
    pub time_cost: u32,
    pub parallelism: u32,
    pub output_length: usize,
}

/// The error for cost parameters outside the algorithm's ranges.
#[derive(Clone, Copy, Debug, PartialEq, Eq)]
pub struct ParameterError;

/// The ranges of the four cost parameters: at least 8 blocks of memory and at
/// least 8 per lane, at least one pass, between 1 and 2^24 - 1 lanes, and a
/// digest of 10 to 64 bytes.
pub open spec fn valid_costs(
    memory_cost: u32,
    time_cost: u32,
    parallelism: u32,
    output_length: usize,
) -> bool {
    &&& memory_cost >= MIN_MEMORY_COST
    &&& 1 <= parallelism <= MAX_PARALLELISM
    &&& memory_cost >= 8 * parallelism
    &&& time_cost >= 1
    &&& MIN_OUTPUT_LENGTH <= output_length <= MAX_OUTPUT_LENGTH
}

/// The salt lengths, in bytes, that a hash can be made with.
pub open spec fn valid_salt_length(length: nat) -> bool {
    MIN_SALT_LENGTH <= length <= MAX_SALT_LENGTH
}

impl Parameters {
    /// Whether every field lies in its range.
    pub open spec fn valid(&self) -> bool {
        valid_costs(self.memory_cost, self.time_cost, self.parallelism, self.output_length)
    }

    /// The parameters used where the caller gives none.
    pub open spec fn default_spec() -> Parameters {
        Parameters {
            memory_cost: DEFAULT_MEMORY_COST,
            time_cost: DEFAULT_TIME_COST,
            parallelism: DEFAULT_PARALLELISM,
            output_length: DEFAULT_OUTPUT_LENGTH,
        }
    }

    /// The parameters used where the caller gives none.
    pub fn recommended() -> (r: Parameters)
        ensures
            r == Parameters::default_spec(),
            r.valid(),
    {
        Parameters {
            memory_cost: DEFAULT_MEMORY_COST,
            time_cost: DEFAULT_TIME_COST,
            parallelism: DEFAULT_PARALLELISM,
            output_length: DEFAULT_OUTPUT_LENGTH,
        }
    }

    /// Tests the ranges of the four fields.
    pub fn is_valid(&self) -> (r: bool)
        ensures
            r == self.valid(),
    {
        costs_in_range(self.memory_cost, self.time_cost, self.parallelism, self.output_length)
    }
}

/// Tests the ranges of four cost values.
pub fn costs_in_range(memory_cost: u32, time_cost: u32, parallelism: u32, output_length: usize) -> (r:
    bool)
    ensures
        r == valid_costs(memory_cost, time_cost, parallelism, output_length),
{
    memory_cost >= MIN_MEMORY_COST && parallelism >= 1 && parallelism <= MAX_PARALLELISM
        && memory_cost / 8 >= parallelism && time_cost >= 1 && output_length >= MIN_OUTPUT_LENGTH
        && output_length <= MAX_OUTPUT_LENGTH
}

/// What an optional override resolves to: the defaults where there is none,
/// the override itself where it is valid, and otherwise nothing.
pub open spec fn resolved(params: Option<Parameters>) -> Option<Parameters> {
    match params {
        None => Some(Parameters::default_spec()),
        Some(p) => if p.valid() {
            Some(p)
        } else {
            None
        },
    }
}

/// Resolves an optional override of the cost parameters. Without one the
/// defaults are returned; an override is returned unchanged when each of its
/// fields is in range, and refused otherwise: nothing is clamped.
pub fn resolve_parameters(params: &Option<Parameters>) -> (r: Result<Parameters, ParameterError>)
    ensures
        r == match resolved(*params) {
            Some(p) => Ok::<Parameters, ParameterError>(p),
            None => Err::<Parameters, ParameterError>(ParameterError),
        },
        r matches Ok(p) ==> p.valid(),
{
    match params {
        None => Ok(Parameters::recommended()),
        Some(p) => {
            if p.is_valid() {
                Ok(*p)
            } else {
                Err(ParameterError)
            }
        },
    }
}

} // verus!
