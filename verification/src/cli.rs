//! The options that a run is made with.

use crate::bit::BitDistribution;
use crate::steg::StegMethod;
use vstd::prelude::*;

verus! {

/// Why a set of options was not taken.
#[derive(Debug, Clone, Copy, PartialEq, Eq, Structural)]
pub enum ConfigError {
    /// The maximum bit to modify, as given, lies outside 1-4.
    MaxBit(u8),
    /// The random-significant-bit method was chosen without a maximum bit.
    MissingMaxBit,
    /// The random-significant-bit method was chosen without a seed.
    MissingSeed,
}

/// The options of a run.
pub struct CLI {
    /// Decode a message from an image.
    pub decode: bool,
    /// Compress/decompress data.
    pub compress: bool,
    /// Check max message size that can be encoded with options given.
    pub check_max_length: bool,
    /// Method to use for encoding (lsb, rsb).
    pub method: StegMethod,
    /// Method for bit distribution (sequential, linear (linear-N when
    /// decoding)).
    pub distribution: BitDistribution,
    /// Seed for random significant bit encoding.
    pub seed: Option<String>,
    /// Maximum bit to possibly modify (1-4).
    pub max_bit: Option<u8>,
    /// Output file, standard output if not present.
    pub output: Option<String>,
    /// Input file to encode, standard input if not present.
    pub input: Option<String>,
    /// Input image.
    pub image: String,
}

impl CLI {
    /// What `validate` finds: a maximum bit outside 1-4, if one is given.
    pub open spec fn checked(&self) -> Result<(), ConfigError> {
        match self.max_bit {
            Some(n) => if 1 <= n <= 4 {
                Ok(())
            } else {
                Err(ConfigError::MaxBit(n))
            },
            None => Ok(()),
        }
    }

    /// What `check_complete` finds: what `validate` finds and, for the
    /// random-significant-bit method, a missing maximum bit or seed.
    pub open spec fn complete(&self) -> Result<(), ConfigError> {
        match self.checked() {
            Err(e) => Err(e),
            Ok(()) => if self.method is RandomSignificantBit {
                if self.max_bit is None {
                    Err(ConfigError::MissingMaxBit)
                } else if self.seed is None {
                    Err(ConfigError::MissingSeed)
                } else {
                    Ok(())
                }
            } else {
                Ok(())
            },
        }
    }

    /// Checks the options before anything is made from them.
    pub fn validate(&self) -> (r: Result<(), ConfigError>)
        ensures
            r == self.checked(),
    {
        if let Some(n) = self.max_bit {
            if n < 1 || n > 4 {
                return Err(ConfigError::MaxBit(n));
            }
        }
        Ok(())
    }

    /// Checks that the options are valid and hold what the chosen method
    /// needs, before a strategy is made from them: for the
    /// random-significant-bit method a maximum bit within 1-4 and a seed.
    pub fn check_complete(&self) -> (r: Result<(), ConfigError>)
        ensures
            r == self.complete(),
    {
        match self.validate() {
            Err(e) => Err(e),
            Ok(()) => match self.method {
                StegMethod::LeastSignificantBit => Ok(()),
                StegMethod::RandomSignificantBit => {
                    if self.max_bit.is_none() {
                        Err(ConfigError::MissingMaxBit)
                    } else if self.seed.is_none() {
                        Err(ConfigError::MissingSeed)
                    } else {
                        Ok(())
                    }
                },
            },
        }
    }
}

} // verus!
