//! Engines implement domain-specific logic, such as audio analysis.

pub mod cosine_similarity;

use crate::engines::cosine_similarity::Error;
use crate::utils::nanoseconds_at;
use vstd::prelude::*;

verus! {

/// A container for raw decoded audio data and metadata associated with the
/// audio.
#[derive(Debug)]
pub struct Raw {
    /// The raw monaural audio samples.
    pub data: Vec<i16>,
    /// The duration of the audio in `data` expressed in nanoseconds.
    pub duration_ns: i64,
}

impl Raw {
    /// The duration is the one that the number of samples gives at
    /// `sample_rate`: it is derived from the samples, never chosen.
    pub open spec fn timed_at(&self, sample_rate: int) -> bool {
        self.duration_ns == nanoseconds_at(self.data@.len() as int, sample_rate)
    }
}

/// An `Analyzer` represents something that is able to manipulate and analyze audio data.
pub trait Analyzer {
    /// Takes a byte vector representation of a raw mp3 file, and converts it to raw 16-bit mono
    /// audio data.
    fn mp3_to_raw(&self, mp3: &[u8]) -> Result<Raw, Error>;

    /// Takes 16bit raw audio data and calculates its perceptual hash.
    fn fingerprint(&self, raw: &[i16]) -> Result<String, Error>;

    /// Searches for any likely occurences of `candidate` within `target` and returns the position
    /// of each occurence as a vector of nanosecond offsets.
    fn find_offsets(&self, candidate: &[i16], target: &[i16]) -> Result<Vec<i64>, Error>;
}

} // verus!
