//! Provides business logic associated with cosine similarity analysis of audio samples.

pub mod decode;
pub mod internals;
pub mod properties;
pub mod search;
pub mod wide;

use crate::engines::cosine_similarity::decode::{
    lemma_without_leading_zeros, without_leading_zeros, Mp3Failure,
};
use crate::engines::cosine_similarity::internals::{Threshold, MAX_WINDOW};
use crate::engines::cosine_similarity::search::{
    anchor_index, chosen, find_anchor_sample_index, offsets_of, pass_one, pass_two, possibilities,
    starts_of, survivors, to_offsets, Hit,
};
use crate::engines::Raw;
use crate::utils::{checked_index_to_nanoseconds, nanoseconds_at};
use vstd::prelude::*;
use vstd::slice::slice_subrange;

verus! {

/// Provides business logic associated with cosine similarity analysis of audio samples.
pub struct Engine {
    options: Settings,
}

/// Parameters that tune the behavior of an analysis.
///
/// **Important:** The largest of any value supplied in the following fields
/// effectively sets the minimum length of a candidate audio file.
/// Analysis of a candidate whose sample count (after being resampled to
/// `target_sample_rate`) is below this value returns an error:
///  - `pass_one_sample_size`
///  - `pass_two_sample_size`
#[derive(Clone, Copy, Debug)]
pub struct Settings {
    /// The sample rate to target when resampling inbound candidate and target
    /// audio. 22_050hz is a good starting point, as it retains audio up to
    /// 11khz.
    pub target_sample_rate: i32,
    /// The size of the window to use when locating the most energetic region
    /// of the candidate audio. 2756 samples is approx. 125ms at 22khz.
    pub rms_window_size: usize,
    /// The number of contiguous samples compared between the candidate and
    /// target for each window in the initial "rough" pass.
    pub pass_one_sample_size: usize,
    /// The minimum cosine similarity value that must be met or exceeded to be
    /// considered a potential match.
    pub pass_one_threshold: Threshold,
    /// The number of contiguous samples compared between the candidate and
    /// target for each window in the second pass.
    pub pass_two_sample_size: usize,
    /// The minimum cosine similarity value that must be met or exceeded to be
    /// considered a match.
    pub pass_two_threshold: Threshold,
}

impl Settings {
    /// Settings that an engine can work with: a positive sample rate and
    /// anchor window, sample sizes of at most `MAX_WINDOW`, and thresholds
    /// that are fractions.
    pub open spec fn valid(&self) -> bool {
        &&& self.target_sample_rate > 0
        &&& self.rms_window_size > 0
        &&& self.pass_one_sample_size <= MAX_WINDOW
        &&& self.pass_two_sample_size <= MAX_WINDOW
        &&& self.pass_one_threshold.valid()
        &&& self.pass_two_threshold.valid()
    }

    /// Whether an engine can work with these settings.
    pub fn is_valid(&self) -> (ok: bool)
        ensures
            ok == self.valid(),
    {
        self.target_sample_rate > 0 && self.rms_window_size > 0 && self.pass_one_sample_size
            <= MAX_WINDOW && self.pass_two_sample_size <= MAX_WINDOW
            && self.pass_one_threshold.is_valid() && self.pass_two_threshold.is_valid()
    }
}

/// Error variants associated with running an engine.
#[derive(Debug)]
pub enum ErrorKind {
    /// The compressed stream could not be decoded.
    MiniMp3(Mp3Failure),
    /// The resampler failed; the text is its own description of the failure.
    Resampler(String),
    /// Inbound audio must have 1 or 2 channels.
    InvalidChannelCount { channels: usize },
    /// The engine's settings are not valid.
    InvalidSettings,
    /// The candidate has fewer samples past its anchor than a pass compares.
    CandidateTooShort,
    /// The candidate's anchor matched so early in the target that the
    /// candidate would have to start before the target does.
    MatchBeforeStart,
    /// A time in nanoseconds does not fit in 64 bits.
    TimeOutOfRange,
}

/// A boxed error resulting from a problem running an engine.
#[derive(Debug)]
pub struct Error(pub Box<ErrorKind>);

impl Error {
    /// The variant that the error holds.
    pub open spec fn kind(self) -> ErrorKind {
        *self.0
    }

    /// Boxes `kind`.
    pub fn new(kind: ErrorKind) -> (e: Error)
        ensures
            e.kind() == kind,
    {
        Error(Box::new(kind))
    }
}

impl From<ErrorKind> for Error {
    fn from(kind: ErrorKind) -> (e: Error) {
        Error(Box::new(kind))
    }
}

impl vstd::std_specs::convert::FromSpecImpl<ErrorKind> for Error {
    open spec fn obeys_from_spec() -> bool {
        true
    }

    open spec fn from_spec(kind: ErrorKind) -> Error {
        Error(Box::new(kind))
    }
}

/// Whether `result` is what `expected` describes: the same offsets, or an
/// error of the same variant.
pub open spec fn agrees(result: Result<Vec<i64>, Error>, expected: Result<Seq<i64>, ErrorKind>) -> bool {
    match (result, expected) {
        (Ok(offsets), Ok(wanted)) => offsets@ == wanted,
        (Err(error), Err(wanted)) => error.kind() == wanted,
        _ => false,
    }
}

/// The part of `candidate` that the coarse pass compares windows with: the
/// first `pass_one_sample_size` samples from the anchor on.
pub open spec fn coarse_probe(options: Settings, candidate: Seq<i16>) -> Seq<i16> {
    let anchor = anchor_index(candidate, options.rms_window_size as int);
    candidate.subrange(anchor, anchor + options.pass_one_sample_size)
}

/// The part of `candidate` that the refining pass compares windows with: the
/// first `pass_two_sample_size` samples from the anchor on.
pub open spec fn refining_probe(options: Settings, candidate: Seq<i16>) -> Seq<i16> {
    let anchor = anchor_index(candidate, options.rms_window_size as int);
    candidate.subrange(anchor, anchor + options.pass_two_sample_size)
}

/// The windows of `target` that pass both passes of `find_offsets`, each with
/// the score of the refining pass: every window start where the candidate
/// still fits is screened by the coarse pass, and those that pass it are
/// scored again by the refining pass.
pub open spec fn refined_hits(options: Settings, candidate: Seq<i16>, target: Seq<i16>) -> Seq<Hit> {
    let coarse = possibilities(
        target,
        coarse_probe(options, candidate),
        options.pass_one_threshold,
        target.len() - candidate.len(),
    );
    survivors(coarse, target, refining_probe(options, candidate), options.pass_two_threshold)
}

/// The windows of `target` that `find_offsets` settles on: of the windows
/// that pass both passes, the peak of each cluster, where a cluster reaches
/// as far as the candidate is long.
pub open spec fn found_hits(options: Settings, candidate: Seq<i16>, target: Seq<i16>) -> Seq<Hit> {
    chosen(refined_hits(options, candidate, target), candidate.len() as int)
}

/// Where the windows start that `find_offsets` settles on: the starts at
/// which the candidate's anchor window was found.
pub open spec fn found_peaks(options: Settings, candidate: Seq<i16>, target: Seq<i16>) -> Seq<usize> {
    starts_of(found_hits(options, candidate, target))
}

/// What `find_offsets` returns for an engine with the settings `options`.
///
/// A candidate at least as long as the target has no window to be compared
/// with. Otherwise the candidate's anchor is located, the peaks are found,
/// and each peak, less the anchor, is converted to nanoseconds.
pub open spec fn found_offsets(options: Settings, candidate: Seq<i16>, target: Seq<i16>) -> Result<
    Seq<i64>,
    ErrorKind,
> {
    if !options.valid() {
        Err(ErrorKind::InvalidSettings)
    } else if candidate.len() >= target.len() {
        Ok(Seq::empty())
    } else {
        let anchor = anchor_index(candidate, options.rms_window_size as int);
        if anchor + options.pass_one_sample_size > candidate.len() || anchor
            + options.pass_two_sample_size > candidate.len() {
            Err(ErrorKind::CandidateTooShort)
        } else {
            offsets_of(
                found_peaks(options, candidate, target),
                anchor,
                options.target_sample_rate as int,
            )
        }
    }
}

/// What `raw_from_samples` returns for an engine with the settings
/// `options`: the samples from the first that is not zero on, with the
/// duration that their number gives at the target sample rate.
pub open spec fn finished_raw(options: Settings, resampled: Seq<i16>) -> Result<
    (Seq<i16>, i64),
    ErrorKind,
> {
    let data = without_leading_zeros(resampled);
    let duration = nanoseconds_at(data.len() as int, options.target_sample_rate as int);
    if !options.valid() {
        Err(ErrorKind::InvalidSettings)
    } else if duration > i64::MAX {
        Err(ErrorKind::TimeOutOfRange)
    } else {
        Ok((data, duration as i64))
    }
}

/// The samples of `pieces`, one piece after the other.
pub open spec fn in_sequence(pieces: Seq<Vec<i16>>) -> Seq<i16>
    decreases pieces.len(),
{
    if pieces.len() == 0 {
        Seq::empty()
    } else {
        in_sequence(pieces.drop_last()) + pieces.last()@
    }
}

/// Constructs a new `Engine`
pub fn new(options: Settings) -> (engine: Engine)
    ensures
        engine.settings() == options,
{
    Engine { options }
}

impl Engine {
    /// The settings that the engine was constructed with.
    pub closed spec fn settings(&self) -> Settings {
        self.options
    }

    /// The settings that the engine was constructed with.
    pub fn options(&self) -> (options: &Settings)
        ensures
            *options == self.settings(),
    {
        &self.options
    }

    /// The last step of bringing audio into raw form: takes the samples as
    /// they come out of resampling, already quantized to 16 bits, drops the
    /// zero samples that precede the first sample that is not zero (trailing
    /// zeros stay), and derives the duration from what is left.
    pub fn raw_from_samples(&self, resampled: &[i16]) -> (raw: Result<Raw, Error>)
        ensures
            match finished_raw(self.settings(), resampled@) {
                Ok((data, duration)) => raw matches Ok(r) && r.data@ == data && r.duration_ns
                    == duration && r.timed_at(self.settings().target_sample_rate as int),
                Err(kind) => raw matches Err(error) && error.kind() == kind,
            },
    {
        if !self.options.is_valid() {
            return Err(Error::new(ErrorKind::InvalidSettings));
        }
        let len = resampled.len();
        let mut first: usize = 0;
        while first < len && resampled[first] == 0
            invariant
                first <= len,
                len == resampled@.len(),
                forall|i: int| 0 <= i < first ==> resampled@[i] == 0,
            decreases len - first,
        {
            first += 1;
        }
        proof {
            lemma_without_leading_zeros(resampled@, first as int);
        }
        let mut data: Vec<i16> = Vec::new();
        let mut i: usize = first;
        while i < len
            invariant
                first <= i <= len,
                len == resampled@.len(),
                data@ == resampled@.subrange(first as int, i as int),
            decreases len - i,
        {
            data.push(resampled[i]);
            proof {
                assert(resampled@.subrange(first as int, i + 1) =~= resampled@.subrange(
                    first as int,
                    i as int,
                ).push(resampled@[i as int]));
            }
            i += 1;
        }
        match checked_index_to_nanoseconds(data.len(), self.options.target_sample_rate as usize) {
            Some(duration_ns) => Ok(Raw { data, duration_ns }),
            None => Err(Error::new(ErrorKind::TimeOutOfRange)),
        }
    }

    /// Brings the resampled batches of one stream into raw form: joins them
    /// in order, and trims and times the result as `raw_from_samples` does.
    pub fn raw_from_pieces(&self, pieces: &Vec<Vec<i16>>) -> (raw: Result<Raw, Error>)
        ensures
            match finished_raw(self.settings(), in_sequence(pieces@)) {
                Ok((data, duration)) => raw matches Ok(r) && r.data@ == data && r.duration_ns
                    == duration && r.timed_at(self.settings().target_sample_rate as int),
                Err(kind) => raw matches Err(error) && error.kind() == kind,
            },
    {
        let mut joined: Vec<i16> = Vec::new();
        let mut k: usize = 0;
        while k < pieces.len()
            invariant
                k <= pieces@.len(),
                joined@ == in_sequence(pieces@.take(k as int)),
            decreases pieces@.len() - k,
        {
            let piece = &pieces[k];
            let ghost before = joined@;
            let mut i: usize = 0;
            while i < piece.len()
                invariant
                    i <= piece@.len(),
                    joined@ == before + piece@.take(i as int),
                decreases piece@.len() - i,
            {
                joined.push(piece[i]);
                proof {
                    assert(piece@.take(i + 1) =~= piece@.take(i as int).push(piece@[i as int]));
                }
                i += 1;
            }
            proof {
                assert(piece@.take(piece@.len() as int) =~= piece@);
                assert(pieces@.take(k + 1).drop_last() =~= pieces@.take(k as int));
            }
            k += 1;
        }
        proof {
            assert(pieces@.take(pieces@.len() as int) =~= pieces@);
        }
        self.raw_from_samples(joined.as_slice())
    }

    /// Not implemented. Returns the empty string.
    pub fn fingerprint(&self, _raw: &[i16]) -> (hash: Result<String, Error>)
        ensures
            hash is Ok,
            hash->Ok_0@ == Seq::<char>::empty(),
    {
        Ok(String::new())
    }

    /// Identifies positions within `target` where `candidate` is likely present.
    /// The resulting positions are expressed as nanoseconds.
    ///
    /// # General algorithm:
    ///  **1) Identify the anchor**
    ///     `Settings.rms_window_size` is used to find where the most energetic
    ///     window of `candidate` starts. This position then serves as the basis
    ///     point for subsequent analysis.
    ///
    ///  **2) Pass 1 (rough)**
    ///     `Settings.pass_one_sample_size` samples of `candidate`, starting at
    ///     the anchor, are compared with each window of `target` by cosine
    ///     similarity. Any windows that meet or exceed
    ///     `Settings.pass_one_threshold` are forwarded to pass 2.
    ///
    ///  **3) Pass 2 (final)**
    ///     The second pass compares `Settings.pass_two_sample_size` samples
    ///     against `Settings.pass_two_threshold`, and ensures that results do
    ///     not overlap: the length of the candidate is the minimum distance
    ///     between two reported matches.
    ///
    ///  **4) Convert indices to nanoseconds**
    ///     The anchor is subtracted from each match, and the result converted
    ///     to nanoseconds at `Settings.target_sample_rate`.
    ///
    /// # Errors
    ///  - `InvalidSettings` where the settings are not valid;
    ///  - `CandidateTooShort` where the candidate is shorter than the target
    ///    but has fewer samples from its anchor on than a pass compares;
    ///  - `MatchBeforeStart` where a match lies before the anchor offset, so
    ///    that the candidate would start before the target;
    ///  - `TimeOutOfRange` where an offset does not fit in 64 bits.
    ///
    /// A candidate that is at least as long as the target is found nowhere,
    /// which is no error.
    pub fn find_offsets(&self, candidate: &[i16], target: &[i16]) -> (found: Result<
        Vec<i64>,
        Error,
    >)
        ensures
            agrees(found, found_offsets(self.settings(), candidate@, target@)),
    {
        if !self.options.is_valid() {
            return Err(Error::new(ErrorKind::InvalidSettings));
        }
        if candidate.len() >= target.len() {
            return Ok(Vec::new());
        }
        let anchor = find_anchor_sample_index(candidate, self.options.rms_window_size);
        let left = candidate.len() - anchor;
        if self.options.pass_one_sample_size > left || self.options.pass_two_sample_size > left {
            return Err(Error::new(ErrorKind::CandidateTooShort));
        }
        let limit = target.len() - candidate.len();
        let coarse = pass_one(
            target,
            slice_subrange(candidate, anchor, anchor + self.options.pass_one_sample_size),
            &self.options.pass_one_threshold,
            limit,
        );
        proof {
            search::lemma_possibilities_below(
                target@,
                candidate@.subrange(
                    anchor as int,
                    anchor + self.options.pass_one_sample_size,
                ),
                self.options.pass_one_threshold,
                limit as int,
            );
        }
        let found = pass_two(
            &coarse,
            target,
            slice_subrange(candidate, anchor, anchor + self.options.pass_two_sample_size),
            &self.options.pass_two_threshold,
            candidate.len(),
        );
        to_offsets(&found, anchor, self.options.target_sample_rate as usize)
    }
}

} // verus!
