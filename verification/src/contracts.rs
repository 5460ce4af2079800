//! The messages that describe a unit of research: what is to be analysed, and
//! what the analysis found.

use vstd::prelude::*;

verus! {

/// An episode: the recording that clips are searched in.
#[derive(Debug)]
pub struct EpisodeInfo {
    /// Where the episode's audio is to be had.
    pub media_uri: String,
}

impl EpisodeInfo {
    /// A copy of the episode's description.
    pub fn duplicate(&self) -> (copy: EpisodeInfo)
        ensures
            copy == *self,
    {
        EpisodeInfo { media_uri: self.media_uri.clone() }
    }
}

/// A clip: the short piece of audio that is searched for.
#[derive(Debug)]
pub struct ClipInfo {
    /// Where the clip's audio is to be had.
    pub media_uri: String,
}

impl ClipInfo {
    /// A copy of the clip's description.
    pub fn duplicate(&self) -> (copy: ClipInfo)
        ensures
            copy == *self,
    {
        ClipInfo { media_uri: self.media_uri.clone() }
    }
}

/// A unit of work: one episode and the clips to be looked for in it.
#[derive(Debug)]
pub struct PendingResearchItem {
    /// Identifies the lease under which the work is done.
    pub lease_id: String,
    /// The episode to search in.
    pub episode: EpisodeInfo,
    /// The clips to search for, in the order in which they are reported.
    pub clips: Vec<ClipInfo>,
}

/// What the analysis of one clip against one episode found.
#[derive(Debug)]
pub struct CompletedResearchItem {
    /// The lease of the unit of work that this result belongs to.
    pub lease_id: String,
    /// The episode that was searched.
    pub episode_info: EpisodeInfo,
    /// The clip that was searched for.
    pub clip_info: ClipInfo,
    /// The duration of the episode's audio, in nanoseconds.
    pub episode_duration: i64,
    /// The fingerprint of the episode's audio.
    pub episode_hash: String,
    /// The duration of the clip's audio, in nanoseconds.
    pub clip_duration: i64,
    /// The fingerprint of the clip's audio.
    pub clip_hash: String,
    /// Where in the episode the clip occurs, as nanoseconds from its start.
    pub clip_offsets: Vec<i64>,
}

impl CompletedResearchItem {
    /// Whether this is a result for the clip at position `k` of `pri`: it
    /// names the lease and the episode of `pri`, and that clip.
    pub open spec fn is_for(&self, pri: &PendingResearchItem, k: int) -> bool {
        &&& 0 <= k < pri.clips@.len()
        &&& self.lease_id == pri.lease_id
        &&& self.episode_info == pri.episode
        &&& self.clip_info == pri.clips@[k]
    }
}

} // verus!
