//! contains the typical concrete manager implementation.

use crate::accessors::{AccessorError, FromURI};
use crate::contracts::{ClipInfo, CompletedResearchItem, PendingResearchItem};
use crate::engines::cosine_similarity::Error;
use crate::engines::{Analyzer, Raw};
use crate::errors::AnalyzerError;
use crate::managers::Runner;
use vstd::prelude::*;

verus! {

/// `cancel::Token`: a flag by which a running analysis is asked to stop.
/// Nothing of its state is visible here.
#[verifier::external_type_specification]
#[verifier::external_body]
pub struct ExToken(cancel::Token);

/// `cancel::Token::is_canceled`: whether the token has been canceled, or its
/// deadline has passed. The answer depends on what other holders of the
/// token have done and on the clock, so nothing is claimed of it.
pub assume_specification[ cancel::Token::is_canceled ](token: &cancel::Token) -> bool
;

/// What a run emits: for each clip that was processed either what was found
/// or why the clip failed, and for an episode that failed the one error.
pub type Emission = Result<CompletedResearchItem, AnalyzerError>;

/// Audio that was fetched, decoded and fingerprinted: the raw audio and its
/// fingerprint, or the error of the step that failed.
pub type Loaded = Result<(Raw, String), AnalyzerError>;

/// How far the processing of an episode's clips got.
#[derive(Clone, Copy, Debug, PartialEq, Eq)]
pub struct Progress {
    /// The number of clips that were processed, each with one emission.
    pub processed: usize,
    /// Whether a cancellation was seen before a clip, which ended the
    /// processing there.
    pub canceled: bool,
}

/// An `AnalysisManager` orchestrates the process conducing the analysis prescribed
/// by a `PendingResearchItem`.
pub struct AnalysisManager<A, U> where A: Analyzer, U: FromURI {
    analyzer_engine: A,
    uri_accessor: U,
}

/// Whether `fetched` is an answer of the accessor to a request for `uri`.
pub open spec fn fetched_as<U: FromURI>(
    accessor: &U,
    uri: String,
    fetched: Result<Vec<u8>, AccessorError>,
) -> bool {
    call_ensures(U::get, (accessor, uri), fetched)
}

/// Whether `decoded` is an answer of the engine when it is handed the bytes
/// `mp3` to decode.
pub open spec fn decoded_as<A: Analyzer>(engine: &A, mp3: Seq<u8>, decoded: Result<Raw, Error>) -> bool {
    exists|bytes: &[u8]|
        bytes@ == mp3 && #[trigger] call_ensures(A::mp3_to_raw, (engine, bytes), decoded)
}

/// Whether `hash` is an answer of the engine when it is handed the samples
/// `raw` to fingerprint.
pub open spec fn fingerprinted_as<A: Analyzer>(
    engine: &A,
    raw: Seq<i16>,
    hash: Result<String, Error>,
) -> bool {
    exists|samples: &[i16]|
        samples@ == raw && #[trigger] call_ensures(A::fingerprint, (engine, samples), hash)
}

/// Whether `found` is an answer of the engine when it is handed `candidate`
/// to search for in `target`.
pub open spec fn searched_as<A: Analyzer>(
    engine: &A,
    candidate: Seq<i16>,
    target: Seq<i16>,
    found: Result<Vec<i64>, Error>,
) -> bool {
    exists|clip: &[i16], episode: &[i16]|
        clip@ == candidate && episode@ == target && #[trigger] call_ensures(
            A::find_offsets,
            (engine, clip, episode),
            found,
        )
}

/// Whether `canceled` is an answer of the token to the question whether the
/// analysis is to stop.
pub open spec fn answered(ctx: &cancel::Token, canceled: bool) -> bool {
    call_ensures(cancel::Token::is_canceled, (ctx,), canceled)
}

/// Loading, step by step: the accessor answers `fetched` for `uri`; bytes that
/// were fetched are decoded, with the answer `decoded`; audio that was
/// decoded is fingerprinted, with the answer `hash`. The first step that
/// fails gives its error, as the accessor's or the engine's; otherwise the
/// raw audio and its fingerprint are `loaded`.
pub open spec fn load_steps<A: Analyzer, U: FromURI>(
    engine: &A,
    accessor: &U,
    uri: String,
    fetched: Result<Vec<u8>, AccessorError>,
    decoded: Result<Raw, Error>,
    hash: Result<String, Error>,
    loaded: Loaded,
) -> bool {
    &&& fetched_as(accessor, uri, fetched)
    &&& match fetched {
        Err(e) => loaded == Err::<(Raw, String), AnalyzerError>(AnalyzerError::Accessor(e)),
        Ok(mp3) => decoded_as(engine, mp3@, decoded) && match decoded {
            Err(e) => loaded == Err::<(Raw, String), AnalyzerError>(AnalyzerError::Engine(e)),
            Ok(raw) => fingerprinted_as(engine, raw.data@, hash) && match hash {
                Err(e) => loaded == Err::<(Raw, String), AnalyzerError>(AnalyzerError::Engine(e)),
                Ok(print) => loaded == Ok::<(Raw, String), AnalyzerError>((raw, print)),
            },
        },
    }
}

/// Whether `loaded` is what fetching the audio at `uri`, decoding it and
/// fingerprinting it gives, for some answers of the accessor and the engine
/// to exactly these requests.
pub open spec fn loaded_as<A: Analyzer, U: FromURI>(
    engine: &A,
    accessor: &U,
    uri: String,
    loaded: Loaded,
) -> bool {
    exists|fetched: Result<Vec<u8>, AccessorError>, decoded: Result<Raw, Error>, hash: Result<String, Error>|
        #[trigger] load_steps(engine, accessor, uri, fetched, decoded, hash, loaded)
}

/// The result for the clip `clip` of `pri`, from what the episode and the
/// clip gave.
pub open spec fn completed_item(
    pri: &PendingResearchItem,
    clip: ClipInfo,
    episode_duration: i64,
    episode_fingerprint: String,
    clip_duration: i64,
    clip_fingerprint: String,
    offsets: Vec<i64>,
) -> CompletedResearchItem {
    CompletedResearchItem {
        lease_id: pri.lease_id,
        episode_info: pri.episode,
        clip_info: clip,
        episode_duration,
        episode_hash: episode_fingerprint,
        clip_duration,
        clip_hash: clip_fingerprint,
        clip_offsets: offsets,
    }
}

/// The analysis of one clip, step by step: the clip is loaded, with the
/// outcome `loaded`; a clip that was loaded is searched for in the episode's
/// audio, with the engine's answer `found`. A step that fails gives its error
/// as the emission; otherwise the emission is the completed item.
pub open spec fn clip_steps<A: Analyzer, U: FromURI>(
    engine: &A,
    accessor: &U,
    pri: &PendingResearchItem,
    episode_raw: Raw,
    episode_fingerprint: String,
    clip: ClipInfo,
    loaded: Loaded,
    found: Result<Vec<i64>, Error>,
    emission: Emission,
) -> bool {
    &&& loaded_as(engine, accessor, clip.media_uri, loaded)
    &&& match loaded {
        Err(e) => emission == Err::<CompletedResearchItem, AnalyzerError>(e),
        Ok((clip_raw, clip_fingerprint)) => searched_as(
            engine,
            clip_raw.data@,
            episode_raw.data@,
            found,
        ) && match found {
            Err(e) => emission == Err::<CompletedResearchItem, AnalyzerError>(
                AnalyzerError::Engine(e),
            ),
            Ok(offsets) => emission == Ok::<CompletedResearchItem, AnalyzerError>(
                completed_item(
                    pri,
                    clip,
                    episode_raw.duration_ns,
                    episode_fingerprint,
                    clip_raw.duration_ns,
                    clip_fingerprint,
                    offsets,
                ),
            ),
        },
    }
}

/// Whether `emission` is what the analysis of `clip` against the episode's
/// audio gives, for some answers of the accessor and the engine: the clip's
/// own error where fetching, decoding, fingerprinting or searching failed,
/// and otherwise the item with the clip's duration and fingerprint and the
/// offsets that the engine found for the clip in the episode.
pub open spec fn clip_outcome<A: Analyzer, U: FromURI>(
    engine: &A,
    accessor: &U,
    pri: &PendingResearchItem,
    episode_raw: Raw,
    episode_fingerprint: String,
    clip: ClipInfo,
    emission: Emission,
) -> bool {
    exists|loaded: Loaded, found: Result<Vec<i64>, Error>|
        #[trigger] clip_steps(
            engine,
            accessor,
            pri,
            episode_raw,
            episode_fingerprint,
            clip,
            loaded,
            found,
            emission,
        )
}

/// The pass over an episode, given how loading the episode went. An episode
/// that could not be loaded ends the pass with its error and without an
/// emission. Otherwise the clips are processed in order, each with its own
/// outcome as its emission, whether it failed or not. The pass ends before a
/// clip only where the token answered that the analysis is canceled, and it
/// processes a clip only where the token answered that it is not.
pub open spec fn pass_steps<A: Analyzer, U: FromURI>(
    engine: &A,
    accessor: &U,
    ctx: &cancel::Token,
    pri: &PendingResearchItem,
    before: Seq<Emission>,
    after: Seq<Emission>,
    progress: Result<Progress, AnalyzerError>,
    loaded: Loaded,
) -> bool {
    &&& loaded_as(engine, accessor, pri.episode.media_uri, loaded)
    &&& match loaded {
        Err(e) => progress == Err::<Progress, AnalyzerError>(e) && after == before,
        Ok((episode_raw, episode_fingerprint)) => {
            &&& progress matches Ok(p)
            &&& p.processed <= pri.clips@.len()
            &&& p.canceled <==> p.processed < pri.clips@.len()
            &&& p.canceled ==> answered(ctx, true)
            &&& p.processed > 0 ==> answered(ctx, false)
            &&& after.len() == before.len() + p.processed
            &&& after.subrange(0, before.len() as int) == before
            &&& forall|k: int|
                0 <= k < p.processed ==> clip_outcome(
                    engine,
                    accessor,
                    pri,
                    episode_raw,
                    episode_fingerprint,
                    pri.clips@[k],
                    #[trigger] after[before.len() + k],
                )
        },
    }
}

/// Whether a pass over the episode of `pri` can end with `progress`, having
/// added to the emissions `before` so that they are `after`.
pub open spec fn pass_outcome<A: Analyzer, U: FromURI>(
    engine: &A,
    accessor: &U,
    ctx: &cancel::Token,
    pri: &PendingResearchItem,
    before: Seq<Emission>,
    after: Seq<Emission>,
    progress: Result<Progress, AnalyzerError>,
) -> bool {
    exists|loaded: Loaded|
        #[trigger] pass_steps(engine, accessor, ctx, pri, before, after, progress, loaded)
}

/// What a run returns after a pass that emitted `passed` and ended with
/// `progress`: the emissions of the pass, and after them the error of a pass
/// that failed.
pub open spec fn emitted_after(
    passed: Seq<Emission>,
    progress: Result<Progress, AnalyzerError>,
) -> Seq<Emission> {
    match progress {
        Ok(_) => passed,
        Err(e) => passed.push(Err(e)),
    }
}

/// Whether `sent` is what a run over `pri` can return: what a pass that
/// started without emissions emitted, closed by the error of a pass that
/// failed.
pub open spec fn run_outcome<A: Analyzer, U: FromURI>(
    engine: &A,
    accessor: &U,
    ctx: &cancel::Token,
    pri: &PendingResearchItem,
    sent: Seq<Emission>,
) -> bool {
    exists|passed: Seq<Emission>, progress: Result<Progress, AnalyzerError>|
        #[trigger] pass_outcome(
            engine,
            accessor,
            ctx,
            pri,
            Seq::<Emission>::empty(),
            passed,
            progress,
        ) && sent == emitted_after(passed, progress)
}

/// Returns a new `AnalysisManager`.
pub fn new<A, U>(analyzer_engine: A, uri_accessor: U) -> (manager: AnalysisManager<A, U>) where
    A: Analyzer,
    U: FromURI,

    ensures
        manager.engine() == analyzer_engine,
        manager.accessor() == uri_accessor,
{
    AnalysisManager { analyzer_engine, uri_accessor }
}

/// The result for one clip, assembled from what the episode and the clip gave.
pub fn completed(
    pri: &PendingResearchItem,
    clip: &ClipInfo,
    episode_duration: i64,
    episode_fingerprint: &String,
    clip_duration: i64,
    clip_fingerprint: String,
    offsets: Vec<i64>,
) -> (cri: CompletedResearchItem)
    ensures
        cri == completed_item(
            pri,
            *clip,
            episode_duration,
            *episode_fingerprint,
            clip_duration,
            clip_fingerprint,
            offsets,
        ),
{
    CompletedResearchItem {
        lease_id: pri.lease_id.clone(),
        episode_info: pri.episode.duplicate(),
        clip_info: clip.duplicate(),
        episode_duration,
        episode_hash: episode_fingerprint.clone(),
        clip_duration,
        clip_hash: clip_fingerprint,
        clip_offsets: offsets,
    }
}

/// The check at a clip boundary: whether the clip at `position`, of `clips`
/// clips, is to be started, given whether a cancellation was seen. A clip is
/// started where there is one left and no cancellation was seen; a
/// cancellation that was seen stops the pass before the clip, also before the
/// first.
pub fn may_start(position: usize, clips: usize, canceled: bool) -> (start: bool)
    ensures
        start == (position < clips && !canceled),
{
    position < clips && !canceled
}

/// Closes a run: returns the emissions of the pass, and after them the error
/// of a pass that failed. A failed episode emitted nothing, so that its error
/// is then the one emission.
pub fn emitted(tx: Vec<Emission>, progress: Result<Progress, AnalyzerError>) -> (sent: Vec<Emission>)
    ensures
        sent@ == emitted_after(tx@, progress),
{
    let mut tx = tx;
    match progress {
        Ok(_) => {},
        Err(err) => {
            tx.push(Err(err));
        },
    }
    tx
}

/// Whether the emissions of `sent` from position `before` on are one for each
/// of the first clips of `pri`, in the clips' order: the emission for a clip
/// is either an error or a result for that very clip.
pub open spec fn in_clip_order(sent: Seq<Emission>, before: int, pri: &PendingResearchItem) -> bool {
    &&& before <= sent.len() <= before + pri.clips@.len()
    &&& forall|k: int|
        before <= k < sent.len() ==> ((#[trigger] sent[k]) matches Ok(cri) ==> cri.is_for(
            pri,
            k - before,
        ))
}

/// Whether the results among the emissions of `sent` from position `before`
/// on all carry the duration `duration` and the fingerprint `fingerprint` for
/// the episode.
pub open spec fn of_episode(
    sent: Seq<Emission>,
    before: int,
    duration: i64,
    fingerprint: String,
) -> bool {
    forall|k: int|
        before <= k < sent.len() ==> ((#[trigger] sent[k]) matches Ok(cri) ==> cri.episode_duration
            == duration && cri.episode_hash == fingerprint)
}

/// Whether the results among the emissions of `sent` from position `before`
/// on agree on the episode's duration and fingerprint: the episode was
/// decoded once, for all of them.
pub open spec fn of_one_episode(sent: Seq<Emission>, before: int) -> bool {
    forall|j: int, k: int|
        before <= j < sent.len() && before <= k < sent.len() ==> ((#[trigger] sent[j]) matches Ok(
            first,
        ) ==> ((#[trigger] sent[k]) matches Ok(second) ==> first.episode_duration
            == second.episode_duration && first.episode_hash == second.episode_hash))
}

impl<A, U> AnalysisManager<A, U> where A: Analyzer, U: FromURI {
    /// The engine that the manager analyses audio with.
    pub closed spec fn engine(&self) -> A {
        self.analyzer_engine
    }

    /// The accessor that the manager fetches audio with.
    pub closed spec fn accessor(&self) -> U {
        self.uri_accessor
    }

    /// Starts the analysis process, returning the completed research and the
    /// errors in the order in which they were emitted. To cleanly interrupt
    /// and halt the operation of a running analysis, a cancellation should be
    /// broadcast via the `ctx` object.
    ///
    /// An episode that cannot be fetched or decoded ends the run with that one
    /// error. Otherwise there is one emission for each clip that was reached
    /// before a cancellation was seen, in the clips' order; a clip that fails
    /// is reported by its error and does not keep the later clips from being
    /// processed.
    pub fn run(&self, ctx: &cancel::Token, pri: &PendingResearchItem) -> (sent: Vec<Emission>)
        ensures
            run_outcome(&self.engine(), &self.accessor(), ctx, pri, sent@),
            in_clip_order(sent@, 0, pri) || (sent@.len() == 1 && sent@[0] is Err),
            of_one_episode(sent@, 0),
    {
        let mut tx: Vec<Emission> = Vec::new();
        let progress = self.process_episode(ctx, pri, &mut tx);
        emitted(tx, progress)
    }

    /// Fetches the audio at `uri`, decodes it and fingerprints it. The first
    /// of the three steps that fails ends the loading with its error.
    pub fn load(&self, uri: &String) -> (loaded: Loaded)
        ensures
            loaded_as(&self.engine(), &self.accessor(), *uri, loaded),
    {
        let fetched = self.uri_accessor.get(uri.clone());
        let ghost fetched_answer = fetched;
        let mp3_data = match fetched {
            Ok(data) => data,
            Err(err) => {
                let failure = AnalyzerError::Accessor(err);
                proof {
                    assert(load_steps(
                        &self.engine(),
                        &self.accessor(),
                        *uri,
                        fetched_answer,
                        arbitrary(),
                        arbitrary(),
                        Err(failure),
                    ));
                }
                return Err(failure);
            },
        };
        let decoded = self.analyzer_engine.mp3_to_raw(mp3_data.as_slice());
        let ghost decoded_answer = decoded;
        let raw = match decoded {
            Ok(raw) => raw,
            Err(err) => {
                let failure = AnalyzerError::Engine(err);
                proof {
                    assert(load_steps(
                        &self.engine(),
                        &self.accessor(),
                        *uri,
                        fetched_answer,
                        decoded_answer,
                        arbitrary(),
                        Err(failure),
                    ));
                }
                return Err(failure);
            },
        };
        let hash = self.analyzer_engine.fingerprint(raw.data.as_slice());
        let ghost hash_answer = hash;
        match hash {
            Ok(print) => {
                let loaded = Ok((raw, print));
                proof {
                    assert(load_steps(
                        &self.engine(),
                        &self.accessor(),
                        *uri,
                        fetched_answer,
                        decoded_answer,
                        hash_answer,
                        loaded,
                    ));
                }
                loaded
            },
            Err(err) => {
                let failure = AnalyzerError::Engine(err);
                proof {
                    assert(load_steps(
                        &self.engine(),
                        &self.accessor(),
                        *uri,
                        fetched_answer,
                        decoded_answer,
                        hash_answer,
                        Err(failure),
                    ));
                }
                Err(failure)
            },
        }
    }

    /// Fetches and decodes the episode, then processes the clips in order,
    /// appending one emission per clip to `tx`, until the clips are done or a
    /// cancellation is seen before a clip. Returns how far it got, or the
    /// error that kept the episode from being had, in which case nothing is
    /// emitted.
    ///
    /// Only a cancellation ends the processing early: unless one was seen,
    /// every clip has its emission, whether it failed or not.
    pub fn process_episode(
        &self,
        ctx: &cancel::Token,
        pri: &PendingResearchItem,
        tx: &mut Vec<Emission>,
    ) -> (progress: Result<Progress, AnalyzerError>)
        ensures
            pass_outcome(
                &self.engine(),
                &self.accessor(),
                ctx,
                pri,
                old(tx)@,
                final(tx)@,
                progress,
            ),
            final(tx)@.len() >= old(tx)@.len(),
            final(tx)@.subrange(0, old(tx)@.len() as int) == old(tx)@,
            progress is Err ==> final(tx)@ == old(tx)@,
            progress matches Ok(p) ==> {
                &&& final(tx)@.len() == old(tx)@.len() + p.processed
                &&& p.canceled ==> p.processed < pri.clips@.len()
                &&& !p.canceled ==> p.processed == pri.clips@.len()
            },
            in_clip_order(final(tx)@, old(tx)@.len() as int, pri),
            of_one_episode(final(tx)@, old(tx)@.len() as int),
    {
        let ghost before = tx@;
        proof {
            assert(tx@.subrange(0, before.len() as int) =~= before);
        }
        let loaded = self.load(&pri.episode.media_uri);
        let ghost loaded_answer = loaded;
        let (episode_raw, episode_fingerprint) = match loaded {
            Ok(pair) => pair,
            Err(err) => {
                proof {
                    assert(pass_steps(
                        &self.engine(),
                        &self.accessor(),
                        ctx,
                        pri,
                        before,
                        tx@,
                        Err(err),
                        loaded_answer,
                    ));
                }
                return Err(err);
            },
        };
        let mut k: usize = 0;
        let mut canceled = false;
        while k < pri.clips.len() && !canceled
            invariant
                k <= pri.clips@.len(),
                canceled ==> k < pri.clips@.len(),
                canceled ==> answered(ctx, true),
                k > 0 ==> answered(ctx, false),
                tx@.subrange(0, before.len() as int) == before,
                tx@.len() == before.len() + k,
                in_clip_order(tx@, before.len() as int, pri),
                of_episode(tx@, before.len() as int, episode_raw.duration_ns, episode_fingerprint),
                forall|j: int|
                    0 <= j < k ==> clip_outcome(
                        &self.engine(),
                        &self.accessor(),
                        pri,
                        episode_raw,
                        episode_fingerprint,
                        pri.clips@[j],
                        #[trigger] tx@[before.len() + j],
                    ),
            decreases
                    pri.clips@.len() - k + if canceled {
                        0int
                    } else {
                        1int
                    },
        {
            let seen = ctx.is_canceled();
            if may_start(k, pri.clips.len(), seen) {
                let ghost sent = tx@;
                let emission = self.process_clip(
                    pri,
                    &episode_raw,
                    &episode_fingerprint,
                    &pri.clips[k],
                );
                tx.push(emission);
                proof {
                    assert(tx@.subrange(0, before.len() as int) =~= sent.subrange(
                        0,
                        before.len() as int,
                    ));
                    assert forall|j: int| before.len() <= j < tx@.len() implies ((
                    #[trigger] tx@[j]) matches Ok(cri) ==> {
                        &&& cri.is_for(pri, j - before.len())
                        &&& cri.episode_duration == episode_raw.duration_ns
                        &&& cri.episode_hash == episode_fingerprint
                    }) by {
                        if j < sent.len() {
                            assert(tx@[j] == sent[j]);
                        }
                    }
                    assert forall|j: int| 0 <= j < k + 1 implies clip_outcome(
                        &self.engine(),
                        &self.accessor(),
                        pri,
                        episode_raw,
                        episode_fingerprint,
                        pri.clips@[j],
                        #[trigger] tx@[before.len() + j],
                    ) by {
                        if j < k {
                            assert(tx@[before.len() + j] == sent[before.len() + j]);
                        }
                    }
                }
                k += 1;
            } else {
                canceled = true;
            }
        }
        let progress = Progress { processed: k, canceled };
        proof {
            assert(pass_steps(
                &self.engine(),
                &self.accessor(),
                ctx,
                pri,
                before,
                tx@,
                Ok(progress),
                loaded_answer,
            ));
        }
        Ok(progress)
    }

    /// Fetches and decodes one clip and searches for it in the episode. Any
    /// failure on the way is the clip's own: it is returned as the error for
    /// this clip.
    pub fn process_clip(
        &self,
        pri: &PendingResearchItem,
        episode_raw: &Raw,
        episode_fingerprint: &String,
        clip: &ClipInfo,
    ) -> (emission: Emission)
        ensures
            clip_outcome(
                &self.engine(),
                &self.accessor(),
                pri,
                *episode_raw,
                *episode_fingerprint,
                *clip,
                emission,
            ),
            emission matches Ok(cri) ==> {
                &&& cri.lease_id == pri.lease_id
                &&& cri.episode_info == pri.episode
                &&& cri.clip_info == *clip
                &&& cri.episode_duration == episode_raw.duration_ns
                &&& cri.episode_hash == *episode_fingerprint
            },
    {
        let loaded = self.load(&clip.media_uri);
        let ghost loaded_answer = loaded;
        let (clip_raw, clip_fingerprint) = match loaded {
            Ok(pair) => pair,
            Err(err) => {
                proof {
                    assert(clip_steps(
                        &self.engine(),
                        &self.accessor(),
                        pri,
                        *episode_raw,
                        *episode_fingerprint,
                        *clip,
                        loaded_answer,
                        arbitrary(),
                        Err(err),
                    ));
                }
                return Err(err);
            },
        };
        let found = self.analyzer_engine.find_offsets(
            clip_raw.data.as_slice(),
            episode_raw.data.as_slice(),
        );
        let ghost found_answer = found;
        match found {
            Ok(offsets) => {
                let emission = Ok(
                    completed(
                        pri,
                        clip,
                        episode_raw.duration_ns,
                        episode_fingerprint,
                        clip_raw.duration_ns,
                        clip_fingerprint,
                        offsets,
                    ),
                );
                proof {
                    assert(clip_steps(
                        &self.engine(),
                        &self.accessor(),
                        pri,
                        *episode_raw,
                        *episode_fingerprint,
                        *clip,
                        loaded_answer,
                        found_answer,
                        emission,
                    ));
                }
                emission
            },
            Err(err) => {
                let failure = AnalyzerError::Engine(err);
                proof {
                    assert(clip_steps(
                        &self.engine(),
                        &self.accessor(),
                        pri,
                        *episode_raw,
                        *episode_fingerprint,
                        *clip,
                        loaded_answer,
                        found_answer,
                        Err(failure),
                    ));
                }
                Err(failure)
            },
        }
    }
}

impl<A, U> Runner for AnalysisManager<A, U> where A: Analyzer, U: FromURI {
    fn run(&self, ctx: &cancel::Token, pri: &PendingResearchItem) -> (sent: Vec<Emission>)
        ensures
            run_outcome(&self.engine(), &self.accessor(), ctx, pri, sent@),
    {
        AnalysisManager::run(self, ctx, pri)
    }
}

/// Whether `sent` is one emission and no more: an error that loading the
/// episode of `pri` can give.
pub open spec fn only_the_episode_error<A: Analyzer, U: FromURI>(
    engine: &A,
    accessor: &U,
    pri: &PendingResearchItem,
    sent: Seq<Emission>,
) -> bool {
    &&& sent.len() == 1
    &&& sent[0] matches Err(e)
    &&& loaded_as(engine, accessor, pri.episode.media_uri, Err::<(Raw, String), AnalyzerError>(e))
}

/// An episode that cannot be loaded leaves exactly one emission: its error.
/// No clip is attempted.
pub proof fn lemma_failed_episode_is_the_one_emission<A: Analyzer, U: FromURI>(
    engine: &A,
    accessor: &U,
    ctx: &cancel::Token,
    pri: &PendingResearchItem,
    sent: Seq<Emission>,
)
    requires
        run_outcome(engine, accessor, ctx, pri, sent),
        forall|loaded: Loaded|
            #[trigger] loaded_as(engine, accessor, pri.episode.media_uri, loaded) ==> loaded is Err,
    ensures
        only_the_episode_error(engine, accessor, pri, sent),
{
    let (passed, progress) = choose|passed: Seq<Emission>, progress: Result<Progress, AnalyzerError>|
        #[trigger] pass_outcome(
            engine,
            accessor,
            ctx,
            pri,
            Seq::<Emission>::empty(),
            passed,
            progress,
        ) && sent == emitted_after(passed, progress);
    let loaded = choose|loaded: Loaded|
        #[trigger] pass_steps(
            engine,
            accessor,
            ctx,
            pri,
            Seq::<Emission>::empty(),
            passed,
            progress,
            loaded,
        );
    assert(loaded_as(engine, accessor, pri.episode.media_uri, loaded));
}

/// A token that answers nothing but that the analysis is canceled lets no
/// clip be started: the run emits nothing, or the one error of an episode
/// that could not be loaded.
pub proof fn lemma_canceled_before_the_first_clip<A: Analyzer, U: FromURI>(
    engine: &A,
    accessor: &U,
    ctx: &cancel::Token,
    pri: &PendingResearchItem,
    sent: Seq<Emission>,
)
    requires
        run_outcome(engine, accessor, ctx, pri, sent),
        !answered(ctx, false),
    ensures
        sent.len() == 0 || only_the_episode_error(engine, accessor, pri, sent),
{
    let (passed, progress) = choose|passed: Seq<Emission>, progress: Result<Progress, AnalyzerError>|
        #[trigger] pass_outcome(
            engine,
            accessor,
            ctx,
            pri,
            Seq::<Emission>::empty(),
            passed,
            progress,
        ) && sent == emitted_after(passed, progress);
    let loaded = choose|loaded: Loaded|
        #[trigger] pass_steps(
            engine,
            accessor,
            ctx,
            pri,
            Seq::<Emission>::empty(),
            passed,
            progress,
            loaded,
        );
    assert(loaded_as(engine, accessor, pri.episode.media_uri, loaded));
}

/// Failures are isolated: where the episode can be loaded and the token never
/// answers that the analysis is canceled, the run has exactly one emission
/// for each clip, in the clips' order, and the emission for a clip is that
/// clip's own outcome, whatever became of the clips before it.
pub proof fn lemma_every_clip_has_its_own_emission<A: Analyzer, U: FromURI>(
    engine: &A,
    accessor: &U,
    ctx: &cancel::Token,
    pri: &PendingResearchItem,
    sent: Seq<Emission>,
)
    requires
        run_outcome(engine, accessor, ctx, pri, sent),
        !answered(ctx, true),
        forall|loaded: Loaded|
            #[trigger] loaded_as(engine, accessor, pri.episode.media_uri, loaded) ==> loaded is Ok,
    ensures
        sent.len() == pri.clips@.len(),
        exists|episode_raw: Raw, episode_fingerprint: String|
            #![trigger loaded_as(engine, accessor, pri.episode.media_uri, Ok::<(Raw, String), AnalyzerError>((episode_raw, episode_fingerprint)))]
            loaded_as(
                engine,
                accessor,
                pri.episode.media_uri,
                Ok::<(Raw, String), AnalyzerError>((episode_raw, episode_fingerprint)),
            ) && forall|k: int|
                0 <= k < pri.clips@.len() ==> clip_outcome(
                    engine,
                    accessor,
                    pri,
                    episode_raw,
                    episode_fingerprint,
                    pri.clips@[k],
                    #[trigger] sent[k],
                ),
{
    let (passed, progress) = choose|passed: Seq<Emission>, progress: Result<Progress, AnalyzerError>|
        #[trigger] pass_outcome(
            engine,
            accessor,
            ctx,
            pri,
            Seq::<Emission>::empty(),
            passed,
            progress,
        ) && sent == emitted_after(passed, progress);
    let loaded = choose|loaded: Loaded|
        #[trigger] pass_steps(
            engine,
            accessor,
            ctx,
            pri,
            Seq::<Emission>::empty(),
            passed,
            progress,
            loaded,
        );
    assert(loaded_as(engine, accessor, pri.episode.media_uri, loaded));
    match loaded {
        Ok((episode_raw, episode_fingerprint)) => {
            assert forall|k: int| 0 <= k < pri.clips@.len() implies clip_outcome(
                engine,
                accessor,
                pri,
                episode_raw,
                episode_fingerprint,
                pri.clips@[k],
                #[trigger] sent[k],
            ) by {
                assert(sent[k] == passed[0 + k]);
            }
        },
        Err(_) => {},
    }
}

/// A clip whose audio the accessor cannot give is reported by the accessor's
/// own error for that clip, once.
pub proof fn lemma_failed_fetch_is_the_clips_error<A: Analyzer, U: FromURI>(
    engine: &A,
    accessor: &U,
    pri: &PendingResearchItem,
    episode_raw: Raw,
    episode_fingerprint: String,
    clip: ClipInfo,
    emission: Emission,
)
    requires
        clip_outcome(engine, accessor, pri, episode_raw, episode_fingerprint, clip, emission),
        forall|fetched: Result<Vec<u8>, AccessorError>|
            #[trigger] fetched_as(accessor, clip.media_uri, fetched) ==> fetched is Err,
    ensures
        emission matches Err(AnalyzerError::Accessor(e)) && fetched_as(
            accessor,
            clip.media_uri,
            Err::<Vec<u8>, AccessorError>(e),
        ),
{
    let (loaded, found) = choose|loaded: Loaded, found: Result<Vec<i64>, Error>|
        #[trigger] clip_steps(
            engine,
            accessor,
            pri,
            episode_raw,
            episode_fingerprint,
            clip,
            loaded,
            found,
            emission,
        );
    let (fetched, decoded, hash) = choose|
        fetched: Result<Vec<u8>, AccessorError>,
        decoded: Result<Raw, Error>,
        hash: Result<String, Error>,
    |
        #[trigger] load_steps(engine, accessor, clip.media_uri, fetched, decoded, hash, loaded);
    assert(fetched_as(accessor, clip.media_uri, fetched));
}

} // verus!
