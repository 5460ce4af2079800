//! From compressed audio to batches of mono samples that are ready to be
//! resampled: decoding frame by frame, keeping the first channel, and joining
//! consecutive frames of one sample rate.

use super::{Error, ErrorKind};
use vstd::prelude::*;

verus! {

/// One decoded frame of compressed audio.
#[derive(Debug)]
pub struct Frame {
    /// The decoded audio held by this frame. Channels are interleaved.
    pub data: Vec<i16>,
    /// This frame's sample rate in hertz.
    pub sample_rate: i32,
    /// The number of channels in this frame.
    pub channels: usize,
}

/// Why the decoder gave up on a stream.
#[derive(Clone, Copy, Debug, PartialEq, Eq)]
pub enum Mp3Failure {
    /// Reading the compressed bytes failed.
    Io,
    /// The stream ended in the middle of a frame.
    InsufficientData,
    /// The stream held data that is not audio.
    SkippedData,
    /// The decoder produced more frames than the stream has bytes.
    Overrun,
}

/// What one request to the decoder brought.
pub enum Step {
    /// The next frame of the stream.
    Frame(Frame),
    /// The stream has ended.
    End,
    /// The stream cannot be decoded further.
    Failed(Mp3Failure),
}

/// A run of consecutive frames that share a sample rate, reduced to mono and
/// joined, as a mathematical value.
pub struct Run {
    pub sample_rate: i32,
    pub samples: Seq<i16>,
}

/// A run of consecutive frames that share a native sample rate, reduced to
/// mono and joined: the unit that is resampled in one piece.
#[derive(Debug)]
pub struct Batch {
    /// The sample rate that the frames declared, in hertz.
    pub sample_rate: i32,
    /// The first channel's samples of all frames of the run, in order.
    pub samples: Vec<i16>,
}

impl View for Batch {
    type V = Run;

    open spec fn view(&self) -> Run {
        Run { sample_rate: self.sample_rate, samples: self.samples@ }
    }
}

/// The runs that `batches` stand for.
pub open spec fn runs_of(batches: Seq<Batch>) -> Seq<Run> {
    batches.map_values(|b: Batch| b@)
}

/// The first channel of `channels` interleaved channels: every sample for
/// one channel, every other sample, from the first on, for two.
pub open spec fn first_channel(data: Seq<i16>, channels: int) -> Seq<i16> {
    if channels == 2 {
        Seq::new(((data.len() + 1) / 2) as nat, |i: int| data[2 * i])
    } else {
        data
    }
}

/// Reduces interleaved audio to one channel by keeping the first channel's
/// samples. Audio with other than one or two channels is refused.
pub fn to_monaural(data: &[i16], channels: usize) -> (mono: Result<Vec<i16>, Error>)
    ensures
        channels == 1 || channels == 2 <==> mono is Ok,
        mono matches Ok(samples) ==> samples@ == first_channel(data@, channels as int),
        mono matches Err(error) ==> error.kind() == (ErrorKind::InvalidChannelCount { channels }),
{
    if channels != 1 && channels != 2 {
        return Err(Error::new(ErrorKind::InvalidChannelCount { channels }));
    }
    let mut mono: Vec<i16> = Vec::new();
    let len = data.len();
    if channels == 2 {
        let count = len / 2 + len % 2;
        let mut k: usize = 0;
        while k < count
            invariant
                len == data@.len(),
                count == (len + 1) / 2,
                k <= count,
                mono@.len() == k,
                forall|j: int| 0 <= j < mono@.len() ==> mono@[j] == data@[2 * j],
            decreases count - k,
        {
            mono.push(data[2 * k]);
            k += 1;
        }
        proof {
            assert(mono@ =~= first_channel(data@, 2));
        }
    } else {
        let mut i: usize = 0;
        while i < len
            invariant
                i <= len,
                len == data@.len(),
                mono@ == data@.take(i as int),
            decreases len - i,
        {
            mono.push(data[i]);
            proof {
                assert(data@.take(i + 1) =~= data@.take(i as int).push(data@[i as int]));
            }
            i += 1;
        }
        proof {
            assert(data@.take(len as int) =~= data@);
        }
    }
    Ok(mono)
}

/// The runs after one more frame. A frame with other than one or two
/// channels is refused. Its first channel joins the last run where the frame
/// has that run's sample rate, and starts a new run where it has not; a frame
/// without samples changes nothing.
pub open spec fn with_frame(runs: Seq<Run>, frame: Frame) -> Result<Seq<Run>, ErrorKind> {
    if frame.channels != 1 && frame.channels != 2 {
        Err(ErrorKind::InvalidChannelCount { channels: frame.channels })
    } else {
        let mono = first_channel(frame.data@, frame.channels as int);
        if mono.len() == 0 {
            Ok(runs)
        } else if runs.len() > 0 && runs.last().sample_rate == frame.sample_rate {
            Ok(
                runs.drop_last().push(
                    Run { sample_rate: frame.sample_rate, samples: runs.last().samples + mono },
                ),
            )
        } else {
            Ok(runs.push(Run { sample_rate: frame.sample_rate, samples: mono }))
        }
    }
}

/// The runs that `frames` form, taken in order; the first frame that is
/// refused decides the error.
pub open spec fn batches_of(frames: Seq<Frame>) -> Result<Seq<Run>, ErrorKind>
    decreases frames.len(),
{
    if frames.len() == 0 {
        Ok(Seq::empty())
    } else {
        match batches_of(frames.drop_last()) {
            Err(e) => Err(e),
            Ok(runs) => with_frame(runs, frames.last()),
        }
    }
}

/// Runs as batching leaves them: none is empty, and neighbours differ in
/// sample rate, so that each is as long as the stream allows.
pub open spec fn well_batched(runs: Seq<Run>) -> bool {
    &&& forall|i: int| 0 <= i < runs.len() ==> (#[trigger] runs[i]).samples.len() > 0
    &&& forall|i: int|
        0 <= i < runs.len() - 1 ==> (#[trigger] runs[i]).sample_rate != runs[i + 1].sample_rate
}

/// All samples of `runs`, one run after the other.
pub open spec fn joined(runs: Seq<Run>) -> Seq<i16>
    decreases runs.len(),
{
    if runs.len() == 0 {
        Seq::empty()
    } else {
        joined(runs.drop_last()) + runs.last().samples
    }
}

/// The first channel of all of `frames`, one frame after the other.
pub open spec fn first_channels(frames: Seq<Frame>) -> Seq<i16>
    decreases frames.len(),
{
    if frames.len() == 0 {
        Seq::empty()
    } else {
        first_channels(frames.drop_last()) + first_channel(
            frames.last().data@,
            frames.last().channels as int,
        )
    }
}

/// One more frame keeps the runs well batched and adds exactly its first
/// channel to their samples.
pub proof fn lemma_with_frame_keeps_batching(runs: Seq<Run>, frame: Frame)
    requires
        well_batched(runs),
        with_frame(runs, frame) is Ok,
    ensures
        well_batched(with_frame(runs, frame)->Ok_0),
        joined(with_frame(runs, frame)->Ok_0) == joined(runs) + first_channel(
            frame.data@,
            frame.channels as int,
        ),
{
    let mono = first_channel(frame.data@, frame.channels as int);
    let after = with_frame(runs, frame)->Ok_0;
    if mono.len() == 0 {
        assert(joined(runs) + mono =~= joined(runs));
    } else if runs.len() > 0 && runs.last().sample_rate == frame.sample_rate {
        let merged = Run { sample_rate: frame.sample_rate, samples: runs.last().samples + mono };
        assert(after.drop_last() =~= runs.drop_last());
        assert(after.last() == merged);
        assert(joined(after) =~= joined(runs) + mono);
        assert forall|i: int| 0 <= i < after.len() - 1 implies (#[trigger] after[i]).sample_rate
            != after[i + 1].sample_rate by {
            assert(after[i] == runs[i]);
            if i + 1 < after.len() - 1 {
                assert(after[i + 1] == runs[i + 1]);
            }
        }
    } else {
        assert(after.drop_last() =~= runs);
        assert forall|i: int| 0 <= i < after.len() - 1 implies (#[trigger] after[i]).sample_rate
            != after[i + 1].sample_rate by {
            assert(after[i] == runs[i]);
            if i + 1 < after.len() - 1 {
                assert(after[i + 1] == runs[i + 1]);
            }
        }
    }
}

/// Batching loses and reorders nothing: the samples of the runs, joined, are
/// the first channels of the frames, joined. No run is empty, and neighbouring
/// runs differ in sample rate.
pub proof fn lemma_batches_keep_every_sample(frames: Seq<Frame>)
    requires
        batches_of(frames) is Ok,
    ensures
        joined(batches_of(frames)->Ok_0) == first_channels(frames),
        well_batched(batches_of(frames)->Ok_0),
    decreases frames.len(),
{
    if frames.len() > 0 {
        lemma_batches_keep_every_sample(frames.drop_last());
        lemma_with_frame_keeps_batching(batches_of(frames.drop_last())->Ok_0, frames.last());
    }
}

/// Whether `outcome` and the batches left behind are what `expected`
/// describes: the runs on success, and on failure the error with the batches
/// as they were.
pub open spec fn batched(
    outcome: Result<(), Error>,
    before: Seq<Batch>,
    after: Seq<Batch>,
    expected: Result<Seq<Run>, ErrorKind>,
) -> bool {
    match expected {
        Ok(runs) => outcome is Ok && runs_of(after) == runs,
        Err(kind) => outcome matches Err(error) && error.kind() == kind && after == before,
    }
}

/// Takes one more frame into `batches`: keeps its first channel, and joins it
/// to the last batch where the sample rate has not changed.
pub fn push_frame(batches: &mut Vec<Batch>, frame: &Frame) -> (outcome: Result<(), Error>)
    ensures
        batched(outcome, old(batches)@, final(batches)@, with_frame(runs_of(old(batches)@), *frame)),
{
    let mut mono = match to_monaural(frame.data.as_slice(), frame.channels) {
        Ok(mono) => mono,
        Err(error) => {
            return Err(error);
        },
    };
    if mono.len() == 0 {
        return Ok(());
    }
    let ghost before = batches@;
    let count = batches.len();
    if count > 0 && batches[count - 1].sample_rate == frame.sample_rate {
        let mut last = batches.pop().unwrap();
        last.samples.append(&mut mono);
        batches.push(last);
        proof {
            assert(runs_of(batches@) =~= with_frame(runs_of(before), *frame)->Ok_0);
        }
    } else {
        batches.push(Batch { sample_rate: frame.sample_rate, samples: mono });
        proof {
            assert(runs_of(batches@) =~= with_frame(runs_of(before), *frame)->Ok_0);
        }
    }
    Ok(())
}

/// Whether `outcome` is what `expected` describes: batches that stand for the
/// runs, or an error of the same variant.
pub open spec fn batches_agree(
    outcome: Result<Vec<Batch>, Error>,
    expected: Result<Seq<Run>, ErrorKind>,
) -> bool {
    match (outcome, expected) {
        (Ok(batches), Ok(runs)) => runs_of(batches@) == runs,
        (Err(error), Err(kind)) => error.kind() == kind,
        _ => false,
    }
}

/// Reduces decoded frames to mono and joins consecutive frames that share a
/// sample rate, so that each run can be resampled in one piece.
pub fn batch_frames(frames: &Vec<Frame>) -> (outcome: Result<Vec<Batch>, Error>)
    ensures
        batches_agree(outcome, batches_of(frames@)),
{
    let mut batches: Vec<Batch> = Vec::new();
    let mut i: usize = 0;
    proof {
        assert(runs_of(batches@) =~= Seq::<Run>::empty());
    }
    while i < frames.len()
        invariant
            i <= frames@.len(),
            batches_of(frames@.take(i as int)) == Ok::<Seq<Run>, ErrorKind>(runs_of(batches@)),
        decreases frames@.len() - i,
    {
        proof {
            assert(frames@.take(i + 1).drop_last() =~= frames@.take(i as int));
        }
        match push_frame(&mut batches, &frames[i]) {
            Ok(()) => {},
            Err(error) => {
                proof {
                    lemma_batching_error_stays(frames@, i + 1);
                }
                return Err(error);
            },
        }
        i += 1;
    }
    proof {
        assert(frames@.take(frames@.len() as int) =~= frames@);
    }
    Ok(batches)
}

/// Once a prefix of the frames is refused, the whole is refused alike.
proof fn lemma_batching_error_stays(frames: Seq<Frame>, k: int)
    requires
        0 <= k <= frames.len(),
        batches_of(frames.take(k)) is Err,
    ensures
        batches_of(frames) == batches_of(frames.take(k)),
    decreases frames.len() - k,
{
    if k < frames.len() {
        assert(frames.take(k + 1).drop_last() =~= frames.take(k));
        lemma_batching_error_stays(frames, k + 1);
    } else {
        assert(frames.take(k) =~= frames);
    }
}

/// `samples` from its first sample that is not zero on.
pub open spec fn without_leading_zeros(samples: Seq<i16>) -> Seq<i16>
    decreases samples.len(),
{
    if samples.len() > 0 && samples[0] == 0 {
        without_leading_zeros(samples.drop_first())
    } else {
        samples
    }
}

/// Where the first `first` samples are zero and the next one, if there is
/// one, is not, dropping the leading zeros drops exactly those `first`.
pub proof fn lemma_without_leading_zeros(samples: Seq<i16>, first: int)
    requires
        0 <= first <= samples.len(),
        forall|i: int| 0 <= i < first ==> samples[i] == 0,
        first < samples.len() ==> samples[first] != 0,
    ensures
        without_leading_zeros(samples) == samples.subrange(first, samples.len() as int),
    decreases samples.len(),
{
    if first == 0 {
        assert(samples.subrange(0, samples.len() as int) =~= samples);
    } else {
        let rest = samples.drop_first();
        lemma_without_leading_zeros(rest, first - 1);
        assert(rest.subrange(first - 1, rest.len() as int) =~= samples.subrange(
            first,
            samples.len() as int,
        ));
    }
}

/// One answer of the decoder without its samples: for a frame the sample
/// rate and the channel count that it declares and the number of samples that
/// it holds, else the end of the stream or the kind of failure. This is what
/// the decoder reads off the bits of the stream, and it is the same wherever
/// the decoder runs; the samples themselves are computed in floating point,
/// by code that differs from one kind of processor to another.
pub enum Mark {
    /// A frame of `len` interleaved samples.
    Frame { sample_rate: i32, channels: usize, len: usize },
    /// The stream has ended.
    End,
    /// The stream cannot be decoded further.
    Failed(Mp3Failure),
}

/// The mark of `step`: the step without the samples.
pub open spec fn mark_of(step: Step) -> Mark {
    match step {
        Step::Frame(frame) => Mark::Frame {
            sample_rate: frame.sample_rate,
            channels: frame.channels,
            len: frame.data@.len() as usize,
        },
        Step::End => Mark::End,
        Step::Failed(failure) => Mark::Failed(failure),
    }
}

/// The marks of the answers that a decoder over the bytes `mp3` gives, call
/// by call, from the first on: what `minimp3::Decoder::new` and then
/// `next_frame` make of these bytes.
pub uninterp spec fn stream_of(mp3: Seq<u8>) -> Seq<Mark>;

/// The marks of the answers that `decoder` has yet to give, call by call:
/// what the decoder holds.
pub uninterp spec fn pending(decoder: minimp3::Decoder<&[u8]>) -> Seq<Mark>;

/// `minimp3::Decoder`: a decoder over a source of compressed bytes. Of its
/// state only `pending` speaks.
#[verifier::external_type_specification]
#[verifier::external_body]
#[verifier::reject_recursive_types(R)]
pub struct ExDecoder<R>(minimp3::Decoder<R>);

/// `minimp3::Decoder::new` over a slice of bytes. The claim is that what the
/// new decoder has yet to answer is what a decoder over these bytes answers:
/// a new decoder holds the bytes and has read none of them.
#[verifier::external_body]
fn new_decoder<'a>(mp3: &'a [u8]) -> (decoder: minimp3::Decoder<&'a [u8]>)
    ensures
        pending(decoder) == stream_of(mp3@),
{
    minimp3::Decoder::new(mp3)
}

/// `minimp3::Decoder::next_frame`: asks the decoder for the next frame, and
/// hands on the samples, sample rate and channel count of a frame, the end of
/// the stream, or the kind of failure. The claim is that the answer has the
/// mark that was the decoder's next, and that the decoder then has the rest
/// yet to give: the decoder goes through its bytes by what they hold and by
/// nothing else. Nothing is claimed of the samples of a frame, nor of a
/// decoder that has nothing named left to give.
#[verifier::external_body]
fn next_frame<'a>(decoder: &mut minimp3::Decoder<&'a [u8]>) -> (step: Step)
    ensures
        pending(*old(decoder)).len() > 0 ==> mark_of(step) == pending(*old(decoder))[0]
            && pending(*final(decoder)) == pending(*old(decoder)).drop_first(),
{
    match decoder.next_frame() {
        Ok(f) => Step::Frame(Frame { data: f.data, sample_rate: f.sample_rate, channels: f.channels }),
        Err(minimp3::Error::Eof) => Step::End,
        Err(minimp3::Error::Io(_)) => Step::Failed(Mp3Failure::Io),
        Err(minimp3::Error::InsufficientData) => Step::Failed(Mp3Failure::InsufficientData),
        Err(minimp3::Error::SkippedData) => Step::Failed(Mp3Failure::SkippedData),
    }
}

/// The sample rate and the number of samples of a batch.
pub struct Shape {
    pub sample_rate: i32,
    pub len: nat,
}

/// The shapes of `runs`: the sample rate and the number of samples of each.
pub open spec fn shapes_of(runs: Seq<Run>) -> Seq<Shape> {
    runs.map_values(|run: Run| Shape { sample_rate: run.sample_rate, len: run.samples.len() })
}

/// The number of samples that the first channel of `len` interleaved samples
/// of `channels` channels has.
pub open spec fn first_channel_len(len: int, channels: int) -> nat {
    if channels == 2 {
        ((len + 1) / 2) as nat
    } else {
        len as nat
    }
}

/// The shapes after one more frame of the given rate, channel count and
/// number of samples: what `with_frame` does, told of the shapes alone.
pub open spec fn with_mark(shapes: Seq<Shape>, sample_rate: i32, channels: usize, len: usize) -> Result<
    Seq<Shape>,
    ErrorKind,
> {
    if channels != 1 && channels != 2 {
        Err(ErrorKind::InvalidChannelCount { channels })
    } else {
        let mono = first_channel_len(len as int, channels as int);
        if mono == 0 {
            Ok(shapes)
        } else if shapes.len() > 0 && shapes.last().sample_rate == sample_rate {
            Ok(
                shapes.drop_last().push(
                    Shape { sample_rate, len: shapes.last().len + mono },
                ),
            )
        } else {
            Ok(shapes.push(Shape { sample_rate, len: mono }))
        }
    }
}

/// What decoding comes to where the decoder has the answers `marks` yet to
/// give, may give `budget` more frames, and the batches so far have the
/// shapes `shapes`. The answers are taken in order:
///  - the end of the stream gives the batches as they are;
///  - a failure gives that failure;
///  - a frame beyond the budget gives the overrun;
///  - a frame with a refused channel count gives that refusal;
///  - any other frame is batched, and decoding goes on.
/// Where the marks run out before the stream has ended or failed, `None`:
/// nothing is fixed then.
pub open spec fn decoded(marks: Seq<Mark>, budget: int, shapes: Seq<Shape>) -> Option<
    Result<Seq<Shape>, ErrorKind>,
>
    decreases marks.len(),
{
    if marks.len() == 0 {
        None
    } else {
        match marks[0] {
            Mark::End => Some(Ok(shapes)),
            Mark::Failed(failure) => Some(Err(ErrorKind::MiniMp3(failure))),
            Mark::Frame { sample_rate, channels, len } => if budget <= 0 {
                Some(Err(ErrorKind::MiniMp3(Mp3Failure::Overrun)))
            } else {
                match with_mark(shapes, sample_rate, channels, len) {
                    Err(kind) => Some(Err(kind)),
                    Ok(next) => decoded(marks.drop_first(), budget - 1, next),
                }
            },
        }
    }
}

/// What `decode_batches` comes to for the bytes `mp3`, as far as the bytes
/// fix it: which error, or the sample rate and the number of samples of each
/// batch. An empty stream holds no frame; any other is decoded with a budget
/// of as many frames as it has bytes.
pub open spec fn decoded_stream(mp3: Seq<u8>) -> Option<Result<Seq<Shape>, ErrorKind>> {
    if mp3.len() == 0 {
        Some(Ok(Seq::empty()))
    } else {
        decoded(stream_of(mp3), mp3.len() as int, Seq::empty())
    }
}

/// Whether `outcome` is what `expected` describes: batches of these shapes,
/// or an error of the same variant.
pub open spec fn shapes_agree(
    outcome: Result<Vec<Batch>, Error>,
    expected: Result<Seq<Shape>, ErrorKind>,
) -> bool {
    match (outcome, expected) {
        (Ok(batches), Ok(shapes)) => shapes_of(runs_of(batches@)) == shapes,
        (Err(error), Err(kind)) => error.kind() == kind,
        _ => false,
    }
}

/// `with_mark` tells of the shapes what `with_frame` does to the runs.
pub proof fn lemma_with_mark_follows_with_frame(runs: Seq<Run>, frame: Frame)
    requires
        frame.data@.len() <= usize::MAX,
    ensures
        match with_frame(runs, frame) {
            Ok(next) => with_mark(
                shapes_of(runs),
                frame.sample_rate,
                frame.channels,
                frame.data@.len() as usize,
            ) == Ok::<Seq<Shape>, ErrorKind>(shapes_of(next)),
            Err(kind) => with_mark(
                shapes_of(runs),
                frame.sample_rate,
                frame.channels,
                frame.data@.len() as usize,
            ) == Err::<Seq<Shape>, ErrorKind>(kind),
        },
{
    let mono = first_channel(frame.data@, frame.channels as int);
    let shapes = shapes_of(runs);
    assert(mono.len() == first_channel_len(frame.data@.len() as int, frame.channels as int));
    if frame.channels == 1 || frame.channels == 2 {
        if mono.len() == 0 {
        } else if runs.len() > 0 && runs.last().sample_rate == frame.sample_rate {
            let merged = Run {
                sample_rate: frame.sample_rate,
                samples: runs.last().samples + mono,
            };
            assert(shapes.last().sample_rate == runs.last().sample_rate);
            assert(shapes_of(runs.drop_last().push(merged)) =~= shapes.drop_last().push(
                Shape { sample_rate: frame.sample_rate, len: shapes.last().len + mono.len() },
            ));
        } else {
            if runs.len() > 0 {
                assert(shapes.last().sample_rate == runs.last().sample_rate);
            }
            assert(shapes_of(runs.push(Run { sample_rate: frame.sample_rate, samples: mono }))
                =~= shapes.push(Shape { sample_rate: frame.sample_rate, len: mono.len() }));
        }
    }
}

/// Whether `step` is an answer that a decoder gave to a request for the next
/// frame: of whatever stream, and at whatever point of it.
pub closed spec fn decoder_answered(step: Step) -> bool {
    exists|decoder: &mut minimp3::Decoder<&[u8]>|
        #[trigger] call_ensures(next_frame, (decoder,), step)
}

/// Whether each of `frames` is a frame that a decoder gave.
pub open spec fn all_answered(frames: Seq<Frame>) -> bool {
    forall|i: int| 0 <= i < frames.len() ==> decoder_answered(Step::Frame(#[trigger] frames[i]))
}

/// What taking one answer of the decoder comes to, for batches that stand for
/// `runs` where `taken` frames of a budget of `budget` were taken before:
/// `None` where the answer was batched and decoding goes on, else how
/// decoding ends.
///  - The end of the stream ends it well.
///  - A failure that the decoder reports is returned as that failure.
///  - A frame beyond the budget is the overrun.
///  - A frame with a refused channel count is that refusal.
pub open spec fn step_taken(runs: Seq<Run>, taken: int, budget: int, step: Step) -> Option<
    Result<(), ErrorKind>,
> {
    match step {
        Step::End => Some(Ok(())),
        Step::Failed(failure) => Some(Err(ErrorKind::MiniMp3(failure))),
        Step::Frame(frame) => if taken >= budget {
            Some(Err(ErrorKind::MiniMp3(Mp3Failure::Overrun)))
        } else {
            match with_frame(runs, frame) {
                Err(kind) => Some(Err(kind)),
                Ok(_) => None,
            }
        },
    }
}

/// Whether `step` is a frame and `after` are the batches `before` with that
/// frame batched.
pub open spec fn frame_batched(before: Seq<Batch>, after: Seq<Batch>, step: Step) -> bool {
    &&& step matches Step::Frame(frame)
    &&& with_frame(runs_of(before), frame) == Ok::<Seq<Run>, ErrorKind>(runs_of(after))
}

/// Whether `ended` says that decoding ends with an error of the variant
/// `kind`.
pub open spec fn ended_with(ended: Option<Result<(), Error>>, kind: ErrorKind) -> bool {
    &&& ended matches Some(Err(error))
    &&& error.kind() == kind
}

/// Takes one answer of the decoder: batches a frame as `push_frame` does, or
/// says how decoding ends. The batches change only where a frame was
/// batched.
pub fn take_step(batches: &mut Vec<Batch>, taken: usize, budget: usize, step: Step) -> (ended: Option<
    Result<(), Error>,
>)
    ensures
        match step_taken(runs_of(old(batches)@), taken as int, budget as int, step) {
            None => ended is None && frame_batched(old(batches)@, final(batches)@, step),
            Some(Ok(())) => ended == Some(Ok::<(), Error>(())) && final(batches)@ == old(batches)@,
            Some(Err(kind)) => ended_with(ended, kind) && final(batches)@ == old(batches)@,
        },
{
    match step {
        Step::End => Some(Ok(())),
        Step::Failed(failure) => Some(Err(Error::new(ErrorKind::MiniMp3(failure)))),
        Step::Frame(frame) => {
            if taken >= budget {
                return Some(Err(Error::new(ErrorKind::MiniMp3(Mp3Failure::Overrun))));
            }
            match push_frame(batches, &frame) {
                Ok(()) => None,
                Err(error) => Some(Err(error)),
            }
        },
    }
}

/// Whether `kind` is the refusal of a channel count that is neither 1 nor 2,
/// as batching gives it for frames that a decoder gave, no more of them than
/// `mp3` has bytes.
pub open spec fn refused(kind: ErrorKind, mp3: Seq<u8>) -> bool {
    &&& kind matches ErrorKind::InvalidChannelCount { channels }
    &&& channels != 1 && channels != 2
    &&& exists|frames: Seq<Frame>|
        frames.len() <= mp3.len() && all_answered(frames) && #[trigger] batches_of(frames) == Err::<
            Seq<Run>,
            ErrorKind,
        >(kind)
}

/// Whether `kind` is a failure of decoding: one that a decoder reported, or
/// the overrun.
pub open spec fn undecodable(kind: ErrorKind) -> bool {
    &&& kind matches ErrorKind::MiniMp3(failure)
    &&& failure == Mp3Failure::Overrun || decoder_answered(Step::Failed(failure))
}

/// Decodes compressed audio frame by frame and batches the frames as
/// `batch_frames` does. The bytes fix how decoding ends, and the sample rate
/// and the number of samples of each batch; the samples are the decoder's:
/// the batches are those of the frames that it gave, up to the end of the
/// stream. An empty stream is not put to the decoder: it holds no frame.
pub fn decode_batches(mp3: &[u8]) -> (outcome: Result<Vec<Batch>, Error>)
    ensures
        decoded_stream(mp3@) matches Some(expected) ==> shapes_agree(outcome, expected),
        mp3@.len() == 0 ==> outcome is Ok,
        outcome matches Ok(batches) ==> {
            &&& well_batched(runs_of(batches@))
            &&& batches@.len() <= mp3@.len()
            &&& exists|frames: Seq<Frame>|
                frames.len() <= mp3@.len() && all_answered(frames) && #[trigger] batches_of(frames)
                    == Ok::<Seq<Run>, ErrorKind>(runs_of(batches@))
        },
        outcome matches Err(error) ==> undecodable(error.kind()) || refused(error.kind(), mp3@),
{
    let mut batches: Vec<Batch> = Vec::new();
    let budget = mp3.len();
    let ghost mut seen: Seq<Frame> = Seq::empty();
    proof {
        assert(runs_of(batches@) =~= Seq::<Run>::empty());
        assert(shapes_of(runs_of(batches@)) =~= Seq::<Shape>::empty());
    }
    if budget == 0 {
        proof {
            assert(batches_of(seen) == Ok::<Seq<Run>, ErrorKind>(runs_of(batches@)));
        }
        return Ok(batches);
    }
    let mut decoder = new_decoder(mp3);
    let mut taken: usize = 0;
    loop
        invariant
            taken <= budget,
            0 < budget == mp3@.len(),
            seen.len() == taken,
            all_answered(seen),
            batches_of(seen) == Ok::<Seq<Run>, ErrorKind>(runs_of(batches@)),
            well_batched(runs_of(batches@)),
            batches@.len() <= taken,
            decoded_stream(mp3@) is Some ==> decoded_stream(mp3@) == decoded(
                pending(decoder),
                budget - taken,
                shapes_of(runs_of(batches@)),
            ),
        decreases budget - taken,
    {
        let ghost before = pending(decoder);
        let ghost runs = runs_of(batches@);
        let step = next_frame(&mut decoder);
        let ghost answer = step;
        proof {
            match answer {
                Step::Frame(frame) => {
                    assert(frame.data@.len() == frame.data.len());
                    lemma_with_mark_follows_with_frame(runs, frame);
                    if with_frame(runs, frame) is Ok {
                        lemma_with_frame_keeps_batching(runs, frame);
                    }
                    assert(seen.push(frame).drop_last() =~= seen);
                    assert forall|i: int| 0 <= i < seen.push(frame).len() implies decoder_answered(
                        Step::Frame(#[trigger] seen.push(frame)[i]),
                    ) by {
                        if i < seen.len() {
                            assert(seen.push(frame)[i] == seen[i]);
                        }
                    }
                },
                _ => {},
            }
        }
        match take_step(&mut batches, taken, budget, step) {
            Some(Ok(())) => {
                return Ok(batches);
            },
            Some(Err(error)) => {
                proof {
                    match answer {
                        Step::Frame(frame) => {
                            if taken < budget {
                                assert(batches_of(seen.push(frame)) == Err::<Seq<Run>, ErrorKind>(
                                    error.kind(),
                                ));
                                assert(all_answered(seen.push(frame)));
                            }
                        },
                        _ => {},
                    }
                }
                return Err(error);
            },
            None => {
                proof {
                    match answer {
                        Step::Frame(frame) => {
                            seen = seen.push(frame);
                        },
                        _ => {},
                    }
                }
                taken += 1;
            },
        }
    }
}

} // verus!
