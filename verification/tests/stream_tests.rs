use analyzer::engines::cosine_similarity::decode::{decode_batches, Batch};
use analyzer::engines::cosine_similarity::internals::Threshold;
use analyzer::engines::cosine_similarity::{new, Error, ErrorKind, Settings};
use analyzer::engines::Raw;
use rubato::{FftFixedIn, Resampler};

/// Writes numbers of a few bits each, the most significant bit first.
struct Bits {
    bytes: Vec<u8>,
    used: usize,
}

impl Bits {
    fn put(&mut self, value: u32, width: usize) {
        for i in (0..width).rev() {
            if self.used % 8 == 0 {
                self.bytes.push(0);
            }
            if (value >> i) & 1 == 1 {
                let last = self.bytes.len() - 1;
                self.bytes[last] |= 0x80 >> (self.used % 8);
            }
            self.used += 1;
        }
    }
}

/// One MPEG-1 layer III mono frame of 128 kbit/s whose two granules hold
/// fifty pairs of spectral lines of the value one each, so that it decodes
/// to a sound. `rate_index` 0 stands for 44.1 kHz and 1 for 48 kHz.
fn sounding_frame(rate_index: u8) -> Vec<u8> {
    let size = if rate_index == 0 { 417 } else { 384 };
    let mut bits = Bits { bytes: vec![0xff, 0xfb, 0x90 | (rate_index << 2), 0xc0], used: 32 };
    bits.put(0, 9); // main_data_begin
    bits.put(0, 5); // private bits
    bits.put(0, 4); // scfsi
    for _ in 0..2 {
        bits.put(600, 12); // part2_3_length
        bits.put(50, 9); // big_values
        bits.put(200, 8); // global_gain
        bits.put(0, 4); // scalefac_compress
        bits.put(0, 1); // window_switching_flag
        bits.put(1, 5); // table_select for the three regions
        bits.put(1, 5);
        bits.put(1, 5);
        bits.put(0, 4); // region0_count
        bits.put(0, 3); // region1_count
        bits.put(0, 1); // preflag
        bits.put(0, 1); // scalefac_scale
        bits.put(0, 1); // count1table_select
    }
    let mut frame = bits.bytes;
    frame.resize(size, 0);
    frame
}

fn stream(rates: &[u8]) -> Vec<u8> {
    rates.iter().flat_map(|r| sounding_frame(*r)).collect()
}

fn settings() -> Settings {
    Settings {
        target_sample_rate: 22_050,
        rms_window_size: 2_756,
        pass_one_sample_size: 9,
        pass_one_threshold: Threshold { numerator: 991, denominator: 1_000 },
        pass_two_sample_size: 50,
        pass_two_threshold: Threshold { numerator: 99, denominator: 100 },
    }
}

fn resample(batch: &Batch, target: usize) -> Vec<i16> {
    let buffer: Vec<f64> = batch.samples.iter().map(|s| f64::from(*s) / f64::from(i16::MAX)).collect();
    let mut resampler =
        FftFixedIn::<f64>::new(batch.sample_rate as usize, target, buffer.len(), 1024, 1);
    let out = resampler.process(&vec![buffer; 1]).unwrap();
    out[0].iter().map(|v| f64::round(v * f64::from(i16::MAX)) as i16).collect()
}

fn mp3_to_raw(mp3: &[u8]) -> Result<Raw, Error> {
    let batches = decode_batches(mp3)?;
    let pieces: Vec<Vec<i16>> = batches.iter().map(|b| resample(b, 22_050)).collect();
    new(settings()).raw_from_pieces(&pieces)
}

#[test]
fn sounding_frames_decode_to_sound() {
    let batches = decode_batches(&stream(&[0, 0, 0, 0])).unwrap();
    assert_eq!(batches.len(), 1);
    assert_eq!(batches[0].sample_rate, 44_100);
    assert_eq!(batches[0].samples.len(), 4 * 1_152);
    assert!(batches[0].samples.iter().any(|s| *s != 0));
}

#[test]
fn frames_declare_their_sample_rate() {
    let batches = decode_batches(&stream(&[1, 1, 1, 1])).unwrap();
    assert_eq!(batches.len(), 1);
    assert_eq!(batches[0].sample_rate, 48_000);
    assert_eq!(batches[0].samples.len(), 4 * 1_152);
}

#[test]
fn bytes_that_are_no_audio_decode_to_nothing() {
    let batches = decode_batches(&[7u8; 5_000]).unwrap();
    assert!(batches.is_empty());
}

#[test]
fn decoded_audio_becomes_raw_audio_at_the_target_rate() {
    let raw = mp3_to_raw(&stream(&[0, 0, 0, 0])).unwrap();
    assert!(!raw.data.is_empty());
    assert_ne!(raw.data[0], 0);
    // 4608 samples at 44.1 kHz are 2304 at 22.05 kHz; what precedes the
    // first sample that is not zero is gone.
    assert!(raw.data.len() <= 2_304);
    assert_eq!(
        raw.duration_ns,
        analyzer::utils::index_to_nanoseconds(raw.data.len(), 22_050)
    );
}

#[test]
fn decoding_the_same_input_twice_gives_the_same_raw_audio() {
    let input = stream(&[0, 0, 0, 0, 0, 0]);
    let first = mp3_to_raw(&input).unwrap();
    let second = mp3_to_raw(&input).unwrap();
    assert!(!first.data.is_empty());
    assert_eq!(first.data, second.data);
    assert_eq!(first.duration_ns, second.duration_ns);
}

#[test]
fn decoded_clip_is_found_in_the_decoded_episode() {
    // The clip is the start of the episode's raw audio; the search finds it
    // there first. The frames repeat, so it is found again later.
    let episode = mp3_to_raw(&stream(&[0, 0, 0, 0, 0, 0])).unwrap();
    let from = 0;
    let clip: Vec<i16> = episode.data[from..from + 400].to_vec();
    let engine = new(Settings {
        target_sample_rate: 22_050,
        rms_window_size: 50,
        pass_one_sample_size: 20,
        pass_one_threshold: Threshold { numerator: 999, denominator: 1_000 },
        pass_two_sample_size: 40,
        pass_two_threshold: Threshold { numerator: 9_999, denominator: 10_000 },
    });
    let found = engine.find_offsets(&clip, &episode.data).unwrap();
    let expected = analyzer::utils::index_to_nanoseconds(from, 22_050);
    assert_eq!(found.first(), Some(&expected), "{:?}", found);
    for pair in found.windows(2) {
        // More than 400 samples, which last 18_140_589 ns, lie between matches.
        assert!(pair[1] - pair[0] > 18_140_589, "{:?}", found);
    }
}

#[test]
fn resampler_failure_is_an_engine_error() {
    let error = Error::new(ErrorKind::Resampler(String::from("wrong number of frames")));
    match *error.0 {
        ErrorKind::Resampler(text) => assert_eq!(text, "wrong number of frames"),
        other => panic!("{:?}", other),
    }
}
