//! From what an input device delivers to the PCM bytes that go out.

use std::collections::VecDeque;
use vstd::prelude::*;

use crate::audio::pcm;
use crate::audio::resampler::{self, AudioResampler};

verus! {

/// The rate that is assumed where a device does not tell its own, in Hz.
pub const FALLBACK_RATE: u32 = 44100;

/// The most frames that leave the queue at a time.
pub const MAX_FRAMES: usize = 4096;

/// How far asking the default output device for its rate got.
#[derive(Debug, Clone, Copy, PartialEq, Eq)]
pub enum DeviceProbe {
    /// There is no output device.
    NoDevice,
    /// The device could not be opened.
    NoClient,
    /// The device did not tell its format.
    NoFormat,
    /// The device runs at this rate, in Hz.
    Rate(u32),
}

/// The sample rate to work at: the device's, or the fallback where it could not be found out.
pub fn detect_sample_rate(probe: DeviceProbe) -> (rate: u32)
    ensures
        rate == match probe {
            DeviceProbe::Rate(found) => found,
            _ => FALLBACK_RATE,
        },
{
    match probe {
        DeviceProbe::Rate(found) => found,
        DeviceProbe::NoDevice => FALLBACK_RATE,
        DeviceProbe::NoClient => FALLBACK_RATE,
        DeviceProbe::NoFormat => FALLBACK_RATE,
    }
}

/// How many bytes of a queue go out at a time: whole frames only, and not too many.
pub open spec fn outgoing_len(queued: nat, frame_size: nat) -> nat {
    let frames = queued / frame_size;
    if frames < MAX_FRAMES {
        frames * frame_size
    } else {
        MAX_FRAMES as nat * frame_size
    }
}

/// Takes whole frames from the front of the queue; `None` if not even one is there.
pub fn take_frames(queue: &mut VecDeque<u8>, frame_size: usize) -> (taken: Option<Vec<u8>>)
    requires
        frame_size > 0,
    ensures
        taken is Some <==> old(queue)@.len() >= frame_size,
        match taken {
            Some(raw) => {
                let n = outgoing_len(old(queue)@.len(), frame_size as nat) as int;
                raw@ == old(queue)@.take(n) && final(queue)@ == old(queue)@.skip(n)
            },
            None => final(queue)@ == old(queue)@,
        },
{
    let queued: usize = queue.len();
    let available: usize = queued / frame_size;
    proof {
        vstd::arithmetic::div_mod::lemma_fundamental_div_mod(queued as int, frame_size as int);
        vstd::arithmetic::div_mod::lemma_mod_bound(queued as int, frame_size as int);
    }
    if available == 0 {
        proof {
            vstd::arithmetic::mul::lemma_mul_basics(frame_size as int);
        }
        return None;
    }
    let frames: usize = if available < MAX_FRAMES {
        available
    } else {
        MAX_FRAMES
    };
    assert(frame_size <= frames * frame_size <= available * frame_size) by (nonlinear_arith)
        requires
            1 <= frames <= available,
            frame_size > 0,
    ;
    proof {
        vstd::arithmetic::mul::lemma_mul_is_commutative(frame_size as int, available as int);
    }
    let count: usize = frames * frame_size;
    let ghost start = queue@;
    assert(count == outgoing_len(start.len(), frame_size as nat));
    let mut raw: Vec<u8> = Vec::new();
    assert(queue@ =~= start.skip(0));
    assert(raw@ =~= start.take(0));
    while raw.len() < count
        invariant
            raw@.len() <= count <= start.len(),
            start == old(queue)@,
            queue@ == start.skip(raw@.len() as int),
            raw@ == start.take(raw@.len() as int),
        decreases count - raw@.len(),
    {
        match queue.pop_front() {
            Some(byte) => {
                raw.push(byte);
                assert(raw@ =~= start.take(raw@.len() as int));
                assert(queue@ =~= start.skip(raw@.len() as int));
            },
            None => {
                assert(false);
            },
        }
    }
    Some(raw)
}

/// Each word was turned into one sample, in order.
pub open spec fn each_converted<F: Fn(u32) -> i16>(
    words: Seq<u32>,
    to_sample: F,
    samples: Seq<i16>,
) -> bool {
    &&& samples.len() == words.len()
    &&& forall|i: int|
        0 <= i < samples.len() ==> call_ensures(to_sample, (words[i],), #[trigger] samples[i])
}

/// Each pair of words was turned into one sample, in order; a word left over counts for nothing.
pub open spec fn pairs_converted<G: Fn(u32, u32) -> i16>(
    words: Seq<u32>,
    mix: G,
    samples: Seq<i16>,
) -> bool {
    &&& samples.len() == words.len() / 2
    &&& forall|i: int|
        0 <= i < samples.len() ==> call_ensures(
            mix,
            (words[2 * i], words[2 * i + 1]),
            #[trigger] samples[i],
        )
}

/// `bytes` is the 16-bit PCM for `raw` device data: 32-bit data is converted word by word, 16-bit
/// data is taken as it is, stereo of either kind is mixed down, and any other data is left alone.
pub open spec fn is_pcm_of<F: Fn(u32) -> i16, G: Fn(u32, u32) -> i16>(
    raw: Seq<u8>,
    bits_per_sample: nat,
    channels: nat,
    to_sample: F,
    mix: G,
    bytes: Seq<u8>,
) -> bool {
    if bits_per_sample == 32 {
        exists|samples: Seq<i16>|
            {
                &&& bytes == #[trigger] pcm::pcm_bytes(samples)
                &&& if channels == 2 {
                    pairs_converted(pcm::words(raw), mix, samples)
                } else {
                    each_converted(pcm::words(raw), to_sample, samples)
                }
            }
    } else if bits_per_sample == 16 {
        if channels == 2 {
            bytes == pcm::pcm_bytes(pcm::mono(pcm::pcm_samples(raw)))
        } else {
            bytes == pcm::pcm_bytes(pcm::pcm_samples(raw))
        }
    } else {
        bytes == raw
    }
}

/// How many bytes of 16-bit PCM come of `len` bytes of 16-bit or 32-bit device data.
pub open spec fn pcm_len(len: nat, bits_per_sample: nat, channels: nat) -> nat {
    let samples = len / (bits_per_sample / 8);
    if channels == 2 {
        samples / 2 * 2
    } else {
        samples * 2
    }
}

/// Turns each word into a sample.
fn convert_each<F: Fn(u32) -> i16>(words: &[u32], to_sample: &F) -> (samples: Vec<i16>)
    requires
        forall|word: u32| #[trigger] call_requires(*to_sample, (word,)),
    ensures
        each_converted(words@, *to_sample, samples@),
{
    let mut samples: Vec<i16> = Vec::new();
    let mut i: usize = 0;
    while i < words.len()
        invariant
            i <= words@.len(),
            forall|word: u32| #[trigger] call_requires(*to_sample, (word,)),
            each_converted(words@.take(i as int), *to_sample, samples@),
        decreases words@.len() - i,
    {
        let sample: i16 = to_sample(words[i]);
        samples.push(sample);
        i = i + 1;
    }
    assert(words@.take(i as int) =~= words@);
    samples
}

/// Turns each pair of words into a sample.
fn convert_pairs<G: Fn(u32, u32) -> i16>(words: &[u32], mix: &G) -> (samples: Vec<i16>)
    requires
        forall|left: u32, right: u32| #[trigger] call_requires(*mix, (left, right)),
    ensures
        pairs_converted(words@, *mix, samples@),
{
    let count: usize = words.len() / 2;
    let mut samples: Vec<i16> = Vec::new();
    let mut i: usize = 0;
    while i < count
        invariant
            i <= count,
            count == words.len() / 2,
            forall|left: u32, right: u32| #[trigger] call_requires(*mix, (left, right)),
            pairs_converted(words@.take(2 * i), *mix, samples@),
        decreases count - i,
    {
        let sample: i16 = mix(words[2 * i], words[2 * i + 1]);
        samples.push(sample);
        i = i + 1;
    }
    proof {
        assert forall|k: int| 0 <= k < samples@.len() implies call_ensures(
            *mix,
            (words@[2 * k], words@[2 * k + 1]),
            #[trigger] samples@[k],
        ) by {
            assert(words@.take(2 * count)[2 * k] == words@[2 * k]);
            assert(words@.take(2 * count)[2 * k + 1] == words@[2 * k + 1]);
        }
    }
    samples
}

/// Appends the 16-bit PCM for `raw` device data to `output`.
///
/// `to_sample` turns one 32-bit floating-point word into a sample, `mix` a left and a right one.
pub fn convert_to_i16_pcm<F: Fn(u32) -> i16, G: Fn(u32, u32) -> i16>(
    raw: &[u8],
    bits_per_sample: usize,
    channels: usize,
    to_sample: &F,
    mix: &G,
    output: &mut Vec<u8>,
)
    requires
        bits_per_sample == 32 || bits_per_sample == 16 ==> old(output)@.len() <= pcm_len(
            raw@.len(),
            bits_per_sample as nat,
            channels as nat,
        ),
        forall|word: u32| #[trigger] call_requires(*to_sample, (word,)),
        forall|left: u32, right: u32| #[trigger] call_requires(*mix, (left, right)),
    ensures
        exists|bytes: Seq<u8>|
            {
                &&& final(output)@ == old(output)@ + bytes
                &&& #[trigger] is_pcm_of(
                    raw@,
                    bits_per_sample as nat,
                    channels as nat,
                    *to_sample,
                    *mix,
                    bytes,
                )
            },
{
    let ghost before = output@;
    let ghost mut bytes: Seq<u8> = raw@;
    if bits_per_sample == 32 {
        let words: Vec<u32> = pcm::words_from_bytes(raw);
        let samples: Vec<i16> = if channels == 2 {
            convert_pairs(words.as_slice(), mix)
        } else {
            convert_each(words.as_slice(), to_sample)
        };
        pcm::append_samples(samples.as_slice(), output);
        proof {
            bytes = pcm::pcm_bytes(samples@);
        }
    } else if bits_per_sample == 16 {
        let samples: Vec<i16> = pcm::samples_from_bytes(raw);
        if channels == 2 {
            let mixed_down: Vec<i16> = pcm::mix_to_mono(samples.as_slice());
            pcm::append_samples(mixed_down.as_slice(), output);
            proof {
                bytes = pcm::pcm_bytes(mixed_down@);
            }
        } else {
            pcm::append_samples(samples.as_slice(), output);
            proof {
                bytes = pcm::pcm_bytes(samples@);
            }
        }
    } else {
        output.extend_from_slice(raw);
        assert(output@ =~= before + raw@);
    }
    assert(is_pcm_of(
        raw@,
        bits_per_sample as nat,
        channels as nat,
        *to_sample,
        *mix,
        bytes,
    ));
}

/// Appends the 16-bit PCM for floating-point samples to `output`.
///
/// `to_sample` turns one 32-bit floating-point word into a sample.
pub fn float_to_i16_bytes<F: Fn(u32) -> i16>(
    words: &[u32],
    to_sample: &F,
    output: &mut Vec<u8>,
)
    requires
        old(output)@.len() <= 2 * words@.len(),
        forall|word: u32| #[trigger] call_requires(*to_sample, (word,)),
    ensures
        exists|samples: Seq<i16>|
            {
                &&& each_converted(words@, *to_sample, samples)
                &&& final(output)@ == old(output)@ + #[trigger] pcm::pcm_bytes(samples)
            },
{
    let samples: Vec<i16> = convert_each(words, to_sample);
    pcm::append_samples(samples.as_slice(), output);
}

/// A piece of captured audio, as samples for the rate converter and as the bytes that go out if
/// there is no conversion.
#[derive(Debug)]
pub struct Captured {
    pub samples: Vec<i16>,
    pub bytes: Vec<u8>,
}

/// The format in which a device delivers.
#[derive(Debug, Clone, Copy, PartialEq, Eq)]
pub struct DeviceFormat {
    pub bits_per_sample: usize,
    pub channels: usize,
    /// Bytes that make up one sample of every channel.
    pub block_align: usize,
    /// In Hz.
    pub sample_rate: u32,
}

/// `captured` is what `raw` data of a device in this format stands for.
pub open spec fn is_captured<F: Fn(u32) -> i16, G: Fn(u32, u32) -> i16>(
    raw: Seq<u8>,
    format: DeviceFormat,
    to_sample: F,
    mix: G,
    samples: Seq<i16>,
    bytes: Seq<u8>,
) -> bool {
    if format.bits_per_sample == 16 && format.channels == 1 {
        samples == pcm::pcm_samples(raw) && bytes == raw
    } else {
        &&& is_pcm_of(
            raw,
            format.bits_per_sample as nat,
            format.channels as nat,
            to_sample,
            mix,
            bytes,
        )
        &&& samples == pcm::pcm_samples(bytes)
    }
}

/// Turns raw device data into samples and bytes.
pub fn interpret<F: Fn(u32) -> i16, G: Fn(u32, u32) -> i16>(
    raw: Vec<u8>,
    format: DeviceFormat,
    to_sample: &F,
    mix: &G,
) -> (captured: Captured)
    requires
        forall|word: u32| #[trigger] call_requires(*to_sample, (word,)),
        forall|left: u32, right: u32| #[trigger] call_requires(*mix, (left, right)),
    ensures
        is_captured(raw@, format, *to_sample, *mix, captured.samples@, captured.bytes@),
{
    if format.bits_per_sample == 16 && format.channels == 1 {
        let samples: Vec<i16> = pcm::samples_from_bytes(raw.as_slice());
        Captured { samples, bytes: raw }
    } else if format.bits_per_sample == 16 && format.channels == 2 {
        let stereo: Vec<i16> = pcm::samples_from_bytes(raw.as_slice());
        let samples: Vec<i16> = pcm::mix_to_mono(stereo.as_slice());
        let bytes: Vec<u8> = pcm::samples_to_bytes(samples.as_slice());
        proof {
            pcm::law_samples_after_bytes(samples@);
        }
        Captured { samples, bytes }
    } else {
        let mut bytes: Vec<u8> = Vec::new();
        convert_to_i16_pcm(
            raw.as_slice(),
            format.bits_per_sample,
            format.channels,
            to_sample,
            mix,
            &mut bytes,
        );
        proof {
            let appended = choose|appended: Seq<u8>|
                {
                    &&& bytes@ == Seq::<u8>::empty() + appended
                    &&& #[trigger] is_pcm_of(
                        raw@,
                        format.bits_per_sample as nat,
                        format.channels as nat,
                        *to_sample,
                        *mix,
                        appended,
                    )
                };
            assert(bytes@ =~= appended);
        }
        let samples: Vec<i16> = pcm::samples_from_bytes(bytes.as_slice());
        Captured { samples, bytes }
    }
}

/// Takes what the queue holds and turns it into samples and bytes; `None` if not even one frame is
/// there.
pub fn next_captured<F: Fn(u32) -> i16, G: Fn(u32, u32) -> i16>(
    queue: &mut VecDeque<u8>,
    format: DeviceFormat,
    to_sample: &F,
    mix: &G,
) -> (next: Option<Captured>)
    requires
        format.block_align > 0,
        forall|word: u32| #[trigger] call_requires(*to_sample, (word,)),
        forall|left: u32, right: u32| #[trigger] call_requires(*mix, (left, right)),
    ensures
        next is Some <==> old(queue)@.len() >= format.block_align,
        match next {
            Some(captured) => {
                let n = outgoing_len(old(queue)@.len(), format.block_align as nat) as int;
                &&& final(queue)@ == old(queue)@.skip(n)
                &&& is_captured(
                    old(queue)@.take(n),
                    format,
                    *to_sample,
                    *mix,
                    captured.samples@,
                    captured.bytes@,
                )
            },
            None => final(queue)@ == old(queue)@,
        },
{
    match take_frames(queue, format.block_align) {
        Some(raw) => Some(interpret(raw, format, to_sample, mix)),
        None => None,
    }
}

/// `samples` is what interleaved floating-point words of a device stand for: stereo is mixed down,
/// any other number of channels is converted word by word.
pub open spec fn floats_converted<F: Fn(u32) -> i16, G: Fn(u32, u32) -> i16>(
    words: Seq<u32>,
    channels: nat,
    to_sample: F,
    mix: G,
    samples: Seq<i16>,
) -> bool {
    if channels == 2 {
        pairs_converted(words, mix, samples)
    } else {
        each_converted(words, to_sample, samples)
    }
}

/// Turns interleaved floating-point samples from a device into samples and bytes.
///
/// `to_sample` turns one 32-bit floating-point word into a sample, `mix` a left and a right one.
pub fn captured_floats<F: Fn(u32) -> i16, G: Fn(u32, u32) -> i16>(
    words: &[u32],
    channels: usize,
    to_sample: &F,
    mix: &G,
) -> (captured: Captured)
    requires
        forall|word: u32| #[trigger] call_requires(*to_sample, (word,)),
        forall|left: u32, right: u32| #[trigger] call_requires(*mix, (left, right)),
    ensures
        floats_converted(words@, channels as nat, *to_sample, *mix, captured.samples@),
        captured.bytes@ == pcm::pcm_bytes(captured.samples@),
{
    if channels == 2 {
        let samples: Vec<i16> = convert_pairs(words, mix);
        let bytes: Vec<u8> = pcm::samples_to_bytes(samples.as_slice());
        return Captured { samples, bytes };
    }
    let mut bytes: Vec<u8> = Vec::new();
    float_to_i16_bytes(words, to_sample, &mut bytes);
    let samples: Vec<i16> = pcm::samples_from_bytes(bytes.as_slice());
    proof {
        let made = choose|made: Seq<i16>|
            {
                &&& each_converted(words@, *to_sample, made)
                &&& bytes@ == Seq::<u8>::empty() + #[trigger] pcm::pcm_bytes(made)
            };
        assert(bytes@ =~= pcm::pcm_bytes(made));
        pcm::law_samples_after_bytes(made);
    }
    Captured { samples, bytes }
}

/// How many channels are left of a device's data once it is 16-bit PCM: one where stereo was mixed
/// down, all of them otherwise.
pub open spec fn channels_left(format: DeviceFormat) -> nat {
    if format.channels == 2 && (format.bits_per_sample == 16 || format.bits_per_sample == 32) {
        1
    } else {
        format.channels as nat
    }
}

/// How many channels the captured samples of a device have.
pub fn converted_channels(format: DeviceFormat) -> (channels: usize)
    ensures
        channels == channels_left(format),
{
    if format.channels == 2 && (format.bits_per_sample == 16 || format.bits_per_sample == 32) {
        1
    } else {
        format.channels
    }
}

/// The resampler for what a device delivers: one for the channels that its captured samples have,
/// with a converter that `make` makes for the two rates and those channels. There is none where the
/// device runs at the target rate already, nor where the converter cannot be made.
pub fn plan_resampler<S, M: Fn(u32, u32, usize) -> Result<S, String>>(
    format: DeviceFormat,
    target_rate: u32,
    make: M,
) -> (plan: Option<AudioResampler<S>>)
    requires
        format.sample_rate != target_rate ==> call_requires(
            make,
            (format.sample_rate, target_rate, channels_left(format) as usize),
        ),
    ensures
        format.sample_rate == target_rate ==> plan is None,
        format.sample_rate != target_rate ==> exists|converter: Result<S, String>|
            {
                &&& #[trigger] call_ensures(
                    make,
                    (format.sample_rate, target_rate, channels_left(format) as usize),
                    converter,
                )
                &&& match converter {
                    Ok(c) => plan matches Some(r) && r@.valid() && r@ == resampler::fresh(
                        format.sample_rate,
                        target_rate,
                        channels_left(format),
                        c,
                    ),
                    Err(_) => plan is None,
                }
            },
{
    match AudioResampler::new(format.sample_rate, target_rate, converted_channels(format), make) {
        Ok(made) => Some(made),
        Err(_) => None,
    }
}

/// The rate and the bytes that go out for a piece of captured audio.
///
/// With a resampler, the converted samples at the target rate; without one, or where the
/// conversion failed, the captured bytes at the device's rate.
pub fn outgoing<S, P: Fn(S, Vec<Vec<i16>>) -> (S, Result<Vec<Vec<i16>>, String>)>(
    captured: Captured,
    resampling: &mut Option<AudioResampler<S>>,
    process: P,
    device_rate: u32,
    target_rate: u32,
) -> (sent: (u32, Vec<u8>))
    requires
        *old(resampling) matches Some(r) ==> {
            &&& r@.valid()
            &&& r@.channels > 0
            &&& resampler::balanced(resampler::dealt(r@.pending, captured.samples@))
            &&& resampler::can_process(process, r@.channels)
        },
    ensures
        *old(resampling) is None ==> *final(resampling) is None && sent.0 == device_rate && sent.1@
            == captured.bytes@,
        *old(resampling) matches Some(before) ==> {
            &&& *final(resampling) matches Some(after)
            &&& after@.valid()
            &&& after@.channels == before@.channels
            &&& after@.source_rate == before@.source_rate
            &&& after@.target_rate == before@.target_rate
            &&& resampled(
                process,
                resampler::dealt(before@.pending, captured.samples@),
                before@.converter->0,
                after@.pending,
                after@.converter->0,
                captured.bytes@,
                device_rate,
                target_rate,
                sent.0,
                sent.1@,
            )
        },
{
    match resampling {
        Some(converter) => {
            match converter.resample(captured.samples.as_slice(), process) {
                Ok(samples) => (target_rate, pcm::samples_to_bytes(samples.as_slice())),
                Err(_) => (device_rate, captured.bytes),
            }
        },
        None => (device_rate, captured.bytes),
    }
}

/// What goes out of a resampler that holds `all`, and whose converter was `before` and is `after`:
/// the converted samples at the target rate, or the unconverted bytes at the device's rate if the
/// converter failed.
pub open spec fn resampled<
    S,
    P: Fn(S, Vec<Vec<i16>>) -> (S, Result<Vec<Vec<i16>>, String>),
>(
    process: P,
    all: Seq<Seq<i16>>,
    before: S,
    left: Seq<Seq<i16>>,
    after: S,
    unconverted: Seq<u8>,
    device_rate: u32,
    target_rate: u32,
    rate: u32,
    bytes: Seq<u8>,
) -> bool {
    ||| exists|samples: Seq<i16>|
        {
            &&& resampler::converted_all(process, all, before, samples, left, after)
            &&& rate == target_rate
            &&& bytes == #[trigger] pcm::pcm_bytes(samples)
        }
    ||| exists|reason: Seq<char>|
        {
            &&& #[trigger] resampler::stopped_short(process, all, before, reason, left, after)
            &&& rate == device_rate
            &&& bytes == unconverted
        }
}

/// The queue never loses its place: what is taken and what stays make up what was there, and what
/// is taken is a whole number of frames, at most 4096 of them.
pub proof fn law_whole_frames_leave(queue: Seq<u8>, frame_size: nat)
    requires
        frame_size > 0,
    ensures
        ({
            let n = outgoing_len(queue.len(), frame_size);
            &&& n <= queue.len()
            &&& n % frame_size == 0
            &&& n <= MAX_FRAMES * frame_size
            &&& queue.take(n as int) + queue.skip(n as int) == queue
        }),
{
    let frames = queue.len() / frame_size;
    let sent = if frames < MAX_FRAMES {
        frames
    } else {
        MAX_FRAMES as nat
    };
    vstd::arithmetic::div_mod::lemma_fundamental_div_mod(queue.len() as int, frame_size as int);
    vstd::arithmetic::div_mod::lemma_mod_bound(queue.len() as int, frame_size as int);
    vstd::arithmetic::div_mod::lemma_mod_multiples_basic(sent as int, frame_size as int);
    assert(sent * frame_size <= frame_size * frames && sent * frame_size <= MAX_FRAMES
        * frame_size) by (nonlinear_arith)
        requires
            sent <= frames,
            sent <= MAX_FRAMES,
    ;
    let n = outgoing_len(queue.len(), frame_size) as int;
    assert(queue.take(n) + queue.skip(n) =~= queue);
}

/// 16-bit data of a device with one channel goes out as it came in.
pub proof fn law_mono_16_bit_is_untouched<F: Fn(u32) -> i16, G: Fn(u32, u32) -> i16>(
    raw: Seq<u8>,
    format: DeviceFormat,
    to_sample: F,
    mix: G,
    samples: Seq<i16>,
    bytes: Seq<u8>,
)
    requires
        format.bits_per_sample == 16,
        format.channels == 1,
        is_captured(raw, format, to_sample, mix, samples, bytes),
    ensures
        bytes == raw,
{
}

/// Whole 16-bit samples of a device with any number of channels but two go out as they came in.
pub proof fn law_16_bit_is_not_converted<F: Fn(u32) -> i16, G: Fn(u32, u32) -> i16>(
    raw: Seq<u8>,
    channels: nat,
    to_sample: F,
    mix: G,
    bytes: Seq<u8>,
)
    requires
        channels != 2,
        raw.len() % 2 == 0,
        is_pcm_of(raw, 16, channels, to_sample, mix, bytes),
    ensures
        bytes == raw,
{
    pcm::law_bytes_after_samples(raw);
}

/// Stereo takes half the bytes once it is mixed down.
pub proof fn law_stereo_is_halved<F: Fn(u32) -> i16, G: Fn(u32, u32) -> i16>(
    raw: Seq<u8>,
    to_sample: F,
    mix: G,
    bytes: Seq<u8>,
)
    requires
        raw.len() % 4 == 0,
        is_pcm_of(raw, 16, 2, to_sample, mix, bytes),
    ensures
        2 * bytes.len() == raw.len(),
{
}

/// Stereo of either width that a device delivers becomes one sample for each frame, and those
/// samples are what goes out.
pub proof fn law_stereo_is_one_sample_a_frame<F: Fn(u32) -> i16, G: Fn(u32, u32) -> i16>(
    raw: Seq<u8>,
    format: DeviceFormat,
    to_sample: F,
    mix: G,
    samples: Seq<i16>,
    bytes: Seq<u8>,
)
    requires
        format.channels == 2,
        format.bits_per_sample == 16 || format.bits_per_sample == 32,
        is_captured(raw, format, to_sample, mix, samples, bytes),
    ensures
        channels_left(format) == 1,
        samples.len() == raw.len() / (format.bits_per_sample as nat / 4),
        bytes == pcm::pcm_bytes(samples),
{
    if format.bits_per_sample == 16 {
        pcm::law_samples_after_bytes(pcm::mono(pcm::pcm_samples(raw)));
    } else {
        let made = choose|made: Seq<i16>|
            bytes == #[trigger] pcm::pcm_bytes(made) && pairs_converted(pcm::words(raw), mix, made);
        pcm::law_samples_after_bytes(made);
    }
}

/// A block of floating-point samples goes out as 16-bit PCM of that block alone: one sample for
/// each pair of stereo words, and one for each word otherwise, in order.
pub proof fn law_float_block<F: Fn(u32) -> i16, G: Fn(u32, u32) -> i16>(
    words: Seq<u32>,
    channels: nat,
    to_sample: F,
    mix: G,
    samples: Seq<i16>,
)
    requires
        floats_converted(words, channels, to_sample, mix, samples),
    ensures
        channels == 2 ==> pcm::pcm_bytes(samples).len() == 2 * (words.len() / 2),
        channels != 2 ==> pcm::pcm_bytes(samples).len() == 2 * words.len(),
        forall|i: int|
            0 <= i < samples.len() ==> if channels == 2 {
                call_ensures(
                    mix,
                    (words[2 * i], words[2 * i + 1]),
                    #[trigger] pcm::pcm_samples(pcm::pcm_bytes(samples))[i],
                )
            } else {
                call_ensures(
                    to_sample,
                    (words[i],),
                    pcm::pcm_samples(pcm::pcm_bytes(samples))[i],
                )
            },
{
    pcm::law_samples_after_bytes(samples);
}

/// Data of one channel with every sample written twice in a row; a sample has `width` bytes.
pub open spec fn doubled(sound: Seq<u8>, width: int) -> Seq<u8> {
    Seq::new(
        2 * sound.len(),
        |k: int| sound[(k / (2 * width)) * width + k % width],
    )
}

/// Stereo data with left and right exchanged; a sample has `width` bytes.
pub open spec fn swapped(stereo: Seq<u8>, width: int) -> Seq<u8> {
    Seq::new(
        stereo.len(),
        |k: int|
            if k % (2 * width) < width {
                stereo[k + width]
            } else {
                stereo[k - width]
            },
    )
}

/// Both copies of sample `i` in doubled data, byte by byte.
proof fn lemma_doubled_at(sound: Seq<u8>, width: int, i: int, copy: int, j: int)
    requires
        0 <= j < width,
        0 <= copy <= 1,
        0 <= i,
        width * i + width <= sound.len(),
    ensures
        doubled(sound, width)[2 * (width * i) + copy * width + j] == sound[width * i + j],
{
    let k = 2 * (width * i) + copy * width + j;
    assert(k == i * (2 * width) + (copy * width + j) && k == (2 * i + copy) * width + j)
        by (nonlinear_arith)
        requires
            k == 2 * (width * i) + copy * width + j,
    ;
    assert(0 <= copy * width <= width && 0 <= width * i) by (nonlinear_arith)
        requires
            0 <= copy <= 1,
            0 <= i,
            0 < width,
    ;
    assert(i * width == width * i) by (nonlinear_arith);
    vstd::arithmetic::div_mod::lemma_fundamental_div_mod_converse(
        k,
        2 * width,
        i,
        copy * width + j,
    );
    vstd::arithmetic::div_mod::lemma_fundamental_div_mod_converse(k, width, 2 * i + copy, j);
}

/// Byte `j` of the left or the right sample of frame `i` in swapped data.
proof fn lemma_swapped_at(stereo: Seq<u8>, width: int, i: int, j: int)
    requires
        0 <= j < width,
        0 <= i,
        2 * (width * i) + 2 * width <= stereo.len(),
    ensures
        swapped(stereo, width)[2 * (width * i) + j] == stereo[2 * (width * i) + width + j],
        swapped(stereo, width)[2 * (width * i) + width + j] == stereo[2 * (width * i) + j],
{
    let start = 2 * (width * i);
    assert(start == i * (2 * width) && start >= 0) by (nonlinear_arith)
        requires
            start == 2 * (width * i),
            width > 0,
            i >= 0,
    ;
    vstd::arithmetic::div_mod::lemma_fundamental_div_mod_converse(start + j, 2 * width, i, j);
    vstd::arithmetic::div_mod::lemma_fundamental_div_mod_converse(
        start + width + j,
        2 * width,
        i,
        width + j,
    );
}

/// Stereo that carries the same sound on both channels is converted to what the sound alone is
/// converted to. Of floating-point data this holds where mixing a word with itself gives what
/// converting it gives.
pub proof fn law_equal_channels_convert_alike<F: Fn(u32) -> i16, G: Fn(u32, u32) -> i16>(
    sound: Seq<u8>,
    bits_per_sample: nat,
    to_sample: F,
    mix: G,
    one: Seq<u8>,
    both: Seq<u8>,
)
    requires
        bits_per_sample == 16 || bits_per_sample == 32,
        sound.len() % (bits_per_sample / 8) == 0,
        bits_per_sample == 32 ==> forall|word: u32, alone: i16, mixed: i16|
            #[trigger] call_ensures(to_sample, (word,), alone) && #[trigger] call_ensures(
                mix,
                (word, word),
                mixed,
            ) ==> alone == mixed,
        is_pcm_of(sound, bits_per_sample, 1, to_sample, mix, one),
        is_pcm_of(
            doubled(sound, bits_per_sample as int / 8),
            bits_per_sample,
            2,
            to_sample,
            mix,
            both,
        ),
    ensures
        both == one,
{
    if bits_per_sample == 16 {
        lemma_doubled_samples(sound);
        pcm::law_mix_of_equal_channels(
            pcm::pcm_samples(sound),
            pcm::pcm_samples(doubled(sound, 2)),
        );
    } else {
        lemma_doubled_words(sound);
        lemma_equal_words(sound, to_sample, mix, one, both);
    }
}

proof fn lemma_doubled_samples(sound: Seq<u8>)
    requires
        sound.len() % 2 == 0,
    ensures
        pcm::pcm_samples(doubled(sound, 2)).len() == 2 * pcm::pcm_samples(sound).len(),
        forall|i: int|
            0 <= i < pcm::pcm_samples(sound).len() ==> pcm::pcm_samples(doubled(sound, 2))[2 * i]
                == #[trigger] pcm::pcm_samples(sound)[i] && pcm::pcm_samples(
                doubled(sound, 2),
            )[2 * i + 1] == pcm::pcm_samples(sound)[i],
{
    let stereo = doubled(sound, 2);
    let mono = pcm::pcm_samples(sound);
    let pairs = pcm::pcm_samples(stereo);
    assert forall|i: int| 0 <= i < mono.len() implies pairs[2 * i] == #[trigger] mono[i] && pairs[2
        * i + 1] == mono[i] by {
        lemma_doubled_at(sound, 2, i, 0, 0);
        lemma_doubled_at(sound, 2, i, 0, 1);
        lemma_doubled_at(sound, 2, i, 1, 0);
        lemma_doubled_at(sound, 2, i, 1, 1);
    }
}

proof fn lemma_doubled_words(sound: Seq<u8>)
    requires
        sound.len() % 4 == 0,
    ensures
        pcm::words(doubled(sound, 4)).len() == 2 * pcm::words(sound).len(),
        forall|i: int|
            0 <= i < pcm::words(sound).len() ==> pcm::words(doubled(sound, 4))[2 * i]
                == #[trigger] pcm::words(sound)[i] && pcm::words(doubled(sound, 4))[2 * i + 1]
                == pcm::words(sound)[i],
{
    let stereo = doubled(sound, 4);
    let mono = pcm::words(sound);
    let pairs = pcm::words(stereo);
    assert forall|i: int| 0 <= i < mono.len() implies pairs[2 * i] == #[trigger] mono[i] && pairs[2
        * i + 1] == mono[i] by {
        lemma_doubled_word(sound, i);
    }
}

proof fn lemma_doubled_word(sound: Seq<u8>, i: int)
    requires
        sound.len() % 4 == 0,
        0 <= i < sound.len() / 4,
    ensures
        doubled(sound, 4).subrange(8 * i, 8 * i + 4) == sound.subrange(4 * i, 4 * i + 4),
        doubled(sound, 4).subrange(8 * i + 4, 8 * i + 8) == sound.subrange(4 * i, 4 * i + 4),
{
    let stereo = doubled(sound, 4);
    let word = sound.subrange(4 * i, 4 * i + 4);
    assert forall|j: int| 0 <= j < 4 implies #[trigger] stereo.subrange(8 * i, 8 * i + 4)[j]
        == word[j] by {
        lemma_doubled_at(sound, 4, i, 0, j);
    }
    assert forall|j: int| 0 <= j < 4 implies #[trigger] stereo.subrange(8 * i + 4, 8 * i + 8)[j]
        == word[j] by {
        lemma_doubled_at(sound, 4, i, 1, j);
    }
    assert(stereo.subrange(8 * i, 8 * i + 4) =~= word);
    assert(stereo.subrange(8 * i + 4, 8 * i + 8) =~= word);
}

proof fn lemma_equal_words<F: Fn(u32) -> i16, G: Fn(u32, u32) -> i16>(
    sound: Seq<u8>,
    to_sample: F,
    mix: G,
    one: Seq<u8>,
    both: Seq<u8>,
)
    requires
        pcm::words(doubled(sound, 4)).len() == 2 * pcm::words(sound).len(),
        forall|i: int|
            0 <= i < pcm::words(sound).len() ==> pcm::words(doubled(sound, 4))[2 * i]
                == #[trigger] pcm::words(sound)[i] && pcm::words(doubled(sound, 4))[2 * i + 1]
                == pcm::words(sound)[i],
        forall|word: u32, alone: i16, mixed: i16|
            #[trigger] call_ensures(to_sample, (word,), alone) && #[trigger] call_ensures(
                mix,
                (word, word),
                mixed,
            ) ==> alone == mixed,
        is_pcm_of(sound, 32, 1, to_sample, mix, one),
        is_pcm_of(doubled(sound, 4), 32, 2, to_sample, mix, both),
    ensures
        both == one,
{
    let mono = pcm::words(sound);
    let pairs = pcm::words(doubled(sound, 4));
    let alone = choose|alone: Seq<i16>|
        one == #[trigger] pcm::pcm_bytes(alone) && each_converted(mono, to_sample, alone);
    let mixed = choose|mixed: Seq<i16>|
        both == #[trigger] pcm::pcm_bytes(mixed) && pairs_converted(pairs, mix, mixed);
    assert forall|i: int| 0 <= i < alone.len() implies alone[i] == mixed[i] by {
        assert(call_ensures(to_sample, (mono[i],), alone[i]));
        assert(call_ensures(mix, (pairs[2 * i], pairs[2 * i + 1]), mixed[i]));
        assert(pairs[2 * i] == mono[i] && pairs[2 * i + 1] == mono[i]);
    }
    assert(alone =~= mixed);
}

proof fn lemma_swapped_word(stereo: Seq<u8>, i: int)
    requires
        stereo.len() % 8 == 0,
        0 <= i < stereo.len() / 8,
    ensures
        swapped(stereo, 4).subrange(8 * i, 8 * i + 4) == stereo.subrange(8 * i + 4, 8 * i + 8),
        swapped(stereo, 4).subrange(8 * i + 4, 8 * i + 8) == stereo.subrange(8 * i, 8 * i + 4),
{
    let exchanged = swapped(stereo, 4);
    assert forall|j: int| 0 <= j < 4 implies #[trigger] exchanged.subrange(8 * i, 8 * i + 4)[j]
        == stereo.subrange(8 * i + 4, 8 * i + 8)[j] by {
        lemma_swapped_at(stereo, 4, i, j);
    }
    assert forall|j: int| 0 <= j < 4 implies #[trigger] exchanged.subrange(8 * i + 4, 8 * i + 8)[j]
        == stereo.subrange(8 * i, 8 * i + 4)[j] by {
        lemma_swapped_at(stereo, 4, i, j);
    }
    assert(exchanged.subrange(8 * i, 8 * i + 4) =~= stereo.subrange(8 * i + 4, 8 * i + 8));
    assert(exchanged.subrange(8 * i + 4, 8 * i + 8) =~= stereo.subrange(8 * i, 8 * i + 4));
}

/// Exchanging left and right does not change what stereo is converted to. Of floating-point data
/// this holds where mixing two words does not depend on their order.
pub proof fn law_swapped_channels_convert_alike<F: Fn(u32) -> i16, G: Fn(u32, u32) -> i16>(
    stereo: Seq<u8>,
    bits_per_sample: nat,
    to_sample: F,
    mix: G,
    one: Seq<u8>,
    other: Seq<u8>,
)
    requires
        bits_per_sample == 16 || bits_per_sample == 32,
        stereo.len() % (bits_per_sample / 4) == 0,
        bits_per_sample == 32 ==> forall|left: u32, right: u32, there: i16, back: i16|
            #[trigger] call_ensures(mix, (left, right), there) && #[trigger] call_ensures(
                mix,
                (right, left),
                back,
            ) ==> there == back,
        is_pcm_of(stereo, bits_per_sample, 2, to_sample, mix, one),
        is_pcm_of(
            swapped(stereo, bits_per_sample as int / 8),
            bits_per_sample,
            2,
            to_sample,
            mix,
            other,
        ),
    ensures
        other == one,
{
    let exchanged = swapped(stereo, bits_per_sample as int / 8);
    if bits_per_sample == 16 {
        let before = pcm::pcm_samples(stereo);
        let after = pcm::pcm_samples(exchanged);
        assert forall|i: int| 0 <= i < pcm::mono(before).len() implies pcm::mono(after)[i]
            == #[trigger] pcm::mono(before)[i] by {
            lemma_swapped_at(stereo, 2, i, 0);
            lemma_swapped_at(stereo, 2, i, 1);
            assert(after[2 * i] == before[2 * i + 1]);
            assert(after[2 * i + 1] == before[2 * i]);
        }
        assert(pcm::mono(after) =~= pcm::mono(before));
    } else {
        let before = pcm::words(stereo);
        let after = pcm::words(exchanged);
        let made = choose|made: Seq<i16>|
            one == #[trigger] pcm::pcm_bytes(made) && pairs_converted(before, mix, made);
        let remade = choose|remade: Seq<i16>|
            other == #[trigger] pcm::pcm_bytes(remade) && pairs_converted(after, mix, remade);
        assert forall|i: int| 0 <= i < made.len() implies made[i] == remade[i] by {
            lemma_swapped_word(stereo, i);
            assert(after[2 * i] == before[2 * i + 1]);
            assert(after[2 * i + 1] == before[2 * i]);
            assert(call_ensures(mix, (before[2 * i], before[2 * i + 1]), made[i]));
            assert(call_ensures(mix, (after[2 * i], after[2 * i + 1]), remade[i]));
        }
        assert(made =~= remade);
    }
}

/// Byte sequences one after the other.
pub open spec fn end_to_end(pieces: Seq<Seq<u8>>) -> Seq<u8>
    decreases pieces.len(),
{
    if pieces.len() == 0 {
        Seq::empty()
    } else {
        end_to_end(pieces.drop_last()) + pieces.last()
    }
}

/// What waits in the queue after a series of reads, once frames were taken after each of them.
pub open spec fn queue_run(reads: Seq<Seq<u8>>, frame_size: nat) -> Seq<u8>
    decreases reads.len(),
{
    if reads.len() == 0 {
        Seq::empty()
    } else {
        let queue = queue_run(reads.drop_last(), frame_size) + reads.last();
        queue.skip(outgoing_len(queue.len(), frame_size) as int)
    }
}

/// The pieces that were taken from the queue over a series of reads.
pub open spec fn pieces_run(reads: Seq<Seq<u8>>, frame_size: nat) -> Seq<Seq<u8>>
    decreases reads.len(),
{
    if reads.len() == 0 {
        Seq::empty()
    } else {
        let earlier = pieces_run(reads.drop_last(), frame_size);
        let queue = queue_run(reads.drop_last(), frame_size) + reads.last();
        if queue.len() < frame_size {
            earlier
        } else {
            earlier.push(queue.take(outgoing_len(queue.len(), frame_size) as int))
        }
    }
}

/// Over any series of reads, the pieces that were taken and what is still queued are all that was
/// read, in order; and every piece is some whole frames, at most 4096 of them.
pub proof fn law_nothing_is_lost_over_a_run(reads: Seq<Seq<u8>>, frame_size: nat)
    requires
        frame_size > 0,
    ensures
        end_to_end(pieces_run(reads, frame_size)) + queue_run(reads, frame_size) == end_to_end(
            reads,
        ),
        forall|k: int|
            0 <= k < pieces_run(reads, frame_size).len() ==> {
                let piece = #[trigger] pieces_run(reads, frame_size)[k];
                &&& piece.len() > 0
                &&& piece.len() % frame_size == 0
                &&& piece.len() <= MAX_FRAMES * frame_size
            },
    decreases reads.len(),
{
    if reads.len() == 0 {
        assert(end_to_end(pieces_run(reads, frame_size)) + queue_run(reads, frame_size)
            =~= end_to_end(reads));
    } else {
        let before = reads.drop_last();
        law_nothing_is_lost_over_a_run(before, frame_size);
        let earlier = pieces_run(before, frame_size);
        let queue = queue_run(before, frame_size) + reads.last();
        let n = outgoing_len(queue.len(), frame_size) as int;
        law_whole_frames_leave(queue, frame_size);
        let frames = queue.len() / frame_size;
        vstd::arithmetic::div_mod::lemma_fundamental_div_mod(queue.len() as int, frame_size as int);
        vstd::arithmetic::div_mod::lemma_mod_bound(queue.len() as int, frame_size as int);
        if queue.len() < frame_size {
            vstd::arithmetic::div_mod::lemma_basic_div(queue.len() as int, frame_size as int);
            vstd::arithmetic::mul::lemma_mul_basics(frame_size as int);
            assert(end_to_end(earlier) + queue.skip(0) =~= end_to_end(before) + reads.last());
        } else {
            if frames == 0 {
                vstd::arithmetic::mul::lemma_mul_basics(frame_size as int);
            }
            assert(n > 0) by (nonlinear_arith)
                requires
                    frames > 0,
                    frame_size > 0,
                    n == frames * frame_size || n == MAX_FRAMES * frame_size,
            ;
            let more = earlier.push(queue.take(n));
            assert(more.drop_last() =~= earlier);
            assert(end_to_end(more) + queue.skip(n) =~= end_to_end(earlier) + (queue.take(n)
                + queue.skip(n)));
            assert(end_to_end(earlier) + queue =~= end_to_end(before) + reads.last());
        }
    }
}

/// A message that goes out: a rate, and the bytes that it is the rate of.
pub struct SentView {
    pub sample_rate: u32,
    pub bytes: Seq<u8>,
}

/// `sent` is what goes out for `raw` data of a device without a resampler.
pub open spec fn sent_unconverted<F: Fn(u32) -> i16, G: Fn(u32, u32) -> i16>(
    raw: Seq<u8>,
    format: DeviceFormat,
    to_sample: F,
    mix: G,
    sent: SentView,
) -> bool {
    &&& sent.sample_rate == format.sample_rate
    &&& exists|samples: Seq<i16>| #[trigger]
        is_captured(raw, format, to_sample, mix, samples, sent.bytes)
}

/// The bytes of messages, message by message.
pub open spec fn sent_bytes(messages: Seq<SentView>) -> Seq<Seq<u8>> {
    Seq::new(messages.len(), |k: int| messages[k].bytes)
}

/// A device with one channel of 16-bit data that runs at the target rate is relayed byte by byte:
/// over any series of reads, every message has the device's rate and some whole frames, and all
/// messages together are the beginning of all that was read. What is missing of it is still queued.
pub proof fn law_mono_16_bit_is_relayed<F: Fn(u32) -> i16, G: Fn(u32, u32) -> i16>(
    reads: Seq<Seq<u8>>,
    format: DeviceFormat,
    to_sample: F,
    mix: G,
    messages: Seq<SentView>,
)
    requires
        format.bits_per_sample == 16,
        format.channels == 1,
        format.block_align > 0,
        messages.len() == pieces_run(reads, format.block_align as nat).len(),
        forall|k: int|
            0 <= k < messages.len() ==> sent_unconverted(
                pieces_run(reads, format.block_align as nat)[k],
                format,
                to_sample,
                mix,
                #[trigger] messages[k],
            ),
    ensures
        end_to_end(sent_bytes(messages)) + queue_run(reads, format.block_align as nat)
            == end_to_end(reads),
        forall|k: int|
            0 <= k < messages.len() ==> {
                let sent = #[trigger] messages[k];
                &&& sent.sample_rate == format.sample_rate
                &&& sent.bytes.len() > 0
                &&& sent.bytes.len() % format.block_align as nat == 0
                &&& sent.bytes.len() <= MAX_FRAMES * format.block_align
            },
{
    let frame_size = format.block_align as nat;
    let pieces = pieces_run(reads, frame_size);
    law_nothing_is_lost_over_a_run(reads, frame_size);
    assert forall|k: int| 0 <= k < messages.len() implies (#[trigger] messages[k]).bytes
        == pieces[k] by {
        assert(sent_unconverted(pieces[k], format, to_sample, mix, messages[k]));
    }
    assert(sent_bytes(messages) =~= pieces);
    assert forall|k: int| 0 <= k < messages.len() implies {
        let sent = #[trigger] messages[k];
        &&& sent.sample_rate == format.sample_rate
        &&& sent.bytes.len() > 0
        &&& sent.bytes.len() % format.block_align as nat == 0
        &&& sent.bytes.len() <= MAX_FRAMES * format.block_align
    } by {
        assert(messages[k].bytes == pieces[k]);
    }
}

/// The rate that is sent is the rate of what is sent: the target rate goes with converted samples,
/// or with a device that runs at it; the device's rate goes with the bytes as they were captured.
/// There is no third rate.
pub proof fn law_rate_is_true<
    S,
    P: Fn(S, Vec<Vec<i16>>) -> (S, Result<Vec<Vec<i16>>, String>),
>(
    process: P,
    resampling: Option<Seq<Seq<i16>>>,
    before: S,
    left: Seq<Seq<i16>>,
    after: S,
    unconverted: Seq<u8>,
    device_rate: u32,
    target_rate: u32,
    rate: u32,
    bytes: Seq<u8>,
)
    requires
        match resampling {
            Some(all) => resampled(
                process,
                all,
                before,
                left,
                after,
                unconverted,
                device_rate,
                target_rate,
                rate,
                bytes,
            ),
            None => rate == device_rate && bytes == unconverted,
        },
    ensures
        ({
            ||| rate == device_rate && bytes == unconverted
            ||| {
                &&& rate == target_rate
                &&& resampling is Some
                &&& exists|samples: Seq<i16>|
                    {
                        &&& resampler::converted_all(
                            process,
                            resampling->0,
                            before,
                            samples,
                            left,
                            after,
                        )
                        &&& bytes == #[trigger] pcm::pcm_bytes(samples)
                    }
            }
        }),
        device_rate == target_rate ==> rate == target_rate,
{
}

/// As many whole frames leave the queue as there are, or 4096 if there are more.
pub proof fn law_as_many_frames_as_possible(queued: nat, frame_size: nat)
    requires
        frame_size > 0,
    ensures
        ({
            let n = outgoing_len(queued, frame_size);
            &&& n <= queued
            &&& n == 4096 * frame_size || queued - n < frame_size
            &&& queued >= frame_size ==> n >= frame_size
        }),
{
    let frames = queued / frame_size;
    vstd::arithmetic::div_mod::lemma_fundamental_div_mod(queued as int, frame_size as int);
    vstd::arithmetic::div_mod::lemma_mod_bound(queued as int, frame_size as int);
    vstd::arithmetic::mul::lemma_mul_is_commutative(frame_size as int, frames as int);
    if frames == 0 {
        vstd::arithmetic::mul::lemma_mul_basics(frame_size as int);
    } else {
        assert(frames * frame_size >= frame_size && (frames >= 4096 ==> 4096 * frame_size <= frames
            * frame_size)) by (nonlinear_arith)
            requires
                frames >= 1,
                frame_size > 0,
        ;
    }
}

/// 32-bit data goes out as one 16-bit sample for each 32-bit word, or for each pair of words of a
/// stereo device, in order: the sample that the given function gives for the word or the pair.
pub proof fn law_wide_data_is_converted<F: Fn(u32) -> i16, G: Fn(u32, u32) -> i16>(
    raw: Seq<u8>,
    channels: nat,
    to_sample: F,
    mix: G,
    bytes: Seq<u8>,
)
    requires
        is_pcm_of(raw, 32, channels, to_sample, mix, bytes),
    ensures
        ({
            let samples = pcm::pcm_samples(bytes);
            &&& bytes == pcm::pcm_bytes(samples)
            &&& channels == 2 ==> {
                &&& samples.len() == raw.len() / 8
                &&& forall|i: int|
                    0 <= i < samples.len() ==> call_ensures(
                        mix,
                        (pcm::words(raw)[2 * i], pcm::words(raw)[2 * i + 1]),
                        #[trigger] samples[i],
                    )
            }
            &&& channels != 2 ==> {
                &&& samples.len() == raw.len() / 4
                &&& forall|i: int|
                    0 <= i < samples.len() ==> call_ensures(
                        to_sample,
                        (pcm::words(raw)[i],),
                        #[trigger] samples[i],
                    )
            }
        }),
{
    let made = choose|made: Seq<i16>|
        {
            &&& bytes == #[trigger] pcm::pcm_bytes(made)
            &&& if channels == 2 {
                pairs_converted(pcm::words(raw), mix, made)
            } else {
                each_converted(pcm::words(raw), to_sample, made)
            }
        };
    pcm::law_samples_after_bytes(made);
}

/// 16-bit stereo goes out as one sample for each whole frame: the mean of the frame's two samples,
/// rounded toward zero, whatever their signs.
pub proof fn law_narrow_stereo_is_mixed<F: Fn(u32) -> i16, G: Fn(u32, u32) -> i16>(
    raw: Seq<u8>,
    to_sample: F,
    mix: G,
    bytes: Seq<u8>,
)
    requires
        is_pcm_of(raw, 16, 2, to_sample, mix, bytes),
    ensures
        ({
            let given = pcm::pcm_samples(raw);
            let samples = pcm::pcm_samples(bytes);
            &&& bytes == pcm::pcm_bytes(samples)
            &&& samples.len() == raw.len() / 4
            &&& forall|i: int|
                0 <= i < samples.len() ==> {
                    let sum = given[2 * i] + given[2 * i + 1];
                    let twice = 2 * (#[trigger] samples[i]);
                    &&& -1 <= twice - sum <= 1
                    &&& sum >= 0 ==> 0 <= twice <= sum
                    &&& sum <= 0 ==> sum <= twice <= 0
                }
        }),
{
    let given = pcm::pcm_samples(raw);
    pcm::law_samples_after_bytes(pcm::mono(given));
    pcm::law_every_frame_is_mixed(given);
}

/// 16-bit data that is not stereo goes out as it is, but for half a sample left over at the end, and
/// data of any other width goes out as it is.
pub proof fn law_other_data_is_left_alone<F: Fn(u32) -> i16, G: Fn(u32, u32) -> i16>(
    raw: Seq<u8>,
    bits_per_sample: nat,
    channels: nat,
    to_sample: F,
    mix: G,
    bytes: Seq<u8>,
)
    requires
        is_pcm_of(raw, bits_per_sample, channels, to_sample, mix, bytes),
        bits_per_sample != 32,
    ensures
        bits_per_sample != 16 ==> bytes == raw,
        bits_per_sample == 16 && channels != 2 ==> bytes == raw.take(2 * (raw.len() as int / 2)),
{
    if bits_per_sample == 16 && channels != 2 {
        let even = raw.take(2 * (raw.len() as int / 2));
        assert(pcm::pcm_samples(even) =~= pcm::pcm_samples(raw));
        pcm::law_bytes_after_samples(even);
    }
}

/// The samples of a captured piece are those in its bytes, whatever the format; and its bytes are the
/// 16-bit PCM of the device's data, or the data itself where that is 16-bit mono.
pub proof fn law_samples_and_bytes_agree<F: Fn(u32) -> i16, G: Fn(u32, u32) -> i16>(
    raw: Seq<u8>,
    format: DeviceFormat,
    to_sample: F,
    mix: G,
    samples: Seq<i16>,
    bytes: Seq<u8>,
)
    requires
        is_captured(raw, format, to_sample, mix, samples, bytes),
    ensures
        samples == pcm::pcm_samples(bytes),
        format.bits_per_sample == 16 && format.channels == 1 ==> bytes == raw,
        format.bits_per_sample != 16 || format.channels != 1 ==> is_pcm_of(
            raw,
            format.bits_per_sample as nat,
            format.channels as nat,
            to_sample,
            mix,
            bytes,
        ),
{
}

/// Only stereo of 16 or 32 bits loses a channel on the way.
pub proof fn law_channels_that_are_left(format: DeviceFormat)
    ensures
        channels_left(format) != format.channels <==> {
            &&& format.channels == 2
            &&& format.bits_per_sample == 16 || format.bits_per_sample == 32
        },
        channels_left(format) <= format.channels,
        channels_left(format) == 0 <==> format.channels == 0,
{
}

/// A piece that completes no chunk sends no bytes, at the target rate: its samples only wait, behind
/// those that waited before.
pub proof fn law_incomplete_chunk_sends_nothing<
    S,
    P: Fn(S, Vec<Vec<i16>>) -> (S, Result<Vec<Vec<i16>>, String>),
>(
    process: P,
    all: Seq<Seq<i16>>,
    before: S,
    left: Seq<Seq<i16>>,
    after: S,
    unconverted: Seq<u8>,
    device_rate: u32,
    target_rate: u32,
    rate: u32,
    bytes: Seq<u8>,
)
    requires
        all.len() > 0,
        all[0].len() < 1024,
        resampled(
            process,
            all,
            before,
            left,
            after,
            unconverted,
            device_rate,
            target_rate,
            rate,
            bytes,
        ),
    ensures
        rate == target_rate,
        bytes.len() == 0,
        left == all,
        after == before,
{
    if exists|samples: Seq<i16>|
        {
            &&& resampler::converted_all(process, all, before, samples, left, after)
            &&& rate == target_rate
            &&& bytes == #[trigger] pcm::pcm_bytes(samples)
        } {
        let samples = choose|samples: Seq<i16>|
            {
                &&& resampler::converted_all(process, all, before, samples, left, after)
                &&& rate == target_rate
                &&& bytes == #[trigger] pcm::pcm_bytes(samples)
            };
        resampler::law_incomplete_chunk_waits(process, all, before, Ok(samples), left, after);
    } else {
        let reason = choose|reason: Seq<char>|
            {
                &&& #[trigger] resampler::stopped_short(process, all, before, reason, left, after)
                &&& rate == device_rate
                &&& bytes == unconverted
            };
        resampler::law_incomplete_chunk_waits(process, all, before, Err(reason), left, after);
    }
}

/// The converter never fails.
pub open spec fn never_fails<
    S,
    P: Fn(S, Vec<Vec<i16>>) -> (S, Result<Vec<Vec<i16>>, String>),
>(process: P) -> bool {
    forall|state: S, given: Vec<Vec<i16>>, next: S, error: String| !#[trigger]
        call_ensures(process, (state, given), (next, Err(error)))
}

/// With a converter that never fails, the rate sent is the target rate for every piece, and the bytes
/// sent are those of exactly the samples that the converter gave for the chunks that the piece
/// completed.
pub proof fn law_working_converter_sends_its_samples<
    S,
    P: Fn(S, Vec<Vec<i16>>) -> (S, Result<Vec<Vec<i16>>, String>),
>(
    process: P,
    all: Seq<Seq<i16>>,
    before: S,
    left: Seq<Seq<i16>>,
    after: S,
    unconverted: Seq<u8>,
    device_rate: u32,
    target_rate: u32,
    rate: u32,
    bytes: Seq<u8>,
)
    requires
        all.len() > 0,
        never_fails(process),
        resampled(
            process,
            all,
            before,
            left,
            after,
            unconverted,
            device_rate,
            target_rate,
            rate,
            bytes,
        ),
    ensures
        rate == target_rate,
        resampler::converted_all(
            process,
            all,
            before,
            pcm::pcm_samples(bytes),
            left,
            after,
        ),
        bytes == pcm::pcm_bytes(pcm::pcm_samples(bytes)),
{
    if exists|samples: Seq<i16>|
        {
            &&& resampler::converted_all(process, all, before, samples, left, after)
            &&& rate == target_rate
            &&& bytes == #[trigger] pcm::pcm_bytes(samples)
        } {
        let samples = choose|samples: Seq<i16>|
            {
                &&& resampler::converted_all(process, all, before, samples, left, after)
                &&& rate == target_rate
                &&& bytes == #[trigger] pcm::pcm_bytes(samples)
            };
        pcm::law_samples_after_bytes(samples);
    } else {
        let reason = choose|reason: Seq<char>|
            {
                &&& #[trigger] resampler::stopped_short(process, all, before, reason, left, after)
                &&& rate == device_rate
                &&& bytes == unconverted
            };
        resampler::law_only_the_converter_fails(process, all, before, reason, left, after);
    }
}

/// Bytes go out at the device's rate, where that is not the target rate, only if the converter failed
/// on 1024 samples of every channel out of the buffers; and then they are the captured bytes.
pub proof fn law_device_rate_means_failure<
    S,
    P: Fn(S, Vec<Vec<i16>>) -> (S, Result<Vec<Vec<i16>>, String>),
>(
    process: P,
    all: Seq<Seq<i16>>,
    before: S,
    left: Seq<Seq<i16>>,
    after: S,
    unconverted: Seq<u8>,
    device_rate: u32,
    target_rate: u32,
    rate: u32,
    bytes: Seq<u8>,
)
    requires
        all.len() > 0,
        rate != target_rate,
        resampled(
            process,
            all,
            before,
            left,
            after,
            unconverted,
            device_rate,
            target_rate,
            rate,
            bytes,
        ),
    ensures
        rate == device_rate,
        bytes == unconverted,
        exists|state: S, given: Vec<Vec<i16>>, error: String, k: nat|
            {
                &&& #[trigger] call_ensures(process, (state, given), (after, Err(error)))
                &&& #[trigger] resampler::is_piece(given, all, k)
                &&& 1024 * k + 1024 <= all[0].len()
            },
{
    let reason = choose|reason: Seq<char>|
        {
            &&& #[trigger] resampler::stopped_short(process, all, before, reason, left, after)
            &&& rate == device_rate
            &&& bytes == unconverted
        };
    resampler::law_only_the_converter_fails(process, all, before, reason, left, after);
}

/// With a converter that gives back what it is given, every sample goes out as it was captured, of
/// each channel as many times 1024 as the first one holds, and the others wait for the next piece.
pub proof fn law_every_complete_chunk_is_sent<
    S,
    P: Fn(S, Vec<Vec<i16>>) -> (S, Result<Vec<Vec<i16>>, String>),
>(
    process: P,
    all: Seq<Seq<i16>>,
    before: S,
    left: Seq<Seq<i16>>,
    after: S,
    unconverted: Seq<u8>,
    device_rate: u32,
    target_rate: u32,
    rate: u32,
    bytes: Seq<u8>,
)
    requires
        all.len() > 0,
        resampler::balanced(all),
        resampler::gives_back(process),
        resampled(
            process,
            all,
            before,
            left,
            after,
            unconverted,
            device_rate,
            target_rate,
            rate,
            bytes,
        ),
    ensures
        rate == target_rate,
        ({
            let whole = 1024 * (all[0].len() as int / 1024);
            &&& bytes.len() == 2 * (whole * all.len())
            &&& forall|f: int, c: int|
                0 <= f < whole && 0 <= c < all.len() ==> pcm::pcm_samples(bytes)[f * all.len() + c]
                    == #[trigger] all[c][f]
            &&& left.len() == all.len()
            &&& forall|c: int| 0 <= c < all.len() ==> #[trigger] left[c] == all[c].skip(whole)
        }),
{
    assert forall|state: S, given: Vec<Vec<i16>>, next: S, error: String| !#[trigger] call_ensures(
        process,
        (state, given),
        (next, Err(error)),
    ) by {
        let reply: Result<Vec<Vec<i16>>, String> = Err(error);
        if call_ensures(process, (state, given), (next, reply)) {
            assert(reply is Ok);
        }
    }
    law_working_converter_sends_its_samples(
        process,
        all,
        before,
        left,
        after,
        unconverted,
        device_rate,
        target_rate,
        rate,
        bytes,
    );
    resampler::law_nothing_is_lost_around_the_converter(
        process,
        all,
        before,
        Ok(pcm::pcm_samples(bytes)),
        left,
        after,
    );
}

/// The rate found is the one worked at, and where none is found it is 44100 Hz.
pub proof fn law_detected_rate(probe: DeviceProbe, rate: u32)
    requires
        call_ensures(detect_sample_rate, (probe,), rate),
    ensures
        probe matches DeviceProbe::Rate(found) ==> rate == found,
        !(probe is Rate) ==> rate == 44100,
{
}

/// Taking frames splits the queue: what is taken stood at its front, what stays stood behind, and
/// together they are the queue as it was. Something is taken exactly if a frame is there, and then as
/// many whole frames as are there, or 4096.
pub proof fn law_taking_splits_the_queue(
    queue: &mut VecDeque<u8>,
    frame_size: usize,
    taken: Option<Vec<u8>>,
)
    requires
        frame_size > 0,
        call_ensures(take_frames, (queue, frame_size), taken),
    ensures
        taken is Some <==> old(queue)@.len() >= frame_size,
        taken is None ==> final(queue)@ == old(queue)@,
        taken matches Some(raw) ==> {
            &&& raw@ + final(queue)@ == old(queue)@
            &&& raw@.len() > 0
            &&& raw@.len() % frame_size as nat == 0
            &&& raw@.len() == 4096 * frame_size || final(queue)@.len() < frame_size
        },
{
    if taken is Some {
        law_whole_frames_leave(old(queue)@, frame_size as nat);
        law_as_many_frames_as_possible(old(queue)@.len(), frame_size as nat);
    }
}

/// Without a resampler, a piece goes out as it was captured, at the device's rate.
pub proof fn law_without_resampler_nothing_changes<
    S,
    P: Fn(S, Vec<Vec<i16>>) -> (S, Result<Vec<Vec<i16>>, String>),
>(
    captured: Captured,
    resampling: &mut Option<AudioResampler<S>>,
    process: P,
    device_rate: u32,
    target_rate: u32,
    sent: (u32, Vec<u8>),
)
    requires
        *old(resampling) is None,
        call_ensures(
            outgoing::<S, P>,
            (captured, resampling, process, device_rate, target_rate),
            sent,
        ),
    ensures
        sent.0 == device_rate,
        sent.1@ == captured.bytes@,
        *final(resampling) is None,
{
}

/// With a resampler, a piece that fills no chunk of 1024 samples sends nothing, at the target rate,
/// and its samples wait; and a piece goes out at another rate than the target rate only as it was
/// captured, at the device's rate, after the converter failed.
pub proof fn law_with_resampler_only_failure_is_sent_raw<
    S,
    P: Fn(S, Vec<Vec<i16>>) -> (S, Result<Vec<Vec<i16>>, String>),
>(
    captured: Captured,
    resampling: &mut Option<AudioResampler<S>>,
    process: P,
    device_rate: u32,
    target_rate: u32,
    sent: (u32, Vec<u8>),
)
    requires
        *old(resampling) matches Some(r) && r@.valid() && r@.channels > 0,
        call_ensures(
            outgoing::<S, P>,
            (captured, resampling, process, device_rate, target_rate),
            sent,
        ),
    ensures
        ({
            let all = resampler::dealt(old(resampling)->0@.pending, captured.samples@);
            &&& all[0].len() < 1024 ==> {
                &&& sent.0 == target_rate
                &&& sent.1@.len() == 0
                &&& final(resampling)->0@.pending == all
                &&& final(resampling)->0@.converter == old(resampling)->0@.converter
            }
            &&& never_fails(process) ==> {
                &&& sent.0 == target_rate
                &&& resampler::converted_all(
                    process,
                    all,
                    old(resampling)->0@.converter->0,
                    pcm::pcm_samples(sent.1@),
                    final(resampling)->0@.pending,
                    final(resampling)->0@.converter->0,
                )
            }
            &&& sent.0 != target_rate ==> {
                &&& sent.0 == device_rate
                &&& sent.1@ == captured.bytes@
                &&& !never_fails(process)
            }
        }),
{
    let before = old(resampling)->0@;
    let after = final(resampling)->0@;
    let all = resampler::dealt(before.pending, captured.samples@);
    assert(resampled(
        process,
        all,
        before.converter->0,
        after.pending,
        after.converter->0,
        captured.bytes@,
        device_rate,
        target_rate,
        sent.0,
        sent.1@,
    ));
    if all[0].len() < 1024 {
        law_incomplete_chunk_sends_nothing(
            process,
            all,
            before.converter->0,
            after.pending,
            after.converter->0,
            captured.bytes@,
            device_rate,
            target_rate,
            sent.0,
            sent.1@,
        );
    }
    if never_fails(process) {
        law_working_converter_sends_its_samples(
            process,
            all,
            before.converter->0,
            after.pending,
            after.converter->0,
            captured.bytes@,
            device_rate,
            target_rate,
            sent.0,
            sent.1@,
        );
    }
    if sent.0 != target_rate {
        law_device_rate_means_failure(
            process,
            all,
            before.converter->0,
            after.pending,
            after.converter->0,
            captured.bytes@,
            device_rate,
            target_rate,
            sent.0,
            sent.1@,
        );
    }
}

/// A resampler is planned only between different rates, and always then if the converter can be made;
/// it is for one channel where stereo of 16 or 32 bits is mixed down, else for all channels of the
/// device, and it starts with nothing waiting.
pub proof fn law_planning<S, M: Fn(u32, u32, usize) -> Result<S, String>>(
    format: DeviceFormat,
    target_rate: u32,
    make: M,
    plan: Option<AudioResampler<S>>,
)
    requires
        call_ensures(plan_resampler::<S, M>, (format, target_rate, make), plan),
    ensures
        format.sample_rate == target_rate ==> plan is None,
        plan matches Some(r) ==> {
            &&& r@.source_rate == format.sample_rate
            &&& r@.target_rate == target_rate
            &&& format.channels == 2 && (format.bits_per_sample == 16 || format.bits_per_sample
                == 32) ==> r@.channels == 1
            &&& format.channels != 2 || (format.bits_per_sample != 16 && format.bits_per_sample
                != 32) ==> r@.channels == format.channels
            &&& r@.pending.len() == r@.channels
            &&& forall|c: int| 0 <= c < r@.channels ==> (#[trigger] r@.pending[c]).len() == 0
        },
        format.sample_rate != target_rate && plan is None ==> exists|reason: String| #[trigger]
            call_ensures(
                make,
                (format.sample_rate, target_rate, channels_left(format) as usize),
                Err(reason),
            ),
{
    if format.sample_rate != target_rate && plan is None {
        let converter = choose|converter: Result<S, String>|
            {
                &&& #[trigger] call_ensures(
                    make,
                    (format.sample_rate, target_rate, channels_left(format) as usize),
                    converter,
                )
                &&& converter is Err
            };
        let reason = converter->Err_0;
        assert(converter == Err::<S, String>(reason));
    }
}

/// A block of floats becomes 16-bit PCM: of a stereo block one sample for each pair, mixed, and of any
/// other block one for each float, converted; in order, and two bytes each.
pub proof fn law_capturing_floats<F: Fn(u32) -> i16, G: Fn(u32, u32) -> i16>(
    words: &[u32],
    channels: usize,
    to_sample: &F,
    mix: &G,
    captured: Captured,
    i: int,
)
    requires
        call_ensures(captured_floats::<F, G>, (words, channels, to_sample, mix), captured),
        0 <= i < captured.samples@.len(),
    ensures
        captured.samples@.len() == if channels == 2 {
            words@.len() / 2
        } else {
            words@.len()
        },
        captured.bytes@.len() == 2 * captured.samples@.len(),
        channels == 2 ==> call_ensures(
            *mix,
            (words@[2 * i], words@[2 * i + 1]),
            captured.samples@[i],
        ),
        channels != 2 ==> call_ensures(*to_sample, (words@[i],), captured.samples@[i]),
        (captured.bytes@[2 * i] + 256 * captured.bytes@[2 * i + 1] - captured.samples@[i]) % 65536
            == 0,
{
    lemma_float_at(words@, channels as nat, *to_sample, *mix, captured.samples@, i);
    pcm::law_sample_is_two_bytes(captured.samples@, i);
}

proof fn lemma_float_at<F: Fn(u32) -> i16, G: Fn(u32, u32) -> i16>(
    words: Seq<u32>,
    channels: nat,
    to_sample: F,
    mix: G,
    samples: Seq<i16>,
    i: int,
)
    requires
        floats_converted(words, channels, to_sample, mix, samples),
        0 <= i < samples.len(),
    ensures
        samples.len() == if channels == 2 {
            words.len() / 2
        } else {
            words.len()
        },
        channels == 2 ==> call_ensures(mix, (words[2 * i], words[2 * i + 1]), samples[i]),
        channels != 2 ==> call_ensures(to_sample, (words[i],), samples[i]),
{
    let sample: i16 = samples[i];
}

/// What is captured next is made of the front of the queue, of whole frames, and what is behind them
/// stays. 16-bit mono is taken as it is; 16-bit stereo is mixed down to the mean of each frame.
pub proof fn law_capturing_next<F: Fn(u32) -> i16, G: Fn(u32, u32) -> i16>(
    queue: &mut VecDeque<u8>,
    format: DeviceFormat,
    to_sample: &F,
    mix: &G,
    next: Option<Captured>,
)
    requires
        format.block_align > 0,
        call_ensures(next_captured::<F, G>, (queue, format, to_sample, mix), next),
    ensures
        next is Some <==> old(queue)@.len() >= format.block_align,
        next is None ==> final(queue)@ == old(queue)@,
        next matches Some(captured) ==> {
            let n = old(queue)@.len() - final(queue)@.len();
            let raw = old(queue)@.take(n);
            &&& 0 < n <= old(queue)@.len()
            &&& n % format.block_align as int == 0
            &&& n == 4096 * format.block_align || final(queue)@.len() < format.block_align
            &&& raw + final(queue)@ == old(queue)@
            &&& captured.samples@ == pcm::pcm_samples(captured.bytes@)
            &&& format.bits_per_sample == 16 && format.channels == 1 ==> captured.bytes@ == raw
            &&& format.bits_per_sample == 16 && format.channels == 2 ==> {
                &&& captured.samples@.len() == n / 4
                &&& forall|i: int|
                    0 <= i < captured.samples@.len() ==> {
                        let sum = pcm::pcm_samples(raw)[2 * i] + pcm::pcm_samples(raw)[2 * i + 1];
                        let twice = 2 * (#[trigger] captured.samples@[i]);
                        &&& -1 <= twice - sum <= 1
                        &&& sum >= 0 ==> 0 <= twice <= sum
                        &&& sum <= 0 ==> sum <= twice <= 0
                    }
            }
        },
{
    if let Some(captured) = next {
        let start = old(queue)@;
        let m = outgoing_len(start.len(), format.block_align as nat) as int;
        law_whole_frames_leave(start, format.block_align as nat);
        law_as_many_frames_as_possible(start.len(), format.block_align as nat);
        let raw = start.take(m);
        law_samples_and_bytes_agree(
            raw,
            format,
            *to_sample,
            *mix,
            captured.samples@,
            captured.bytes@,
        );
        if format.bits_per_sample == 16 && format.channels == 2 {
            law_narrow_stereo_is_mixed(raw, *to_sample, *mix, captured.bytes@);
        }
    }
}

} // verus!
