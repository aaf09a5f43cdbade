use audio_relay::audio::capture::{
    captured_floats, convert_to_i16_pcm, converted_channels, detect_sample_rate, float_to_i16_bytes, interpret,
    next_captured, outgoing, plan_resampler, take_frames, Captured, DeviceFormat, DeviceProbe,
};
use audio_relay::audio::pcm::{
    append_samples, mix_to_mono, samples_from_bytes, samples_to_bytes, words_from_bytes,
};
use audio_relay::audio::playback::fill_output;
use audio_relay::audio::resampler::{interleave, AudioResampler};
use std::collections::VecDeque;

fn to_sample(word: u32) -> i16 {
    (f32::from_bits(word).clamp(-1.0, 1.0) * i16::MAX as f32) as i16
}

fn mix(left: u32, right: u32) -> i16 {
    let mixed = (f32::from_bits(left) + f32::from_bits(right)) / 2.0;
    (mixed.clamp(-1.0, 1.0) * i16::MAX as f32) as i16
}

fn float_bytes(values: &[f32]) -> Vec<u8> {
    values.iter().flat_map(|v| v.to_le_bytes()).collect()
}

fn format(bits_per_sample: usize, channels: usize) -> DeviceFormat {
    DeviceFormat {
        bits_per_sample,
        channels,
        block_align: bits_per_sample / 8 * channels,
        sample_rate: 48000,
    }
}

/// Makes a converter that has no history.
fn plain(_: u32, _: u32, _: usize) -> Result<(), String> {
    Ok(())
}

fn resampler_for(channels: usize) -> AudioResampler<()> {
    AudioResampler::new(48000, 44100, channels, plain).unwrap()
}

type Reply = Result<Vec<Vec<i16>>, String>;

fn echo(_: (), chunk: Vec<Vec<i16>>) -> ((), Reply) {
    ((), Ok(chunk))
}

fn halve(_: (), chunk: Vec<Vec<i16>>) -> ((), Reply) {
    ((), Ok(chunk.iter().map(|c| c.iter().copied().step_by(2).collect()).collect()))
}

fn convert(raw: &[u8], bits: usize, channels: usize) -> Vec<u8> {
    let mut output = Vec::new();
    convert_to_i16_pcm(raw, bits, channels, &to_sample, &mix, &mut output);
    output
}

#[test]
fn samples_are_little_endian() {
    let samples = [0i16, 1, -1, 256, i16::MAX, i16::MIN];
    let bytes = samples_to_bytes(&samples);
    assert_eq!(bytes, vec![0, 0, 1, 0, 255, 255, 0, 1, 255, 127, 0, 128]);
    assert_eq!(samples_from_bytes(&bytes), samples.to_vec());
    let mut output = vec![42u8];
    append_samples(&[-2], &mut output);
    assert_eq!(output, vec![42, 254, 255]);
}

#[test]
fn all_samples_read_back() {
    let all: Vec<i16> = (i16::MIN..=i16::MAX).collect();
    let bytes = samples_to_bytes(&all);
    let expected: Vec<u8> = all.iter().flat_map(|s| s.to_le_bytes()).collect();
    assert_eq!(bytes, expected);
    assert_eq!(samples_from_bytes(&bytes), all);
}

#[test]
fn odd_byte_is_dropped() {
    assert_eq!(samples_from_bytes(&[1, 0, 9]), vec![1]);
    assert_eq!(samples_from_bytes(&[9]), Vec::<i16>::new());
    assert_eq!(words_from_bytes(&[1, 2, 3, 4, 5]), vec![0x04030201]);
}

#[test]
fn mixing_rounds_toward_zero() {
    assert_eq!(mix_to_mono(&[100, 200, 3, 4, -3, -4, -1, 0, 1, 0]), vec![150, 3, -3, 0, 0]);
    assert_eq!(mix_to_mono(&[i16::MAX, i16::MAX, i16::MIN, i16::MIN]), vec![i16::MAX, i16::MIN]);
    assert_eq!(mix_to_mono(&[i16::MIN, i16::MAX, 5]), vec![0]);
    assert_eq!(mix_to_mono(&[200, 100]), mix_to_mono(&[100, 200]));
}

#[test]
fn rate_is_detected_or_assumed() {
    assert_eq!(detect_sample_rate(DeviceProbe::Rate(48000)), 48000);
    assert_eq!(detect_sample_rate(DeviceProbe::NoDevice), 44100);
    assert_eq!(detect_sample_rate(DeviceProbe::NoClient), 44100);
    assert_eq!(detect_sample_rate(DeviceProbe::NoFormat), 44100);
}

#[test]
fn whole_frames_leave_the_queue() {
    let mut queue: VecDeque<u8> = (0..11u8).collect();
    assert_eq!(take_frames(&mut queue, 4), Some((0..8u8).collect()));
    assert_eq!(queue, VecDeque::from(vec![8, 9, 10]));
    assert_eq!(take_frames(&mut queue, 4), None);
    assert_eq!(queue.len(), 3);
    queue.push_back(11);
    assert_eq!(take_frames(&mut queue, 4), Some(vec![8, 9, 10, 11]));
    assert!(queue.is_empty());
}

#[test]
fn at_most_4096_frames_leave_at_once() {
    let mut queue: VecDeque<u8> = (0..10000).map(|i| (i % 251) as u8).collect();
    let all: Vec<u8> = queue.iter().copied().collect();
    let taken = take_frames(&mut queue, 2).unwrap();
    assert_eq!(taken, all[..8192].to_vec());
    assert_eq!(queue.len(), 10000 - 8192);
    assert_eq!(take_frames(&mut queue, 2).unwrap(), all[8192..].to_vec());
}

#[test]
fn float_data_becomes_pcm() {
    let raw = float_bytes(&[0.0, 1.0, -1.0, 0.5, 7.0, -7.0]);
    let samples = samples_from_bytes(&convert(&raw, 32, 1));
    assert_eq!(samples, vec![0, 32767, -32767, 16383, 32767, -32767]);
    let mono = samples_from_bytes(&convert(&raw, 32, 2));
    assert_eq!(mono, vec![16383, -8191, 0]);
}

#[test]
fn sixteen_bit_data_is_kept_or_mixed() {
    let raw = samples_to_bytes(&[10, 20, -30, -41]);
    assert_eq!(convert(&raw, 16, 1), raw);
    assert_eq!(convert(&raw, 16, 4), raw);
    assert_eq!(convert(&raw, 16, 2), samples_to_bytes(&[15, -35]));
    let mut odd = raw.clone();
    odd.push(1);
    assert_eq!(convert(&odd, 16, 1), raw);
}

#[test]
fn other_widths_are_left_alone() {
    assert_eq!(convert(&[1, 2, 3], 24, 2), vec![1, 2, 3]);
}

#[test]
fn float_samples_become_bytes() {
    let words: Vec<u32> = [0.25f32, -2.0].iter().map(|f| f.to_bits()).collect();
    let mut output = Vec::new();
    float_to_i16_bytes(&words, &to_sample, &mut output);
    assert_eq!(samples_from_bytes(&output), vec![8191, -32767]);
    let captured = captured_floats(&words, 1, &to_sample, &mix);
    assert_eq!(captured.samples, vec![8191, -32767]);
    assert_eq!(captured.bytes, output);
}

#[test]
fn stereo_floats_are_mixed_down() {
    let values = [1.0f32, 0.0, -0.5, -0.5, 0.25, -0.75];
    let words: Vec<u32> = values.iter().map(|f| f.to_bits()).collect();
    let captured = captured_floats(&words, 2, &to_sample, &mix);
    assert_eq!(captured.samples, vec![16383, -16383, -8191]);
    assert_eq!(captured.bytes, samples_to_bytes(&[16383, -16383, -8191]));
    assert_eq!(captured.bytes.len(), words.len());
    let mut none: Option<AudioResampler<()>> = None;
    let sent = outgoing(captured, &mut none, echo, 48000, 48000);
    assert_eq!(sent, (48000, samples_to_bytes(&[16383, -16383, -8191])));
    let odd = captured_floats(&words[..3], 2, &to_sample, &mix);
    assert_eq!(odd.samples, vec![16383]);
    let three = captured_floats(&words, 3, &to_sample, &mix);
    assert_eq!(three.samples.len(), 6);
}

#[test]
fn mixed_down_stereo_has_one_channel() {
    assert_eq!(converted_channels(format(16, 2)), 1);
    assert_eq!(converted_channels(format(32, 2)), 1);
    assert_eq!(converted_channels(format(24, 2)), 2);
    assert_eq!(converted_channels(format(16, 1)), 1);
    assert_eq!(converted_channels(format(32, 6)), 6);
    let mut resampler = plan_resampler(format(16, 2), 44100, plain).unwrap();
    let mono: Vec<i16> = (0..1025).collect();
    assert!(resampler.accepts(&mono));
    let check = |_: (), chunk: Vec<Vec<i16>>| -> ((), Reply) {
        assert_eq!(chunk, vec![(0..1024).collect::<Vec<i16>>()]);
        ((), Ok(chunk))
    };
    assert_eq!(resampler.resample(&mono, check), Ok((0..1024).collect()));
}

#[test]
fn equal_and_swapped_channels_convert_alike() {
    let sound = samples_to_bytes(&[5, -7, 300]);
    let twice = samples_to_bytes(&[5, 5, -7, -7, 300, 300]);
    assert_eq!(convert(&twice, 16, 2), convert(&sound, 16, 1));
    let floats = float_bytes(&[0.5, -0.25, 2.0]);
    let float_twice = float_bytes(&[0.5, 0.5, -0.25, -0.25, 2.0, 2.0]);
    assert_eq!(convert(&float_twice, 32, 2), convert(&floats, 32, 1));
    let stereo = samples_to_bytes(&[1, 8, -3, 4]);
    assert_eq!(convert(&stereo, 16, 2), convert(&samples_to_bytes(&[8, 1, 4, -3]), 16, 2));
    let wide = float_bytes(&[0.5, 0.1, -1.0, 0.3]);
    assert_eq!(convert(&wide, 32, 2), convert(&float_bytes(&[0.1, 0.5, 0.3, -1.0]), 32, 2));
}

#[test]
fn mono_data_is_relayed_over_many_reads() {
    let all: Vec<u8> = (0..5001).map(|i| (i % 253) as u8).collect();
    let mut queue = VecDeque::new();
    let mut sent = Vec::new();
    for read in all.chunks(7) {
        queue.extend(read.iter().copied());
        if let Some(captured) = next_captured(&mut queue, format(16, 1), &to_sample, &mix) {
            let mut none: Option<AudioResampler<()>> = None;
            let (rate, bytes) = outgoing(captured, &mut none, echo, 48000, 48000);
            assert_eq!(rate, 48000);
            assert!(!bytes.is_empty() && bytes.len() % 2 == 0);
            sent.extend(bytes);
        }
    }
    sent.extend(queue);
    assert_eq!(sent, all);
}

#[test]
fn captured_data_by_format() {
    let raw = samples_to_bytes(&[10, 20, -30, -41]);
    let mono = interpret(raw.clone(), format(16, 1), &to_sample, &mix);
    assert_eq!(mono.samples, vec![10, 20, -30, -41]);
    assert_eq!(mono.bytes, raw);
    let stereo = interpret(raw.clone(), format(16, 2), &to_sample, &mix);
    assert_eq!(stereo.samples, vec![15, -35]);
    assert_eq!(stereo.bytes, samples_to_bytes(&[15, -35]));
    let float = interpret(float_bytes(&[1.0, 0.0]), format(32, 2), &to_sample, &mix);
    assert_eq!(float.samples, vec![16383]);
    let mut queue: VecDeque<u8> = raw.iter().copied().collect();
    queue.push_back(99);
    let next = next_captured(&mut queue, format(16, 2), &to_sample, &mix).unwrap();
    assert_eq!(next.samples, vec![15, -35]);
    assert_eq!(queue.len(), 1);
    assert!(next_captured(&mut queue, format(16, 2), &to_sample, &mix).is_none());
}

#[test]
fn equal_rates_need_no_resampler() {
    assert!(plan_resampler(format(16, 1), 48000, plain).is_none());
    assert!(plan_resampler(format(16, 1), 44100, plain).is_some());
    assert_eq!(
        AudioResampler::new(8000, 8000, 2, plain).unwrap_err(),
        "source and target rate are the same"
    );
    let made: Result<(), String> = Ok(());
    assert_eq!(
        AudioResampler::with_converter(0, 0, 1, made).unwrap_err(),
        "source and target rate are the same"
    );
}

#[test]
fn converter_is_made_for_the_rates_and_channels() {
    let note = |source: u32, target: u32, channels: usize| Ok((source, target, channels));
    let mut made = plan_resampler(format(32, 2), 44100, note).unwrap();
    let check = |state: (u32, u32, usize), chunk: Vec<Vec<i16>>| {
        assert_eq!(state, (48000, 44100, 1));
        (state, Ok(chunk))
    };
    assert_eq!(made.resample(&[3; 1024], check), Ok(vec![3; 1024]));
    let refuse = |_: u32, _: u32, _: usize| -> Result<(), String> { Err("ratio".to_string()) };
    assert!(plan_resampler(format(32, 2), 0, refuse).is_none());
    assert_eq!(
        AudioResampler::new(44100, 0, 1, refuse).unwrap_err(),
        "Failed to create resampler: ratio"
    );
}

#[test]
fn converter_sees_every_chunk_once_and_in_order() {
    let start = |_: u32, _: u32, _: usize| -> Result<Vec<i16>, String> { Ok(vec![]) };
    let mut resampler = AudioResampler::new(48000, 44100, 1, start).unwrap();
    let carry = |mut history: Vec<i16>, chunk: Vec<Vec<i16>>| {
        let output = vec![vec![history.last().copied().unwrap_or(-1), chunk[0][0]]];
        history.push(chunk[0][0]);
        if history.len() == 4 {
            (history, Err("tired".to_string()))
        } else {
            (history, Ok(output))
        }
    };
    let input: Vec<i16> = (0..2048).collect();
    assert_eq!(resampler.resample(&input, carry), Ok(vec![-1, 0, 0, 1024]));
    let more: Vec<i16> = (2048..3072).collect();
    assert_eq!(resampler.resample(&more, carry), Ok(vec![1024, 2048]));
    let last: Vec<i16> = (3072..5120).collect();
    assert_eq!(resampler.resample(&last, carry), Err("Resample error: tired".to_string()));
    assert_eq!(resampler.resample(&[], carry), Ok(vec![3072, 4096]));
}

#[test]
fn unresampled_audio_keeps_its_rate() {
    let mut none: Option<AudioResampler<()>> = None;
    let captured = Captured { samples: vec![1, 2], bytes: vec![1, 0, 2, 0] };
    let sent = outgoing(captured, &mut none, echo, 48000, 44100);
    assert_eq!(sent, (48000, vec![1, 0, 2, 0]));
}

#[test]
fn resampled_audio_has_the_target_rate() {
    let mut resampler = plan_resampler(format(16, 1), 44100, plain);
    let samples: Vec<i16> = (0..1500).collect();
    let captured = Captured { bytes: samples_to_bytes(&samples), samples };
    let (rate, bytes) = outgoing(captured, &mut resampler, halve, 48000, 44100);
    assert_eq!(rate, 44100);
    assert_eq!(samples_from_bytes(&bytes), (0..1024).step_by(2).collect::<Vec<i16>>());
}

#[test]
fn failed_resampling_falls_back() {
    let mut resampler = plan_resampler(format(16, 1), 44100, plain);
    let samples: Vec<i16> = vec![5; 1024];
    let bytes = samples_to_bytes(&samples);
    let captured = Captured { samples, bytes: bytes.clone() };
    let fail = |_: (), _: Vec<Vec<i16>>| -> ((), Reply) { ((), Err("broken".to_string())) };
    assert_eq!(outgoing(captured, &mut resampler, fail, 48000, 44100), (48000, bytes));
}

#[test]
fn chunks_fill_up_over_several_calls() {
    let mut resampler = resampler_for(1);
    let echo = |_: (), chunk: Vec<Vec<i16>>| -> ((), Reply) {
        assert_eq!(chunk.len(), 1);
        assert_eq!(chunk[0].len(), 1024);
        ((), Ok(chunk))
    };
    let first: Vec<i16> = (0..1000).collect();
    assert!(resampler.accepts(&first));
    assert_eq!(resampler.resample(&first, echo), Ok(vec![]));
    let second: Vec<i16> = (1000..3100).collect();
    assert_eq!(resampler.resample(&second, echo), Ok((0..3072).collect()));
    assert_eq!(resampler.resample(&[], echo), Ok(vec![]));
    let third: Vec<i16> = (3100..4096).collect();
    assert_eq!(resampler.resample(&third, echo), Ok((3072..4096).collect()));
}

#[test]
fn cutting_the_input_makes_no_difference() {
    let add = |_: (), chunk: Vec<Vec<i16>>| -> ((), Reply) {
        ((), Ok(chunk.iter().map(|c| c.iter().map(|s| s + 1).collect()).collect()))
    };
    let input: Vec<i16> = (0..5000).collect();
    let mut whole = resampler_for(2);
    let expected = whole.resample(&input, add).unwrap();
    for cut in [0, 2, 1000, 2048, 2050, 4096, 5000] {
        let mut parts = resampler_for(2);
        let mut output = parts.resample(&input[..cut], add).unwrap();
        output.extend(parts.resample(&input[cut..], add).unwrap());
        assert_eq!(output, expected);
    }
}

#[test]
fn channels_are_resampled_apart() {
    let left: Vec<i16> = (0..2100).collect();
    let right: Vec<i16> = (0..2100).map(|i| -3 * i).collect();
    let both: Vec<i16> = left.iter().zip(&right).flat_map(|(l, r)| [*l, *r]).collect();
    let x = resampler_for(1).resample(&left, halve).unwrap();
    let y = resampler_for(1).resample(&right, halve).unwrap();
    let z = resampler_for(2).resample(&both, halve).unwrap();
    let woven: Vec<i16> = x.iter().zip(&y).flat_map(|(l, r)| [*l, *r]).collect();
    assert_eq!(x.len(), 1024);
    assert_eq!(z, woven);
}

#[test]
fn channels_are_dealt_out_and_interleaved() {
    let mut resampler = resampler_for(2);
    let input: Vec<i16> = (0..1024).flat_map(|i| [i, -i]).collect();
    let check = |_: (), chunk: Vec<Vec<i16>>| -> ((), Reply) {
        assert_eq!(chunk[0], (0..1024).collect::<Vec<i16>>());
        assert_eq!(chunk[1], (0..1024).map(|i| -i).collect::<Vec<i16>>());
        ((), Ok(chunk))
    };
    assert!(resampler.accepts(&input));
    assert_eq!(resampler.resample(&input, check), Ok(input.clone()));
}

#[test]
fn failed_chunk_is_lost_and_later_ones_stay() {
    let mut resampler = resampler_for(1);
    let input: Vec<i16> = (0..3000).collect();
    let picky = |_: (), chunk: Vec<Vec<i16>>| -> ((), Reply) {
        if chunk[0][0] == 1024 {
            ((), Err("second chunk".to_string()))
        } else {
            ((), Ok(chunk))
        }
    };
    assert_eq!(resampler.resample(&input, picky), Err("Resample error: second chunk".to_string()));
    let rest: Vec<i16> = (3000..3072).collect();
    assert_eq!(resampler.resample(&rest, picky), Ok((2048..3072).collect()));
}

#[test]
fn uneven_channels_are_not_accepted() {
    let mut resampler = resampler_for(2);
    assert!(resampler.accepts(&[7]));
    assert_eq!(resampler.resample(&[7], echo), Ok(vec![]));
    assert!(!resampler.accepts(&[0; 2046]));
    assert!(resampler.accepts(&[0; 2044]));
    assert!(!resampler_for(0).accepts(&[]));
}

#[test]
fn interleaving_goes_frame_by_frame() {
    let output = vec![vec![1, 2, 3], vec![10, 20, 30]];
    assert_eq!(interleave(&output, 2), vec![1, 10, 2, 20, 3, 30]);
    assert_eq!(interleave(&vec![vec![], vec![]], 2), Vec::<i16>::new());
}

#[test]
fn playback_is_padded_with_silence() {
    let bytes = samples_to_bytes(&[7, -8, 9]);
    assert_eq!(fill_output(Some(bytes.clone()), 5), vec![7, -8, 9, 0, 0]);
    assert_eq!(fill_output(Some(bytes.clone()), 3), vec![7, -8, 9]);
    assert_eq!(fill_output(Some(bytes), 2), vec![7, -8]);
    assert_eq!(fill_output(None, 3), vec![0, 0, 0]);
}
