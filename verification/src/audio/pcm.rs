//! 16-bit PCM: samples as bytes, bytes as samples, and mixing.

use vstd::prelude::*;

use crate::endian;

verus! {

/// The two's complement bit pattern of a sample.
pub open spec fn sample_bits(sample: i16) -> nat {
    if sample < 0 {
        (sample + 0x1_0000) as nat
    } else {
        sample as nat
    }
}

/// The sample with a given 16-bit pattern.
pub open spec fn sample_of_bits(bits: nat) -> i16 {
    if bits < 0x8000 {
        bits as i16
    } else {
        (bits - 0x1_0000) as i16
    }
}

/// The sample that stands in two bytes, low byte first.
pub open spec fn sample_of(low: u8, high: u8) -> i16 {
    sample_of_bits(endian::le_value(seq![low, high]))
}

/// Samples as little-endian bytes, two for each sample, in order.
pub open spec fn pcm_bytes(samples: Seq<i16>) -> Seq<u8> {
    Seq::new(
        2 * samples.len(),
        |k: int| endian::le_bytes(sample_bits(samples[k / 2]), 2)[k % 2],
    )
}

/// The samples in a byte sequence; a byte left over at the end counts for nothing.
pub open spec fn pcm_samples(bytes: Seq<u8>) -> Seq<i16> {
    Seq::new(bytes.len() / 2, |i: int| sample_of(bytes[2 * i], bytes[2 * i + 1]))
}

/// The mean of two samples, rounded toward zero.
pub open spec fn mixed(left: i16, right: i16) -> i16 {
    let sum = left + right;
    (if sum >= 0 {
        sum / 2
    } else {
        -((-sum) / 2)
    }) as i16
}

/// Interleaved stereo brought down to one channel; a left sample without its right one is dropped.
pub open spec fn mono(stereo: Seq<i16>) -> Seq<i16> {
    Seq::new(stereo.len() / 2, |i: int| mixed(stereo[2 * i], stereo[2 * i + 1]))
}

/// The little-endian 32-bit words in a byte sequence; what is left over counts for nothing.
pub open spec fn words(bytes: Seq<u8>) -> Seq<u32> {
    Seq::new(
        bytes.len() / 4,
        |i: int| endian::le_value(bytes.subrange(4 * i, 4 * i + 4)) as u32,
    )
}

proof fn lemma_two_bytes(low: u8, high: u8)
    ensures
        endian::le_value(seq![low, high]) == low + 256 * high,
{
    reveal_with_fuel(endian::le_value, 3);
    assert(seq![low, high].drop_first() =~= seq![high]);
    assert(seq![high].drop_first() =~= Seq::<u8>::empty());
}

proof fn lemma_sample_bytes(sample: i16)
    ensures
        endian::le_bytes(sample_bits(sample), 2) == seq![
            (sample_bits(sample) % 256) as u8,
            (sample_bits(sample) / 256) as u8,
        ],
{
    reveal_with_fuel(endian::le_bytes, 3);
    assert(endian::le_bytes(sample_bits(sample), 2) =~= seq![
        (sample_bits(sample) % 256) as u8,
        (sample_bits(sample) / 256) as u8,
    ]);
}

/// Appends samples to `output` as little-endian bytes.
pub fn append_samples(samples: &[i16], output: &mut Vec<u8>)
    ensures
        final(output)@ == old(output)@ + pcm_bytes(samples@),
{
    let mut i: usize = 0;
    assert(output@ =~= old(output)@ + pcm_bytes(samples@.take(0)));
    while i < samples.len()
        invariant
            i <= samples@.len(),
            output@ == old(output)@ + pcm_bytes(samples@.take(i as int)),
        decreases samples@.len() - i,
    {
        let sample: i16 = samples[i];
        let bits: u64 = if sample < 0 {
            (sample as i32 + 0x1_0000) as u64
        } else {
            sample as u64
        };
        endian::push_le(output, bits, 2);
        proof {
            lemma_sample_bytes(sample);
            let shorter = samples@.take(i as int);
            let longer = samples@.take(i + 1);
            assert(pcm_bytes(longer) =~= pcm_bytes(shorter) + endian::le_bytes(
                sample_bits(sample),
                2,
            ));
            assert(output@ =~= old(output)@ + pcm_bytes(longer));
        }
        i = i + 1;
    }
    assert(samples@.take(i as int) =~= samples@);
}

/// Samples as little-endian bytes.
pub fn samples_to_bytes(samples: &[i16]) -> (bytes: Vec<u8>)
    ensures
        bytes@ == pcm_bytes(samples@),
{
    let mut bytes: Vec<u8> = Vec::new();
    append_samples(samples, &mut bytes);
    assert(bytes@ =~= pcm_bytes(samples@));
    bytes
}

/// The samples in little-endian bytes; a byte left over at the end is dropped.
pub fn samples_from_bytes(bytes: &[u8]) -> (samples: Vec<i16>)
    ensures
        samples@ == pcm_samples(bytes@),
{
    let count: usize = bytes.len() / 2;
    let mut samples: Vec<i16> = Vec::new();
    let mut i: usize = 0;
    while i < count
        invariant
            i <= count,
            count == bytes.len() / 2,
            samples@ == pcm_samples(bytes@).take(i as int),
        decreases count - i,
    {
        let low: u8 = bytes[2 * i];
        let high: u8 = bytes[2 * i + 1];
        let bits: i32 = low as i32 + 256 * (high as i32);
        let sample: i16 = if bits < 0x8000 {
            bits as i16
        } else {
            (bits - 0x1_0000) as i16
        };
        proof {
            lemma_two_bytes(low, high);
            assert(pcm_samples(bytes@).take(i + 1) =~= pcm_samples(bytes@).take(i as int).push(
                sample,
            ));
        }
        samples.push(sample);
        i = i + 1;
    }
    assert(samples@ =~= pcm_samples(bytes@));
    samples
}

/// Mixes interleaved stereo down to one channel.
pub fn mix_to_mono(stereo: &[i16]) -> (mixed_down: Vec<i16>)
    ensures
        mixed_down@ == mono(stereo@),
        mixed_down@.len() == stereo@.len() / 2,
        forall|i: int|
            0 <= i < mixed_down@.len() ==> -1 <= 2 * (#[trigger] mixed_down@[i]) - (stereo@[2 * i]
                + stereo@[2 * i + 1]) <= 1,
{
    let count: usize = stereo.len() / 2;
    let mut mixed_down: Vec<i16> = Vec::new();
    let mut i: usize = 0;
    while i < count
        invariant
            i <= count,
            count == stereo.len() / 2,
            mixed_down@ == mono(stereo@).take(i as int),
        decreases count - i,
    {
        let sum: i32 = stereo[2 * i] as i32 + stereo[2 * i + 1] as i32;
        let mean: i32 = sum / 2;
        proof {
            assert(mono(stereo@).take(i + 1) =~= mono(stereo@).take(i as int).push(mean as i16));
        }
        mixed_down.push(mean as i16);
        i = i + 1;
    }
    assert(mixed_down@ =~= mono(stereo@));
    mixed_down
}

/// The little-endian 32-bit words in a byte sequence; what is left over is dropped.
pub fn words_from_bytes(bytes: &[u8]) -> (list: Vec<u32>)
    ensures
        list@ == words(bytes@),
{
    let count: usize = bytes.len() / 4;
    let mut list: Vec<u32> = Vec::new();
    let mut i: usize = 0;
    proof {
        endian::lemma_le_limits();
    }
    while i < count
        invariant
            i <= count,
            count == bytes.len() / 4,
            endian::le_limit(4) == 0x1_0000_0000,
            list@ == words(bytes@).take(i as int),
        decreases count - i,
    {
        let word: u32 = endian::read_le(bytes, 4 * i, 4) as u32;
        proof {
            assert(words(bytes@).take(i + 1) =~= words(bytes@).take(i as int).push(word));
        }
        list.push(word);
        i = i + 1;
    }
    assert(list@ =~= words(bytes@));
    list
}

/// Bytes made of samples read back as those samples.
pub proof fn law_samples_after_bytes(samples: Seq<i16>)
    ensures
        pcm_samples(pcm_bytes(samples)) == samples,
{
    let bytes = pcm_bytes(samples);
    assert forall|i: int| 0 <= i < samples.len() implies #[trigger] pcm_samples(bytes)[i]
        == samples[i] by {
        lemma_sample_bytes(samples[i]);
        assert((2 * i) / 2 == i && (2 * i) % 2 == 0);
        assert((2 * i + 1) / 2 == i && (2 * i + 1) % 2 == 1);
        lemma_two_bytes(bytes[2 * i], bytes[2 * i + 1]);
    }
    assert(pcm_samples(bytes) =~= samples);
}

/// Samples read from an even number of bytes are written back as those bytes.
pub proof fn law_bytes_after_samples(bytes: Seq<u8>)
    requires
        bytes.len() % 2 == 0,
    ensures
        pcm_bytes(pcm_samples(bytes)) == bytes,
{
    let samples = pcm_samples(bytes);
    assert forall|k: int| 0 <= k < bytes.len() implies #[trigger] pcm_bytes(samples)[k]
        == bytes[k] by {
        let i = k / 2;
        lemma_two_bytes(bytes[2 * i], bytes[2 * i + 1]);
        lemma_sample_bytes(samples[i]);
    }
    assert(pcm_bytes(samples) =~= bytes);
}

/// A mix lies between the two samples it is made of.
pub proof fn law_mix_is_between(left: i16, right: i16)
    ensures
        left <= right ==> left <= mixed(left, right) <= right,
        right <= left ==> right <= mixed(left, right) <= left,
{
}

/// Mixing does not depend on which channel is left and which is right.
pub proof fn law_mix_is_symmetric(left: i16, right: i16)
    ensures
        mixed(left, right) == mixed(right, left),
{
}

/// Stereo that carries the same sound on both channels mixes down to that sound.
pub proof fn law_mix_of_equal_channels(sound: Seq<i16>, stereo: Seq<i16>)
    requires
        stereo.len() == 2 * sound.len(),
        forall|i: int|
            0 <= i < sound.len() ==> stereo[2 * i] == #[trigger] sound[i] && stereo[2 * i + 1]
                == sound[i],
    ensures
        mono(stereo) == sound,
{
    assert(mono(stereo) =~= sound);
}

/// The two bytes of a sample, low byte first, make up its value, or its value and 2 to the power of
/// 16 where it is negative.
pub proof fn law_sample_is_two_bytes(samples: Seq<i16>, i: int)
    requires
        0 <= i < samples.len(),
    ensures
        pcm_bytes(samples).len() == 2 * samples.len(),
        pcm_bytes(samples)[2 * i] + 256 * pcm_bytes(samples)[2 * i + 1] == if samples[i] < 0 {
            samples[i] + 65536
        } else {
            samples[i] as int
        },
{
    lemma_sample_bytes(samples[i]);
    assert((2 * i) / 2 == i && (2 * i) % 2 == 0);
    assert((2 * i + 1) / 2 == i && (2 * i + 1) % 2 == 1);
}

/// Two bytes are read as the sample that they make up, and a byte left over as nothing.
pub proof fn law_two_bytes_are_a_sample(bytes: Seq<u8>)
    ensures
        pcm_samples(bytes).len() == bytes.len() / 2,
        forall|i: int|
            0 <= i < bytes.len() / 2 ==> bytes[2 * i] + 256 * bytes[2 * i + 1] == if (
            #[trigger] pcm_samples(bytes)[i]) < 0 {
                pcm_samples(bytes)[i] + 65536
            } else {
                pcm_samples(bytes)[i] as int
            },
{
    assert forall|i: int| 0 <= i < bytes.len() / 2 implies bytes[2 * i] + 256 * bytes[2 * i + 1]
        == if (#[trigger] pcm_samples(bytes)[i]) < 0 {
        pcm_samples(bytes)[i] + 65536
    } else {
        pcm_samples(bytes)[i] as int
    } by {
        lemma_two_bytes(bytes[2 * i], bytes[2 * i + 1]);
    }
}

/// Four bytes are read as the number that they make up, low byte first, and what is left over as
/// nothing.
pub proof fn law_four_bytes_are_a_word(bytes: Seq<u8>, i: int)
    requires
        0 <= i < bytes.len() / 4,
    ensures
        words(bytes).len() == bytes.len() / 4,
        words(bytes)[i] == bytes[4 * i] + 0x100 * bytes[4 * i + 1] + 0x1_0000 * bytes[4 * i + 2]
            + 0x100_0000 * bytes[4 * i + 3],
{
    let four = bytes.subrange(4 * i, 4 * i + 4);
    reveal_with_fuel(endian::le_value, 5);
    assert(four.drop_first() =~= bytes.subrange(4 * i + 1, 4 * i + 4));
    assert(four.drop_first().drop_first() =~= bytes.subrange(4 * i + 2, 4 * i + 4));
    assert(four.drop_first().drop_first().drop_first() =~= bytes.subrange(4 * i + 3, 4 * i + 4));
    assert(four.drop_first().drop_first().drop_first().drop_first() =~= Seq::<u8>::empty());
}

/// A mix is the mean of both samples, whatever their signs: twice the mix misses the sum by at most
/// one, and never on the far side of it from zero.
pub proof fn law_mix_is_the_mean(left: i16, right: i16)
    ensures
        -1 <= 2 * mixed(left, right) - (left + right) <= 1,
        left + right >= 0 ==> 0 <= 2 * mixed(left, right) <= left + right,
        left + right <= 0 ==> left + right <= 2 * mixed(left, right) <= 0,
{
}

/// Stereo mixed down has one sample for each whole frame, and each is the mean of its frame,
/// rounded toward zero.
pub proof fn law_every_frame_is_mixed(stereo: Seq<i16>)
    ensures
        mono(stereo).len() == stereo.len() / 2,
        forall|i: int|
            0 <= i < stereo.len() / 2 ==> {
                let sum = stereo[2 * i] + stereo[2 * i + 1];
                let twice = 2 * (#[trigger] mono(stereo)[i]);
                &&& -1 <= twice - sum <= 1
                &&& sum >= 0 ==> 0 <= twice <= sum
                &&& sum <= 0 ==> sum <= twice <= 0
            },
{
}

/// Mixing down gives one sample for each whole frame, in order, and twice the sample is the sum of the
/// frame's two samples, or next to it on the side of zero.
pub proof fn law_mixing_down(stereo: &[i16], mixed_down: Vec<i16>, i: int)
    requires
        call_ensures(mix_to_mono, (stereo,), mixed_down),
        0 <= i < stereo@.len() / 2,
    ensures
        mixed_down@.len() == stereo@.len() / 2,
        ({
            let sum = stereo@[2 * i] + stereo@[2 * i + 1];
            &&& sum >= 0 ==> 2 * mixed_down@[i] == sum - sum % 2
            &&& sum < 0 ==> -2 * mixed_down@[i] == -sum - (-sum) % 2
        }),
{
}

/// Samples written as bytes read back as those samples, each in two bytes with the low one first.
pub proof fn law_writing_samples(samples: &[i16], bytes: Vec<u8>, i: int)
    requires
        call_ensures(samples_to_bytes, (samples,), bytes),
        0 <= i < samples@.len(),
    ensures
        bytes@.len() == 2 * samples@.len(),
        (bytes@[2 * i] + 256 * bytes@[2 * i + 1] - samples@[i]) % 65536 == 0,
{
    law_sample_is_two_bytes(samples@, i);
}

/// Bytes read as samples: two bytes a sample, low byte first, in order.
pub proof fn law_reading_samples(bytes: &[u8], samples: Vec<i16>, i: int)
    requires
        call_ensures(samples_from_bytes, (bytes,), samples),
        0 <= i < bytes@.len() / 2,
    ensures
        samples@.len() == bytes@.len() / 2,
        (bytes@[2 * i] + 256 * bytes@[2 * i + 1] - samples@[i]) % 65536 == 0,
{
    law_two_bytes_are_a_sample(bytes@);
    assert(samples@[i] == pcm_samples(bytes@)[i]);
}

} // verus!
