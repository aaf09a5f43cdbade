//! Filling an output device's buffer.

use vstd::prelude::*;

use crate::audio::pcm;

verus! {

/// The samples that a buffer of `len` samples plays: those of the PCM bytes, as far as they go and
/// as far as there is room, then silence. With no bytes there is silence only.
pub open spec fn played(received: Option<Seq<u8>>, len: nat) -> Seq<i16> {
    Seq::new(
        len,
        |i: int|
            match received {
                Some(bytes) => if i < pcm::pcm_samples(bytes).len() {
                    pcm::pcm_samples(bytes)[i]
                } else {
                    0
                },
                None => 0,
            },
    )
}

/// What to play in a buffer of `len` samples, given the PCM bytes that arrived, if any did.
pub fn fill_output(received: Option<Vec<u8>>, len: usize) -> (output: Vec<i16>)
    ensures
        output@ == played(
            match received {
                Some(bytes) => Some(bytes@),
                None => None,
            },
            len as nat,
        ),
{
    let mut output: Vec<i16> = match &received {
        Some(bytes) => pcm::samples_from_bytes(bytes.as_slice()),
        None => Vec::new(),
    };
    if output.len() > len {
        output.truncate(len);
    } else {
        output.resize(len, 0i16);
    }
    output
}

/// A buffer is always filled to the end, whatever arrived.
pub proof fn law_buffer_is_filled(received: Option<Seq<u8>>, len: nat)
    ensures
        played(received, len).len() == len,
{
}

/// Bytes made of exactly as many samples as the buffer holds are played as they are.
pub proof fn law_exact_fit_plays_unchanged(samples: Seq<i16>)
    ensures
        played(Some(pcm::pcm_bytes(samples)), samples.len()) == samples,
{
    pcm::law_samples_after_bytes(samples);
    assert(played(Some(pcm::pcm_bytes(samples)), samples.len()) =~= samples);
}

/// Sample by sample: as long as two bytes are there for it, a place in the buffer plays the sample
/// that they make up, low byte first; every other place is silent.
pub proof fn law_every_place_is_played(received: Option<Seq<u8>>, len: nat, i: int)
    requires
        0 <= i < len,
    ensures
        received is None ==> played(received, len)[i] == 0,
        received matches Some(bytes) ==> if 2 * i + 1 < bytes.len() {
            bytes[2 * i] + 256 * bytes[2 * i + 1] == if played(received, len)[i] < 0 {
                played(received, len)[i] + 65536
            } else {
                played(received, len)[i] as int
            }
        } else {
            played(received, len)[i] == 0
        },
{
    if let Some(bytes) = received {
        pcm::law_two_bytes_are_a_sample(bytes);
        if 2 * i + 1 < bytes.len() {
            assert(pcm::pcm_samples(bytes)[i] == played(received, len)[i]);
        }
    }
}

/// A buffer is filled to the end: with silence if nothing arrived, else with the samples that arrived,
/// in order, and silence behind them.
pub proof fn law_filling(received: Option<Vec<u8>>, len: usize, output: Vec<i16>, i: int)
    requires
        call_ensures(fill_output, (received, len), output),
        0 <= i < len,
    ensures
        output@.len() == len,
        received is None ==> output@[i] == 0,
        received matches Some(bytes) ==> if 2 * i + 1 < bytes@.len() {
            (bytes@[2 * i] + 256 * bytes@[2 * i + 1] - output@[i]) % 65536 == 0
        } else {
            output@[i] == 0
        },
{
    match received {
        Some(bytes) => law_every_place_is_played(Some(bytes@), len as nat, i),
        None => {},
    }
}

} // verus!
