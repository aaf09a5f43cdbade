//! Cutting a sample stream into the chunks that a rate converter works on.
//!
//! The converter has a history: what it gives for a chunk depends on the chunks before. So the
//! resampler owns the converter, and a function handed to [`AudioResampler::resample`] takes the
//! converter and one chunk of every channel, and gives back the converter as it is afterwards and
//! the converted samples of every channel.

use vstd::prelude::*;
use vstd::string::*;

verus! {

/// Frames that go to the rate converter at a time.
pub const CHUNK_SIZE: usize = 1024;

/// Collects interleaved samples by channel until a chunk is complete, for a rate converter.
#[derive(Debug)]
pub struct AudioResampler<S> {
    source_rate: u32,
    target_rate: u32,
    channels: usize,
    input_buffer: Vec<Vec<i16>>,
    /// Only taken out while a chunk is converted.
    converter: Option<S>,
}

/// An `AudioResampler` as a mathematical value.
pub struct ResamplerView<S> {
    pub source_rate: u32,
    pub target_rate: u32,
    pub channels: nat,
    /// For each channel, the samples that wait for their chunk to fill up.
    pub pending: Seq<Seq<i16>>,
    /// The rate converter, with its history.
    pub converter: Option<S>,
}

impl<S> View for AudioResampler<S> {
    type V = ResamplerView<S>;

    closed spec fn view(&self) -> ResamplerView<S> {
        ResamplerView {
            source_rate: self.source_rate,
            target_rate: self.target_rate,
            channels: self.channels as nat,
            pending: planes(self.input_buffer@),
            converter: self.converter,
        }
    }
}

impl<S> ResamplerView<S> {
    /// What every resampler keeps to: its rates differ, each channel has its buffer, and the
    /// converter is in its place.
    pub open spec fn valid(self) -> bool {
        &&& self.source_rate != self.target_rate
        &&& self.pending.len() == self.channels
        &&& self.converter is Some
    }
}

/// A resampler on which nothing was done yet.
pub open spec fn fresh<S>(
    source_rate: u32,
    target_rate: u32,
    channels: nat,
    converter: S,
) -> ResamplerView<S> {
    ResamplerView {
        source_rate,
        target_rate,
        channels,
        pending: Seq::new(channels, |c: int| Seq::empty()),
        converter: Some(converter),
    }
}

/// `made` is the resampler for two rates, given the outcome of making the converter: there is none
/// where the rates are equal or where there is no converter.
pub open spec fn is_made<S>(
    made: Result<AudioResampler<S>, String>,
    source_rate: u32,
    target_rate: u32,
    channels: nat,
    converter: Result<S, String>,
) -> bool {
    if source_rate == target_rate {
        made matches Err(error) && error@ == "source and target rate are the same"@
    } else {
        match converter {
            Ok(c) => made matches Ok(resampler) && resampler@.valid() && resampler@ == fresh(
                source_rate,
                target_rate,
                channels,
                c,
            ),
            Err(reason) => made matches Err(error) && error@ == "Failed to create resampler: "@
                + reason@,
        }
    }
}

/// One sequence of samples for each channel.
pub open spec fn planes(buffers: Seq<Vec<i16>>) -> Seq<Seq<i16>> {
    Seq::new(buffers.len(), |c: int| buffers[c]@)
}

/// The samples of channel `c` in interleaved input: those at places `c`, `c + channels`, and so on.
pub open spec fn channel_of(input: Seq<i16>, c: int, channels: int) -> Seq<i16>
    decreases input.len(),
{
    if input.len() == 0 {
        Seq::empty()
    } else {
        let before = channel_of(input.drop_last(), c, channels);
        if (input.len() - 1) % channels == c {
            before.push(input.last())
        } else {
            before
        }
    }
}

/// How many of `count` interleaved samples belong to channel `c`.
pub open spec fn dealt_count(count: nat, c: int, channels: int) -> nat {
    ((count + channels - 1 - c) / channels) as nat
}

/// Channel `c` gets the samples at places `c`, `c + channels`, `c + 2 * channels` and so on, in
/// that order, and no others.
pub proof fn law_channel_places(input: Seq<i16>, c: int, channels: int)
    requires
        0 <= c < channels,
    ensures
        channel_of(input, c, channels).len() == dealt_count(input.len(), c, channels),
        forall|k: int|
            0 <= k < channel_of(input, c, channels).len() ==> #[trigger] channel_of(
                input,
                c,
                channels,
            )[k] == input[k * channels + c],
    decreases input.len(),
{
    if input.len() == 0 {
        assert((channels - 1 - c) / channels == 0) by (nonlinear_arith)
            requires
                0 <= c < channels,
        ;
    } else {
        let before = input.drop_last();
        law_channel_places(before, c, channels);
        let last = input.len() - 1;
        let q = last / channels;
        let r = last % channels;
        vstd::arithmetic::div_mod::lemma_fundamental_div_mod(last, channels);
        vstd::arithmetic::mul::lemma_mul_is_commutative(channels, q);
        assert(0 <= r < channels) by {
            vstd::arithmetic::div_mod::lemma_mod_bound(last, channels);
        }
        lemma_quotient(last + channels - 1 - c, q, r + channels - 1 - c, channels);
        lemma_quotient(last + channels - c, q, r + channels - c, channels);
        if r == c {
            assert(q >= 0) by {
                vstd::arithmetic::div_mod::lemma_div_pos_is_pos(last, channels);
            }
        }
        assert forall|k: int| 0 <= k < channel_of(input, c, channels).len() implies #[trigger]
            channel_of(input, c, channels)[k] == input[k * channels + c] by {
            if k < channel_of(before, c, channels).len() {
                assert(channel_of(input, c, channels)[k] == channel_of(before, c, channels)[k]);
                lemma_place_exists(before.len(), c, channels, k);
            }
        }
    }
}

/// The place of every sample that a channel gets lies inside the input.
pub proof fn lemma_place_exists(count: nat, c: int, channels: int, k: int)
    requires
        0 <= c < channels,
        0 <= k < dealt_count(count, c, channels),
    ensures
        0 <= k * channels + c < count,
{
    let total = count + channels - 1 - c;
    vstd::arithmetic::div_mod::lemma_fundamental_div_mod(total, channels);
    vstd::arithmetic::div_mod::lemma_mod_bound(total, channels);
    assert(0 <= k * channels <= channels * (total / channels) - channels) by (nonlinear_arith)
        requires
            0 <= k <= total / channels - 1,
            channels > 0,
    ;
}

/// A number that is `q` times `n` and a rest of less than two times `n`, divided by `n`.
proof fn lemma_quotient(x: int, q: int, rest: int, n: int)
    requires
        n > 0,
        x == q * n + rest,
        0 <= rest < 2 * n,
    ensures
        x / n == if rest < n {
            q
        } else {
            q + 1
        },
{
    if rest < n {
        vstd::arithmetic::div_mod::lemma_fundamental_div_mod_converse(x, n, q, rest);
    } else {
        assert((q + 1) * n == q * n + n) by (nonlinear_arith);
        vstd::arithmetic::div_mod::lemma_fundamental_div_mod_converse(x, n, q + 1, rest - n);
    }
}

/// The buffers after interleaved input was dealt out to them.
pub open spec fn dealt(pending: Seq<Seq<i16>>, input: Seq<i16>) -> Seq<Seq<i16>> {
    Seq::new(
        pending.len(),
        |c: int| pending[c] + channel_of(input, c, pending.len() as int),
    )
}

/// How many chunks are complete on the first channel.
pub open spec fn ready(pending: Seq<Seq<i16>>) -> nat {
    pending[0].len() / CHUNK_SIZE as nat
}

/// No channel has fewer complete chunks than the first one.
pub open spec fn balanced(pending: Seq<Seq<i16>>) -> bool {
    forall|c: int|
        0 <= c < pending.len() ==> CHUNK_SIZE * ready(pending) <= (#[trigger] pending[c]).len()
}

/// The buffers without their first `count` chunks.
pub open spec fn without_chunks(pending: Seq<Seq<i16>>, count: nat) -> Seq<Seq<i16>> {
    Seq::new(pending.len(), |c: int| pending[c].skip((CHUNK_SIZE * count) as int))
}

/// Chunk number `k` of every channel.
pub open spec fn chunk(pending: Seq<Seq<i16>>, k: nat) -> Seq<Seq<i16>> {
    Seq::new(
        pending.len(),
        |c: int|
            pending[c].subrange((CHUNK_SIZE * k) as int, (CHUNK_SIZE * k + CHUNK_SIZE) as int),
    )
}

/// Every one of `channels` channels has at least as many samples as the first.
pub open spec fn rectangular(output: Seq<Seq<i16>>, channels: nat) -> bool {
    &&& output.len() >= channels
    &&& forall|c: int| 0 <= c < channels ==> output[0].len() <= (#[trigger] output[c]).len()
}

/// One sample of each channel, in the order of the channels.
pub open spec fn frame(output: Seq<Seq<i16>>, channels: nat, at: int) -> Seq<i16> {
    Seq::new(channels, |c: int| output[c][at])
}

/// The first `frames` frames of separate channels, interleaved.
pub open spec fn interleaved(output: Seq<Seq<i16>>, channels: nat, frames: nat) -> Seq<i16>
    decreases frames,
{
    if frames == 0 {
        Seq::empty()
    } else {
        interleaved(output, channels, (frames - 1) as nat) + frame(output, channels, frames - 1)
    }
}

/// Converted chunks, each interleaved, one after the other.
pub open spec fn joined(outputs: Seq<Vec<Vec<i16>>>, channels: nat) -> Seq<i16>
    decreases outputs.len(),
{
    if outputs.len() == 0 {
        Seq::empty()
    } else {
        let last = planes(outputs.last()@);
        joined(outputs.drop_last(), channels) + interleaved(last, channels, last[0].len())
    }
}

/// The converter in state `before`, given `samples`, may answer `reply` and then be in state `after`.
pub open spec fn answers<
    S,
    F: Fn(S, Vec<Vec<i16>>) -> (S, Result<Vec<Vec<i16>>, String>),
>(
    process: F,
    before: S,
    samples: Seq<Seq<i16>>,
    after: S,
    reply: Result<Vec<Vec<i16>>, String>,
) -> bool {
    exists|given: Vec<Vec<i16>>|
        planes(given@) == samples && #[trigger] call_ensures(
            process,
            (before, given),
            (after, reply),
        )
}

/// The converter went through the first chunks of `all`, each of them once and in order: chunk `k`
/// took it from state `k` to the next one and gave output `k`.
pub open spec fn went_through<
    S,
    F: Fn(S, Vec<Vec<i16>>) -> (S, Result<Vec<Vec<i16>>, String>),
>(
    process: F,
    all: Seq<Seq<i16>>,
    states: Seq<S>,
    outputs: Seq<Vec<Vec<i16>>>,
) -> bool {
    &&& states.len() == outputs.len() + 1
    &&& forall|k: int|
        0 <= k < outputs.len() ==> answers(
            process,
            states[k],
            chunk(all, k as nat),
            states[k + 1],
            Ok(#[trigger] outputs[k]),
        )
}

/// Every complete chunk of `all` went through the converter, which was `before` and is `after`;
/// `samples` is the output, one chunk after the other, and `left` is what was not yet enough for a
/// chunk.
pub open spec fn converted_all<
    S,
    F: Fn(S, Vec<Vec<i16>>) -> (S, Result<Vec<Vec<i16>>, String>),
>(
    process: F,
    all: Seq<Seq<i16>>,
    before: S,
    samples: Seq<i16>,
    left: Seq<Seq<i16>>,
    after: S,
) -> bool {
    &&& left == without_chunks(all, ready(all))
    &&& exists|states: Seq<S>, outputs: Seq<Vec<Vec<i16>>>|
        {
            &&& #[trigger] went_through(process, all, states, outputs)
            &&& outputs.len() == ready(all)
            &&& states[0] == before
            &&& states.last() == after
            &&& samples == joined(outputs, all.len())
        }
}

/// The chunks of `all` went through the converter up to one on which it failed for `reason`; `left`
/// is what stands behind that chunk.
pub open spec fn stopped_short<
    S,
    F: Fn(S, Vec<Vec<i16>>) -> (S, Result<Vec<Vec<i16>>, String>),
>(
    process: F,
    all: Seq<Seq<i16>>,
    before: S,
    reason: Seq<char>,
    left: Seq<Seq<i16>>,
    after: S,
) -> bool {
    exists|states: Seq<S>, outputs: Seq<Vec<Vec<i16>>>, error: String|
        {
            &&& #[trigger] went_through(process, all, states, outputs)
            &&& outputs.len() < ready(all)
            &&& states[0] == before
            &&& #[trigger] answers(
                process,
                states.last(),
                chunk(all, outputs.len()),
                after,
                Err(error),
            )
            &&& error@ == reason
            &&& left == without_chunks(all, outputs.len() + 1)
        }
}

/// `outcome` is what comes of resampling when the buffers hold `all`: the converted samples, or why
/// the converter failed.
pub open spec fn is_outcome<
    S,
    F: Fn(S, Vec<Vec<i16>>) -> (S, Result<Vec<Vec<i16>>, String>),
>(
    process: F,
    all: Seq<Seq<i16>>,
    before: S,
    outcome: Result<Seq<i16>, Seq<char>>,
    left: Seq<Seq<i16>>,
    after: S,
) -> bool {
    match outcome {
        Ok(samples) => converted_all(process, all, before, samples, left, after),
        Err(reason) => stopped_short(process, all, before, reason, left, after),
    }
}

/// The outcome that a result of resampling stands for.
pub open spec fn told(outcome: Result<Seq<i16>, Seq<char>>, result: Result<Vec<i16>, String>) -> bool {
    match outcome {
        Ok(samples) => result matches Ok(r) && r@ == samples,
        Err(reason) => result matches Err(e) && e@ == "Resample error: "@ + reason,
    }
}

/// The converter takes whatever it is given, and when it succeeds, it gives back enough channels, none
/// of them shorter than the first.
pub open spec fn can_process<
    S,
    F: Fn(S, Vec<Vec<i16>>) -> (S, Result<Vec<Vec<i16>>, String>),
>(process: F, channels: nat) -> bool {
    &&& forall|state: S, given: Vec<Vec<i16>>| #[trigger] call_requires(process, (state, given))
    &&& forall|state: S, given: Vec<Vec<i16>>, next: S, reply: Vec<Vec<i16>>| #[trigger]
        call_ensures(process, (state, given), (next, Ok(reply))) ==> rectangular(
            planes(reply@),
            channels,
        )
}

/// Interleaves the channels that a converter gave back.
pub fn interleave(output: &Vec<Vec<i16>>, channels: usize) -> (samples: Vec<i16>)
    requires
        channels > 0,
        rectangular(planes(output@), channels as nat),
    ensures
        samples@ == interleaved(
            planes(output@),
            channels as nat,
            planes(output@)[0].len(),
        ),
{
    let mut samples: Vec<i16> = Vec::new();
    let ghost all = planes(output@);
    let frames: usize = output[0].len();
    let mut at: usize = 0;
    assert(all[0] == output@[0]@);
    while at < frames
        invariant
            at <= frames,
            channels > 0,
            all == planes(output@),
            rectangular(all, channels as nat),
            frames == all[0].len(),
            samples@ == interleaved(all, channels as nat, at as nat),
        decreases frames - at,
    {
        let ghost before = samples@;
        let ghost row = frame(all, channels as nat, at as int);
        let mut c: usize = 0;
        assert(samples@ =~= before + row.take(0));
        while c < channels
            invariant
                c <= channels,
                at < frames,
                all == planes(output@),
                rectangular(all, channels as nat),
                frames == all[0].len(),
                row == frame(all, channels as nat, at as int),
                samples@ == before + row.take(c as int),
            decreases channels - c,
        {
            assert(all[c as int] == output@[c as int]@);
            samples.push(output[c][at]);
            assert(samples@ =~= before + row.take(c + 1));
            c = c + 1;
        }
        assert(row.take(c as int) =~= row);
        at = at + 1;
    }
    samples
}

impl<S> AudioResampler<S> {
    /// A resampler with empty buffers and a new converter, which `make` makes for the two rates and
    /// the number of channels.
    pub fn new<M: Fn(u32, u32, usize) -> Result<S, String>>(
        source_rate: u32,
        target_rate: u32,
        channels: usize,
        make: M,
    ) -> (made: Result<Self, String>)
        requires
            source_rate != target_rate ==> call_requires(
                make,
                (source_rate, target_rate, channels),
            ),
        ensures
            source_rate == target_rate ==> (made matches Err(error) && error@
                == "source and target rate are the same"@),
            source_rate != target_rate ==> exists|converter: Result<S, String>| #[trigger]
                call_ensures(make, (source_rate, target_rate, channels), converter) && is_made(
                    made,
                    source_rate,
                    target_rate,
                    channels as nat,
                    converter,
                ),
    {
        if source_rate == target_rate {
            return Err("source and target rate are the same".to_string());
        }
        let converter: Result<S, String> = make(source_rate, target_rate, channels);
        AudioResampler::with_converter(source_rate, target_rate, channels, converter)
    }

    /// A resampler with empty buffers, given the outcome of making its converter.
    pub fn with_converter(
        source_rate: u32,
        target_rate: u32,
        channels: usize,
        converter: Result<S, String>,
    ) -> (made: Result<Self, String>)
        ensures
            is_made(made, source_rate, target_rate, channels as nat, converter),
    {
        if source_rate == target_rate {
            return Err("source and target rate are the same".to_string());
        }
        match converter {
            Ok(ready_made) => {
                let mut input_buffer: Vec<Vec<i16>> = Vec::new();
                let mut c: usize = 0;
                while c < channels
                    invariant
                        c <= channels,
                        input_buffer@.len() == c,
                        forall|d: int|
                            0 <= d < c ==> (#[trigger] input_buffer@[d])@ == Seq::<i16>::empty(),
                    decreases channels - c,
                {
                    input_buffer.push(Vec::new());
                    c = c + 1;
                }
                assert(planes(input_buffer@) =~= Seq::new(
                    channels as nat,
                    |c: int| Seq::<i16>::empty(),
                ));
                Ok(
                    AudioResampler {
                        source_rate,
                        target_rate,
                        channels,
                        input_buffer,
                        converter: Some(ready_made),
                    },
                )
            },
            Err(reason) => {
                let mut error: String = "Failed to create resampler: ".to_string();
                error.append(reason.as_str());
                Err(error)
            },
        }
    }

    /// Whether `input` can be resampled: there is a channel, and no channel falls a chunk behind
    /// the first one.
    pub fn accepts(&self, input: &[i16]) -> (accepted: bool)
        requires
            self@.valid(),
        ensures
            accepted == (self@.channels > 0 && balanced(dealt(self@.pending, input@))),
    {
        if self.channels == 0 {
            return false;
        }
        let ghost all = dealt(self@.pending, input@);
        let first: u128 = self.length_after(input.len(), 0);
        let whole: u128 = first / (CHUNK_SIZE as u128) * (CHUNK_SIZE as u128);
        proof {
            self.lemma_length_after(input@, 0);
            assert(whole == CHUNK_SIZE * ready(all));
        }
        let mut c: usize = 0;
        while c < self.channels
            invariant
                c <= self.channels,
                self@.valid(),
                all == dealt(self@.pending, input@),
                whole == CHUNK_SIZE * ready(all),
                forall|d: int| 0 <= d < c ==> CHUNK_SIZE * ready(all) <= (#[trigger] all[d]).len(),
            decreases self.channels - c,
        {
            proof {
                self.lemma_length_after(input@, c as int);
            }
            if self.length_after(input.len(), c) < whole {
                assert(all[c as int].len() < CHUNK_SIZE * ready(all));
                return false;
            }
            c = c + 1;
        }
        true
    }

    /// The length of buffer `c` once `count` interleaved samples are dealt out.
    fn length_after(&self, count: usize, c: usize) -> (length: u128)
        requires
            self@.valid(),
            c < self@.channels,
        ensures
            length == self@.pending[c as int].len() + dealt_count(
                count as nat,
                c as int,
                self@.channels as int,
            ),
    {
        let n: u128 = self.channels as u128;
        assert(self@.pending[c as int] == self.input_buffer@[c as int]@);
        let length: usize = self.input_buffer[c].len();
        let places: u128 = count as u128 + (n - 1 - c as u128);
        assert(places / n <= places) by (nonlinear_arith)
            requires
                n > 0,
        ;
        length as u128 + places / n
    }

    proof fn lemma_length_after(&self, input: Seq<i16>, c: int)
        requires
            self@.valid(),
            0 <= c < self@.channels,
        ensures
            dealt(self@.pending, input)[c].len() == self@.pending[c].len() + dealt_count(
                input.len(),
                c,
                self@.channels as int,
            ),
    {
        law_channel_places(input, c, self@.channels as int);
    }

    /// Deals interleaved samples out to the channels.
    fn deal(&mut self, input: &[i16])
        requires
            old(self)@.valid(),
            old(self)@.channels > 0,
        ensures
            final(self)@ == (ResamplerView {
                pending: dealt(old(self)@.pending, input@),
                ..old(self)@
            }),
    {
        let ghost start = self@.pending;
        let mut i: usize = 0;
        assert(self@.pending =~= dealt(start, input@.take(0)));
        while i < input.len()
            invariant
                i <= input@.len(),
                start == old(self)@.pending,
                start.len() == self.channels > 0,
                self@ == (ResamplerView {
                    pending: dealt(start, input@.take(i as int)),
                    ..old(self)@
                }),
            decreases input@.len() - i,
        {
            let c: usize = i % self.channels;
            let ghost before = self.input_buffer@;
            assert(planes(before).len() == start.len());
            self.input_buffer[c].push(input[i]);
            proof {
                let longer = input@.take(i + 1);
                assert(longer.drop_last() =~= input@.take(i as int));
                assert forall|d: int| 0 <= d < start.len() implies planes(self.input_buffer@)[d]
                    == #[trigger] dealt(start, longer)[d] by {
                    assert(planes(before)[d] == dealt(start, input@.take(i as int))[d]);
                    if d == c {
                        assert(planes(self.input_buffer@)[d] =~= dealt(start, longer)[d]);
                    }
                }
                assert(self@.pending =~= dealt(start, longer));
            }
            i = i + 1;
        }
        assert(input@.take(i as int) =~= input@);
    }

    /// Takes one complete chunk of every channel out of the buffers.
    fn take_chunk(&mut self) -> (taken: Vec<Vec<i16>>)
        requires
            old(self)@.pending.len() == old(self)@.channels,
            forall|c: int|
                0 <= c < old(self)@.pending.len() ==> CHUNK_SIZE <= (#[trigger] old(
                    self,
                )@.pending[c]).len(),
        ensures
            planes(taken@) == chunk(old(self)@.pending, 0),
            final(self)@ == (ResamplerView {
                pending: without_chunks(old(self)@.pending, 1),
                ..old(self)@
            }),
    {
        let ghost start = self@.pending;
        let mut taken: Vec<Vec<i16>> = Vec::new();
        let mut c: usize = 0;
        while c < self.channels
            invariant
                c <= self.channels,
                start == old(self)@.pending,
                start.len() == self.channels,
                self.source_rate == old(self).source_rate,
                self.target_rate == old(self).target_rate,
                self.channels == old(self).channels,
                self.converter == old(self).converter,
                self.input_buffer@.len() == self.channels,
                taken@.len() == c,
                forall|d: int| 0 <= d < start.len() ==> CHUNK_SIZE <= (#[trigger] start[d]).len(),
                forall|d: int|
                    0 <= d < c ==> (#[trigger] taken@[d])@ == start[d].subrange(
                        0,
                        CHUNK_SIZE as int,
                    ),
                forall|d: int|
                    0 <= d < c ==> (#[trigger] self.input_buffer@[d])@ == start[d].skip(
                        CHUNK_SIZE as int,
                    ),
                forall|d: int|
                    c <= d < start.len() ==> (#[trigger] self.input_buffer@[d])@ == start[d],
            decreases self.channels - c,
        {
            assert(self.input_buffer@[c as int]@ == start[c as int]);
            let rest: Vec<i16> = self.input_buffer[c].split_off(CHUNK_SIZE);
            let mut slot: Vec<i16> = rest;
            std::mem::swap(&mut self.input_buffer[c], &mut slot);
            assert(slot@ =~= start[c as int].subrange(0, CHUNK_SIZE as int));
            assert(self.input_buffer@[c as int]@ =~= start[c as int].skip(CHUNK_SIZE as int));
            taken.push(slot);
            c = c + 1;
        }
        assert(planes(taken@) =~= chunk(start, 0));
        assert(self@.pending =~= without_chunks(start, 1));
        taken
    }

    /// Takes in interleaved samples and puts every chunk that they complete through the converter,
    /// once and in order.
    ///
    /// `process` converts one chunk. When it fails, the samples of that chunk and the output so
    /// far are lost, and the chunks behind it stay in the buffers.
    pub fn resample<F: Fn(S, Vec<Vec<i16>>) -> (S, Result<Vec<Vec<i16>>, String>)>(
        &mut self,
        input: &[i16],
        process: F,
    ) -> (converted: Result<Vec<i16>, String>)
        requires
            old(self)@.valid(),
            old(self)@.channels > 0,
            balanced(dealt(old(self)@.pending, input@)),
            can_process(process, old(self)@.channels),
        ensures
            final(self)@.valid(),
            final(self)@.source_rate == old(self)@.source_rate,
            final(self)@.target_rate == old(self)@.target_rate,
            final(self)@.channels == old(self)@.channels,
            exists|outcome: Result<Seq<i16>, Seq<char>>|
                {
                    &&& #[trigger] told(outcome, converted)
                    &&& is_outcome(
                        process,
                        dealt(old(self)@.pending, input@),
                        old(self)@.converter->0,
                        outcome,
                        final(self)@.pending,
                        final(self)@.converter->0,
                    )
                },
    {
        self.deal(input);
        let ghost all = self@.pending;
        let ghost first = self@.converter->0;
        let mut converter: S = self.converter.take().unwrap();
        let ghost mut states: Seq<S> = seq![converter];
        let ghost mut outputs: Seq<Vec<Vec<i16>>> = Seq::empty();
        let mut samples: Vec<i16> = Vec::new();
        assert forall|c: int| 0 <= c < all.len() implies #[trigger] without_chunks(all, 0)[c]
            == all[c] by {
            assert(all[c].skip(0) =~= all[c]);
        }
        assert(self@.pending =~= without_chunks(all, 0));
        assert(joined(outputs, self@.channels) =~= samples@);
        while self.input_buffer[0].len() >= CHUNK_SIZE
            invariant
                self@.pending.len() == self@.channels,
                self@.channels == old(self)@.channels > 0,
                self@.source_rate == old(self)@.source_rate,
                self@.target_rate == old(self)@.target_rate,
                old(self)@.valid(),
                all == dealt(old(self)@.pending, input@),
                all.len() == self@.channels,
                balanced(all),
                can_process(process, old(self)@.channels),
                outputs.len() <= ready(all),
                self@.pending == without_chunks(all, outputs.len()),
                went_through(process, all, states, outputs),
                first == old(self)@.converter->0,
                states[0] == first,
                states.last() == converter,
                samples@ == joined(outputs, self@.channels),
            decreases ready(all) - outputs.len(),
        {
            let ghost n = outputs.len();
            assert(self@.pending[0] == all[0].skip((CHUNK_SIZE * n) as int));
            assert(n < ready(all));
            assert forall|c: int| 0 <= c < self@.pending.len() implies CHUNK_SIZE <= (
            #[trigger] self@.pending[c]).len() by {
                assert(self@.pending[c] == all[c].skip((CHUNK_SIZE * n) as int));
                assert(CHUNK_SIZE * ready(all) <= all[c].len());
            }
            let ghost before = self@.pending;
            let taken: Vec<Vec<i16>> = self.take_chunk();
            proof {
                assert(chunk(before, 0) =~= chunk(all, n)) by {
                    assert forall|c: int| 0 <= c < all.len() implies #[trigger] chunk(before, 0)[c]
                        == chunk(all, n)[c] by {
                        assert(CHUNK_SIZE * ready(all) <= all[c].len());
                        assert(chunk(before, 0)[c] =~= chunk(all, n)[c]);
                    }
                }
                assert(self@.pending =~= without_chunks(all, n + 1)) by {
                    assert forall|c: int| 0 <= c < all.len() implies #[trigger] self@.pending[c]
                        == without_chunks(all, n + 1)[c] by {
                        assert(CHUNK_SIZE * ready(all) <= all[c].len());
                        assert(self@.pending[c] =~= without_chunks(all, n + 1)[c]);
                    }
                }
            }
            let ghost state = converter;
            let (next, reply): (S, Result<Vec<Vec<i16>>, String>) = process(converter, taken);
            assert(answers(process, state, chunk(all, n), next, reply));
            converter = next;
            match reply {
                Ok(output) => {
                    let mut piece: Vec<i16> = interleave(&output, self.channels);
                    samples.append(&mut piece);
                    proof {
                        let more = outputs.push(output);
                        let further = states.push(next);
                        assert(more.drop_last() =~= outputs);
                        assert forall|k: int| 0 <= k < more.len() implies answers(
                            process,
                            further[k],
                            chunk(all, k as nat),
                            further[k + 1],
                            Ok(#[trigger] more[k]),
                        ) by {
                            if k < n {
                                assert(more[k] == outputs[k]);
                            }
                        }
                        outputs = more;
                        states = further;
                    }
                },
                Err(reason) => {
                    let mut error: String = "Resample error: ".to_string();
                    error.append(reason.as_str());
                    self.converter = Some(converter);
                    proof {
                        let outcome: Result<Seq<i16>, Seq<char>> = Err(reason@);
                        assert(went_through(process, all, states, outputs));
                        assert(answers(
                            process,
                            states.last(),
                            chunk(all, outputs.len()),
                            next,
                            Err(reason),
                        ));
                        assert(stopped_short(process, all, first, reason@, self@.pending, next));
                        assert(told(outcome, Err(error)));
                    }
                    return Err(error);
                },
            }
        }
        assert(self@.pending[0] == all[0].skip((CHUNK_SIZE * outputs.len()) as int));
        assert(outputs.len() == ready(all));
        self.converter = Some(converter);
        proof {
            let outcome: Result<Seq<i16>, Seq<char>> = Ok(samples@);
            assert(went_through(process, all, states, outputs));
            assert(converted_all(process, all, first, samples@, self@.pending, converter));
            assert(told(outcome, Ok(samples)));
        }
        Ok(samples)
    }
}

/// All channels of interleaved input.
pub open spec fn all_channels(input: Seq<i16>, channels: nat) -> Seq<Seq<i16>> {
    Seq::new(channels, |c: int| channel_of(input, c, channels as int))
}

/// The first `count` chunks of channel `c`, one after the other.
pub open spec fn handed_out(pending: Seq<Seq<i16>>, c: int, count: nat) -> Seq<i16>
    decreases count,
{
    if count == 0 {
        Seq::empty()
    } else {
        handed_out(pending, c, (count - 1) as nat) + chunk(pending, (count - 1) as nat)[c]
    }
}

/// Dealing whole frames out to the channels and interleaving the channels gives the input back.
pub proof fn law_interleave_after_deal(input: Seq<i16>, channels: nat, frames: nat)
    requires
        channels > 0,
        input.len() == frames * channels,
    ensures
        interleaved(all_channels(input, channels), channels, frames) == input,
{
    lemma_interleaved_prefix(input, channels, frames, frames);
    assert(input.take((frames * channels) as int) =~= input);
}

proof fn lemma_interleaved_prefix(input: Seq<i16>, channels: nat, frames: nat, done: nat)
    requires
        channels > 0,
        input.len() == frames * channels,
        done <= frames,
    ensures
        interleaved(all_channels(input, channels), channels, done) == input.take(
            (done * channels) as int,
        ),
        done * channels <= input.len(),
    decreases done,
{
    let planes = all_channels(input, channels);
    assert(done * channels <= frames * channels) by (nonlinear_arith)
        requires
            done <= frames,
    ;
    if done == 0 {
        vstd::arithmetic::mul::lemma_mul_basics(channels as int);
        assert(interleaved(planes, channels, 0) =~= input.take(0));
    } else {
        let at = (done - 1) as nat;
        lemma_interleaved_prefix(input, channels, frames, at);
        assert(done * channels == at * channels + channels) by (nonlinear_arith)
            requires
                done == at + 1,
        ;
        let row = frame(planes, channels, at as int);
        assert forall|c: int| 0 <= c < channels implies #[trigger] row[c] == input[at * channels
            + c] by {
            law_channel_places(input, c, channels as int);
            let total = input.len() + channels - 1 - c;
            lemma_quotient(total, frames as int, channels - 1 - c, channels as int);
            assert(at < planes[c].len());
            assert(planes[c][at as int] == input[at * channels + c]);
        }
        assert(interleaved(planes, channels, done) =~= input.take((done * channels) as int));
    }
}

/// Interleaving channels and dealing the result out again gives the channels back.
pub proof fn law_deal_after_interleave(output: Seq<Seq<i16>>, channels: nat, c: int)
    requires
        0 <= c < channels,
        rectangular(output, channels),
    ensures
        channel_of(
            interleaved(output, channels, output[0].len()),
            c,
            channels as int,
        ) == output[c].take(output[0].len() as int),
{
    lemma_deal_frames(output, channels, c, output[0].len());
}

proof fn lemma_deal_frames(output: Seq<Seq<i16>>, channels: nat, c: int, frames: nat)
    requires
        0 <= c < channels,
        rectangular(output, channels),
        frames <= output[0].len(),
    ensures
        interleaved(output, channels, frames).len() == frames * channels,
        channel_of(interleaved(output, channels, frames), c, channels as int) == output[c].take(
            frames as int,
        ),
    decreases frames,
{
    if frames == 0 {
        vstd::arithmetic::mul::lemma_mul_basics(channels as int);
        assert(output[c].take(0) =~= Seq::<i16>::empty());
    } else {
        let at = (frames - 1) as nat;
        let before = interleaved(output, channels, at);
        let row = frame(output, channels, at as int);
        lemma_deal_frames(output, channels, c, at);
        lemma_deal_row(before, at, row, c, channels as int, channels as int);
        assert(row.take(channels as int) =~= row);
        assert(frames * channels == at * channels + channels) by (nonlinear_arith)
            requires
                frames == at + 1,
        ;
        assert(output[0].len() <= output[c].len());
        assert(output[c].take(at as int).push(output[c][at as int]) =~= output[c].take(
            frames as int,
        ));
    }
}

/// Dealing out `count` samples of one more frame behind `frames` whole frames.
proof fn lemma_deal_row(
    before: Seq<i16>,
    frames: nat,
    row: Seq<i16>,
    c: int,
    count: int,
    channels: int,
)
    requires
        0 <= c < channels,
        before.len() == frames * channels,
        row.len() == channels,
        0 <= count <= channels,
    ensures
        channel_of(before + row.take(count), c, channels) == if c < count {
            channel_of(before, c, channels).push(row[c])
        } else {
            channel_of(before, c, channels)
        },
    decreases count,
{
    if count == 0 {
        assert(before + row.take(0) =~= before);
    } else {
        lemma_deal_row(before, frames, row, c, count - 1, channels);
        let longer = before + row.take(count);
        assert(longer.drop_last() =~= before + row.take(count - 1));
        assert(longer.last() == row[count - 1]);
        vstd::arithmetic::div_mod::lemma_fundamental_div_mod_converse(
            longer.len() - 1,
            channels,
            frames as int,
            count - 1,
        );
    }
}

/// No sample is lost, doubled or moved: on each channel the chunks handed out and what is left
/// behind them make up what was there.
pub proof fn law_chunks_cover(pending: Seq<Seq<i16>>, c: int, count: nat)
    requires
        0 <= c < pending.len(),
        CHUNK_SIZE * count <= pending[c].len(),
    ensures
        handed_out(pending, c, count) + without_chunks(pending, count)[c] == pending[c],
    decreases count,
{
    if count == 0 {
        assert(handed_out(pending, c, 0) + pending[c].skip(0) =~= pending[c]);
    } else {
        let one_less = (count - 1) as nat;
        law_chunks_cover(pending, c, one_less);
        assert(chunk(pending, one_less)[c] + without_chunks(pending, count)[c] =~= without_chunks(
            pending,
            one_less,
        )[c]);
        assert(handed_out(pending, c, count) + without_chunks(pending, count)[c] =~= handed_out(
            pending,
            c,
            one_less,
        ) + without_chunks(pending, one_less)[c]);
    }
}

/// Once every complete chunk is handed out, the first channel holds less than a chunk.
pub proof fn law_less_than_a_chunk_waits(pending: Seq<Seq<i16>>)
    requires
        pending.len() > 0,
    ensures
        without_chunks(pending, ready(pending))[0].len() < CHUNK_SIZE,
{
}

/// Whole frames keep the channels level: if all buffers are equally full before, they are after,
/// and then none falls behind.
pub proof fn law_whole_frames_stay_balanced(
    pending: Seq<Seq<i16>>,
    input: Seq<i16>,
    frames: nat,
)
    requires
        pending.len() > 0,
        forall|c: int| 0 <= c < pending.len() ==> (#[trigger] pending[c]).len() == pending[0].len(),
        input.len() == frames * pending.len(),
    ensures
        forall|c: int|
            0 <= c < pending.len() ==> (#[trigger] dealt(pending, input)[c]).len()
                == pending[0].len() + frames,
        balanced(dealt(pending, input)),
{
    let n = pending.len() as int;
    assert forall|c: int| 0 <= c < pending.len() implies (#[trigger] dealt(pending, input)[c]).len()
        == pending[0].len() + frames by {
        law_channel_places(input, c, n);
        lemma_quotient(input.len() + n - 1 - c, frames as int, n - 1 - c, n);
    }
}

/// A resampler for one channel takes any number of samples: nothing can fall behind.
pub proof fn law_one_channel_is_always_accepted(pending: Seq<Seq<i16>>, input: Seq<i16>)
    requires
        pending.len() == 1,
    ensures
        balanced(dealt(pending, input)),
{
}

/// Behind whole frames, dealing starts with the first channel again.
proof fn lemma_channel_of_joined(first: Seq<i16>, second: Seq<i16>, c: int, channels: int)
    requires
        channels > 0,
        first.len() % channels as nat == 0,
    ensures
        channel_of(first + second, c, channels) == channel_of(first, c, channels) + channel_of(
            second,
            c,
            channels,
        ),
    decreases second.len(),
{
    let whole = first + second;
    if second.len() == 0 {
        assert(whole =~= first);
        assert(channel_of(first, c, channels) + channel_of(second, c, channels) =~= channel_of(
            first,
            c,
            channels,
        ));
    } else {
        lemma_channel_of_joined(first, second.drop_last(), c, channels);
        assert(whole.drop_last() =~= first + second.drop_last());
        let frames = first.len() as int / channels;
        vstd::arithmetic::div_mod::lemma_fundamental_div_mod(first.len() as int, channels);
        vstd::arithmetic::div_mod::lemma_mod_multiples_vanish(
            frames,
            second.len() - 1,
            channels,
        );
        assert(whole.len() - 1 == channels * frames + (second.len() - 1));
        assert(channel_of(whole, c, channels) =~= channel_of(first, c, channels) + channel_of(
            second,
            c,
            channels,
        ));
    }
}

/// How whole frames and what follows them are cut into calls makes no difference to the buffers:
/// it is the same whether chunks are taken out in between or at the end.
pub proof fn law_cut_does_not_matter_to_buffers(
    pending: Seq<Seq<i16>>,
    first: Seq<i16>,
    second: Seq<i16>,
    count: nat,
)
    requires
        pending.len() > 0,
        first.len() % pending.len() == 0,
        forall|c: int|
            0 <= c < pending.len() ==> CHUNK_SIZE * count <= (#[trigger] dealt(
                pending,
                first,
            )[c]).len(),
    ensures
        dealt(without_chunks(dealt(pending, first), count), second) == without_chunks(
            dealt(pending, first + second),
            count,
        ),
{
    let cut = dealt(without_chunks(dealt(pending, first), count), second);
    let uncut = without_chunks(dealt(pending, first + second), count);
    assert forall|c: int| 0 <= c < pending.len() implies #[trigger] cut[c] == uncut[c] by {
        lemma_channel_of_joined(first, second, c, pending.len() as int);
        assert(CHUNK_SIZE * count <= dealt(pending, first)[c].len());
        assert(cut[c] =~= uncut[c]);
    }
    assert(cut =~= uncut);
}

proof fn lemma_joined_append(
    first: Seq<Vec<Vec<i16>>>,
    second: Seq<Vec<Vec<i16>>>,
    channels: nat,
)
    ensures
        joined(first + second, channels) == joined(first, channels) + joined(second, channels),
    decreases second.len(),
{
    if second.len() == 0 {
        assert(first + second =~= first);
        assert(joined(first, channels) + joined(second, channels) =~= joined(first, channels));
    } else {
        lemma_joined_append(first, second.drop_last(), channels);
        assert((first + second).drop_last() =~= first + second.drop_last());
        assert((first + second).last() == second.last());
        let last = planes(second.last()@);
        let piece = interleaved(last, channels, last[0].len());
        assert(joined(first, channels) + joined(second.drop_last(), channels) + piece
            =~= joined(first, channels) + (joined(second.drop_last(), channels) + piece));
    }
}

/// The output does not depend on how the input is cut into calls, as long as the cut is between two
/// frames: two calls put the same chunks through the converter, in the same order, as one call on
/// all of the input does; so their outputs, one after the other, are what that one call may give,
/// and the same samples and the same converter are left.
pub proof fn law_cut_does_not_matter_to_output<
    S,
    F: Fn(S, Vec<Vec<i16>>) -> (S, Result<Vec<Vec<i16>>, String>),
>(
    process: F,
    pending: Seq<Seq<i16>>,
    first: Seq<i16>,
    second: Seq<i16>,
    first_output: Seq<i16>,
    second_output: Seq<i16>,
    between: Seq<Seq<i16>>,
    left: Seq<Seq<i16>>,
    start: S,
    middle: S,
    end: S,
)
    requires
        pending.len() > 0,
        first.len() % pending.len() == 0,
        balanced(dealt(pending, first)),
        balanced(dealt(between, second)),
        converted_all(process, dealt(pending, first), start, first_output, between, middle),
        converted_all(process, dealt(between, second), middle, second_output, left, end),
    ensures
        balanced(dealt(pending, first + second)),
        converted_all(
            process,
            dealt(pending, first + second),
            start,
            first_output + second_output,
            left,
            end,
        ),
{
    let early = dealt(pending, first);
    let late = dealt(between, second);
    let all = dealt(pending, first + second);
    let done = ready(early);
    law_cut_does_not_matter_to_buffers(pending, first, second, done);
    assert(late == without_chunks(all, done));
    assert forall|c: int| 0 <= c < all.len() implies (#[trigger] all[c]).len() >= CHUNK_SIZE
        * done && all[c].len() == late[c].len() + CHUNK_SIZE * done && all[c].take(
        early[c].len() as int,
    ) == early[c] by {
        lemma_channel_of_joined(first, second, c, pending.len() as int);
        assert(CHUNK_SIZE * done <= early[c].len());
        assert(all[c] =~= early[c] + channel_of(second, c, pending.len() as int));
        assert(late[c] == all[c].skip((CHUNK_SIZE * done) as int));
        assert(all[c].take(early[c].len() as int) =~= early[c]);
    }
    assert(all[0].len() == late[0].len() + CHUNK_SIZE * done);
    assert(ready(all) == done + ready(late));
    assert forall|c: int| 0 <= c < all.len() implies CHUNK_SIZE * ready(all) <= (
    #[trigger] all[c]).len() by {
        assert(CHUNK_SIZE * ready(late) <= late[c].len());
    }
    let (first_states, before): (Seq<S>, Seq<Vec<Vec<i16>>>) = choose|
        states: Seq<S>,
        outputs: Seq<Vec<Vec<i16>>>,
    |
        {
            &&& #[trigger] went_through(process, early, states, outputs)
            &&& outputs.len() == ready(early)
            &&& states[0] == start
            &&& states.last() == middle
            &&& first_output == joined(outputs, early.len())
        };
    let (second_states, after): (Seq<S>, Seq<Vec<Vec<i16>>>) = choose|
        states: Seq<S>,
        outputs: Seq<Vec<Vec<i16>>>,
    |
        {
            &&& #[trigger] went_through(process, late, states, outputs)
            &&& outputs.len() == ready(late)
            &&& states[0] == middle
            &&& states.last() == end
            &&& second_output == joined(outputs, late.len())
        };
    let outputs = before + after;
    let states = first_states + second_states.skip(1);
    lemma_joined_append(before, after, all.len());
    assert forall|k: int| 0 <= k < outputs.len() implies answers(
        process,
        states[k],
        chunk(all, k as nat),
        states[k + 1],
        Ok(#[trigger] outputs[k]),
    ) by {
        if k < done {
            assert forall|c: int| 0 <= c < all.len() implies #[trigger] chunk(all, k as nat)[c]
                == chunk(early, k as nat)[c] by {
                assert(all[c].take(early[c].len() as int) == early[c]);
                assert(CHUNK_SIZE * done <= early[c].len());
                assert(chunk(all, k as nat)[c] =~= chunk(early, k as nat)[c]);
            }
            assert(chunk(all, k as nat) =~= chunk(early, k as nat));
            assert(outputs[k] == before[k]);
        } else {
            let j = (k - done) as nat;
            assert forall|c: int| 0 <= c < all.len() implies #[trigger] chunk(all, k as nat)[c]
                == chunk(late, j)[c] by {
                assert(late[c] == all[c].skip((CHUNK_SIZE * done) as int));
                assert(CHUNK_SIZE * ready(late) <= late[c].len());
                assert(all[c].len() == late[c].len() + CHUNK_SIZE * done);
                assert(chunk(all, k as nat)[c] =~= chunk(late, j)[c]);
            }
            assert(chunk(all, k as nat) =~= chunk(late, j));
            assert(outputs[k] == after[j as int]);
            assert(states[k] == second_states[j as int]);
            assert(states[k + 1] == second_states[j as int + 1]);
        }
    }
    assert forall|c: int| 0 <= c < all.len() implies #[trigger] left[c] == without_chunks(
        all,
        ready(all),
    )[c] by {
        assert(late[c] == all[c].skip((CHUNK_SIZE * done) as int));
        assert(CHUNK_SIZE * ready(late) <= late[c].len());
        assert(all[c].len() == late[c].len() + CHUNK_SIZE * done);
        assert(left[c] =~= without_chunks(all, ready(all))[c]);
    }
    assert(left =~= without_chunks(all, ready(all)));
    assert(went_through(process, all, states, outputs));
    assert(states.last() == end);
}

/// Two replies of a converter say the same.
pub open spec fn same_reply(
    one: Result<Vec<Vec<i16>>, String>,
    other: Result<Vec<Vec<i16>>, String>,
) -> bool {
    match (one, other) {
        (Ok(a), Ok(b)) => planes(a@) == planes(b@),
        (Err(a), Err(b)) => a@ == b@,
        (_, _) => false,
    }
}

/// In a given state and for a given chunk, the converter has one reply and one next state.
pub open spec fn one_answer<
    S,
    F: Fn(S, Vec<Vec<i16>>) -> (S, Result<Vec<Vec<i16>>, String>),
>(process: F) -> bool {
    forall|
        state: S,
        samples: Seq<Seq<i16>>,
        next: S,
        reply: Result<Vec<Vec<i16>>, String>,
        other_next: S,
        other_reply: Result<Vec<Vec<i16>>, String>,
    |
        #[trigger] answers(process, state, samples, next, reply) && #[trigger] answers(
            process,
            state,
            samples,
            other_next,
            other_reply,
        ) ==> next == other_next && same_reply(reply, other_reply)
}

proof fn lemma_joined_alike(
    one: Seq<Vec<Vec<i16>>>,
    other: Seq<Vec<Vec<i16>>>,
    channels: nat,
)
    requires
        one.len() == other.len(),
        forall|k: int|
            0 <= k < one.len() ==> planes((#[trigger] one[k])@) == planes(other[k]@),
    ensures
        joined(one, channels) == joined(other, channels),
    decreases one.len(),
{
    if one.len() > 0 {
        assert forall|k: int| 0 <= k < one.drop_last().len() implies planes(
            (#[trigger] one.drop_last()[k])@,
        ) == planes(other.drop_last()[k]@) by {
            assert(one.drop_last()[k] == one[k]);
        }
        lemma_joined_alike(one.drop_last(), other.drop_last(), channels);
        assert(planes(one[one.len() - 1]@) == planes(other[one.len() - 1]@));
    }
}

/// Two ways through the same chunks from the same state are the same.
proof fn lemma_one_way_through<
    S,
    F: Fn(S, Vec<Vec<i16>>) -> (S, Result<Vec<Vec<i16>>, String>),
>(
    process: F,
    all: Seq<Seq<i16>>,
    states: Seq<S>,
    outputs: Seq<Vec<Vec<i16>>>,
    other_states: Seq<S>,
    other_outputs: Seq<Vec<Vec<i16>>>,
    k: int,
)
    requires
        one_answer(process),
        went_through(process, all, states, outputs),
        went_through(process, all, other_states, other_outputs),
        states[0] == other_states[0],
        0 <= k <= outputs.len(),
        k <= other_outputs.len(),
    ensures
        states[k] == other_states[k],
        forall|j: int|
            0 <= j < k ==> planes((#[trigger] outputs[j])@) == planes(other_outputs[j]@),
    decreases k,
{
    if k > 0 {
        lemma_one_way_through(process, all, states, outputs, other_states, other_outputs, k - 1);
        let one = outputs[k - 1];
        let other = other_outputs[k - 1];
        assert(answers(
            process,
            states[k - 1],
            chunk(all, (k - 1) as nat),
            states[k - 1 + 1],
            Ok(one),
        ));
        assert(answers(
            process,
            other_states[k - 1],
            chunk(all, (k - 1) as nat),
            other_states[k - 1 + 1],
            Ok(other),
        ));
    }
}

/// With a converter that has one answer in each state, the same samples put through the same
/// converter always give the same output: where one call succeeded, every other one does, with the
/// same samples, and leaves the same samples and the same converter.
pub proof fn law_output_is_determined<
    S,
    F: Fn(S, Vec<Vec<i16>>) -> (S, Result<Vec<Vec<i16>>, String>),
>(
    process: F,
    all: Seq<Seq<i16>>,
    start: S,
    samples: Seq<i16>,
    left: Seq<Seq<i16>>,
    end: S,
    other: Result<Seq<i16>, Seq<char>>,
    other_left: Seq<Seq<i16>>,
    other_end: S,
)
    requires
        one_answer(process),
        converted_all(process, all, start, samples, left, end),
        is_outcome(process, all, start, other, other_left, other_end),
    ensures
        other == Ok::<Seq<i16>, Seq<char>>(samples),
        other_left == left,
        other_end == end,
{
    let (states, outputs): (Seq<S>, Seq<Vec<Vec<i16>>>) = choose|
        states: Seq<S>,
        outputs: Seq<Vec<Vec<i16>>>,
    |
        {
            &&& #[trigger] went_through(process, all, states, outputs)
            &&& outputs.len() == ready(all)
            &&& states[0] == start
            &&& states.last() == end
            &&& samples == joined(outputs, all.len())
        };
    match other {
        Ok(others) => {
            let (other_states, other_outputs): (Seq<S>, Seq<Vec<Vec<i16>>>) = choose|
                states: Seq<S>,
                outputs: Seq<Vec<Vec<i16>>>,
            |
                {
                    &&& #[trigger] went_through(process, all, states, outputs)
                    &&& outputs.len() == ready(all)
                    &&& states[0] == start
                    &&& states.last() == other_end
                    &&& others == joined(outputs, all.len())
                };
            lemma_one_way_through(
                process,
                all,
                states,
                outputs,
                other_states,
                other_outputs,
                outputs.len() as int,
            );
            lemma_joined_alike(outputs, other_outputs, all.len());
        },
        Err(reason) => {
            let (other_states, other_outputs, error): (Seq<S>, Seq<Vec<Vec<i16>>>, String) =
                choose|states: Seq<S>, outputs: Seq<Vec<Vec<i16>>>, error: String|
                {
                    &&& #[trigger] went_through(process, all, states, outputs)
                    &&& outputs.len() < ready(all)
                    &&& states[0] == start
                    &&& #[trigger] answers(
                        process,
                        states.last(),
                        chunk(all, outputs.len()),
                        other_end,
                        Err(error),
                    )
                    &&& error@ == reason
                    &&& other_left == without_chunks(all, outputs.len() + 1)
                };
            let failed = other_outputs.len() as int;
            lemma_one_way_through(
                process,
                all,
                states,
                outputs,
                other_states,
                other_outputs,
                failed,
            );
            assert(answers(
                process,
                states[failed],
                chunk(all, failed as nat),
                states[failed + 1],
                Ok(outputs[failed]),
            ));
        },
    }
}

/// One call gives what two give: with a converter that has one answer in each state, where two calls
/// succeed, one after the other and with a cut between two frames, a call on all of the input from
/// the same start succeeds too, with the two outputs one after the other.
pub proof fn law_one_call_gives_what_two_give<
    S,
    F: Fn(S, Vec<Vec<i16>>) -> (S, Result<Vec<Vec<i16>>, String>),
>(
    process: F,
    pending: Seq<Seq<i16>>,
    first: Seq<i16>,
    second: Seq<i16>,
    first_output: Seq<i16>,
    second_output: Seq<i16>,
    between: Seq<Seq<i16>>,
    left: Seq<Seq<i16>>,
    start: S,
    middle: S,
    end: S,
    outcome: Result<Seq<i16>, Seq<char>>,
    outcome_left: Seq<Seq<i16>>,
    outcome_end: S,
)
    requires
        one_answer(process),
        pending.len() > 0,
        first.len() % pending.len() == 0,
        balanced(dealt(pending, first)),
        balanced(dealt(between, second)),
        converted_all(process, dealt(pending, first), start, first_output, between, middle),
        converted_all(process, dealt(between, second), middle, second_output, left, end),
        is_outcome(
            process,
            dealt(pending, first + second),
            start,
            outcome,
            outcome_left,
            outcome_end,
        ),
    ensures
        outcome == Ok::<Seq<i16>, Seq<char>>(first_output + second_output),
        outcome_left == left,
        outcome_end == end,
{
    law_cut_does_not_matter_to_output(
        process,
        pending,
        first,
        second,
        first_output,
        second_output,
        between,
        left,
        start,
        middle,
        end,
    );
    law_output_is_determined(
        process,
        dealt(pending, first + second),
        start,
        first_output + second_output,
        left,
        end,
        outcome,
        outcome_left,
        outcome_end,
    );
}

proof fn lemma_joined_is_whole_frames(outputs: Seq<Vec<Vec<i16>>>, channels: nat) -> (frames: nat)
    ensures
        joined(outputs, channels).len() == frames * channels,
    decreases outputs.len(),
{
    if outputs.len() == 0 {
        vstd::arithmetic::mul::lemma_mul_basics(channels as int);
        0
    } else {
        let before = lemma_joined_is_whole_frames(outputs.drop_last(), channels);
        let last = planes(outputs.last()@);
        lemma_interleaved_len(last, channels, last[0].len());
        vstd::arithmetic::mul::lemma_mul_is_distributive_add_other_way(
            channels as int,
            before as int,
            last[0].len() as int,
        );
        before + last[0].len()
    }
}

proof fn lemma_interleaved_len(output: Seq<Seq<i16>>, channels: nat, frames: nat)
    ensures
        interleaved(output, channels, frames).len() == frames * channels,
    decreases frames,
{
    if frames == 0 {
        vstd::arithmetic::mul::lemma_mul_basics(channels as int);
    } else {
        lemma_interleaved_len(output, channels, (frames - 1) as nat);
        vstd::arithmetic::mul::lemma_mul_is_distributive_add_other_way(
            channels as int,
            frames - 1,
            1,
        );
        vstd::arithmetic::mul::lemma_mul_basics(channels as int);
    }
}

/// The output is whole frames: as many samples for each channel.
pub proof fn law_output_is_whole_frames<
    S,
    F: Fn(S, Vec<Vec<i16>>) -> (S, Result<Vec<Vec<i16>>, String>),
>(
    process: F,
    all: Seq<Seq<i16>>,
    start: S,
    samples: Seq<i16>,
    left: Seq<Seq<i16>>,
    end: S,
)
    requires
        all.len() > 0,
        converted_all(process, all, start, samples, left, end),
    ensures
        samples.len() % all.len() == 0,
{
    let (states, outputs): (Seq<S>, Seq<Vec<Vec<i16>>>) = choose|
        states: Seq<S>,
        outputs: Seq<Vec<Vec<i16>>>,
    |
        {
            &&& #[trigger] went_through(process, all, states, outputs)
            &&& outputs.len() == ready(all)
            &&& states[0] == start
            &&& states.last() == end
            &&& samples == joined(outputs, all.len())
        };
    let frames = lemma_joined_is_whole_frames(outputs, all.len());
    vstd::arithmetic::div_mod::lemma_mod_multiples_basic(frames as int, all.len() as int);
}

/// Every sample lies between the two bounds.
pub open spec fn within(samples: Seq<i16>, low: int, high: int) -> bool {
    forall|i: int| 0 <= i < samples.len() ==> low <= #[trigger] samples[i] <= high
}

/// Every sample that the converter gives for a chunk lies between the two bounds.
pub open spec fn replies_within<
    S,
    F: Fn(S, Vec<Vec<i16>>) -> (S, Result<Vec<Vec<i16>>, String>),
>(process: F, low: int, high: int) -> bool {
    forall|state: S, samples: Seq<Seq<i16>>, next: S, reply: Vec<Vec<i16>>, c: int|
        #[trigger] answers(process, state, samples, next, Ok(reply)) && 0 <= c < reply@.len()
            ==> within(#[trigger] planes(reply@)[c], low, high)
}

proof fn lemma_interleaved_within(
    output: Seq<Seq<i16>>,
    channels: nat,
    frames: nat,
    low: int,
    high: int,
)
    requires
        rectangular(output, channels),
        frames <= output[0].len(),
        forall|c: int| 0 <= c < channels ==> within(#[trigger] output[c], low, high),
    ensures
        within(interleaved(output, channels, frames), low, high),
    decreases frames,
{
    if frames > 0 {
        let at = frames - 1;
        let before = interleaved(output, channels, at as nat);
        let row = frame(output, channels, at);
        lemma_interleaved_within(output, channels, at as nat, low, high);
        assert forall|i: int| 0 <= i < (before + row).len() implies low <= #[trigger] (before
            + row)[i] <= high by {
            if i < before.len() {
                assert(low <= before[i] <= high);
            } else {
                let c = i - before.len();
                assert(within(output[c], low, high));
                assert(output[0].len() <= output[c].len());
                assert(low <= output[c][at] <= high);
            }
        }
    }
}

proof fn lemma_joined_within(
    outputs: Seq<Vec<Vec<i16>>>,
    channels: nat,
    low: int,
    high: int,
)
    requires
        forall|k: int|
            0 <= k < outputs.len() ==> rectangular(planes((#[trigger] outputs[k])@), channels),
        forall|k: int, c: int|
            0 <= k < outputs.len() && 0 <= c < channels ==> within(
                #[trigger] planes(outputs[k]@)[c],
                low,
                high,
            ),
    ensures
        within(joined(outputs, channels), low, high),
    decreases outputs.len(),
{
    if outputs.len() > 0 {
        let before = outputs.drop_last();
        let last = planes(outputs[outputs.len() - 1]@);
        assert forall|k: int| 0 <= k < before.len() implies rectangular(
            planes((#[trigger] before[k])@),
            channels,
        ) by {
            assert(before[k] == outputs[k]);
        }
        assert forall|k: int, c: int| 0 <= k < before.len() && 0 <= c < channels implies within(
            #[trigger] planes(before[k]@)[c],
            low,
            high,
        ) by {
            assert(before[k] == outputs[k]);
            assert(within(planes(outputs[k]@)[c], low, high));
        }
        lemma_joined_within(before, channels, low, high);
        lemma_interleaved_within(last, channels, last[0].len(), low, high);
        let a = joined(before, channels);
        let b = interleaved(last, channels, last[0].len());
        assert forall|i: int| 0 <= i < (a + b).len() implies low <= #[trigger] (a + b)[i]
            <= high by {
            if i < a.len() {
                assert(low <= a[i] <= high);
            } else {
                assert(low <= b[i - a.len()] <= high);
            }
        }
    }
}

/// Resampling adds nothing to what the converter gives: where the converter keeps its samples
/// between two bounds, so is the output.
pub proof fn law_output_keeps_to_the_converters_range<
    S,
    F: Fn(S, Vec<Vec<i16>>) -> (S, Result<Vec<Vec<i16>>, String>),
>(
    process: F,
    all: Seq<Seq<i16>>,
    start: S,
    samples: Seq<i16>,
    left: Seq<Seq<i16>>,
    end: S,
    low: int,
    high: int,
)
    requires
        can_process(process, all.len()),
        replies_within(process, low, high),
        converted_all(process, all, start, samples, left, end),
    ensures
        within(samples, low, high),
{
    let (states, outputs): (Seq<S>, Seq<Vec<Vec<i16>>>) = choose|
        states: Seq<S>,
        outputs: Seq<Vec<Vec<i16>>>,
    |
        {
            &&& #[trigger] went_through(process, all, states, outputs)
            &&& outputs.len() == ready(all)
            &&& states[0] == start
            &&& states.last() == end
            &&& samples == joined(outputs, all.len())
        };
    assert forall|k: int| 0 <= k < outputs.len() implies rectangular(
        planes((#[trigger] outputs[k])@),
        all.len(),
    ) by {
        assert(answers(process, states[k], chunk(all, k as nat), states[k + 1], Ok(outputs[k])));
    }
    assert forall|k: int, c: int| 0 <= k < outputs.len() && 0 <= c < all.len() implies within(
        #[trigger] planes(outputs[k]@)[c],
        low,
        high,
    ) by {
        assert(rectangular(planes(outputs[k]@), all.len()));
        assert(answers(process, states[k], chunk(all, k as nat), states[k + 1], Ok(outputs[k])));
    }
    lemma_joined_within(outputs, all.len(), low, high);
}

/// `both` is `left` and `right`, sample by sample in turn.
pub open spec fn woven(both: Seq<i16>, left: Seq<i16>, right: Seq<i16>) -> bool {
    &&& left.len() == right.len()
    &&& both.len() == 2 * left.len()
    &&& forall|i: int|
        0 <= i < left.len() ==> both[2 * i] == #[trigger] left[i] && both[2 * i + 1] == right[i]
}

/// The first channel of `both` is that of `one`, and the second that of `other`.
pub open spec fn side_by_side(
    both: Seq<Seq<i16>>,
    one: Seq<Seq<i16>>,
    other: Seq<Seq<i16>>,
) -> bool {
    &&& both.len() == 2
    &&& one.len() == 1
    &&& other.len() == 1
    &&& both[0] == one[0]
    &&& both[1] == other[0]
    &&& one[0].len() == other[0].len()
}

proof fn lemma_interleaved_one(output: Seq<Seq<i16>>, frames: nat)
    requires
        output.len() == 1,
        frames <= output[0].len(),
    ensures
        interleaved(output, 1, frames) == output[0].take(frames as int),
    decreases frames,
{
    if frames > 0 {
        lemma_interleaved_one(output, (frames - 1) as nat);
    }
    assert(interleaved(output, 1, frames) =~= output[0].take(frames as int));
}

proof fn lemma_interleaved_two(output: Seq<Seq<i16>>, frames: nat)
    requires
        output.len() == 2,
        frames <= output[0].len(),
        frames <= output[1].len(),
    ensures
        woven(
            interleaved(output, 2, frames),
            output[0].take(frames as int),
            output[1].take(frames as int),
        ),
    decreases frames,
{
    if frames > 0 {
        let at = (frames - 1) as nat;
        lemma_interleaved_two(output, at);
        let before = interleaved(output, 2, at);
        let row = frame(output, 2, at as int);
        assert forall|i: int| 0 <= i < frames implies (before + row)[2 * i]
            == #[trigger] output[0].take(frames as int)[i] && (before + row)[2 * i + 1]
            == output[1].take(frames as int)[i] by {
            if i < at {
                assert(before[2 * i] == output[0].take(at as int)[i]);
                assert(before[2 * i + 1] == output[1].take(at as int)[i]);
            }
        }
    }
}

proof fn lemma_woven_append(
    both: Seq<i16>,
    left: Seq<i16>,
    right: Seq<i16>,
    more: Seq<i16>,
    more_left: Seq<i16>,
    more_right: Seq<i16>,
)
    requires
        woven(both, left, right),
        woven(more, more_left, more_right),
    ensures
        woven(both + more, left + more_left, right + more_right),
{
    let n = left.len() as int;
    assert forall|i: int| 0 <= i < (left + more_left).len() implies (both + more)[2 * i]
        == #[trigger] (left + more_left)[i] && (both + more)[2 * i + 1] == (right
        + more_right)[i] by {
        if i < n {
            assert(both[2 * i] == left[i]);
        } else {
            assert(more[2 * (i - n)] == more_left[i - n]);
            assert((both + more)[2 * i] == more[2 * (i - n)]);
            assert((both + more)[2 * i + 1] == more[2 * (i - n) + 1]);
        }
    }
}

proof fn lemma_woven_outputs(
    both: Seq<Vec<Vec<i16>>>,
    left: Seq<Vec<Vec<i16>>>,
    right: Seq<Vec<Vec<i16>>>,
)
    requires
        both.len() == left.len() == right.len(),
        forall|k: int|
            0 <= k < both.len() ==> side_by_side(
                planes((#[trigger] both[k])@),
                planes(left[k]@),
                planes(right[k]@),
            ),
    ensures
        woven(joined(both, 2), joined(left, 1), joined(right, 1)),
    decreases both.len(),
{
    if both.len() > 0 {
        let last = both.len() - 1;
        assert forall|k: int| 0 <= k < both.drop_last().len() implies side_by_side(
            planes((#[trigger] both.drop_last()[k])@),
            planes(left.drop_last()[k]@),
            planes(right.drop_last()[k]@),
        ) by {
            assert(both.drop_last()[k] == both[k]);
        }
        lemma_woven_outputs(both.drop_last(), left.drop_last(), right.drop_last());
        let b = planes(both[last]@);
        let l = planes(left[last]@);
        let r = planes(right[last]@);
        assert(side_by_side(b, l, r));
        let n = b[0].len();
        lemma_interleaved_two(b, n);
        lemma_interleaved_one(l, n);
        lemma_interleaved_one(r, n);
        lemma_woven_append(
            joined(both.drop_last(), 2),
            joined(left.drop_last(), 1),
            joined(right.drop_last(), 1),
            interleaved(b, 2, n),
            interleaved(l, 1, n),
            interleaved(r, 1, n),
        );
    }
}

proof fn lemma_only_channel(input: Seq<i16>)
    ensures
        channel_of(input, 0, 1) == input,
    decreases input.len(),
{
    if input.len() > 0 {
        lemma_only_channel(input.drop_last());
    }
    assert(channel_of(input, 0, 1) =~= input);
}

/// A converter for two channels treats each of them as a converter for one channel does. `together`
/// tells which states of the three converters belong together: those that had the same history on
/// their channels.
pub open spec fn converts_side_by_side<
    S,
    L,
    R,
    F: Fn(S, Vec<Vec<i16>>) -> (S, Result<Vec<Vec<i16>>, String>),
    G: Fn(L, Vec<Vec<i16>>) -> (L, Result<Vec<Vec<i16>>, String>),
    H: Fn(R, Vec<Vec<i16>>) -> (R, Result<Vec<Vec<i16>>, String>),
>(
    process: F,
    process_left: G,
    process_right: H,
    together: spec_fn(S, L, R) -> bool,
) -> bool {
    forall|
        state: S,
        left_state: L,
        right_state: R,
        samples: Seq<Seq<i16>>,
        left: Seq<Seq<i16>>,
        right: Seq<Seq<i16>>,
        next: S,
        left_next: L,
        right_next: R,
        reply: Result<Vec<Vec<i16>>, String>,
        one: Vec<Vec<i16>>,
        other: Vec<Vec<i16>>,
    |
        {
            &&& together(state, left_state, right_state)
            &&& side_by_side(samples, left, right)
            &&& #[trigger] answers(process, state, samples, next, reply)
            &&& #[trigger] answers(process_left, left_state, left, left_next, Ok(one))
            &&& #[trigger] answers(process_right, right_state, right, right_next, Ok(other))
        } ==> {
            &&& together(next, left_next, right_next)
            &&& reply matches Ok(both) && side_by_side(
                planes(both@),
                planes(one@),
                planes(other@),
            )
        }
}

/// Along the same chunks, the three converters stay together.
proof fn lemma_stay_together<
    S,
    L,
    R,
    F: Fn(S, Vec<Vec<i16>>) -> (S, Result<Vec<Vec<i16>>, String>),
    G: Fn(L, Vec<Vec<i16>>) -> (L, Result<Vec<Vec<i16>>, String>),
    H: Fn(R, Vec<Vec<i16>>) -> (R, Result<Vec<Vec<i16>>, String>),
>(
    process: F,
    process_left: G,
    process_right: H,
    together: spec_fn(S, L, R) -> bool,
    left: Seq<i16>,
    right: Seq<i16>,
    states: Seq<S>,
    outputs: Seq<Vec<Vec<i16>>>,
    left_states: Seq<L>,
    left_outputs: Seq<Vec<Vec<i16>>>,
    right_states: Seq<R>,
    right_outputs: Seq<Vec<Vec<i16>>>,
    k: int,
)
    requires
        converts_side_by_side(process, process_left, process_right, together),
        went_through(process, seq![left, right], states, outputs),
        went_through(process_left, seq![left], left_states, left_outputs),
        went_through(process_right, seq![right], right_states, right_outputs),
        left.len() == right.len(),
        together(states[0], left_states[0], right_states[0]),
        0 <= k <= outputs.len(),
        k <= left_outputs.len() <= ready(seq![left]),
        k <= right_outputs.len(),
    ensures
        together(states[k], left_states[k], right_states[k]),
        forall|j: int|
            0 <= j < k ==> side_by_side(
                planes((#[trigger] outputs[j])@),
                planes(left_outputs[j]@),
                planes(right_outputs[j]@),
            ),
    decreases k,
{
    if k > 0 {
        let at = k - 1;
        lemma_stay_together(
            process,
            process_left,
            process_right,
            together,
            left,
            right,
            states,
            outputs,
            left_states,
            left_outputs,
            right_states,
            right_outputs,
            at,
        );
        let n = at as nat;
        assert(side_by_side(
            chunk(seq![left, right], n),
            chunk(seq![left], n),
            chunk(seq![right], n),
        ));
        assert(answers(
            process,
            states[at],
            chunk(seq![left, right], n),
            states[at + 1],
            Ok(outputs[at]),
        ));
        assert(answers(
            process_left,
            left_states[at],
            chunk(seq![left], n),
            left_states[at + 1],
            Ok(left_outputs[at]),
        ));
        assert(answers(
            process_right,
            right_states[at],
            chunk(seq![right], n),
            right_states[at + 1],
            Ok(right_outputs[at]),
        ));
    }
}

/// The channels do not leak into each other: where a converter for two channels treats each of them
/// as a converter for one channel does, and resampling the two channels apart succeeds, resampling
/// them interleaved succeeds too and gives the two outputs, interleaved. All three resamplers start
/// with empty buffers.
pub proof fn law_channels_are_kept_apart<
    S,
    L,
    R,
    F: Fn(S, Vec<Vec<i16>>) -> (S, Result<Vec<Vec<i16>>, String>),
    G: Fn(L, Vec<Vec<i16>>) -> (L, Result<Vec<Vec<i16>>, String>),
    H: Fn(R, Vec<Vec<i16>>) -> (R, Result<Vec<Vec<i16>>, String>),
>(
    process: F,
    process_left: G,
    process_right: H,
    together: spec_fn(S, L, R) -> bool,
    start: S,
    left_start: L,
    right_start: R,
    left: Seq<i16>,
    right: Seq<i16>,
    input: Seq<i16>,
    outcome: Result<Seq<i16>, Seq<char>>,
    left_output: Seq<i16>,
    right_output: Seq<i16>,
    waiting: Seq<Seq<i16>>,
    left_waiting: Seq<Seq<i16>>,
    right_waiting: Seq<Seq<i16>>,
    end: S,
    left_end: L,
    right_end: R,
)
    requires
        converts_side_by_side(process, process_left, process_right, together),
        together(start, left_start, right_start),
        woven(input, left, right),
        is_outcome(
            process,
            dealt(seq![Seq::empty(), Seq::empty()], input),
            start,
            outcome,
            waiting,
            end,
        ),
        converted_all(
            process_left,
            dealt(seq![Seq::empty()], left),
            left_start,
            left_output,
            left_waiting,
            left_end,
        ),
        converted_all(
            process_right,
            dealt(seq![Seq::empty()], right),
            right_start,
            right_output,
            right_waiting,
            right_end,
        ),
    ensures
        outcome matches Ok(output) && woven(output, left_output, right_output),
        together(end, left_end, right_end),
{
    let all = seq![left, right];
    let lefts = seq![left];
    let rights = seq![right];
    assert(dealt(seq![Seq::empty(), Seq::empty()], input) =~= all) by {
        let given = dealt(seq![Seq::empty(), Seq::empty()], input);
        law_channel_places(input, 0, 2);
        law_channel_places(input, 1, 2);
        assert(channel_of(input, 0, 2) =~= left);
        assert(channel_of(input, 1, 2) =~= right) by {
            assert forall|i: int| 0 <= i < right.len() implies #[trigger] channel_of(input, 1, 2)[i]
                == right[i] by {
                assert(left[i] == input[2 * i]);
            }
        }
        assert(given[0] =~= left);
        assert(given[1] =~= right);
    }
    assert(dealt(seq![Seq::empty()], left) =~= lefts) by {
        lemma_only_channel(left);
        assert(dealt(seq![Seq::empty()], left)[0] =~= left);
    }
    assert(dealt(seq![Seq::empty()], right) =~= rights) by {
        lemma_only_channel(right);
        assert(dealt(seq![Seq::empty()], right)[0] =~= right);
    }
    let (left_states, left_outputs): (Seq<L>, Seq<Vec<Vec<i16>>>) = choose|
        states: Seq<L>,
        outputs: Seq<Vec<Vec<i16>>>,
    |
        {
            &&& #[trigger] went_through(process_left, lefts, states, outputs)
            &&& outputs.len() == ready(lefts)
            &&& states[0] == left_start
            &&& states.last() == left_end
            &&& left_output == joined(outputs, lefts.len())
        };
    let (right_states, right_outputs): (Seq<R>, Seq<Vec<Vec<i16>>>) = choose|
        states: Seq<R>,
        outputs: Seq<Vec<Vec<i16>>>,
    |
        {
            &&& #[trigger] went_through(process_right, rights, states, outputs)
            &&& outputs.len() == ready(rights)
            &&& states[0] == right_start
            &&& states.last() == right_end
            &&& right_output == joined(outputs, rights.len())
        };
    match outcome {
        Ok(output) => {
            let (states, outputs): (Seq<S>, Seq<Vec<Vec<i16>>>) = choose|
                states: Seq<S>,
                outputs: Seq<Vec<Vec<i16>>>,
            |
                {
                    &&& #[trigger] went_through(process, all, states, outputs)
                    &&& outputs.len() == ready(all)
                    &&& states[0] == start
                    &&& states.last() == end
                    &&& output == joined(outputs, all.len())
                };
            lemma_stay_together(
                process,
                process_left,
                process_right,
                together,
                left,
                right,
                states,
                outputs,
                left_states,
                left_outputs,
                right_states,
                right_outputs,
                outputs.len() as int,
            );
            lemma_woven_outputs(outputs, left_outputs, right_outputs);
        },
        Err(reason) => {
            let (states, outputs, error): (Seq<S>, Seq<Vec<Vec<i16>>>, String) =
                choose|states: Seq<S>, outputs: Seq<Vec<Vec<i16>>>, error: String|
                {
                    &&& #[trigger] went_through(process, all, states, outputs)
                    &&& outputs.len() < ready(all)
                    &&& states[0] == start
                    &&& #[trigger] answers(
                        process,
                        states.last(),
                        chunk(all, outputs.len()),
                        end,
                        Err(error),
                    )
                    &&& error@ == reason
                    &&& waiting == without_chunks(all, outputs.len() + 1)
                };
            let failed = outputs.len() as int;
            lemma_stay_together(
                process,
                process_left,
                process_right,
                together,
                left,
                right,
                states,
                outputs,
                left_states,
                left_outputs,
                right_states,
                right_outputs,
                failed,
            );
            let n = failed as nat;
            assert(side_by_side(chunk(all, n), chunk(lefts, n), chunk(rights, n)));
            assert(answers(
                process_left,
                left_states[failed],
                chunk(lefts, n),
                left_states[failed + 1],
                Ok(left_outputs[failed]),
            ));
            assert(answers(
                process_right,
                right_states[failed],
                chunk(rights, n),
                right_states[failed + 1],
                Ok(right_outputs[failed]),
            ));
        },
    }
}

/// Every sample is dealt out, to the channel that its place belongs to and behind what that channel
/// already holds; what the channels already hold stays, and no channel gets more than its share.
pub proof fn law_every_sample_is_dealt(pending: Seq<Seq<i16>>, input: Seq<i16>, i: int)
    requires
        pending.len() > 0,
        0 <= i < input.len(),
    ensures
        ({
            let n = pending.len() as int;
            let all = dealt(pending, input);
            let held = pending[i % n].len() as int;
            &&& all.len() == n
            &&& held + i / n < all[i % n].len()
            &&& all[i % n][held + i / n] == input[i]
            &&& all[i % n].take(held) == pending[i % n]
            &&& n * (all[i % n].len() - held) < input.len() + n
        }),
{
    let n = pending.len() as int;
    let c = i % n;
    let k = i / n;
    vstd::arithmetic::div_mod::lemma_fundamental_div_mod(i, n);
    vstd::arithmetic::div_mod::lemma_mod_bound(i, n);
    vstd::arithmetic::div_mod::lemma_div_pos_is_pos(i, n);
    vstd::arithmetic::mul::lemma_mul_is_commutative(n, k);
    law_channel_places(input, c, n);
    let total = input.len() + n - 1 - c;
    let count = total / n;
    vstd::arithmetic::div_mod::lemma_fundamental_div_mod(total, n);
    vstd::arithmetic::div_mod::lemma_mod_bound(total, n);
    assert(k < count) by (nonlinear_arith)
        requires
            n > 0,
            total == n * count + total % n,
            0 <= total % n < n,
            k * n + c + n <= total + c,
            0 <= c < n,
    ;
    assert(dealt(pending, input)[c].take(pending[c].len() as int) =~= pending[c]);
}

/// Where nothing comes in, the buffers stay as they are.
pub proof fn law_nothing_dealt_nothing_changed(pending: Seq<Seq<i16>>)
    ensures
        dealt(pending, Seq::empty()) == pending,
{
    assert forall|c: int| 0 <= c < pending.len() implies #[trigger] dealt(pending, Seq::empty())[c]
        == pending[c] by {
        assert(pending[c] + Seq::<i16>::empty() =~= pending[c]);
    }
    assert(dealt(pending, Seq::empty()) =~= pending);
}

/// Interleaved channels, place by place: frame after frame, and in a frame channel after channel.
pub proof fn law_interleaved_places(
    output: Seq<Seq<i16>>,
    channels: nat,
    frames: nat,
    f: int,
    c: int,
)
    requires
        0 <= f < frames,
        0 <= c < channels,
    ensures
        interleaved(output, channels, frames).len() == frames * channels,
        0 <= f * channels + c < frames * channels,
        interleaved(output, channels, frames)[f * channels + c] == output[c][f],
    decreases frames,
{
    let at = (frames - 1) as nat;
    lemma_interleaved_len(output, channels, frames);
    lemma_interleaved_len(output, channels, at);
    assert(0 <= f * channels && f * channels + channels <= frames * channels && at * channels
        + channels == frames * channels) by (nonlinear_arith)
        requires
            0 <= f < frames,
            at == frames - 1,
            0 < channels,
    ;
    if f < at {
        law_interleaved_places(output, channels, at, f, c);
    }
}

/// Fewer than 1024 samples on the first channel are not given to the converter: nothing comes out,
/// and the samples and the converter stay as they are.
pub proof fn law_incomplete_chunk_waits<
    S,
    F: Fn(S, Vec<Vec<i16>>) -> (S, Result<Vec<Vec<i16>>, String>),
>(
    process: F,
    all: Seq<Seq<i16>>,
    before: S,
    outcome: Result<Seq<i16>, Seq<char>>,
    left: Seq<Seq<i16>>,
    after: S,
)
    requires
        all.len() > 0,
        all[0].len() < 1024,
        is_outcome(process, all, before, outcome, left, after),
    ensures
        outcome matches Ok(samples) && samples.len() == 0,
        left == all,
        after == before,
{
    assert(ready(all) == 0);
    assert forall|c: int| 0 <= c < all.len() implies #[trigger] without_chunks(all, 0)[c]
        == all[c] by {
        assert(all[c].skip(0) =~= all[c]);
    }
    assert(without_chunks(all, 0) =~= all);
}

/// One full chunk is given to the converter as it is, the first 1024 samples of every channel. When
/// the converter succeeds, all that it gives comes out, interleaved; when it fails, that is what is
/// told. Either way the converter is kept as it then is, and what stands behind the chunk waits.
pub proof fn law_one_chunk_is_converted<
    S,
    F: Fn(S, Vec<Vec<i16>>) -> (S, Result<Vec<Vec<i16>>, String>),
>(
    process: F,
    all: Seq<Seq<i16>>,
    before: S,
    outcome: Result<Seq<i16>, Seq<char>>,
    left: Seq<Seq<i16>>,
    after: S,
)
    requires
        all.len() > 0,
        1024 <= all[0].len() < 2048,
        can_process(process, all.len()),
        is_outcome(process, all, before, outcome, left, after),
    ensures
        exists|given: Vec<Vec<i16>>, reply: Result<Vec<Vec<i16>>, String>|
            {
                &&& #[trigger] call_ensures(process, (before, given), (after, reply))
                &&& given@.len() == all.len()
                &&& forall|c: int|
                    0 <= c < all.len() ==> (#[trigger] given@[c])@ == all[c].subrange(0, 1024)
                &&& match (outcome, reply) {
                    (Ok(samples), Ok(output)) => {
                        &&& samples.len() == output@[0]@.len() * all.len()
                        &&& forall|f: int, c: int|
                            0 <= f < output@[0]@.len() && 0 <= c < all.len() ==> samples[f
                                * all.len() + c] == #[trigger] output@[c]@[f]
                    },
                    (Err(reason), Err(error)) => error@ == reason,
                    (_, _) => false,
                }
            },
        left.len() == all.len(),
        forall|c: int| 0 <= c < all.len() ==> #[trigger] left[c] == all[c].skip(1024),
{
    assert(ready(all) == 1);
    let n = all.len();
    match outcome {
        Ok(samples) => {
            let (states, outputs): (Seq<S>, Seq<Vec<Vec<i16>>>) = choose|
                states: Seq<S>,
                outputs: Seq<Vec<Vec<i16>>>,
            |
                {
                    &&& #[trigger] went_through(process, all, states, outputs)
                    &&& outputs.len() == ready(all)
                    &&& states[0] == before
                    &&& states.last() == after
                    &&& samples == joined(outputs, all.len())
                };
            let output = outputs[0];
            assert(answers(process, states[0], chunk(all, 0), states[1], Ok(output)));
            let given = choose|given: Vec<Vec<i16>>|
                planes(given@) == chunk(all, 0) && #[trigger] call_ensures(
                    process,
                    (before, given),
                    (after, Ok(output)),
                );
            lemma_given_is_chunk(given, all, 0);
            let frames = planes(output@)[0].len();
            assert(outputs.drop_last() =~= Seq::<Vec<Vec<i16>>>::empty());
            assert(joined(outputs, n) =~= interleaved(planes(output@), n, frames)) by {
                assert(joined(outputs.drop_last(), n) =~= Seq::<i16>::empty());
            }
            lemma_interleaved_len(planes(output@), n, frames);
            assert(rectangular(planes(output@), n));
            assert(frames == output@[0]@.len());
            assert forall|f: int, c: int|
                0 <= f < output@[0]@.len() && 0 <= c < n implies samples[f * n + c]
                == #[trigger] output@[c]@[f] by {
                law_interleaved_places(planes(output@), n, frames, f, c);
                assert(planes(output@)[c] == output@[c]@);
            }
            assert(call_ensures(process, (before, given), (after, Ok(output))));
        },
        Err(reason) => {
            let (states, outputs, error): (Seq<S>, Seq<Vec<Vec<i16>>>, String) =
                choose|states: Seq<S>, outputs: Seq<Vec<Vec<i16>>>, error: String|
                {
                    &&& #[trigger] went_through(process, all, states, outputs)
                    &&& outputs.len() < ready(all)
                    &&& states[0] == before
                    &&& #[trigger] answers(
                        process,
                        states.last(),
                        chunk(all, outputs.len()),
                        after,
                        Err(error),
                    )
                    &&& error@ == reason
                    &&& left == without_chunks(all, outputs.len() + 1)
                };
            assert(outputs.len() == 0);
            let given = choose|given: Vec<Vec<i16>>|
                planes(given@) == chunk(all, 0) && #[trigger] call_ensures(
                    process,
                    (before, given),
                    (after, Err(error)),
                );
            lemma_given_is_chunk(given, all, 0);
            assert(call_ensures(process, (before, given), (after, Err(error))));
        },
    }
}

proof fn lemma_given_is_chunk(given: Vec<Vec<i16>>, all: Seq<Seq<i16>>, k: nat)
    requires
        planes(given@) == chunk(all, k),
    ensures
        given@.len() == all.len(),
        forall|c: int|
            0 <= c < all.len() ==> (#[trigger] given@[c])@ == all[c].subrange(
                1024 * k as int,
                1024 * k as int + 1024,
            ),
{
    assert(planes(given@).len() == given@.len());
    assert(chunk(all, k).len() == all.len());
    assert forall|c: int| 0 <= c < all.len() implies (#[trigger] given@[c])@ == all[c].subrange(
        1024 * k as int,
        1024 * k as int + 1024,
    ) by {
        assert(planes(given@)[c] == given@[c]@);
        assert(chunk(all, k)[c] == all[c].subrange(1024 * k as int, 1024 * k as int + 1024));
    }
}

/// A failure behind a success: where a first call converts all of its chunks and a second one, with a
/// cut between two frames, fails, one call on all of the input may fail for the same reason, and
/// leaves the same samples and the same converter.
pub proof fn law_cut_does_not_matter_to_failure<
    S,
    F: Fn(S, Vec<Vec<i16>>) -> (S, Result<Vec<Vec<i16>>, String>),
>(
    process: F,
    pending: Seq<Seq<i16>>,
    first: Seq<i16>,
    second: Seq<i16>,
    first_output: Seq<i16>,
    reason: Seq<char>,
    between: Seq<Seq<i16>>,
    left: Seq<Seq<i16>>,
    start: S,
    middle: S,
    end: S,
)
    requires
        pending.len() > 0,
        first.len() % pending.len() == 0,
        balanced(dealt(pending, first)),
        balanced(dealt(between, second)),
        converted_all(process, dealt(pending, first), start, first_output, between, middle),
        stopped_short(process, dealt(between, second), middle, reason, left, end),
    ensures
        stopped_short(process, dealt(pending, first + second), start, reason, left, end),
{
    let early = dealt(pending, first);
    let late = dealt(between, second);
    let all = dealt(pending, first + second);
    let done = ready(early);
    law_cut_does_not_matter_to_buffers(pending, first, second, done);
    assert(late == without_chunks(all, done));
    assert forall|c: int| 0 <= c < all.len() implies (#[trigger] all[c]).len() >= CHUNK_SIZE
        * done && all[c].len() == late[c].len() + CHUNK_SIZE * done && all[c].take(
        early[c].len() as int,
    ) == early[c] by {
        lemma_channel_of_joined(first, second, c, pending.len() as int);
        assert(CHUNK_SIZE * done <= early[c].len());
        assert(all[c] =~= early[c] + channel_of(second, c, pending.len() as int));
        assert(late[c] == all[c].skip((CHUNK_SIZE * done) as int));
        assert(all[c].take(early[c].len() as int) =~= early[c]);
    }
    assert(all[0].len() == late[0].len() + CHUNK_SIZE * done);
    assert(ready(all) == done + ready(late));
    let (first_states, before): (Seq<S>, Seq<Vec<Vec<i16>>>) = choose|
        states: Seq<S>,
        outputs: Seq<Vec<Vec<i16>>>,
    |
        {
            &&& #[trigger] went_through(process, early, states, outputs)
            &&& outputs.len() == ready(early)
            &&& states[0] == start
            &&& states.last() == middle
            &&& first_output == joined(outputs, early.len())
        };
    let (second_states, after, error): (Seq<S>, Seq<Vec<Vec<i16>>>, String) =
        choose|states: Seq<S>, outputs: Seq<Vec<Vec<i16>>>, error: String|
        {
            &&& #[trigger] went_through(process, late, states, outputs)
            &&& outputs.len() < ready(late)
            &&& states[0] == middle
            &&& #[trigger] answers(
                process,
                states.last(),
                chunk(late, outputs.len()),
                end,
                Err(error),
            )
            &&& error@ == reason
            &&& left == without_chunks(late, outputs.len() + 1)
        };
    let outputs = before + after;
    let states = first_states + second_states.skip(1);
    assert forall|j: nat| j < ready(late) implies #[trigger] chunk(late, j) == chunk(
        all,
        done + j,
    ) by {
        assert forall|c: int| 0 <= c < all.len() implies #[trigger] chunk(all, done + j)[c]
            == chunk(late, j)[c] by {
            assert(late[c] == all[c].skip((CHUNK_SIZE * done) as int));
            assert(CHUNK_SIZE * ready(late) <= late[c].len());
            assert(all[c].len() == late[c].len() + CHUNK_SIZE * done);
            assert(chunk(all, done + j)[c] =~= chunk(late, j)[c]);
        }
        assert(chunk(all, done + j) =~= chunk(late, j));
    }
    assert forall|k: int| 0 <= k < outputs.len() implies answers(
        process,
        states[k],
        chunk(all, k as nat),
        states[k + 1],
        Ok(#[trigger] outputs[k]),
    ) by {
        if k < done {
            assert forall|c: int| 0 <= c < all.len() implies #[trigger] chunk(all, k as nat)[c]
                == chunk(early, k as nat)[c] by {
                assert(all[c].take(early[c].len() as int) == early[c]);
                assert(CHUNK_SIZE * done <= early[c].len());
                assert(chunk(all, k as nat)[c] =~= chunk(early, k as nat)[c]);
            }
            assert(chunk(all, k as nat) =~= chunk(early, k as nat));
            assert(outputs[k] == before[k]);
        } else {
            let j = (k - done) as nat;
            assert(chunk(late, j) == chunk(all, done + j));
            assert(outputs[k] == after[j as int]);
            assert(states[k] == second_states[j as int]);
            assert(states[k + 1] == second_states[j as int + 1]);
        }
    }
    assert(went_through(process, all, states, outputs));
    assert(states.last() == second_states.last());
    assert(chunk(late, after.len()) == chunk(all, done + after.len()));
    assert forall|c: int| 0 <= c < all.len() implies #[trigger] left[c] == without_chunks(
        all,
        outputs.len() + 1,
    )[c] by {
        assert(late[c] == all[c].skip((CHUNK_SIZE * done) as int));
        assert(CHUNK_SIZE * ready(late) <= late[c].len());
        assert(all[c].len() == late[c].len() + CHUNK_SIZE * done);
        assert(left[c] =~= without_chunks(all, outputs.len() + 1)[c]);
    }
    assert(left =~= without_chunks(all, outputs.len() + 1));
    assert(answers(process, states.last(), chunk(all, outputs.len()), end, Err(error)));
}

/// Resampling fails only where the converter did: it was given 1024 samples of every channel that
/// stand one after the other in the buffers, and answered with the error that is told.
pub proof fn law_only_the_converter_fails<
    S,
    F: Fn(S, Vec<Vec<i16>>) -> (S, Result<Vec<Vec<i16>>, String>),
>(
    process: F,
    all: Seq<Seq<i16>>,
    before: S,
    reason: Seq<char>,
    left: Seq<Seq<i16>>,
    after: S,
)
    requires
        all.len() > 0,
        is_outcome(process, all, before, Err(reason), left, after),
    ensures
        exists|state: S, given: Vec<Vec<i16>>, error: String, k: nat|
            {
                &&& #[trigger] call_ensures(process, (state, given), (after, Err(error)))
                &&& #[trigger] is_piece(given, all, k)
                &&& error@ == reason
                &&& 1024 * k + 1024 <= all[0].len()
            },
{
    let (states, outputs, error): (Seq<S>, Seq<Vec<Vec<i16>>>, String) =
        choose|states: Seq<S>, outputs: Seq<Vec<Vec<i16>>>, error: String|
        {
            &&& #[trigger] went_through(process, all, states, outputs)
            &&& outputs.len() < ready(all)
            &&& states[0] == before
            &&& #[trigger] answers(
                process,
                states.last(),
                chunk(all, outputs.len()),
                after,
                Err(error),
            )
            &&& error@ == reason
            &&& left == without_chunks(all, outputs.len() + 1)
        };
    let given = choose|given: Vec<Vec<i16>>|
        planes(given@) == chunk(all, outputs.len()) && #[trigger] call_ensures(
            process,
            (states.last(), given),
            (after, Err(error)),
        );
    lemma_given_is_chunk(given, all, outputs.len());
    assert(is_piece(given, all, outputs.len()));
    assert(call_ensures(process, (states.last(), given), (after, Err(error))));
}

/// `given` is piece number `k` of 1024 samples of every channel.
pub open spec fn is_piece(given: Vec<Vec<i16>>, all: Seq<Seq<i16>>, k: nat) -> bool {
    &&& given@.len() == all.len()
    &&& forall|c: int|
        0 <= c < all.len() ==> (#[trigger] given@[c])@ == all[c].subrange(
            1024 * k as int,
            1024 * k as int + 1024,
        )
}

/// The converter never fails, and gives back what it is given.
pub open spec fn gives_back<
    S,
    F: Fn(S, Vec<Vec<i16>>) -> (S, Result<Vec<Vec<i16>>, String>),
>(process: F) -> bool {
    forall|
        state: S,
        given: Vec<Vec<i16>>,
        next: S,
        reply: Result<Vec<Vec<i16>>, String>,
    | #[trigger]
        call_ensures(process, (state, given), (next, reply)) ==> (reply matches Ok(output)
            && planes(output@) == planes(given@))
}

proof fn lemma_interleaved_piece(all: Seq<Seq<i16>>, k: nat, frames: nat)
    requires
        frames <= CHUNK_SIZE,
        forall|c: int|
            0 <= c < all.len() ==> CHUNK_SIZE * k + CHUNK_SIZE <= (#[trigger] all[c]).len(),
    ensures
        interleaved(all, all.len(), CHUNK_SIZE as nat * k + frames) == interleaved(
            all,
            all.len(),
            CHUNK_SIZE as nat * k,
        ) + interleaved(chunk(all, k), all.len(), frames),
    decreases frames,
{
    let n = all.len();
    let base = CHUNK_SIZE as nat * k;
    if frames == 0 {
        assert(interleaved(all, n, base) + Seq::<i16>::empty() =~= interleaved(all, n, base));
    } else {
        let at = (frames - 1) as nat;
        lemma_interleaved_piece(all, k, at);
        assert(frame(all, n, base as int + at as int) =~= frame(chunk(all, k), n, at as int)) by {
            assert forall|c: int| 0 <= c < n implies #[trigger] frame(all, n, base as int + at as int)[c]
                == frame(chunk(all, k), n, at as int)[c] by {
                assert(CHUNK_SIZE * k + CHUNK_SIZE <= all[c].len());
                assert(chunk(all, k)[c][at as int] == all[c][base as int + at as int]);
            }
        }
        assert(interleaved(all, n, base + at) + frame(all, n, base as int + at as int) =~= interleaved(
            all,
            n,
            base,
        ) + (interleaved(chunk(all, k), n, at) + frame(chunk(all, k), n, at as int)));
    }
}

proof fn lemma_joined_pieces(all: Seq<Seq<i16>>, outputs: Seq<Vec<Vec<i16>>>)
    requires
        all.len() > 0,
        forall|k: int|
            0 <= k < outputs.len() ==> planes((#[trigger] outputs[k])@) == chunk(all, k as nat),
        forall|c: int|
            0 <= c < all.len() ==> CHUNK_SIZE * outputs.len() <= (#[trigger] all[c]).len(),
    ensures
        joined(outputs, all.len()) == interleaved(
            all,
            all.len(),
            CHUNK_SIZE as nat * outputs.len(),
        ),
    decreases outputs.len(),
{
    if outputs.len() > 0 {
        let before = outputs.drop_last();
        let k = before.len();
        assert forall|j: int| 0 <= j < before.len() implies planes((#[trigger] before[j])@)
            == chunk(all, j as nat) by {
            assert(before[j] == outputs[j]);
        }
        assert forall|c: int| 0 <= c < all.len() implies CHUNK_SIZE * before.len() <= (
        #[trigger] all[c]).len() by {
            assert(CHUNK_SIZE * outputs.len() <= all[c].len());
        }
        lemma_joined_pieces(all, before);
        assert forall|c: int| 0 <= c < all.len() implies CHUNK_SIZE * k + CHUNK_SIZE <= (
        #[trigger] all[c]).len() by {
            assert(CHUNK_SIZE * outputs.len() <= all[c].len());
        }
        lemma_interleaved_piece(all, k, CHUNK_SIZE as nat);
        assert(planes(outputs[k as int]@) == chunk(all, k));
        assert(CHUNK_SIZE * k + CHUNK_SIZE <= all[0].len());
        assert(chunk(all, k)[0].len() == CHUNK_SIZE);
    }
}

/// Through a converter that gives back what it is given, every sample comes out as it went in: of
/// each channel, as many times 1024 samples as the first one holds, interleaved in order, and what is
/// left waits. So nothing is lost, doubled or moved on the way to the converter and from it.
pub proof fn law_nothing_is_lost_around_the_converter<
    S,
    F: Fn(S, Vec<Vec<i16>>) -> (S, Result<Vec<Vec<i16>>, String>),
>(
    process: F,
    all: Seq<Seq<i16>>,
    before: S,
    outcome: Result<Seq<i16>, Seq<char>>,
    left: Seq<Seq<i16>>,
    after: S,
)
    requires
        all.len() > 0,
        balanced(all),
        gives_back(process),
        is_outcome(process, all, before, outcome, left, after),
    ensures
        outcome matches Ok(samples) && {
            let whole = 1024 * (all[0].len() as int / 1024);
            &&& samples.len() == whole * all.len()
            &&& forall|f: int, c: int|
                0 <= f < whole && 0 <= c < all.len() ==> samples[f * all.len() + c]
                    == #[trigger] all[c][f]
            &&& left.len() == all.len()
            &&& forall|c: int| 0 <= c < all.len() ==> #[trigger] left[c] == all[c].skip(whole)
        },
{
    match outcome {
        Ok(samples) => {
            let (states, outputs): (Seq<S>, Seq<Vec<Vec<i16>>>) = choose|
                states: Seq<S>,
                outputs: Seq<Vec<Vec<i16>>>,
            |
                {
                    &&& #[trigger] went_through(process, all, states, outputs)
                    &&& outputs.len() == ready(all)
                    &&& states[0] == before
                    &&& states.last() == after
                    &&& samples == joined(outputs, all.len())
                };
            assert forall|k: int| 0 <= k < outputs.len() implies planes((#[trigger] outputs[k])@)
                == chunk(all, k as nat) by {
                assert(answers(
                    process,
                    states[k],
                    chunk(all, k as nat),
                    states[k + 1],
                    Ok(outputs[k]),
                ));
            }
            assert forall|c: int| 0 <= c < all.len() implies CHUNK_SIZE * outputs.len() <= (
            #[trigger] all[c]).len() by {
                assert(CHUNK_SIZE * ready(all) <= all[c].len());
            }
            lemma_joined_pieces(all, outputs);
            let whole = CHUNK_SIZE as nat * outputs.len();
            lemma_interleaved_len(all, all.len(), whole);
            assert forall|f: int, c: int| 0 <= f < whole && 0 <= c < all.len() implies samples[f
                * all.len() + c] == #[trigger] all[c][f] by {
                law_interleaved_places(all, all.len(), whole, f, c);
            }
        },
        Err(reason) => {
            let (states, outputs, error): (Seq<S>, Seq<Vec<Vec<i16>>>, String) =
                choose|states: Seq<S>, outputs: Seq<Vec<Vec<i16>>>, error: String|
                {
                    &&& #[trigger] went_through(process, all, states, outputs)
                    &&& outputs.len() < ready(all)
                    &&& states[0] == before
                    &&& #[trigger] answers(
                        process,
                        states.last(),
                        chunk(all, outputs.len()),
                        after,
                        Err(error),
                    )
                    &&& error@ == reason
                    &&& left == without_chunks(all, outputs.len() + 1)
                };
            assert(answers(process, states.last(), chunk(all, outputs.len()), after, Err(error)));
        },
    }
}

/// What is accepted: nothing but a channel with fewer whole times 1024 samples than the first one is
/// refused.
pub proof fn law_balanced_in_numbers(pending: Seq<Seq<i16>>)
    ensures
        balanced(pending) <==> forall|c: int|
            0 <= c < pending.len() ==> pending[0].len() / 1024 <= (#[trigger] pending[c]).len()
                / 1024,
{
    assert forall|c: int| 0 <= c < pending.len() implies (CHUNK_SIZE * ready(pending) <= (
    #[trigger] pending[c]).len() <==> pending[0].len() / 1024 <= pending[c].len() / 1024) by {}
}

/// A new resampler has its two rates, its converter, and an empty buffer for each channel.
pub proof fn law_fresh_is_empty<S>(
    source_rate: u32,
    target_rate: u32,
    channels: nat,
    converter: S,
    c: int,
)
    ensures
        ({
            let made = fresh(source_rate, target_rate, channels, converter);
            &&& made.source_rate == source_rate
            &&& made.target_rate == target_rate
            &&& made.channels == channels
            &&& made.converter == Some(converter)
            &&& made.pending.len() == channels
            &&& 0 <= c < channels ==> made.pending[c].len() == 0
        }),
{
}

/// There is a resampler exactly where the rates differ and the converter could be made, and then it
/// has these rates and this converter and holds nothing yet; otherwise there is a reason.
pub proof fn law_when_there_is_a_resampler<S>(
    made: Result<AudioResampler<S>, String>,
    source_rate: u32,
    target_rate: u32,
    channels: nat,
    converter: Result<S, String>,
)
    requires
        is_made(made, source_rate, target_rate, channels, converter),
    ensures
        made is Ok <==> source_rate != target_rate && converter is Ok,
        made matches Ok(resampler) ==> {
            &&& resampler@.source_rate == source_rate
            &&& resampler@.target_rate == target_rate
            &&& resampler@.channels == channels
            &&& resampler@.converter == Some(converter->Ok_0)
            &&& resampler@.pending.len() == channels
            &&& forall|c: int| 0 <= c < channels ==> (#[trigger] resampler@.pending[c]).len() == 0
        },
        made matches Err(error) && source_rate == target_rate ==> made->Err_0@
            == "source and target rate are the same"@,
        made matches Err(error) && source_rate != target_rate ==> made->Err_0@
            == "Failed to create resampler: "@ + converter->Err_0@,
{
}

/// A result tells the outcome: the same samples, or the reason behind the usual words.
pub proof fn law_result_tells_the_outcome(
    outcome: Result<Seq<i16>, Seq<char>>,
    result: Result<Vec<i16>, String>,
)
    requires
        told(outcome, result),
    ensures
        outcome is Ok <==> result is Ok,
        result matches Ok(samples) ==> outcome == Ok::<Seq<i16>, Seq<char>>(samples@),
        result matches Err(error) ==> error@ == "Resample error: "@ + outcome->Err_0,
{
}

/// The mathematical values of the channels are the samples of each channel.
pub proof fn law_planes_are_the_channels(buffers: Seq<Vec<i16>>, c: int)
    requires
        0 <= c < buffers.len(),
    ensures
        planes(buffers).len() == buffers.len(),
        planes(buffers)[c] == buffers[c]@,
{
}

/// Resampling a piece that fills no chunk succeeds with nothing: its samples wait behind those that
/// waited before, and the converter is not touched. The rates and the channels never change.
pub proof fn law_resampling<
    S,
    F: Fn(S, Vec<Vec<i16>>) -> (S, Result<Vec<Vec<i16>>, String>),
>(
    resampler: &mut AudioResampler<S>,
    input: &[i16],
    process: F,
    converted: Result<Vec<i16>, String>,
)
    requires
        old(resampler)@.valid(),
        old(resampler)@.channels > 0,
        call_ensures(AudioResampler::<S>::resample::<F>, (resampler, input, process), converted),
    ensures
        final(resampler)@.source_rate == old(resampler)@.source_rate,
        final(resampler)@.target_rate == old(resampler)@.target_rate,
        final(resampler)@.channels == old(resampler)@.channels,
        final(resampler)@.valid(),
        dealt(old(resampler)@.pending, input@)[0].len() < 1024 ==> {
            &&& converted matches Ok(samples) && samples@.len() == 0
            &&& final(resampler)@.pending == dealt(old(resampler)@.pending, input@)
            &&& final(resampler)@.converter == old(resampler)@.converter
        },
{
    let all = dealt(old(resampler)@.pending, input@);
    let outcome = choose|outcome: Result<Seq<i16>, Seq<char>>|
        {
            &&& #[trigger] told(outcome, converted)
            &&& is_outcome(
                process,
                all,
                old(resampler)@.converter->0,
                outcome,
                final(resampler)@.pending,
                final(resampler)@.converter->0,
            )
        };
    law_result_tells_the_outcome(outcome, converted);
    if all[0].len() < 1024 {
        law_incomplete_chunk_waits(
            process,
            all,
            old(resampler)@.converter->0,
            outcome,
            final(resampler)@.pending,
            final(resampler)@.converter->0,
        );
    }
}

/// Through a converter that gives back what it is given, resampling gives every complete chunk back,
/// frame by frame, and keeps the rest.
pub proof fn law_resampling_without_change<
    S,
    F: Fn(S, Vec<Vec<i16>>) -> (S, Result<Vec<Vec<i16>>, String>),
>(
    resampler: &mut AudioResampler<S>,
    input: &[i16],
    process: F,
    converted: Result<Vec<i16>, String>,
)
    requires
        old(resampler)@.valid(),
        old(resampler)@.channels > 0,
        balanced(dealt(old(resampler)@.pending, input@)),
        gives_back(process),
        call_ensures(AudioResampler::<S>::resample::<F>, (resampler, input, process), converted),
    ensures
        converted matches Ok(samples) && {
            let all = dealt(old(resampler)@.pending, input@);
            let whole = 1024 * (all[0].len() as int / 1024);
            &&& samples@.len() == whole * all.len()
            &&& forall|f: int, c: int|
                0 <= f < whole && 0 <= c < all.len() ==> samples@[f * all.len() + c]
                    == #[trigger] all[c][f]
            &&& forall|c: int|
                0 <= c < all.len() ==> #[trigger] final(resampler)@.pending[c] == all[c].skip(whole)
        },
{
    let all = dealt(old(resampler)@.pending, input@);
    let outcome = choose|outcome: Result<Seq<i16>, Seq<char>>|
        {
            &&& #[trigger] told(outcome, converted)
            &&& is_outcome(
                process,
                all,
                old(resampler)@.converter->0,
                outcome,
                final(resampler)@.pending,
                final(resampler)@.converter->0,
            )
        };
    law_result_tells_the_outcome(outcome, converted);
    law_nothing_is_lost_around_the_converter(
        process,
        all,
        old(resampler)@.converter->0,
        outcome,
        final(resampler)@.pending,
        final(resampler)@.converter->0,
    );
}

} // verus!
