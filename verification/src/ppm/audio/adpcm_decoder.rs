//! Decoding of 4-bit ADPCM, nearest-neighbour resampling and additive mixing.

use vstd::prelude::*;
use crate::error::PpmError;
use crate::ppm::constants::{ADPCM_INDEX_TABLE, ADPCM_STEP_TABLE};

verus! {

/// The running state of the codec.
#[derive(Debug, Clone, Copy, PartialEq, Eq, Structural)]
pub struct AdpcmState {
    /// The last sample given out, within the range of a 16-bit sample.
    pub predictor: i32,
    /// The position in the table of quantizer steps, from 0 to 88.
    pub step_index: i32,
}

/// `v` brought into the range from `lo` to `hi`.
pub open spec fn spec_clamp(v: int, lo: int, hi: int) -> int {
    if v < lo {
        lo
    } else if v > hi {
        hi
    } else {
        v
    }
}

/// The quantizer step at a step index.
pub open spec fn spec_step_size(step_index: int) -> int {
    ADPCM_STEP_TABLE@[step_index] as int
}

/// By how much a code moves the step index.
pub open spec fn spec_index_delta(nibble: int) -> int {
    ADPCM_INDEX_TABLE@[nibble] as int
}

/// The size of the change that a code stands for at a given step: an eighth of the step, a
/// quarter more for bit 0, a half more for bit 1, the whole step more for bit 2.
pub open spec fn spec_magnitude(step: int, nibble: int) -> int {
    step / 8 + (if nibble % 2 == 1 {
        step / 4
    } else {
        0
    }) + (if (nibble / 2) % 2 == 1 {
        step / 2
    } else {
        0
    }) + (if (nibble / 4) % 2 == 1 {
        step
    } else {
        0
    })
}

/// The change that a code stands for at a given step; bit 3 makes it negative.
pub open spec fn spec_diff(step: int, nibble: int) -> int {
    if nibble >= 8 {
        -spec_magnitude(step, nibble)
    } else {
        spec_magnitude(step, nibble)
    }
}

/// A codec state is valid where the predictor is a 16-bit sample and the step index lies
/// in the table.
pub open spec fn state_valid(state: AdpcmState) -> bool {
    -32768 <= state.predictor <= 32767 && 0 <= state.step_index <= 88
}

/// The state after the code `nibble`, from 0 to 15, is taken in.
pub open spec fn spec_decode_step(state: AdpcmState, nibble: int) -> AdpcmState {
    AdpcmState {
        predictor: spec_clamp(
            state.predictor + spec_diff(spec_step_size(state.step_index as int), nibble),
            -32768,
            32767,
        ) as i32,
        step_index: spec_clamp(state.step_index + spec_index_delta(nibble), 0, 88) as i32,
    }
}

/// Code `i` of the data: the low half of a byte comes before its high half.
pub open spec fn spec_nibble(data: Seq<u8>, i: int) -> int {
    if i % 2 == 0 {
        data[i / 2] as int % 16
    } else {
        data[i / 2] as int / 16
    }
}

/// The state after the first `n` codes of `data`, starting from `init`.
pub open spec fn spec_state_after(data: Seq<u8>, init: AdpcmState, n: int) -> AdpcmState
    decreases n,
{
    if n <= 0 {
        init
    } else {
        spec_decode_step(spec_state_after(data, init, n - 1), spec_nibble(data, n - 1))
    }
}

/// The state that decoding starts from: a step index above 88 counts as 88.
pub open spec fn spec_initial_state(predictor: i16, step_index: u8) -> AdpcmState {
    AdpcmState {
        predictor: predictor as i32,
        step_index: if step_index > 88 {
            88i32
        } else {
            step_index as i32
        },
    }
}

/// The samples that `data` decodes to from the state `init`: two for each byte, each the
/// predictor after its code.
pub open spec fn spec_decode_adpcm(data: Seq<u8>, init: AdpcmState) -> Seq<i16> {
    Seq::new(2 * data.len(), |i: int| spec_state_after(data, init, i + 1).predictor as i16)
}

/// The table of steps holds values from 7 to 32767, and the table of index changes values
/// from -1 to 8.
pub proof fn lemma_tables(step_index: int, nibble: int)
    requires
        0 <= step_index <= 88,
        0 <= nibble <= 15,
    ensures
        7 <= spec_step_size(step_index) <= 32767,
        -1 <= spec_index_delta(nibble) <= 8,
{
}

/// A step from a valid state on a code from 0 to 15 gives a valid state.
pub proof fn lemma_decode_step_valid(state: AdpcmState, nibble: int)
    requires
        state_valid(state),
        0 <= nibble <= 15,
    ensures
        state_valid(spec_decode_step(state, nibble)),
{
    lemma_tables(state.step_index as int, nibble);
}

/// Takes one code in: the exec form of `spec_decode_step`.
pub fn decode_step(state: AdpcmState, nibble: u8) -> (next: AdpcmState)
    requires
        state_valid(state),
        nibble <= 15,
    ensures
        next == spec_decode_step(state, nibble as int),
        state_valid(next),
{
    proof {
        lemma_tables(state.step_index as int, nibble as int);
    }
    let step: i32 = ADPCM_STEP_TABLE[state.step_index as usize];
    let mut diff: i32 = step / 8;
    if nibble % 2 == 1 {
        diff = diff + step / 4;
    }
    if (nibble / 2) % 2 == 1 {
        diff = diff + step / 2;
    }
    if (nibble / 4) % 2 == 1 {
        diff = diff + step;
    }
    if nibble >= 8 {
        diff = -diff;
    }
    let mut predictor: i32 = state.predictor + diff;
    if predictor < -32768 {
        predictor = -32768;
    } else if predictor > 32767 {
        predictor = 32767;
    }
    let mut step_index: i32 = state.step_index + ADPCM_INDEX_TABLE[nibble as usize];
    if step_index < 0 {
        step_index = 0;
    } else if step_index > 88 {
        step_index = 88;
    }
    AdpcmState { predictor, step_index }
}

/// Decodes 4-bit ADPCM: two samples for each byte, the low half of the byte first. The state
/// starts at `predictor` and `step_index`; a step index above 88 counts as 88.
#[verifier::rlimit(50)]
pub fn decode_adpcm(data: &[u8], predictor: i16, step_index: u8) -> (r: Result<
    Vec<i16>,
    PpmError,
>)
    ensures
        r is Ok,
        r->Ok_0@ == spec_decode_adpcm(data@, spec_initial_state(predictor, step_index)),
{
    let init = AdpcmState {
        predictor: predictor as i32,
        step_index: if step_index > 88 {
            88
        } else {
            step_index as i32
        },
    };
    let mut state = init;
    let mut output_samples: Vec<i16> = Vec::new();
    let mut i: usize = 0;
    while i < data.len()
        invariant
            i <= data@.len(),
            state_valid(state),
            init == spec_initial_state(predictor, step_index),
            state == spec_state_after(data@, init, 2 * i),
            output_samples@.len() == 2 * i,
            forall|k: int|
                0 <= k < 2 * i ==> #[trigger] output_samples@[k] == spec_state_after(
                    data@,
                    init,
                    k + 1,
                ).predictor as i16,
        decreases data@.len() - i,
    {
        let byte = data[i];
        let low = decode_step(state, byte % 16);
        output_samples.push(low.predictor as i16);
        let high = decode_step(low, byte / 16);
        output_samples.push(high.predictor as i16);
        assert(spec_nibble(data@, 2 * i) == byte % 16);
        assert(spec_nibble(data@, 2 * i + 1) == byte / 16);
        assert(low == spec_state_after(data@, init, 2 * i + 1));
        assert(high == spec_state_after(data@, init, 2 * i + 2));
        state = high;
        i = i + 1;
    }
    assert(output_samples@ =~= spec_decode_adpcm(data@, init));
    Ok(output_samples)
}

/// The number of samples after resampling `count` samples from `source` to `destination`
/// samples per second: `count * destination / source`, rounded up.
pub open spec fn spec_resample_len(count: int, source: int, destination: int) -> int {
    (count * destination + source - 1) / source
}

/// The input sample that output sample `i` repeats: `i * source / destination`, rounded down.
pub open spec fn spec_resample_index(i: int, source: int, destination: int) -> int {
    (i * source) / destination
}

/// The nearest-neighbour resampling of `samples`.
pub open spec fn spec_resample(samples: Seq<i16>, source: int, destination: int) -> Seq<i16> {
    Seq::new(
        spec_resample_len(samples.len() as int, source, destination) as nat,
        |i: int| samples[spec_resample_index(i, source, destination)],
    )
}

/// Whether `resample` can do its work: both frequencies are positive and the output fits
/// in memory.
pub open spec fn resample_possible(count: int, source: int, destination: int) -> bool {
    source > 0 && destination > 0 && spec_resample_len(count, source, destination) <= usize::MAX
}

/// The resampled length is the quotient rounded up: the least number of output samples
/// that last as long as the input.
pub proof fn lemma_resample_len_is_ceiling(count: int, source: int, destination: int)
    requires
        0 <= count,
        source > 0,
        destination > 0,
    ensures
        0 <= spec_resample_len(count, source, destination),
        spec_resample_len(count, source, destination) * source >= count * destination,
        (spec_resample_len(count, source, destination) - 1) * source < count * destination,
{
    let total = count * destination + source - 1;
    let len = total / source;
    assert(0 <= count * destination) by (nonlinear_arith)
        requires
            0 <= count,
            destination > 0,
    ;
    assert(0 <= len && len * source <= total < (len + 1) * source) by (nonlinear_arith)
        requires
            len == total / source,
            source > 0,
            0 <= total,
    ;
    assert((len + 1) * source == len * source + source && (len - 1) * source == len * source
        - source) by (nonlinear_arith);
}

/// Every output sample of a resampling repeats a sample of the input.
#[verifier::rlimit(50)]
pub proof fn lemma_resample_index_in_range(count: int, source: int, destination: int, i: int)
    requires
        0 <= count,
        source > 0,
        destination > 0,
        0 <= i < spec_resample_len(count, source, destination),
    ensures
        0 <= spec_resample_index(i, source, destination) < count,
{
    let total = count * destination + source - 1;
    let len = total / source;
    assert(len * source <= total) by (nonlinear_arith)
        requires
            len == total / source,
            source > 0,
    ;
    assert((i + 1) * source <= len * source) by (nonlinear_arith)
        requires
            i + 1 <= len,
            source > 0,
    ;
    assert((i + 1) * source == i * source + source) by (nonlinear_arith);
    assert(i * source < count * destination);
    assert(0 <= i * source) by (nonlinear_arith)
        requires
            0 <= i,
            source > 0,
    ;
    let index = (i * source) / destination;
    assert(0 <= index && index * destination <= i * source) by (nonlinear_arith)
        requires
            index == (i * source) / destination,
            destination > 0,
            0 <= i * source,
    ;
    assert(index < count) by (nonlinear_arith)
        requires
            index * destination < count * destination,
            destination > 0,
    ;
}

/// Resampling to the frequency that the samples already have changes nothing.
#[verifier::rlimit(50)]
pub proof fn lemma_resample_same_frequency(samples: Seq<i16>, frequency: int)
    requires
        frequency > 0,
    ensures
        spec_resample_len(samples.len() as int, frequency, frequency) == samples.len(),
        spec_resample(samples, frequency, frequency) == samples,
{
    let n = samples.len() as int;
    assert((n * frequency + frequency - 1) / frequency == n) by (nonlinear_arith)
        requires
            frequency > 0,
            n >= 0,
    ;
    assert forall|i: int| 0 <= i < n implies spec_resample_index(i, frequency, frequency) == i by {
        assert((i * frequency) / frequency == i) by (nonlinear_arith)
            requires
                frequency > 0,
                i >= 0,
        ;
    }
    assert(spec_resample(samples, frequency, frequency) =~= samples);
}

/// Resamples by repeating the nearest earlier sample: output sample `i` is input sample
/// `i * source_frequency / destination_frequency`, rounded down, and there are
/// `len * destination_frequency / source_frequency` output samples, rounded up.
#[verifier::rlimit(50)]
pub fn resample(samples: &[i16], source_frequency: i32, destination_frequency: i32) -> (r: Result<
    Vec<i16>,
    PpmError,
>)
    ensures
        resample_possible(
            samples@.len() as int,
            source_frequency as int,
            destination_frequency as int,
        ) ==> r is Ok && r->Ok_0@ == spec_resample(
            samples@,
            source_frequency as int,
            destination_frequency as int,
        ),
        !resample_possible(
            samples@.len() as int,
            source_frequency as int,
            destination_frequency as int,
        ) ==> r == Err::<Vec<i16>, PpmError>(PpmError::Codec),
        r is Ok && source_frequency == destination_frequency ==> r->Ok_0@ == samples@,
{
    if source_frequency <= 0 || destination_frequency <= 0 {
        return Err(PpmError::Codec);
    }
    let count = samples.len();
    let source = source_frequency as u128;
    let destination = destination_frequency as u128;
    assert(0 <= count * destination <= 0xFFFF_FFFF_FFFF_FFFF * 0x7FFF_FFFF) by (nonlinear_arith)
        requires
            0 <= count <= 0xFFFF_FFFF_FFFF_FFFF,
            0 < destination <= 0x7FFF_FFFF,
    ;
    let length: u128 = (count as u128 * destination + source - 1) / source;
    if length > usize::MAX as u128 {
        return Err(PpmError::Codec);
    }
    let destination_length = length as usize;
    let mut output_samples: Vec<i16> = Vec::with_capacity(destination_length);
    let mut i: usize = 0;
    while i < destination_length
        invariant
            i <= destination_length,
            count == samples@.len(),
            source == source_frequency as int,
            destination == destination_frequency as int,
            source > 0,
            destination > 0,
            source <= 0x7FFF_FFFF,
            destination_length == spec_resample_len(count as int, source as int, destination as int),
            output_samples@.len() == i,
            forall|k: int|
                0 <= k < i ==> #[trigger] output_samples@[k] == samples@[spec_resample_index(
                    k,
                    source as int,
                    destination as int,
                )],
        decreases destination_length - i,
    {
        proof {
            lemma_resample_index_in_range(count as int, source as int, destination as int, i as int);
        }
        assert(0 <= i * source <= 0xFFFF_FFFF_FFFF_FFFF * 0x7FFF_FFFF) by (nonlinear_arith)
            requires
                0 <= i <= 0xFFFF_FFFF_FFFF_FFFF,
                0 < source <= 0x7FFF_FFFF,
        ;
        let value = ((i as u128 * source) / destination) as usize;
        let sample = match try_get_sample(samples, value) {
            Ok(s) => s,
            Err(e) => {
                return Err(PpmError::Codec);
            },
        };
        output_samples.push(sample);
        i = i + 1;
    }
    proof {
        assert(output_samples@ =~= spec_resample(samples@, source as int, destination as int));
        if source_frequency == destination_frequency {
            lemma_resample_same_frequency(samples@, source as int);
        }
    }
    Ok(output_samples)
}

/// The sample at `index`.
pub fn try_get_sample(samples: &[i16], index: usize) -> (r: Result<i16, PpmError>)
    ensures
        index < samples@.len() ==> r == Ok::<i16, PpmError>(samples@[index as int]),
        index >= samples@.len() ==> r == Err::<i16, PpmError>(PpmError::Bounds),
{
    if index >= samples.len() {
        return Err(PpmError::Bounds);
    }
    Ok(samples[index])
}

/// Half of a sample, rounded towards zero.
pub open spec fn spec_half(sample: int) -> int {
    if sample >= 0 {
        sample / 2
    } else {
        -((-sample) / 2)
    }
}

/// A sample of the destination with half of a sample of the source added, kept within the
/// range of a 16-bit sample.
pub open spec fn spec_mix_sample(destination: int, source: int) -> int {
    spec_clamp(destination + spec_half(source), -32768, 32767)
}

/// The destination with the source mixed in from `offset` on. The part of the source that
/// would lie behind the end of the destination is dropped.
pub open spec fn spec_mix(source: Seq<i16>, destination: Seq<i16>, offset: int) -> Seq<i16> {
    Seq::new(
        destination.len(),
        |j: int|
            if offset <= j < offset + source.len() {
                spec_mix_sample(destination[j] as int, source[j - offset] as int) as i16
            } else {
                destination[j]
            },
    )
}

/// A mixed sample lies within the range of a 16-bit sample, whatever is mixed.
pub proof fn lemma_mix_sample_in_range(destination: int, source: int)
    ensures
        -32768 <= spec_mix_sample(destination, source) <= 32767,
{
}

/// Mixes `source` into a copy of `destination`, its first sample at `offset`: each sample of
/// the destination that the source reaches gets half of the source's sample added and is
/// clamped to the 16-bit range.
#[verifier::rlimit(50)]
pub fn mix_pcm_audio(source: &[i16], destination: &[i16], offset: usize) -> (r: Result<
    Vec<i16>,
    PpmError,
>)
    ensures
        r is Ok,
        r->Ok_0@ == spec_mix(source@, destination@, offset as int),
        forall|j: int| 0 <= j < r->Ok_0@.len() ==> -32768 <= #[trigger] r->Ok_0@[j] <= 32767,
{
    let length = destination.len();
    let mut result: Vec<i16> = Vec::with_capacity(length);
    let mut j: usize = 0;
    while j < length
        invariant
            j <= length,
            length == destination@.len(),
            result@.len() == j,
            forall|k: int|
                0 <= k < j ==> #[trigger] result@[k] == spec_mix(
                    source@,
                    destination@,
                    offset as int,
                )[k],
        decreases length - j,
    {
        if j >= offset && j - offset < source.len() {
            let added = source[j - offset] as i32;
            let half: i32 = if added >= 0 {
                added / 2
            } else {
                -((-added) / 2)
            };
            let mut sample: i32 = destination[j] as i32 + half;
            if sample < -32768 {
                sample = -32768;
            } else if sample > 32767 {
                sample = 32767;
            }
            result.push(sample as i16);
        } else {
            result.push(destination[j]);
        }
        j = j + 1;
    }
    assert(result@ =~= spec_mix(source@, destination@, offset as int));
    Ok(result)
}

} // verus!
