//! Encoding of 16-bit samples as 4-bit ADPCM.

use vstd::prelude::*;
use crate::error::PpmError;
use crate::ppm::audio::adpcm_decoder::{
    AdpcmState, decode_step, lemma_decode_step_valid, lemma_tables, spec_decode_adpcm,
    spec_decode_step, spec_magnitude, spec_nibble, spec_state_after, spec_step_size, state_valid,
};
use crate::ppm::constants::ADPCM_STEP_TABLE;

verus! {

/// The absolute value.
pub open spec fn spec_abs(v: int) -> int {
    if v < 0 {
        -v
    } else {
        v
    }
}

/// The code for `sample` in the state `state`: bit 3 is set where the sample lies below the
/// predictor, and the low three bits hold four times the distance over the step, at most 7.
pub open spec fn spec_encode_nibble(state: AdpcmState, sample: int) -> int {
    let delta = sample - state.predictor;
    let scaled = (spec_abs(delta) * 4) / spec_step_size(state.step_index as int);
    (if delta < 0 {
        8int
    } else {
        0int
    }) + (if scaled > 7 {
        7
    } else {
        scaled
    })
}

/// The state that encoding starts from.
pub open spec fn spec_encoder_start() -> AdpcmState {
    AdpcmState { predictor: 0, step_index: 0 }
}

/// The encoder's state after the first `n` samples: after each sample it takes the sample's
/// own code in, as a decoder will.
pub open spec fn spec_encoder_state(samples: Seq<i16>, n: int) -> AdpcmState
    decreases n,
{
    if n <= 0 {
        spec_encoder_start()
    } else {
        let before = spec_encoder_state(samples, n - 1);
        spec_decode_step(before, spec_encode_nibble(before, samples[n - 1] as int))
    }
}

/// Code `i` of the encoded samples; behind the last sample the code is 0.
pub open spec fn spec_encoded_nibble(samples: Seq<i16>, i: int) -> int {
    if 0 <= i < samples.len() {
        spec_encode_nibble(spec_encoder_state(samples, i), samples[i] as int)
    } else {
        0
    }
}

/// The bytes that `samples` encode to: one for each pair of samples, the first of the pair
/// in the low half. A last sample without a partner gets the code 0 as its partner.
pub open spec fn spec_encode_adpcm(samples: Seq<i16>) -> Seq<u8> {
    Seq::new(
        ((samples.len() + 1) / 2) as nat,
        |k: int|
            (spec_encoded_nibble(samples, 2 * k) + 16 * spec_encoded_nibble(samples, 2 * k + 1)) as u8,
    )
}

/// A code lies between 0 and 15.
pub proof fn lemma_encode_nibble_range(state: AdpcmState, sample: int)
    requires
        state_valid(state),
    ensures
        0 <= spec_encode_nibble(state, sample) <= 15,
{
    lemma_tables(state.step_index as int, 0);
    let delta = sample - state.predictor;
    let step = spec_step_size(state.step_index as int);
    assert(0 <= (spec_abs(delta) * 4) / step) by (nonlinear_arith)
        requires
            0 <= spec_abs(delta),
            step > 0,
    ;
}

/// The encoder's state is valid after any number of samples.
pub proof fn lemma_encoder_state_valid(samples: Seq<i16>, n: int)
    requires
        n <= samples.len(),
    ensures
        state_valid(spec_encoder_state(samples, n)),
    decreases n,
{
    if n > 0 {
        lemma_encoder_state_valid(samples, n - 1);
        let before = spec_encoder_state(samples, n - 1);
        lemma_encode_nibble_range(before, samples[n - 1] as int);
        lemma_decode_step_valid(before, spec_encode_nibble(before, samples[n - 1] as int));
    }
}

/// Encodes one sample and moves the state on: `previous_sample` and `step_index` are the
/// codec state before and after.
pub fn encode_sample(sample: i32, previous_sample: &mut i32, step_index: &mut i32) -> (nibble: i32)
    requires
        -32768 <= sample <= 32767,
        -32768 <= *old(previous_sample) <= 32767,
        0 <= *old(step_index) <= 88,
    ensures
        nibble == spec_encode_nibble(
            (AdpcmState { predictor: *old(previous_sample), step_index: *old(step_index) }),
            sample as int,
        ),
        0 <= nibble <= 15,
        (AdpcmState { predictor: *final(previous_sample), step_index: *final(step_index) })
            == spec_decode_step(
            (AdpcmState { predictor: *old(previous_sample), step_index: *old(step_index) }),
            nibble as int,
        ),
        -32768 <= *final(previous_sample) <= 32767,
        0 <= *final(step_index) <= 88,
{
    let state = AdpcmState { predictor: *previous_sample, step_index: *step_index };
    proof {
        lemma_tables(state.step_index as int, 0);
        lemma_encode_nibble_range(state, sample as int);
    }
    let mut delta: i32 = sample - state.predictor;
    let mut encoded_sample: i32 = 0;
    if delta < 0 {
        encoded_sample = 8;
        delta = -delta;
    }
    let step: i32 = ADPCM_STEP_TABLE[state.step_index as usize];
    let scaled: i32 = (delta * 4) / step;
    if scaled > 7 {
        encoded_sample = encoded_sample + 7;
    } else {
        encoded_sample = encoded_sample + scaled;
    }
    let next = decode_step(state, encoded_sample as u8);
    *previous_sample = next.predictor;
    *step_index = next.step_index;
    encoded_sample
}

/// Encodes 16-bit samples as 4-bit ADPCM from the state zero: one byte for each pair of
/// samples, the first of the pair in the low half of the byte.
#[verifier::rlimit(50)]
pub fn encode_adpcm(data: &[i16]) -> (r: Result<Vec<u8>, PpmError>)
    ensures
        r is Ok,
        r->Ok_0@ == spec_encode_adpcm(data@),
{
    let mut output: Vec<u8> = Vec::new();
    let mut previous_sample: i32 = 0;
    let mut step_index: i32 = 0;
    let count = data.len();
    let mut i: usize = 0;
    while i < count
        invariant
            i <= count,
            i % 2 == 0 || i == count,
            count == data@.len(),
            -32768 <= previous_sample <= 32767,
            0 <= step_index <= 88,
            i < count ==> (AdpcmState { predictor: previous_sample, step_index })
                == spec_encoder_state(data@, i as int),
            output@.len() == (i + 1) / 2,
            forall|k: int|
                0 <= k < output@.len() ==> #[trigger] output@[k] == spec_encode_adpcm(data@)[k],
        decreases count - i,
    {
        let s1 = encode_sample(data[i] as i32, &mut previous_sample, &mut step_index);
        assert(s1 == spec_encoded_nibble(data@, i as int));
        if i + 1 < count {
            let s2 = encode_sample(data[i + 1] as i32, &mut previous_sample, &mut step_index);
            assert(s2 == spec_encoded_nibble(data@, i as int + 1));
            output.push((s1 + 16 * s2) as u8);
            assert(2 * (i as int / 2) == i);
            i = i + 2;
        } else {
            assert(spec_encoded_nibble(data@, i as int + 1) == 0);
            output.push(s1 as u8);
            assert(2 * (i as int / 2) == i);
            i = i + 1;
        }
    }
    assert(output@ =~= spec_encode_adpcm(data@));
    Ok(output)
}

/// Code `i` of the encoded bytes is the code that the encoder chose for sample `i`.
#[verifier::rlimit(50)]
pub proof fn lemma_encoded_nibbles(samples: Seq<i16>, i: int)
    requires
        0 <= i < 2 * ((samples.len() + 1) / 2),
    ensures
        spec_nibble(spec_encode_adpcm(samples), i) == spec_encoded_nibble(samples, i),
        0 <= spec_encoded_nibble(samples, i) <= 15,
{
    let k = i / 2;
    let low = spec_encoded_nibble(samples, 2 * k);
    let high = spec_encoded_nibble(samples, 2 * k + 1);
    if 2 * k < samples.len() {
        lemma_encoder_state_valid(samples, 2 * k);
        lemma_encode_nibble_range(spec_encoder_state(samples, 2 * k), samples[2 * k] as int);
    }
    if 2 * k + 1 < samples.len() {
        lemma_encoder_state_valid(samples, 2 * k + 1);
        lemma_encode_nibble_range(
            spec_encoder_state(samples, 2 * k + 1),
            samples[2 * k + 1] as int,
        );
    }
    assert(spec_encode_adpcm(samples)[k] == (low + 16 * high) as u8);
}

/// A decoder that starts from zero follows the encoder: after the first `n` codes of the
/// encoded samples it is in the state that the encoder was in after `n` samples.
pub proof fn lemma_decoder_follows_encoder(samples: Seq<i16>, n: int)
    requires
        0 <= n <= samples.len(),
    ensures
        spec_state_after(spec_encode_adpcm(samples), spec_encoder_start(), n) == spec_encoder_state(
            samples,
            n,
        ),
    decreases n,
{
    if n > 0 {
        lemma_decoder_follows_encoder(samples, n - 1);
        lemma_encoded_nibbles(samples, n - 1);
    }
}

/// Decoding what was encoded gives, for each sample, the encoder's own prediction of it.
pub proof fn lemma_decode_of_encode(samples: Seq<i16>, i: int)
    requires
        0 <= i < samples.len(),
    ensures
        spec_decode_adpcm(spec_encode_adpcm(samples), spec_encoder_start()).len() >= samples.len(),
        spec_decode_adpcm(spec_encode_adpcm(samples), spec_encoder_start())[i]
            == spec_encoder_state(samples, i + 1).predictor as i16,
{
    lemma_decoder_follows_encoder(samples, i + 1);
}

/// The error of one encoded sample is bounded. Where the sample lies less than two steps
/// from the predictor, the new predictor lies within an eighth of the step, and 3 more, of
/// the sample. Where it lies further off, the new predictor has moved towards the sample by
/// more than one step.
#[verifier::rlimit(50)]
pub proof fn lemma_encode_step_error(state: AdpcmState, sample: int)
    requires
        state_valid(state),
        -32768 <= sample <= 32767,
    ensures
        ({
            let step = spec_step_size(state.step_index as int);
            let next = spec_decode_step(state, spec_encode_nibble(state, sample));
            let before = spec_abs(sample - state.predictor);
            let after = spec_abs(sample - next.predictor);
            &&& before < 2 * step ==> after <= step / 8 + 3
            &&& before >= 2 * step ==> after <= before - step
        }),
{
    lemma_tables(state.step_index as int, 0);
    let step = spec_step_size(state.step_index as int);
    let delta = sample - state.predictor;
    let distance = spec_abs(delta);
    let scaled = (distance * 4) / step;
    assert(0 <= scaled && scaled * step <= distance * 4 < (scaled + 1) * step) by (nonlinear_arith)
        requires
            scaled == (distance * 4) / step,
            step > 0,
            distance >= 0,
    ;
    let nibble = spec_encode_nibble(state, sample);
    let low = if scaled > 7 {
        7
    } else {
        scaled
    };
    assert(nibble == (if delta < 0 {
        8int
    } else {
        0int
    }) + low);
    let magnitude = spec_magnitude(step, nibble);
    if distance < 2 * step {
        assert(scaled < 8) by (nonlinear_arith)
            requires
                scaled * step <= distance * 4,
                distance < 2 * step,
                step > 0,
        ;
        if scaled == 0 {
            assert((scaled + 1) * step == step) by (nonlinear_arith)
                requires
                    scaled == 0,
            ;
            assert(distance * 4 < step);
        } else if scaled == 1 {
            assert(scaled * step == step && (scaled + 1) * step == 2 * step) by (nonlinear_arith)
                requires
                    scaled == 1,
            ;
            assert(step <= distance * 4 < 2 * step);
        } else if scaled == 2 {
            assert(2 * step <= distance * 4 < 3 * step);
        } else if scaled == 3 {
            assert(3 * step <= distance * 4 < 4 * step);
        } else if scaled == 4 {
            assert(4 * step <= distance * 4 < 5 * step);
        } else if scaled == 5 {
            assert(5 * step <= distance * 4 < 6 * step);
        } else if scaled == 6 {
            assert(6 * step <= distance * 4 < 7 * step);
        } else {
            assert(scaled == 7);
            assert(7 * step <= distance * 4 < 8 * step);
        }
    } else {
        assert(scaled >= 8) by (nonlinear_arith)
            requires
                distance * 4 < (scaled + 1) * step,
                distance >= 2 * step,
                step > 0,
        ;
        assert(low == 7);
        assert(magnitude == step / 8 + step / 4 + step / 2 + step);
    }
}

/// The error of a sample that is encoded and decoded again is bounded by the step at which
/// it was encoded. Where the sample lies less than two steps from the sample decoded before
/// it, what is decoded lies within an eighth of the step, and 3 more, of the sample. Where it
/// lies further off, what is decoded has moved towards the sample by more than one step.
pub proof fn lemma_roundtrip_error(samples: Seq<i16>, i: int)
    requires
        0 <= i < samples.len(),
    ensures
        ({
            let state = spec_encoder_state(samples, i);
            let step = spec_step_size(state.step_index as int);
            let decoded = spec_decode_adpcm(spec_encode_adpcm(samples), spec_encoder_start())[i];
            let before = spec_abs(samples[i] - state.predictor);
            let after = spec_abs(samples[i] - decoded);
            &&& 7 <= step <= 32767
            &&& before < 2 * step ==> after <= step / 8 + 3
            &&& before >= 2 * step ==> after <= before - step
        }),
{
    let state = spec_encoder_state(samples, i);
    lemma_encoder_state_valid(samples, i);
    lemma_encoder_state_valid(samples, i + 1);
    lemma_tables(state.step_index as int, 0);
    lemma_decode_of_encode(samples, i);
    lemma_encode_step_error(state, samples[i] as int);
}

/// Silence encodes to zero bytes.
pub proof fn lemma_encode_silence(samples: Seq<i16>)
    requires
        forall|i: int| 0 <= i < samples.len() ==> samples[i] == 0,
    ensures
        forall|k: int|
            0 <= k < spec_encode_adpcm(samples).len() ==> #[trigger] spec_encode_adpcm(samples)[k]
                == 0,
{
    assert forall|k: int| 0 <= k < spec_encode_adpcm(samples).len() implies #[trigger] spec_encode_adpcm(
        samples,
    )[k] == 0 by {
        lemma_silent_encoder(samples, 2 * k);
        lemma_silent_encoder(samples, 2 * k + 1);
    }
}

proof fn lemma_silent_encoder(samples: Seq<i16>, n: int)
    requires
        forall|i: int| 0 <= i < samples.len() ==> samples[i] == 0,
        0 <= n,
    ensures
        n <= samples.len() ==> spec_encoder_state(samples, n) == spec_encoder_start(),
        spec_encoded_nibble(samples, n) == 0,
    decreases n,
{
    if n > 0 {
        lemma_silent_encoder(samples, n - 1);
    }
    lemma_tables(0, 0);
    assert(spec_step_size(0) == 7);
}

/// Zero bytes decode, from the state zero, to silence.
pub proof fn lemma_decode_silence(data: Seq<u8>)
    requires
        forall|k: int| 0 <= k < data.len() ==> data[k] == 0,
    ensures
        forall|i: int|
            0 <= i < 2 * data.len() ==> #[trigger] spec_decode_adpcm(data, spec_encoder_start())[i]
                == 0,
{
    assert forall|i: int| 0 <= i < 2 * data.len() implies #[trigger] spec_decode_adpcm(
        data,
        spec_encoder_start(),
    )[i] == 0 by {
        lemma_silent_decoder(data, i + 1);
    }
}

proof fn lemma_silent_decoder(data: Seq<u8>, n: int)
    requires
        forall|k: int| 0 <= k < data.len() ==> data[k] == 0,
        0 <= n <= 2 * data.len(),
    ensures
        spec_state_after(data, spec_encoder_start(), n) == spec_encoder_start(),
    decreases n,
{
    if n > 0 {
        lemma_silent_decoder(data, n - 1);
        assert(spec_nibble(data, n - 1) == 0);
        assert(spec_step_size(0) == 7);
    }
}

/// Encoding silence and decoding the result gives silence.
pub proof fn lemma_silence_roundtrip(samples: Seq<i16>)
    requires
        forall|i: int| 0 <= i < samples.len() ==> samples[i] == 0,
    ensures
        forall|i: int|
            0 <= i < 2 * spec_encode_adpcm(samples).len() ==> #[trigger] spec_decode_adpcm(
                spec_encode_adpcm(samples),
                spec_encoder_start(),
            )[i] == 0,
{
    lemma_encode_silence(samples);
    lemma_decode_silence(spec_encode_adpcm(samples));
}

} // verus!
