//! The ADPCM codec of the stored tracks.

use vstd::prelude::*;
use crate::error::PpmError;
use crate::ppm::audio::adpcm_decoder::{
    AdpcmState, lemma_decode_step_valid, lemma_tables, spec_decode_adpcm, spec_decode_step,
    spec_initial_state, spec_magnitude, spec_nibble, spec_state_after, spec_step_size, state_valid,
};
use crate::ppm::audio::adpcm_encoder::{lemma_decode_silence, spec_abs, spec_encoder_start};
use crate::ppm::audio::audio::AudioTrackHeader;
use crate::ppm::audio::wav_container::{WavContainer, WavView};

verus! {

/// The code that the encoder gives `sample` in the state `state`. Bit 3 is set where the
/// sample lies below the predictor. Bit 2 is set where the distance reaches the step, bit 1
/// where what is left of it reaches half the step, bit 0 where what is then left reaches a
/// quarter of the step.
pub open spec fn spec_ima_nibble(state: AdpcmState, sample: int) -> int {
    let step = spec_step_size(state.step_index as int);
    let distance = spec_abs(sample - state.predictor);
    let rest_2 = if distance >= step {
        distance - step
    } else {
        distance
    };
    let rest_1 = if rest_2 >= step / 2 {
        rest_2 - step / 2
    } else {
        rest_2
    };
    (if sample < state.predictor {
        8int
    } else {
        0int
    }) + (if distance >= step {
        4int
    } else {
        0int
    }) + (if rest_2 >= step / 2 {
        2int
    } else {
        0int
    }) + (if rest_1 >= step / 4 {
        1int
    } else {
        0int
    })
}

/// The encoder's state after the first `n` samples, from the state zero.
pub open spec fn spec_ima_state(samples: Seq<i16>, n: int) -> AdpcmState
    decreases n,
{
    if n <= 0 {
        AdpcmState { predictor: 0, step_index: 0 }
    } else {
        let before = spec_ima_state(samples, n - 1);
        spec_decode_step(before, spec_ima_nibble(before, samples[n - 1] as int))
    }
}

/// Code `i` of the encoded samples; behind the last sample the code is 0.
pub open spec fn spec_ima_encoded_nibble(samples: Seq<i16>, i: int) -> int {
    if 0 <= i < samples.len() {
        spec_ima_nibble(spec_ima_state(samples, i), samples[i] as int)
    } else {
        0
    }
}

/// The bytes that `samples` encode to: one for each pair of samples, the first of the pair
/// in the low half. A last sample without a partner stands alone in its byte.
pub open spec fn spec_ima_encode(samples: Seq<i16>) -> Seq<u8> {
    Seq::new(
        ((samples.len() + 1) / 2) as nat,
        |k: int|
            (spec_ima_encoded_nibble(samples, 2 * k) + 16 * spec_ima_encoded_nibble(
                samples,
                2 * k + 1,
            )) as u8,
    )
}

/// Calls `audio_codec_algorithms::decode_adpcm_ima` on the low four bits of `nibble` and
/// hands back the state that it leaves. The contract claims that this state is the one that
/// the decoding step of this library computes: the function's source adds an eighth of the
/// step and the parts that bits 0 to 2 select, subtracts instead where bit 3 is set, clamps
/// the predictor to 16 bits and moves the step index by its table, kept from 0 to 88, over
/// the same tables. The sample that the function returns is the new predictor.
#[verifier::external_body]
fn ima_decode(nibble: u8, state: AdpcmState) -> (next: AdpcmState)
    requires
        state_valid(state),
        nibble <= 15,
    ensures
        next == spec_decode_step(state, nibble as int),
{
    let mut outside = audio_codec_algorithms::AdpcmImaState {
        predictor: state.predictor as i16,
        step_index: state.step_index as u8,
    };
    audio_codec_algorithms::decode_adpcm_ima(nibble, &mut outside);
    AdpcmState { predictor: outside.predictor as i32, step_index: outside.step_index as i32 }
}

/// Calls `audio_codec_algorithms::encode_adpcm_ima` and hands back the code with the state
/// that the call leaves. The contract claims what the function's source shows: the code
/// holds the sign and the outcome of comparing the distance with the step, what is left
/// with half the step and what is then left with a quarter of it, over the same table of
/// steps, and the state moves on as a decoder's does on that code.
#[verifier::external_body]
fn ima_encode(sample: i16, state: AdpcmState) -> (r: (u8, AdpcmState))
    requires
        state_valid(state),
    ensures
        r.0 == spec_ima_nibble(state, sample as int),
        r.0 <= 15,
        r.1 == spec_decode_step(state, r.0 as int),
{
    let mut outside = audio_codec_algorithms::AdpcmImaState {
        predictor: state.predictor as i16,
        step_index: state.step_index as u8,
    };
    let nibble = audio_codec_algorithms::encode_adpcm_ima(sample, &mut outside);
    (nibble, AdpcmState { predictor: outside.predictor as i32, step_index: outside.step_index as i32 })
}

/// Encodes one sample and gives the state behind it.
fn encode_one(sample: i16, state: AdpcmState) -> (r: (u8, AdpcmState))
    requires
        state_valid(state),
    ensures
        r.0 == spec_ima_nibble(state, sample as int),
        r.0 <= 15,
        r.1 == spec_decode_step(state, r.0 as int),
        state_valid(r.1),
{
    let r = ima_encode(sample, state);
    proof {
        lemma_decode_step_valid(state, r.0 as int);
    }
    r
}

/// Decodes a stored track: two samples for each byte, the low half of the byte first, from
/// the state in `header`. The result is mono, 16 bits, at `frequency` samples per second.
#[verifier::rlimit(50)]
pub fn decode_adpcm(data: &[u8], frequency: i32, header: AudioTrackHeader) -> (r: Result<
    WavContainer,
    PpmError,
>)
    ensures
        r is Ok,
        r->Ok_0@ == (WavView {
            samples: spec_decode_adpcm(
                data@,
                spec_initial_state(header.predictor, header.step_index),
            ),
            channels: 1,
            sample_rate: frequency,
            bits_per_sample: 16,
        }),
{
    let init = AdpcmState {
        predictor: header.predictor as i32,
        step_index: if header.step_index > 88 {
            88
        } else {
            header.step_index as i32
        },
    };
    let mut state = init;
    let mut samples: Vec<i16> = Vec::new();
    let mut i: usize = 0;
    while i < data.len()
        invariant
            i <= data@.len(),
            state_valid(state),
            init == spec_initial_state(header.predictor, header.step_index),
            state == spec_state_after(data@, init, 2 * i),
            samples@.len() == 2 * i,
            forall|k: int|
                0 <= k < 2 * i ==> #[trigger] samples@[k] == spec_state_after(
                    data@,
                    init,
                    k + 1,
                ).predictor as i16,
        decreases data@.len() - i,
    {
        let byte = data[i];
        proof {
            lemma_decode_step_valid(state, (byte % 16) as int);
        }
        let low = ima_decode(byte % 16, state);
        samples.push(low.predictor as i16);
        proof {
            lemma_decode_step_valid(low, (byte / 16) as int);
        }
        let high = ima_decode(byte / 16, low);
        samples.push(high.predictor as i16);
        assert(spec_nibble(data@, 2 * i) == byte % 16);
        assert(spec_nibble(data@, 2 * i + 1) == byte / 16);
        assert(low == spec_state_after(data@, init, 2 * i + 1));
        assert(high == spec_state_after(data@, init, 2 * i + 2));
        state = high;
        i = i + 1;
    }
    assert(samples@ =~= spec_decode_adpcm(data@, init));
    Ok(WavContainer::from_samples(samples, 1, frequency, 16))
}

/// Encodes samples for storing, from the state zero: one byte for each pair of samples, the
/// first of the pair in the low half of the byte. The header holds the state zero.
#[verifier::rlimit(50)]
pub fn encode_adpcm(samples: &[i16]) -> (r: Result<(AudioTrackHeader, Vec<u8>), PpmError>)
    ensures
        r is Ok,
        r->Ok_0.0 == (AudioTrackHeader { predictor: 0, step_index: 0, imported: 0 }),
        r->Ok_0.1@ == spec_ima_encode(samples@),
{
    let mut state = AdpcmState { predictor: 0, step_index: 0 };
    let mut data: Vec<u8> = Vec::new();
    let count = samples.len();
    let mut i: usize = 0;
    while i < count
        invariant
            i <= count,
            i % 2 == 0 || i == count,
            count == samples@.len(),
            state_valid(state),
            i < count ==> state == spec_ima_state(samples@, i as int),
            data@.len() == (i + 1) / 2,
            forall|k: int| 0 <= k < data@.len() ==> #[trigger] data@[k] == spec_ima_encode(samples@)[k],
        decreases count - i,
    {
        let (s1, after_1) = encode_one(samples[i], state);
        assert(s1 == spec_ima_encoded_nibble(samples@, i as int));
        if i + 1 < count {
            assert(after_1 == spec_ima_state(samples@, i as int + 1));
            let (s2, after_2) = encode_one(samples[i + 1], after_1);
            assert(s2 == spec_ima_encoded_nibble(samples@, i as int + 1));
            assert(after_2 == spec_ima_state(samples@, i as int + 2));
            data.push(s1 + 16 * s2);
            assert(2 * (i as int / 2) == i);
            state = after_2;
            i = i + 2;
        } else {
            assert(spec_ima_encoded_nibble(samples@, i as int + 1) == 0);
            data.push(s1);
            assert(2 * (i as int / 2) == i);
            state = after_1;
            i = i + 1;
        }
    }
    assert(data@ =~= spec_ima_encode(samples@));
    Ok((AudioTrackHeader { predictor: 0, step_index: 0, imported: 0 }, data))
}

/// The state that the stored tracks are encoded from and, where their codec state says so,
/// decoded from.
pub open spec fn spec_ima_start() -> AdpcmState {
    AdpcmState { predictor: 0, step_index: 0 }
}

/// A code of the encoder lies between 0 and 15.
pub proof fn lemma_ima_nibble_range(state: AdpcmState, sample: int)
    ensures
        0 <= spec_ima_nibble(state, sample) <= 15,
{
}

/// The encoder's state is valid after any number of samples.
pub proof fn lemma_ima_state_valid(samples: Seq<i16>, n: int)
    requires
        n <= samples.len(),
    ensures
        state_valid(spec_ima_state(samples, n)),
    decreases n,
{
    if n > 0 {
        lemma_ima_state_valid(samples, n - 1);
        let before = spec_ima_state(samples, n - 1);
        lemma_ima_nibble_range(before, samples[n - 1] as int);
        lemma_decode_step_valid(before, spec_ima_nibble(before, samples[n - 1] as int));
    }
}

/// Code `i` of the encoded bytes is the code that the encoder chose for sample `i`.
#[verifier::rlimit(50)]
pub proof fn lemma_ima_encoded_nibbles(samples: Seq<i16>, i: int)
    requires
        0 <= i < 2 * ((samples.len() + 1) / 2),
    ensures
        spec_nibble(spec_ima_encode(samples), i) == spec_ima_encoded_nibble(samples, i),
        0 <= spec_ima_encoded_nibble(samples, i) <= 15,
{
    let k = i / 2;
    let low = spec_ima_encoded_nibble(samples, 2 * k);
    let high = spec_ima_encoded_nibble(samples, 2 * k + 1);
    if 2 * k < samples.len() {
        lemma_ima_nibble_range(spec_ima_state(samples, 2 * k), samples[2 * k] as int);
    }
    if 2 * k + 1 < samples.len() {
        lemma_ima_nibble_range(spec_ima_state(samples, 2 * k + 1), samples[2 * k + 1] as int);
    }
    assert(0 <= low <= 15 && 0 <= high <= 15);
    assert(spec_ima_encode(samples)[k] == (low + 16 * high) as u8);
}

/// A decoder that starts from zero follows the encoder of the stored tracks: after the
/// first `n` codes it is in the state that the encoder was in after `n` samples.
pub proof fn lemma_ima_decoder_follows_encoder(samples: Seq<i16>, n: int)
    requires
        0 <= n <= samples.len(),
    ensures
        spec_state_after(spec_ima_encode(samples), spec_ima_start(), n) == spec_ima_state(
            samples,
            n,
        ),
    decreases n,
{
    if n > 0 {
        lemma_ima_decoder_follows_encoder(samples, n - 1);
        lemma_ima_encoded_nibbles(samples, n - 1);
    }
}

/// The error of one sample of a stored track is bounded. Where the sample lies less than
/// two steps from the predictor, the new predictor lies within an eighth of the step, and 3
/// more, of the sample. Where it lies further off, the new predictor has moved towards the
/// sample by at least one step.
#[verifier::rlimit(50)]
pub proof fn lemma_ima_step_error(state: AdpcmState, sample: int)
    requires
        state_valid(state),
        -32768 <= sample <= 32767,
    ensures
        ({
            let step = spec_step_size(state.step_index as int);
            let next = spec_decode_step(state, spec_ima_nibble(state, sample));
            let before = spec_abs(sample - state.predictor);
            let after = spec_abs(sample - next.predictor);
            &&& 7 <= step <= 32767
            &&& before < 2 * step ==> after <= step / 8 + 3
            &&& before >= 2 * step ==> after <= before - step
        }),
{
    lemma_tables(state.step_index as int, 0);
    let step = spec_step_size(state.step_index as int);
    let nibble = spec_ima_nibble(state, sample);
    let magnitude = spec_magnitude(step, nibble);
    let distance = spec_abs(sample - state.predictor);
    if distance >= 2 * step {
        assert(nibble % 8 == 7);
        assert(magnitude == step / 8 + step / 4 + step / 2 + step);
    }
}

/// What is decoded from an encoded track lies, sample by sample, within the bound of
/// `lemma_ima_step_error` of what was encoded.
pub proof fn lemma_ima_roundtrip_error(samples: Seq<i16>, i: int)
    requires
        0 <= i < samples.len(),
    ensures
        ({
            let state = spec_ima_state(samples, i);
            let step = spec_step_size(state.step_index as int);
            let decoded = spec_decode_adpcm(spec_ima_encode(samples), spec_ima_start())[i];
            let before = spec_abs(samples[i] - state.predictor);
            let after = spec_abs(samples[i] - decoded);
            &&& before < 2 * step ==> after <= step / 8 + 3
            &&& before >= 2 * step ==> after <= before - step
        }),
{
    let state = spec_ima_state(samples, i);
    lemma_ima_state_valid(samples, i);
    lemma_ima_state_valid(samples, i + 1);
    lemma_ima_decoder_follows_encoder(samples, i + 1);
    lemma_ima_step_error(state, samples[i] as int);
}

/// A silent track is stored as zero bytes, which decode to silence.
pub proof fn lemma_ima_silence(samples: Seq<i16>)
    requires
        forall|i: int| 0 <= i < samples.len() ==> samples[i] == 0,
    ensures
        forall|k: int|
            0 <= k < spec_ima_encode(samples).len() ==> #[trigger] spec_ima_encode(samples)[k] == 0,
        forall|i: int|
            0 <= i < 2 * spec_ima_encode(samples).len() ==> #[trigger] spec_decode_adpcm(
                spec_ima_encode(samples),
                spec_ima_start(),
            )[i] == 0,
{
    assert forall|k: int| 0 <= k < spec_ima_encode(samples).len() implies #[trigger] spec_ima_encode(
        samples,
    )[k] == 0 by {
        lemma_ima_silent_encoder(samples, 2 * k);
        lemma_ima_silent_encoder(samples, 2 * k + 1);
    }
    let stored = spec_ima_encode(samples);
    lemma_decode_silence(stored);
    assert(spec_ima_start() == spec_encoder_start());
    assert forall|i: int| 0 <= i < 2 * stored.len() implies #[trigger] spec_decode_adpcm(
        stored,
        spec_ima_start(),
    )[i] == 0 by {
        assert(spec_decode_adpcm(stored, spec_encoder_start())[i] == 0);
    }
}

proof fn lemma_ima_silent_encoder(samples: Seq<i16>, n: int)
    requires
        forall|i: int| 0 <= i < samples.len() ==> samples[i] == 0,
        0 <= n,
    ensures
        n <= samples.len() ==> spec_ima_state(samples, n) == spec_ima_start(),
        spec_ima_encoded_nibble(samples, n) == 0,
    decreases n,
{
    if n > 0 {
        lemma_ima_silent_encoder(samples, n - 1);
    }
    lemma_tables(0, 0);
    assert(spec_step_size(0) == 7);
}

} // verus!
