//! Decoded audio: 16-bit samples with their format.

use vstd::prelude::*;
use crate::error::PpmError;
use crate::ppm::audio::adpcm_decoder::{
    mix_pcm_audio, resample, resample_possible, spec_mix, spec_resample,
};

verus! {

/// Samples of one track, with the number of channels, the samples per second and the bits
/// per sample.
#[derive(Debug)]
pub struct WavContainer {
    pub buffer: Vec<i16>,
    pub channels: u16,
    pub sample_rate: i32,
    pub bits_per_sample: u16,
}

/// What a container holds.
pub struct WavView {
    pub samples: Seq<i16>,
    pub channels: u16,
    pub sample_rate: i32,
    pub bits_per_sample: u16,
}

impl View for WavContainer {
    type V = WavView;

    open spec fn view(&self) -> WavView {
        WavView {
            samples: self.buffer@,
            channels: self.channels,
            sample_rate: self.sample_rate,
            bits_per_sample: self.bits_per_sample,
        }
    }
}

impl Clone for WavContainer {
    fn clone(&self) -> (copy: Self)
        ensures
            copy@ == self@,
    {
        WavContainer {
            buffer: self.buffer.clone(),
            channels: self.channels,
            sample_rate: self.sample_rate,
            bits_per_sample: self.bits_per_sample,
        }
    }
}

impl Default for WavContainer {
    fn default() -> (empty: Self)
        ensures
            empty@ == (WavView {
                samples: Seq::empty(),
                channels: 0,
                sample_rate: 0,
                bits_per_sample: 0,
            }),
    {
        WavContainer { buffer: Vec::new(), channels: 0, sample_rate: 0, bits_per_sample: 0 }
    }
}

/// The bytes of the WAVE file that holds the samples as integers in the given format, or
/// `None` where the writer refuses the format or a sample.
pub uninterp spec fn spec_wav_encode(
    samples: Seq<i16>,
    channels: u16,
    sample_rate: u32,
    bits_per_sample: u16,
) -> Option<Seq<u8>>;

/// The samples, the channels, the samples per second and the bits per sample that the
/// bytes of a WAVE file give, or `None` where the reader refuses the bytes or a sample.
pub uninterp spec fn spec_wav_decode(bytes: Seq<u8>) -> Option<(Seq<i16>, u16, u32, u16)>;

/// Whether the WAVE writer takes the depth: 8, 16, 24 or 32 bits per sample.
pub open spec fn wav_depth_accepted(bits_per_sample: u16) -> bool {
    bits_per_sample == 8 || bits_per_sample == 16 || bits_per_sample == 24 || bits_per_sample
        == 32
}

/// Whether the WAVE writer can be handed the format and the samples: there is a channel,
/// the rate is positive, the depth is one that the writer takes, and the bytes in a second
/// and the bytes of the whole file each fit in 32 bits.
pub open spec fn wav_writable(samples: Seq<i16>, channels: u16, sample_rate: i32, bits_per_sample: u16) -> bool {
    &&& channels >= 1
    &&& sample_rate >= 1
    &&& wav_depth_accepted(bits_per_sample)
    &&& sample_rate * 4 * channels <= u32::MAX
    &&& samples.len() * 4 + 68 <= u32::MAX
}

/// Calls `hound::WavWriter::new` on a cursor over an empty buffer with the given format and
/// `hound::SampleFormat::Int`, then `hound::WavWriter::write_sample` for each sample in its
/// order and `hound::WavWriter::finalize`, and hands back the buffer. The contract names
/// the result; `None` stands for an error of any of the calls. The `requires` keeps the
/// calls within what the writer's source computes in 32 bits without overflow or division
/// by zero: with a channel and a depth that the writer takes, a sample has at least one
/// byte, so that neither the header nor a writer that is dropped after a refused sample
/// divides by zero.
#[verifier::external_body]
fn wav_encode(samples: &Vec<i16>, channels: u16, sample_rate: u32, bits_per_sample: u16) -> (r: Option<
    Vec<u8>,
>)
    requires
        wav_writable(samples@, channels, sample_rate as i32, bits_per_sample),
        sample_rate <= i32::MAX,
    ensures
        r is Some == spec_wav_encode(samples@, channels, sample_rate, bits_per_sample) is Some,
        r is Some ==> r->Some_0@ == spec_wav_encode(
            samples@,
            channels,
            sample_rate,
            bits_per_sample,
        )->Some_0,
{
    let sample_format = hound::SampleFormat::Int;
    let spec = hound::WavSpec { channels, sample_rate, bits_per_sample, sample_format };
    let mut buffer = std::io::Cursor::new(Vec::new());
    let mut writer = hound::WavWriter::new(&mut buffer, spec).ok()?;
    for sample in samples.iter() {
        writer.write_sample(*sample).ok()?;
    }
    writer.finalize().ok()?;
    Some(buffer.into_inner())
}

/// Calls `hound::WavReader::new` on a cursor over the bytes, `hound::WavReader::spec` and
/// `hound::WavReader::into_samples` for 16-bit samples, and hands back the samples with the
/// channels, the rate and the bits per sample. The contract names the result; `None` stands
/// for an error of the reader or of any sample.
#[verifier::external_body]
fn wav_decode(bytes: Vec<u8>) -> (r: Option<(Vec<i16>, u16, u32, u16)>)
    ensures
        r is Some == spec_wav_decode(bytes@) is Some,
        r is Some ==> (r->Some_0.0@, r->Some_0.1, r->Some_0.2, r->Some_0.3) == spec_wav_decode(
            bytes@,
        )->Some_0,
{
    let reader = hound::WavReader::new(std::io::Cursor::new(bytes)).ok()?;
    let spec = reader.spec();
    let samples: Result<Vec<i16>, hound::Error> = reader.into_samples::<i16>().collect();
    Some((samples.ok()?, spec.channels, spec.sample_rate, spec.bits_per_sample))
}

/// The container `this` at `sample_rate` samples per second: itself where it has that rate,
/// else its samples resampled by nearest neighbour; `Codec` where they cannot be.
pub open spec fn spec_wav_resample(this: WavView, sample_rate: i32) -> Result<WavView, PpmError> {
    if sample_rate == this.sample_rate {
        Ok(this)
    } else if resample_possible(
        this.samples.len() as int,
        this.sample_rate as int,
        sample_rate as int,
    ) {
        Ok(
            WavView {
                samples: spec_resample(this.samples, this.sample_rate as int, sample_rate as int),
                channels: this.channels,
                sample_rate,
                bits_per_sample: this.bits_per_sample,
            },
        )
    } else {
        Err(PpmError::Codec)
    }
}

/// The container `this` with `other` mixed in from sample `index` on: `Audio` where the
/// channel counts differ; else `other` is brought to the rate of `this` and each sample that
/// it reaches gets half of its sample added, clamped to the 16-bit range.
pub open spec fn spec_wav_mix(this: WavView, other: WavView, index: int) -> Result<
    WavView,
    PpmError,
> {
    if this.channels != other.channels {
        Err(PpmError::Audio)
    } else {
        match spec_wav_resample(other, this.sample_rate) {
            Ok(adjusted) => Ok(
                WavView {
                    samples: spec_mix(adjusted.samples, this.samples, index),
                    channels: this.channels,
                    sample_rate: this.sample_rate,
                    bits_per_sample: this.bits_per_sample,
                },
            ),
            Err(e) => Err(e),
        }
    }
}

impl WavContainer {
    /// A container of the given samples and format.
    pub fn from_samples(buffer: Vec<i16>, channels: u16, sample_rate: i32, bits_per_sample: u16) -> (c:
        Self)
        ensures
            c@ == (WavView { samples: buffer@, channels, sample_rate, bits_per_sample }),
    {
        WavContainer { buffer, channels, sample_rate, bits_per_sample }
    }

    /// The same sound at `sample_rate` samples per second.
    pub fn resample(&self, sample_rate: i32) -> (r: Result<Self, PpmError>)
        ensures
            match spec_wav_resample(self@, sample_rate) {
                Ok(view) => r is Ok && r->Ok_0@ == view,
                Err(e) => r is Err && r->Err_0 == e,
            },
    {
        if sample_rate == self.sample_rate {
            return Ok(self.clone());
        }
        match resample(self.buffer.as_slice(), self.sample_rate, sample_rate) {
            Ok(samples) => Ok(
                WavContainer::from_samples(
                    samples,
                    self.channels,
                    sample_rate,
                    self.bits_per_sample,
                ),
            ),
            Err(e) => Err(PpmError::Codec),
        }
    }

    /// This sound with `other` mixed in from sample `index` on.
    pub fn mix(&self, other: &Self, index: usize) -> (r: Result<Self, PpmError>)
        ensures
            match spec_wav_mix(self@, other@, index as int) {
                Ok(view) => r is Ok && r->Ok_0@ == view,
                Err(e) => r is Err && r->Err_0 == e,
            },
            r is Ok ==> r->Ok_0@.samples.len() == self@.samples.len(),
    {
        if self.channels != other.channels {
            return Err(PpmError::Audio);
        }
        let adjusted = match other.resample(self.sample_rate) {
            Ok(a) => a,
            Err(e) => {
                return Err(e);
            },
        };
        match mix_pcm_audio(adjusted.buffer.as_slice(), self.buffer.as_slice(), index) {
            Ok(samples) => Ok(
                WavContainer::from_samples(
                    samples,
                    self.channels,
                    self.sample_rate,
                    self.bits_per_sample,
                ),
            ),
            Err(e) => Err(e),
        }
    }

    /// A copy of the samples.
    pub fn get_samples(&self) -> (samples: Vec<i16>)
        ensures
            samples@ == self@.samples,
    {
        self.buffer.clone()
    }

    /// The samples per second.
    pub fn get_sample_rate(&self) -> (rate: i32)
        ensures
            rate == self@.sample_rate,
    {
        self.sample_rate
    }

    /// The sound as the bytes of a WAVE file. `Codec` where the format or the length is
    /// outside what the writer takes (no channel, no rate, a depth other than 8, 16, 24 or 32
    /// bits, or too many bytes for 32 bits), or the writer refuses a sample.
    pub fn get_wav_buffer(&self) -> (r: Result<Vec<u8>, PpmError>)
        ensures
            match (if wav_writable(
                self@.samples,
                self@.channels,
                self@.sample_rate,
                self@.bits_per_sample,
            ) {
                spec_wav_encode(
                    self@.samples,
                    self@.channels,
                    self@.sample_rate as u32,
                    self@.bits_per_sample,
                )
            } else {
                None
            }) {
                Some(bytes) => r is Ok && r->Ok_0@ == bytes,
                None => r == Err::<Vec<u8>, PpmError>(PpmError::Codec),
            },
    {
        if self.channels < 1 || self.sample_rate < 1 {
            return Err(PpmError::Codec);
        }
        let bits = self.bits_per_sample;
        if !(bits == 8 || bits == 16 || bits == 24 || bits == 32) {
            return Err(PpmError::Codec);
        }
        let rate = self.sample_rate as u64;
        let channels = self.channels as u64;
        assert(0 <= rate * 4 * channels <= 0x7FFF_FFFF * 4 * 0xFFFF) by (nonlinear_arith)
            requires
                0 <= rate <= 0x7FFF_FFFF,
                0 <= channels <= 0xFFFF,
        ;
        let per_second: u64 = rate * 4 * channels;
        if per_second > 0xFFFF_FFFFu64 || self.buffer.len() > (0xFFFF_FFFFusize - 68) / 4 {
            return Err(PpmError::Codec);
        }
        match wav_encode(&self.buffer, self.channels, self.sample_rate as u32, self.bits_per_sample) {
            Some(bytes) => Ok(bytes),
            None => Err(PpmError::Codec),
        }
    }

    /// The sound that the bytes of a WAVE file hold. `Format` where the reader refuses the
    /// bytes or the rate does not fit.
    pub fn from_wav_buffer(buffer: Vec<u8>) -> (r: Result<Self, PpmError>)
        ensures
            match spec_wav_decode(buffer@) {
                Some((samples, channels, sample_rate, bits_per_sample)) => if sample_rate
                    <= i32::MAX {
                    r is Ok && r->Ok_0@ == (WavView {
                        samples,
                        channels,
                        sample_rate: sample_rate as i32,
                        bits_per_sample,
                    })
                } else {
                    r is Err && r->Err_0 == PpmError::Format
                },
                None => r is Err && r->Err_0 == PpmError::Format,
            },
    {
        match wav_decode(buffer) {
            Some((samples, channels, sample_rate, bits_per_sample)) => {
                if sample_rate > 0x7FFF_FFFF {
                    return Err(PpmError::Format);
                }
                Ok(
                    WavContainer::from_samples(
                        samples,
                        channels,
                        sample_rate as i32,
                        bits_per_sample,
                    ),
                )
            },
            None => Err(PpmError::Format),
        }
    }

    /// The samples as bytes, two for each sample, the low byte first.
    #[verifier::rlimit(50)]
    pub fn get_pcm_bytes(&self) -> (bytes: Vec<u8>)
        ensures
            bytes@ == spec_pcm_bytes(self@.samples),
    {
        let mut bytes: Vec<u8> = Vec::new();
        let mut i: usize = 0;
        while i < self.buffer.len()
            invariant
                i <= self.buffer@.len(),
                bytes@.len() == 2 * i,
                forall|k: int|
                    0 <= k < 2 * i ==> #[trigger] bytes@[k] == spec_pcm_bytes(self.buffer@)[k],
            decreases self.buffer@.len() - i,
        {
            let sample = self.buffer[i];
            let unsigned: u16 = if sample < 0 {
                (sample as i32 + 65536) as u16
            } else {
                sample as u16
            };
            bytes.push((unsigned % 256) as u8);
            bytes.push((unsigned / 256) as u8);
            i = i + 1;
        }
        assert(bytes@ =~= spec_pcm_bytes(self.buffer@));
        bytes
    }
}

/// A 16-bit sample as an unsigned value in two's complement.
pub open spec fn spec_sample_bits(sample: i16) -> int {
    if sample < 0 {
        sample as int + 65536
    } else {
        sample as int
    }
}

/// The samples as little-endian bytes.
pub open spec fn spec_pcm_bytes(samples: Seq<i16>) -> Seq<u8> {
    Seq::new(
        2 * samples.len(),
        |k: int|
            if k % 2 == 0 {
                (spec_sample_bits(samples[k / 2]) % 256) as u8
            } else {
                (spec_sample_bits(samples[k / 2]) / 256) as u8
            },
    )
}

} // verus!
