//! Cooked field audio: the digest and size check of every asset, the decoded
//! budget of the spoken lines, and the decoding of a spoken line from its WAV
//! file.
use vstd::prelude::*;

verus! {

/// The most decoded samples that all spoken lines of a field may hold.
pub const VOICE_BUDGET: usize = 64_000_000;

/// Bytes a spoken line's file may hold beyond its samples: room for headers.
pub const VOICE_SLACK: usize = 1024 * 1024;

/// The SHA-256 digest of `bytes`.
pub uninterp spec fn sha256_of(bytes: Seq<u8>) -> Seq<u8>;

/// `sha2::Sha256::digest`: the 32-byte SHA-256 digest of `bytes`.
#[verifier::external_body]
fn sha256(bytes: &Vec<u8>) -> (digest: Vec<u8>)
    ensures
        digest@ == sha256_of(bytes@),
        digest@.len() == 32,
{
    <sha2::Sha256 as sha2::Digest>::digest(bytes.as_slice()).to_vec()
}

/// The lowercase hexadecimal digit of `n`.
pub open spec fn hex_digit(n: int) -> char {
    if n < 10 {
        (48 + n) as char
    } else {
        (87 + n) as char
    }
}

/// `bytes` written as lowercase hexadecimal, two digits per byte.
pub open spec fn lower_hex(bytes: Seq<u8>) -> Seq<char> {
    Seq::new(
        bytes.len() * 2,
        |i: int| if i % 2 == 0 { hex_digit(bytes[i / 2] as int / 16) } else { hex_digit(bytes[i / 2] as int % 16) },
    )
}

fn hex_char(n: u8) -> (c: char)
    requires
        n < 16,
    ensures
        c == hex_digit(n as int),
{
    if n < 10 {
        (48 + n) as char
    } else {
        (87 + n) as char
    }
}

/// Whether `expected` is `digest` in lowercase hexadecimal.
pub fn digest_matches(digest: &Vec<u8>, expected: &str) -> (matches: bool)
    requires
        digest@.len() * 2 <= usize::MAX,
    ensures
        matches == (expected@ == lower_hex(digest@)),
{
    let ghost text = expected@;
    let ghost hex = lower_hex(digest@);
    let mut i: usize = 0;
    let mut same = true;
    for c in it: expected.chars()
        invariant
            it.seq() == text,
            text == expected@,
            hex == lower_hex(digest@),
            digest@.len() * 2 <= usize::MAX,
            same ==> i == it.index(),
            same ==> i <= hex.len(),
            same == (it.index() <= hex.len() && text.subrange(0, it.index() as int) =~= hex.subrange(0, it.index() as int)),
    {
        assert(c == text[it.index() as int]);
        if same {
            if i / 2 < digest.len() {
                let byte = digest[i / 2];
                let digit = if i % 2 == 0 { hex_char(byte / 16) } else { hex_char(byte % 16) };
                proof {
                    vstd::arithmetic::div_mod::lemma_fundamental_div_mod(i as int, 2);
                }
                assert(i < hex.len());
                assert(digit == hex[i as int]);
                same = digit == c;
                proof {
                    if same {
                        assert(text.subrange(0, i + 1) =~= text.subrange(0, i as int).push(c));
                        assert(hex.subrange(0, i + 1) =~= hex.subrange(0, i as int).push(hex[i as int]));
                    } else {
                        assert(text.subrange(0, i + 1)[i as int] != hex.subrange(0, i + 1)[i as int]);
                    }
                }
                if same {
                    i = i + 1;
                }
            } else {
                same = false;
            }
        } else {
            proof {
                let k = it.index();
                if k + 1 <= hex.len() && text.subrange(0, k + 1) =~= hex.subrange(0, k + 1) {
                    assert(text.subrange(0, k as int) =~= hex.subrange(0, k as int));
                }
            }
        }
    }
    proof {
        assert(text.subrange(0, text.len() as int) =~= text);
        if same {
            assert(hex.subrange(0, i as int) =~= text);
            if i == hex.len() {
                assert(hex.subrange(0, i as int) =~= hex);
            }
        }
        if text == hex {
            assert(text.subrange(0, text.len() as int) =~= hex.subrange(0, text.len() as int));
        }
    }
    same && i / 2 == digest.len() && i % 2 == 0
}

/// Why a cooked audio asset is refused.
#[derive(Clone, Copy, Debug, PartialEq, Eq, Structural)]
pub enum AssetError {
    /// The file is larger than its budget or its digest is not the recorded one.
    Mismatch,
}

/// Checks a cooked asset read as `bytes`: at most `limit` bytes, with the
/// recorded lowercase hexadecimal SHA-256 digest `sha256`.
pub fn verify_asset(bytes: &Vec<u8>, limit: usize, sha256_hex: &str) -> (r: Result<(), AssetError>)
    ensures
        r is Ok <==> (bytes@.len() <= limit && sha256_hex@ == lower_hex(sha256_of(bytes@))),
{
    if bytes.len() > limit {
        return Err(AssetError::Mismatch);
    }
    let digest = sha256(bytes);
    if digest_matches(&digest, sha256_hex) {
        Ok(())
    } else {
        Err(AssetError::Mismatch)
    }
}

/// What a spoken line's metadata records.
#[derive(Clone, Copy, Debug, PartialEq, Eq)]
pub struct VoiceMeta {
    /// Frames in the line.
    pub frames: u32,
    pub channels: u16,
    /// The rate at which the line plays.
    pub sample_rate: u32,
    /// The rate at which the line's file was recorded.
    pub source_sample_rate: u32,
}

/// Why a spoken line's budget is refused.
#[derive(Clone, Copy, Debug, PartialEq, Eq, Structural)]
pub enum BudgetError {
    /// The decoded total does not fit in memory.
    Overflow,
    /// The decoded total exceeds the voice budget.
    OverBudget,
}

/// Admits one more spoken line: `total` samples are already decoded. Returns
/// the new total and the most bytes the line's file may hold.
pub fn admit_voice(total: usize, voice: &VoiceMeta) -> (r: Result<(usize, usize), BudgetError>)
    ensures
        ({
            let count = voice.frames * voice.channels;
            match r {
                Ok((after, limit)) => {
                    &&& total + count <= VOICE_BUDGET
                    &&& after == total + count
                    &&& limit == count * 2 + VOICE_SLACK
                },
                Err(BudgetError::Overflow) => total + count > usize::MAX,
                Err(BudgetError::OverBudget) => VOICE_BUDGET < total + count <= usize::MAX,
            }
        }),
{
    assert(voice.frames * voice.channels <= u32::MAX * u16::MAX) by (nonlinear_arith);
    let count: u64 = voice.frames as u64 * voice.channels as u64;
    if count > (usize::MAX - total) as u64 {
        return Err(BudgetError::Overflow);
    }
    let after: usize = total + count as usize;
    if after > VOICE_BUDGET {
        return Err(BudgetError::OverBudget);
    }
    Ok((after, count as usize * 2 + VOICE_SLACK))
}

/// What a WAV file's header says: channels, sample rate, bits per sample,
/// whether its samples are integers, and its frames.
#[derive(Clone, Copy, Debug, PartialEq, Eq)]
pub struct WavFormat {
    pub channels: u16,
    pub sample_rate: u32,
    pub bits_per_sample: u16,
    pub integer: bool,
    pub frames: u32,
}

/// `hound::Error`, the failure of reading a WAV file; only carried through.
#[verifier::external_type_specification]
#[verifier::external_body]
pub struct ExWavError(hound::Error);

/// The header of the WAV file `bytes`, when it parses.
pub uninterp spec fn wav_format(bytes: Seq<u8>) -> Option<(u16, u32, u16, bool, u32)>;

/// The samples of the WAV file `bytes` as 16-bit integers, when they decode.
pub uninterp spec fn wav_samples(bytes: Seq<u8>) -> Option<Seq<i16>>;

/// `hound::WavReader::new` on `bytes`, then its `spec` and `duration`.
#[verifier::external_body]
fn read_wav_format(bytes: &Vec<u8>) -> (r: Result<WavFormat, hound::Error>)
    ensures
        match r {
            Ok(f) => wav_format(bytes@) == Some(
                (f.channels, f.sample_rate, f.bits_per_sample, f.integer, f.frames),
            ),
            Err(_) => wav_format(bytes@) is None,
        },
{
    let reader = hound::WavReader::new(std::io::Cursor::new(bytes.as_slice()))?;
    let spec = reader.spec();
    let integer = match spec.sample_format {
        hound::SampleFormat::Int => true,
        hound::SampleFormat::Float => false,
    };
    Ok(WavFormat {
        channels: spec.channels,
        sample_rate: spec.sample_rate,
        bits_per_sample: spec.bits_per_sample,
        integer,
        frames: reader.duration(),
    })
}

/// `hound::WavReader::new` on `bytes`, then all of its `samples::<i16>`.
#[verifier::external_body]
fn read_wav_samples(bytes: &Vec<u8>) -> (r: Result<Vec<i16>, hound::Error>)
    ensures
        match r {
            Ok(s) => wav_samples(bytes@) == Some(s@),
            Err(_) => wav_samples(bytes@) is None,
        },
{
    let mut reader = hound::WavReader::new(std::io::Cursor::new(bytes.as_slice()))?;
    reader.samples::<i16>().collect()
}

/// Why a spoken line cannot be decoded.
#[derive(Clone, Copy, Debug, PartialEq, Eq, Structural)]
pub enum VoiceError {
    /// The file is not a WAV file that decodes.
    Wav,
    /// The file's format is not the recorded one.
    Format,
    /// The file holds fewer or more samples than the recorded frames.
    Truncated,
}

/// Whether a WAV header is the one recorded for a spoken line: its channels,
/// 16-bit integer samples at the rate it was recorded at, and its frames.
pub open spec fn format_matches(f: (u16, u32, u16, bool, u32), voice: VoiceMeta) -> bool {
    &&& f.0 == voice.channels
    &&& f.1 == voice.source_sample_rate
    &&& f.2 == 16
    &&& f.3
    &&& f.4 == voice.frames
}

/// A decoded spoken line: interleaved samples and the rate they play at.
#[derive(Clone, Debug)]
pub struct Clip {
    pub pcm: Vec<i16>,
    pub rate: u32,
    pub channels: usize,
}

impl Clip {
    /// Checks the header of a spoken line's file against its metadata.
    pub fn check_format(format: &WavFormat, voice: &VoiceMeta) -> (r: Result<(), VoiceError>)
        ensures
            r is Ok <==> format_matches(
                (format.channels, format.sample_rate, format.bits_per_sample, format.integer, format.frames),
                *voice,
            ),
            r is Err ==> r == Err::<(), VoiceError>(VoiceError::Format),
    {
        if format.channels == voice.channels && format.sample_rate == voice.source_sample_rate
            && format.bits_per_sample == 16 && format.integer && format.frames == voice.frames {
            Ok(())
        } else {
            Err(VoiceError::Format)
        }
    }

    /// The clip of a spoken line from its decoded samples: every recorded
    /// frame must be there, and the clip plays at the line's playback rate.
    pub fn from_samples(pcm: Vec<i16>, voice: &VoiceMeta) -> (r: Result<Clip, VoiceError>)
        ensures
            match r {
                Ok(clip) => {
                    &&& pcm@.len() == voice.frames * voice.channels
                    &&& clip.pcm@ == pcm@
                    &&& clip.rate == voice.sample_rate
                    &&& clip.channels == voice.channels
                },
                Err(e) => e == VoiceError::Truncated && pcm@.len() != voice.frames * voice.channels,
            },
    {
        assert(voice.frames * voice.channels <= u32::MAX * u16::MAX) by (nonlinear_arith);
        if pcm.len() as u64 != voice.frames as u64 * voice.channels as u64 {
            return Err(VoiceError::Truncated);
        }
        Ok(Clip { pcm, rate: voice.sample_rate, channels: voice.channels as usize })
    }

    /// Decodes a spoken line from its WAV file `bytes`. The file keeps the
    /// rate it was recorded at; the clip plays on the mixer's clock at the
    /// line's playback rate, sample for sample.
    pub fn decode(bytes: Vec<u8>, voice: &VoiceMeta) -> (r: Result<Clip, VoiceError>)
        ensures
            match wav_format(bytes@) {
                None => r == Err::<Clip, VoiceError>(VoiceError::Wav),
                Some(f) => if !format_matches(f, *voice) {
                    r == Err::<Clip, VoiceError>(VoiceError::Format)
                } else {
                    match wav_samples(bytes@) {
                        None => r == Err::<Clip, VoiceError>(VoiceError::Wav),
                        Some(s) => match r {
                            Ok(clip) => {
                                &&& s.len() == voice.frames * voice.channels
                                &&& clip.pcm@ == s
                                &&& clip.rate == voice.sample_rate
                                &&& clip.channels == voice.channels
                            },
                            Err(e) => e == VoiceError::Truncated && s.len() != voice.frames * voice.channels,
                        },
                    }
                },
            },
    {
        let format = match read_wav_format(&bytes) {
            Ok(format) => format,
            Err(_) => return Err(VoiceError::Wav),
        };
        if let Err(e) = Clip::check_format(&format, voice) {
            return Err(e);
        }
        let pcm = match read_wav_samples(&bytes) {
            Ok(pcm) => pcm,
            Err(_) => return Err(VoiceError::Wav),
        };
        Clip::from_samples(pcm, voice)
    }
}

} // verus!
