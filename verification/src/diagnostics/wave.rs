//! The WAV file that a session's audio is kept in.

use vstd::prelude::*;

use crate::audio::TARGET_SAMPLE_RATE;
use crate::bytes::{
    encode_pcm, le_bytes, le_bytes16, le_value, lemma_le_round_trip, lemma_pcm_bytes_add,
    lemma_pcm_bytes_len, pcm_bytes, push_all, push_le, push_le16,
};

verus! {

/// "RIFF" in ASCII.
pub open spec fn riff_tag() -> Seq<u8> {
    seq![82u8, 73u8, 70u8, 70u8]
}

/// "WAVE" in ASCII.
pub open spec fn wave_tag() -> Seq<u8> {
    seq![87u8, 65u8, 86u8, 69u8]
}

/// "fmt " in ASCII.
pub open spec fn format_tag() -> Seq<u8> {
    seq![102u8, 109u8, 116u8, 32u8]
}

/// "data" in ASCII.
pub open spec fn data_tag() -> Seq<u8> {
    seq![100u8, 97u8, 116u8, 97u8]
}

/// The header of a WAV file with 16-bit mono PCM audio of `data_bytes` bytes.
pub open spec fn wave_header(data_bytes: u32) -> Seq<u8> {
    riff_tag() + le_bytes((36 + data_bytes) as u32) + wave_tag() + format_tag() + le_bytes(16)
        + le_bytes16(1) + le_bytes16(1) + le_bytes(TARGET_SAMPLE_RATE) + le_bytes(
        (TARGET_SAMPLE_RATE * 2) as u32,
    ) + le_bytes16(2) + le_bytes16(16) + data_tag() + le_bytes(data_bytes)
}

/// A complete WAV file.
pub open spec fn wave_file(samples: Seq<i16>) -> Seq<u8> {
    wave_header((2 * samples.len()) as u32) + pcm_bytes(samples)
}

/// The header of a WAV file with 16-bit mono PCM audio of `data_bytes` bytes.
pub fn write_wave_header(data_bytes: u32) -> (result: Vec<u8>)
    requires
        36 + data_bytes <= u32::MAX,
    ensures
        result@ == wave_header(data_bytes),
        result@.len() == 44,
{
    let mut bytes: Vec<u8> = Vec::new();
    push_all(&mut bytes, &[82u8, 73u8, 70u8, 70u8]);
    push_le(&mut bytes, 36 + data_bytes);
    push_all(&mut bytes, &[87u8, 65u8, 86u8, 69u8]);
    push_all(&mut bytes, &[102u8, 109u8, 116u8, 32u8]);
    push_le(&mut bytes, 16);
    push_le16(&mut bytes, 1);
    push_le16(&mut bytes, 1);
    push_le(&mut bytes, TARGET_SAMPLE_RATE);
    push_le(&mut bytes, TARGET_SAMPLE_RATE * 2);
    push_le16(&mut bytes, 2);
    push_le16(&mut bytes, 16);
    push_all(&mut bytes, &[100u8, 97u8, 116u8, 97u8]);
    push_le(&mut bytes, data_bytes);
    proof {
        assert(bytes@ =~= wave_header(data_bytes));
    }
    bytes
}

/// Why the sizes in a WAV file cannot be brought up to date.
#[derive(Clone, Copy, Debug, PartialEq, Eq, Structural)]
pub enum WaveError {
    TooLarge,
}

impl WaveError {
    pub open spec fn spec_message(self) -> Seq<char> {
        "diagnostic audio exceeds the WAV size limit"@
    }

    /// What is recorded about the error.
    pub fn message(self) -> (result: &'static str)
        ensures
            result@ == self.spec_message(),
    {
        "diagnostic audio exceeds the WAV size limit"
    }
}

/// Bytes that replace those at a place in a file.
#[derive(Debug)]
pub struct Patch {
    pub offset: u64,
    pub bytes: Vec<u8>,
}

/// The contents of a file after some of its bytes were replaced.
pub open spec fn patched(file: Seq<u8>, offset: int, bytes: Seq<u8>) -> Seq<u8> {
    Seq::new(
        file.len(),
        |i: int|
            if offset <= i < offset + bytes.len() {
                bytes[i - offset]
            } else {
                file[i]
            },
    )
}

/// What has been written to a WAV file.
#[derive(Debug)]
pub struct WaveWriter {
    pub samples: u64,
}

impl WaveWriter {
    /// A file without samples; the bytes are its contents.
    pub fn create() -> (result: (WaveWriter, Vec<u8>))
        ensures
            result.0.samples == 0,
            result.1@ == wave_file(Seq::empty()),
    {
        let bytes = write_wave_header(0);
        proof {
            assert(wave_header(0) + pcm_bytes(Seq::empty()) =~= wave_header(0));
        }
        (WaveWriter { samples: 0 }, bytes)
    }

    /// Adds samples; the bytes go to the end of the file.
    pub fn write_samples(&mut self, samples: &[i16]) -> (result: Vec<u8>)
        requires
            old(self).samples + samples@.len() <= u64::MAX,
        ensures
            result@ == pcm_bytes(samples@),
            final(self).samples == old(self).samples + samples@.len(),
    {
        self.samples = self.samples + samples.len() as u64;
        encode_pcm(samples)
    }

    /// Whether the sizes in the file fit or are certainly too large.
    pub open spec fn sizes_computable(self) -> bool {
        2 * self.samples + 36 <= u32::MAX || 2 * self.samples > u32::MAX
    }

    /// Whether the sizes in the file fit or are certainly too large.
    pub fn can_checkpoint(&self) -> (result: bool)
        ensures
            result == self.sizes_computable(),
    {
        self.samples <= 2_147_483_629 || self.samples > 2_147_483_647
    }

    /// The bytes that bring the sizes in the file up to date.
    pub fn checkpoint(&self) -> (result: Result<Vec<Patch>, WaveError>)
        requires
            self.sizes_computable(),
        ensures
            match result {
                Ok(patches) => 2 * self.samples <= u32::MAX && patches@.len() == 2
                    && patches@[0].offset == 4 && patches@[0].bytes@ == le_bytes(
                    (36 + 2 * self.samples) as u32,
                ) && patches@[1].offset == 40 && patches@[1].bytes@ == le_bytes(
                    (2 * self.samples) as u32,
                ),
                Err(error) => 2 * self.samples > u32::MAX && error == WaveError::TooLarge,
            },
    {
        if self.samples > 2_147_483_647 {
            return Err(WaveError::TooLarge);
        }
        let data_bytes: u32 = (self.samples * 2) as u32;
        let mut riff: Vec<u8> = Vec::new();
        push_le(&mut riff, 36 + data_bytes);
        let mut data: Vec<u8> = Vec::new();
        push_le(&mut data, data_bytes);
        proof {
            assert(riff@ =~= le_bytes((36 + data_bytes) as u32));
            assert(data@ =~= le_bytes(data_bytes));
        }
        let mut patches: Vec<Patch> = Vec::new();
        patches.push(Patch { offset: 4, bytes: riff });
        patches.push(Patch { offset: 40, bytes: data });
        Ok(patches)
    }
}

/// The file after both sizes were brought up to date.
pub open spec fn checkpointed(file: Seq<u8>, samples: nat) -> Seq<u8> {
    patched(
        patched(file, 4, le_bytes((36 + 2 * samples) as u32)),
        40,
        le_bytes((2 * samples) as u32),
    )
}

/// Whatever its sizes said before, a file that samples were added to is a complete WAV
/// file of all samples once the sizes are brought up to date.
pub proof fn law_checkpoint_completes_the_file(stale: u32, samples: Seq<i16>)
    requires
        2 * samples.len() + 36 <= u32::MAX,
        36 + stale <= u32::MAX,
    ensures
        checkpointed(wave_header(stale) + pcm_bytes(samples), samples.len()) == wave_file(samples),
{
    lemma_pcm_bytes_len(samples);
    let file = wave_header(stale) + pcm_bytes(samples);
    let done = checkpointed(file, samples.len());
    assert(done.len() == wave_file(samples).len());
    assert forall|i: int| 0 <= i < done.len() implies #[trigger] done[i] == wave_file(
        samples,
    )[i] by {
        if i >= 44 {
            assert(done[i] == pcm_bytes(samples)[i - 44]);
        }
    }
    assert(done =~= wave_file(samples));
}

/// Adding samples behind those of a file gives the audio of both.
pub proof fn law_appended_samples_extend_the_audio(samples: Seq<i16>, more: Seq<i16>, stale: u32)
    ensures
        wave_header(stale) + pcm_bytes(samples) + pcm_bytes(more) == wave_header(stale)
            + pcm_bytes(samples + more),
{
    lemma_pcm_bytes_add(samples, more);
    assert(wave_header(stale) + pcm_bytes(samples) + pcm_bytes(more) =~= wave_header(stale) + (
    pcm_bytes(samples) + pcm_bytes(more)));
}

/// A reader finds the sizes of a WAV file where the format puts them.
pub proof fn law_wave_sizes_can_be_read(samples: Seq<i16>)
    requires
        2 * samples.len() + 36 <= u32::MAX,
    ensures
        le_value(wave_file(samples).subrange(4, 8)) == wave_file(samples).len() - 8,
        le_value(wave_file(samples).subrange(40, 44)) == 2 * samples.len(),
        wave_file(samples).skip(44) == pcm_bytes(samples),
{
    let file = wave_file(samples);
    let data_bytes = (2 * samples.len()) as u32;
    lemma_pcm_bytes_len(samples);
    lemma_le_round_trip((36 + data_bytes) as u32);
    lemma_le_round_trip(data_bytes);
    assert(file.subrange(4, 8) =~= le_bytes((36 + data_bytes) as u32));
    assert(file.subrange(40, 44) =~= le_bytes(data_bytes));
    assert(file.skip(44) =~= pcm_bytes(samples));
}

/// The header of a WAV file says at its fixed places that it is one, how long it is, and that
/// its audio is uncompressed, has one channel, 16000 samples and 32000 bytes a second, 2 bytes
/// a frame and 16 bits a sample.
pub proof fn law_the_header_describes_the_audio(data_bytes: u32)
    requires
        36 + data_bytes <= u32::MAX,
    ensures
        ({
            let h = wave_header(data_bytes);
            &&& h.len() == 44
            &&& h[0] == 'R' as u8 && h[1] == 'I' as u8 && h[2] == 'F' as u8 && h[3] == 'F' as u8
            &&& h[4] + 256 * (h[5] + 256 * (h[6] + 256 * h[7])) == 36 + data_bytes
            &&& h[8] == 'W' as u8 && h[9] == 'A' as u8 && h[10] == 'V' as u8 && h[11] == 'E' as u8
            &&& h[12] == 'f' as u8 && h[13] == 'm' as u8 && h[14] == 't' as u8 && h[15]
                == ' ' as u8
            &&& h[16] + 256 * (h[17] + 256 * (h[18] + 256 * h[19])) == 16
            &&& h[20] + 256 * h[21] == 1
            &&& h[22] + 256 * h[23] == 1
            &&& h[24] + 256 * (h[25] + 256 * (h[26] + 256 * h[27])) == 16_000
            &&& h[28] + 256 * (h[29] + 256 * (h[30] + 256 * h[31])) == 32_000
            &&& h[32] + 256 * h[33] == 2
            &&& h[34] + 256 * h[35] == 16
            &&& h[36] == 'd' as u8 && h[37] == 'a' as u8 && h[38] == 't' as u8 && h[39] == 'a' as u8
            &&& h[40] + 256 * (h[41] + 256 * (h[42] + 256 * h[43])) == data_bytes
        }),
{
    let h = wave_header(data_bytes);
    assert(h.subrange(4, 8) =~= le_bytes((36 + data_bytes) as u32));
    assert(h.subrange(24, 28) =~= le_bytes(16_000));
    assert(h.subrange(28, 32) =~= le_bytes(32_000));
    assert(h.subrange(40, 44) =~= le_bytes(data_bytes));
}

/// A patch replaces the bytes at its place and leaves all others.
pub proof fn law_patches_stay_in_their_place(file: Seq<u8>, offset: int, bytes: Seq<u8>)
    requires
        0 <= offset,
        offset + bytes.len() <= file.len(),
    ensures
        patched(file, offset, bytes) == file.take(offset) + bytes + file.skip(
            offset + bytes.len(),
        ),
{
    assert(patched(file, offset, bytes) =~= file.take(offset) + bytes + file.skip(
        offset + bytes.len(),
    ));
}

/// The sizes cannot be told only where the audio fits into a WAV file and its header does not.
pub proof fn law_sizes_can_mostly_be_told(wave: WaveWriter)
    ensures
        !wave.sizes_computable() <==> 0xffff_ffff - 36 < 2 * wave.samples <= 0xffff_ffff,
{
}

} // verus!
