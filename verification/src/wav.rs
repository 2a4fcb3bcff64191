//! WAV files of 16-bit samples: a plain 44-byte header, then the samples.
//!
//! The header is the standard one without any channel layout, so that players number the channels
//! instead of naming them after loudspeakers.

use vstd::prelude::*;
use vstd::string::*;

use crate::text::{decimal, push_decimal};

verus! {

pub const HEADER_LEN: usize = 44;

/// A 16-bit number, lowest byte first.
pub open spec fn le2(n: int) -> Seq<u8> {
    seq![(n % 256) as u8, (n / 256 % 256) as u8]
}

/// A 32-bit number, lowest byte first.
pub open spec fn le4(n: int) -> Seq<u8> {
    seq![
        (n % 256) as u8,
        (n / 256 % 256) as u8,
        (n / 65536 % 256) as u8,
        (n / 16777216 % 256) as u8,
    ]
}

/// The number that two bytes hold.
pub open spec fn read_le2(bytes: Seq<u8>, at: int) -> int {
    bytes[at] + 256 * bytes[at + 1]
}

/// The number that four bytes hold.
pub open spec fn read_le4(bytes: Seq<u8>, at: int) -> int {
    bytes[at] + 256 * bytes[at + 1] + 65536 * bytes[at + 2] + 16777216 * bytes[at + 3]
}

/// The two's complement of a sample.
pub open spec fn sample_code(sample: i16) -> int {
    if sample < 0 {
        sample + 65536
    } else {
        sample as int
    }
}

/// The sample with a given two's complement.
pub open spec fn code_sample(code: int) -> i16 {
    if code >= 32768 {
        (code - 65536) as i16
    } else {
        code as i16
    }
}

/// The bytes of a run of samples.
pub open spec fn sample_bytes(samples: Seq<i16>) -> Seq<u8> {
    Seq::new(2 * samples.len(), |k: int| le2(sample_code(samples[k / 2]))[k % 2])
}

/// The samples that a run of bytes holds, an odd last byte left out.
pub open spec fn bytes_samples(bytes: Seq<u8>) -> Seq<i16> {
    Seq::new(bytes.len() / 2, |i: int| code_sample(read_le2(bytes, 2 * i)))
}

/// The opening of the file: its kind and its length behind this field.
pub open spec fn riff_chunk(riff_len: int) -> Seq<u8> {
    Seq::<u8>::empty() + seq![0x52u8, 0x49u8, 0x46u8, 0x46u8] + le4(riff_len) + seq![
        0x57u8,
        0x41u8,
        0x56u8,
        0x45u8,
    ]
}

/// The format: 16 bytes of it, uncompressed, with the channels, the rate, the bytes per second,
/// the bytes per frame and the bits per sample.
pub open spec fn fmt_chunk(channels: int, sample_rate: int) -> Seq<u8> {
    Seq::<u8>::empty() + seq![0x66u8, 0x6Du8, 0x74u8, 0x20u8] + le4(16) + le2(1) + le2(channels) + (
    Seq::<u8>::empty() + le4(sample_rate) + le4(sample_rate * channels * 2) + le2(channels * 2)
        + le2(16))
}

/// The opening of the samples: their length in bytes.
pub open spec fn data_chunk(data_len: int) -> Seq<u8> {
    Seq::<u8>::empty() + seq![0x64u8, 0x61u8, 0x74u8, 0x61u8] + le4(data_len)
}

/// The header of a file with `data_len` bytes of samples.
pub open spec fn header(channels: int, sample_rate: int, riff_len: int, data_len: int) -> Seq<u8> {
    riff_chunk(riff_len) + fmt_chunk(channels, sample_rate) + data_chunk(data_len)
}

/// The whole file of a finished recording.
pub open spec fn wav_file(channels: int, sample_rate: int, samples: Seq<i16>) -> Seq<u8> {
    header(channels, sample_rate, 36 + 2 * samples.len() as int, 2 * samples.len() as int) + sample_bytes(
        samples,
    )
}

/// Bytes written over those at a position.
pub open spec fn patched(file: Seq<u8>, at: int, bytes: Seq<u8>) -> Seq<u8> {
    Seq::new(
        file.len(),
        |k: int|
            if at <= k < at + bytes.len() {
                bytes[k - at]
            } else {
                file[k]
            },
    )
}

fn push_le2(out: &mut Vec<u8>, n: u16)
    ensures
        final(out)@ == old(out)@ + le2(n as int),
{
    let ghost before = out@;
    out.push((n % 256) as u8);
    out.push((n / 256) as u8);
    assert(out@ =~= before + le2(n as int));
}

fn push_le4(out: &mut Vec<u8>, n: u32)
    ensures
        final(out)@ == old(out)@ + le4(n as int),
{
    let ghost before = out@;
    out.push((n % 256) as u8);
    out.push((n / 256 % 256) as u8);
    out.push((n / 65536 % 256) as u8);
    out.push((n / 16777216) as u8);
    assert(out@ =~= before + le4(n as int));
}

fn push_tag(out: &mut Vec<u8>, a: u8, b: u8, c: u8, d: u8)
    ensures
        final(out)@ == old(out)@ + seq![a, b, c, d],
{
    let ghost before = out@;
    out.push(a);
    out.push(b);
    out.push(c);
    out.push(d);
    assert(out@ =~= before + seq![a, b, c, d]);
}

fn new_riff_chunk() -> (out: Vec<u8>)
    ensures
        out@ == riff_chunk(0),
{
    let mut out: Vec<u8> = Vec::new();
    push_tag(&mut out, 0x52, 0x49, 0x46, 0x46);
    push_le4(&mut out, 0);
    push_tag(&mut out, 0x57, 0x41, 0x56, 0x45);
    out
}

fn new_fmt_chunk(channels: u16, sample_rate: u32) -> (out: Vec<u8>)
    requires
        sample_rate * channels * 2 <= u32::MAX,
    ensures
        out@ == fmt_chunk(channels as int, sample_rate as int),
{
    let block_align: u32 = channels as u32 * 2;
    assert(sample_rate * block_align == sample_rate * channels * 2) by (nonlinear_arith)
        requires
            block_align == channels * 2,
    ;
    let byte_rate: u32 = sample_rate * block_align;
    let frame_bytes: u16 = (block_align % 65536) as u16;
    assert(le2(frame_bytes as int) =~= le2(channels * 2));
    let mut out: Vec<u8> = Vec::new();
    push_tag(&mut out, 0x66, 0x6D, 0x74, 0x20);
    push_le4(&mut out, 16);
    push_le2(&mut out, 1);
    push_le2(&mut out, channels);
    let mut rates = new_rates(sample_rate, byte_rate, frame_bytes);
    out.append(&mut rates);
    out
}

fn new_rates(sample_rate: u32, byte_rate: u32, frame_bytes: u16) -> (out: Vec<u8>)
    ensures
        out@ == Seq::<u8>::empty() + le4(sample_rate as int) + le4(byte_rate as int) + le2(
            frame_bytes as int,
        ) + le2(16),
{
    let mut out: Vec<u8> = Vec::new();
    push_le4(&mut out, sample_rate);
    push_le4(&mut out, byte_rate);
    push_le2(&mut out, frame_bytes);
    push_le2(&mut out, 16);
    out
}

fn new_data_chunk() -> (out: Vec<u8>)
    ensures
        out@ == data_chunk(0),
{
    let mut out: Vec<u8> = Vec::new();
    push_tag(&mut out, 0x64, 0x61, 0x74, 0x61);
    push_le4(&mut out, 0);
    out
}

/// The two bytes of a sample.
pub fn encode_sample(sample: i16) -> (bytes: [u8; 2])
    ensures
        bytes@ == le2(sample_code(sample)),
{
    let code: u16 = if sample >= 0 {
        sample as u16
    } else {
        (sample as i32 + 65536) as u16
    };
    let bytes = [(code % 256) as u8, (code / 256) as u8];
    assert(bytes@ =~= le2(sample_code(sample)));
    bytes
}

/// The bytes of a run of samples.
pub fn encode_samples(samples: &[i16]) -> (bytes: Vec<u8>)
    ensures
        bytes@ == sample_bytes(samples@),
{
    let mut bytes: Vec<u8> = Vec::new();
    for i in 0..samples.len()
        invariant
            bytes@.len() == 2 * i,
            forall|k: int|
                0 <= k < bytes@.len() ==> #[trigger] bytes@[k] == sample_bytes(samples@)[k],
    {
        let pair = encode_sample(samples[i]);
        bytes.push(pair[0]);
        bytes.push(pair[1]);
    }
    assert(bytes@ =~= sample_bytes(samples@));
    bytes
}

/// The samples that a run of bytes holds; an odd last byte is left out.
pub fn decode_samples(bytes: &[u8]) -> (samples: Vec<i16>)
    ensures
        samples@ == bytes_samples(bytes@),
{
    let mut samples: Vec<i16> = Vec::new();
    let length: usize = bytes.len();
    let count: usize = length / 2;
    for i in 0..count
        invariant
            length == bytes@.len(),
            count == length / 2,
            samples@.len() == i,
            forall|k: int|
                0 <= k < i ==> #[trigger] samples@[k] == code_sample(read_le2(bytes@, 2 * k)),
    {
        let code: i32 = bytes[2 * i] as i32 + 256 * (bytes[2 * i + 1] as i32);
        let sample: i16 = if code >= 32768 {
            (code - 65536) as i16
        } else {
            code as i16
        };
        samples.push(sample);
    }
    assert(samples@ =~= bytes_samples(bytes@));
    samples
}

/// Reading samples back gives the samples that were written.
pub proof fn law_samples_read_back(samples: Seq<i16>)
    ensures
        bytes_samples(sample_bytes(samples)) == samples,
{
    let bytes = sample_bytes(samples);
    assert forall|i: int| 0 <= i < samples.len() implies bytes_samples(bytes)[i] == samples[i] by {
        let code = sample_code(samples[i]);
        assert(bytes[2 * i] == le2(code)[0]);
        assert(bytes[2 * i + 1] == le2(code)[1]);
        assert(read_le2(bytes, 2 * i) == code);
    }
    assert(bytes_samples(bytes) =~= samples);
}

/// A finished file says what it holds: the format fields, both lengths and the samples.
pub proof fn law_file_describes_itself(channels: int, sample_rate: int, samples: Seq<i16>)
    requires
        0 <= channels < 32768,
        0 <= sample_rate <= u32::MAX,
        sample_rate * channels * 2 <= u32::MAX,
        36 + 2 * samples.len() <= u32::MAX,
    ensures
        ({
            let file = wav_file(channels, sample_rate, samples);
            &&& file.len() == HEADER_LEN + 2 * samples.len()
            &&& file.subrange(0, 4) == seq![0x52u8, 0x49u8, 0x46u8, 0x46u8]
            &&& read_le4(file, 4) == file.len() - 8
            &&& file.subrange(8, 12) == seq![0x57u8, 0x41u8, 0x56u8, 0x45u8]
            &&& read_le4(file, 16) == 16
            &&& read_le2(file, 20) == 1
            &&& read_le2(file, 22) == channels
            &&& read_le4(file, 24) == sample_rate
            &&& read_le4(file, 28) == sample_rate * channels * 2
            &&& read_le2(file, 32) == channels * 2
            &&& read_le2(file, 34) == 16
            &&& file.subrange(36, 40) == seq![0x64u8, 0x61u8, 0x74u8, 0x61u8]
            &&& read_le4(file, 40) == 2 * samples.len()
            &&& bytes_samples(file.skip(HEADER_LEN as int)) == samples
        }),
{
    let file = wav_file(channels, sample_rate, samples);
    let data_len = 2 * samples.len() as int;
    law_samples_read_back(samples);
    assert(0 <= sample_rate * channels * 2) by (nonlinear_arith)
        requires
            0 <= channels,
            0 <= sample_rate,
    ;
    let riff = riff_chunk(36 + data_len);
    let fmt = fmt_chunk(channels, sample_rate);
    let data = data_chunk(data_len);
    lemma_riff_chunk(36 + data_len);
    lemma_fmt_chunk(channels, sample_rate);
    lemma_data_chunk(data_len);
    assert(file.skip(HEADER_LEN as int) =~= sample_bytes(samples));
    assert(file.subrange(0, 12) =~= riff);
    assert(file.subrange(12, 36) =~= fmt);
    assert(file.subrange(36, 44) =~= data);
    assert(file.subrange(0, 4) =~= riff.subrange(0, 4));
    assert(file.subrange(8, 12) =~= riff.subrange(8, 12));
    assert(file.subrange(36, 40) =~= data.subrange(0, 4));
    lemma_read_part(file, 0, 12, 4);
    lemma_read_part(file, 12, 36, 4);
    lemma_read_part(file, 12, 36, 8);
    lemma_read_part(file, 12, 36, 10);
    lemma_read_part(file, 12, 36, 12);
    lemma_read_part(file, 12, 36, 16);
    lemma_read_part(file, 12, 36, 20);
    lemma_read_part(file, 12, 36, 22);
    lemma_read_part(file, 36, 44, 4);
}

proof fn lemma_read_part(file: Seq<u8>, from: int, to: int, at: int)
    requires
        0 <= from <= to <= file.len(),
        0 <= at,
        from + at + 2 <= to,
    ensures
        read_le2(file.subrange(from, to), at) == read_le2(file, from + at),
        from + at + 4 <= to ==> read_le4(file.subrange(from, to), at) == read_le4(file, from + at),
{
}

proof fn lemma_riff_chunk(riff_len: int)
    requires
        0 <= riff_len <= u32::MAX,
    ensures
        riff_chunk(riff_len).len() == 12,
        riff_chunk(riff_len).subrange(0, 4) == seq![0x52u8, 0x49u8, 0x46u8, 0x46u8],
        read_le4(riff_chunk(riff_len), 4) == riff_len,
        riff_chunk(riff_len).subrange(8, 12) == seq![0x57u8, 0x41u8, 0x56u8, 0x45u8],
{
    let c = riff_chunk(riff_len);
    assert(c.subrange(0, 4) =~= seq![0x52u8, 0x49u8, 0x46u8, 0x46u8]);
    assert(c.subrange(8, 12) =~= seq![0x57u8, 0x41u8, 0x56u8, 0x45u8]);
    assert(c.subrange(4, 8) =~= le4(riff_len));
    lemma_le4(riff_len);
    lemma_read_part(c, 4, 8, 0);
}

proof fn lemma_data_chunk(data_len: int)
    requires
        0 <= data_len <= u32::MAX,
    ensures
        data_chunk(data_len).len() == 8,
        data_chunk(data_len).subrange(0, 4) == seq![0x64u8, 0x61u8, 0x74u8, 0x61u8],
        read_le4(data_chunk(data_len), 4) == data_len,
{
    let c = data_chunk(data_len);
    assert(c.subrange(0, 4) =~= seq![0x64u8, 0x61u8, 0x74u8, 0x61u8]);
    assert(c.subrange(4, 8) =~= le4(data_len));
    lemma_le4(data_len);
    lemma_read_part(c, 4, 8, 0);
}

proof fn lemma_fmt_chunk(channels: int, sample_rate: int)
    requires
        0 <= channels < 32768,
        0 <= sample_rate <= u32::MAX,
        0 <= sample_rate * channels * 2 <= u32::MAX,
    ensures
        fmt_chunk(channels, sample_rate).len() == 24,
        read_le4(fmt_chunk(channels, sample_rate), 4) == 16,
        read_le2(fmt_chunk(channels, sample_rate), 8) == 1,
        read_le2(fmt_chunk(channels, sample_rate), 10) == channels,
        read_le4(fmt_chunk(channels, sample_rate), 12) == sample_rate,
        read_le4(fmt_chunk(channels, sample_rate), 16) == sample_rate * channels * 2,
        read_le2(fmt_chunk(channels, sample_rate), 20) == channels * 2,
        read_le2(fmt_chunk(channels, sample_rate), 22) == 16,
{
    let c = fmt_chunk(channels, sample_rate);
    let rate = sample_rate * channels * 2;
    assert(c.subrange(4, 8) =~= le4(16));
    assert(c.subrange(8, 10) =~= le2(1));
    assert(c.subrange(10, 12) =~= le2(channels));
    assert(c.subrange(12, 16) =~= le4(sample_rate));
    assert(c.subrange(16, 20) =~= le4(rate));
    assert(c.subrange(20, 22) =~= le2(channels * 2));
    assert(c.subrange(22, 24) =~= le2(16));
    lemma_le4(16);
    lemma_le4(sample_rate);
    lemma_le4(rate);
    lemma_le2(1);
    lemma_le2(channels);
    lemma_le2(channels * 2);
    lemma_le2(16);
    lemma_read_part(c, 4, 8, 0);
    lemma_read_part(c, 8, 10, 0);
    lemma_read_part(c, 10, 12, 0);
    lemma_read_part(c, 12, 16, 0);
    lemma_read_part(c, 16, 20, 0);
    lemma_read_part(c, 20, 22, 0);
    lemma_read_part(c, 22, 24, 0);
}

proof fn lemma_fmt_len(channels: int, sample_rate: int)
    ensures
        fmt_chunk(channels, sample_rate).len() == 24,
{
}

proof fn lemma_le2(n: int)
    requires
        0 <= n < 65536,
    ensures
        read_le2(le2(n), 0) == n,
{
}

proof fn lemma_le4(n: int)
    requires
        0 <= n <= u32::MAX,
    ensures
        read_le4(le4(n), 0) == n,
{
}

/// Bytes to write over those at a position of the file.
#[derive(Debug)]
pub struct Patch {
    pub offset: u64,
    pub bytes: Vec<u8>,
}

/// The account of a file that is being written.
#[derive(Debug)]
pub struct WavSink {
    pub data_bytes: u64,
    pub finalized: bool,
}

impl WavSink {
    /// A new file and its header, in which the lengths are still zero.
    pub fn create(channels: u16, sample_rate: u32) -> (created: (WavSink, Vec<u8>))
        requires
            sample_rate * channels * 2 <= u32::MAX,
        ensures
            created.0.data_bytes == 0,
            !created.0.finalized,
            created.1@ == header(channels as int, sample_rate as int, 0, 0),
            created.1@.len() == HEADER_LEN,
    {
        let mut out = new_riff_chunk();
        let mut fmt = new_fmt_chunk(channels, sample_rate);
        let mut data = new_data_chunk();
        proof {
            lemma_riff_chunk(0);
            lemma_fmt_len(channels as int, sample_rate as int);
            lemma_data_chunk(0);
        }
        out.append(&mut fmt);
        out.append(&mut data);
        (WavSink { data_bytes: 0, finalized: false }, out)
    }

    /// Counts a sample that has been written.
    pub fn write_sample(&mut self)
        requires
            old(self).data_bytes + 2 <= u64::MAX,
        ensures
            final(self).data_bytes == old(self).data_bytes + 2,
            final(self).finalized == old(self).finalized,
    {
        self.data_bytes = self.data_bytes + 2;
    }

    /// Appends the bytes of a run of samples and counts them.
    pub fn write_samples(&mut self, samples: &[i16], out: &mut Vec<u8>)
        requires
            old(self).data_bytes + 2 * samples@.len() <= u64::MAX,
        ensures
            final(self).data_bytes == old(self).data_bytes + 2 * samples@.len(),
            final(self).finalized == old(self).finalized,
            final(out)@ == old(out)@ + sample_bytes(samples@),
    {
        let mut bytes = encode_samples(samples);
        self.data_bytes = self.data_bytes + bytes.len() as u64;
        out.append(&mut bytes);
    }

    /// What is left to write to finish the file: the two lengths in the header, or nothing where
    /// that was done before. A file whose sample bytes a 32-bit length cannot count is refused.
    /// Lengths less than 36 bytes below that limit are left out: there the length of the whole
    /// file overflows.
    pub fn finalize(&self) -> (result: Result<Vec<Patch>, String>)
        requires
            self.finalized || self.data_bytes <= u32::MAX - 36 || self.data_bytes > u32::MAX,
        ensures
            match result {
                Ok(patches) => {
                    &&& self.finalized || self.data_bytes <= u32::MAX
                    &&& self.finalized ==> patches@.len() == 0
                    &&& !self.finalized ==> {
                        &&& patches@.len() == 2
                        &&& patches@[0].offset == 4
                        &&& patches@[0].bytes@ == le4(36 + self.data_bytes)
                        &&& patches@[1].offset == HEADER_LEN - 4
                        &&& patches@[1].bytes@ == le4(self.data_bytes as int)
                    }
                },
                Err(message) => {
                    &&& !self.finalized && self.data_bytes > u32::MAX
                    &&& message@ == "WAV 数据超过 4GB（"@ + decimal(self.data_bytes as nat)
                        + " bytes），标准 WAV 无法表示，请分段时间录制"@
                },
            },
    {
        let mut patches: Vec<Patch> = Vec::new();
        if self.finalized {
            return Ok(patches);
        }
        if self.data_bytes > u32::MAX as u64 {
            let mut message = "WAV 数据超过 4GB（".to_owned();
            push_decimal(&mut message, self.data_bytes);
            message.append(" bytes），标准 WAV 无法表示，请分段时间录制");
            return Err(message);
        }
        let data_len: u32 = self.data_bytes as u32;
        let mut riff: Vec<u8> = Vec::new();
        push_le4(&mut riff, 36 + data_len);
        let mut data: Vec<u8> = Vec::new();
        push_le4(&mut data, data_len);
        assert(riff@ =~= le4(36 + self.data_bytes));
        assert(data@ =~= le4(self.data_bytes as int));
        patches.push(Patch { offset: 4, bytes: riff });
        patches.push(Patch { offset: HEADER_LEN as u64 - 4, bytes: data });
        Ok(patches)
    }

    /// Notes that the lengths have been written.
    pub fn mark_finalized(&mut self)
        ensures
            final(self).finalized,
            final(self).data_bytes == old(self).data_bytes,
    {
        self.finalized = true;
    }
}

/// The header of a new file, the samples behind it and the lengths of `finalize` written over it
/// make the finished file.
pub proof fn law_finalized_file_is_complete(channels: int, sample_rate: int, samples: Seq<i16>)
    requires
        0 <= channels < 32768,
        0 <= sample_rate <= u32::MAX,
    ensures
        patched(
            patched(
                header(channels, sample_rate, 0, 0) + sample_bytes(samples),
                4,
                le4(36 + 2 * samples.len() as int),
            ),
            HEADER_LEN - 4,
            le4(2 * samples.len() as int),
        ) == wav_file(channels, sample_rate, samples),
{
    let data_len = 2 * samples.len() as int;
    let fmt = fmt_chunk(channels, sample_rate);
    let before = header(channels, sample_rate, 0, 0) + sample_bytes(samples);
    let first = patched(before, 4, le4(36 + data_len));
    let second = patched(first, HEADER_LEN - 4, le4(data_len));
    let file = wav_file(channels, sample_rate, samples);
    assert(before.subrange(0, 12) =~= riff_chunk(0));
    assert(before.subrange(12, 36) =~= fmt);
    assert(before.subrange(36, 44) =~= data_chunk(0));
    assert(second.subrange(0, 12) =~= riff_chunk(36 + data_len));
    assert(second.subrange(12, 36) =~= fmt) by {
        assert forall|k: int| 0 <= k < 24 implies second.subrange(12, 36)[k] == fmt[k] by {
            assert(before.subrange(12, 36)[k] == fmt[k]);
        }
    }
    assert(second.subrange(36, 44) =~= data_chunk(data_len));
    assert(second.skip(44) =~= sample_bytes(samples));
    assert(second =~= second.subrange(0, 12) + second.subrange(12, 36) + second.subrange(36, 44)
        + second.skip(44));
}

/// Numbers are written lowest byte first.
pub proof fn law_numbers_are_written_lowest_byte_first(n: int)
    ensures
        le2(n).len() == 2,
        0 <= n < 0x1_0000 ==> le2(n)[0] + 0x100 * le2(n)[1] == n,
        le4(n).len() == 4,
        0 <= n < 0x1_0000_0000 ==> le4(n)[0] + 0x100 * le4(n)[1] + 0x1_0000 * le4(n)[2]
            + 0x100_0000 * le4(n)[3] == n,
{
}

/// A sample takes two bytes, lowest first, that hold it modulo 2^16; and bytes are read that way.
pub proof fn law_samples_take_two_bytes(samples: Seq<i16>, bytes: Seq<u8>, i: int)
    ensures
        sample_bytes(samples).len() == 2 * samples.len(),
        0 <= i < samples.len() ==> {
            let code = sample_bytes(samples)[2 * i] + 0x100 * sample_bytes(samples)[2 * i + 1];
            code == samples[i] || code == samples[i] + 0x1_0000
        },
        bytes_samples(bytes).len() == bytes.len() / 2,
        0 <= i < bytes.len() / 2 ==> {
            let code = bytes[2 * i] + 0x100 * bytes[2 * i + 1];
            code == bytes_samples(bytes)[i] || code == bytes_samples(bytes)[i] + 0x1_0000
        },
{
    if 0 <= i < samples.len() {
        let code = sample_code(samples[i]);
        assert(sample_bytes(samples)[2 * i] == le2(code)[0]);
        assert(sample_bytes(samples)[2 * i + 1] == le2(code)[1]);
        law_numbers_are_written_lowest_byte_first(code);
    }
}

/// The header names its parts in order: `RIFF`, `WAVE`, `fmt ` and `data`.
pub proof fn law_header_names_its_parts(
    channels: int,
    sample_rate: int,
    riff_len: int,
    data_len: int,
)
    ensures
        ({
            let h = header(channels, sample_rate, riff_len, data_len);
            &&& h.len() == 44
            &&& h[0] == 'R' as u8 && h[1] == 'I' as u8 && h[2] == 'F' as u8 && h[3] == 'F' as u8
            &&& h[8] == 'W' as u8 && h[9] == 'A' as u8 && h[10] == 'V' as u8 && h[11] == 'E' as u8
            &&& h[12] == 'f' as u8 && h[13] == 'm' as u8 && h[14] == 't' as u8 && h[15] == ' ' as u8
            &&& h[36] == 'd' as u8 && h[37] == 'a' as u8 && h[38] == 't' as u8 && h[39] == 'a' as u8
        }),
{
    let h = header(channels, sample_rate, riff_len, data_len);
    let riff = riff_chunk(riff_len);
    let fmt = fmt_chunk(channels, sample_rate);
    let data = data_chunk(data_len);
    lemma_fmt_len(channels, sample_rate);
    assert(riff.len() == 12 && data.len() == 8);
    assert(forall|k: int| 0 <= k < 12 ==> h[k] == riff[k]);
    assert(forall|k: int| 0 <= k < 24 ==> h[12 + k] == fmt[k]);
    assert(forall|k: int| 0 <= k < 8 ==> h[36 + k] == data[k]);
    assert(h[12] == fmt[0] && h[13] == fmt[1] && h[14] == fmt[2] && h[15] == fmt[3]);
    assert(h[36] == data[0] && h[37] == data[1] && h[38] == data[2] && h[39] == data[3]);
}

} // verus!
