use respeaker_algo::wav::{decode_samples, encode_sample, encode_samples, WavSink, HEADER_LEN};
use std::io::Cursor;

fn file(channels: u16, samples: &[i16]) -> Vec<u8> {
    let (mut sink, mut bytes) = WavSink::create(channels, 16_000);
    sink.write_samples(samples, &mut bytes);
    for patch in sink.finalize().unwrap() {
        let at = patch.offset as usize;
        bytes[at..at + patch.bytes.len()].copy_from_slice(&patch.bytes);
    }
    sink.mark_finalized();
    assert!(sink.finalize().unwrap().is_empty());
    bytes
}

#[test]
fn roundtrip_readable() {
    let (mut sink, mut bytes) = WavSink::create(4, 16_000);
    for k in 0..4i16 {
        for c in 0..4i16 {
            bytes.extend_from_slice(&encode_sample(k * 10 + c));
            sink.write_sample();
        }
    }
    for patch in sink.finalize().unwrap() {
        let at = patch.offset as usize;
        bytes[at..at + patch.bytes.len()].copy_from_slice(&patch.bytes);
    }
    let mut r = hound::WavReader::new(Cursor::new(&bytes)).unwrap();
    let spec = r.spec();
    assert_eq!(spec.channels, 4);
    assert_eq!(spec.sample_rate, 16000);
    assert_eq!(spec.bits_per_sample, 16);
    assert_eq!(spec.sample_format, hound::SampleFormat::Int);
    let got: Vec<i16> = r.samples::<i16>().map(|s| s.unwrap()).collect();
    assert_eq!(got, vec![0, 1, 2, 3, 10, 11, 12, 13, 20, 21, 22, 23, 30, 31, 32, 33]);
}

#[test]
fn header_is_plain_waveformatex() {
    let bytes = file(4, &[1, 2, 3, 4]);
    assert_eq!(&bytes[16..20], &16u32.to_le_bytes());
    assert_eq!(&bytes[20..22], &[1, 0]);
    assert_eq!(&bytes[36..40], b"data");
}

#[test]
fn finalize_lengths_correct() {
    let bytes = file(2, &[7, 8, 9, 10]);
    assert_eq!(bytes.len(), HEADER_LEN as usize + 8);
    assert_eq!(u32::from_le_bytes(bytes[4..8].try_into().unwrap()), 44);
    assert_eq!(u32::from_le_bytes(bytes[40..44].try_into().unwrap()), 8);
}

#[test]
fn samples_are_little_endian() {
    for sample in [0i16, 1, -1, i16::MAX, i16::MIN, 0x1234] {
        assert_eq!(encode_sample(sample), sample.to_le_bytes());
    }
    let samples = vec![5i16, -7, i16::MIN, i16::MAX];
    let bytes = encode_samples(&samples);
    assert_eq!(decode_samples(&bytes), samples);
    assert_eq!(decode_samples(&bytes[..3]), samples[..1]);
}

#[test]
fn files_beyond_four_gigabytes_are_refused() {
    let sink = WavSink { data_bytes: 1 << 32, finalized: false };
    assert_eq!(
        sink.finalize().unwrap_err(),
        "WAV 数据超过 4GB（4294967296 bytes），标准 WAV 无法表示，请分段时间录制"
    );
    let largest = WavSink { data_bytes: u32::MAX as u64 - 36, finalized: false };
    let patches = largest.finalize().unwrap();
    assert_eq!(patches[0].bytes, u32::MAX.to_le_bytes());
}

#[test]
fn headers_hold_the_rates() {
    let (_, bytes) = WavSink::create(6, 16_000);
    assert_eq!(u16::from_le_bytes(bytes[22..24].try_into().unwrap()), 6);
    assert_eq!(u32::from_le_bytes(bytes[24..28].try_into().unwrap()), 16_000);
    assert_eq!(u32::from_le_bytes(bytes[28..32].try_into().unwrap()), 192_000);
    assert_eq!(u16::from_le_bytes(bytes[32..34].try_into().unwrap()), 12);
    assert_eq!(u16::from_le_bytes(bytes[34..36].try_into().unwrap()), 16);
    assert_eq!(&bytes[0..4], b"RIFF");
    assert_eq!(&bytes[8..16], b"WAVEfmt ");
}
