use ltc_lab::wav::{encode_wav_mono16, parse_wav, FmtChunk, WavError};

fn push_chunk(out: &mut Vec<u8>, id: &[u8; 4], body: &[u8]) {
    out.extend_from_slice(id);
    out.extend_from_slice(&(body.len() as u32).to_le_bytes());
    out.extend_from_slice(body);
    if body.len() % 2 == 1 {
        out.push(0);
    }
}

fn fmt_body(tag: u16, channels: u16, rate: u32, byte_rate: u32, align: u16, bits: u16) -> Vec<u8> {
    let mut b = Vec::new();
    b.extend_from_slice(&tag.to_le_bytes());
    b.extend_from_slice(&channels.to_le_bytes());
    b.extend_from_slice(&rate.to_le_bytes());
    b.extend_from_slice(&byte_rate.to_le_bytes());
    b.extend_from_slice(&align.to_le_bytes());
    b.extend_from_slice(&bits.to_le_bytes());
    b
}

fn riff(body: &[u8]) -> Vec<u8> {
    let mut file = Vec::new();
    file.extend_from_slice(b"RIFF");
    file.extend_from_slice(&(body.len() as u32).to_le_bytes());
    file.extend_from_slice(body);
    file
}

fn sample_bytes(samples: &[i16]) -> Vec<u8> {
    let mut b = Vec::new();
    for s in samples {
        b.extend_from_slice(&s.to_le_bytes());
    }
    b
}

#[test]
fn roundtrip_mono16() {
    let samples: Vec<i16> = (0..100).map(|i| (i * 37) as i16).collect();
    let file = encode_wav_mono16(&samples, 48_000);
    let (out, sr) = parse_wav(&file).unwrap();
    assert_eq!(sr, 48_000);
    assert_eq!(out, samples);
}

#[test]
fn extra_chunks_before_data_are_skipped() {
    // A chunk of odd length, the format, another chunk, then the data.
    let samples: [i16; 4] = [1, -2, 3, -4];
    let mut body = Vec::new();
    body.extend_from_slice(b"WAVE");
    push_chunk(&mut body, b"JUNK", &[0u8; 5]);
    push_chunk(&mut body, b"fmt ", &fmt_body(1, 1, 44_100, 88_200, 2, 16));
    push_chunk(&mut body, b"fact", &4u32.to_le_bytes());
    push_chunk(&mut body, b"data", &sample_bytes(&samples));
    let (out, sr) = parse_wav(&riff(&body)).unwrap();
    assert_eq!(sr, 44_100);
    assert_eq!(out, samples);
}

#[test]
fn stereo_keeps_first_channel_only() {
    let interleaved: [i16; 6] = [10, -10, 20, -20, 30, -30];
    let mut body = Vec::new();
    body.extend_from_slice(b"WAVE");
    push_chunk(&mut body, b"fmt ", &fmt_body(1, 2, 48_000, 192_000, 4, 16));
    push_chunk(&mut body, b"data", &sample_bytes(&interleaved));
    let (out, sr) = parse_wav(&riff(&body)).unwrap();
    assert_eq!(sr, 48_000);
    assert_eq!(out, vec![10, 20, 30]);
}

#[test]
fn empty_file_errors_without_panicking() {
    assert!(matches!(parse_wav(&[]), Err(WavError::Truncated(_))));
}

#[test]
fn short_garbage_errors_without_panicking() {
    assert!(matches!(parse_wav(&[1, 2, 3]), Err(WavError::Truncated(_))));
}

#[test]
fn bad_riff_magic_errors() {
    let mut file = vec![0u8; 44];
    file[0..4].copy_from_slice(b"OGGS");
    assert!(matches!(parse_wav(&file), Err(WavError::NotRiff)));
}

#[test]
fn bad_wave_magic_errors() {
    let mut file = vec![0u8; 44];
    file[0..4].copy_from_slice(b"RIFF");
    file[8..12].copy_from_slice(b"AVI ");
    assert!(matches!(parse_wav(&file), Err(WavError::NotWave)));
}

#[test]
fn missing_data_chunk_errors() {
    let mut body = Vec::new();
    body.extend_from_slice(b"WAVE");
    push_chunk(&mut body, b"fmt ", &fmt_body(1, 1, 48_000, 96_000, 2, 16));
    assert!(matches!(parse_wav(&riff(&body)), Err(WavError::MissingDataChunk)));
}

#[test]
fn unsupported_bit_depth_errors_cleanly() {
    let mut body = Vec::new();
    body.extend_from_slice(b"WAVE");
    push_chunk(&mut body, b"fmt ", &fmt_body(1, 1, 48_000, 144_000, 3, 24));
    push_chunk(&mut body, b"data", &[0u8; 6]);
    assert!(matches!(
        parse_wav(&riff(&body)),
        Err(WavError::UnsupportedFormat { bits_per_sample: 24, .. })
    ));
}

#[test]
fn truncated_data_chunk_is_clamped_not_panicking() {
    // The data chunk says 1000 bytes, and four are there.
    let mut body = Vec::new();
    body.extend_from_slice(b"WAVE");
    push_chunk(&mut body, b"fmt ", &fmt_body(1, 1, 48_000, 96_000, 2, 16));
    body.extend_from_slice(b"data");
    body.extend_from_slice(&1000u32.to_le_bytes());
    body.extend_from_slice(&[1, 0, 2, 0]);
    let (out, _) = parse_wav(&riff(&body)).unwrap();
    assert_eq!(out, vec![1, 2]);
}

#[test]
fn header_is_canonical() {
    let file = encode_wav_mono16(&[1, -2, i16::MIN, i16::MAX], 44_100);
    let mut expected = Vec::new();
    expected.extend_from_slice(b"RIFF");
    expected.extend_from_slice(&44u32.to_le_bytes());
    expected.extend_from_slice(b"WAVEfmt ");
    expected.extend_from_slice(&16u32.to_le_bytes());
    expected.extend_from_slice(&fmt_body(1, 1, 44_100, 88_200, 2, 16));
    expected.extend_from_slice(b"data");
    expected.extend_from_slice(&8u32.to_le_bytes());
    expected.extend_from_slice(&[1, 0, 0xfe, 0xff, 0x00, 0x80, 0xff, 0x7f]);
    assert_eq!(file, expected);
}

#[test]
fn a_cut_file_keeps_its_whole_samples() {
    let samples: [i16; 5] = [100, -200, 300, -400, 500];
    let file = encode_wav_mono16(&samples, 8000);
    for n in 44..=file.len() {
        let (out, sr) = parse_wav(&file[..n]).unwrap();
        assert_eq!(sr, 8000);
        assert_eq!(out, samples[..(n - 44) / 2]);
    }
    assert!(matches!(parse_wav(&file[..43]), Err(WavError::MissingDataChunk)));
    assert!(matches!(parse_wav(&file[..30]), Err(WavError::Truncated(_))));
    assert!(matches!(parse_wav(&file[..19]), Err(WavError::MissingFmtChunk)));
}

#[test]
fn of_two_chunks_the_later_counts() {
    let mut body = Vec::new();
    body.extend_from_slice(b"WAVE");
    push_chunk(&mut body, b"data", &sample_bytes(&[1]));
    push_chunk(&mut body, b"fmt ", &fmt_body(1, 1, 1000, 2000, 2, 16));
    push_chunk(&mut body, b"data", &sample_bytes(&[2, 3]));
    push_chunk(&mut body, b"fmt ", &fmt_body(1, 1, 2000, 4000, 2, 16));
    let (out, sr) = parse_wav(&riff(&body)).unwrap();
    assert_eq!(sr, 2000);
    assert_eq!(out, vec![2, 3]);
}

#[test]
fn extensible_format_is_read_from_its_extension() {
    let mut fmt = fmt_body(0xfffe, 1, 48_000, 96_000, 2, 16);
    fmt.extend_from_slice(&[22, 0, 16, 0, 0, 0, 0, 0, 1, 0]);
    let parsed = FmtChunk::parse(&fmt).unwrap();
    assert_eq!(parsed.format_tag, 1);
    assert_eq!(FmtChunk::parse(&fmt[..25]).unwrap().format_tag, 0xfffe);
    assert_eq!((parsed.channels, parsed.sample_rate, parsed.bits_per_sample), (1, 48_000, 16));
    assert!(matches!(FmtChunk::parse(&fmt[..15]), Err(WavError::Truncated(_))));
}

#[test]
fn three_channels_are_not_supported() {
    for channels in [0u16, 3] {
        let mut body = Vec::new();
        body.extend_from_slice(b"WAVE");
        push_chunk(&mut body, b"fmt ", &fmt_body(1, channels, 48_000, 288_000, 6, 16));
        push_chunk(&mut body, b"data", &[0u8; 12]);
        match parse_wav(&riff(&body)) {
            Err(WavError::UnsupportedFormat { format_tag: 1, channels: c, bits_per_sample: 16 }) => {
                assert_eq!(c, channels)
            }
            other => panic!("unexpected {other:?}"),
        }
    }
}

#[test]
fn wav_errors_say_what_is_wrong() {
    assert_eq!(WavError::NotRiff.to_string(), "not a RIFF file (missing \"RIFF\" magic)");
    assert_eq!(WavError::NotWave.to_string(), "not a WAVE file (missing \"WAVE\" magic)");
    assert_eq!(WavError::MissingFmtChunk.to_string(), "no \"fmt \" chunk found");
    assert_eq!(WavError::MissingDataChunk.to_string(), "no \"data\" chunk found");
    assert_eq!(
        parse_wav(&[]).unwrap_err().to_string(),
        "truncated or corrupt WAV: file shorter than RIFF header"
    );
    assert_eq!(
        FmtChunk::parse(&[]).err().unwrap().to_string(),
        "truncated or corrupt WAV: fmt chunk shorter than 16 bytes"
    );
    assert_eq!(
        WavError::UnsupportedFormat { format_tag: 3, channels: 2, bits_per_sample: 32 }.to_string(),
        "unsupported format (tag 3, 2 ch, 32-bit); only mono/stereo 16-bit PCM is supported"
    );
    let e = std::io::Error::new(std::io::ErrorKind::Other, "disk on fire");
    assert_eq!(WavError::from(e).to_string(), "disk on fire");
}

#[test]
fn a_data_size_of_0_means_all_that_is_present() {
    let mut body = Vec::new();
    body.extend_from_slice(b"WAVE");
    push_chunk(&mut body, b"fmt ", &fmt_body(1, 1, 48_000, 96_000, 2, 16));
    body.extend_from_slice(b"data");
    body.extend_from_slice(&0u32.to_le_bytes());
    assert_eq!(parse_wav(&riff(&body)).unwrap(), (vec![], 48_000));
    body.extend_from_slice(&[1, 0, 2, 0]);
    assert_eq!(body.len(), 40);
    assert_eq!(parse_wav(&riff(&body)).unwrap(), (vec![1, 2], 48_000));
    // A byte over, and a chunk behind, are read as samples too.
    body.push(3);
    assert_eq!(parse_wav(&riff(&body)).unwrap(), (vec![1, 2], 48_000));
    body.pop();
    push_chunk(&mut body, b"LIST", &[]);
    let list = [i16::from_le_bytes(*b"LI"), i16::from_le_bytes(*b"ST"), 0, 0];
    let (out, _) = parse_wav(&riff(&body)).unwrap();
    assert_eq!(out[..2], [1, 2]);
    assert_eq!(out[2..], list);
}

#[test]
fn only_the_data_chunk_may_leave_its_size_as_0() {
    let mut body = Vec::new();
    body.extend_from_slice(b"WAVE");
    push_chunk(&mut body, b"JUNK", &[]);
    push_chunk(&mut body, b"fmt ", &fmt_body(1, 1, 8000, 16_000, 2, 16));
    push_chunk(&mut body, b"fact", &[]);
    push_chunk(&mut body, b"data", &sample_bytes(&[7]));
    push_chunk(&mut body, b"LIST", &[0u8; 3]);
    assert_eq!(parse_wav(&riff(&body)).unwrap(), (vec![7], 8000));
}
