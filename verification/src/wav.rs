//! WAV files: writing mono 16-bit PCM, and reading mono or stereo 16-bit PCM.
//!
//! Writing produces a canonical header of 44 bytes and no extra chunks. Reading walks the RIFF
//! chunks, so that files with other chunks before `data` are read too. Every input gives samples
//! or a `WavError`. Of a stereo file the first channel is kept, since LTC is by convention
//! recorded on one channel. Other formats are rejected.

use vstd::prelude::*;
use vstd::slice::slice_subrange;

use crate::text::{decimal, push_decimal};

verus! {

/// "RIFF"
pub const RIFF: [u8; 4] = [0x52, 0x49, 0x46, 0x46];

/// "WAVE"
pub const WAVE: [u8; 4] = [0x57, 0x41, 0x56, 0x45];

/// "fmt "
pub const FMT: [u8; 4] = [0x66, 0x6d, 0x74, 0x20];

/// "data"
pub const DATA: [u8; 4] = [0x64, 0x61, 0x74, 0x61];

/// `std::io::Error`, carried through unread.
#[verifier::external_type_specification]
#[verifier::external_body]
pub struct ExIoError(std::io::Error);

/// Why a file was not read.
#[derive(Debug)]
pub enum WavError {
    Io(std::io::Error),
    NotRiff,
    NotWave,
    MissingFmtChunk,
    MissingDataChunk,
    Truncated(&'static str),
    UnsupportedFormat { format_tag: u16, channels: u16, bits_per_sample: u16 },
}

/// What a `fmt ` chunk says of the samples.
pub struct FmtChunk {
    pub format_tag: u16,
    pub channels: u16,
    pub sample_rate: u32,
    pub bits_per_sample: u16,
}

/// A chunk of a RIFF file: its four-byte name and its body.
pub struct Chunk {
    pub id: Seq<u8>,
    pub body: Seq<u8>,
}

/// The little-endian number in the two bytes at `i`.
pub open spec fn le16(b: Seq<u8>, i: int) -> nat {
    (b[i] + 256 * b[i + 1]) as nat
}

/// The little-endian number in the four bytes at `i`.
pub open spec fn le32(b: Seq<u8>, i: int) -> nat {
    (b[i] + 256 * b[i + 1] + 65536 * b[i + 2] + 16777216 * b[i + 3]) as nat
}

/// The signed number that a 16-bit pattern stands for in two's complement.
pub open spec fn signed16(v: nat) -> i16 {
    if v < 32768 {
        v as i16
    } else {
        (v - 65536) as i16
    }
}

/// What the body of a `fmt ` chunk of 16 bytes or more says. In the extensible format the real
/// tag is in bytes 24 and 25, where the chunk is long enough to have them.
pub open spec fn fmt_of(body: Seq<u8>) -> FmtChunk {
    FmtChunk {
        format_tag: (if le16(body, 0) == 0xfffe && body.len() >= 26 {
            le16(body, 24)
        } else {
            le16(body, 0)
        }) as u16,
        channels: le16(body, 2) as u16,
        sample_rate: le32(body, 4) as u32,
        bits_per_sample: le16(body, 14) as u16,
    }
}

/// The length of the body of the chunk at `pos`: the length that it declares. A `data` chunk that
/// declares 0 has all that is present, since encoders that stream their samples leave its length
/// as 0; whatever follows such a chunk is read as samples.
pub open spec fn body_length(buf: Seq<u8>, pos: int) -> int {
    if buf.subrange(pos, pos + 4) == DATA@ && le32(buf, pos + 4) == 0 {
        buf.len() - (pos + 8)
    } else {
        le32(buf, pos + 4) as int
    }
}

/// The chunks of a file from `pos` on. A chunk has a name, a length and a body; a body of odd
/// length is followed by one pad byte. A body that would run off the end of the file is cut off
/// there, and is the last.
pub open spec fn chunks(buf: Seq<u8>, pos: int) -> Seq<Chunk>
    decreases buf.len() + 1 - pos,
{
    if pos < 0 || pos + 8 > buf.len() {
        Seq::empty()
    } else {
        let length = body_length(buf, pos);
        let available = buf.len() - (pos + 8);
        let id = buf.subrange(pos, pos + 4);
        if length > available {
            seq![Chunk { id, body: buf.subrange(pos + 8, buf.len() as int) }]
        } else {
            seq![Chunk { id, body: buf.subrange(pos + 8, pos + 8 + length) }] + chunks(
                buf,
                pos + 8 + length + length % 2,
            )
        }
    }
}

/// The body of the last chunk with the name `id`.
pub open spec fn last_body(cs: Seq<Chunk>, id: Seq<u8>) -> Option<Seq<u8>>
    decreases cs.len(),
{
    if cs.len() == 0 {
        None
    } else if cs.last().id == id {
        Some(cs.last().body)
    } else {
        last_body(cs.drop_last(), id)
    }
}

/// Some `fmt ` chunk is too short.
pub open spec fn has_short_fmt(cs: Seq<Chunk>) -> bool {
    exists|i: int| 0 <= i < cs.len() && (#[trigger] cs[i]).id == FMT@ && cs[i].body.len() < 16
}

/// The samples of the first channel, where the samples of all channels for one moment take
/// `frame_bytes` bytes.
pub open spec fn first_channel(data: Seq<u8>, frame_bytes: nat) -> Seq<i16> {
    Seq::new(data.len() / frame_bytes, |k: int| signed16(le16(data, k * frame_bytes)))
}

/// 16-bit PCM in one or two channels.
pub open spec fn supported(fmt: FmtChunk) -> bool {
    fmt.format_tag == 1 && fmt.bits_per_sample == 16 && 1 <= fmt.channels <= 2
}

/// What the chunks of a file hold: the samples of the first channel and the sample rate, or why
/// they cannot be had.
pub open spec fn parsed_chunks(cs: Seq<Chunk>) -> Result<(Seq<i16>, u32), WavError> {
    if has_short_fmt(cs) {
        Err(WavError::Truncated("fmt chunk shorter than 16 bytes"))
    } else if last_body(cs, FMT@) is None {
        Err(WavError::MissingFmtChunk)
    } else if last_body(cs, DATA@) is None {
        Err(WavError::MissingDataChunk)
    } else {
        let fmt = fmt_of(last_body(cs, FMT@)->0);
        if supported(fmt) {
            Ok(
                (
                    first_channel(last_body(cs, DATA@)->0, (2 * fmt.channels) as nat),
                    fmt.sample_rate,
                ),
            )
        } else {
            Err(
                WavError::UnsupportedFormat {
                    format_tag: fmt.format_tag,
                    channels: fmt.channels,
                    bits_per_sample: fmt.bits_per_sample,
                },
            )
        }
    }
}

/// What a file holds: the samples of the first channel and the sample rate, or why they cannot
/// be had.
pub open spec fn parsed_wav(buf: Seq<u8>) -> Result<(Seq<i16>, u32), WavError> {
    if buf.len() < 12 {
        Err(WavError::Truncated("file shorter than RIFF header"))
    } else if buf.subrange(0, 4) != RIFF@ {
        Err(WavError::NotRiff)
    } else if buf.subrange(8, 12) != WAVE@ {
        Err(WavError::NotWave)
    } else {
        parsed_chunks(chunks(buf, 12))
    }
}

fn read_le16(b: &[u8], i: usize) -> (r: u16)
    requires
        i + 2 <= b.len(),
    ensures
        r == le16(b@, i as int),
{
    b[i] as u16 + 256 * b[i + 1] as u16
}

fn read_le32(b: &[u8], i: usize) -> (r: u32)
    requires
        i + 4 <= b.len(),
    ensures
        r == le32(b@, i as int),
{
    b[i] as u32 + 256 * b[i + 1] as u32 + 65536 * b[i + 2] as u32 + 16777216 * b[i + 3] as u32
}

/// Whether the four bytes at `i` are `id`.
fn id_is(b: &[u8], i: usize, id: &[u8; 4]) -> (r: bool)
    requires
        i + 4 <= b.len(),
    ensures
        r == (b@.subrange(i as int, i + 4) == id@),
{
    let r: bool = b[i] == id[0] && b[i + 1] == id[1] && b[i + 2] == id[2] && b[i + 3] == id[3];
    proof {
        let s = b@.subrange(i as int, i + 4);
        if r {
            assert(s =~= id@);
        } else {
            assert(s[0] == b@[i as int] && s[1] == b@[i + 1] && s[2] == b@[i + 2] && s[3] == b@[i
                + 3]);
        }
    }
    r
}

impl FmtChunk {
    /// Reads the body of a `fmt ` chunk: its base fields and, where it is in the extensible
    /// format, the tag of its subformat.
    pub fn parse(body: &[u8]) -> (r: Result<FmtChunk, WavError>)
        ensures
            match r {
                Ok(fmt) => body.len() >= 16 && fmt == fmt_of(body@),
                Err(e) => body.len() < 16 && e == WavError::Truncated(
                    "fmt chunk shorter than 16 bytes",
                ),
            },
    {
        if body.len() < 16 {
            return Err(WavError::Truncated("fmt chunk shorter than 16 bytes"));
        }
        let mut format_tag: u16 = read_le16(body, 0);
        if format_tag == 0xfffe && body.len() >= 26 {
            format_tag = read_le16(body, 24);
        }
        Ok(
            FmtChunk {
                format_tag,
                channels: read_le16(body, 2),
                sample_rate: read_le32(body, 4),
                bits_per_sample: read_le16(body, 14),
            },
        )
    }
}

/// The samples of the first channel.
fn read_first_channel(data: &[u8], frame_bytes: usize) -> (samples: Vec<i16>)
    requires
        frame_bytes >= 2,
    ensures
        samples@ == first_channel(data@, frame_bytes as nat),
{
    let mut samples: Vec<i16> = Vec::new();
    let n: usize = data.len() / frame_bytes;
    let mut i: usize = 0;
    let mut k: usize = 0;
    while k < n
        invariant
            k <= n,
            n == data.len() / frame_bytes,
            frame_bytes >= 2,
            i == k * frame_bytes,
            samples@ =~= first_channel(data@, frame_bytes as nat).take(k as int),
        decreases n - k,
    {
        assert((k + 1) * frame_bytes <= n * frame_bytes <= data.len()) by (nonlinear_arith)
            requires
                k + 1 <= n,
                n == data.len() / frame_bytes,
                frame_bytes >= 2,
        ;
        assert((k + 1) * frame_bytes == k * frame_bytes + frame_bytes) by (nonlinear_arith);
        let v: u16 = read_le16(data, i);
        let s: i16 = if v < 32768 {
            v as i16
        } else {
            (v as i32 - 65536) as i16
        };
        samples.push(s);
        i += frame_bytes;
        k += 1;
    }
    samples
}

proof fn lemma_last_body_push(cs: Seq<Chunk>, c: Chunk, id: Seq<u8>)
    ensures
        last_body(cs.push(c), id) == if c.id == id {
            Some(c.body)
        } else {
            last_body(cs, id)
        },
{
    assert(cs.push(c).drop_last() == cs);
}

/// Reads a file: the samples of the first channel and the sample rate. Where the `data` chunk
/// declares a length of 0, whatever follows it is read as samples.
pub fn parse_wav(buf: &[u8]) -> (r: Result<(Vec<i16>, u32), WavError>)
    ensures
        match r {
            Ok((samples, rate)) => parsed_wav(buf@) == Ok::<(Seq<i16>, u32), WavError>(
                (samples@, rate),
            ),
            Err(e) => parsed_wav(buf@) == Err::<(Seq<i16>, u32), WavError>(e),
        },
{
    if buf.len() < 12 {
        return Err(WavError::Truncated("file shorter than RIFF header"));
    }
    if !id_is(buf, 0, &RIFF) {
        return Err(WavError::NotRiff);
    }
    if !id_is(buf, 8, &WAVE) {
        return Err(WavError::NotWave);
    }
    let ghost all = chunks(buf@, 12);
    let ghost mut done: Seq<Chunk> = Seq::empty();
    let mut fmt: Option<FmtChunk> = None;
    let mut data: Option<(usize, usize)> = None;
    let mut pos: usize = 12;
    assert(done + all == all);
    while pos <= buf.len() && buf.len() - pos >= 8
        invariant_except_break
            done + chunks(buf@, pos as int) == all,
        invariant
            all == chunks(buf@, 12),
            !has_short_fmt(done),
            match fmt {
                Some(f) => last_body(done, FMT@) is Some && f == fmt_of(last_body(done, FMT@)->0),
                None => last_body(done, FMT@) is None,
            },
            match data {
                Some((a, b)) => a <= b <= buf.len() && last_body(done, DATA@) == Some(
                    buf@.subrange(a as int, b as int),
                ),
                None => last_body(done, DATA@) is None,
            },
            buf.len() >= 12,
            buf@.subrange(0, 4) == RIFF@,
            buf@.subrange(8, 12) == WAVE@,
        ensures
            done == all,
        decreases buf.len() + 1 - pos,
    {
        let declared: usize = read_le32(buf, pos + 4) as usize;
        let start: usize = pos + 8;
        let available: usize = buf.len() - start;
        let is_data: bool = id_is(buf, pos, &DATA);
        let length: usize = if is_data && declared == 0 {
            available
        } else {
            declared
        };
        assert(length == body_length(buf@, pos as int));
        let size: usize = if length < available {
            length
        } else {
            available
        };
        let end: usize = start + size;
        let ghost chunk = Chunk {
            id: buf@.subrange(pos as int, pos + 4),
            body: buf@.subrange(start as int, end as int),
        };
        let ghost next = pos + 8 + length + length % 2;
        proof {
            assert(chunks(buf@, pos as int).first() == chunk);
            lemma_last_body_push(done, chunk, FMT@);
            lemma_last_body_push(done, chunk, DATA@);
            assert(FMT@[0] != DATA@[0]);
        }
        if id_is(buf, pos, &FMT) {
            match FmtChunk::parse(slice_subrange(buf, start, end)) {
                Ok(f) => {
                    fmt = Some(f);
                },
                Err(e) => {
                    proof {
                        assert(all[done.len() as int] == chunk);
                        assert(has_short_fmt(all));
                    }
                    return Err(e);
                },
            }
        } else if is_data {
            data = Some((start, end));
        }
        proof {
            let old_done = done;
            done = done.push(chunk);
            assert(!has_short_fmt(done)) by {
                assert forall|i: int| 0 <= i < done.len() && (#[trigger] done[i]).id
                    == FMT@ implies done[i].body.len() >= 16 by {
                    if i < old_done.len() {
                        assert(done[i] == old_done[i]);
                    }
                }
            }
            if length > available {
                assert(done == all);
            } else {
                assert(done + chunks(buf@, next) == all);
            }
        }
        if length > available || end == buf.len() {
            proof {
                if length <= available {
                    assert(chunks(buf@, next) == Seq::<Chunk>::empty());
                    assert(done == all);
                }
            }
            break;
        }
        pos = end + length % 2;
    }
    let fmt: FmtChunk = match fmt {
        Some(f) => f,
        None => return Err(WavError::MissingFmtChunk),
    };
    let (start, end): (usize, usize) = match data {
        Some(range) => range,
        None => return Err(WavError::MissingDataChunk),
    };
    if fmt.format_tag != 1 || fmt.bits_per_sample != 16 || fmt.channels < 1 || fmt.channels > 2 {
        return Err(
            WavError::UnsupportedFormat {
                format_tag: fmt.format_tag,
                channels: fmt.channels,
                bits_per_sample: fmt.bits_per_sample,
            },
        );
    }
    let samples: Vec<i16> = read_first_channel(
        slice_subrange(buf, start, end),
        2 * fmt.channels as usize,
    );
    Ok((samples, fmt.sample_rate))
}

/// `v` in two bytes, little-endian.
pub open spec fn le16_bytes(v: nat) -> Seq<u8> {
    seq![(v % 256) as u8, (v / 256 % 256) as u8]
}

/// `v` in four bytes, little-endian.
pub open spec fn le32_bytes(v: nat) -> Seq<u8> {
    seq![
        (v % 256) as u8,
        (v / 256 % 256) as u8,
        (v / 65536 % 256) as u8,
        (v / 16777216 % 256) as u8,
    ]
}

/// The 16-bit pattern of `s` in two's complement.
pub open spec fn pattern16(s: i16) -> nat {
    if s < 0 {
        (s + 65536) as nat
    } else {
        s as nat
    }
}

/// The samples in two bytes each, little-endian.
pub open spec fn sample_bytes(samples: Seq<i16>) -> Seq<u8> {
    Seq::new(2 * samples.len(), |i: int| le16_bytes(pattern16(samples[i / 2]))[i % 2])
}

/// The length in bytes of the samples as the header gives it: in 32 bits.
pub open spec fn data_length(samples: Seq<i16>) -> nat {
    (2 * samples.len()) % 0x1_0000_0000
}

/// The header of a file with mono 16-bit PCM.
pub open spec fn wav_header(data_len: nat, sample_rate: nat) -> Seq<u8> {
    RIFF@ + le32_bytes(36 + data_len) + WAVE@ + FMT@ + le32_bytes(16) + le16_bytes(1) + le16_bytes(1)
        + le32_bytes(sample_rate) + le32_bytes(2 * sample_rate) + le16_bytes(2) + le16_bytes(16)
        + DATA@ + le32_bytes(data_len)
}

/// A file with mono 16-bit PCM.
pub open spec fn wav_file(samples: Seq<i16>, sample_rate: nat) -> Seq<u8> {
    wav_header(data_length(samples), sample_rate) + sample_bytes(samples)
}

fn push_id(out: &mut Vec<u8>, id: &[u8; 4])
    ensures
        final(out)@ == old(out)@ + id@,
{
    out.push(id[0]);
    out.push(id[1]);
    out.push(id[2]);
    out.push(id[3]);
    assert(out@ =~= old(out)@ + id@);
}

fn push_le16(out: &mut Vec<u8>, v: u16)
    ensures
        final(out)@ == old(out)@ + le16_bytes(v as nat),
{
    out.push((v % 256) as u8);
    out.push((v / 256 % 256) as u8);
    assert(out@ =~= old(out)@ + le16_bytes(v as nat));
}

fn push_le32(out: &mut Vec<u8>, v: u32)
    ensures
        final(out)@ == old(out)@ + le32_bytes(v as nat),
{
    out.push((v % 256) as u8);
    out.push((v / 256 % 256) as u8);
    out.push((v / 65536 % 256) as u8);
    out.push((v / 16777216 % 256) as u8);
    assert(out@ =~= old(out)@ + le32_bytes(v as nat));
}

/// The bytes of a file that holds `samples` as mono 16-bit PCM.
pub fn encode_wav_mono16(samples: &[i16], sample_rate: u32) -> (out: Vec<u8>)
    requires
        36 + data_length(samples@) <= u32::MAX,
        2 * sample_rate <= u32::MAX,
    ensures
        out@ == wav_file(samples@, sample_rate as nat),
{
    let data_len: u32 = ((samples.len() as u128 * 2) % 0x1_0000_0000) as u32;
    let mut out: Vec<u8> = Vec::new();
    push_id(&mut out, &RIFF);
    push_le32(&mut out, 36 + data_len);
    push_id(&mut out, &WAVE);
    push_id(&mut out, &FMT);
    push_le32(&mut out, 16);
    push_le16(&mut out, 1);
    push_le16(&mut out, 1);
    push_le32(&mut out, sample_rate);
    push_le32(&mut out, sample_rate * 2);
    push_le16(&mut out, 2);
    push_le16(&mut out, 16);
    push_id(&mut out, &DATA);
    push_le32(&mut out, data_len);
    assert(out@ =~= wav_header(data_length(samples@), sample_rate as nat));
    let ghost header = out@;
    let mut i: usize = 0;
    while i < samples.len()
        invariant
            i <= samples.len(),
            out@ =~= header + sample_bytes(samples@).take(2 * i),
        decreases samples.len() - i,
    {
        let s: i16 = samples[i];
        let v: u16 = if s < 0 {
            (s as i32 + 65536) as u16
        } else {
            s as u16
        };
        push_le16(&mut out, v);
        i += 1;
    }
    assert(sample_bytes(samples@).take(2 * samples@.len() as int) == sample_bytes(samples@));
    out
}

/// The text of an `std::io::Error`, as its `Display` gives it. It rests on the operating system,
/// so nothing is said of it.
#[verifier::external_body]
fn io_text(e: &std::io::Error) -> String {
    e.to_string()
}

impl WavError {
    /// What the error says, apart from the text of an I/O error, which is the system's.
    pub open spec fn text(self) -> Seq<char> {
        match self {
            WavError::Io(_) => Seq::empty(),
            WavError::NotRiff => "not a RIFF file (missing \"RIFF\" magic)"@,
            WavError::NotWave => "not a WAVE file (missing \"WAVE\" magic)"@,
            WavError::MissingFmtChunk => "no \"fmt \" chunk found"@,
            WavError::MissingDataChunk => "no \"data\" chunk found"@,
            WavError::Truncated(what) => "truncated or corrupt WAV: "@ + what@,
            WavError::UnsupportedFormat { format_tag, channels, bits_per_sample } => {
                "unsupported format (tag "@ + decimal(format_tag as nat) + ", "@ + decimal(
                    channels as nat,
                ) + " ch, "@ + decimal(bits_per_sample as nat)
                    + "-bit); only mono/stereo 16-bit PCM is supported"@
            },
        }
    }

    /// What went wrong, in words. The words of an I/O error are the system's own.
    pub fn to_string(&self) -> (r: String)
        ensures
            !(self is Io) ==> r@ == self.text(),
    {
        match self {
            WavError::Io(e) => io_text(e),
            WavError::NotRiff => "not a RIFF file (missing \"RIFF\" magic)".to_owned(),
            WavError::NotWave => "not a WAVE file (missing \"WAVE\" magic)".to_owned(),
            WavError::MissingFmtChunk => "no \"fmt \" chunk found".to_owned(),
            WavError::MissingDataChunk => "no \"data\" chunk found".to_owned(),
            WavError::Truncated(what) => {
                let mut m: String = "truncated or corrupt WAV: ".to_owned();
                m.append(what);
                m
            },
            WavError::UnsupportedFormat { format_tag, channels, bits_per_sample } => {
                let mut m: String = "unsupported format (tag ".to_owned();
                push_decimal(&mut m, *format_tag as u64);
                m.append(", ");
                push_decimal(&mut m, *channels as u64);
                m.append(" ch, ");
                push_decimal(&mut m, *bits_per_sample as u64);
                m.append("-bit); only mono/stereo 16-bit PCM is supported");
                m
            },
        }
    }
}

impl vstd::std_specs::convert::FromSpecImpl<std::io::Error> for WavError {
    open spec fn obeys_from_spec() -> bool {
        true
    }

    open spec fn from_spec(e: std::io::Error) -> Self {
        WavError::Io(e)
    }
}

impl From<std::io::Error> for WavError {
    fn from(e: std::io::Error) -> Self {
        WavError::Io(e)
    }
}

proof fn lemma_le32_reads_back(b: Seq<u8>, i: int, v: nat)
    requires
        0 <= i,
        i + 4 <= b.len(),
        v <= u32::MAX,
        b[i] == le32_bytes(v)[0],
        b[i + 1] == le32_bytes(v)[1],
        b[i + 2] == le32_bytes(v)[2],
        b[i + 3] == le32_bytes(v)[3],
    ensures
        le32(b, i) == v,
{
}

proof fn lemma_sample_reads_back(s: i16)
    ensures
        signed16((le16_bytes(pattern16(s))[0] + 256 * le16_bytes(pattern16(s))[1]) as nat) == s,
{
}

// A file with mono 16-bit PCM whose header gives `len` as the length of the samples.
spec fn file_with_length(len: nat, samples: Seq<i16>, rate: nat) -> Seq<u8> {
    wav_header(len, rate) + sample_bytes(samples)
}

// The length of the samples is given as it is, or as 0.
spec fn length_given(len: nat, samples: Seq<i16>) -> bool {
    (len == 2 * samples.len() && 36 + len <= u32::MAX) || len == 0
}

// The chunks of a file that was cut off behind its header.
proof fn lemma_cut_chunks(len: nat, samples: Seq<i16>, rate: nat, n: int)
    requires
        length_given(len, samples),
        2 * rate <= u32::MAX,
        44 <= n <= 44 + 2 * samples.len(),
    ensures
        ({
            let buf = file_with_length(len, samples, rate).take(n);
            &&& buf.len() == n
            &&& buf.subrange(0, 4) == RIFF@
            &&& buf.subrange(8, 12) == WAVE@
            &&& chunks(buf, 12) == seq![
                Chunk { id: FMT@, body: buf.subrange(20, 36) },
                Chunk { id: DATA@, body: buf.subrange(44, n) },
            ]
        }),
{
    let buf = file_with_length(len, samples, rate).take(n);
    assert(wav_header(len, rate).len() == 44);
    assert(buf.subrange(0, 4) =~= RIFF@);
    assert(buf.subrange(8, 12) =~= WAVE@);
    assert(buf.subrange(12, 16) =~= FMT@);
    assert(buf.subrange(36, 40) =~= DATA@);
    assert(FMT@[0] != DATA@[0]);
    lemma_le32_reads_back(buf, 16, 16);
    lemma_le32_reads_back(buf, 40, len);
    let fmt_chunk = Chunk { id: FMT@, body: buf.subrange(20, 36) };
    let data_chunk = Chunk { id: DATA@, body: buf.subrange(44, n) };
    assert(chunks(buf, 36) =~= seq![data_chunk]) by {
        reveal_with_fuel(chunks, 2);
    }
    assert(chunks(buf, 12) =~= seq![fmt_chunk, data_chunk]);
}

// The format of a file that was cut off behind its header.
proof fn lemma_cut_format(len: nat, samples: Seq<i16>, rate: nat, n: int)
    requires
        2 * rate <= u32::MAX,
        44 <= n <= 44 + 2 * samples.len(),
    ensures
        ({
            let body = file_with_length(len, samples, rate).take(n).subrange(20, 36);
            &&& body.len() == 16
            &&& le16(body, 0) == 1
            &&& le16(body, 2) == 1
            &&& le32(body, 4) == rate
            &&& le16(body, 14) == 16
        }),
{
    let body = file_with_length(len, samples, rate).take(n).subrange(20, 36);
    assert(wav_header(len, rate).len() == 44);
    lemma_le32_reads_back(body, 4, rate);
}

// The samples of a file that was cut off behind its header.
proof fn lemma_cut_samples(len: nat, samples: Seq<i16>, rate: nat, n: int)
    requires
        44 <= n <= 44 + 2 * samples.len(),
    ensures
        first_channel(file_with_length(len, samples, rate).take(n).subrange(44, n), 2)
            == samples.take((n - 44) / 2),
{
    let body = file_with_length(len, samples, rate).take(n).subrange(44, n);
    assert(wav_header(len, rate).len() == 44);
    let got = first_channel(body, 2);
    let want = samples.take((n - 44) / 2);
    assert forall|k: int| 0 <= k < want.len() implies got[k] == want[k] by {
        lemma_sample_reads_back(samples[k]);
        assert((2 * k) / 2 == k && (2 * k + 1) / 2 == k);
        assert(body[2 * k] == sample_bytes(samples)[2 * k]);
        assert(body[2 * k + 1] == sample_bytes(samples)[2 * k + 1]);
    }
    assert(got =~= want);
}

// What is read from a file that was cut off behind its header.
proof fn lemma_cut_file(len: nat, samples: Seq<i16>, sample_rate: u32, n: int)
    requires
        length_given(len, samples),
        2 * sample_rate <= u32::MAX,
        44 <= n <= 44 + 2 * samples.len(),
    ensures
        parsed_wav(file_with_length(len, samples, sample_rate as nat).take(n)) == Ok::<
            (Seq<i16>, u32),
            WavError,
        >((samples.take((n - 44) / 2), sample_rate)),
{
    let rate = sample_rate as nat;
    let buf = file_with_length(len, samples, rate).take(n);
    lemma_cut_chunks(len, samples, rate, n);
    lemma_cut_format(len, samples, rate, n);
    lemma_cut_samples(len, samples, rate, n);
    let fmt_chunk = Chunk { id: FMT@, body: buf.subrange(20, 36) };
    let data_chunk = Chunk { id: DATA@, body: buf.subrange(44, n) };
    let cs = seq![fmt_chunk, data_chunk];
    assert(FMT@[0] != DATA@[0]);
    assert(cs.drop_last() =~= seq![fmt_chunk]);
    assert(last_body(cs, DATA@) == Some(data_chunk.body));
    assert(last_body(cs, FMT@) == Some(fmt_chunk.body)) by {
        reveal_with_fuel(last_body, 2);
    }
    assert(!has_short_fmt(cs));
}

/// A file that was cut off behind its header still gives the samples that are wholly there.
pub proof fn law_cut_file_keeps_its_samples(samples: Seq<i16>, sample_rate: u32, n: int)
    requires
        36 + 2 * samples.len() <= u32::MAX,
        2 * sample_rate <= u32::MAX,
        44 <= n <= 44 + 2 * samples.len(),
    ensures
        parsed_wav(wav_file(samples, sample_rate as nat).take(n)) == Ok::<
            (Seq<i16>, u32),
            WavError,
        >((samples.take((n - 44) / 2), sample_rate)),
{
    lemma_cut_file(data_length(samples), samples, sample_rate, n);
}

/// A file whose header gives the length of its samples as 0, as encoders that stream them leave
/// it, gives all the samples that are wholly there, however many.
pub proof fn law_undeclared_samples_are_read(samples: Seq<i16>, sample_rate: u32, n: int)
    requires
        2 * sample_rate <= u32::MAX,
        44 <= n <= 44 + 2 * samples.len(),
    ensures
        parsed_wav((wav_header(0, sample_rate as nat) + sample_bytes(samples)).take(n)) == Ok::<
            (Seq<i16>, u32),
            WavError,
        >((samples.take((n - 44) / 2), sample_rate)),
{
    lemma_cut_file(0, samples, sample_rate, n);
}

/// Reading a file gives back the samples and the sample rate that were written.
pub proof fn law_read_inverts_write(samples: Seq<i16>, sample_rate: u32)
    requires
        36 + 2 * samples.len() <= u32::MAX,
        2 * sample_rate <= u32::MAX,
    ensures
        parsed_wav(wav_file(samples, sample_rate as nat)) == Ok::<(Seq<i16>, u32), WavError>(
            (samples, sample_rate),
        ),
{
    let n = 44 + 2 * samples.len() as int;
    let file = wav_file(samples, sample_rate as nat);
    assert(file.take(n) == file) by {
        assert(file.len() == n);
    }
    assert(samples.take((n - 44) / 2) == samples);
    assert(parsed_wav(file.take(n)) == Ok::<(Seq<i16>, u32), WavError>(
        (samples.take((n - 44) / 2), sample_rate),
    )) by {
        law_cut_file_keeps_its_samples(samples, sample_rate, n);
    }
}

/// The chunks that are read: `fmt ` and `data`.
pub open spec fn known_chunks(cs: Seq<Chunk>) -> Seq<Chunk>
    decreases cs.len(),
{
    if cs.len() == 0 {
        cs
    } else {
        let before = known_chunks(cs.drop_last());
        if cs.last().id == FMT@ || cs.last().id == DATA@ {
            before.push(cs.last())
        } else {
            before
        }
    }
}

proof fn lemma_known_chunks(cs: Seq<Chunk>)
    ensures
        last_body(known_chunks(cs), FMT@) == last_body(cs, FMT@),
        last_body(known_chunks(cs), DATA@) == last_body(cs, DATA@),
        has_short_fmt(known_chunks(cs)) == has_short_fmt(cs),
    decreases cs.len(),
{
    if cs.len() > 0 {
        let front = cs.drop_last();
        let c = cs.last();
        let known = known_chunks(front);
        lemma_known_chunks(front);
        assert(cs == front.push(c));
        lemma_last_body_push(front, c, FMT@);
        lemma_last_body_push(front, c, DATA@);
        lemma_last_body_push(known, c, FMT@);
        lemma_last_body_push(known, c, DATA@);
        lemma_short_fmt_push(front, c);
        lemma_short_fmt_push(known, c);
    }
}

proof fn lemma_short_fmt_push(cs: Seq<Chunk>, c: Chunk)
    ensures
        has_short_fmt(cs.push(c)) == (has_short_fmt(cs) || (c.id == FMT@ && c.body.len() < 16)),
{
    let all = cs.push(c);
    if has_short_fmt(cs) {
        let i = choose|i: int|
            0 <= i < cs.len() && (#[trigger] cs[i]).id == FMT@ && cs[i].body.len() < 16;
        assert(all[i] == cs[i]);
    }
    if c.id == FMT@ && c.body.len() < 16 {
        assert(all[cs.len() as int] == c);
    }
    if has_short_fmt(all) {
        let i = choose|i: int|
            0 <= i < all.len() && (#[trigger] all[i]).id == FMT@ && all[i].body.len() < 16;
        if i < cs.len() {
            assert(cs[i] == all[i]);
        }
    }
}

/// Chunks other than `fmt ` and `data`, wherever they stand, change nothing of what is read.
pub proof fn law_other_chunks_are_skipped(a: Seq<Chunk>, b: Seq<Chunk>)
    requires
        known_chunks(a) == known_chunks(b),
    ensures
        parsed_chunks(a) == parsed_chunks(b),
{
    lemma_known_chunks(a);
    lemma_known_chunks(b);
}

/// A chunk in bytes: its name, its length, its body, and a pad byte where the body has odd length.
pub open spec fn chunk_bytes(c: Chunk, pad: u8) -> Seq<u8> {
    c.id + le32_bytes(c.body.len()) + c.body + (if c.body.len() % 2 == 1 {
        seq![pad]
    } else {
        Seq::empty()
    })
}

/// The chunks in bytes, one after the other, where `pads[i]` pads chunk `i`.
pub open spec fn laid_out(cs: Seq<Chunk>, pads: Seq<u8>) -> Seq<u8>
    decreases cs.len(),
{
    if cs.len() == 0 {
        Seq::empty()
    } else {
        chunk_bytes(cs[0], pads[0]) + laid_out(cs.drop_first(), pads.drop_first())
    }
}

/// A RIFF file with these chunks, where `size` is what its header gives as its size, which is not
/// read.
pub open spec fn riff_file(size: Seq<u8>, cs: Seq<Chunk>, pads: Seq<u8>) -> Seq<u8> {
    RIFF@ + size + WAVE@ + laid_out(cs, pads)
}

/// The chunk can be written down: its name has four bytes, and its length fits into four.
pub open spec fn is_chunk(c: Chunk) -> bool {
    c.id.len() == 4 && c.body.len() <= u32::MAX
}

/// An empty `data` chunk, which cannot be told from one whose length was left as 0.
pub open spec fn is_empty_data(c: Chunk) -> bool {
    c.id == DATA@ && c.body.len() == 0
}

/// The chunks can be written down, and no empty `data` chunk stands before another chunk.
pub open spec fn are_chunks(cs: Seq<Chunk>) -> bool {
    &&& forall|i: int| 0 <= i < cs.len() ==> is_chunk(#[trigger] cs[i])
    &&& forall|i: int| 0 <= i < cs.len() - 1 ==> !is_empty_data(#[trigger] cs[i])
}

// The chunk at `pos`, and where the next one is.
proof fn lemma_first_chunk(buf: Seq<u8>, pos: int, c: Chunk, pad: u8, rest: Seq<u8>)
    requires
        0 <= pos <= buf.len(),
        buf.skip(pos) == chunk_bytes(c, pad) + rest,
        is_chunk(c),
        is_empty_data(c) ==> rest.len() == 0,
    ensures
        ({
            let next = pos + 8 + c.body.len() + c.body.len() % 2;
            &&& chunks(buf, pos) == seq![c] + chunks(buf, next)
            &&& next <= buf.len()
            &&& buf.skip(next) == rest
        }),
{
    let bytes = chunk_bytes(c, pad);
    let len = c.body.len();
    let tail = buf.skip(pos);
    assert(tail.len() == bytes.len() + rest.len());
    assert forall|i: int| 0 <= i < bytes.len() implies buf[pos + i] == #[trigger] bytes[i] by {
        assert(tail[i] == buf[pos + i]);
    }
    assert(buf.subrange(pos, pos + 4) =~= c.id) by {
        assert forall|i: int| 0 <= i < 4 implies buf[pos + i] == c.id[i] by {
            assert(bytes[i] == c.id[i]);
        }
    }
    assert(bytes[4] == le32_bytes(len)[0] && bytes[5] == le32_bytes(len)[1] && bytes[6]
        == le32_bytes(len)[2] && bytes[7] == le32_bytes(len)[3]);
    lemma_le32_reads_back(buf, pos + 4, len);
    assert(buf.subrange(pos + 8, pos + 8 + len) =~= c.body) by {
        assert forall|i: int| 0 <= i < len implies buf[pos + 8 + i] == c.body[i] by {
            assert(bytes[8 + i] == c.body[i]);
        }
    }
    let next = pos + 8 + len + len % 2;
    assert(next == pos + bytes.len());
    assert(body_length(buf, pos) == len);
    assert(buf.skip(next) =~= rest) by {
        assert forall|i: int| 0 <= i < rest.len() implies buf[next + i] == rest[i] by {
            assert(tail[bytes.len() + i] == rest[i]);
        }
    }
}

proof fn lemma_walk(buf: Seq<u8>, pos: int, cs: Seq<Chunk>, pads: Seq<u8>)
    requires
        0 <= pos <= buf.len(),
        buf.skip(pos) == laid_out(cs, pads),
        are_chunks(cs),
    ensures
        chunks(buf, pos) == cs,
    decreases cs.len(),
{
    if cs.len() == 0 {
        assert(buf.skip(pos).len() == 0);
        assert(chunks(buf, pos) =~= cs);
    } else {
        let rest = cs.drop_first();
        let more = laid_out(rest, pads.drop_first());
        assert(is_chunk(cs[0]));
        if cs.len() == 1 {
            assert(more.len() == 0);
        } else {
            assert(!is_empty_data(cs[0]));
        }
        lemma_first_chunk(buf, pos, cs[0], pads[0], more);
        assert forall|i: int| 0 <= i < rest.len() implies is_chunk(#[trigger] rest[i]) by {
            assert(rest[i] == cs[i + 1]);
        }
        assert forall|i: int| 0 <= i < rest.len() - 1 implies !is_empty_data(#[trigger] rest[i]) by {
            assert(rest[i] == cs[i + 1]);
        }
        let next = pos + 8 + cs[0].body.len() + cs[0].body.len() % 2;
        lemma_walk(buf, next, rest, pads.drop_first());
        assert(seq![cs[0]] + rest =~= cs);
    }
}

/// The chunks of a file are those that it was written with. Left out are files in which an empty
/// `data` chunk stands before another chunk.
pub proof fn law_file_has_its_chunks(size: Seq<u8>, cs: Seq<Chunk>, pads: Seq<u8>)
    requires
        size.len() == 4,
        pads.len() == cs.len(),
        are_chunks(cs),
    ensures
        chunks(riff_file(size, cs, pads), 12) == cs,
        parsed_wav(riff_file(size, cs, pads)) == parsed_chunks(cs),
{
    let buf = riff_file(size, cs, pads);
    assert(buf.subrange(0, 4) =~= RIFF@);
    assert(buf.subrange(8, 12) =~= WAVE@);
    assert(buf.skip(12) =~= laid_out(cs, pads));
    lemma_walk(buf, 12, cs, pads);
}

/// Chunks other than `fmt ` and `data`, wherever they stand in a file, change nothing of what is
/// read from it.
pub proof fn law_other_chunks_of_a_file_are_skipped(
    size_a: Seq<u8>,
    a: Seq<Chunk>,
    pads_a: Seq<u8>,
    size_b: Seq<u8>,
    b: Seq<Chunk>,
    pads_b: Seq<u8>,
)
    requires
        size_a.len() == 4,
        size_b.len() == 4,
        pads_a.len() == a.len(),
        pads_b.len() == b.len(),
        are_chunks(a),
        are_chunks(b),
        known_chunks(a) == known_chunks(b),
    ensures
        parsed_wav(riff_file(size_a, a, pads_a)) == parsed_wav(riff_file(size_b, b, pads_b)),
{
    law_file_has_its_chunks(size_a, a, pads_a);
    law_file_has_its_chunks(size_b, b, pads_b);
    law_other_chunks_are_skipped(a, b);
}

/// The samples that are read are those of the first channel, each in two bytes, the low byte first,
/// in two's complement: of frames of `frame_bytes` bytes, the first two.
pub proof fn law_first_channel_is_read(data: Seq<u8>, frame_bytes: nat, k: int)
    requires
        frame_bytes >= 2,
        0 <= k,
        (k + 1) * frame_bytes <= data.len(),
    ensures
        k < first_channel(data, frame_bytes).len(),
        first_channel(data, frame_bytes)[k] == data[k * frame_bytes] + 256 * data[k * frame_bytes
            + 1] - if data[k * frame_bytes + 1] >= 128 {
            65536int
        } else {
            0int
        },
{
    let n = frame_bytes as int;
    let len = data.len() as int;
    assert(k < len / n) by {
        vstd::arithmetic::div_mod::lemma_div_is_ordered((k + 1) * n, len, n);
        vstd::arithmetic::div_mod::lemma_div_multiples_vanish(k + 1, n);
        vstd::arithmetic::mul::lemma_mul_is_commutative(k + 1, n);
    }
    assert((k + 1) * n == k * n + n) by (nonlinear_arith);
}

/// There are as many samples as there are whole frames.
pub proof fn law_whole_frames_are_read(data: Seq<u8>, frame_bytes: nat)
    requires
        frame_bytes >= 2,
    ensures
        ({
            let n = first_channel(data, frame_bytes).len();
            n * frame_bytes <= data.len() < (n + 1) * frame_bytes
        }),
{
    let n = frame_bytes as int;
    let len = data.len() as int;
    vstd::arithmetic::div_mod::lemma_fundamental_div_mod(len, n);
    vstd::arithmetic::div_mod::lemma_mod_bound(len, n);
    assert((len / n) * n == n * (len / n) && (len / n + 1) * n == n * (len / n) + n)
        by (nonlinear_arith);
}

/// A sample in two bytes, the low byte first.
pub proof fn law_sample_in_two_bytes(samples: Seq<i16>, k: int)
    requires
        0 <= k < samples.len(),
    ensures
        sample_bytes(samples).len() == 2 * samples.len(),
        sample_bytes(samples)[2 * k] + 256 * sample_bytes(samples)[2 * k + 1] == if samples[k] < 0 {
            samples[k] + 65536
        } else {
            samples[k] as int
        },
{
    assert((2 * k) / 2 == k && (2 * k + 1) / 2 == k && (2 * k) % 2 == 0 && (2 * k + 1) % 2 == 1);
}

/// The samples of two channels, the left one first at each moment.
pub open spec fn interleaved(left: Seq<i16>, right: Seq<i16>) -> Seq<i16> {
    Seq::new(
        2 * left.len(),
        |i: int|
            if i % 2 == 0 {
                left[i / 2]
            } else {
                right[i / 2]
            },
    )
}

/// Of two channels the left one is read, whatever the right one holds.
#[verifier::spinoff_prover]
#[verifier::rlimit(40)]
pub proof fn law_left_channel_is_read(left: Seq<i16>, right: Seq<i16>)
    requires
        left.len() == right.len(),
    ensures
        first_channel(sample_bytes(interleaved(left, right)), 4) == left,
        first_channel(sample_bytes(left), 2) == left,
{
    let both = interleaved(left, right);
    let data = sample_bytes(both);
    let got = first_channel(data, 4);
    assert(data.len() == 4 * left.len());
    assert(got.len() == left.len());
    assert forall|k: int| 0 <= k < left.len() implies got[k] == left[k] by {
        law_first_channel_is_read(data, 4, k);
        law_sample_in_two_bytes(both, 2 * k);
        assert((2 * k) % 2 == 0 && (2 * k) / 2 == k);
        assert(both[2 * k] == left[k]);
    }
    assert(got =~= left);
    let mono = first_channel(sample_bytes(left), 2);
    assert forall|k: int| 0 <= k < left.len() implies mono[k] == left[k] by {
        law_first_channel_is_read(sample_bytes(left), 2, k);
        law_sample_in_two_bytes(left, k);
    }
    assert(mono =~= left);
}

/// What the bytes of a `fmt ` chunk say: the tag in the first two, or, where that is the extensible
/// one and there are 26 bytes, in the 25th and the 26th; then the channels in two, the sample rate
/// in four, and the bits in the 15th and the 16th; all with the low byte first.
pub proof fn law_format_in_bytes(b: Seq<u8>)
    ensures
        ({
            let f = fmt_of(b);
            let extensible = b[0] == 254 && b[1] == 255 && b.len() >= 26;
            &&& f.format_tag == if extensible {
                b[24] + 256 * b[25]
            } else {
                b[0] + 256 * b[1]
            }
            &&& f.channels == b[2] + 256 * b[3]
            &&& f.sample_rate == b[4] + 256 * b[5] + 65536 * b[6] + 16777216 * b[7]
            &&& f.bits_per_sample == b[14] + 256 * b[15]
        }),
{
}

/// How a file with a `fmt ` and a `data` chunk is read: by the last of each, whatever stands before,
/// between and behind. It gives the samples of the first of one or two channels of 16-bit PCM, and
/// the sample rate; another format is named.
pub proof fn law_last_format_and_data_are_read(cs: Seq<Chunk>, f: int, d: int)
    requires
        0 <= f < cs.len(),
        0 <= d < cs.len(),
        cs[f].id == seq![0x66u8, 0x6d, 0x74, 0x20],
        cs[d].id == seq![0x64u8, 0x61, 0x74, 0x61],
        forall|i: int|
            f < i < cs.len() ==> (#[trigger] cs[i]).id != seq![0x66u8, 0x6d, 0x74, 0x20],
        forall|i: int|
            d < i < cs.len() ==> (#[trigger] cs[i]).id != seq![0x64u8, 0x61, 0x74, 0x61],
        forall|i: int|
            0 <= i < cs.len() && (#[trigger] cs[i]).id == seq![0x66u8, 0x6d, 0x74, 0x20]
                ==> cs[i].body.len() >= 16,
    ensures
        ({
            let fmt = fmt_of(cs[f].body);
            let r = parsed_chunks(cs);
            if fmt.format_tag == 1 && fmt.bits_per_sample == 16 && fmt.channels == 1 {
                r == Ok::<(Seq<i16>, u32), WavError>(
                    (first_channel(cs[d].body, 2), fmt.sample_rate),
                )
            } else if fmt.format_tag == 1 && fmt.bits_per_sample == 16 && fmt.channels == 2 {
                r == Ok::<(Seq<i16>, u32), WavError>(
                    (first_channel(cs[d].body, 4), fmt.sample_rate),
                )
            } else {
                r == Err::<(Seq<i16>, u32), WavError>(
                    WavError::UnsupportedFormat {
                        format_tag: fmt.format_tag,
                        channels: fmt.channels,
                        bits_per_sample: fmt.bits_per_sample,
                    },
                )
            }
        }),
{
    assert(FMT@ =~= seq![0x66u8, 0x6d, 0x74, 0x20]);
    assert(DATA@ =~= seq![0x64u8, 0x61, 0x74, 0x61]);
    lemma_last_body_is(cs, FMT@, f);
    lemma_last_body_is(cs, DATA@, d);
}

proof fn lemma_last_body_is(cs: Seq<Chunk>, id: Seq<u8>, k: int)
    requires
        0 <= k < cs.len(),
        cs[k].id == id,
        forall|i: int| k < i < cs.len() ==> (#[trigger] cs[i]).id != id,
    ensures
        last_body(cs, id) == Some(cs[k].body),
    decreases cs.len(),
{
    if k < cs.len() - 1 {
        assert(cs[cs.len() - 1].id != id);
        assert(cs.drop_last()[k] == cs[k]);
        assert forall|i: int| k < i < cs.drop_last().len() implies (
        #[trigger] cs.drop_last()[i]).id != id by {
            assert(cs.drop_last()[i] == cs[i]);
        }
        lemma_last_body_is(cs.drop_last(), id, k);
    }
}

proof fn lemma_no_last_body(cs: Seq<Chunk>, id: Seq<u8>)
    requires
        forall|i: int| 0 <= i < cs.len() ==> (#[trigger] cs[i]).id != id,
    ensures
        last_body(cs, id) is None,
    decreases cs.len(),
{
    if cs.len() > 0 {
        assert(cs[cs.len() - 1].id != id);
        assert forall|i: int| 0 <= i < cs.drop_last().len() implies (
        #[trigger] cs.drop_last()[i]).id != id by {
            assert(cs.drop_last()[i] == cs[i]);
        }
        lemma_no_last_body(cs.drop_last(), id);
    }
}

/// What is missing is named: a `fmt ` chunk, or else a `data` chunk; but first of all a `fmt ` chunk
/// that is shorter than 16 bytes.
pub proof fn law_missing_chunks_are_named(cs: Seq<Chunk>)
    ensures
        ({
            let short = exists|i: int|
                0 <= i < cs.len() && (#[trigger] cs[i]).id == seq![0x66u8, 0x6d, 0x74, 0x20]
                    && cs[i].body.len() < 16;
            let no_fmt = forall|i: int|
                0 <= i < cs.len() ==> (#[trigger] cs[i]).id != seq![0x66u8, 0x6d, 0x74, 0x20];
            let no_data = forall|i: int|
                0 <= i < cs.len() ==> (#[trigger] cs[i]).id != seq![0x64u8, 0x61, 0x74, 0x61];
            let r = parsed_chunks(cs);
            &&& short ==> r == Err::<(Seq<i16>, u32), WavError>(
                WavError::Truncated("fmt chunk shorter than 16 bytes"),
            )
            &&& no_fmt ==> r == Err::<(Seq<i16>, u32), WavError>(WavError::MissingFmtChunk)
            &&& !short && !no_fmt && no_data ==> r == Err::<(Seq<i16>, u32), WavError>(
                WavError::MissingDataChunk,
            )
        }),
{
    let fmt = seq![0x66u8, 0x6d, 0x74, 0x20];
    let data = seq![0x64u8, 0x61, 0x74, 0x61];
    assert(FMT@ =~= fmt);
    assert(DATA@ =~= data);
    if forall|i: int| 0 <= i < cs.len() ==> (#[trigger] cs[i]).id != fmt {
        lemma_no_last_body(cs, fmt);
    } else {
        lemma_some_last_body(cs, fmt);
    }
    if forall|i: int| 0 <= i < cs.len() ==> (#[trigger] cs[i]).id != data {
        lemma_no_last_body(cs, data);
    }
}

proof fn lemma_some_last_body(cs: Seq<Chunk>, id: Seq<u8>)
    requires
        exists|i: int| 0 <= i < cs.len() && (#[trigger] cs[i]).id == id,
    ensures
        last_body(cs, id) is Some,
    decreases cs.len(),
{
    let i = choose|i: int| 0 <= i < cs.len() && (#[trigger] cs[i]).id == id;
    if cs.last().id != id {
        assert(cs.drop_last()[i] == cs[i]);
        lemma_some_last_body(cs.drop_last(), id);
    }
}

/// What is not a RIFF file with a WAVE in it is told so, byte for byte.
pub proof fn law_other_files_are_rejected(buf: Seq<u8>)
    ensures
        buf.len() < 12 <==> parsed_wav(buf) == Err::<(Seq<i16>, u32), WavError>(
            WavError::Truncated("file shorter than RIFF header"),
        ),
        buf.len() >= 12 ==> ((buf[0] != 0x52 || buf[1] != 0x49 || buf[2] != 0x46 || buf[3] != 0x46)
            <==> parsed_wav(buf) == Err::<(Seq<i16>, u32), WavError>(WavError::NotRiff)),
        buf.len() >= 12 && buf[0] == 0x52 && buf[1] == 0x49 && buf[2] == 0x46 && buf[3] == 0x46 ==> ((
        buf[8] != 0x57 || buf[9] != 0x41 || buf[10] != 0x56 || buf[11] != 0x45) <==> parsed_wav(buf)
            == Err::<(Seq<i16>, u32), WavError>(WavError::NotWave)),
{
    reveal_strlit("file shorter than RIFF header");
    reveal_strlit("fmt chunk shorter than 16 bytes");
    assert("file shorter than RIFF header"@.len() != "fmt chunk shorter than 16 bytes"@.len());
    if buf.len() >= 12 {
        let a = buf.subrange(0, 4);
        let b = buf.subrange(8, 12);
        assert(a[0] == buf[0] && a[1] == buf[1] && a[2] == buf[2] && a[3] == buf[3]);
        assert(b[0] == buf[8] && b[1] == buf[9] && b[2] == buf[10] && b[3] == buf[11]);
        if buf[0] == 0x52 && buf[1] == 0x49 && buf[2] == 0x46 && buf[3] == 0x46 {
            assert(a =~= RIFF@);
        }
        if buf[8] == 0x57 && buf[9] == 0x41 && buf[10] == 0x56 && buf[11] == 0x45 {
            assert(b =~= WAVE@);
        }
    }
}

/// Reading a stereo file gives back its left channel, whatever its right channel holds and whatever
/// other chunks it has.
pub proof fn law_stereo_file_gives_its_left_channel(
    size: Seq<u8>,
    cs: Seq<Chunk>,
    pads: Seq<u8>,
    f: int,
    d: int,
    left: Seq<i16>,
    right: Seq<i16>,
)
    requires
        size.len() == 4,
        pads.len() == cs.len(),
        are_chunks(cs),
        left.len() == right.len(),
        0 <= f < cs.len(),
        0 <= d < cs.len(),
        cs[f].id == seq![0x66u8, 0x6d, 0x74, 0x20],
        cs[d].id == seq![0x64u8, 0x61, 0x74, 0x61],
        forall|i: int|
            0 <= i < cs.len() && i != f ==> (#[trigger] cs[i]).id != seq![0x66u8, 0x6d, 0x74, 0x20],
        forall|i: int|
            0 <= i < cs.len() && i != d ==> (#[trigger] cs[i]).id != seq![0x64u8, 0x61, 0x74, 0x61],
        cs[f].body.len() >= 16,
        cs[f].body[0] == 1 && cs[f].body[1] == 0,
        cs[f].body[2] == 2 && cs[f].body[3] == 0,
        cs[f].body[14] == 16 && cs[f].body[15] == 0,
        cs[d].body == sample_bytes(interleaved(left, right)),
    ensures
        parsed_wav(riff_file(size, cs, pads)) is Ok,
        parsed_wav(riff_file(size, cs, pads))->Ok_0.0 == left,
        parsed_wav(riff_file(size, cs, pads))->Ok_0.1 == cs[f].body[4] + 256 * cs[f].body[5] + 65536
            * cs[f].body[6] + 16777216 * cs[f].body[7],
{
    law_file_has_its_chunks(size, cs, pads);
    law_last_format_and_data_are_read(cs, f, d);
    law_format_in_bytes(cs[f].body);
    law_left_channel_is_read(left, right);
}

proof fn lemma_file_starts_with_header(samples: Seq<i16>, rate: nat)
    ensures
        ({
            let b = wav_file(samples, rate);
            &&& b.len() == 44 + 2 * samples.len()
            &&& b.take(44) == wav_header(data_length(samples), rate)
            &&& b.skip(44) == sample_bytes(samples)
        }),
{
    let b = wav_file(samples, rate);
    assert(wav_header(data_length(samples), rate).len() == 44);
    assert(b.take(44) =~= wav_header(data_length(samples), rate));
    assert(b.skip(44) =~= sample_bytes(samples));
}

/// A written file starts with "RIFF", what is left of its length in four bytes, "WAVE" and "fmt ".
pub proof fn law_written_file_starts_like_a_wav(samples: Seq<i16>, sample_rate: u32)
    requires
        36 + 2 * samples.len() <= u32::MAX,
    ensures
        ({
            let b = wav_file(samples, sample_rate as nat).take(44);
            &&& b[0] == 0x52 && b[1] == 0x49 && b[2] == 0x46 && b[3] == 0x46
            &&& b[4] + 256 * b[5] + 65536 * b[6] + 16777216 * b[7] == 36 + 2 * samples.len()
            &&& b[8] == 0x57 && b[9] == 0x41 && b[10] == 0x56 && b[11] == 0x45
            &&& b[12] == 0x66 && b[13] == 0x6d && b[14] == 0x74 && b[15] == 0x20
        }),
{
    let len = data_length(samples);
    let b = wav_header(len, sample_rate as nat);
    lemma_file_starts_with_header(samples, sample_rate as nat);
    assert(b.subrange(0, 4) =~= RIFF@);
    assert(b.subrange(8, 12) =~= WAVE@);
    assert(b.subrange(12, 16) =~= FMT@);
    lemma_le32_reads_back(b, 4, 36 + len);
}

/// The format of a written file takes 16 bytes, and says PCM, one channel, the sample rate, two
/// bytes a sample and so many a second, and 16 bits.
#[verifier::spinoff_prover]
#[verifier::rlimit(40)]
pub proof fn law_written_file_is_mono_16_bit(samples: Seq<i16>, sample_rate: u32)
    requires
        2 * sample_rate <= u32::MAX,
    ensures
        ({
            let b = wav_file(samples, sample_rate as nat).take(44);
            &&& b[16] == 16 && b[17] == 0 && b[18] == 0 && b[19] == 0
            &&& b[20] == 1 && b[21] == 0
            &&& b[22] == 1 && b[23] == 0
            &&& b[24] + 256 * b[25] + 65536 * b[26] + 16777216 * b[27] == sample_rate
            &&& b[28] + 256 * b[29] + 65536 * b[30] + 16777216 * b[31] == 2 * sample_rate
            &&& b[32] == 2 && b[33] == 0
            &&& b[34] == 16 && b[35] == 0
        }),
{
    let rate = sample_rate as nat;
    let b = wav_header(data_length(samples), rate);
    lemma_file_starts_with_header(samples, rate);
    lemma_le32_reads_back(b, 24, rate);
    lemma_le32_reads_back(b, 28, 2 * rate);
}

/// A written file ends in "data", the length of the samples in four bytes, and the samples.
#[verifier::spinoff_prover]
#[verifier::rlimit(40)]
pub proof fn law_written_file_ends_in_its_samples(samples: Seq<i16>, sample_rate: u32)
    requires
        36 + 2 * samples.len() <= u32::MAX,
    ensures
        ({
            let file = wav_file(samples, sample_rate as nat);
            let b = file.take(44);
            &&& b[36] == 0x64 && b[37] == 0x61 && b[38] == 0x74 && b[39] == 0x61
            &&& b[40] + 256 * b[41] + 65536 * b[42] + 16777216 * b[43] == 2 * samples.len()
            &&& file.len() == 44 + 2 * samples.len()
            &&& file.skip(44) == sample_bytes(samples)
        }),
{
    let len = data_length(samples);
    let b = wav_header(len, sample_rate as nat);
    lemma_file_starts_with_header(samples, sample_rate as nat);
    assert(b.subrange(36, 40) =~= DATA@);
    lemma_le32_reads_back(b, 40, len);
}

/// A file is walked chunk by chunk: at `pos` stands a name of four bytes, a length in four, the low
/// byte first, and so many bytes; a pad byte follows an odd number. What runs off the end of the
/// file is cut off, and so is a "data" of length 0, which has all that is there.
pub proof fn law_chunk_by_chunk(buf: Seq<u8>, pos: int)
    requires
        0 <= pos,
    ensures
        ({
            let n = buf[pos + 4] + 256 * buf[pos + 5] + 65536 * buf[pos + 6] + 16777216 * buf[pos + 7];
            let all = buf.len() - (pos + 8);
            let cs = chunks(buf, pos);
            let undeclared = n == 0 && buf[pos] == 0x64 && buf[pos + 1] == 0x61 && buf[pos + 2] == 0x74
                && buf[pos + 3] == 0x61;
            &&& all < 0 ==> cs.len() == 0
            &&& all >= 0 ==> cs.len() > 0 && cs[0].id == buf.subrange(pos, pos + 4)
            &&& all >= 0 && (n > all || undeclared) ==> cs.len() == 1 && cs[0].body == buf.skip(
                pos + 8,
            )
            &&& 0 <= n <= all && !undeclared ==> cs[0].body == buf.subrange(pos + 8, pos + 8 + n)
                && cs.drop_first() == chunks(buf, pos + 8 + n + n % 2)
        }),
{
    let n = le32(buf, pos + 4) as int;
    let all = buf.len() - (pos + 8);
    if all >= 0 {
        let id = buf.subrange(pos, pos + 4);
        assert(id[0] == buf[pos] && id[1] == buf[pos + 1] && id[2] == buf[pos + 2] && id[3] == buf[pos
            + 3]);
        if buf[pos] == 0x64 && buf[pos + 1] == 0x61 && buf[pos + 2] == 0x74 && buf[pos + 3] == 0x61 {
            assert(id =~= DATA@);
        }
        assert(buf.subrange(pos + 8, buf.len() as int) =~= buf.skip(pos + 8));
        let length = body_length(buf, pos);
        let next = pos + 8 + length + length % 2;
        if length <= all {
            if n == 0 && id == DATA@ {
                assert(chunks(buf, next) =~= Seq::<Chunk>::empty());
            }
            assert(chunks(buf, pos).drop_first() =~= chunks(buf, next));
        }
    }
}

/// An error says what is wrong: which chunk or mark is missing, what is cut off, or what the format
/// is that is not supported. Different errors never say the same.
pub proof fn law_errors_tell_what_is_wrong(a: WavError, b: WavError)
    requires
        !(a is Io) && !(b is Io),
        a.text() == b.text(),
    ensures
        a is NotRiff <==> b is NotRiff,
        a is NotWave <==> b is NotWave,
        a is MissingFmtChunk <==> b is MissingFmtChunk,
        a is MissingDataChunk <==> b is MissingDataChunk,
        a is Truncated <==> b is Truncated,
        a is UnsupportedFormat <==> b is UnsupportedFormat,
{
    reveal_strlit("not a RIFF file (missing \"RIFF\" magic)");
    reveal_strlit("not a WAVE file (missing \"WAVE\" magic)");
    reveal_strlit("no \"fmt \" chunk found");
    reveal_strlit("no \"data\" chunk found");
    reveal_strlit("truncated or corrupt WAV: ");
    reveal_strlit("unsupported format (tag ");
    assert(a is NotRiff ==> a.text()[2] == 't' && a.text()[6] == 'R');
    assert(a is NotWave ==> a.text()[2] == 't' && a.text()[6] == 'W');
    assert(a is MissingFmtChunk ==> a.text()[2] == ' ' && a.text()[4] == 'f');
    assert(a is MissingDataChunk ==> a.text()[2] == ' ' && a.text()[4] == 'd');
    assert(a is Truncated ==> a.text()[0] == 't' && a.text()[2] == 'u');
    assert(a is UnsupportedFormat ==> a.text()[0] == 'u' && a.text()[2] == 's');
    assert(b is NotRiff ==> b.text()[2] == 't' && b.text()[6] == 'R');
    assert(b is NotWave ==> b.text()[2] == 't' && b.text()[6] == 'W');
    assert(b is MissingFmtChunk ==> b.text()[2] == ' ' && b.text()[4] == 'f');
    assert(b is MissingDataChunk ==> b.text()[2] == ' ' && b.text()[4] == 'd');
    assert(b is Truncated ==> b.text()[0] == 't' && b.text()[2] == 'u');
    assert(b is UnsupportedFormat ==> b.text()[0] == 'u' && b.text()[2] == 's');
}

/// The length that a header gives is two bytes for each sample; of a length that takes more than 32
/// bits it is the low 32.
pub proof fn law_length_in_32_bits(samples: Seq<i16>)
    ensures
        data_length(samples) <= 0xffff_ffff,
        2 * samples.len() <= 0xffff_ffff ==> data_length(samples) == 2 * samples.len(),
        data_length(samples) <= 2 * samples.len(),
        (2 * samples.len() - data_length(samples)) % 0x1_0000_0000 == 0,
{
}

} // verus!
