//! RIFF/WAVE headers: finding the PCM format and the audio data in the first
//! bytes of a recording, and framing a stretch of its audio as a file of its
//! own.

use vstd::prelude::*;
use vstd::string::StringExecFns;

verus! {

/// Why the first bytes of a recording are not a usable PCM WAV header.
#[derive(Clone, Copy, Debug, PartialEq, Eq, Structural)]
pub enum WavError {
    /// Fewer than four bytes: no `RIFF` tag to read.
    RiffStart,
    /// The first four bytes are not `RIFF`.
    NotRiff,
    /// The input ends before the tag of the next chunk.
    ReadId,
    /// The input ends inside the size field of a chunk.
    ReadSize,
    /// The input ends inside the `fmt ` chunk.
    FmtChunk,
    /// The format tag is not 1 (integer PCM).
    NotPcm,
    /// The `fmt ` chunk is too short to hold the fields it must hold: the
    /// format tag (2 bytes), or, for PCM, channels and bits per sample (16
    /// bytes). Reading such a chunk is a fault, not a recoverable error.
    FmtTooShort,
}

/// The text reported for each error.
pub open spec fn wav_error_text(e: WavError) -> Seq<char> {
    match e {
        WavError::RiffStart => "Failed to get riff start."@,
        WavError::NotRiff => "Not a riff file"@,
        WavError::ReadId => "Failed to read id: failed to fill whole buffer"@,
        WavError::ReadSize => "Failed to read size."@,
        WavError::FmtChunk => "Failed to get fmt chunk."@,
        WavError::NotPcm => "Only PCM WAV is supported"@,
        WavError::FmtTooShort => "fmt chunk too short for its fields"@,
    }
}

impl WavError {
    /// The text reported for this error.
    pub fn message(&self) -> (r: String)
        ensures
            r@ == wav_error_text(*self),
    {
        match self {
            WavError::RiffStart => String::from_str("Failed to get riff start."),
            WavError::NotRiff => String::from_str("Not a riff file"),
            WavError::ReadId => String::from_str("Failed to read id: failed to fill whole buffer"),
            WavError::ReadSize => String::from_str("Failed to read size."),
            WavError::FmtChunk => String::from_str("Failed to get fmt chunk."),
            WavError::NotPcm => String::from_str("Only PCM WAV is supported"),
            WavError::FmtTooShort => String::from_str("fmt chunk too short for its fields"),
        }
    }
}

/// Where the audio data of a recording lies and how it is laid out.
#[derive(Clone, Copy, Debug, PartialEq, Eq, Structural)]
pub struct WavLayout {
    /// Index of the first audio byte: everything before it is header.
    pub offset: u64,
    /// The length of the data chunk, as its size field states it.
    pub size: u64,
    /// Index of the data chunk's size field.
    pub data_size_pos: u64,
    pub num_channels: u16,
    pub bits_per_sample: u16,
}

/// A parsed header: its bytes and its layout.
#[derive(Debug, PartialEq, Eq)]
pub struct WavHeaders {
    /// The bytes before the audio data.
    pub headers: Vec<u8>,
    pub offset: u64,
    pub size: u64,
    pub data_size_pos: u64,
    pub num_channels: u16,
    pub bits_per_sample: u16,
}

impl WavHeaders {
    /// The layout that these headers describe.
    pub open spec fn layout(self) -> WavLayout {
        WavLayout {
            offset: self.offset,
            size: self.size,
            data_size_pos: self.data_size_pos,
            num_channels: self.num_channels,
            bits_per_sample: self.bits_per_sample,
        }
    }
}

/// The little-endian 16-bit value at `b[i..i + 2]`.
pub open spec fn le16(b: Seq<u8>, i: int) -> int {
    b[i] as int + 256 * b[i + 1] as int
}

/// The little-endian 32-bit value at `b[i..i + 4]`.
pub open spec fn le32(b: Seq<u8>, i: int) -> int {
    b[i] as int + 256 * b[i + 1] as int + 65536 * b[i + 2] as int + 16777216 * b[i + 3] as int
}

/// The four little-endian bytes of `v` (taken modulo 2^32).
pub open spec fn le32_bytes(v: int) -> Seq<u8> {
    seq![
        (v % 256) as u8,
        ((v / 256) % 256) as u8,
        ((v / 65536) % 256) as u8,
        ((v / 16777216) % 256) as u8,
    ]
}

pub open spec fn riff_tag() -> Seq<u8> {
    seq![82u8, 73u8, 70u8, 70u8]
}

pub open spec fn fmt_tag() -> Seq<u8> {
    seq![102u8, 109u8, 116u8, 32u8]
}

pub open spec fn data_tag() -> Seq<u8> {
    seq![100u8, 97u8, 116u8, 97u8]
}

/// The first index at or after `p` that does not hold a zero byte (or `p`
/// itself past the end).
pub open spec fn skip_zero_bytes(b: Seq<u8>, p: int) -> int
    decreases b.len() - p,
{
    if 0 <= p < b.len() && b[p] == 0 {
        skip_zero_bytes(b, p + 1)
    } else {
        p
    }
}

pub proof fn lemma_skip_zero_bytes(b: Seq<u8>, p: int)
    requires
        0 <= p,
    ensures
        skip_zero_bytes(b, p) >= p,
        skip_zero_bytes(b, p) > b.len() ==> skip_zero_bytes(b, p) == p,
        skip_zero_bytes(b, p) < b.len() ==> b[skip_zero_bytes(b, p)] != 0,
        forall|k: int| p <= k < skip_zero_bytes(b, p) ==> b[k] == 0,
    decreases b.len() - p,
{
    if 0 <= p < b.len() && b[p] == 0 {
        lemma_skip_zero_bytes(b, p + 1);
    }
}

/// How far the chunk scan at `p` is from the end: a measure that each
/// further chunk makes smaller.
pub open spec fn scan_measure(b: Seq<u8>, p: int) -> int {
    if p <= b.len() {
        b.len() - p + 1
    } else {
        0
    }
}

/// The chunk scan from index `p`, with the channels and bits per sample that
/// the last `fmt ` chunk gave: a `fmt ` chunk is read and then its padding
/// byte skipped; the `data` chunk ends the scan; any other chunk is skipped
/// together with all zero bytes that follow it.
pub open spec fn scan_chunks(b: Seq<u8>, p: int, channels: u16, bits: u16) -> Result<
    WavLayout,
    WavError,
>
    decreases scan_measure(b, p),
{
    if p < 0 || p + 4 > b.len() {
        Err(WavError::ReadId)
    } else if p + 8 > b.len() {
        Err(WavError::ReadSize)
    } else {
        let size = le32(b, p + 4);
        let q = p + 8;
        if b.subrange(p, p + 4) == fmt_tag() {
            if q + size > b.len() {
                Err(WavError::FmtChunk)
            } else if size < 2 {
                Err(WavError::FmtTooShort)
            } else if le16(b, q) != 1 {
                Err(WavError::NotPcm)
            } else if size < 16 {
                Err(WavError::FmtTooShort)
            } else {
                scan_chunks(b, q + size + size % 2, le16(b, q + 2) as u16, le16(b, q + 14) as u16)
            }
        } else if b.subrange(p, p + 4) == data_tag() {
            Ok(
                WavLayout {
                    offset: q as u64,
                    size: size as u64,
                    data_size_pos: (p + 4) as u64,
                    num_channels: channels,
                    bits_per_sample: bits,
                },
            )
        } else {
            proof {
                lemma_skip_zero_bytes(b, q + size);
            }
            scan_chunks(b, skip_zero_bytes(b, q + size), channels, bits)
        }
    }
}

/// The layout of a PCM WAV recording that starts with `b`: after the `RIFF`
/// tag and the 4-byte file size and the `WAVE` form type, the chunks are
/// scanned from index 12 on. The form type is not checked.
pub open spec fn wav_layout(b: Seq<u8>) -> Result<WavLayout, WavError> {
    if b.len() < 4 {
        Err(WavError::RiffStart)
    } else if b.subrange(0, 4) != riff_tag() {
        Err(WavError::NotRiff)
    } else {
        scan_chunks(b, 12, 0, 0)
    }
}

/// The value of a successful scan: the data lies after the scanned-from
/// index, within the input, with its size field just before it.
pub proof fn lemma_scan_bounds(b: Seq<u8>, p: int, channels: u16, bits: u16)
    requires
        p >= 0,
        b.len() <= u64::MAX,
    ensures
        scan_chunks(b, p, channels, bits) matches Ok(l) ==> {
            &&& p + 8 <= l.offset <= b.len()
            &&& l.data_size_pos == l.offset - 4
            &&& l.size == le32(b, l.offset - 4)
        },
    decreases scan_measure(b, p),
{
    if p + 8 <= b.len() {
        let size = le32(b, p + 4);
        let q = p + 8;
        if b.subrange(p, p + 4) == fmt_tag() {
            if q + size <= b.len() && size >= 16 && le16(b, q) == 1 {
                lemma_scan_bounds(b, q + size + size % 2, le16(b, q + 2) as u16, le16(b, q + 14) as u16);
            }
        } else if b.subrange(p, p + 4) != data_tag() {
            lemma_skip_zero_bytes(b, q + size);
            lemma_scan_bounds(b, skip_zero_bytes(b, q + size), channels, bits);
        }
    }
}

pub proof fn lemma_wav_layout_bounds(b: Seq<u8>)
    requires
        b.len() <= u64::MAX,
    ensures
        wav_layout(b) matches Ok(l) ==> {
            &&& 20 <= l.offset <= b.len()
            &&& l.data_size_pos == l.offset - 4
            &&& l.size == le32(b, l.offset - 4)
        },
{
    lemma_scan_bounds(b, 12, 0, 0);
}

/// Whether the four bytes at `b[i..i + 4]` are `tag`.
fn tag_at(b: &[u8], i: usize, tag: &[u8]) -> (r: bool)
    requires
        i + 4 <= b@.len(),
        tag@.len() == 4,
    ensures
        r == (b@.subrange(i as int, i + 4) == tag@),
{
    let r = b[i] == tag[0] && b[i + 1] == tag[1] && b[i + 2] == tag[2] && b[i + 3] == tag[3];
    proof {
        if r {
            assert(b@.subrange(i as int, i + 4) =~= tag@);
        } else {
            if b@.subrange(i as int, i + 4) == tag@ {
                assert(b@.subrange(i as int, i + 4)[0] == b@[i as int]);
                assert(b@.subrange(i as int, i + 4)[1] == b@[i + 1]);
                assert(b@.subrange(i as int, i + 4)[2] == b@[i + 2]);
                assert(b@.subrange(i as int, i + 4)[3] == b@[i + 3]);
            }
        }
    }
    r
}

/// The little-endian 32-bit value at `b[i..i + 4]`.
fn read_le32(b: &[u8], i: usize) -> (r: u64)
    requires
        i + 4 <= b@.len(),
    ensures
        r == le32(b@, i as int),
        r < 4294967296,
{
    b[i] as u64 + b[i + 1] as u64 * 256 + b[i + 2] as u64 * 65536 + b[i + 3] as u64 * 16777216
}

/// The little-endian 16-bit value at `b[i..i + 2]`.
fn read_le16(b: &[u8], i: usize) -> (r: u64)
    requires
        i + 2 <= b@.len(),
    ensures
        r == le16(b@, i as int),
        r < 65536,
{
    b[i] as u64 + b[i + 1] as u64 * 256
}

/// Copies the first `n` bytes of `b`.
fn copy_prefix(b: &[u8], n: usize) -> (r: Vec<u8>)
    requires
        n <= b@.len(),
    ensures
        r@ == b@.subrange(0, n as int),
{
    let mut out: Vec<u8> = Vec::new();
    let mut j: usize = 0;
    while j < n
        invariant
            j <= n <= b@.len(),
            out@ =~= b@.subrange(0, j as int),
        decreases n - j,
    {
        out.push(b[j]);
        j = j + 1;
    }
    out
}

/// Scans the first bytes of a recording for its PCM format and its audio
/// data, and keeps the bytes before the data.
pub fn parse_wav_header(bytes: &[u8]) -> (r: Result<WavHeaders, WavError>)
    ensures
        match r {
            Ok(h) => wav_layout(bytes@) == Ok::<WavLayout, WavError>(h.layout())
                && h.headers@ == bytes@.subrange(0, h.offset as int),
            Err(e) => wav_layout(bytes@) == Err::<WavLayout, WavError>(e),
        },
{
    let n = bytes.len();
    let len = n as u64;
    if n < 4 {
        return Err(WavError::RiffStart);
    }
    let riff: [u8; 4] = [82u8, 73u8, 70u8, 70u8];
    let fmt: [u8; 4] = [102u8, 109u8, 116u8, 32u8];
    let data: [u8; 4] = [100u8, 97u8, 116u8, 97u8];
    assert(riff@ =~= riff_tag());
    assert(fmt@ =~= fmt_tag());
    assert(data@ =~= data_tag());
    if !tag_at(bytes, 0, riff.as_slice()) {
        return Err(WavError::NotRiff);
    }
    let mut p: u64 = 12;
    let mut channels: u16 = 0;
    let mut bits: u16 = 0;
    loop
        invariant
            len == bytes@.len(),
            n == len,
            riff@ == riff_tag(),
            fmt@ == fmt_tag(),
            data@ == data_tag(),
            p >= 12,
            p <= len || p == 12,
            scan_chunks(bytes@, p as int, channels, bits) == wav_layout(bytes@),
        decreases len + 13 - p,
    {
        if p > len || len - p < 4 {
            return Err(WavError::ReadId);
        }
        if len - p < 8 {
            return Err(WavError::ReadSize);
        }
        let i = p as usize;
        let size = read_le32(bytes, i + 4);
        let q = p + 8;
        if tag_at(bytes, i, fmt.as_slice()) {
            if size > len - q {
                return Err(WavError::FmtChunk);
            }
            let j = q as usize;
            if size < 2 {
                return Err(WavError::FmtTooShort);
            }
            let format = read_le16(bytes, j);
            if format != 1 {
                return Err(WavError::NotPcm);
            }
            if size < 16 {
                return Err(WavError::FmtTooShort);
            }
            let ghost before = scan_chunks(bytes@, p as int, channels, bits);
            channels = read_le16(bytes, j + 2) as u16;
            bits = read_le16(bytes, j + 14) as u16;
            let end = q + size;
            assert(before == scan_chunks(bytes@, end + size % 2, channels, bits));
            if size % 2 == 1 && end == len {
                assert(scan_chunks(bytes@, end + 1, channels, bits) == Err::<WavLayout, WavError>(
                    WavError::ReadId,
                ));
                return Err(WavError::ReadId);
            }
            p = end + size % 2;
        } else if tag_at(bytes, i, data.as_slice()) {
            let headers = copy_prefix(bytes, q as usize);
            return Ok(
                WavHeaders {
                    headers,
                    offset: q,
                    size,
                    data_size_pos: p + 4,
                    num_channels: channels,
                    bits_per_sample: bits,
                },
            );
        } else {
            if size > len - q {
                proof {
                    lemma_skip_zero_bytes(bytes@, q + size);
                    assert(skip_zero_bytes(bytes@, q + size) == q + size);
                    assert(scan_chunks(bytes@, q + size, channels, bits) == Err::<WavLayout, WavError>(
                        WavError::ReadId,
                    ));
                }
                return Err(WavError::ReadId);
            }
            let mut k = q + size;
            while k < len && bytes[k as usize] == 0
                invariant
                    len == bytes@.len(),
                    q + size <= k <= len,
                    skip_zero_bytes(bytes@, k as int) == skip_zero_bytes(bytes@, q + size),
                decreases len - k,
            {
                k = k + 1;
            }
            p = k;
        }
    }
}

/// A recording made of `header` and `audio`, with the RIFF size field
/// (index 4) set to the total length less 8, and the data chunk's size field
/// (at `data_size_pos`, where it fits in the header) set to the audio length,
/// both modulo 2^32.
pub open spec fn chunk_wav_spec(header: Seq<u8>, data_size_pos: int, audio: Seq<u8>) -> Seq<u8> {
    let riff = le32_bytes((header.len() + audio.len() - 8) % 4294967296);
    let dsize = le32_bytes((audio.len() % 4294967296) as int);
    Seq::new(
        header.len(),
        |j: int|
            if data_size_pos + 4 <= header.len() && data_size_pos <= j < data_size_pos + 4 {
                dsize[j - data_size_pos]
            } else if 4 <= j < 8 {
                riff[j - 4]
            } else {
                header[j]
            },
    ) + audio
}

/// Byte `k` of the little-endian encoding of `v`.
fn le_byte(v: u64, k: usize) -> (r: u8)
    requires
        k < 4,
        v < 4294967296,
    ensures
        r == le32_bytes(v as int)[k as int],
{
    if k == 0 {
        (v % 256) as u8
    } else if k == 1 {
        (v / 256 % 256) as u8
    } else if k == 2 {
        (v / 65536 % 256) as u8
    } else {
        (v / 16777216 % 256) as u8
    }
}

/// Frames a stretch of audio as a recording of its own: the header of the
/// original recording, with its two size fields made to fit, then the audio.
pub fn build_chunk_wav(header: &[u8], data_size_pos: u64, audio: &[u8]) -> (r: Vec<u8>)
    requires
        header@.len() >= 8,
        header@.len() + audio@.len() <= usize::MAX,
        data_size_pos + 4 <= usize::MAX,
    ensures
        r@ == chunk_wav_spec(header@, data_size_pos as int, audio@),
{
    let h = header.len();
    let a = audio.len();
    let riff_v: u64 = ((h + a - 8) as u64) % 4294967296;
    let dsize_v: u64 = (a as u64) % 4294967296;
    let pos = data_size_pos as usize;
    let patch = pos <= h && h - pos >= 4;
    let mut out: Vec<u8> = Vec::new();
    let mut j: usize = 0;
    while j < h
        invariant
            h == header@.len(),
            a == audio@.len(),
            h >= 8,
            j <= h,
            riff_v == (h + a - 8) as int % 4294967296,
            dsize_v == (a as int) % 4294967296,
            pos == data_size_pos,
            patch == (pos + 4 <= h),
            out@.len() == j,
            forall|m: int|
                0 <= m < j ==> #[trigger] out@[m] == chunk_wav_spec(
                    header@,
                    data_size_pos as int,
                    audio@,
                )[m],
        decreases h - j,
    {
        let byte = if patch && pos <= j && j < pos + 4 {
            le_byte(dsize_v, j - pos)
        } else if 4 <= j && j < 8 {
            le_byte(riff_v, j - 4)
        } else {
            header[j]
        };
        out.push(byte);
        j = j + 1;
    }
    let mut k: usize = 0;
    while k < a
        invariant
            h == header@.len(),
            a == audio@.len(),
            k <= a,
            out@.len() == h + k,
            forall|m: int|
                0 <= m < h + k ==> #[trigger] out@[m] == chunk_wav_spec(
                    header@,
                    data_size_pos as int,
                    audio@,
                )[m],
        decreases a - k,
    {
        out.push(audio[k]);
        k = k + 1;
    }
    assert(out@ =~= chunk_wav_spec(header@, data_size_pos as int, audio@));
    out
}

proof fn lemma_le32_bytes(v: u32)
    ensures
        le32(le32_bytes(v as int), 0) == v,
{
    assert((v % 256) + 256 * ((v / 256) % 256) + 65536 * ((v / 65536) % 256) + 16777216 * ((v
        / 16777216) % 256) == v) by (bit_vector);
}

proof fn lemma_skip_transfer(b: Seq<u8>, b2: Seq<u8>, p: int)
    requires
        0 <= p,
        skip_zero_bytes(b, p) < b.len(),
        skip_zero_bytes(b, p) < b2.len(),
        forall|i: int| p <= i <= skip_zero_bytes(b, p) ==> b2[i] == b[i],
    ensures
        skip_zero_bytes(b2, p) == skip_zero_bytes(b, p),
    decreases b.len() - p,
{
    lemma_skip_zero_bytes(b, p);
    if 0 <= p < b.len() && b[p] == 0 {
        lemma_skip_transfer(b, b2, p + 1);
    }
}

proof fn lemma_scan_transfer(b: Seq<u8>, b2: Seq<u8>, p: int, channels: u16, bits: u16)
    requires
        p >= 0,
        b.len() <= u64::MAX,
        b2.len() <= u64::MAX,
        scan_chunks(b, p, channels, bits) is Ok,
        b2.len() >= scan_chunks(b, p, channels, bits)->Ok_0.offset,
        forall|i: int|
            p <= i < scan_chunks(b, p, channels, bits)->Ok_0.offset - 4 ==> b2[i] == b[i],
    ensures
        ({
            let l = scan_chunks(b, p, channels, bits)->Ok_0;
            scan_chunks(b2, p, channels, bits) == Ok::<WavLayout, WavError>(
                WavLayout {
                    offset: l.offset,
                    size: le32(b2, l.offset - 4) as u64,
                    data_size_pos: l.data_size_pos,
                    num_channels: l.num_channels,
                    bits_per_sample: l.bits_per_sample,
                },
            )
        }),
    decreases scan_measure(b, p),
{
    let l = scan_chunks(b, p, channels, bits)->Ok_0;
    lemma_scan_bounds(b, p, channels, bits);
    let size = le32(b, p + 4);
    let q = p + 8;
    assert(b2.subrange(p, p + 4) =~= b.subrange(p, p + 4));
    if b.subrange(p, p + 4) == fmt_tag() {
        let next = q + size + size % 2;
        let ch2 = le16(b, q + 2) as u16;
        let bits2 = le16(b, q + 14) as u16;
        lemma_scan_bounds(b, next, ch2, bits2);
        assert(le32(b2, p + 4) == size);
        assert(le16(b2, q) == le16(b, q));
        assert(le16(b2, q + 2) == le16(b, q + 2));
        assert(le16(b2, q + 14) == le16(b, q + 14));
        lemma_scan_transfer(b, b2, next, ch2, bits2);
    } else if b.subrange(p, p + 4) == data_tag() {
    } else {
        lemma_skip_zero_bytes(b, q + size);
        let next = skip_zero_bytes(b, q + size);
        lemma_scan_bounds(b, next, channels, bits);
        assert(le32(b2, p + 4) == size);
        lemma_skip_transfer(b, b2, q + size);
        lemma_scan_transfer(b, b2, next, channels, bits);
    }
}

/// A recording framed from the header of a scanned recording and any audio
/// scans again to the same layout, with the audio's length (modulo 2^32) as
/// the data size, and its RIFF size field states its length less 8 (modulo
/// 2^32): each framed stretch is a WAV file in the original format.
pub proof fn lemma_chunk_wav_layout(b: Seq<u8>, audio: Seq<u8>)
    requires
        wav_layout(b) is Ok,
        b.len() + audio.len() <= u64::MAX,
    ensures
        ({
            let l = wav_layout(b)->Ok_0;
            let w = chunk_wav_spec(b.subrange(0, l.offset as int), l.data_size_pos as int, audio);
            &&& wav_layout(w) == Ok::<WavLayout, WavError>(
                WavLayout {
                    offset: l.offset,
                    size: (audio.len() % 4294967296) as u64,
                    data_size_pos: l.data_size_pos,
                    num_channels: l.num_channels,
                    bits_per_sample: l.bits_per_sample,
                },
            )
            &&& le32(w, 4) == (w.len() - 8) % 4294967296
        }),
{
    let l = wav_layout(b)->Ok_0;
    lemma_wav_layout_bounds(b);
    let header = b.subrange(0, l.offset as int);
    let dsp = l.data_size_pos as int;
    let w = chunk_wav_spec(header, dsp, audio);
    assert(w.len() == l.offset + audio.len());
    assert(w.subrange(0, 4) =~= b.subrange(0, 4));
    assert forall|i: int| 12 <= i < l.offset - 4 implies w[i] == b[i] by {}
    lemma_scan_transfer(b, w, 12, 0, 0);
    let v = (audio.len() % 4294967296) as u32;
    lemma_le32_bytes(v);
    let dsize = le32_bytes((audio.len() % 4294967296) as int);
    assert(w[dsp] == dsize[0]);
    assert(w[dsp + 1] == dsize[1]);
    assert(w[dsp + 2] == dsize[2]);
    assert(w[dsp + 3] == dsize[3]);
    assert(le32(w, dsp) == le32(dsize, 0));
    let riff_v = ((header.len() + audio.len() - 8) % 4294967296) as u32;
    lemma_le32_bytes(riff_v);
    let riff = le32_bytes((header.len() + audio.len() - 8) % 4294967296);
    assert(w[4] == riff[0]);
    assert(w[5] == riff[1]);
    assert(w[6] == riff[2]);
    assert(w[7] == riff[3]);
    assert(le32(w, 4) == le32(riff, 0));
}

/// Framing keeps every header byte outside the RIFF size field (4..8) and
/// the data size field, appends the audio unchanged, and sets the two fields:
/// the data size field (where it fits) to the audio length and, where the two
/// fields do not overlap, the RIFF size field to the file length less 8 (both
/// modulo 2^32).
pub proof fn lemma_chunk_wav_keeps_header(header: Seq<u8>, data_size_pos: int, audio: Seq<u8>)
    requires
        header.len() >= 8,
        data_size_pos >= 0,
    ensures
        ({
            let w = chunk_wav_spec(header, data_size_pos, audio);
            let patched = data_size_pos + 4 <= header.len();
            &&& w.len() == header.len() + audio.len()
            &&& forall|j: int|
                0 <= j < header.len() && !(4 <= j < 8) && !(patched && data_size_pos <= j
                    < data_size_pos + 4) ==> #[trigger] w[j] == header[j]
            &&& forall|k: int| 0 <= k < audio.len() ==> #[trigger] w[header.len() + k] == audio[k]
            &&& patched ==> le32(w, data_size_pos) == audio.len() % 4294967296
            &&& (!patched || data_size_pos >= 8 || data_size_pos + 4 <= 4) ==> le32(w, 4) == (
            w.len() - 8) % 4294967296
        }),
{
    let w = chunk_wav_spec(header, data_size_pos, audio);
    let patched = data_size_pos + 4 <= header.len();
    assert forall|k: int| 0 <= k < audio.len() implies #[trigger] w[header.len() + k]
        == audio[k] by {}
    if patched {
        let v = (audio.len() % 4294967296) as u32;
        lemma_le32_bytes(v);
        let dsize = le32_bytes((audio.len() % 4294967296) as int);
        assert(w[data_size_pos] == dsize[0]);
        assert(w[data_size_pos + 1] == dsize[1]);
        assert(w[data_size_pos + 2] == dsize[2]);
        assert(w[data_size_pos + 3] == dsize[3]);
    }
    if !patched || data_size_pos >= 8 || data_size_pos + 4 <= 4 {
        let rv = ((header.len() + audio.len() - 8) % 4294967296) as u32;
        lemma_le32_bytes(rv);
        let riff = le32_bytes((header.len() + audio.len() - 8) % 4294967296);
        assert(w[4] == riff[0]);
        assert(w[5] == riff[1]);
        assert(w[6] == riff[2]);
        assert(w[7] == riff[3]);
    }
}

/// The channels and bits per sample of a scan are those of the `fmt ` chunk,
/// whatever chunk comes between it and the data chunk: a recording
/// `RIFF`, size, form, `fmt ` chunk (PCM), any chunk `X` that is neither
/// `fmt ` nor `data`, then the `data` chunk, scans to the fmt chunk's channels
/// and bits per sample, and to the data chunk's place and size.
pub proof fn lemma_fmt_survives_other_chunk(
    riff_size: Seq<u8>,
    form: Seq<u8>,
    fmt: Seq<u8>,
    x_tag: Seq<u8>,
    x: Seq<u8>,
    data_size: u32,
    audio: Seq<u8>,
)
    requires
        riff_size.len() == 4,
        form.len() == 4,
        fmt.len() == 16,
        fmt[0] == 1u8,
        fmt[1] == 0u8,
        x_tag.len() == 4,
        x_tag != fmt_tag(),
        x_tag != data_tag(),
        x.len() < 4294967296,
        52 + x.len() + audio.len() <= u64::MAX,
    ensures
        wav_layout(
            riff_tag() + riff_size + form + fmt_tag() + le32_bytes(16) + fmt + x_tag + le32_bytes(
                x.len() as int,
            ) + x + data_tag() + le32_bytes(data_size as int) + audio,
        ) == Ok::<WavLayout, WavError>(
            WavLayout {
                offset: (52 + x.len()) as u64,
                size: data_size as u64,
                data_size_pos: (48 + x.len()) as u64,
                num_channels: le16(fmt, 2) as u16,
                bits_per_sample: le16(fmt, 14) as u16,
            },
        ),
{
    let xl = x.len() as int;
    let b = riff_tag() + riff_size + form + fmt_tag() + le32_bytes(16) + fmt + x_tag + le32_bytes(
        xl,
    ) + x + data_tag() + le32_bytes(data_size as int) + audio;
    assert(b.len() == 52 + xl + audio.len());
    lemma_le32_bytes(16u32);
    lemma_le32_bytes(xl as u32);
    lemma_le32_bytes(data_size);
    assert(b.subrange(0, 4) =~= riff_tag());
    assert(b.subrange(12, 16) =~= fmt_tag());
    let l16 = le32_bytes(16);
    assert(b[16] == l16[0] && b[17] == l16[1] && b[18] == l16[2] && b[19] == l16[3]);
    assert(le32(b, 16) == 16);
    assert(b[20] == fmt[0] && b[21] == fmt[1]);
    assert(b[22] == fmt[2] && b[23] == fmt[3]);
    assert(b[34] == fmt[14] && b[35] == fmt[15]);
    let ch = le16(fmt, 2) as u16;
    let bits = le16(fmt, 14) as u16;
    assert(b.subrange(36, 40) =~= x_tag);
    let lx = le32_bytes(xl);
    assert(b[40] == lx[0] && b[41] == lx[1] && b[42] == lx[2] && b[43] == lx[3]);
    assert(le32(b, 40) == xl);
    let p = 44 + xl;
    assert(b.subrange(p, p + 4) =~= data_tag());
    assert(b[p] == 100u8);
    assert(skip_zero_bytes(b, p) == p);
    let ld = le32_bytes(data_size as int);
    assert(b[p + 4] == ld[0] && b[p + 5] == ld[1] && b[p + 6] == ld[2] && b[p + 7] == ld[3]);
    assert(le32(b, p + 4) == data_size);
    assert(scan_chunks(b, p, ch, bits) == Ok::<WavLayout, WavError>(
        WavLayout {
            offset: (52 + xl) as u64,
            size: data_size as u64,
            data_size_pos: (48 + xl) as u64,
            num_channels: ch,
            bits_per_sample: bits,
        },
    ));
    assert(scan_chunks(b, 36, ch, bits) == scan_chunks(b, p, ch, bits));
    assert(scan_chunks(b, 12, 0, 0) == scan_chunks(b, 36, ch, bits));
}

} // verus!
