use vstd::prelude::*;
use vstd::arithmetic::div_mod::lemma_fundamental_div_mod_converse;
use vstd::arithmetic::div_mod::lemma_fundamental_div_mod;
use vstd::arithmetic::div_mod::lemma_mod_pos_bound;
use vstd::arithmetic::mul::lemma_mul_inequality;
use vstd::arithmetic::mul::lemma_mul_is_commutative;
use crate::sample::BitDepth;

verus! {

/// Size in bytes of the fixed header that precedes the sample data.
pub const HEADER_LEN: usize = 44;

/// The RIFF chunk header.
#[derive(Debug, Clone, Copy, PartialEq, Eq, Structural)]
pub struct RiffHdr {
    pub size: u32,
}

/// The format chunk.
#[derive(Debug, Clone, Copy, PartialEq, Eq, Structural)]
pub struct FmtHdr {
    pub size: u32,
    pub fmt_tag: u16,
    pub channels: u16,
    pub sample_rate: u32,
    pub byte_rate: u32,
    pub block_align: u16,
    pub bits_per_sample: u16,
}

/// The data chunk header.
#[derive(Debug, Clone, Copy, PartialEq, Eq, Structural)]
pub struct DataHdr {
    pub size: u32,
}

#[derive(Debug, Clone, Copy, PartialEq, Eq, Structural)]
pub struct WavHdr {
    pub riff_hdr: RiffHdr,
    pub fmt_ck: FmtHdr,
    pub data_hdr: DataHdr,
}

/// A header together with its interleaved samples.
pub struct WavFile {
    pub hdr: WavHdr,
    pub data: Vec<BitDepth>,
}

/// What a producer of samples declares about them.
#[derive(Debug, Clone, Copy, PartialEq, Eq, Structural)]
pub struct WavParams {
    pub sample_rate: u32,
    pub channels: u16,
}

/// Why a byte sequence is not a readable container.
#[derive(Debug, Clone, Copy, PartialEq, Eq, Structural)]
pub enum FormatError {
    /// The first four bytes are not `RIFF`.
    BadMagic,
    /// Bits per sample is not 8, 16 or 32.
    UnsupportedBitDepth,
    /// Fewer bytes than the header and the declared data need.
    Truncated,
    /// The derived header fields do not fit their widths.
    HeaderOverflow,
}

pub open spec fn supported_bits(bits: u16) -> bool {
    bits == 8 || bits == 16 || bits == 32
}

/// Whether every derived header field fits its width, for `n` samples.
pub open spec fn header_fits(sample_rate: u32, channels: u16, bits: u16, n: nat) -> bool {
    let w = bits as int / 8;
    &&& sample_rate * channels * w <= u32::MAX
    &&& channels * w <= u16::MAX
    &&& 36 + w * n <= u32::MAX
}

/// The header with every derived field computed from its inputs.
pub open spec fn spec_header(sample_rate: u32, channels: u16, bits: u16, n: nat) -> WavHdr {
    let w = bits as int / 8;
    let data_size = w * n;
    WavHdr {
        riff_hdr: RiffHdr { size: (36 + data_size) as u32 },
        fmt_ck: FmtHdr {
            size: 16,
            fmt_tag: 1,
            channels,
            sample_rate,
            byte_rate: (sample_rate * channels * w) as u32,
            block_align: (channels * w) as u16,
            bits_per_sample: bits,
        },
        data_hdr: DataHdr { size: data_size as u32 },
    }
}

impl WavFile {
    /// One bit depth for all samples, and a consistent header.
    pub open spec fn wf(&self) -> bool {
        let f = self.hdr.fmt_ck;
        &&& supported_bits(f.bits_per_sample)
        &&& forall|i: int|
            0 <= i < self.data@.len() ==> (#[trigger] self.data@[i]).spec_bits()
                == f.bits_per_sample
        &&& header_fits(f.sample_rate, f.channels, f.bits_per_sample, self.data@.len())
        &&& self.hdr == spec_header(
            f.sample_rate,
            f.channels,
            f.bits_per_sample,
            self.data@.len(),
        )
    }
}

// ---- byte layout ----

pub open spec fn byte0(u: int) -> u8 {
    (u % 256) as u8
}

pub open spec fn byte1(u: int) -> u8 {
    ((u / 256) % 256) as u8
}

pub open spec fn byte2(u: int) -> u8 {
    ((u / 256 / 256) % 256) as u8
}

pub open spec fn byte3(u: int) -> u8 {
    ((u / 256 / 256 / 256) % 256) as u8
}

pub open spec fn le_u16(x: int) -> Seq<u8> {
    seq![byte0(x), byte1(x)]
}

pub open spec fn le_u32(x: int) -> Seq<u8> {
    seq![byte0(x), byte1(x), byte2(x), byte3(x)]
}

pub open spec fn riff_tag() -> Seq<u8> {
    seq![0x52u8, 0x49u8, 0x46u8, 0x46u8]
}

pub open spec fn wave_tag() -> Seq<u8> {
    seq![0x57u8, 0x41u8, 0x56u8, 0x45u8]
}

pub open spec fn fmt_tag() -> Seq<u8> {
    seq![0x66u8, 0x6du8, 0x74u8, 0x20u8]
}

pub open spec fn data_tag() -> Seq<u8> {
    seq![0x64u8, 0x61u8, 0x74u8, 0x61u8]
}

/// The 44 header bytes, all fields little-endian.
pub open spec fn header_bytes(h: WavHdr) -> Seq<u8> {
    riff_tag() + le_u32(h.riff_hdr.size as int) + wave_tag() + fmt_tag() + le_u32(
        h.fmt_ck.size as int,
    ) + le_u16(h.fmt_ck.fmt_tag as int) + le_u16(h.fmt_ck.channels as int) + le_u32(
        h.fmt_ck.sample_rate as int,
    ) + le_u32(h.fmt_ck.byte_rate as int) + le_u16(h.fmt_ck.block_align as int) + le_u16(
        h.fmt_ck.bits_per_sample as int,
    ) + data_tag() + le_u32(h.data_hdr.size as int)
}

/// A sample's value in two's complement at its own width.
pub open spec fn unsigned_of(s: BitDepth) -> int {
    match s {
        BitDepth::U8(v) => if v < 0 { v + 0x100 } else { v as int },
        BitDepth::U16(v) => if v < 0 { v + 0x1_0000 } else { v as int },
        BitDepth::U32(v) => if v < 0 { v + 0x1_0000_0000 } else { v as int },
    }
}

/// Byte `k` (least significant first) of a sample.
pub open spec fn sample_byte(s: BitDepth, k: int) -> u8 {
    let u = unsigned_of(s);
    if k == 0 {
        byte0(u)
    } else if k == 1 {
        byte1(u)
    } else if k == 2 {
        byte2(u)
    } else {
        byte3(u)
    }
}

/// The first `n` samples of `d`, `w` bytes each, packed without gaps.
pub open spec fn data_prefix(d: Seq<BitDepth>, w: nat, n: nat) -> Seq<u8> {
    Seq::new(n * w, |j: int| sample_byte(d[j / w as int], j % w as int))
}

pub open spec fn data_bytes(d: Seq<BitDepth>, w: nat) -> Seq<u8> {
    data_prefix(d, w, d.len())
}

/// The whole file: header, sample bytes, and one zero byte of padding
/// where the sample bytes are odd in number.
pub open spec fn file_bytes(f: &WavFile) -> Seq<u8> {
    let d = data_bytes(f.data@, f.hdr.fmt_ck.bits_per_sample as nat / 8);
    header_bytes(f.hdr) + d + if d.len() % 2 == 1 {
        seq![0u8]
    } else {
        Seq::empty()
    }
}

// ---- reading ----

pub open spec fn read_u16(b: Seq<u8>, off: int) -> int {
    b[off] + 256 * b[off + 1]
}

pub open spec fn read_u32(b: Seq<u8>, off: int) -> int {
    b[off] + 256 * (b[off + 1] + 256 * (b[off + 2] + 256 * b[off + 3]))
}

/// The sample of width `bits` stored little-endian at `off`.
pub open spec fn read_sample(b: Seq<u8>, off: int, bits: u16) -> BitDepth {
    if bits == 8 {
        let u = b[off] as int;
        BitDepth::U8((if u >= 0x80 { u - 0x100 } else { u }) as i8)
    } else if bits == 16 {
        let u = read_u16(b, off);
        BitDepth::U16((if u >= 0x8000 { u - 0x1_0000 } else { u }) as i16)
    } else {
        let u = read_u32(b, off);
        BitDepth::U32((if u >= 0x8000_0000 { u - 0x1_0000_0000 } else { u }) as i32)
    }
}

pub open spec fn decoded_bits(b: Seq<u8>) -> u16 {
    read_u16(b, 34) as u16
}

/// Number of whole samples in the declared data size.
pub open spec fn decoded_count(b: Seq<u8>) -> nat {
    (read_u32(b, 40) / (decoded_bits(b) as int / 8)) as nat
}

pub open spec fn decoded_header(b: Seq<u8>) -> WavHdr {
    spec_header(read_u32(b, 24) as u32, read_u16(b, 22) as u16, decoded_bits(b), decoded_count(b))
}

pub open spec fn decoded_samples(b: Seq<u8>) -> Seq<BitDepth> {
    let w = decoded_bits(b) as int / 8;
    Seq::new(decoded_count(b), |i: int| read_sample(b, 44 + i * w, decoded_bits(b)))
}

/// The error that decoding `b` reports, checked in this order.
pub open spec fn decode_error(b: Seq<u8>) -> Option<FormatError> {
    if b.len() >= 4 && b.subrange(0, 4) != riff_tag() {
        Some(FormatError::BadMagic)
    } else if b.len() < 44 {
        Some(FormatError::Truncated)
    } else if !supported_bits(decoded_bits(b)) {
        Some(FormatError::UnsupportedBitDepth)
    } else if b.len() < 44 + read_u32(b, 40) {
        Some(FormatError::Truncated)
    } else if !header_fits(
        read_u32(b, 24) as u32,
        read_u16(b, 22) as u16,
        decoded_bits(b),
        decoded_count(b),
    ) {
        Some(FormatError::HeaderOverflow)
    } else {
        None
    }
}

/// What decoding `b` yields: a header and samples, or an error.
pub open spec fn decode_spec(b: Seq<u8>) -> Result<(WavHdr, Seq<BitDepth>), FormatError> {
    match decode_error(b) {
        Some(e) => Err(e),
        None => Ok((decoded_header(b), decoded_samples(b))),
    }
}


// ---- executable codec ----

/// Builds the header for `n` samples, computing every derived field.
fn build_header(sample_rate: u32, channels: u16, bits: u16, n: usize) -> (r: WavHdr)
    requires
        supported_bits(bits),
        header_fits(sample_rate, channels, bits, n as nat),
    ensures
        r == spec_header(sample_rate, channels, bits, n as nat),
{
    let w: u64 = (bits / 8) as u64;
    let rate: u64 = sample_rate as u64;
    let ch: u64 = channels as u64;
    assert(rate * ch <= 0xffff_ffffu64 * 0xffffu64) by (nonlinear_arith)
        requires rate <= 0xffff_ffffu64, ch <= 0xffffu64;
    let byte_rate: u64 = rate * ch * w;
    let data_size: u64 = w * (n as u64);
    WavHdr {
        riff_hdr: RiffHdr { size: (36 + data_size) as u32 },
        fmt_ck: FmtHdr {
            size: 16,
            fmt_tag: 1,
            channels,
            sample_rate,
            byte_rate: byte_rate as u32,
            block_align: (ch * w) as u16,
            bits_per_sample: bits,
        },
        data_hdr: DataHdr { size: data_size as u32 },
    }
}

/// Whether the derived header fields for `n` samples fit their widths.
pub fn fits_header(sample_rate: u32, channels: u16, bits: u16, n: usize) -> (r: bool)
    requires
        supported_bits(bits),
    ensures
        r == header_fits(sample_rate, channels, bits, n as nat),
{
    let w: u64 = (bits / 8) as u64;
    let rate: u64 = sample_rate as u64;
    let ch: u64 = channels as u64;
    assert(rate * ch <= 0xffff_ffffu64 * 0xffffu64) by (nonlinear_arith)
        requires rate <= 0xffff_ffffu64, ch <= 0xffffu64;
    assert(rate * ch * w <= 0xffff_ffffu64 * 0xffffu64 * 4) by (nonlinear_arith)
        requires rate * ch <= 0xffff_ffffu64 * 0xffffu64, w <= 4;
    assert(ch * w <= 0xffffu64 * 4) by (nonlinear_arith)
        requires ch <= 0xffffu64, w <= 4;
    if n as u64 > 0xffff_ffff {
        assert(36 + w * n > u32::MAX) by (nonlinear_arith)
            requires n > 0xffff_ffffu64, w >= 1;
        return false;
    }
    assert(w * (n as u64) <= 4 * 0xffff_ffffu64) by (nonlinear_arith)
        requires n <= 0xffff_ffffu64, w <= 4;
    rate * ch * w <= 0xffff_ffff && ch * w <= 0xffff && 36 + w * (n as u64) <= 0xffff_ffff
}

fn push_u16(out: &mut Vec<u8>, x: u16)
    ensures
        final(out)@ == old(out)@ + le_u16(x as int),
{
    out.push((x % 256) as u8);
    out.push(((x / 256) % 256) as u8);
    assert(final(out)@ =~= old(out)@ + le_u16(x as int));
}

fn push_u32(out: &mut Vec<u8>, x: u32)
    ensures
        final(out)@ == old(out)@ + le_u32(x as int),
{
    out.push((x % 256) as u8);
    out.push(((x / 256) % 256) as u8);
    out.push(((x / 256 / 256) % 256) as u8);
    out.push(((x / 256 / 256 / 256) % 256) as u8);
    assert(final(out)@ =~= old(out)@ + le_u32(x as int));
}

fn push_tag(out: &mut Vec<u8>, a: u8, b: u8, c: u8, d: u8)
    ensures
        final(out)@ == old(out)@ + seq![a, b, c, d],
{
    out.push(a);
    out.push(b);
    out.push(c);
    out.push(d);
    assert(final(out)@ =~= old(out)@ + seq![a, b, c, d]);
}

/// Appends the bytes of one sample, least significant first.
fn push_sample(out: &mut Vec<u8>, s: BitDepth)
    ensures
        final(out)@ == old(out)@ + Seq::new(
            s.spec_bits() as nat / 8,
            |k: int| sample_byte(s, k),
        ),
{
    match s {
        BitDepth::U8(v) => {
            let u: u16 = if v < 0 { (v as i16 + 256) as u16 } else { v as u16 };
            out.push(u as u8);
        },
        BitDepth::U16(v) => {
            let u: u32 = if v < 0 { (v as i32 + 0x1_0000) as u32 } else { v as u32 };
            out.push((u % 256) as u8);
            out.push(((u / 256) % 256) as u8);
        },
        BitDepth::U32(v) => {
            let u: u64 = if v < 0 { (v as i64 + 0x1_0000_0000) as u64 } else { v as u64 };
            out.push((u % 256) as u8);
            out.push(((u / 256) % 256) as u8);
            out.push(((u / 256 / 256) % 256) as u8);
            out.push(((u / 256 / 256 / 256) % 256) as u8);
        },
    }
    assert(final(out)@ =~= old(out)@ + Seq::new(s.spec_bits() as nat / 8, |k: int| sample_byte(s, k)));
}

proof fn lemma_block_index(i: int, w: int, j: int)
    requires
        0 < w,
        0 <= i,
        i * w <= j < i * w + w,
    ensures
        j / w == i,
        j % w == j - i * w,
{
    lemma_fundamental_div_mod_converse(j, w, i, j - i * w);
}

impl WavFile {
    /// Wraps samples in a container whose header is computed from
    /// `params` and from the bit depth of the samples.
    pub fn new(params: WavParams, data: Vec<BitDepth>) -> (r: WavFile)
        requires
            data@.len() > 0,
            forall|i: int|
                0 <= i < data@.len() ==> (#[trigger] data@[i]).spec_bits() == data@[0].spec_bits(),
            header_fits(params.sample_rate, params.channels, data@[0].spec_bits(), data@.len()),
        ensures
            r.wf(),
            r.data@ == data@,
            r.hdr == spec_header(
                params.sample_rate,
                params.channels,
                data@[0].spec_bits(),
                data@.len(),
            ),
    {
        let bits = data[0].bits();
        let hdr = build_header(params.sample_rate, params.channels, bits, data.len());
        WavFile { hdr, data }
    }

    /// The file's bytes: the fixed header, the samples little-endian,
    /// and a zero pad byte where the sample bytes are odd in number.
    pub fn encode(&self) -> (r: Vec<u8>)
        requires
            self.wf(),
        ensures
            r@ == file_bytes(self),
    {
        let h = &self.hdr;
        let mut out: Vec<u8> = Vec::new();
        push_tag(&mut out, 0x52, 0x49, 0x46, 0x46);
        push_u32(&mut out, h.riff_hdr.size);
        push_tag(&mut out, 0x57, 0x41, 0x56, 0x45);
        push_tag(&mut out, 0x66, 0x6d, 0x74, 0x20);
        push_u32(&mut out, h.fmt_ck.size);
        push_u16(&mut out, h.fmt_ck.fmt_tag);
        push_u16(&mut out, h.fmt_ck.channels);
        push_u32(&mut out, h.fmt_ck.sample_rate);
        push_u32(&mut out, h.fmt_ck.byte_rate);
        push_u16(&mut out, h.fmt_ck.block_align);
        push_u16(&mut out, h.fmt_ck.bits_per_sample);
        push_tag(&mut out, 0x64, 0x61, 0x74, 0x61);
        push_u32(&mut out, h.data_hdr.size);
        let ghost hb = out@;
        assert(hb =~= header_bytes(self.hdr));
        let ghost w: nat = self.hdr.fmt_ck.bits_per_sample as nat / 8;
        let ghost d = self.data@;
        let n = self.data.len();
        let mut i: usize = 0;
        while i < n
            invariant
                self.wf(),
                w == self.hdr.fmt_ck.bits_per_sample as nat / 8,
                d == self.data@,
                n == d.len(),
                0 <= i <= n,
                out@ == hb + data_prefix(d, w, i as nat),
            decreases n - i,
        {
            let s = self.data[i];
            let ghost before = out@;
            push_sample(&mut out, s);
            assert(s.spec_bits() == self.hdr.fmt_ck.bits_per_sample);
            proof {
                assert(w > 0);
                assert(i * w + w == (i + 1) * w) by (nonlinear_arith);
                assert(data_prefix(d, w, (i + 1) as nat) =~= data_prefix(d, w, i as nat) + Seq::new(
                    w,
                    |k: int| sample_byte(s, k),
                )) by {
                    assert forall|j: int| i * w <= j < (i + 1) * w implies
                        #[trigger] data_prefix(d, w, (i + 1) as nat)[j] == sample_byte(s, j - i * w) by {
                        lemma_block_index(i as int, w as int, j);
                    }
                    assert forall|j: int| 0 <= j < i * w implies
                        #[trigger] data_prefix(d, w, (i + 1) as nat)[j] == data_prefix(d, w, i as nat)[j] by {
                        assert(i * w <= (i + 1) * w) by (nonlinear_arith);
                    }
                }
            }
            i = i + 1;
        }
        assert(data_prefix(d, w, n as nat) == data_bytes(self.data@, w));
        let data_size = h.data_hdr.size;
        if data_size % 2 == 1 {
            out.push(0);
        }
        assert(out@ =~= file_bytes(self));
        out
    }
}

fn get_u16(b: &[u8], off: usize) -> (r: u16)
    requires
        off + 2 <= b@.len(),
    ensures
        r as int == read_u16(b@, off as int),
{
    b[off] as u16 + 256 * (b[off + 1] as u16)
}

fn get_u32(b: &[u8], off: usize) -> (r: u32)
    requires
        off + 4 <= b@.len(),
    ensures
        r as int == read_u32(b@, off as int),
{
    b[off] as u32 + 256 * (b[off + 1] as u32 + 256 * (b[off + 2] as u32 + 256 * (b[off
        + 3] as u32)))
}

/// Reads one sample of width `bits` at `off`.
fn get_sample(b: &[u8], off: usize, bits: u16) -> (r: BitDepth)
    requires
        supported_bits(bits),
        off + bits as int / 8 <= b@.len(),
    ensures
        r == read_sample(b@, off as int, bits),
        r.spec_bits() == bits,
{
    if bits == 8 {
        let u: i16 = b[off] as i16;
        BitDepth::U8((if u >= 0x80 { u - 0x100 } else { u }) as i8)
    } else if bits == 16 {
        let u: i32 = get_u16(b, off) as i32;
        BitDepth::U16((if u >= 0x8000 { u - 0x1_0000 } else { u }) as i16)
    } else {
        let u: i64 = get_u32(b, off) as i64;
        BitDepth::U32((if u >= 0x8000_0000 { u - 0x1_0000_0000 } else { u }) as i32)
    }
}

impl WavFile {
    /// Parses a whole file. The header is rebuilt from the file's channel
    /// count, sample rate and bits per sample, with derived fields
    /// recomputed; the samples are the declared data size's worth of
    /// whole samples.
    #[verifier::spinoff_prover]
    #[verifier::rlimit(50)]
    pub fn decode(bytes: &[u8]) -> (r: Result<WavFile, FormatError>)
        ensures
            match r {
                Ok(f) => f.wf() && decode_spec(bytes@) == Ok::<_, FormatError>((f.hdr, f.data@)),
                Err(e) => decode_spec(bytes@) == Err::<(WavHdr, Seq<BitDepth>), _>(e),
            },
    {
        let len = bytes.len();
        if len >= 4 && !(bytes[0] == 0x52 && bytes[1] == 0x49 && bytes[2] == 0x46 && bytes[3]
            == 0x46) {
            assert(bytes@.subrange(0, 4) != riff_tag()) by {
                if bytes@.subrange(0, 4) == riff_tag() {
                    assert(bytes@.subrange(0, 4)[0] == bytes@[0]);
                    assert(bytes@.subrange(0, 4)[1] == bytes@[1]);
                    assert(bytes@.subrange(0, 4)[2] == bytes@[2]);
                    assert(bytes@.subrange(0, 4)[3] == bytes@[3]);
                }
            }
            return Err(FormatError::BadMagic);
        }
        assert(len >= 4 ==> bytes@.subrange(0, 4) =~= riff_tag());
        if len < HEADER_LEN {
            return Err(FormatError::Truncated);
        }
        let bits = get_u16(bytes, 34);
        if !(bits == 8 || bits == 16 || bits == 32) {
            return Err(FormatError::UnsupportedBitDepth);
        }
        let size = get_u32(bytes, 40);
        if (len as u64) < 44 + size as u64 {
            return Err(FormatError::Truncated);
        }
        let channels = get_u16(bytes, 22);
        let sample_rate = get_u32(bytes, 24);
        let w: u32 = (bits / 8) as u32;
        let count: u32 = size / w;
        assert(count * w <= size) by {
            lemma_fundamental_div_mod(size as int, w as int);
            lemma_mod_pos_bound(size as int, w as int);
            lemma_mul_is_commutative(w as int, count as int);
        }
        assert(decoded_bits(bytes@) == bits);
        assert(decoded_count(bytes@) == count as nat);
        assert(read_u32(bytes@, 24) as u32 == sample_rate);
        assert(read_u16(bytes@, 22) as u16 == channels);
        if !fits_header(sample_rate, channels, bits, count as usize) {
            return Err(FormatError::HeaderOverflow);
        }
        assert(decode_error(bytes@) is None);
        let mut data: Vec<BitDepth> = Vec::new();
        let mut i: u32 = 0;
        while i < count
            invariant
                supported_bits(bits),
                bits == decoded_bits(bytes@),
                w == bits as int / 8,
                count as nat == decoded_count(bytes@),
                count * w <= size,
                44 + size <= len,
                len == bytes@.len(),
                0 <= i <= count,
                data@ =~= decoded_samples(bytes@).subrange(0, i as int),
                forall|k: int| 0 <= k < data@.len() ==> (#[trigger] data@[k]).spec_bits() == bits,
            decreases count - i,
        {
            assert((i + 1) * w <= count * w) by {
                lemma_mul_inequality((i + 1) as int, count as int, w as int);
            }
            assert(i * w + w == (i + 1) * w) by (nonlinear_arith);
            let off: usize = 44 + (i as usize) * (w as usize);
            let s = get_sample(bytes, off, bits);
            data.push(s);
            i = i + 1;
        }
        assert(data@ =~= decoded_samples(bytes@));
        let hdr = build_header(sample_rate, channels, bits, data.len());
        Ok(WavFile { hdr, data })
    }
}

// ---- laws ----

proof fn lemma_le_u16(x: int)
    requires
        0 <= x < 0x1_0000,
    ensures
        read_u16(le_u16(x), 0) == x,
{
}

proof fn lemma_le_u32(x: int)
    requires
        0 <= x < 0x1_0000_0000,
    ensures
        read_u32(le_u32(x), 0) == x,
{
}

/// Reading back the bytes of one sample at its own width gives the sample.
proof fn lemma_sample_bytes(b: Seq<u8>, off: int, s: BitDepth)
    requires
        0 <= off,
        off + s.spec_bits() as int / 8 <= b.len(),
        forall|k: int| 0 <= k < s.spec_bits() as int / 8 ==> b[off + k] == sample_byte(s, k),
    ensures
        read_sample(b, off, s.spec_bits()) == s,
{
    match s {
        BitDepth::U8(v) => {
            assert(b[off] == sample_byte(s, 0));
        },
        BitDepth::U16(v) => {
            assert(b[off] == sample_byte(s, 0));
            assert(b[off + 1] == sample_byte(s, 1));
        },
        BitDepth::U32(v) => {
            assert(b[off] == sample_byte(s, 0));
            assert(b[off + 1] == sample_byte(s, 1));
            assert(b[off + 2] == sample_byte(s, 2));
            assert(b[off + 3] == sample_byte(s, 3));
        },
    }
}

/// Decoding an encoded container gives back its header and its samples.
#[verifier::spinoff_prover]
#[verifier::rlimit(50)]
pub proof fn lemma_round_trip(f: &WavFile)
    requires
        f.wf(),
    ensures
        decode_spec(file_bytes(f)) == Ok::<_, FormatError>((f.hdr, f.data@)),
{
    let h = f.hdr;
    let bits = h.fmt_ck.bits_per_sample;
    let w: nat = bits as nat / 8;
    let d = f.data@;
    let n = d.len();
    let hb = header_bytes(h);
    let db = data_bytes(d, w);
    let b = file_bytes(f);
    assert(hb.len() == 44);
    assert(w > 0);
    assert(db.len() == n * w);
    assert forall|j: int| 0 <= j < 44 implies #[trigger] b[j] == hb[j] by {}
    assert forall|j: int| 0 <= j < n * w implies #[trigger] b[44 + j] == db[j] by {}
    assert(b.subrange(0, 4) =~= riff_tag());
    lemma_le_u16(bits as int);
    assert(le_u16(bits as int) =~= hb.subrange(34, 36));
    assert(read_u16(b, 34) == bits);
    assert(decoded_bits(b) == bits);
    lemma_le_u32(h.data_hdr.size as int);
    assert(le_u32(h.data_hdr.size as int) =~= hb.subrange(40, 44));
    assert(read_u32(b, 40) == n * w);
    lemma_le_u16(h.fmt_ck.channels as int);
    assert(le_u16(h.fmt_ck.channels as int) =~= hb.subrange(22, 24));
    lemma_le_u32(h.fmt_ck.sample_rate as int);
    assert(le_u32(h.fmt_ck.sample_rate as int) =~= hb.subrange(24, 28));
    assert((n * w) as int / (w as int) == n) by {
        lemma_fundamental_div_mod_converse((n * w) as int, w as int, n as int, 0);
    }
    assert(decoded_count(b) == n);
    assert(decode_error(b) is None);
    assert(decoded_header(b) == h);
    assert forall|i: int| 0 <= i < n implies #[trigger] decoded_samples(b)[i] == d[i] by {
        assert(d[i].spec_bits() == bits);
        assert(i * w + w <= n * w) by {
            lemma_mul_inequality(i + 1, n as int, w as int);
            assert((i + 1) * w == i * w + w) by (nonlinear_arith);
        }
        assert forall|k: int| 0 <= k < w implies b[44 + i * w + k] == sample_byte(d[i], k) by {
            lemma_block_index(i, w as int, i * w + k);
            assert(b[44 + (i * w + k)] == db[i * w + k]);
        }
        lemma_sample_bytes(b, 44 + i * w, d[i]);
    }
    assert(decoded_samples(b) =~= d);
}

/// The encoded file always has even length; the declared data size counts
/// the sample bytes only, without the pad byte.
#[verifier::spinoff_prover]
#[verifier::rlimit(50)]
pub proof fn lemma_even_length(f: &WavFile)
    requires
        f.wf(),
    ensures
        file_bytes(f).len() % 2 == 0,
        file_bytes(f).len() == 44 + f.hdr.data_hdr.size + f.hdr.data_hdr.size % 2,
        read_u32(file_bytes(f), 40) == f.data@.len() * (f.hdr.fmt_ck.bits_per_sample as int / 8),
{
    let h = f.hdr;
    let w: nat = h.fmt_ck.bits_per_sample as nat / 8;
    let hb = header_bytes(h);
    let b = file_bytes(f);
    assert(hb.len() == 44);
    assert(data_bytes(f.data@, w).len() == f.data@.len() * w);
    assert forall|j: int| 0 <= j < 44 implies #[trigger] b[j] == hb[j] by {}
    lemma_le_u32(h.data_hdr.size as int);
    assert(le_u32(h.data_hdr.size as int) =~= hb.subrange(40, 44));
}
} // verus!
