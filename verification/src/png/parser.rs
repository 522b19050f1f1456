//! Chunk parser for PNG streams.
//!
//! The parser walks the chunk list after the signature, checking each chunk's
//! length against the buffer and its CRC against its contents, and stops at
//! IEND or at the first chunk that does not fit. Its behaviour is stated
//! exactly by [`png_parse_spec`].

use vstd::prelude::*;
use vstd::slice::slice_subrange;

use super::{chunk_crc_spec, chunk_crc_with, critical_spec, generate_crc_table, is_crc_table, is_critical_chunk};
use crate::error::CoreError;

verus! {

/// A chunk type code, named where the parser knows it.
#[derive(Debug, Clone, Copy, PartialEq, Eq)]
pub enum ChunkType {
    Ihdr,
    Plte,
    Idat,
    Iend,
    Gama,
    Chrm,
    Srgb,
    Iccp,
    Text,
    Ztxt,
    Itxt,
    Bkgd,
    Phys,
    Time,
    Other([u8; 4]),
}

/// Whether `b` spells the four bytes `c0 c1 c2 c3`.
pub open spec fn spells(b: [u8; 4], c0: u8, c1: u8, c2: u8, c3: u8) -> bool {
    b[0] == c0 && b[1] == c1 && b[2] == c2 && b[3] == c3
}

/// The chunk type a type code names.
pub open spec fn chunk_type_of(b: [u8; 4]) -> ChunkType {
    if spells(b, 0x49, 0x48, 0x44, 0x52) {
        ChunkType::Ihdr
    } else if spells(b, 0x50, 0x4C, 0x54, 0x45) {
        ChunkType::Plte
    } else if spells(b, 0x49, 0x44, 0x41, 0x54) {
        ChunkType::Idat
    } else if spells(b, 0x49, 0x45, 0x4E, 0x44) {
        ChunkType::Iend
    } else if spells(b, 0x67, 0x41, 0x4D, 0x41) {
        ChunkType::Gama
    } else if spells(b, 0x63, 0x48, 0x52, 0x4D) {
        ChunkType::Chrm
    } else if spells(b, 0x73, 0x52, 0x47, 0x42) {
        ChunkType::Srgb
    } else if spells(b, 0x69, 0x43, 0x43, 0x50) {
        ChunkType::Iccp
    } else if spells(b, 0x74, 0x45, 0x58, 0x74) {
        ChunkType::Text
    } else if spells(b, 0x7A, 0x54, 0x58, 0x74) {
        ChunkType::Ztxt
    } else if spells(b, 0x69, 0x54, 0x58, 0x74) {
        ChunkType::Itxt
    } else if spells(b, 0x62, 0x4B, 0x47, 0x44) {
        ChunkType::Bkgd
    } else if spells(b, 0x70, 0x48, 0x59, 0x73) {
        ChunkType::Phys
    } else if spells(b, 0x74, 0x49, 0x4D, 0x45) {
        ChunkType::Time
    } else {
        ChunkType::Other(b)
    }
}

/// The four bytes of a chunk type's code, as a sequence.
pub open spec fn chunk_code(t: ChunkType) -> Seq<u8> {
    match t {
        ChunkType::Ihdr => seq![0x49u8, 0x48u8, 0x44u8, 0x52u8],
        ChunkType::Plte => seq![0x50u8, 0x4Cu8, 0x54u8, 0x45u8],
        ChunkType::Idat => seq![0x49u8, 0x44u8, 0x41u8, 0x54u8],
        ChunkType::Iend => seq![0x49u8, 0x45u8, 0x4Eu8, 0x44u8],
        ChunkType::Gama => seq![0x67u8, 0x41u8, 0x4Du8, 0x41u8],
        ChunkType::Chrm => seq![0x63u8, 0x48u8, 0x52u8, 0x4Du8],
        ChunkType::Srgb => seq![0x73u8, 0x52u8, 0x47u8, 0x42u8],
        ChunkType::Iccp => seq![0x69u8, 0x43u8, 0x43u8, 0x50u8],
        ChunkType::Text => seq![0x74u8, 0x45u8, 0x58u8, 0x74u8],
        ChunkType::Ztxt => seq![0x7Au8, 0x54u8, 0x58u8, 0x74u8],
        ChunkType::Itxt => seq![0x69u8, 0x54u8, 0x58u8, 0x74u8],
        ChunkType::Bkgd => seq![0x62u8, 0x4Bu8, 0x47u8, 0x44u8],
        ChunkType::Phys => seq![0x70u8, 0x48u8, 0x59u8, 0x73u8],
        ChunkType::Time => seq![0x74u8, 0x49u8, 0x4Du8, 0x45u8],
        ChunkType::Other(b) => b@,
    }
}

/// A chunk type code survives the trip through its chunk type: the code of
/// the type a code names is that code.
pub proof fn lemma_chunk_code_round_trip(b: [u8; 4])
    ensures
        chunk_code(chunk_type_of(b)) == b@,
{
    assert(chunk_code(chunk_type_of(b)) =~= b@);
}

/// A chunk type survives the trip through its code, unless it is an
/// unnamed code that spells a named type.
pub proof fn lemma_chunk_type_round_trip(t: ChunkType)
    requires
        t matches ChunkType::Other(b) ==> chunk_type_of(b) is Other,
    ensures
        forall|b: [u8; 4]| b@ == chunk_code(t) ==> chunk_type_of(b) == t,
{
    assert forall|b: [u8; 4]| b@ == chunk_code(t) implies chunk_type_of(b) == t by {
        assert(b[0] == chunk_code(t)[0] && b[1] == chunk_code(t)[1] && b[2] == chunk_code(t)[2] && b[3] == chunk_code(t)[3]);
        if let ChunkType::Other(c) = t {
            assert(b =~= c);
        }
    }
}

impl ChunkType {
    /// The chunk type named by a four-byte code.
    pub fn from_bytes(bytes: &[u8; 4]) -> (r: Self)
        ensures
            r == chunk_type_of(*bytes),
    {
        let (b0, b1, b2, b3) = (bytes[0], bytes[1], bytes[2], bytes[3]);
        if b0 == 0x49 && b1 == 0x48 && b2 == 0x44 && b3 == 0x52 {
            ChunkType::Ihdr
        } else if b0 == 0x50 && b1 == 0x4C && b2 == 0x54 && b3 == 0x45 {
            ChunkType::Plte
        } else if b0 == 0x49 && b1 == 0x44 && b2 == 0x41 && b3 == 0x54 {
            ChunkType::Idat
        } else if b0 == 0x49 && b1 == 0x45 && b2 == 0x4E && b3 == 0x44 {
            ChunkType::Iend
        } else if b0 == 0x67 && b1 == 0x41 && b2 == 0x4D && b3 == 0x41 {
            ChunkType::Gama
        } else if b0 == 0x63 && b1 == 0x48 && b2 == 0x52 && b3 == 0x4D {
            ChunkType::Chrm
        } else if b0 == 0x73 && b1 == 0x52 && b2 == 0x47 && b3 == 0x42 {
            ChunkType::Srgb
        } else if b0 == 0x69 && b1 == 0x43 && b2 == 0x43 && b3 == 0x50 {
            ChunkType::Iccp
        } else if b0 == 0x74 && b1 == 0x45 && b2 == 0x58 && b3 == 0x74 {
            ChunkType::Text
        } else if b0 == 0x7A && b1 == 0x54 && b2 == 0x58 && b3 == 0x74 {
            ChunkType::Ztxt
        } else if b0 == 0x69 && b1 == 0x54 && b2 == 0x58 && b3 == 0x74 {
            ChunkType::Itxt
        } else if b0 == 0x62 && b1 == 0x4B && b2 == 0x47 && b3 == 0x44 {
            ChunkType::Bkgd
        } else if b0 == 0x70 && b1 == 0x48 && b2 == 0x59 && b3 == 0x73 {
            ChunkType::Phys
        } else if b0 == 0x74 && b1 == 0x49 && b2 == 0x4D && b3 == 0x45 {
            ChunkType::Time
        } else {
            ChunkType::Other(*bytes)
        }
    }

    /// The four-byte code of this chunk type.
    pub fn to_bytes(&self) -> (r: [u8; 4])
        ensures
            r@ == chunk_code(*self),
    {
        let r: [u8; 4] = match self {
            ChunkType::Ihdr => [0x49, 0x48, 0x44, 0x52],
            ChunkType::Plte => [0x50, 0x4C, 0x54, 0x45],
            ChunkType::Idat => [0x49, 0x44, 0x41, 0x54],
            ChunkType::Iend => [0x49, 0x45, 0x4E, 0x44],
            ChunkType::Gama => [0x67, 0x41, 0x4D, 0x41],
            ChunkType::Chrm => [0x63, 0x48, 0x52, 0x4D],
            ChunkType::Srgb => [0x73, 0x52, 0x47, 0x42],
            ChunkType::Iccp => [0x69, 0x43, 0x43, 0x50],
            ChunkType::Text => [0x74, 0x45, 0x58, 0x74],
            ChunkType::Ztxt => [0x7A, 0x54, 0x58, 0x74],
            ChunkType::Itxt => [0x69, 0x54, 0x58, 0x74],
            ChunkType::Bkgd => [0x62, 0x4B, 0x47, 0x44],
            ChunkType::Phys => [0x70, 0x48, 0x59, 0x73],
            ChunkType::Time => [0x74, 0x49, 0x4D, 0x45],
            ChunkType::Other(b) => *b,
        };
        assert(r@ =~= chunk_code(*self));
        r
    }

    /// Whether a chunk of this type is critical.
    #[inline]
    pub fn is_critical(&self) -> (r: bool)
        ensures
            r == critical_spec(chunk_code(*self)),
    {
        is_critical_chunk(&self.to_bytes())
    }
}

/// One chunk as the parser found it.
#[derive(Debug, Clone, Copy, PartialEq, Eq)]
pub struct PngChunk {
    pub length: u32,
    pub chunk_type: ChunkType,
    pub chunk_type_bytes: [u8; 4],
    /// Offset of the chunk's length field.
    pub offset: u64,
    pub stored_crc: u32,
    pub calculated_crc: u32,
    pub crc_valid: bool,
}

impl PngChunk {
    /// Length field, type code, data and CRC.
    #[inline]
    pub fn total_size(&self) -> (r: u64)
        ensures
            r == 12 + self.length as int,
    {
        4 + 4 + self.length as u64 + 4
    }

    /// Where the chunk's data starts.
    #[inline]
    pub fn data_offset(&self) -> (r: u64)
        requires
            self.offset + 8 <= u64::MAX,
        ensures
            r == self.offset + 8,
    {
        self.offset + 8
    }

    /// Where the chunk's CRC starts.
    #[inline]
    pub fn crc_offset(&self) -> (r: u64)
        requires
            self.offset + 8 + self.length <= u64::MAX,
        ensures
            r == self.offset + 8 + self.length,
    {
        self.offset + 8 + self.length as u64
    }
}

/// The image header.
#[derive(Debug, Clone, Copy, Default, PartialEq, Eq, Structural)]
pub struct IhdrData {
    pub width: u32,
    pub height: u32,
    pub bit_depth: u8,
    pub color_type: u8,
    pub compression: u8,
    pub filter: u8,
    pub interlace: u8,
}

/// Big-endian 32-bit value at `i`.
pub open spec fn be32(d: Seq<u8>, i: int) -> u32 {
    (d[i] as int * 16777216 + d[i + 1] as int * 65536 + d[i + 2] as int * 256 + d[i + 3] as int) as u32
}

/// The header a 13-byte IHDR body describes.
pub open spec fn ihdr_of(s: Seq<u8>) -> Option<IhdrData> {
    if s.len() < 13 {
        None
    } else {
        Some(IhdrData {
            width: be32(s, 0),
            height: be32(s, 4),
            bit_depth: s[8],
            color_type: s[9],
            compression: s[10],
            filter: s[11],
            interlace: s[12],
        })
    }
}

/// The bit depths PNG allows for a colour type.
pub open spec fn depth_allowed(color_type: u8, bit_depth: u8) -> bool {
    if color_type == 0 {
        bit_depth == 1 || bit_depth == 2 || bit_depth == 4 || bit_depth == 8 || bit_depth == 16
    } else if color_type == 2 || color_type == 4 || color_type == 6 {
        bit_depth == 8 || bit_depth == 16
    } else if color_type == 3 {
        bit_depth == 1 || bit_depth == 2 || bit_depth == 4 || bit_depth == 8
    } else {
        false
    }
}

impl IhdrData {
    /// The header a 13-byte IHDR body describes; `None` when shorter.
    pub fn from_bytes(data: &[u8]) -> (r: Option<Self>)
        ensures
            r == ihdr_of(data@),
    {
        if data.len() < 13 {
            return None;
        }
        Some(IhdrData {
            width: read_be32(data, 0),
            height: read_be32(data, 4),
            bit_depth: data[8],
            color_type: data[9],
            compression: data[10],
            filter: data[11],
            interlace: data[12],
        })
    }

    /// Whether the header is one PNG allows: non-zero size, a bit depth the
    /// colour type permits, compression and filter method 0, and interlace
    /// method 0 or 1.
    pub fn is_valid(&self) -> (r: bool)
        ensures
            r == (self.width != 0 && self.height != 0 && depth_allowed(self.color_type, self.bit_depth)
                && self.compression == 0 && self.filter == 0 && self.interlace <= 1),
    {
        if self.width == 0 || self.height == 0 {
            return false;
        }
        let d = self.bit_depth;
        let valid_bit_depth = match self.color_type {
            0 => d == 1 || d == 2 || d == 4 || d == 8 || d == 16,
            2 => d == 8 || d == 16,
            3 => d == 1 || d == 2 || d == 4 || d == 8,
            4 => d == 8 || d == 16,
            6 => d == 8 || d == 16,
            _ => false,
        };
        if !valid_bit_depth {
            return false;
        }
        if self.compression != 0 || self.filter != 0 {
            return false;
        }
        if self.interlace > 1 {
            return false;
        }
        true
    }
}

/// Big-endian 32-bit value at `i`.
pub fn read_be32(data: &[u8], i: usize) -> (r: u32)
    requires
        i + 4 <= data@.len(),
    ensures
        r == be32(data@, i as int),
{
    (data[i] as u32) * 16777216 + (data[i + 1] as u32) * 65536 + (data[i + 2] as u32) * 256 + (data[i + 3] as u32)
}

/// What the parser learned about a stream.
#[derive(Debug, Clone)]
pub struct PngStructure {
    pub chunks: Vec<PngChunk>,
    pub ihdr: Option<IhdrData>,
    pub idat_offsets: Vec<u64>,
    pub idat_total_size: u64,
    pub corruption_point: Option<u64>,
    pub invalid_crc_count: usize,
    pub valid_end_offset: u64,
}

/// The value of a [`PngStructure`], its lists as sequences.
#[verifier::ext_equal]
pub struct PngModel {
    pub chunks: Seq<PngChunk>,
    pub ihdr: Option<IhdrData>,
    pub idat_offsets: Seq<u64>,
    pub idat_total_size: u64,
    pub corruption_point: Option<u64>,
    pub invalid_crc_count: usize,
    pub valid_end_offset: u64,
}

impl View for PngStructure {
    type V = PngModel;

    open spec fn view(&self) -> PngModel {
        PngModel {
            chunks: self.chunks@,
            ihdr: self.ihdr,
            idat_offsets: self.idat_offsets@,
            idat_total_size: self.idat_total_size,
            corruption_point: self.corruption_point,
            invalid_crc_count: self.invalid_crc_count,
            valid_end_offset: self.valid_end_offset,
        }
    }
}

/// A structure holding nothing.
pub open spec fn empty_png_model() -> PngModel {
    PngModel {
        chunks: Seq::empty(),
        ihdr: None,
        idat_offsets: Seq::empty(),
        idat_total_size: 0,
        corruption_point: None,
        invalid_crc_count: 0,
        valid_end_offset: 0,
    }
}

impl Default for PngStructure {
    fn default() -> (r: Self)
        ensures
            r@ == empty_png_model(),
    {
        PngStructure {
            chunks: Vec::new(),
            ihdr: None,
            idat_offsets: Vec::new(),
            idat_total_size: 0,
            corruption_point: None,
            invalid_crc_count: 0,
            valid_end_offset: 0,
        }
    }
}

/// The type code of the chunk whose length field is at `pos`.
pub open spec fn code_at(d: Seq<u8>, pos: int) -> [u8; 4] {
    [d[pos + 4], d[pos + 5], d[pos + 6], d[pos + 7]]
}

/// The chunk record for the chunk at `pos` with data length `len`.
pub open spec fn chunk_at(d: Seq<u8>, pos: int, len: u32) -> PngChunk {
    let code = code_at(d, pos);
    let stored = be32(d, pos + 8 + len);
    let calculated = chunk_crc_spec(code@, d.subrange(pos + 8, pos + 8 + len));
    PngChunk {
        length: len,
        chunk_type: chunk_type_of(code),
        chunk_type_bytes: code,
        offset: pos as u64,
        stored_crc: stored,
        calculated_crc: calculated,
        crc_valid: stored == calculated,
    }
}

/// The model once the walk stops at `pos` without reaching IEND.
pub open spec fn png_finish(m: PngModel, pos: int) -> PngModel {
    if m.valid_end_offset == 0 {
        PngModel { valid_end_offset: pos as u64, ..m }
    } else {
        m
    }
}

/// The model the chunk walk over `d` ends with, from `pos` with `m` learned
/// so far.
pub open spec fn png_scan(d: Seq<u8>, pos: int, m: PngModel) -> PngModel
    decreases d.len() - pos,
{
    let n = d.len();
    if pos < 0 || pos + 12 > n {
        png_finish(m, pos)
    } else {
        let len = be32(d, pos);
        if len > 0x7FFFFFFF || pos + 12 + len > n {
            png_finish(PngModel { corruption_point: Some(pos as u64), ..m }, pos)
        } else {
            let c = chunk_at(d, pos, len);
            let next = pos + 12 + len;
            let m1 = if c.crc_valid {
                m
            } else {
                PngModel { invalid_crc_count: (m.invalid_crc_count + 1) as usize, ..m }
            };
            match c.chunk_type {
                ChunkType::Ihdr => {
                    let m2 = match ihdr_of(d.subrange(pos + 8, pos + 8 + len)) {
                        Some(h) => PngModel { ihdr: Some(h), ..m1 },
                        None => m1,
                    };
                    png_scan(d, next, PngModel { chunks: m2.chunks.push(c), ..m2 })
                },
                ChunkType::Idat => {
                    let m2 = PngModel {
                        idat_offsets: m1.idat_offsets.push((pos + 8) as u64),
                        idat_total_size: (m1.idat_total_size + len) as u64,
                        ..m1
                    };
                    png_scan(d, next, PngModel { chunks: m2.chunks.push(c), ..m2 })
                },
                ChunkType::Iend => PngModel { chunks: m1.chunks.push(c), valid_end_offset: next as u64, ..m1 },
                _ => png_scan(d, next, PngModel { chunks: m1.chunks.push(c), ..m1 }),
            }
        }
    }
}

/// Whether `d` is long enough for a PNG and opens with the signature.
pub open spec fn png_header_ok(d: Seq<u8>) -> bool {
    d.len() >= 45 && d[0] == 0x89 && d[1] == 0x50 && d[2] == 0x4E && d[3] == 0x47 && d[4] == 0x0D
        && d[5] == 0x0A && d[6] == 0x1A && d[7] == 0x0A
}

/// The structure the parser reports for `d` when [`png_header_ok`] holds.
pub open spec fn png_parse_spec(d: Seq<u8>) -> PngModel {
    png_scan(d, 8, empty_png_model())
}

/// Where the chunk `c` ends: its length field, type code and CRC, twelve
/// bytes, plus its data.
pub open spec fn chunk_end(c: PngChunk) -> int {
    c.offset + 12 + c.length
}

/// The chunk `c` lies inside `d`, with the length and type code written
/// at its offset.
pub open spec fn chunk_lies_in(d: Seq<u8>, c: PngChunk) -> bool {
    &&& chunk_end(c) <= d.len()
    &&& be32(d, c.offset as int) == c.length
    &&& c.chunk_type_bytes == code_at(d, c.offset as int)
}

/// The chunks of `s` follow each other through `d` with no gap: the first
/// starts right after the eight-byte signature, each next one where the one
/// before it ends, and every one lies inside `d` as written there.
pub open spec fn chunks_follow_on(d: Seq<u8>, s: Seq<PngChunk>) -> bool {
    &&& s.len() > 0 ==> s[0].offset == 8
    &&& forall|i: int, j: int| 0 <= i && j == i + 1 && j < s.len() ==> #[trigger] s[j].offset == chunk_end(
        #[trigger] s[i],
    )
    &&& forall|k: int| 0 <= k < s.len() ==> chunk_lies_in(d, #[trigger] s[k])
}

/// Where the walk over `s` has got to: after the signature when no chunk was
/// read, else where the last chunk ends.
pub open spec fn walk_end(s: Seq<PngChunk>) -> int {
    if s.len() == 0 {
        8
    } else {
        chunk_end(s.last())
    }
}

/// From any point of the walk at which the chunks so far follow on and end
/// at `pos`, the chunks the walk ends with follow on.
proof fn lemma_scan_chunks_follow_on(d: Seq<u8>, pos: int, m: PngModel)
    requires
        d.len() <= u64::MAX,
        chunks_follow_on(d, m.chunks),
        walk_end(m.chunks) == pos,
    ensures
        chunks_follow_on(d, png_scan(d, pos, m).chunks),
    decreases d.len() - pos,
{
    let n = d.len();
    if pos < 0 || pos + 12 > n {
    } else {
        let len = be32(d, pos);
        if len > 0x7FFFFFFF || pos + 12 + len > n {
        } else {
            let c = chunk_at(d, pos, len);
            let next = pos + 12 + len;
            let m1 = if c.crc_valid {
                m
            } else {
                PngModel { invalid_crc_count: (m.invalid_crc_count + 1) as usize, ..m }
            };
            let s = m.chunks;
            let t = s.push(c);
            assert(chunk_lies_in(d, c));
            assert(chunks_follow_on(d, t)) by {
                assert forall|k: int| 0 <= k < t.len() implies chunk_lies_in(d, #[trigger] t[k]) by {
                    if k < s.len() {
                        assert(t[k] == s[k]);
                    }
                }
                assert forall|i: int, j: int| 0 <= i && j == i + 1 && j < t.len() implies #[trigger] t[j].offset
                    == chunk_end(#[trigger] t[i]) by {
                    assert(t[i] == s[i]);
                    if j < s.len() {
                        assert(t[j] == s[j]);
                    } else {
                        assert(s.last() == s[i]);
                    }
                }
            }
            assert(walk_end(t) == next);
            assert(m1.chunks == s);
            match c.chunk_type {
                ChunkType::Ihdr => {
                    let m2 = match ihdr_of(d.subrange(pos + 8, pos + 8 + len)) {
                        Some(h) => PngModel { ihdr: Some(h), ..m1 },
                        None => m1,
                    };
                    lemma_scan_chunks_follow_on(d, next, PngModel { chunks: m2.chunks.push(c), ..m2 });
                },
                ChunkType::Idat => {
                    let m2 = PngModel {
                        idat_offsets: m1.idat_offsets.push((pos + 8) as u64),
                        idat_total_size: (m1.idat_total_size + len) as u64,
                        ..m1
                    };
                    lemma_scan_chunks_follow_on(d, next, PngModel { chunks: m2.chunks.push(c), ..m2 });
                },
                ChunkType::Iend => {},
                _ => lemma_scan_chunks_follow_on(d, next, PngModel { chunks: m1.chunks.push(c), ..m1 }),
            }
        }
    }
}

/// The chunks the parser reports for a stream that opens with the PNG
/// signature follow each other with no gap: the first starts right after the
/// signature, each next one where the one before it ends, and every one lies
/// inside the stream with the length and type code written there.
pub proof fn lemma_parsed_chunks_follow_on(d: Seq<u8>)
    requires
        png_header_ok(d),
        d.len() <= usize::MAX,
    ensures
        chunks_follow_on(d, png_parse_spec(d).chunks),
{
    lemma_scan_chunks_follow_on(d, 8, empty_png_model());
}

/// The PNG chunk parser. Stateless.
pub struct PngParser;

impl PngParser {
    #[inline]
    pub fn new() -> (r: Self) {
        PngParser
    }

    /// Parses the chunk structure of `data`.
    ///
    /// Fails exactly when `data` is shorter than [`super::MIN_PNG_SIZE`] or
    /// does not open with the PNG signature; otherwise the structure is
    /// [`png_parse_spec`] of `data`.
    pub fn parse(&self, data: &[u8]) -> (r: Result<PngStructure, CoreError>)
        requires
            data@.len() + 12 <= usize::MAX,
        ensures
            r is Err <==> !png_header_ok(data@),
            r matches Ok(s) ==> s@ == png_parse_spec(data@),
    {
        if data.len() < 45 {
            return Err(CoreError::InvalidFormat("Data too short for PNG".to_string()));
        }
        if data[0] != 0x89 || data[1] != 0x50 || data[2] != 0x4E || data[3] != 0x47 || data[4] != 0x0D
            || data[5] != 0x0A || data[6] != 0x1A || data[7] != 0x0A {
            return Err(CoreError::InvalidFormat("Missing PNG signature".to_string()));
        }
        let ghost d = data@;
        let ghost target = png_parse_spec(d);
        let table = generate_crc_table();
        let mut structure = PngStructure::default();
        let n = data.len();
        let mut pos: usize = 8;
        while pos + 12 <= n
            invariant_except_break
                n == d.len(),
                d == data@,
                n + 12 <= usize::MAX,
                png_header_ok(d),
                target == png_parse_spec(d),
                is_crc_table(table@),
                8 <= pos <= n,
                structure.invalid_crc_count <= pos,
                structure.idat_total_size <= pos,
                png_scan(d, pos as int, structure@) == target,
            ensures
                pos <= n,
                png_finish(structure@, pos as int) == target,
            decreases n - pos,
        {
            let length = read_be32(data, pos);
            if length > 0x7FFFFFFF {
                structure.corruption_point = Some(pos as u64);
                break;
            }
            if length as usize > n - pos - 12 {
                structure.corruption_point = Some(pos as u64);
                break;
            }
            let ghost m0 = structure@;
            let chunk_type_bytes: [u8; 4] = [data[pos + 4], data[pos + 5], data[pos + 6], data[pos + 7]];
            assert(chunk_type_bytes == code_at(d, pos as int));
            let chunk_type = ChunkType::from_bytes(&chunk_type_bytes);
            let data_start = pos + 8;
            let data_end = data_start + length as usize;
            let chunk_data = slice_subrange(data, data_start, data_end);
            let stored_crc = read_be32(data, data_end);
            let calculated_crc = chunk_crc_with(&table, &chunk_type_bytes, chunk_data);
            let crc_valid = stored_crc == calculated_crc;
            if !crc_valid {
                structure.invalid_crc_count += 1;
            }
            let chunk = PngChunk {
                length,
                chunk_type,
                chunk_type_bytes,
                offset: pos as u64,
                stored_crc,
                calculated_crc,
                crc_valid,
            };
            assert(chunk == chunk_at(d, pos as int, length));
            let next = pos + 12 + length as usize;
            match chunk_type {
                ChunkType::Ihdr => {
                    if let Some(ihdr) = IhdrData::from_bytes(chunk_data) {
                        structure.ihdr = Some(ihdr);
                    }
                },
                ChunkType::Idat => {
                    structure.idat_offsets.push(data_start as u64);
                    structure.idat_total_size = structure.idat_total_size + length as u64;
                },
                ChunkType::Iend => {
                    structure.chunks.push(chunk);
                    structure.valid_end_offset = next as u64;
                    assert(structure@ =~= target);
                    return Ok(structure);
                },
                _ => {},
            }
            structure.chunks.push(chunk);
            pos = next;
        }
        if structure.valid_end_offset == 0 {
            structure.valid_end_offset = pos as u64;
        }
        Ok(structure)
    }

    /// The data of `chunk` within `data`; `None` when it does not fit.
    pub fn extract_chunk_data<'a>(&self, data: &'a [u8], chunk: &PngChunk) -> (r: Option<&'a [u8]>)
        requires
            chunk.offset + 8 + chunk.length <= usize::MAX,
        ensures
            match r {
                Some(s) => chunk.offset + 8 + chunk.length <= data@.len()
                    && s@ == data@.subrange(chunk.offset + 8, chunk.offset + 8 + chunk.length),
                None => chunk.offset + 8 + chunk.length > data@.len(),
            },
    {
        let start = chunk.data_offset() as usize;
        let end = start + chunk.length as usize;
        if end <= data.len() {
            Some(slice_subrange(data, start, end))
        } else {
            None
        }
    }
}

impl Default for PngParser {
    fn default() -> (r: Self) {
        PngParser
    }
}

} // verus!
