//! Verdicts on parsed PNG structure, and the repairs a chunk CRC allows.

use vstd::prelude::*;

use super::parser::{be32, depth_allowed, png_header_ok, png_parse_spec, ChunkType, IhdrData, PngChunk, PngModel, PngParser, PngStructure};
use super::{chunk_crc_spec, crc_fold, generate_crc_table, is_crc_table};

verus! {

/// Why a PNG was judged damaged.
#[derive(Debug, Clone, PartialEq, Eq)]
pub enum PngCorruptionReason {
    MissingIhdr,
    MissingIend,
    InvalidIhdr,
    CrcMismatch { chunk_offset: u64, chunk_type: [u8; 4] },
    InvalidChunkLength { offset: u64 },
    IdatDecompressionError,
    UnexpectedEof,
    InvalidChunkOrder,
}

/// The verdict on one buffer.
#[derive(Debug, Clone)]
pub enum PngValidationResult {
    Valid(PngStructure),
    RecoverableCrcErrors { structure: PngStructure, errors: Vec<PngCorruptionReason> },
    CorruptedAt { offset: u64, reason: PngCorruptionReason, partial_structure: PngStructure },
    Truncated { last_valid_offset: u64, partial_structure: PngStructure },
    InvalidHeader,
}

/// The verdict without the structure it carries.
pub enum PngVerdict {
    Valid,
    /// Every chunk with a bad CRC, as offset and type code, in file order.
    RecoverableCrcErrors(Seq<(u64, [u8; 4])>),
    MissingIhdr,
    InvalidIhdr,
    Truncated(u64),
    InvalidChunkLength(u64),
    InvalidHeader,
}

/// Whether some chunk is of type `t`.
pub open spec fn has_chunk(cs: Seq<PngChunk>, t: ChunkType) -> bool {
    exists|i: int| 0 <= i < cs.len() && cs[i].chunk_type == t
}

/// The chunks whose CRC did not match, as offset and type code, in order.
pub open spec fn crc_failures(cs: Seq<PngChunk>) -> Seq<(u64, [u8; 4])>
    decreases cs.len(),
{
    if cs.len() == 0 {
        Seq::empty()
    } else {
        let rest = crc_failures(cs.drop_last());
        if cs.last().crc_valid {
            rest
        } else {
            rest.push((cs.last().offset, cs.last().chunk_type_bytes))
        }
    }
}

/// The verdict on a parsed structure: IHDR must be present and (when it
/// parsed) valid, IEND must be reached, no chunk may overrun, and CRC
/// failures leave the image usable but reported.
pub open spec fn png_verdict_of(s: PngModel) -> PngVerdict {
    if !has_chunk(s.chunks, ChunkType::Ihdr) {
        PngVerdict::MissingIhdr
    } else if s.ihdr matches Some(h) && !h.is_valid_spec() {
        PngVerdict::InvalidIhdr
    } else if !has_chunk(s.chunks, ChunkType::Iend) {
        PngVerdict::Truncated(s.valid_end_offset)
    } else if s.corruption_point is Some {
        PngVerdict::InvalidChunkLength(s.corruption_point->0)
    } else if crc_failures(s.chunks).len() > 0 {
        PngVerdict::RecoverableCrcErrors(crc_failures(s.chunks))
    } else {
        PngVerdict::Valid
    }
}

/// The verdict on a buffer.
pub open spec fn png_verdict(d: Seq<u8>) -> PngVerdict {
    if !png_header_ok(d) {
        PngVerdict::InvalidHeader
    } else {
        png_verdict_of(png_parse_spec(d))
    }
}

/// Whether `errors` lists exactly the CRC failures `f`.
pub open spec fn lists_failures(errors: Seq<PngCorruptionReason>, f: Seq<(u64, [u8; 4])>) -> bool {
    errors.len() == f.len() && forall|i: int| 0 <= i < f.len() ==>
        (#[trigger] errors[i]) == PngCorruptionReason::CrcMismatch { chunk_offset: f[i].0, chunk_type: f[i].1 }
}

/// Whether `r` states verdict `v`.
pub open spec fn png_states(r: PngValidationResult, v: PngVerdict) -> bool {
    match r {
        PngValidationResult::Valid(_) => v is Valid,
        PngValidationResult::RecoverableCrcErrors { errors, .. } => v matches PngVerdict::RecoverableCrcErrors(f)
            && lists_failures(errors@, f),
        PngValidationResult::CorruptedAt { offset, reason, .. } => match v {
            PngVerdict::MissingIhdr => offset == 8 && reason == PngCorruptionReason::MissingIhdr,
            PngVerdict::InvalidIhdr => offset == 8 && reason == PngCorruptionReason::InvalidIhdr,
            PngVerdict::InvalidChunkLength(o) => offset == o && reason == PngCorruptionReason::InvalidChunkLength { offset: o },
            _ => false,
        },
        PngValidationResult::Truncated { last_valid_offset, .. } => v == PngVerdict::Truncated(last_valid_offset),
        PngValidationResult::InvalidHeader => v is InvalidHeader,
    }
}

/// The structure a result carries, if any.
pub open spec fn png_carried(r: PngValidationResult) -> Option<PngModel> {
    match r {
        PngValidationResult::Valid(s) => Some(s@),
        PngValidationResult::RecoverableCrcErrors { structure, .. } => Some(structure@),
        PngValidationResult::CorruptedAt { partial_structure, .. } => Some(partial_structure@),
        PngValidationResult::Truncated { partial_structure, .. } => Some(partial_structure@),
        PngValidationResult::InvalidHeader => None,
    }
}

/// An image header PNG forbids: a zero width or height, a bit depth its
/// colour type does not allow, or a compression, filter or interlace method
/// PNG does not define.
pub open spec fn header_forbidden(h: IhdrData) -> bool {
    h.width == 0 || h.height == 0 || !depth_allowed(h.color_type, h.bit_depth) || h.compression != 0 || h.filter
        != 0 || h.interlace > 1
}

/// A buffer whose image header is one PNG forbids is never judged usable:
/// neither valid nor valid apart from CRC errors.
pub proof fn lemma_forbidden_header_is_never_usable(d: Seq<u8>)
    requires
        png_parse_spec(d).ihdr matches Some(h) && header_forbidden(h),
    ensures
        !(png_verdict(d) is Valid),
        !(png_verdict(d) is RecoverableCrcErrors),
{
}

/// A buffer judged usable (valid, or valid apart from CRC errors) opens with
/// the PNG signature, has an IHDR chunk, and its header, when it parsed, is
/// one PNG allows; it reaches IEND, and no chunk overruns.
pub proof fn lemma_usable_png_is_well_formed(d: Seq<u8>)
    requires
        png_verdict(d) is Valid || png_verdict(d) is RecoverableCrcErrors,
    ensures
        png_header_ok(d),
        has_chunk(png_parse_spec(d).chunks, ChunkType::Ihdr),
        has_chunk(png_parse_spec(d).chunks, ChunkType::Iend),
        png_parse_spec(d).corruption_point is None,
        png_parse_spec(d).ihdr matches Some(h) ==> !header_forbidden(h),
{
}

impl IhdrData {
    /// Whether the header is one PNG allows; see [`IhdrData::is_valid`].
    pub open spec fn is_valid_spec(self) -> bool {
        self.width != 0 && self.height != 0 && super::parser::depth_allowed(self.color_type, self.bit_depth)
            && self.compression == 0 && self.filter == 0 && self.interlace <= 1
    }
}

impl PngValidationResult {
    /// Whether the image can be used as it is: valid, or valid apart from
    /// CRC failures.
    pub fn is_usable(&self) -> (r: bool)
        ensures
            r == (*self is Valid || *self is RecoverableCrcErrors),
    {
        match self {
            PngValidationResult::Valid(_) | PngValidationResult::RecoverableCrcErrors { .. } => true,
            _ => false,
        }
    }

    /// The structure the verdict carries; none for a non-PNG.
    pub fn structure(&self) -> (r: Option<&PngStructure>)
        ensures
            match r {
                Some(s) => png_carried(*self) == Some(s@),
                None => png_carried(*self) is None,
            },
    {
        match self {
            PngValidationResult::Valid(s) => Some(s),
            PngValidationResult::RecoverableCrcErrors { structure, .. } => Some(structure),
            PngValidationResult::CorruptedAt { partial_structure, .. } => Some(partial_structure),
            PngValidationResult::Truncated { partial_structure, .. } => Some(partial_structure),
            PngValidationResult::InvalidHeader => None,
        }
    }
}

/// The chunk data `data[start..end]` with byte `i` of it replaced by `v`.
pub open spec fn patched(d: Seq<u8>, start: int, end: int, i: int, v: u8) -> Seq<u8> {
    d.subrange(start, end).update(i, v)
}

/// Whether `chunk` lies inside a buffer of `n` bytes.
pub open spec fn chunk_fits(chunk: PngChunk, n: int) -> bool {
    chunk.offset + 8 + chunk.length <= n
}

/// Judges PNG buffers by their chunk structure.
pub struct PngValidator {
    parser: PngParser,
}

impl PngValidator {
    pub fn new() -> (r: Self) {
        PngValidator { parser: PngParser::new() }
    }

    /// The verdict on `data`, carrying the parsed structure: [`png_verdict`].
    pub fn validate(&self, data: &[u8]) -> (r: PngValidationResult)
        requires
            data@.len() + 12 <= usize::MAX,
        ensures
            png_states(r, png_verdict(data@)),
            png_header_ok(data@) ==> png_carried(r) == Some(png_parse_spec(data@)),
            (png_parse_spec(data@).ihdr matches Some(h) && header_forbidden(h)) ==> !(r is Valid)
                && !(r is RecoverableCrcErrors),
    {
        let structure = match self.parser.parse(data) {
            Ok(s) => s,
            Err(_) => return PngValidationResult::InvalidHeader,
        };
        if !has_chunk_of_type(&structure, ChunkType::Ihdr) {
            return PngValidationResult::CorruptedAt {
                offset: 8,
                reason: PngCorruptionReason::MissingIhdr,
                partial_structure: structure,
            };
        }
        if let Some(ihdr) = structure.ihdr {
            if !ihdr.is_valid() {
                return PngValidationResult::CorruptedAt {
                    offset: 8,
                    reason: PngCorruptionReason::InvalidIhdr,
                    partial_structure: structure,
                };
            }
        }
        if !has_chunk_of_type(&structure, ChunkType::Iend) {
            return PngValidationResult::Truncated {
                last_valid_offset: structure.valid_end_offset,
                partial_structure: structure,
            };
        }
        if let Some(offset) = structure.corruption_point {
            return PngValidationResult::CorruptedAt {
                offset,
                reason: PngCorruptionReason::InvalidChunkLength { offset },
                partial_structure: structure,
            };
        }
        let crc_errors = collect_crc_failures(&structure);
        if crc_errors.len() > 0 {
            return PngValidationResult::RecoverableCrcErrors { structure, errors: crc_errors };
        }
        PngValidationResult::Valid(structure)
    }

    /// Tries to make the chunk's data match its stored CRC by changing one
    /// byte, then (when `max_corrupt_bytes` allows two and the chunk holds at
    /// most 64 bytes) two bytes.
    ///
    /// On success the repaired bytes stay in `data` and the index, within
    /// the chunk's data, of the first changed byte is returned; at most one
    /// later byte of the chunk changed besides it. `None` leaves
    /// `data` as it was and means no such change exists.
    pub fn attempt_crc_repair(&self, data: &mut [u8], chunk: &PngChunk, max_corrupt_bytes: usize) -> (r: Option<usize>)
        requires
            chunk.offset + 8 + chunk.length <= usize::MAX,
        ensures
            final(data)@.len() == old(data)@.len(),
            ({
                let start = chunk.offset + 8;
                let end = chunk.offset + 8 + chunk.length;
                let old_d = old(data)@;
                let new_d = final(data)@;
                match r {
                    None => {
                        &&& new_d == old_d
                        &&& (max_corrupt_bytes >= 1 && end <= old_d.len()) ==> forall|i: int, v: u8|
                            0 <= i < chunk.length && v != old_d[start + i]
                            ==> chunk_crc_spec(chunk.chunk_type_bytes@, #[trigger] patched(old_d, start, end, i, v))
                                != chunk.stored_crc
                        &&& (max_corrupt_bytes >= 2 && end <= old_d.len() && chunk.length <= 64) ==> forall|i: int, j: int, a: u8, b: u8|
                            0 <= i < j < chunk.length ==> chunk_crc_spec(chunk.chunk_type_bytes@,
                                #[trigger] old_d.subrange(start, end).update(i, a).update(j, b)) != chunk.stored_crc
                    },
                    Some(i) => {
                        &&& max_corrupt_bytes >= 1 && end <= old_d.len()
                        &&& i < chunk.length
                        &&& chunk_crc_spec(chunk.chunk_type_bytes@, new_d.subrange(start, end)) == chunk.stored_crc
                        &&& forall|k: int| 0 <= k < old_d.len() && k != start + i && new_d[k] != old_d[k]
                            ==> start + i < k < end && max_corrupt_bytes >= 2
                        &&& forall|k1: int, k2: int|
                            0 <= k1 < old_d.len() && 0 <= k2 < old_d.len() && k1 != start + i && k2 != start + i
                                && #[trigger] new_d[k1] != old_d[k1] && #[trigger] new_d[k2] != old_d[k2] ==> k1 == k2
                    },
                }
            }),
    {
        if max_corrupt_bytes == 0 {
            return None;
        }
        let data_start = chunk.offset as usize + 8;
        let data_end = data_start + chunk.length as usize;
        if data_end > data.len() {
            return None;
        }
        let ghost old_d = data@;
        let table = generate_crc_table();
        let expected_crc = chunk.stored_crc;
        let len = chunk.length as usize;
        let mut i: usize = 0;
        while i < len
            invariant
                data_start + len == data_end <= old_d.len(),
                old_d == old(data)@,
                len == chunk.length,
                data_start == chunk.offset + 8,
                max_corrupt_bytes >= 1,
                is_crc_table(table@),
                data@ == old_d,
                i <= len,
                expected_crc == chunk.stored_crc,
                forall|k: int, v: u8| 0 <= k < i && v != old_d[data_start + k]
                    ==> chunk_crc_spec(chunk.chunk_type_bytes@, #[trigger] patched(old_d, data_start as int, data_end as int, k, v))
                        != expected_crc,
            decreases len - i,
        {
            let original = data[data_start + i];
            let mut candidate: u16 = 0;
            while candidate < 256
                invariant
                    data_start + len == data_end <= old_d.len(),
                old_d == old(data)@,
                    len == chunk.length,
                    data_start == chunk.offset + 8,
                    max_corrupt_bytes >= 1,
                    is_crc_table(table@),
                    i < len,
                    original == old_d[data_start + i],
                    candidate <= 256,
                    expected_crc == chunk.stored_crc,
                    data@.len() == old_d.len(),
                    forall|k: int| 0 <= k < old_d.len() && k != data_start + i ==> data@[k] == old_d[k],
                                        forall|v: u8| v < candidate && v != original
                        ==> chunk_crc_spec(chunk.chunk_type_bytes@, #[trigger] patched(old_d, data_start as int, data_end as int, i as int, v))
                            != expected_crc,
                decreases 256 - candidate,
            {
                let c = candidate as u8;
                if c != original {
                    data[data_start + i] = c;
                    let ghost cur = data@;
                    assert(cur.subrange(data_start as int, data_end as int)
                        =~= patched(old_d, data_start as int, data_end as int, i as int, c));
                    let crc = crc_of_range(&table, &chunk.chunk_type_bytes, data, data_start, data_end);
                    if crc == expected_crc {
                        proof {
                            assert forall|k: int| 0 <= k < old_d.len() && k != data_start + i && cur[k] != old_d[k]
                                implies data_start + i < k < data_end && max_corrupt_bytes >= 2 by {}
                        }
                        return Some(i);
                    }
                }
                candidate += 1;
            }
            data[data_start + i] = original;
            assert(data@ =~= old_d);
            i += 1;
        }
        if max_corrupt_bytes >= 2 && len <= 64 {
            let r = self.repair_two_bytes(data, chunk, &table, data_start, data_end);
            return r;
        }
        None
    }

    /// The second stage of [`PngValidator::attempt_crc_repair`]: every pair
    /// of positions, every pair of values.
    fn repair_two_bytes(&self, data: &mut [u8], chunk: &PngChunk, table: &Vec<u32>, data_start: usize, data_end: usize)
        -> (r: Option<usize>)
        requires
            is_crc_table(table@),
            data_start == chunk.offset + 8,
            data_end == data_start + chunk.length,
            data_end <= old(data)@.len(),
        ensures
            final(data)@.len() == old(data)@.len(),
            match r {
                None => {
                    &&& final(data)@ == old(data)@
                    &&& forall|i: int, j: int, a: u8, b: u8| 0 <= i < j < chunk.length ==> chunk_crc_spec(
                        chunk.chunk_type_bytes@,
                        #[trigger] old(data)@.subrange(data_start as int, data_end as int).update(i, a).update(j, b),
                    ) != chunk.stored_crc
                },
                Some(i) => {
                    &&& i < chunk.length
                    &&& chunk_crc_spec(chunk.chunk_type_bytes@, final(data)@.subrange(data_start as int, data_end as int))
                        == chunk.stored_crc
                    &&& forall|k: int| 0 <= k < old(data)@.len() && k != data_start + i && final(data)@[k] != old(data)@[k]
                        ==> data_start + i < k < data_end
                    &&& forall|k1: int, k2: int|
                        0 <= k1 < old(data)@.len() && 0 <= k2 < old(data)@.len() && k1 != data_start + i
                            && k2 != data_start + i && #[trigger] final(data)@[k1] != old(data)@[k1]
                            && #[trigger] final(data)@[k2] != old(data)@[k2] ==> k1 == k2
                },
            },
    {
        let ghost old_d = data@;
        let ghost chunk_d = old_d.subrange(data_start as int, data_end as int);
        let len = chunk.length as usize;
        let expected_crc = chunk.stored_crc;
        let mut i: usize = 0;
        while i < len
            invariant
                is_crc_table(table@),
                data_start + len == data_end <= old_d.len(),
                old_d == old(data)@,
                len == chunk.length,
                chunk_d == old_d.subrange(data_start as int, data_end as int),
                expected_crc == chunk.stored_crc,
                data@ == old_d,
                i <= len,
                forall|p: int, q: int, a: u8, b: u8| 0 <= p < i && p < q < len ==> chunk_crc_spec(
                    chunk.chunk_type_bytes@,
                    #[trigger] chunk_d.update(p, a).update(q, b),
                ) != expected_crc,
            decreases len - i,
        {
            let mut j: usize = i + 1;
            while j < len
                invariant
                    is_crc_table(table@),
                    data_start + len == data_end <= old_d.len(),
                old_d == old(data)@,
                    len == chunk.length,
                    chunk_d == old_d.subrange(data_start as int, data_end as int),
                    expected_crc == chunk.stored_crc,
                    data@ == old_d,
                    i < len,
                    i + 1 <= j <= len,
                    forall|p: int, q: int, a: u8, b: u8| 0 <= p < i && p < q < len ==> chunk_crc_spec(
                        chunk.chunk_type_bytes@,
                        #[trigger] chunk_d.update(p, a).update(q, b),
                    ) != expected_crc,
                    forall|q: int, a: u8, b: u8| i < q < j ==> chunk_crc_spec(
                        chunk.chunk_type_bytes@,
                        #[trigger] chunk_d.update(i as int, a).update(q, b),
                    ) != expected_crc,
                decreases len - j,
            {
                let orig_i = data[data_start + i];
                let orig_j = data[data_start + j];
                let mut ci: u16 = 0;
                while ci < 256
                    invariant
                        is_crc_table(table@),
                        data_start + len == data_end <= old_d.len(),
                old_d == old(data)@,
                        len == chunk.length,
                        chunk_d == old_d.subrange(data_start as int, data_end as int),
                        expected_crc == chunk.stored_crc,
                        i < j < len,
                        orig_i == old_d[data_start + i],
                        orig_j == old_d[data_start + j],
                        ci <= 256,
                        data@.len() == old_d.len(),
                        forall|k: int| 0 <= k < old_d.len() && k != data_start + i && k != data_start + j
                            ==> data@[k] == old_d[k],
                        forall|a: u8, b: u8| a < ci ==> chunk_crc_spec(
                            chunk.chunk_type_bytes@,
                            #[trigger] chunk_d.update(i as int, a).update(j as int, b),
                        ) != expected_crc,
                    decreases 256 - ci,
                {
                    data[data_start + i] = ci as u8;
                    let mut cj: u16 = 0;
                    while cj < 256
                        invariant
                            is_crc_table(table@),
                            data_start + len == data_end <= old_d.len(),
                old_d == old(data)@,
                            len == chunk.length,
                            chunk_d == old_d.subrange(data_start as int, data_end as int),
                            expected_crc == chunk.stored_crc,
                            i < j < len,
                            ci < 256,
                            cj <= 256,
                            data@.len() == old_d.len(),
                            data@[data_start + i] == ci as u8,
                            forall|k: int| 0 <= k < old_d.len() && k != data_start + i && k != data_start + j
                                ==> data@[k] == old_d[k],
                            forall|b: u8| b < cj ==> chunk_crc_spec(
                                chunk.chunk_type_bytes@,
                                #[trigger] chunk_d.update(i as int, ci as u8).update(j as int, b),
                            ) != expected_crc,
                        decreases 256 - cj,
                    {
                        data[data_start + j] = cj as u8;
                        let ghost cur = data@;
                        assert(cur.subrange(data_start as int, data_end as int)
                            =~= chunk_d.update(i as int, ci as u8).update(j as int, cj as u8));
                        let crc = crc_of_range(table, &chunk.chunk_type_bytes, data, data_start, data_end);
                        if crc == expected_crc {
                            return Some(i);
                        }
                        cj += 1;
                    }
                    ci += 1;
                }
                data[data_start + i] = orig_i;
                data[data_start + j] = orig_j;
                assert(data@ =~= old_d);
                j += 1;
            }
            i += 1;
        }
        None
    }

    /// Writes the CRC the chunk's contents call for over the CRC it carries.
    /// `false`, with `data` untouched, when the CRC field lies outside `data`.
    pub fn repair_crc_value(&self, data: &mut [u8], chunk: &PngChunk) -> (r: bool)
        requires
            chunk.offset + 8 + chunk.length + 4 <= usize::MAX,
        ensures
            ({
                let at = chunk.offset + 8 + chunk.length;
                let c = chunk.calculated_crc;
                &&& r == (at + 4 <= old(data)@.len())
                &&& r ==> final(data)@ == old(data)@.update(at, (c / 16777216) as u8).update(at + 1, ((c / 65536) % 256) as u8)
                    .update(at + 2, ((c / 256) % 256) as u8).update(at + 3, (c % 256) as u8)
                &&& !r ==> final(data)@ == old(data)@
            }),
    {
        let crc_offset = chunk.crc_offset() as usize;
        if crc_offset > data.len() || data.len() - crc_offset < 4 {
            return false;
        }
        let c = chunk.calculated_crc;
        data[crc_offset] = (c / 16777216) as u8;
        data[crc_offset + 1] = ((c / 65536) % 256) as u8;
        data[crc_offset + 2] = ((c / 256) % 256) as u8;
        data[crc_offset + 3] = (c % 256) as u8;
        true
    }
}

/// Whether the structure holds a chunk of type `t`.
fn has_chunk_of_type(structure: &PngStructure, t: ChunkType) -> (r: bool)
    ensures
        r == has_chunk(structure@.chunks, t),
{
    let mut i: usize = 0;
    while i < structure.chunks.len()
        invariant
            i <= structure.chunks@.len(),
            forall|k: int| 0 <= k < i ==> structure.chunks@[k].chunk_type != t,
        decreases structure.chunks.len() - i,
    {
        if same_chunk_type(structure.chunks[i].chunk_type, t) {
            return true;
        }
        i += 1;
    }
    false
}

/// Whether two chunk types are the same.
fn same_chunk_type(a: ChunkType, b: ChunkType) -> (r: bool)
    ensures
        r == (a == b),
{
    match (a, b) {
        (ChunkType::Other(x), ChunkType::Other(y)) => {
            let same = x[0] == y[0] && x[1] == y[1] && x[2] == y[2] && x[3] == y[3];
            if same {
                assert(x =~= y);
            }
            same
        },
        (ChunkType::Ihdr, ChunkType::Ihdr) | (ChunkType::Plte, ChunkType::Plte) | (ChunkType::Idat, ChunkType::Idat)
        | (ChunkType::Iend, ChunkType::Iend) | (ChunkType::Gama, ChunkType::Gama) | (ChunkType::Chrm, ChunkType::Chrm)
        | (ChunkType::Srgb, ChunkType::Srgb) | (ChunkType::Iccp, ChunkType::Iccp) | (ChunkType::Text, ChunkType::Text)
        | (ChunkType::Ztxt, ChunkType::Ztxt) | (ChunkType::Itxt, ChunkType::Itxt) | (ChunkType::Bkgd, ChunkType::Bkgd)
        | (ChunkType::Phys, ChunkType::Phys) | (ChunkType::Time, ChunkType::Time) => true,
        _ => false,
    }
}

/// The CRC-mismatch reasons for every chunk whose CRC failed, in order.
fn collect_crc_failures(structure: &PngStructure) -> (r: Vec<PngCorruptionReason>)
    ensures
        lists_failures(r@, crc_failures(structure@.chunks)),
{
    let ghost cs = structure@.chunks;
    let mut errors: Vec<PngCorruptionReason> = Vec::new();
    let mut i: usize = 0;
    while i < structure.chunks.len()
        invariant
            cs == structure@.chunks,
            i <= cs.len(),
            lists_failures(errors@, crc_failures(cs.subrange(0, i as int))),
        decreases structure.chunks.len() - i,
    {
        let c = structure.chunks[i];
        proof {
            let pre = cs.subrange(0, i + 1);
            assert(pre.drop_last() =~= cs.subrange(0, i as int));
            assert(pre.last() == c);
        }
        if !c.crc_valid {
            errors.push(PngCorruptionReason::CrcMismatch { chunk_offset: c.offset, chunk_type: c.chunk_type_bytes });
        }
        i += 1;
    }
    assert(cs.subrange(0, cs.len() as int) =~= cs);
    errors
}

/// The CRC of a chunk with type code `chunk_type` whose data is
/// `data[start..end]`.
fn crc_of_range(table: &Vec<u32>, chunk_type: &[u8; 4], data: &[u8], start: usize, end: usize) -> (r: u32)
    requires
        is_crc_table(table@),
        start <= end <= data@.len(),
    ensures
        r == chunk_crc_spec(chunk_type@, data@.subrange(start as int, end as int)),
{
    let slice = vstd::slice::slice_subrange(data, start, end);
    super::chunk_crc_with(table, chunk_type, slice)
}

impl Default for PngValidator {
    fn default() -> (r: Self) {
        PngValidator::new()
    }
}

/// What [`PngValidator::repair_crc_value`] writes is what a reader of the
/// CRC field then finds: the four bytes at `at` read back, big-endian, as
/// the CRC written, and every other byte is as it was.
pub proof fn lemma_repaired_crc_reads_back(d: Seq<u8>, at: int, c: u32)
    requires
        0 <= at,
        at + 4 <= d.len(),
    ensures
        ({
            let w = d.update(at, (c / 16777216) as u8).update(at + 1, ((c / 65536) % 256) as u8)
                .update(at + 2, ((c / 256) % 256) as u8).update(at + 3, (c % 256) as u8);
            &&& be32(w, at) == c
            &&& forall|k: int| 0 <= k < d.len() && (k < at || k >= at + 4) ==> w[k] == d[k]
        }),
{
    let w = d.update(at, (c / 16777216) as u8).update(at + 1, ((c / 65536) % 256) as u8)
        .update(at + 2, ((c / 256) % 256) as u8).update(at + 3, (c % 256) as u8);
    let b0 = (c / 16777216) as u8;
    let b1 = ((c / 65536) % 256) as u8;
    let b2 = ((c / 256) % 256) as u8;
    let b3 = (c % 256) as u8;
    assert(w[at] == b0 && w[at + 1] == b1 && w[at + 2] == b2 && w[at + 3] == b3);
    assert(b0 as int * 16777216 + b1 as int * 65536 + b2 as int * 256 + b3 as int == c) by (nonlinear_arith)
        requires
            b0 == (c / 16777216) as u8,
            b1 == ((c / 65536) % 256) as u8,
            b2 == ((c / 256) % 256) as u8,
            b3 == (c % 256) as u8,
    ;
}

} // verus!
