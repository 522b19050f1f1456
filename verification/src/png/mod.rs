//! PNG (ISO 15948) vocabulary: the signature, chunk type codes, the chunk
//! property bits and the CRC-32 that guards every chunk.

use vstd::prelude::*;

pub mod parser;
pub mod validator;

verus! {

pub const PNG_SIGNATURE: [u8; 8] = [0x89, 0x50, 0x4E, 0x47, 0x0D, 0x0A, 0x1A, 0x0A];
pub const IHDR: [u8; 4] = [0x49, 0x48, 0x44, 0x52];
pub const IDAT: [u8; 4] = [0x49, 0x44, 0x41, 0x54];
pub const IEND: [u8; 4] = [0x49, 0x45, 0x4E, 0x44];
pub const PLTE: [u8; 4] = [0x50, 0x4C, 0x54, 0x45];
pub const TEXT: [u8; 4] = [0x74, 0x45, 0x58, 0x74];
pub const ZTXT: [u8; 4] = [0x7A, 0x54, 0x58, 0x74];
pub const ITXT: [u8; 4] = [0x69, 0x54, 0x58, 0x74];
pub const GAMA: [u8; 4] = [0x67, 0x41, 0x4D, 0x41];
pub const CHRM: [u8; 4] = [0x63, 0x48, 0x52, 0x4D];
pub const SRGB: [u8; 4] = [0x73, 0x52, 0x47, 0x42];
pub const ICCP: [u8; 4] = [0x69, 0x43, 0x43, 0x50];

/// Smallest buffer that can hold a PNG: signature, IHDR chunk, IEND chunk.
pub const MIN_PNG_SIZE: usize = 45;

/// The reflected CRC-32 polynomial.
pub open spec fn crc_poly() -> u32 {
    0xEDB88320
}

/// One bit of the reflected CRC-32 register update.
pub open spec fn crc_step(c: u32) -> u32 {
    if c & 1 != 0 {
        (c >> 1) ^ crc_poly()
    } else {
        c >> 1
    }
}

/// `k` bit steps applied to `c`.
pub open spec fn crc_shift(c: u32, k: nat) -> u32
    decreases k,
{
    if k == 0 {
        c
    } else {
        crc_step(crc_shift(c, (k - 1) as nat))
    }
}

/// Entry `i` of the byte-wise CRC-32 table: eight bit steps of `i`.
pub open spec fn crc_table_entry(i: u32) -> u32 {
    crc_shift(i, 8)
}

/// The register after feeding one byte.
pub open spec fn crc_byte(crc: u32, b: u8) -> u32 {
    crc_table_entry((crc ^ (b as u32)) & 0xFF) ^ (crc >> 8)
}

/// The register after feeding `s`, starting from `crc`.
pub open spec fn crc_fold(crc: u32, s: Seq<u8>) -> u32
    decreases s.len(),
{
    if s.len() == 0 {
        crc
    } else {
        crc_byte(crc_fold(crc, s.drop_last()), s.last())
    }
}

/// CRC-32 (ISO 3309) of `s`.
pub open spec fn crc32_spec(s: Seq<u8>) -> u32 {
    !crc_fold(0xFFFFFFFF, s)
}

/// The CRC a PNG chunk carries: over its type code, then its data.
pub open spec fn chunk_crc_spec(chunk_type: Seq<u8>, data: Seq<u8>) -> u32 {
    !crc_fold(crc_fold(0xFFFFFFFF, chunk_type), data)
}

/// Feeding two byte strings one after the other is feeding their
/// concatenation.
pub proof fn lemma_crc_fold_append(crc: u32, a: Seq<u8>, b: Seq<u8>)
    ensures
        crc_fold(crc, a + b) == crc_fold(crc_fold(crc, a), b),
    decreases b.len(),
{
    if b.len() == 0 {
        assert(a + b =~= a);
    } else {
        lemma_crc_fold_append(crc, a, b.drop_last());
        assert((a + b).drop_last() =~= a + b.drop_last());
        assert((a + b).last() == b.last());
    }
}

/// A chunk's CRC is the CRC-32 of its type code followed by its data.
pub proof fn lemma_chunk_crc_is_crc32(chunk_type: Seq<u8>, data: Seq<u8>)
    ensures
        chunk_crc_spec(chunk_type, data) == crc32_spec(chunk_type + data),
{
    lemma_crc_fold_append(0xFFFFFFFF, chunk_type, data);
}

/// One table entry, computed bit by bit.
fn crc_table_value(i: u32) -> (r: u32)
    ensures
        r == crc_table_entry(i),
{
    let mut crc = i;
    let mut j: u32 = 0;
    while j < 8
        invariant
            j <= 8,
            crc == crc_shift(i, j as nat),
        decreases 8 - j,
    {
        if crc & 1 != 0 {
            crc = (crc >> 1) ^ 0xEDB88320;
        } else {
            crc = crc >> 1;
        }
        j += 1;
    }
    crc
}

/// The 256-entry byte-wise CRC-32 table.
pub fn generate_crc_table() -> (r: Vec<u32>)
    ensures
        r@.len() == 256,
        forall|i: int| 0 <= i < 256 ==> r@[i] == crc_table_entry(i as u32),
{
    let mut table: Vec<u32> = Vec::new();
    let mut i: u32 = 0;
    while i < 256
        invariant
            i <= 256,
            table@.len() == i,
            forall|k: int| 0 <= k < i ==> table@[k] == crc_table_entry(k as u32),
        decreases 256 - i,
    {
        table.push(crc_table_value(i));
        i += 1;
    }
    table
}

/// Whether `table` is the CRC-32 table.
pub open spec fn is_crc_table(table: Seq<u32>) -> bool {
    table.len() == 256 && forall|i: int| 0 <= i < 256 ==> table[i] == crc_table_entry(i as u32)
}

/// Feeds `data` to the register `crc` through `table`.
pub fn crc_update(table: &Vec<u32>, crc: u32, data: &[u8]) -> (r: u32)
    requires
        is_crc_table(table@),
    ensures
        r == crc_fold(crc, data@),
{
    let mut c = crc;
    let mut i: usize = 0;
    while i < data.len()
        invariant
            is_crc_table(table@),
            i <= data@.len(),
            c == crc_fold(crc, data@.subrange(0, i as int)),
        decreases data.len() - i,
    {
        let byte = data[i];
        let index = (c ^ byte as u32) & 0xFF;
        assert(((c ^ byte as u32) & 0xFF) < 256) by (bit_vector);
        proof {
            let s = data@.subrange(0, i + 1);
            assert(s.drop_last() =~= data@.subrange(0, i as int));
            assert(s.last() == byte);
        }
        c = table[index as usize] ^ (c >> 8);
        i += 1;
    }
    assert(data@.subrange(0, data@.len() as int) =~= data@);
    c
}

/// CRC-32 of `data`.
#[inline]
pub fn crc32(data: &[u8]) -> (r: u32)
    ensures
        r == crc32_spec(data@),
{
    let table = generate_crc_table();
    !crc_update(&table, 0xFFFFFFFF, data)
}

/// The CRC of a chunk with type code `chunk_type` and payload `data`.
#[inline]
pub fn chunk_crc(chunk_type: &[u8; 4], data: &[u8]) -> (r: u32)
    ensures
        r == chunk_crc_spec(chunk_type@, data@),
{
    let table = generate_crc_table();
    chunk_crc_with(&table, chunk_type, data)
}

/// [`chunk_crc`] through a table already built.
pub fn chunk_crc_with(table: &Vec<u32>, chunk_type: &[u8; 4], data: &[u8]) -> (r: u32)
    requires
        is_crc_table(table@),
    ensures
        r == chunk_crc_spec(chunk_type@, data@),
{
    let head = crc_update(table, 0xFFFFFFFF, chunk_type.as_slice());
    !crc_update(table, head, data)
}

/// Bit 5 of the first type byte clear: the chunk is critical.
pub open spec fn critical_spec(t: Seq<u8>) -> bool {
    t[0] & 0x20 == 0
}

/// Whether a chunk of this type is critical to decoding.
#[inline]
pub fn is_critical_chunk(chunk_type: &[u8; 4]) -> (r: bool)
    ensures
        r == critical_spec(chunk_type@),
{
    chunk_type[0] & 0x20 == 0
}

/// Whether a chunk of this type is ancillary: the complement of critical.
#[inline]
pub fn is_ancillary_chunk(chunk_type: &[u8; 4]) -> (r: bool)
    ensures
        r == !critical_spec(chunk_type@),
{
    chunk_type[0] & 0x20 != 0
}

/// Whether an editor may copy a chunk of this type unchanged: bit 5 of the
/// fourth type byte set.
#[inline]
pub fn is_safe_to_copy(chunk_type: &[u8; 4]) -> (r: bool)
    ensures
        r == (chunk_type@[3] & 0x20 != 0),
{
    chunk_type[3] & 0x20 != 0
}

} // verus!
