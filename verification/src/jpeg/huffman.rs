//! Huffman tables from DHT segments, and the decoder state that holds them.
//!
//! A DHT table lists how many codes there are of each length from 1 to 16,
//! then the symbols in code order. Codes are assigned canonically: counting
//! up within a length, doubling when the length grows. [`huffman_build`]
//! states that assignment; [`HuffmanTable::from_dht_data`] is proved to build
//! exactly the map it describes.

use vstd::prelude::*;
use std::collections::HashMap;

use super::bits::{
    bit_measure, huffman_step, lemma_fill_measure, lemma_match_len, lemma_read_measure, read_step,
    value_step, fill, BitCursor, BitReader,
};
use super::restart_spec;
use super::scan::{lemma_scan_fill_shift, scan_fill, scan_peek, scan_consume, scan_read, shifted, ScanReader};

verus! {

broadcast use vstd::std_specs::hash::group_hash_axioms;

/// A decoding table: code value to (symbol, code length).
#[derive(Debug, Clone)]
pub struct HuffmanTable {
    max_bits: u8,
    lookup: HashMap<u32, (u8, u8)>,
}

/// The longest code length and the code map of a table.
pub struct HuffmanView {
    pub max_bits: u8,
    pub codes: Map<u32, (u8, u8)>,
}

impl View for HuffmanTable {
    type V = HuffmanView;

    closed spec fn view(&self) -> HuffmanView {
        HuffmanView { max_bits: self.max_bits, codes: self.lookup@ }
    }
}

/// Where canonical code assignment stands: the next code, the next symbol,
/// the longest length used so far and the codes assigned.
pub struct HuffmanAcc {
    pub code: int,
    pub idx: int,
    pub max_bits: int,
    pub codes: Map<u32, (u8, u8)>,
}

/// Assigns the next `k` codes of length `bits`.
pub open spec fn huffman_fill(a: HuffmanAcc, bits: int, k: nat, symbols: Seq<u8>) -> HuffmanAcc
    decreases k,
{
    if k == 0 {
        a
    } else {
        let p = huffman_fill(a, bits, (k - 1) as nat, symbols);
        HuffmanAcc {
            code: p.code + 1,
            idx: p.idx + 1,
            max_bits: bits,
            codes: p.codes.insert(p.code as u32, (symbols[p.idx], bits as u8)),
        }
    }
}

/// Canonical assignment over code lengths `1..=b`: `counts[l - 1]` codes of
/// length `l`, counting up, with the code doubled after each length.
pub open spec fn huffman_build(counts: Seq<u8>, symbols: Seq<u8>, b: nat) -> HuffmanAcc
    decreases b,
{
    if b == 0 {
        HuffmanAcc { code: 0, idx: 0, max_bits: 0, codes: Map::empty() }
    } else {
        let p = huffman_build(counts, symbols, (b - 1) as nat);
        let f = huffman_fill(p, b as int, counts[b - 1] as nat, symbols);
        HuffmanAcc { code: f.code * 2, ..f }
    }
}

/// Sum of the first `k` counts.
pub open spec fn count_sum(counts: Seq<u8>, k: int) -> int
    decreases k,
{
    if k <= 0 {
        0
    } else {
        count_sum(counts, k - 1) + counts[k - 1] as int
    }
}

/// The table a DHT body (counts, then symbols) describes; `None` when the
/// body is shorter than its counts say.
pub open spec fn huffman_table_spec(data: Seq<u8>) -> Option<HuffmanView> {
    if data.len() < 16 {
        None
    } else {
        let counts = data.subrange(0, 16);
        let total = count_sum(counts, 16);
        if data.len() < 16 + total {
            None
        } else {
            let a = huffman_build(counts, data.subrange(16, 16 + total), 16);
            Some(HuffmanView { max_bits: a.max_bits as u8, codes: a.codes })
        }
    }
}

/// An upper bound on the next code before length `b` is filled.
pub open spec fn code_bound(b: nat) -> int
    decreases b,
{
    if b <= 1 {
        0
    } else {
        2 * code_bound((b - 1) as nat) + 510
    }
}

proof fn lemma_code_bound_mono(b: nat)
    requires
        1 <= b <= 17,
    ensures
        0 <= code_bound(b) <= code_bound(17),
        code_bound(17) == 33422850,
    decreases 17 - b,
{
    reveal_with_fuel(code_bound, 18);
    if b < 17 {
        lemma_code_bound_mono(b + 1);
    }
}

proof fn lemma_fill_facts(a: HuffmanAcc, bits: int, k: nat, symbols: Seq<u8>)
    ensures
        huffman_fill(a, bits, k, symbols).code == a.code + k,
        huffman_fill(a, bits, k, symbols).idx == a.idx + k,
        k > 0 ==> huffman_fill(a, bits, k, symbols).max_bits == bits,
        k == 0 ==> huffman_fill(a, bits, k, symbols).max_bits == a.max_bits,
    decreases k,
{
    if k > 0 {
        lemma_fill_facts(a, bits, (k - 1) as nat, symbols);
    }
}

proof fn lemma_build_facts(counts: Seq<u8>, symbols: Seq<u8>, b: nat)
    requires
        b <= 16,
        counts.len() == 16,
    ensures
        huffman_build(counts, symbols, b).idx == count_sum(counts, b as int),
        0 <= huffman_build(counts, symbols, b).code <= 2 * code_bound(b) + 510,
        0 <= huffman_build(counts, symbols, b).max_bits <= b,
    decreases b,
{
    if b > 0 {
        lemma_build_facts(counts, symbols, (b - 1) as nat);
        let p = huffman_build(counts, symbols, (b - 1) as nat);
        lemma_fill_facts(p, b as int, counts[b - 1] as nat, symbols);
        if b >= 2 {
            assert(code_bound(b) == 2 * code_bound((b - 1) as nat) + 510);
        }
    }
}

/// No code of a described table is longer than 16 bits.
pub proof fn lemma_table_max_bits(data: Seq<u8>)
    ensures
        huffman_table_spec(data) is Some ==> huffman_table_spec(data)->0.max_bits <= 16,
{
    if data.len() >= 16 {
        let counts = data.subrange(0, 16);
        let total = count_sum(counts, 16);
        if data.len() >= 16 + total {
            lemma_build_facts(counts, data.subrange(16, 16 + total), 16);
        }
    }
}

impl HuffmanTable {
    /// Builds the table a DHT body describes: [`huffman_table_spec`].
    pub fn from_dht_data(data: &[u8]) -> (r: Option<Self>)
        ensures
            match r {
                Some(t) => huffman_table_spec(data@) == Some(t@),
                None => huffman_table_spec(data@) is None,
            },
    {
        if data.len() < 16 {
            return None;
        }
        let ghost counts = data@.subrange(0, 16);
        let mut total: usize = 0;
        let mut k: usize = 0;
        while k < 16
            invariant
                16 <= data@.len(),
                counts == data@.subrange(0, 16),
                k <= 16,
                total == count_sum(counts, k as int),
                total <= 255 * k,
            decreases 16 - k,
        {
            total += data[k] as usize;
            k += 1;
        }
        if data.len() - 16 < total {
            return None;
        }
        let ghost symbols = data@.subrange(16, 16 + total);
        let mut lookup: HashMap<u32, (u8, u8)> = HashMap::new();
        let mut code: u32 = 0;
        let mut symbol_idx: usize = 0;
        let mut max_bits: u8 = 0;
        let mut bits: u8 = 1;
        proof {
            lemma_code_bound_mono(1);
        }
        while bits <= 16
            invariant
                16 + total <= data@.len(),
                counts == data@.subrange(0, 16),
                symbols == data@.subrange(16, 16 + total),
                total == count_sum(counts, 16),
                1 <= bits <= 17,
                code as int == huffman_build(counts, symbols, (bits - 1) as nat).code,
                symbol_idx as int == huffman_build(counts, symbols, (bits - 1) as nat).idx,
                max_bits as int == huffman_build(counts, symbols, (bits - 1) as nat).max_bits,
                lookup@ == huffman_build(counts, symbols, (bits - 1) as nat).codes,
                code <= code_bound(bits as nat),
            decreases 17 - bits,
        {
            let ghost before = huffman_build(counts, symbols, (bits - 1) as nat);
            proof {
                lemma_build_facts(counts, symbols, (bits - 1) as nat);
                lemma_build_facts(counts, symbols, 16);
                lemma_code_bound_mono(bits as nat);
                lemma_code_bound_mono((bits + 1) as nat);
                lemma_count_sum_mono(counts, bits as int, 16);
            }
            let count = data[bits as usize - 1] as usize;
            let mut j: usize = 0;
            while j < count
                invariant
                    16 + total <= data@.len(),
                    data@.len() == data.len(),
                    counts == data@.subrange(0, 16),
                    symbols == data@.subrange(16, 16 + total),
                    total == count_sum(counts, 16),
                    1 <= bits <= 16,
                    count == counts[bits - 1],
                    before == huffman_build(counts, symbols, (bits - 1) as nat),
                    symbol_idx + count - j <= count_sum(counts, bits as int),
                    count_sum(counts, bits as int) <= total,
                    j <= count,
                    code as int == huffman_fill(before, bits as int, j as nat, symbols).code,
                    symbol_idx as int == huffman_fill(before, bits as int, j as nat, symbols).idx,
                    max_bits as int == huffman_fill(before, bits as int, j as nat, symbols).max_bits,
                    lookup@ == huffman_fill(before, bits as int, j as nat, symbols).codes,
                    code <= code_bound(bits as nat) + j,
                    code_bound(bits as nat) <= 33422850,
                decreases count - j,
            {
                if symbol_idx >= total {
                    return None;
                }
                assert(16 + symbol_idx < data@.len());
                let symbol = data[16 + symbol_idx];
                lookup.insert(code, (symbol, bits));
                symbol_idx += 1;
                code += 1;
                max_bits = bits;
                j += 1;
            }
            assert(code_bound((bits + 1) as nat) == 2 * code_bound(bits as nat) + 510);
            code = code * 2;
            bits += 1;
        }
        assert(data@.subrange(16, 16 + total) == symbols);
        Some(HuffmanTable { max_bits, lookup })
    }

    /// The symbol whose code is a prefix of the top bits of `bits`, and the
    /// code's length, trying lengths from 1 up to the table's longest code or
    /// `available_bits`, whichever is smaller: [`huffman_decode_spec`].
    pub fn decode(&self, bits: u32, available_bits: u8) -> (r: Option<(u8, u8)>)
        requires
            self@.max_bits <= 16,
        ensures
            r == huffman_decode_spec(self@, bits, available_bits, 1),
    {
        let max_check = if self.max_bits < available_bits { self.max_bits } else { available_bits };
        let mut len: u8 = 1;
        while len <= max_check
            invariant
                max_check <= 16,
                max_check == (if self@.max_bits < available_bits { self@.max_bits } else { available_bits }),
                1 <= len <= max_check + 1,
                huffman_decode_spec(self@, bits, available_bits, len as int)
                    == huffman_decode_spec(self@, bits, available_bits, 1),
            decreases max_check + 1 - len,
        {
            assert(1u32 << len >= 1) by (bit_vector)
                requires
                    len <= 16;
            let mask = (1u32 << len) - 1;
            let code = (bits >> (32 - len)) & mask;
            match self.lookup.get(&code) {
                Some(entry) => {
                    let (symbol, code_len) = *entry;
                    if code_len == len {
                        return Some((symbol, len));
                    }
                },
                None => {},
            }
            len += 1;
        }
        None
    }

    /// The longest code length in the table.
    pub fn max_bits(&self) -> (r: u8)
        ensures
            r == self@.max_bits,
    {
        self.max_bits
    }

    /// The symbol and length a code value maps to.
    pub fn lookup(&self, code: u32) -> (r: Option<(u8, u8)>)
        ensures
            match r {
                Some(e) => self@.codes.contains_key(code) && self@.codes[code] == e,
                None => !self@.codes.contains_key(code),
            },
    {
        match self.lookup.get(&code) {
            Some(e) => Some(*e),
            None => None,
        }
    }
}

/// Counts are never negative, so their running sum never falls.
pub proof fn lemma_count_sum_mono(counts: Seq<u8>, a: int, b: int)
    requires
        0 <= a <= b,
    ensures
        count_sum(counts, a) <= count_sum(counts, b),
    decreases b - a,
{
    if a < b {
        lemma_count_sum_mono(counts, a, b - 1);
    }
}

/// The top `len` bits of `bits`.
pub open spec fn top_bits(bits: u32, len: u8) -> u32 {
    (bits >> ((32 - len) as u8)) & (((1u32 << len) - 1) as u32)
}

/// Decoding from length `len` on: the first length whose top-bits code is in
/// the table with that same length.
pub open spec fn huffman_decode_spec(t: HuffmanView, bits: u32, avail: u8, len: int) -> Option<(u8, u8)>
    decreases 17 - len,
{
    let max_check = if t.max_bits < avail { t.max_bits } else { avail };
    if len < 1 || len > max_check || len > 16 {
        None
    } else {
        let code = top_bits(bits, len as u8);
        if t.codes.contains_key(code) && t.codes[code].1 == len as u8 {
            Some((t.codes[code].0, len as u8))
        } else {
            huffman_decode_spec(t, bits, avail, len + 1)
        }
    }
}

/// DC and AC tables for up to four components, and the DC predictors.
#[derive(Debug, Clone)]
pub struct HuffmanDecoder {
    dc_tables: Vec<Option<HuffmanTable>>,
    ac_tables: Vec<Option<HuffmanTable>>,
    dc_pred: [i16; 4],
}

impl HuffmanDecoder {
    /// Whether the decoder holds four DC and four AC table slots.
    pub closed spec fn wf(&self) -> bool {
        &&& self.dc_tables@.len() == 4
        &&& self.ac_tables@.len() == 4
        &&& forall|i: int| 0 <= i < 4 && #[trigger] self.dc_tables@[i] is Some ==> self.dc_tables@[i]->0@.max_bits <= 16
        &&& forall|i: int| 0 <= i < 4 && #[trigger] self.ac_tables@[i] is Some ==> self.ac_tables@[i]->0@.max_bits <= 16
    }

    /// The DC table in slot `i`, if loaded.
    pub closed spec fn dc_table(&self, i: int) -> Option<HuffmanView> {
        match self.dc_tables@[i] {
            Some(t) => Some(t@),
            None => None,
        }
    }

    /// The AC table in slot `i`, if loaded.
    pub closed spec fn ac_table(&self, i: int) -> Option<HuffmanView> {
        match self.ac_tables@[i] {
            Some(t) => Some(t@),
            None => None,
        }
    }

    /// The DC table slots.
    pub closed spec fn dc_seq(&self) -> Seq<Option<HuffmanTable>> {
        self.dc_tables@
    }

    /// The AC table slots.
    pub closed spec fn ac_seq(&self) -> Seq<Option<HuffmanTable>> {
        self.ac_tables@
    }

    /// The DC predictors.
    pub closed spec fn predictors(&self) -> Seq<i16> {
        self.dc_pred@
    }

    /// A decoder with no tables and zero predictors.
    pub fn new() -> (r: Self)
        ensures
            r.wf(),
            forall|i: int| 0 <= i < 4 ==> r.dc_table(i) is None && r.ac_table(i) is None,
            r.predictors() == seq![0i16, 0i16, 0i16, 0i16],
    {
        let r = HuffmanDecoder {
            dc_tables: vec![None, None, None, None],
            ac_tables: vec![None, None, None, None],
            dc_pred: [0, 0, 0, 0],
        };
        assert(r.dc_pred@ =~= seq![0i16, 0i16, 0i16, 0i16]);
        r
    }

    /// Whether table slot `i` of the class is loaded (`0` is DC, anything
    /// else AC).
    pub fn has_table(&self, table_class: u8, i: usize) -> (r: bool)
        requires
            self.wf(),
            i < 4,
        ensures
            r == (if table_class == 0 { self.dc_table(i as int) is Some } else { self.ac_table(i as int) is Some }),
    {
        if table_class == 0 {
            self.dc_tables[i].is_some()
        } else {
            self.ac_tables[i].is_some()
        }
    }

    /// Builds a table from a DHT body and stores it in slot `table_id & 3`
    /// of the DC tables (class 0) or AC tables (any other class). `false`,
    /// with nothing changed, when the body does not describe a table.
    pub fn load_table(&mut self, table_class: u8, table_id: u8, data: &[u8]) -> (r: bool)
        requires
            old(self).wf(),
        ensures
            final(self).wf(),
            final(self).predictors() == old(self).predictors(),
            r == huffman_table_spec(data@) is Some,
            !r ==> final(self).dc_seq() == old(self).dc_seq() && final(self).ac_seq() == old(self).ac_seq(),
            r ==> ({
                let id = (table_id % 4) as int;
                if table_class == 0 {
                    &&& final(self).dc_table(id) == huffman_table_spec(data@)
                    &&& forall|k: int| 0 <= k < 4 && k != id ==> final(self).dc_table(k) == old(self).dc_table(k)
                    &&& final(self).ac_seq() == old(self).ac_seq()
                } else {
                    &&& final(self).ac_table(id) == huffman_table_spec(data@)
                    &&& forall|k: int| 0 <= k < 4 && k != id ==> final(self).ac_table(k) == old(self).ac_table(k)
                    &&& final(self).dc_seq() == old(self).dc_seq()
                }
            }),
    {
        let table = match HuffmanTable::from_dht_data(data) {
            Some(t) => t,
            None => return false,
        };
        proof {
            lemma_table_max_bits(data@);
        }
        let id = (table_id % 4) as usize;
        if table_class == 0 {
            self.dc_tables.set(id, Some(table));
        } else {
            self.ac_tables.set(id, Some(table));
        }
        true
    }

    /// Loads every table of a DHT segment body: each is a class/id byte, 16
    /// counts and the symbols. Stops quietly at a trailing fragment shorter
    /// than a table header; `false` at a table whose symbols overrun the
    /// segment.
    pub fn parse_dht_segment(&mut self, data: &[u8]) -> (r: bool)
        requires
            old(self).wf(),
        ensures
            final(self).wf(),
            final(self).predictors() == old(self).predictors(),
            r == dht_segment_ok(data@, 0),
    {
        let mut pos: usize = 0;
        while pos < data.len()
            invariant_except_break
                self.wf(),
                self.predictors() == old(self).predictors(),
                pos <= data@.len(),
                dht_segment_ok(data@, pos as int) == dht_segment_ok(data@, 0),
            ensures
                self.wf(),
                self.predictors() == old(self).predictors(),
                dht_segment_ok(data@, 0),
            decreases data.len() - pos,
        {
            if data.len() - pos < 17 {
                break;
            }
            let tc_th = data[pos];
            let table_class = (tc_th / 16) % 16;
            let table_id = tc_th % 16;
            let mut total: usize = 0;
            let mut k: usize = 0;
            while k < 16
                invariant
                    pos + 17 <= data@.len(),
                    data@.len() == data.len(),
                    k <= 16,
                    total == count_sum(data@.subrange(pos + 1, pos + 17), k as int),
                    total <= 255 * k,
                decreases 16 - k,
            {
                proof {
                    assert(data@.subrange(pos + 1, pos + 17)[k as int] == data@[pos + 1 + k]);
                }
                total += data[pos + 1 + k] as usize;
                k += 1;
            }
            if total > data.len() - pos - 17 {
                return false;
            }
            let body = vstd::slice::slice_subrange(data, pos + 1, pos + 17 + total);
            proof {
                assert(body@.subrange(0, 16) =~= data@.subrange(pos + 1, pos + 17));
            }
            if !self.load_table(table_class, table_id, body) {
                return false;
            }
            pos += 17 + total;
        }
        true
    }

    /// Sets every DC predictor to zero.
    pub fn reset_dc_predictors(&mut self)
        requires
            old(self).wf(),
        ensures
            final(self).wf(),
            final(self).predictors() == seq![0i16, 0i16, 0i16, 0i16],
            final(self).dc_seq() == old(self).dc_seq(),
            final(self).ac_seq() == old(self).ac_seq(),
    {
        self.dc_pred = [0, 0, 0, 0];
        assert(self.dc_pred@ =~= seq![0i16, 0i16, 0i16, 0i16]);
    }

    /// Decodes up to `max_mcus` MCUs of `entropy_data` with DC table 0 (and
    /// AC table 0 to skip coefficients), for `components` components (at
    /// most four), and gives the first component's DC value after each MCU
    /// ([`mcu_loop`]). The predictors start at zero and end as the decoding
    /// leaves them. With no DC table 0 nothing is decoded and nothing
    /// changes.
    pub fn extract_dc_coefficients(&mut self, entropy_data: &[u8], components: u8, max_mcus: usize) -> (r: Vec<i16>)
        requires
            old(self).wf(),
        ensures
            final(self).wf(),
            final(self).dc_seq() == old(self).dc_seq(),
            final(self).ac_seq() == old(self).ac_seq(),
            match old(self).dc_table(0) {
                None => r@ == Seq::<i16>::empty() && final(self).predictors() == old(self).predictors(),
                Some(dc) => {
                    let (c, p, v) = mcu_loop(
                        entropy_data@,
                        dc,
                        old(self).ac_table(0),
                        if components < 4 { components as int } else { 4 },
                        BitCursor { pos: 0, buffer: 0, bits: 0 },
                        seq![0i16, 0i16, 0i16, 0i16],
                        Seq::empty(),
                        max_mcus as nat,
                    );
                    r@ == v && final(self).predictors() == p
                },
            },
    {
        let mut dc_values: Vec<i16> = Vec::new();
        let mut reader = BitReader::new(entropy_data);
        let dc_table = match &self.dc_tables[0] {
            Some(t) => t,
            None => return dc_values,
        };
        let ac_table: Option<&HuffmanTable> = match &self.ac_tables[0] {
            Some(t) => Some(t),
            None => None,
        };
        let mut preds: Vec<i16> = vec![0, 0, 0, 0];
        let ncomp: usize = if components < 4 { components as usize } else { 4 };
        let ghost d = entropy_data@;
        let ghost start = BitCursor { pos: 0, buffer: 0, bits: 0 };
        assert(opt_view(ac_table) == self.ac_table(0));
        assert(preds@ == seq![0i16, 0i16, 0i16, 0i16]);
        let mut m: usize = 0;
        while m < max_mcus
            invariant_except_break
                reader.wf(),
                reader.bytes() == d,
                preds@.len() == 4,
                ncomp <= 4,
                m <= max_mcus,
                mcu_loop(d, dc_table@, opt_view(ac_table), ncomp as int, reader.cursor(), preds@, dc_values@, (max_mcus - m) as nat)
                    == mcu_loop(d, dc_table@, opt_view(ac_table), ncomp as int, start, seq![0i16, 0i16, 0i16, 0i16], Seq::empty(), max_mcus as nat),
            ensures
                preds@.len() == 4,
                (reader.cursor(), preds@, dc_values@)
                    == mcu_loop(d, dc_table@, opt_view(ac_table), ncomp as int, start, seq![0i16, 0i16, 0i16, 0i16], Seq::empty(), max_mcus as nat),
            decreases max_mcus - m,
        {
            if reader.is_at_end() {
                break;
            }
            decode_mcu(&mut reader, dc_table, ac_table, ncomp, &mut preds, &mut dc_values);
            m += 1;
        }
        self.dc_pred = [preds[0], preds[1], preds[2], preds[3]];
        assert(self.dc_pred@ =~= preds@);
        dc_values
    }

    /// The four DC table slots.
    pub closed spec fn dc_views(&self) -> Seq<Option<HuffmanView>> {
        Seq::new(4, |i: int| self.dc_table(i))
    }

    /// Decodes the DC values of up to `max_blocks` blocks of
    /// `num_components` components each ([`dc_validation`]), every
    /// component's value recorded. `Err` gives the byte position where a
    /// table was missing, a category did not decode, or magnitude bits ran
    /// out. The predictors end as the decoding leaves them. Inputs whose
    /// decoding overflows are not accepted: [`HuffmanDecoder::try_validate_and_extract_dc`]
    /// takes them and says so.
    pub fn validate_and_extract_dc(&mut self, entropy_data: &[u8], num_components: usize, max_blocks: usize) -> (r: Result<Vec<i16>, u64>)
        requires
            old(self).wf(),
            !(dc_validation(entropy_data@, old(self).dc_views(), num_components as int, max_blocks as nat) is Overflow),
        ensures
            final(self).wf(),
            final(self).dc_seq() == old(self).dc_seq(),
            final(self).ac_seq() == old(self).ac_seq(),
            match dc_validation(entropy_data@, old(self).dc_views(), num_components as int, max_blocks as nat) {
                DcOutcome::Going(s) => r matches Ok(v) && v@ == s.vals && final(self).predictors() == s.preds,
                DcOutcome::Failed(p, preds) => r == Err::<Vec<i16>, u64>(p) && final(self).predictors() == preds,
                DcOutcome::Overflow => false,
            },
    {
        match self.try_validate_and_extract_dc(entropy_data, num_components, max_blocks) {
            Some(r) => r,
            None => Err(0),
        }
    }

    /// [`HuffmanDecoder::validate_and_extract_dc`] on any input: `None`
    /// exactly when the decoding overflows ([`DcOutcome::Overflow`]), the
    /// predictors then left as far as it got.
    pub fn try_validate_and_extract_dc(&mut self, entropy_data: &[u8], num_components: usize, max_blocks: usize) -> (r: Option<Result<Vec<i16>, u64>>)
        requires
            old(self).wf(),
        ensures
            final(self).wf(),
            final(self).dc_seq() == old(self).dc_seq(),
            final(self).ac_seq() == old(self).ac_seq(),
            match dc_validation(entropy_data@, old(self).dc_views(), num_components as int, max_blocks as nat) {
                DcOutcome::Going(s) => r matches Some(Ok(v)) && v@ == s.vals && final(self).predictors() == s.preds,
                DcOutcome::Failed(p, preds) => r == Some(Err::<Vec<i16>, u64>(p)) && final(self).predictors() == preds,
                DcOutcome::Overflow => r is None,
            },
    {
        let mut dc_values: Vec<i16> = Vec::new();
        let mut reader = ScanReader::new(entropy_data);
        let mut blocks: usize = 0;
        self.reset_dc_predictors();
        let ghost d = entropy_data@;
        let ghost dcs = old(self).dc_views();
        let ghost n = num_components as int;
        let ghost res = dc_validation(d, dcs, n, max_blocks as nat);
        assert(self.dc_views() =~= dcs);
        while blocks < max_blocks
            invariant_except_break
                self.wf(),
                self.dc_seq() == old(self).dc_seq(),
                self.ac_seq() == old(self).ac_seq(),
                self.dc_views() == dcs,
                reader.wf(),
                reader.bytes() == d,
                n == num_components,
                d == entropy_data@,
                dcs == old(self).dc_views(),
                res == dc_validation(d, dcs, n, max_blocks as nat),
                blocks <= max_blocks,
                dc_blocks(d, dcs, n, DcState { c: reader.cursor(), preds: self.predictors(), vals: dc_values@ }, (max_blocks - blocks) as nat) == res,
            ensures
                self.wf(),
                self.dc_seq() == old(self).dc_seq(),
                self.ac_seq() == old(self).ac_seq(),
                res == DcOutcome::Going(DcState { c: reader.cursor(), preds: self.predictors(), vals: dc_values@ }),
            decreases max_blocks - blocks,
        {
            let ghost st0 = DcState { c: reader.cursor(), preds: self.predictors(), vals: dc_values@ };
            let ghost rem = (max_blocks - blocks) as nat;
            let mut comp: usize = 0;
            while comp < num_components
                invariant_except_break
                    self.wf(),
                    self.dc_seq() == old(self).dc_seq(),
                    self.ac_seq() == old(self).ac_seq(),
                    self.dc_views() == dcs,
                    reader.wf(),
                    reader.bytes() == d,
                    n == num_components,
                    d == entropy_data@,
                    dcs == old(self).dc_views(),
                    res == dc_validation(d, dcs, n, max_blocks as nat),
                    rem > 0,
                    dc_blocks(d, dcs, n, st0, rem) == res,
                        dc_block(d, dcs, n, DcState { c: reader.cursor(), preds: self.predictors(), vals: dc_values@ }, comp as int)
                        == dc_block(d, dcs, n, st0, 0),
                ensures
                    self.wf(),
                    self.dc_seq() == old(self).dc_seq(),
                    self.ac_seq() == old(self).ac_seq(),
                    self.dc_views() == dcs,
                    reader.wf(),
                    reader.bytes() == d,
                    dc_blocks(d, dcs, n, st0, rem) == res,
                    dc_block(d, dcs, n, st0, 0)
                        == DcOutcome::Going(DcState { c: reader.cursor(), preds: self.predictors(), vals: dc_values@ }),
                decreases num_components - comp,
            {
                let idx: usize = if comp < 3 { comp } else { 3 };
                assert(dcs[idx as int] == self.dc_table(idx as int));
                let ghost cur = DcState { c: reader.cursor(), preds: self.predictors(), vals: dc_values@ };
                let dc_table = match &self.dc_tables[idx] {
                    Some(t) => t,
                    None => {
                        assert(dc_block(d, dcs, n, cur, comp as int) == DcOutcome::Failed(cur.c.pos as u64, cur.preds));
                        return Some(Err(reader.byte_position() as u64));
                    },
                };
                let (category, bits_used) = match reader.peek_bits(16) {
                    Some(bits) => match dc_table.decode(bits, 16) {
                        Some(found) => found,
                        None => {
                            return Some(Err(reader.byte_position() as u64));
                        },
                    },
                    None => {
                        break;
                    },
                };
                proof {
                    lemma_decode_len(dc_table@, scan_peek(d, cur.c, 16).1->0, 16, 1);
                }
                reader.consume_bits(bits_used);
                let ghost c2 = reader.cursor();
                let dc_diff: i16 = if category == 0 {
                    0
                } else if category >= 32 {
                    let avail = reader.buffered_bits();
                    if avail >= category {
                        assert(dc_block(d, dcs, n, cur, comp as int) == DcOutcome::Overflow);
                        return None;
                    }
                    assert(dc_block(d, dcs, n, cur, comp as int) == DcOutcome::Failed(reader.cursor().pos as u64, cur.preds));
                    return Some(Err(reader.byte_position() as u64));
                } else {
                    match reader.read_bits(category) {
                        Some(bits) => {
                            if category >= 17 {
                                assert(dc_block(d, dcs, n, cur, comp as int) == DcOutcome::Overflow);
                                return None;
                            }
                            if bits < (1u16 << (category - 1)) {
                                if category >= 15 {
                                    assert(dc_block(d, dcs, n, cur, comp as int) == DcOutcome::Overflow);
                                    return None;
                                }
                                assert(1u16 << category >= 1 && bits < 8192 && ((1u16 << category) - 1) < 16384
                                    && bits - ((1u16 << category) - 1) < 0) by (bit_vector)
                                    requires
                                        1 <= category <= 14,
                                        bits < (1u16 << ((category - 1) as u8)),
                                ;
                                let full: u16 = (1u16 << category) - 1;
                                let diff = (bits as i16) - (full as i16);
                                assert(dc_difference(bits, category) == Some(diff));
                                diff
                            } else {
                                assert(dc_difference(bits, category) == Some(bits as i16));
                                bits as i16
                            }
                        },
                        None => {
                            return Some(Err(reader.byte_position() as u64));
                        },
                    }
                };
                let pred = self.dc_pred[idx];
                if (pred as i32) + (dc_diff as i32) < -32768 || (pred as i32) + (dc_diff as i32) > 32767 {
                    assert(dc_block(d, dcs, n, cur, comp as int) == DcOutcome::Overflow);
                    return None;
                }
                let dc_value = pred + dc_diff;
                self.dc_pred.set(idx, dc_value);
                dc_values.push(dc_value);
                comp += 1;
            }
            blocks += 1;
            match reader.peek_marker() {
                Some((_, next)) => {
                    if next >= 0xD0 && next <= 0xD7 {
                        reader.consume_marker();
                        self.reset_dc_predictors();
                    } else if next == 0xD9 {
                        break;
                    }
                },
                None => {},
            }
        }
        Some(Ok(dc_values))
    }

    /// The DC predictor of `component`; 0 past the fourth.
    pub fn get_dc_pred(&self, component: usize) -> (r: i16)
        ensures
            r == (if component < 4 { self.predictors()[component as int] } else { 0 }),
    {
        if component < 4 {
            self.dc_pred[component]
        } else {
            0
        }
    }
}

/// Whether the DHT tables from `pos` on load: each complete table header is
/// followed by its symbols and describes a table; a fragment shorter than a
/// header ends the segment.
pub open spec fn dht_segment_ok(d: Seq<u8>, pos: int) -> bool
    decreases d.len() - pos,
{
    if pos < 0 || pos >= d.len() || pos + 17 > d.len() {
        true
    } else {
        let total = count_sum(d.subrange(pos + 1, pos + 17), 16);
        if pos + 17 + total > d.len() {
            false
        } else if huffman_table_spec(d.subrange(pos + 1, pos + 17 + total)) is None {
            false
        } else {
            proof {
                lemma_count_sum_mono(d.subrange(pos + 1, pos + 17), 0, 16);
            }
            dht_segment_ok(d, pos + 17 + total)
        }
    }
}

/// The view of a table that may be missing.
pub open spec fn opt_view(t: Option<&HuffmanTable>) -> Option<HuffmanView> {
    match t {
        Some(t) => Some(t@),
        None => None,
    }
}

/// Skipping a block's AC coefficients, `count` of its 63 passed: each symbol
/// gives a run of zeros (high nibble) and a magnitude size (low nibble); the
/// magnitude bits are read and dropped. End-of-block (`00`) or a symbol that
/// does not decode stops the skip; `F0` passes sixteen zeros.
pub open spec fn ac_skip(d: Seq<u8>, t: HuffmanView, c: BitCursor, count: int) -> BitCursor
    decreases (if c.pos <= d.len() && c.bits <= 31 { bit_measure(d, c) } else { 0 }),
{
    if count >= 63 || c.pos > d.len() || c.bits > 31 {
        c
    } else {
        let (c1, r) = huffman_step(d, t, c);
        match r {
            None => c1,
            Some(sym) => {
                proof {
                    lemma_fill_measure(d, c, 16);
                    lemma_match_len(t, fill(d, c, 16), 1);
                }
                let run = sym / 16;
                let size = sym % 16;
                if size == 0 {
                    if run == 0 {
                        c1
                    } else if run == 15 {
                        ac_skip(d, t, c1, count + 16)
                    } else {
                        ac_skip(d, t, c1, count)
                    }
                } else {
                    proof {
                        lemma_read_measure(d, c1, size);
                    }
                    ac_skip(d, t, read_step(d, c1, size).0, count + run + 1)
                }
            },
        }
    }
}

/// Decoding the components of one MCU from `k` on: for each, a DC size
/// symbol and the difference it codes, added (wrapping) to that
/// component's predictor; the first component's new predictor is recorded;
/// then the AC coefficients are skipped if there is an AC table. A symbol
/// or value that does not decode ends the MCU early.
pub open spec fn mcu_decode(
    d: Seq<u8>,
    dc: HuffmanView,
    ac: Option<HuffmanView>,
    ncomp: int,
    c: BitCursor,
    preds: Seq<i16>,
    vals: Seq<i16>,
    k: int,
) -> (BitCursor, Seq<i16>, Seq<i16>)
    decreases ncomp - k,
{
    if k < 0 || k >= ncomp {
        (c, preds, vals)
    } else {
        let (c1, s) = huffman_step(d, dc, c);
        match s {
            None => (c1, preds, vals),
            Some(size) => {
                let (c2, v) = value_step(d, c1, size);
                match v {
                    None => (c2, preds, vals),
                    Some(diff) => {
                        let p = preds.update(k, preds[k].wrapping_add(diff));
                        let nv = if k == 0 { vals.push(p[0]) } else { vals };
                        let c3 = match ac {
                            Some(t) => ac_skip(d, t, c2, 0),
                            None => c2,
                        };
                        mcu_decode(d, dc, ac, ncomp, c3, p, nv, k + 1)
                    },
                }
            },
        }
    }
}

/// Whether the data is used up at `pos` or a marker stands there.
pub open spec fn at_end(d: Seq<u8>, pos: int) -> bool {
    pos >= d.len() || (pos + 1 < d.len() && d[pos] == 0xFF && d[pos + 1] != 0x00)
}

/// Decoding up to `remaining` MCUs, stopping at the end of the data or at a
/// marker.
pub open spec fn mcu_loop(
    d: Seq<u8>,
    dc: HuffmanView,
    ac: Option<HuffmanView>,
    ncomp: int,
    c: BitCursor,
    preds: Seq<i16>,
    vals: Seq<i16>,
    remaining: nat,
) -> (BitCursor, Seq<i16>, Seq<i16>)
    decreases remaining,
{
    if remaining == 0 || at_end(d, c.pos as int) {
        (c, preds, vals)
    } else {
        let (c2, p2, v2) = mcu_decode(d, dc, ac, ncomp, c, preds, vals, 0);
        mcu_loop(d, dc, ac, ncomp, c2, p2, v2, (remaining - 1) as nat)
    }
}

fn skip_ac_block(reader: &mut BitReader, ac: &HuffmanTable)
    requires
        old(reader).wf(),
    ensures
        final(reader).wf(),
        final(reader).bytes() == old(reader).bytes(),
        final(reader).cursor() == ac_skip(old(reader).bytes(), ac@, old(reader).cursor(), 0),
{
    let ghost d = reader.bytes();
    let mut ac_count: usize = 0;
    while ac_count < 63
        invariant_except_break
            reader.wf(),
            reader.bytes() == d,
            ac_count <= 78,
            ac_skip(d, ac@, reader.cursor(), ac_count as int) == ac_skip(d, ac@, old(reader).cursor(), 0),
        ensures
            reader.wf(),
            reader.bytes() == d,
            reader.cursor() == ac_skip(d, ac@, old(reader).cursor(), 0),
        decreases bit_measure(d, reader.cursor()),
    {
        let ghost c0 = reader.cursor();
        proof {
            lemma_fill_measure(d, c0, 16);
            lemma_match_len(ac@, fill(d, c0, 16), 1);
        }
        match reader.decode_huffman(ac) {
            Some(symbol) => {
                let run = symbol / 16;
                let size = symbol % 16;
                if size == 0 {
                    if run == 0 {
                        break;
                    } else if run == 15 {
                        ac_count += 16;
                    }
                } else {
                    ac_count += run as usize + 1;
                    let ghost c1 = reader.cursor();
                    proof {
                        lemma_read_measure(d, c1, size);
                    }
                    let _ = reader.read_bits(size);
                }
            },
            None => {
                break;
            },
        }
    }
}

fn decode_mcu(
    reader: &mut BitReader,
    dc: &HuffmanTable,
    ac: Option<&HuffmanTable>,
    ncomp: usize,
    preds: &mut Vec<i16>,
    values: &mut Vec<i16>,
)
    requires
        old(reader).wf(),
        ncomp <= 4,
        old(preds)@.len() == 4,
    ensures
        final(reader).wf(),
        final(reader).bytes() == old(reader).bytes(),
        final(preds)@.len() == 4,
        (final(reader).cursor(), final(preds)@, final(values)@) == mcu_decode(
            old(reader).bytes(),
            dc@,
            opt_view(ac),
            ncomp as int,
            old(reader).cursor(),
            old(preds)@,
            old(values)@,
            0,
        ),
{
    let ghost d = reader.bytes();
    let mut k: usize = 0;
    while k < ncomp
        invariant_except_break
            reader.wf(),
            reader.bytes() == d,
            preds@.len() == 4,
            ncomp <= 4,
            k <= ncomp,
            mcu_decode(d, dc@, opt_view(ac), ncomp as int, reader.cursor(), preds@, values@, k as int)
                == mcu_decode(d, dc@, opt_view(ac), ncomp as int, old(reader).cursor(), old(preds)@, old(values)@, 0),
        ensures
            reader.wf(),
            reader.bytes() == d,
            preds@.len() == 4,
            (reader.cursor(), preds@, values@)
                == mcu_decode(d, dc@, opt_view(ac), ncomp as int, old(reader).cursor(), old(preds)@, old(values)@, 0),
        decreases ncomp - k,
    {
        let size = match reader.decode_huffman(dc) {
            Some(s) => s,
            None => {
                break;
            },
        };
        let diff = match reader.decode_value(size) {
            Some(v) => v,
            None => {
                break;
            },
        };
        let updated = preds[k].wrapping_add(diff);
        preds.set(k, updated);
        if k == 0 {
            values.push(preds[0]);
        }
        match ac {
            Some(t) => skip_ac_block(reader, t),
            None => {},
        }
        k += 1;
    }
}

/// A decoded code is between `len` and 16 bits long.
proof fn lemma_decode_len(t: HuffmanView, bits: u32, avail: u8, len: int)
    ensures
        huffman_decode_spec(t, bits, avail, len) matches Some((s, l)) ==> len <= l <= 16 && l >= 1,
    decreases 17 - len,
{
    let max_check = if t.max_bits < avail { t.max_bits } else { avail };
    if len < 1 || len > max_check || len > 16 {
    } else {
        lemma_decode_len(t, bits, avail, len + 1);
    }
}

/// Where DC validation stands: the reader, the predictors and the DC values
/// decoded so far.
pub struct DcState {
    pub c: BitCursor,
    pub preds: Seq<i16>,
    pub vals: Seq<i16>,
}

/// How a stretch of DC validation ends.
pub enum DcOutcome {
    /// It went on, or stopped quietly, in this state.
    Going(DcState),
    /// It failed at this byte position, with these predictors.
    Failed(u64, Seq<i16>),
    /// An integer overflow that the decoding does not survive.
    Overflow,
}

/// Reading the magnitude bits of a DC category.
pub enum DcRead {
    /// The reader after the bits, and the difference they code.
    Value(BitCursor, i16),
    /// The data ended at this position.
    Fail(u64),
    /// An integer overflow.
    Overflow,
}

/// The difference that category `cat` codes in the bits `b`: below half the
/// range it is negative. Categories from 15 up overflow on the negative
/// side, and from 17 up always; `None` stands for that overflow.
pub open spec fn dc_difference(b: u16, cat: u8) -> Option<i16> {
    if cat == 0 {
        Some(0i16)
    } else if cat >= 17 {
        None
    } else if b < (1u16 << ((cat - 1) as u8)) {
        if cat >= 15 {
            None
        } else {
            Some((b - ((1u16 << cat) - 1)) as i16)
        }
    } else {
        Some(b as i16)
    }
}

/// Reading the bits of category `cat` (at least 1) at `c`.
pub open spec fn dc_read(d: Seq<u8>, c: BitCursor, cat: u8) -> DcRead {
    if cat >= 32 && scan_fill(d, c).bits >= cat {
        DcRead::Overflow
    } else {
        let (c2, r) = scan_read(d, c, cat);
        match r {
            None => DcRead::Fail(c2.pos as u64),
            Some(v) => match dc_difference(v as u16, cat) {
                None => DcRead::Overflow,
                Some(diff) => DcRead::Value(c2, diff),
            },
        }
    }
}

/// Decoding one block's DC values from component `comp` on: each component
/// (its table is slot `min(comp, 3)`) peeks 16 bits, decodes a category from
/// them, reads that many bits, and adds the difference to its predictor; the
/// new predictor is recorded. A missing table, a category that does not
/// decode, or missing magnitude bits fail; fewer than 16 bits left end the
/// block quietly.
pub open spec fn dc_block(d: Seq<u8>, dcs: Seq<Option<HuffmanView>>, ncomp: int, st: DcState, comp: int) -> DcOutcome
    decreases ncomp - comp,
{
    if comp < 0 || comp >= ncomp {
        DcOutcome::Going(st)
    } else {
        let idx = if comp < 3 { comp } else { 3 };
        match dcs[idx] {
            None => DcOutcome::Failed(st.c.pos as u64, st.preds),
            Some(t) => {
                let (f, peeked) = scan_peek(d, st.c, 16);
                match peeked {
                    None => DcOutcome::Going(DcState { c: f, ..st }),
                    Some(bits) => match huffman_decode_spec(t, bits, 16, 1) {
                        None => DcOutcome::Failed(f.pos as u64, st.preds),
                        Some((cat, len)) => {
                            let c2 = scan_consume(f, len);
                            let read = if cat == 0 { DcRead::Value(c2, 0i16) } else { dc_read(d, c2, cat) };
                            match read {
                                DcRead::Fail(p) => DcOutcome::Failed(p, st.preds),
                                DcRead::Overflow => DcOutcome::Overflow,
                                DcRead::Value(c3, diff) => {
                                    let sum = st.preds[idx] + diff;
                                    if sum < i16::MIN || sum > i16::MAX {
                                        DcOutcome::Overflow
                                    } else {
                                        dc_block(
                                            d,
                                            dcs,
                                            ncomp,
                                            DcState { c: c3, preds: st.preds.update(idx, sum as i16), vals: st.vals.push(sum as i16) },
                                            comp + 1,
                                        )
                                    }
                                },
                            }
                        },
                    },
                }
            },
        }
    }
}

/// Decoding up to `remaining` blocks. After each block the bit buffer is
/// dropped; a restart marker is stepped over and resets the predictors, and
/// EOI ends the decoding.
pub open spec fn dc_blocks(d: Seq<u8>, dcs: Seq<Option<HuffmanView>>, ncomp: int, st: DcState, remaining: nat) -> DcOutcome
    decreases remaining,
{
    if remaining == 0 {
        DcOutcome::Going(st)
    } else {
        match dc_block(d, dcs, ncomp, st, 0) {
            DcOutcome::Going(s1) => {
                let pos = s1.c.pos;
                let cleared = BitCursor { pos, buffer: 0, bits: 0 };
                if pos + 1 < d.len() && d[pos as int] == 0xFF {
                    let next = d[pos + 1];
                    if restart_spec(next) {
                        dc_blocks(
                            d,
                            dcs,
                            ncomp,
                            DcState {
                                c: BitCursor { pos: (pos + 2) as usize, buffer: 0, bits: 0 },
                                preds: seq![0i16, 0i16, 0i16, 0i16],
                                vals: s1.vals,
                            },
                            (remaining - 1) as nat,
                        )
                    } else if next == 0xD9 {
                        DcOutcome::Going(DcState { c: cleared, ..s1 })
                    } else {
                        dc_blocks(d, dcs, ncomp, DcState { c: cleared, ..s1 }, (remaining - 1) as nat)
                    }
                } else {
                    dc_blocks(d, dcs, ncomp, DcState { c: cleared, ..s1 }, (remaining - 1) as nat)
                }
            },
            other => other,
        }
    }
}

/// DC validation of `d` from the start, with zero predictors.
pub open spec fn dc_validation(d: Seq<u8>, dcs: Seq<Option<HuffmanView>>, ncomp: int, max_blocks: nat) -> DcOutcome {
    dc_blocks(
        d,
        dcs,
        ncomp,
        DcState { c: BitCursor { pos: 0, buffer: 0, bits: 0 }, preds: seq![0i16, 0i16, 0i16, 0i16], vals: Seq::empty() },
        max_blocks,
    )
}

/// One block adds at most one value per component still to read, and never
/// drops one.
proof fn lemma_dc_block_values(d: Seq<u8>, dcs: Seq<Option<HuffmanView>>, ncomp: int, st: DcState, comp: int)
    requires
        0 <= comp,
    ensures
        dc_block(d, dcs, ncomp, st, comp) matches DcOutcome::Going(s) ==> st.vals.len() <= s.vals.len() <= st.vals.len()
            + (if comp < ncomp { ncomp - comp } else { 0 }),
    decreases ncomp - comp,
{
    if comp < 0 || comp >= ncomp {
    } else {
        let idx = if comp < 3 { comp } else { 3 };
        match dcs[idx] {
            None => {},
            Some(t) => {
                let (f, peeked) = scan_peek(d, st.c, 16);
                match peeked {
                    None => {},
                    Some(bits) => match huffman_decode_spec(t, bits, 16, 1) {
                        None => {},
                        Some((cat, len)) => {
                            let c2 = scan_consume(f, len);
                            let read = if cat == 0 { DcRead::Value(c2, 0i16) } else { dc_read(d, c2, cat) };
                            match read {
                                DcRead::Value(c3, diff) => {
                                    let sum = st.preds[idx] + diff;
                                    if !(sum < i16::MIN || sum > i16::MAX) {
                                        lemma_dc_block_values(
                                            d,
                                            dcs,
                                            ncomp,
                                            DcState { c: c3, preds: st.preds.update(idx, sum as i16), vals: st.vals.push(sum as i16) },
                                            comp + 1,
                                        );
                                    }
                                },
                                _ => {},
                            }
                        },
                    },
                }
            },
        }
    }
}

/// Reading up to `remaining` blocks adds at most `ncomp` values a block.
proof fn lemma_dc_blocks_values(d: Seq<u8>, dcs: Seq<Option<HuffmanView>>, ncomp: int, st: DcState, remaining: nat)
    requires
        0 <= ncomp,
    ensures
        dc_blocks(d, dcs, ncomp, st, remaining) matches DcOutcome::Going(s) ==> s.vals.len() <= st.vals.len() + remaining
            * ncomp,
    decreases remaining,
{
    if remaining > 0 {
        lemma_dc_block_values(d, dcs, ncomp, st, 0);
        let rest = (remaining - 1) as nat;
        assert(rest * ncomp + ncomp == remaining * ncomp) by (nonlinear_arith)
            requires
                rest + 1 == remaining,
        ;
        assert(0 <= rest * ncomp) by (nonlinear_arith)
            requires
                0 <= ncomp,
        ;
        match dc_block(d, dcs, ncomp, st, 0) {
            DcOutcome::Going(s1) => {
                let pos = s1.c.pos;
                let cleared = BitCursor { pos, buffer: 0, bits: 0 };
                if pos + 1 < d.len() && d[pos as int] == 0xFF {
                    let next = d[pos + 1];
                    if restart_spec(next) {
                        lemma_dc_blocks_values(
                            d,
                            dcs,
                            ncomp,
                            DcState {
                                c: BitCursor { pos: (pos + 2) as usize, buffer: 0, bits: 0 },
                                preds: seq![0i16, 0i16, 0i16, 0i16],
                                vals: s1.vals,
                            },
                            rest,
                        );
                    } else if next != 0xD9 {
                        lemma_dc_blocks_values(d, dcs, ncomp, DcState { c: cleared, ..s1 }, rest);
                    }
                } else {
                    lemma_dc_blocks_values(d, dcs, ncomp, DcState { c: cleared, ..s1 }, rest);
                }
            },
            _ => {},
        }
    }
}

/// DC validation that reads up to `max_blocks` blocks of `ncomp` components
/// gives at most one value per component of each block: never more than
/// `max_blocks * ncomp` values.
pub proof fn lemma_dc_validation_bounded(d: Seq<u8>, dcs: Seq<Option<HuffmanView>>, ncomp: int, max_blocks: nat)
    requires
        0 <= ncomp,
    ensures
        dc_validation(d, dcs, ncomp, max_blocks) matches DcOutcome::Going(s) ==> s.vals.len() <= max_blocks * ncomp,
{
    lemma_dc_blocks_values(
        d,
        dcs,
        ncomp,
        DcState { c: BitCursor { pos: 0, buffer: 0, bits: 0 }, preds: seq![0i16, 0i16, 0i16, 0i16], vals: Seq::empty() },
        max_blocks,
    );
}

/// One MCU adds at most one value, the first component's, and only when
/// it starts at the first component.
proof fn lemma_mcu_decode_values(
    d: Seq<u8>,
    dc: HuffmanView,
    ac: Option<HuffmanView>,
    ncomp: int,
    c: BitCursor,
    preds: Seq<i16>,
    vals: Seq<i16>,
    k: int,
)
    requires
        0 <= k,
    ensures
        mcu_decode(d, dc, ac, ncomp, c, preds, vals, k).2.len() <= vals.len() + (if k == 0 { 1int } else { 0 }),
    decreases ncomp - k,
{
    if k < 0 || k >= ncomp {
    } else {
        let (c1, s) = huffman_step(d, dc, c);
        match s {
            None => {},
            Some(size) => {
                let (c2, v) = value_step(d, c1, size);
                match v {
                    None => {},
                    Some(diff) => {
                        let p = preds.update(k, preds[k].wrapping_add(diff));
                        let nv = if k == 0 { vals.push(p[0]) } else { vals };
                        let c3 = match ac {
                            Some(t) => ac_skip(d, t, c2, 0),
                            None => c2,
                        };
                        lemma_mcu_decode_values(d, dc, ac, ncomp, c3, p, nv, k + 1);
                    },
                }
            },
        }
    }
}

/// Reading up to `remaining` MCUs adds at most one DC value for each: the
/// coefficient extraction never gives more values than the MCUs it was
/// allowed to read.
pub proof fn lemma_mcu_loop_bounded(
    d: Seq<u8>,
    dc: HuffmanView,
    ac: Option<HuffmanView>,
    ncomp: int,
    c: BitCursor,
    preds: Seq<i16>,
    vals: Seq<i16>,
    remaining: nat,
)
    ensures
        mcu_loop(d, dc, ac, ncomp, c, preds, vals, remaining).2.len() <= vals.len() + remaining,
    decreases remaining,
{
    if remaining == 0 || at_end(d, c.pos as int) {
    } else {
        lemma_mcu_decode_values(d, dc, ac, ncomp, c, preds, vals, 0);
        let (c2, p2, v2) = mcu_decode(d, dc, ac, ncomp, c, preds, vals, 0);
        lemma_mcu_loop_bounded(d, dc, ac, ncomp, c2, p2, v2, (remaining - 1) as nat);
    }
}

/// How decoding over data with `p` more bytes in front (and `vals` more
/// values already decoded) relates to decoding over the rest: the same
/// outcome, with positions `p` further on and `vals` in front of the values.
pub open spec fn dc_shifted(o: DcOutcome, q: DcOutcome, p: int, vals: Seq<i16>, rest_len: int) -> bool {
    match (o, q) {
        (DcOutcome::Going(a), DcOutcome::Going(b)) => a.c == shifted(b.c, p) && a.preds == b.preds && a.vals == vals
            + b.vals && b.c.pos <= rest_len,
        (DcOutcome::Failed(pa, ra), DcOutcome::Failed(pb, rb)) => pa == pb + p && ra == rb,
        (DcOutcome::Overflow, DcOutcome::Overflow) => true,
        _ => false,
    }
}

proof fn lemma_dc_block_shift(
    d: Seq<u8>,
    p: int,
    dcs: Seq<Option<HuffmanView>>,
    ncomp: int,
    st: DcState,
    vals: Seq<i16>,
    comp: int,
)
    requires
        0 <= p <= d.len(),
        d.len() + 2 <= usize::MAX,
        st.c.pos + p <= d.len(),
    ensures
        dc_shifted(
            dc_block(d, dcs, ncomp, DcState { c: shifted(st.c, p), preds: st.preds, vals: vals + st.vals }, comp),
            dc_block(d.subrange(p, d.len() as int), dcs, ncomp, st, comp),
            p,
            vals,
            d.len() - p,
        ),
    decreases ncomp - comp,
{
    let y = d.subrange(p, d.len() as int);
    let sd = DcState { c: shifted(st.c, p), preds: st.preds, vals: vals + st.vals };
    if comp < 0 || comp >= ncomp {
    } else {
        let idx = if comp < 3 { comp } else { 3 };
        match dcs[idx] {
            None => {},
            Some(t) => {
                lemma_scan_fill_shift(d, p, st.c);
                let (f, peeked) = scan_peek(y, st.c, 16);
                assert(scan_peek(d, sd.c, 16) == (shifted(f, p), peeked));
                match peeked {
                    None => {
                        assert(DcState { c: shifted(f, p), ..sd } == DcState { c: shifted(f, p), preds: st.preds, vals:
                            vals + st.vals });
                    },
                    Some(bits) => match huffman_decode_spec(t, bits, 16, 1) {
                        None => {},
                        Some((cat, len)) => {
                            let c2 = scan_consume(f, len);
                            assert(scan_consume(shifted(f, p), len) == shifted(c2, p));
                            lemma_scan_fill_shift(d, p, c2);
                            let read = if cat == 0 { DcRead::Value(c2, 0i16) } else { dc_read(y, c2, cat) };
                            let read_d = if cat == 0 { DcRead::Value(shifted(c2, p), 0i16) } else { dc_read(d, shifted(c2, p), cat) };
                            if cat != 0 {
                                let (c5, r5) = scan_read(y, c2, cat);
                                let f5 = scan_fill(y, c2);
                                assert(scan_read(d, shifted(c2, p), cat) == (shifted(c5, p), r5)) by {
                                    assert(scan_consume(shifted(f5, p), cat) == shifted(scan_consume(f5, cat), p));
                                }
                            }
                            match read {
                                DcRead::Fail(q) => {},
                                DcRead::Overflow => {},
                                DcRead::Value(c3, diff) => {
                                    assert(read_d == DcRead::Value(shifted(c3, p), diff));
                                    let sum = st.preds[idx] + diff;
                                    if !(sum < i16::MIN || sum > i16::MAX) {
                                        let st2 = DcState { c: c3, preds: st.preds.update(idx, sum as i16), vals: st.vals.push(sum as i16) };
                                        assert((vals + st.vals).push(sum as i16) =~= vals + st.vals.push(sum as i16));
                                        lemma_dc_block_shift(d, p, dcs, ncomp, st2, vals, comp + 1);
                                    }
                                },
                            }
                        },
                    },
                }
            },
        }
    }
}

proof fn lemma_dc_blocks_shift(
    d: Seq<u8>,
    p: int,
    dcs: Seq<Option<HuffmanView>>,
    ncomp: int,
    st: DcState,
    vals: Seq<i16>,
    remaining: nat,
)
    requires
        0 <= p <= d.len(),
        d.len() + 2 <= usize::MAX,
        st.c.pos + p <= d.len(),
    ensures
        dc_shifted(
            dc_blocks(d, dcs, ncomp, DcState { c: shifted(st.c, p), preds: st.preds, vals: vals + st.vals }, remaining),
            dc_blocks(d.subrange(p, d.len() as int), dcs, ncomp, st, remaining),
            p,
            vals,
            d.len() - p,
        ),
    decreases remaining,
{
    let y = d.subrange(p, d.len() as int);
    if remaining > 0 {
        lemma_dc_block_shift(d, p, dcs, ncomp, st, vals, 0);
        let sd = DcState { c: shifted(st.c, p), preds: st.preds, vals: vals + st.vals };
        match dc_block(y, dcs, ncomp, st, 0) {
            DcOutcome::Going(s1) => {
                let pos = s1.c.pos;
                let cleared = BitCursor { pos, buffer: 0, bits: 0 };
                let rest = (remaining - 1) as nat;
                assert(BitCursor { pos: (pos + p) as usize, buffer: 0, bits: 0 } == shifted(cleared, p));
                if pos + 1 < y.len() && y[pos as int] == 0xFF {
                    let next = y[pos + 1];
                    assert(d[pos + p] == 0xFF && d[pos + p + 1] == next);
                    if restart_spec(next) {
                        let st2 = DcState {
                            c: BitCursor { pos: (pos + 2) as usize, buffer: 0, bits: 0 },
                            preds: seq![0i16, 0i16, 0i16, 0i16],
                            vals: s1.vals,
                        };
                        assert(BitCursor { pos: (pos + p + 2) as usize, buffer: 0, bits: 0 } == shifted(st2.c, p));
                        lemma_dc_blocks_shift(d, p, dcs, ncomp, st2, vals, rest);
                    } else if next == 0xD9 {
                    } else {
                        lemma_dc_blocks_shift(d, p, dcs, ncomp, DcState { c: cleared, ..s1 }, vals, rest);
                    }
                } else {
                    lemma_dc_blocks_shift(d, p, dcs, ncomp, DcState { c: cleared, ..s1 }, vals, rest);
                }
            },
            _ => {},
        }
    }
}

/// The state DC validation starts from: the first byte, an empty buffer,
/// zero predictors and no values.
pub open spec fn dc_start() -> DcState {
    DcState { c: BitCursor { pos: 0, buffer: 0, bits: 0 }, preds: seq![0i16, 0i16, 0i16, 0i16], vals: Seq::empty() }
}

/// After a restart marker the DC predictors start again from zero (ITU-T
/// T.81, F.2.1.3.1). In data `x ++ [FF, RSTn] ++ y` whose first block is
/// decoded from `x` up to the marker, everything decoded after the marker is
/// exactly what decoding `y` alone from the start gives: the same values
/// after the first block's, the same predictors, and a failure at the same
/// place in `y`.
pub proof fn lemma_restart_starts_afresh(
    x: Seq<u8>,
    n: u8,
    y: Seq<u8>,
    dcs: Seq<Option<HuffmanView>>,
    ncomp: int,
    max_blocks: nat,
)
    requires
        n < 8,
        x.len() + 2 + y.len() + 2 <= usize::MAX,
        dc_block(x + seq![0xFFu8, (0xD0 + n) as u8] + y, dcs, ncomp, dc_start(), 0) matches DcOutcome::Going(s1)
            && s1.c.pos == x.len(),
    ensures
        ({
            let d = x + seq![0xFFu8, (0xD0 + n) as u8] + y;
            let first = dc_block(d, dcs, ncomp, dc_start(), 0)->Going_0.vals;
            match (dc_validation(d, dcs, ncomp, max_blocks + 1), dc_validation(y, dcs, ncomp, max_blocks)) {
                (DcOutcome::Going(a), DcOutcome::Going(b)) => a.vals == first + b.vals && a.preds == b.preds,
                (DcOutcome::Failed(pa, ra), DcOutcome::Failed(pb, rb)) => pa == pb + x.len() + 2 && ra == rb,
                (DcOutcome::Overflow, DcOutcome::Overflow) => true,
                _ => false,
            }
        }),
{
    let d = x + seq![0xFFu8, (0xD0 + n) as u8] + y;
    let p = x.len() + 2;
    let s1 = dc_block(d, dcs, ncomp, dc_start(), 0)->Going_0;
    assert(d.subrange(p as int, d.len() as int) =~= y);
    assert(d[x.len() as int] == 0xFF);
    assert(d[x.len() as int + 1] == (0xD0 + n) as u8);
    let st = dc_start();
    assert(Seq::<i16>::empty() + st.vals =~= Seq::<i16>::empty());
    assert(s1.vals + st.vals =~= s1.vals);
    assert(dc_validation(d, dcs, ncomp, max_blocks + 1) == dc_blocks(
        d,
        dcs,
        ncomp,
        DcState { c: shifted(st.c, p as int), preds: st.preds, vals: s1.vals + st.vals },
        max_blocks,
    ));
    lemma_dc_blocks_shift(d, p as int, dcs, ncomp, st, s1.vals, max_blocks);
}

impl Default for HuffmanDecoder {
    fn default() -> (r: Self)
        ensures
            r.wf(),
    {
        HuffmanDecoder::new()
    }
}

/// The summed absolute difference of the last `n` DC values of a head and
/// the first `n` of a tail, pairwise in order.
pub open spec fn dc_diff_sum(head: Seq<i16>, tail: Seq<i16>, n: int) -> int
    decreases n,
{
    if n <= 0 {
        0
    } else {
        let a = head[head.len() - n] as int;
        let b = tail[0] as int;
        let d = if a >= b { a - b } else { b - a };
        d + dc_diff_sum(head, tail.drop_first(), n - 1)
    }
}

/// How many DC values at the junction of a head and a tail are compared:
/// up to eight, as many as both sides have.
pub open spec fn dc_compare_count(head: Seq<i16>, tail: Seq<i16>) -> int {
    let m = if head.len() < tail.len() { head.len() as int } else { tail.len() as int };
    if m < 8 { m } else { 8 }
}

/// The DC difference at the junction of a head and a tail: how many values
/// were compared ([`dc_compare_count`]) and their summed difference
/// ([`dc_diff_sum`]), which scores how smoothly the two join. `None` when
/// either side has no value.
pub fn dc_boundary_difference(head: &[i16], tail: &[i16]) -> (r: Option<(u32, usize)>)
    ensures
        match r {
            None => head@.len() == 0 || tail@.len() == 0,
            Some((total, count)) => head@.len() > 0 && tail@.len() > 0
                && count == dc_compare_count(head@, tail@)
                && total == dc_diff_sum(head@, tail@, count as int),
        },
{
    if head.len() == 0 || tail.len() == 0 {
        return None;
    }
    let mut count: usize = if head.len() < tail.len() { head.len() } else { tail.len() };
    if count > 8 {
        count = 8;
    }
    let mut total: u32 = 0;
    let mut k: usize = count;
    assert(tail@.subrange(0, tail@.len() as int) =~= tail@);
    while k > 0
        invariant
            k <= count <= 8,
            count <= head@.len(),
            count <= tail@.len(),
            total + dc_diff_sum(head@, tail@.subrange((count - k) as int, tail@.len() as int), k as int)
                == dc_diff_sum(head@, tail@, count as int),
            total <= 65535 * (count - k),
        decreases k,
    {
        let ghost rest = tail@.subrange((count - k) as int, tail@.len() as int);
        let a = head[head.len() - k] as i32;
        let b = tail[count - k] as i32;
        let d = if a >= b { a - b } else { b - a };
        assert(rest[0] == tail@[(count - k) as int]);
        assert(rest.drop_first() =~= tail@.subrange((count - k + 1) as int, tail@.len() as int));
        total = total + d as u32;
        k = k - 1;
    }
    Some((total, count))
}

} // verus!
