//! Reading bits from entropy-coded JPEG data.
//!
//! Entropy-coded data is read most significant bit first. An `FF` byte in it
//! is followed by a stuffed `00`, which the reader drops; `FF` followed by
//! anything else is a marker, where the data ends for the reader.

use vstd::prelude::*;

use super::huffman::{HuffmanTable, HuffmanView};

verus! {

/// Where a bit reader stands: the next byte to load, the bit buffer, and how
/// many of the buffer's low bits have not been read yet.
#[derive(Debug, Clone, Copy)]
pub struct BitCursor {
    pub pos: usize,
    pub buffer: u32,
    pub bits: u8,
}

/// The next data byte at `pos` and the position after it: a stuffed `FF 00`
/// gives `FF` and skips both; `FF` before anything else is a marker, where
/// there is no next byte.
pub open spec fn next_byte(d: Seq<u8>, pos: int) -> Option<(u8, int)> {
    if pos < 0 || pos >= d.len() {
        None
    } else if d[pos] == 0xFF && pos + 1 < d.len() {
        if d[pos + 1] == 0x00 {
            Some((0xFFu8, pos + 2))
        } else {
            None
        }
    } else {
        Some((d[pos], pos + 1))
    }
}

/// `c` with `byte` shifted into the low end of its buffer and the position
/// moved to `pos`.
pub open spec fn shift_in(c: BitCursor, byte: u8, pos: int) -> BitCursor {
    BitCursor { pos: pos as usize, buffer: (c.buffer << 8u32) | (byte as u32), bits: (c.bits + 8) as u8 }
}

/// Loads bytes until at least `needed` bits are buffered or no byte is left.
pub open spec fn fill(d: Seq<u8>, c: BitCursor, needed: u8) -> BitCursor
    decreases d.len() - c.pos,
{
    if c.bits >= needed {
        c
    } else {
        match next_byte(d, c.pos as int) {
            None => c,
            Some((b, p)) => {
                if p <= c.pos || p > d.len() || p > usize::MAX {
                    c
                } else {
                    fill(d, shift_in(c, b, p), needed)
                }
            },
        }
    }
}

/// The `n` buffered bits that come next, as a number.
pub open spec fn peek_result(c: BitCursor, n: u8) -> u32 {
    (c.buffer >> ((c.bits - n) as u8)) & (((1u32 << n) - 1) as u32)
}

/// The first length from `len` to 16 whose next bits form a code of that
/// length in `t`, with its symbol.
pub open spec fn huffman_match(t: HuffmanView, c: BitCursor, len: int) -> Option<(u8, u8)>
    decreases 17 - len,
{
    if len < 1 || len > 16 || len > c.bits {
        None
    } else {
        let code = peek_result(c, len as u8);
        if t.codes.contains_key(code) && t.codes[code].1 == len as u8 {
            Some((t.codes[code].0, len as u8))
        } else {
            huffman_match(t, c, len + 1)
        }
    }
}

/// The signed value that `size` magnitude bits stand for: values below half
/// the range are negative.
pub open spec fn extend_value(bits: u32, size: u8) -> i16 {
    if bits < (1u32 << ((size - 1) as u8)) {
        (bits - ((1u32 << size) - 1)) as i16
    } else {
        bits as i16
    }
}

/// `c` with `n` buffered bits consumed.
pub open spec fn consumed(c: BitCursor, n: u8) -> BitCursor {
    BitCursor { bits: (c.bits - n) as u8, ..c }
}

/// Peeking `n` bits (1 to 24): the refilled cursor and the bits, if that
/// many could be buffered.
pub open spec fn peek_step(d: Seq<u8>, c: BitCursor, n: u8) -> (BitCursor, Option<u32>) {
    if n == 0 || n > 24 {
        (c, None)
    } else {
        let f = fill(d, c, n);
        if f.bits < n {
            (f, None)
        } else {
            (f, Some(peek_result(f, n)))
        }
    }
}

/// Reading `n` bits: as peeking, and the bits are consumed when there.
pub open spec fn read_step(d: Seq<u8>, c: BitCursor, n: u8) -> (BitCursor, Option<u32>) {
    let (f, r) = peek_step(d, c, n);
    match r {
        Some(v) => (consumed(f, n), Some(v)),
        None => (f, None),
    }
}

/// Decoding one symbol of `t`.
pub open spec fn huffman_step(d: Seq<u8>, t: HuffmanView, c: BitCursor) -> (BitCursor, Option<u8>) {
    let f = fill(d, c, 16);
    match huffman_match(t, f, 1) {
        Some((s, l)) => (consumed(f, l), Some(s)),
        None => (f, None),
    }
}

/// Decoding a `size`-bit value.
pub open spec fn value_step(d: Seq<u8>, c: BitCursor, size: u8) -> (BitCursor, Option<i16>) {
    if size == 0 {
        (c, Some(0i16))
    } else if size > 15 {
        (c, None)
    } else {
        let (f, r) = read_step(d, c, size);
        match r {
            Some(v) => (f, Some(extend_value(v, size))),
            None => (f, None),
        }
    }
}

/// The bits still to come, counting each unread byte as eight: never grows
/// as the reader moves on.
pub open spec fn bit_measure(d: Seq<u8>, c: BitCursor) -> int {
    8 * (d.len() - c.pos) + c.bits
}

/// Refilling keeps the position within the data, keeps the buffered bits
/// below 32, and does not raise the measure.
pub proof fn lemma_fill_measure(d: Seq<u8>, c: BitCursor, needed: u8)
    requires
        c.pos <= d.len(),
        c.bits <= 31,
        needed <= 24,
    ensures
        fill(d, c, needed).pos <= d.len(),
        fill(d, c, needed).bits <= 31,
        fill(d, c, needed).bits >= c.bits,
        bit_measure(d, fill(d, c, needed)) <= bit_measure(d, c),
    decreases d.len() - c.pos,
{
    if c.bits >= needed {
    } else {
        match next_byte(d, c.pos as int) {
            None => {},
            Some((b, p)) => {
                if p <= c.pos || p > d.len() || p > usize::MAX {
                } else {
                    lemma_fill_measure(d, shift_in(c, b, p), needed);
                }
            },
        }
    }
}

/// Reading keeps the position within the data, keeps the buffered bits
/// below 32, and does not raise the measure.
pub proof fn lemma_read_measure(d: Seq<u8>, c: BitCursor, n: u8)
    requires
        c.pos <= d.len(),
        c.bits <= 31,
    ensures
        read_step(d, c, n).0.pos <= d.len(),
        read_step(d, c, n).0.bits <= 31,
        bit_measure(d, read_step(d, c, n).0) <= bit_measure(d, c),
{
    if 1 <= n <= 24 {
        lemma_fill_measure(d, c, n);
    }
}

/// A matched code is between 1 and 16 bits long and no longer than what is
/// buffered.
pub proof fn lemma_match_len(t: HuffmanView, c: BitCursor, len: int)
    ensures
        match huffman_match(t, c, len) {
            Some((s, l)) => 1 <= l <= 16 && l <= c.bits && l >= len,
            None => true,
        },
    decreases 17 - len,
{
    if len < 1 || len > 16 || len > c.bits {
    } else {
        lemma_match_len(t, c, len + 1);
    }
}

/// Reads bits, most significant first, from entropy-coded data.
pub struct BitReader<'a> {
    data: &'a [u8],
    pos: usize,
    bit_buffer: u32,
    bits_available: u8,
}

impl<'a> BitReader<'a> {
    /// The data read.
    pub closed spec fn bytes(&self) -> Seq<u8> {
        self.data@
    }

    /// Where the reader stands.
    pub closed spec fn cursor(&self) -> BitCursor {
        BitCursor { pos: self.pos, buffer: self.bit_buffer, bits: self.bits_available }
    }

    /// The position lies in the data and fewer than 32 bits are buffered.
    pub open spec fn wf(&self) -> bool {
        self.cursor().pos <= self.bytes().len() && self.cursor().bits <= 31
    }

    /// A reader at the start of `data` with nothing buffered.
    pub fn new(data: &'a [u8]) -> (r: Self)
        ensures
            r.wf(),
            r.bytes() == data@,
            r.cursor() == (BitCursor { pos: 0, buffer: 0, bits: 0 }),
    {
        BitReader { data, pos: 0, bit_buffer: 0, bits_available: 0 }
    }

    fn read_byte(&mut self) -> (r: Option<u8>)
        requires
            old(self).wf(),
        ensures
            final(self).wf(),
            final(self).bytes() == old(self).bytes(),
            final(self).bit_buffer == old(self).bit_buffer,
            final(self).bits_available == old(self).bits_available,
            match next_byte(old(self).bytes(), old(self).pos as int) {
                Some((b, p)) => r == Some(b) && final(self).pos == p,
                None => r is None && final(self).pos == old(self).pos,
            },
    {
        if self.pos >= self.data.len() {
            return None;
        }
        let byte = self.data[self.pos];
        self.pos += 1;
        if byte == 0xFF && self.pos < self.data.len() {
            if self.data[self.pos] == 0x00 {
                self.pos += 1;
            } else {
                self.pos -= 1;
                return None;
            }
        }
        Some(byte)
    }

    fn fill_buffer(&mut self, needed: u8)
        requires
            old(self).wf(),
            needed <= 24,
        ensures
            final(self).wf(),
            final(self).bytes() == old(self).bytes(),
            final(self).cursor() == fill(old(self).bytes(), old(self).cursor(), needed),
    {
        while self.bits_available < needed
            invariant_except_break
                self.wf(),
                needed <= 24,
                self.bytes() == old(self).bytes(),
                fill(self.bytes(), self.cursor(), needed) == fill(old(self).bytes(), old(self).cursor(), needed),
            ensures
                self.wf(),
                self.bytes() == old(self).bytes(),
                self.cursor() == fill(old(self).bytes(), old(self).cursor(), needed),
            decreases self.data@.len() - self.pos,
        {
            let ghost before = self.cursor();
            match self.read_byte() {
                Some(byte) => {
                    self.bit_buffer = (self.bit_buffer << 8u32) | (byte as u32);
                    self.bits_available += 8;
                    assert(self.cursor() == shift_in(before, byte, self.pos as int));
                },
                None => {
                    break;
                },
            }
        }
    }

    /// The next `n` bits (1 to 24) as a number, without consuming them;
    /// `None` when `n` is out of range or the data ends first.
    pub fn peek_bits(&mut self, n: u8) -> (r: Option<u32>)
        requires
            old(self).wf(),
        ensures
            final(self).wf(),
            final(self).bytes() == old(self).bytes(),
            (final(self).cursor(), r) == peek_step(old(self).bytes(), old(self).cursor(), n),
    {
        if n == 0 || n > 24 {
            return None;
        }
        self.fill_buffer(n);
        if self.bits_available < n {
            return None;
        }
        let shift = self.bits_available - n;
        assert(1u32 << n >= 1) by (bit_vector)
            requires
                n <= 24,
        ;
        Some((self.bit_buffer >> shift) & ((1u32 << n) - 1))
    }

    /// The next `n` bits (1 to 24) as a number, consumed.
    pub fn read_bits(&mut self, n: u8) -> (r: Option<u32>)
        requires
            old(self).wf(),
        ensures
            final(self).wf(),
            final(self).bytes() == old(self).bytes(),
            (final(self).cursor(), r) == read_step(old(self).bytes(), old(self).cursor(), n),
    {
        let bits = match self.peek_bits(n) {
            Some(b) => b,
            None => return None,
        };
        self.bits_available -= n;
        Some(bits)
    }

    /// Decodes one Huffman symbol: the shortest code (1 to 16 bits) found in
    /// `table` with its own length, consumed; `None`, with only the refill
    /// done, when no code matches.
    pub fn decode_huffman(&mut self, table: &HuffmanTable) -> (r: Option<u8>)
        requires
            old(self).wf(),
        ensures
            final(self).wf(),
            final(self).bytes() == old(self).bytes(),
            (final(self).cursor(), r) == huffman_step(old(self).bytes(), table@, old(self).cursor()),
    {
        self.fill_buffer(16);
        let ghost c = self.cursor();
        let mut len: u8 = 1;
        while len <= 16
            invariant
                self.wf(),
                self.bytes() == old(self).bytes(),
                self.cursor() == c,
                c == fill(old(self).bytes(), old(self).cursor(), 16),
                1 <= len <= 17,
                huffman_match(table@, c, len as int) == huffman_match(table@, c, 1),
            decreases 17 - len,
        {
            if len > self.bits_available {
                return None;
            }
            let shift = self.bits_available - len;
            assert(1u32 << len >= 1) by (bit_vector)
                requires
                    len <= 16,
            ;
            let code = (self.bit_buffer >> shift) & ((1u32 << len) - 1);
            match table.lookup(code) {
                Some(entry) => {
                    let (symbol, code_len) = entry;
                    if code_len == len {
                        self.bits_available -= len;
                        return Some(symbol);
                    }
                },
                None => {},
            }
            len += 1;
        }
        None
    }

    /// Reads a `size`-bit magnitude and gives the signed value it codes
    /// ([`extend_value`]); 0 without reading for size 0, `None` for sizes
    /// above 15 or when the data ends.
    pub fn decode_value(&mut self, size: u8) -> (r: Option<i16>)
        requires
            old(self).wf(),
        ensures
            final(self).wf(),
            final(self).bytes() == old(self).bytes(),
            (final(self).cursor(), r) == value_step(old(self).bytes(), old(self).cursor(), size),
    {
        if size == 0 {
            return Some(0);
        }
        if size > 15 {
            return None;
        }
        let bits = match self.read_bits(size) {
            Some(b) => b,
            None => return None,
        };
        let ghost c = fill(old(self).bytes(), old(self).cursor(), size);
        let ghost x: u32 = c.buffer >> ((c.bits - size) as u8);
        assert(bits == x & (((1u32 << size) - 1) as u32));
        assert(bits < (1u32 << size) && (1u32 << size) <= 32768 && (1u32 << ((size - 1) as u8)) >= 1) by (bit_vector)
            requires
                bits == x & (((1u32 << size) - 1) as u32),
                1 <= size <= 15,
        ;
        let half = 1u32 << (size - 1);
        if bits < half {
            let full = (1u32 << size) - 1;
            Some((bits as i16) - (full as i16))
        } else {
            Some(bits as i16)
        }
    }

    /// The position of the next byte to load.
    pub fn position(&self) -> (r: usize)
        ensures
            r == self.cursor().pos,
    {
        self.pos
    }

    /// Whether the bytes are used up or a marker comes next.
    pub fn is_at_end(&self) -> (r: bool)
        requires
            self.wf(),
        ensures
            r == (self.cursor().pos >= self.bytes().len() || (self.cursor().pos + 1 < self.bytes().len()
                && self.bytes()[self.cursor().pos as int] == 0xFF && self.bytes()[self.cursor().pos + 1] != 0x00)),
    {
        self.pos >= self.data.len() || (self.pos + 1 < self.data.len() && self.data[self.pos] == 0xFF
            && self.data[self.pos + 1] != 0x00)
    }
}

} // verus!
