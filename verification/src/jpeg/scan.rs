//! The bit reader behind DC validation.
//!
//! It differs from [`super::bits::BitReader`]: it buffers up to 32 bits, it
//! stops before restart and EOI markers, it drops an `FF` that precedes
//! another `FF`, and consuming bits clears them from the buffer.

use vstd::prelude::*;

use super::bits::{shift_in, BitCursor};
use super::restart_spec;

verus! {

/// Loads bytes while at most 24 bits are buffered: `FF 00` gives `FF`; the
/// reader stops before `FF` followed by a restart marker or EOI; an `FF`
/// followed by `FF` is dropped; any other byte is loaded as it is.
pub open spec fn scan_fill(d: Seq<u8>, c: BitCursor) -> BitCursor
    decreases d.len() - c.pos,
{
    if c.bits > 24 || c.pos >= d.len() || c.pos + 2 > usize::MAX {
        c
    } else {
        let byte = d[c.pos as int];
        let p = c.pos + 1;
        if byte == 0xFF && p < d.len() {
            let next = d[p];
            if next == 0x00 {
                scan_fill(d, shift_in(c, byte, p + 1))
            } else if restart_spec(next) || next == 0xD9 {
                c
            } else if next == 0xFF {
                scan_fill(d, BitCursor { pos: p as usize, ..c })
            } else {
                scan_fill(d, shift_in(c, byte, p))
            }
        } else {
            scan_fill(d, shift_in(c, byte, p))
        }
    }
}

/// The `n` bits that come next in the buffer, as a number.
pub open spec fn scan_bits(c: BitCursor, n: u8) -> u32 {
    (c.buffer >> ((c.bits - n) as u8)) & (((1u32 << n) - 1) as u32)
}

/// Peeking `n` bits after a refill.
pub open spec fn scan_peek(d: Seq<u8>, c: BitCursor, n: u8) -> (BitCursor, Option<u32>) {
    let f = scan_fill(d, c);
    if f.bits < n {
        (f, None)
    } else {
        (f, Some(scan_bits(f, n)))
    }
}

/// Consuming `n` buffered bits, which are cleared; nothing happens when
/// fewer are buffered.
pub open spec fn scan_consume(c: BitCursor, n: u8) -> BitCursor {
    if n <= c.bits {
        let b = (c.bits - n) as u8;
        BitCursor { pos: c.pos, buffer: c.buffer & (((1u32 << b) - 1) as u32), bits: b }
    } else {
        c
    }
}

/// Reading `n` bits: peeking, then consuming them when they are there.
pub open spec fn scan_read(d: Seq<u8>, c: BitCursor, n: u8) -> (BitCursor, Option<u32>) {
    let (f, r) = scan_peek(d, c, n);
    match r {
        Some(v) => (scan_consume(f, n), Some(v)),
        None => (f, None),
    }
}

/// `c` moved `p` bytes further on: where a reader over data with `p` more
/// bytes in front stands.
pub open spec fn shifted(c: BitCursor, p: int) -> BitCursor {
    BitCursor { pos: (c.pos + p) as usize, ..c }
}

/// Filling reads only from the cursor on: over data with `p` more bytes in
/// front, a cursor `p` bytes further on fills the same bits and ends `p`
/// bytes further on.
pub proof fn lemma_scan_fill_shift(d: Seq<u8>, p: int, c: BitCursor)
    requires
        0 <= p <= d.len(),
        d.len() + 2 <= usize::MAX,
        c.pos + p <= d.len(),
    ensures
        scan_fill(d, shifted(c, p)) == shifted(scan_fill(d.subrange(p, d.len() as int), c), p),
        scan_fill(d.subrange(p, d.len() as int), c).pos + p <= d.len(),
    decreases d.len() - p - c.pos,
{
    let y = d.subrange(p, d.len() as int);
    let cd = shifted(c, p);
    assert(cd.pos == c.pos + p);
    if c.bits > 24 || c.pos >= y.len() {
    } else {
        let byte = y[c.pos as int];
        assert(d[cd.pos as int] == byte);
        let q = c.pos + 1;
        if byte == 0xFF && q < y.len() {
            let next = y[q];
            assert(d[q + p] == next);
            if next == 0x00 {
                assert(shift_in(cd, byte, q + 1 + p) == shifted(shift_in(c, byte, q + 1), p));
                lemma_scan_fill_shift(d, p, shift_in(c, byte, q + 1));
            } else if restart_spec(next) || next == 0xD9 {
            } else if next == 0xFF {
                assert(BitCursor { pos: (q + p) as usize, ..cd } == shifted(BitCursor { pos: q as usize, ..c }, p));
                lemma_scan_fill_shift(d, p, BitCursor { pos: q as usize, ..c });
            } else {
                assert(shift_in(cd, byte, q + p) == shifted(shift_in(c, byte, q), p));
                lemma_scan_fill_shift(d, p, shift_in(c, byte, q));
            }
        } else {
            assert(shift_in(cd, byte, q + p) == shifted(shift_in(c, byte, q), p));
            lemma_scan_fill_shift(d, p, shift_in(c, byte, q));
        }
    }
}

/// Reads bits for DC validation.
pub struct ScanReader<'a> {
    data: &'a [u8],
    pos: usize,
    bit_buffer: u32,
    bits_in_buffer: u8,
}

impl<'a> ScanReader<'a> {
    /// The data read.
    pub closed spec fn bytes(&self) -> Seq<u8> {
        self.data@
    }

    /// Where the reader stands.
    pub closed spec fn cursor(&self) -> BitCursor {
        BitCursor { pos: self.pos, buffer: self.bit_buffer, bits: self.bits_in_buffer }
    }

    /// The position lies in the data and at most 32 bits are buffered.
    pub open spec fn wf(&self) -> bool {
        self.cursor().pos <= self.bytes().len() && self.cursor().bits <= 32
    }

    /// A reader at the start of `data`.
    pub fn new(data: &'a [u8]) -> (r: Self)
        ensures
            r.wf(),
            r.bytes() == data@,
            r.cursor() == (BitCursor { pos: 0, buffer: 0, bits: 0 }),
    {
        ScanReader { data, pos: 0, bit_buffer: 0, bits_in_buffer: 0 }
    }

    /// The position of the next byte to load.
    pub fn byte_position(&self) -> (r: usize)
        ensures
            r == self.cursor().pos,
    {
        self.pos
    }

    fn fill_buffer(&mut self)
        requires
            old(self).wf(),
        ensures
            final(self).wf(),
            final(self).bytes() == old(self).bytes(),
            final(self).cursor() == scan_fill(old(self).bytes(), old(self).cursor()),
    {
        while self.bits_in_buffer <= 24 && self.pos < self.data.len()
            invariant_except_break
                self.wf(),
                self.bytes() == old(self).bytes(),
                scan_fill(self.bytes(), self.cursor()) == scan_fill(old(self).bytes(), old(self).cursor()),
            ensures
                self.wf(),
                self.bytes() == old(self).bytes(),
                self.cursor() == scan_fill(old(self).bytes(), old(self).cursor()),
            decreases self.data@.len() - self.pos,
        {
            if self.pos > usize::MAX - 2 {
                break;
            }
            let before = self.pos;
            let byte = self.data[self.pos];
            self.pos += 1;
            if byte == 0xFF && self.pos < self.data.len() {
                let next = self.data[self.pos];
                if next == 0x00 {
                    self.pos += 1;
                } else if next >= 0xD0 && next <= 0xD7 {
                    self.pos -= 1;
                    return;
                } else if next == 0xD9 {
                    self.pos -= 1;
                    return;
                } else if next == 0xFF {
                    continue;
                }
            }
            let ghost c = BitCursor { pos: before, ..self.cursor() };
            self.bit_buffer = (self.bit_buffer << 8u32) | (byte as u32);
            self.bits_in_buffer += 8;
            assert(self.cursor() == shift_in(c, byte, self.pos as int));
        }
    }

    /// Loads what the buffer takes and gives how many bits it then holds.
    pub fn buffered_bits(&mut self) -> (r: u8)
        requires
            old(self).wf(),
        ensures
            final(self).wf(),
            final(self).bytes() == old(self).bytes(),
            final(self).cursor() == scan_fill(old(self).bytes(), old(self).cursor()),
            r == final(self).cursor().bits,
    {
        self.fill_buffer();
        self.bits_in_buffer
    }

    /// The next `count` bits as a number, not consumed.
    pub fn peek_bits(&mut self, count: u8) -> (r: Option<u32>)
        requires
            old(self).wf(),
            count >= 1,
            count < 32 || scan_fill(old(self).bytes(), old(self).cursor()).bits < count,
        ensures
            final(self).wf(),
            final(self).bytes() == old(self).bytes(),
            (final(self).cursor(), r) == scan_peek(old(self).bytes(), old(self).cursor(), count),
    {
        self.fill_buffer();
        if self.bits_in_buffer < count {
            return None;
        }
        let shift = self.bits_in_buffer - count;
        assert(1u32 << count >= 1) by (bit_vector)
            requires
                count < 32,
        ;
        Some((self.bit_buffer >> shift) & ((1u32 << count) - 1))
    }

    /// Consumes `count` buffered bits, clearing them.
    pub fn consume_bits(&mut self, count: u8)
        requires
            old(self).wf(),
            count >= 1,
        ensures
            final(self).wf(),
            final(self).bytes() == old(self).bytes(),
            final(self).cursor() == scan_consume(old(self).cursor(), count),
    {
        if count <= self.bits_in_buffer {
            self.bits_in_buffer -= count;
            let b = self.bits_in_buffer;
            assert(1u32 << b >= 1) by (bit_vector)
                requires
                    b < 32,
            ;
            self.bit_buffer &= (1u32 << b) - 1;
        }
    }

    /// The next `count` bits, consumed, cut to 16 bits.
    pub fn read_bits(&mut self, count: u8) -> (r: Option<u16>)
        requires
            old(self).wf(),
            count >= 1,
            count < 32 || scan_fill(old(self).bytes(), old(self).cursor()).bits < count,
        ensures
            final(self).wf(),
            final(self).bytes() == old(self).bytes(),
            final(self).cursor() == scan_read(old(self).bytes(), old(self).cursor(), count).0,
            r == (match scan_read(old(self).bytes(), old(self).cursor(), count).1 {
                Some(v) => Some(v as u16),
                None => None,
            }),
    {
        let bits = match self.peek_bits(count) {
            Some(b) => b,
            None => return None,
        };
        self.consume_bits(count);
        Some(bits as u16)
    }

    /// Drops the buffered bits and reports the marker at the position, if
    /// an `FF` and a byte after it are there.
    pub fn peek_marker(&mut self) -> (r: Option<(u8, u8)>)
        requires
            old(self).wf(),
        ensures
            final(self).wf(),
            final(self).bytes() == old(self).bytes(),
            final(self).cursor() == (BitCursor { pos: old(self).cursor().pos, buffer: 0, bits: 0 }),
            r == (if old(self).cursor().pos + 1 < old(self).bytes().len()
                && old(self).bytes()[old(self).cursor().pos as int] == 0xFF {
                Some((0xFFu8, old(self).bytes()[old(self).cursor().pos + 1]))
            } else {
                None
            }),
    {
        self.bits_in_buffer = 0;
        self.bit_buffer = 0;
        if self.pos < self.data.len() && self.pos + 1 < self.data.len() && self.data[self.pos] == 0xFF {
            Some((0xFF, self.data[self.pos + 1]))
        } else {
            None
        }
    }

    /// Steps over a two-byte marker.
    pub fn consume_marker(&mut self)
        requires
            old(self).wf(),
            old(self).cursor().pos + 2 <= old(self).bytes().len(),
        ensures
            final(self).wf(),
            final(self).bytes() == old(self).bytes(),
            final(self).cursor() == (BitCursor { pos: (old(self).cursor().pos + 2) as usize, ..old(self).cursor() }),
    {
        let n = self.data.len();
        assert(self.data@.len() == n);
        self.pos += 2;
    }
}

} // verus!
