//! Byte-addressed reading over a sector-addressed medium: the adapter from
//! [`BlockSource`] to the byte stream every recovery pass consumes.

use vstd::prelude::*;

use crate::geometry::Lba;
use crate::ports::{BlockSource, Geometry, ReadError};

verus! {

/// Where a seek goes: from the start, from the end, or from the current
/// position.
#[derive(Clone, Copy, Debug, PartialEq, Eq, Structural)]
pub enum SeekTarget {
    Start(u64),
    End(i64),
    Current(i64),
}

/// A seek would land before the start of the medium.
#[derive(Clone, Copy, Debug, PartialEq, Eq, Structural)]
pub struct SeekBeforeStart;

/// `base` moved by `delta`, if that stays within `u64`.
pub open spec fn offset_by(base: u64, delta: i64) -> Option<u64> {
    let t = base + delta;
    if 0 <= t <= u64::MAX {
        Some(t as u64)
    } else {
        None
    }
}

fn add_signed(base: u64, delta: i64) -> (r: Option<u64>)
    ensures
        r == offset_by(base, delta),
{
    if delta >= 0 {
        base.checked_add(delta as u64)
    } else {
        let back = ((-(delta + 1)) as u64) + 1;
        base.checked_sub(back)
    }
}

/// How many bytes one read takes: nothing at or past the end or into an
/// empty buffer; whole sectors when the position is on a sector boundary
/// and at least a sector is wanted; otherwise the rest of the current
/// sector, at most what is wanted.
pub open spec fn read_take(pos: u64, len: u64, sector: u64, buf_len: nat) -> nat {
    let remaining = if pos < len { len - pos } else { 0 };
    if remaining == 0 || buf_len == 0 {
        0
    } else {
        let want: int = if remaining < buf_len { remaining } else { buf_len as int };
        let within = pos % sector;
        if within == 0 && want >= sector {
            ((want / sector as int) * sector) as nat
        } else {
            let rest = sector - within;
            (if want < rest { want } else { rest }) as nat
        }
    }
}

/// The read a [`BlockReader`] asks of the medium for a read of `buf_len`
/// bytes at `pos`: none when there is nothing to read ([`read_take`] is
/// zero); from a sector boundary, the whole sectors that fit what is
/// wanted; otherwise the one sector that holds `pos`. It starts at the
/// sector holding `pos` and is given as that sector and a length in bytes.
pub open spec fn read_request(pos: u64, len: u64, sector: u64, buf_len: nat) -> Option<(Lba, nat)> {
    if read_take(pos, len, sector, buf_len) == 0 {
        None
    } else {
        let remaining: int = len - pos;
        let want: int = if remaining < buf_len { remaining } else { buf_len as int };
        let bytes: int = if pos % sector == 0 && want >= sector { (want / sector as int) * sector } else { sector as int };
        Some((Lba::new_spec((pos / sector) as u64), bytes as nat))
    }
}

/// Settles a read once the medium has answered a request into `chunk`:
/// its failure is the read's failure, as it came, with `buf` untouched;
/// its success copies `take` bytes of `chunk` from `skip` on to the start
/// of `buf`, leaves the rest of `buf` alone and gives `take`.
pub fn settle_read(
    answer: Result<(), ReadError>,
    chunk: &[u8],
    skip: usize,
    take: usize,
    buf: &mut [u8],
) -> (r: Result<usize, ReadError>)
    requires
        skip + take <= chunk@.len(),
        take <= old(buf)@.len(),
    ensures
        final(buf)@.len() == old(buf)@.len(),
        match answer {
            Err(e) => r == Err::<usize, ReadError>(e) && final(buf)@ == old(buf)@,
            Ok(()) => {
                &&& r == Ok::<usize, ReadError>(take)
                &&& final(buf)@.subrange(0, take as int) == chunk@.subrange(skip as int, skip + take)
                &&& final(buf)@.subrange(take as int, old(buf)@.len() as int) == old(buf)@.subrange(take as int, old(buf)@.len() as int)
            },
        },
{
    match answer {
        Err(e) => Err(e),
        Ok(()) => {
            copy_from(buf, chunk, skip, take);
            Ok(take)
        },
    }
}

/// Reads a medium by byte position.
#[derive(Debug)]
pub struct BlockReader<S> {
    source: S,
    geometry: Geometry,
    len: u64,
    pos: u64,
    bounce: Vec<u8>,
}

impl<S: BlockSource> BlockReader<S> {
    /// The medium's length in bytes.
    pub closed spec fn spec_len(&self) -> u64 {
        self.len
    }

    /// The read position.
    pub closed spec fn spec_pos(&self) -> u64 {
        self.pos
    }

    /// The medium's geometry.
    pub closed spec fn spec_geometry(&self) -> Geometry {
        self.geometry
    }

    /// The medium's bytes.
    pub closed spec fn spec_medium(&self) -> Seq<u8> {
        self.source.medium()
    }

    /// The reads asked of the medium so far.
    pub closed spec fn spec_requests(&self) -> Seq<(Lba, nat)> {
        self.source.requests()
    }

    /// The geometry is the source's, and the length its capacity, which is
    /// the length of the medium.
    pub closed spec fn wf(&self) -> bool {
        &&& self.geometry == self.source.spec_geometry()
        &&& self.len == self.geometry.sector_count * self.geometry.sector_size@
        &&& self.source.medium().len() == self.len
    }

    /// A reader at the start of `source`; `None` when the medium's byte
    /// size does not fit in a `u64`.
    pub fn new(source: S) -> (r: Option<Self>)
        ensures
            match r {
                Some(b) => b.wf() && b.spec_pos() == 0 && b.spec_medium() == source.medium()
                    && b.spec_geometry() == source.spec_geometry()
                    && b.spec_len() == source.spec_geometry().sector_count * source.spec_geometry().sector_size@,
                None => source.spec_geometry().sector_count * source.spec_geometry().sector_size@ > u64::MAX,
            },
    {
        let geometry = source.geometry();
        match geometry.capacity_bytes() {
            Some(len) => Some(BlockReader { source, geometry, len, pos: 0, bounce: Vec::new() }),
            None => None,
        }
    }

    /// The medium's length in bytes.
    pub fn len(&self) -> (r: u64)
        ensures
            r == self.spec_len(),
    {
        self.len
    }

    /// Whether the medium holds no bytes.
    pub fn is_empty(&self) -> (r: bool)
        ensures
            r == (self.spec_len() == 0),
    {
        self.len == 0
    }

    /// The medium's geometry.
    pub fn geometry(&self) -> (r: Geometry)
        ensures
            r == self.spec_geometry(),
    {
        self.geometry
    }

    /// The read position.
    pub fn position(&self) -> (r: u64)
        ensures
            r == self.spec_pos(),
    {
        self.pos
    }

    /// The medium, given back.
    pub fn into_inner(self) -> (r: S)
        ensures
            r.medium() == self.spec_medium(),
            self.wf() ==> r.spec_geometry() == self.spec_geometry(),
    {
        self.source
    }

    /// Reads from the current position into `buf` and moves past what was
    /// read: [`read_take`] bytes on success, exactly the medium's bytes at
    /// that position, at every alignment; on a failed sector read the
    /// position stays and `buf` is untouched. Bytes of `buf` past what was
    /// read are left alone. With nothing to read (at or past the end, or
    /// into an empty buffer) the medium is not asked and the read succeeds
    /// with nothing; otherwise the medium is asked exactly once, for
    /// [`read_request`], and its answer settles the read as
    /// [`settle_read`] states it.
    pub fn read_bytes(&mut self, buf: &mut [u8]) -> (r: Result<usize, ReadError>)
        requires
            old(self).wf(),
        ensures
            final(self).wf(),
            final(self).spec_len() == old(self).spec_len(),
            final(self).spec_geometry() == old(self).spec_geometry(),
            final(self).spec_medium() == old(self).spec_medium(),
            read_take(old(self).spec_pos(), old(self).spec_len(), old(self).spec_geometry().sector_size@ as u64, old(buf)@.len()) == 0
                ==> r == Ok::<usize, ReadError>(0),
            final(self).spec_requests() == match read_request(
                old(self).spec_pos(),
                old(self).spec_len(),
                old(self).spec_geometry().sector_size@ as u64,
                old(buf)@.len(),
            ) {
                None => old(self).spec_requests(),
                Some(q) => old(self).spec_requests().push(q),
            },
            match r {
                Ok(n) => {
                    &&& n == read_take(old(self).spec_pos(), old(self).spec_len(), old(self).spec_geometry().sector_size@ as u64, old(buf)@.len())
                    &&& final(self).spec_pos() == old(self).spec_pos() + n
                    &&& forall|k: int| 0 <= k < n ==> #[trigger] final(buf)@[k] == old(self).spec_medium()[old(self).spec_pos() + k]
                    &&& final(buf)@.subrange(n as int, old(buf)@.len() as int) == old(buf)@.subrange(n as int, old(buf)@.len() as int)
                    &&& final(buf)@.len() == old(buf)@.len()
                },
                Err(_) => final(self).spec_pos() == old(self).spec_pos() && final(buf)@ == old(buf)@,
            },
    {
        let ss = self.geometry.sector_size.as_u64();
        let remaining = if self.pos < self.len { self.len - self.pos } else { 0 };
        let blen = buf.len();
        if remaining == 0 || blen == 0 {
            return Ok(0);
        }
        let want: u64 = if remaining < blen as u64 { remaining } else { blen as u64 };
        let within = self.pos % ss;
        let lba = Lba::new(self.pos / ss);
        let ghost pos = self.pos as int;
        let ghost medium = self.spec_medium();
        proof {
            vstd::arithmetic::div_mod::lemma_fundamental_div_mod(pos, ss as int);
            assert(lba@ * (ss as int) + (within as int) == pos) by (nonlinear_arith)
                requires
                    pos == (ss as int) * (pos / (ss as int)) + pos % (ss as int),
                    lba@ == pos / (ss as int),
                    within as int == pos % (ss as int),
            ;
        }
        if within == 0 && want >= ss {
            let take = (want / ss) * ss;
            assert(take <= want && take >= ss && (take as int) % (ss as int) == 0) by (nonlinear_arith)
                requires
                    take == (want / ss) * ss,
                    want >= ss,
                    ss > 0,
            ;
            let t = take as usize;
            let mut chunk: Vec<u8> = vec_of_zeros(t);
            let answer = self.source.read_at(lba, chunk.as_mut_slice());
            let r = settle_read(answer, &chunk, 0, t, buf);
            if r.is_ok() {
                assert(chunk@ == medium.subrange(pos, pos + t));
                assert forall|k: int| 0 <= k < t implies #[trigger] buf@[k] == medium[pos + k] by {
                    assert(buf@.subrange(0, t as int)[k] == buf@[k]);
                    assert(chunk@.subrange(0, t as int)[k] == chunk@[k]);
                }
                self.pos = self.pos + take;
            }
            return r;
        }
        let sb = ss as usize;
        self.bounce = vec_of_zeros(sb);
        let answer = self.source.read_at(lba, self.bounce.as_mut_slice());
        let rest = ss - within;
        let take = if want < rest { want } else { rest };
        let t = take as usize;
        let w = within as usize;
        let r = settle_read(answer, &self.bounce, w, t, buf);
        if r.is_ok() {
            let ghost base = lba@ * (ss as int);
            let ghost count = self.geometry.sector_count as int;
            assert(base + sb <= count * (ss as int)) by (nonlinear_arith)
                requires
                    base == lba@ * (ss as int),
                    base <= pos,
                    pos < count * (ss as int),
                    ss > 0,
                    sb == ss,
            ;
            assert(self.bounce@ == medium.subrange(base, base + sb));
            assert forall|k: int| 0 <= k < t implies #[trigger] buf@[k] == medium[pos + k] by {
                assert(buf@.subrange(0, t as int)[k] == buf@[k]);
                assert(self.bounce@.subrange(w as int, w + t)[k] == self.bounce@[w + k]);
            }
            self.pos = self.pos + take;
        }
        r
    }

    /// Moves the read position; a position before the start is refused
    /// and leaves the position as it was. Past the end is allowed: reads
    /// there give nothing.
    pub fn seek_to(&mut self, target: SeekTarget) -> (r: Result<u64, SeekBeforeStart>)
        ensures
            final(self).wf() == old(self).wf(),
            final(self).spec_len() == old(self).spec_len(),
            final(self).spec_geometry() == old(self).spec_geometry(),
            final(self).spec_medium() == old(self).spec_medium(),
            ({
                let t = match target {
                    SeekTarget::Start(o) => Some(o),
                    SeekTarget::End(d) => offset_by(old(self).spec_len(), d),
                    SeekTarget::Current(d) => offset_by(old(self).spec_pos(), d),
                };
                match t {
                    Some(p) => r == Ok::<u64, SeekBeforeStart>(p) && final(self).spec_pos() == p,
                    None => r == Err::<u64, SeekBeforeStart>(SeekBeforeStart) && final(self).spec_pos() == old(self).spec_pos(),
                }
            }),
    {
        let t = match target {
            SeekTarget::Start(o) => Some(o),
            SeekTarget::End(d) => add_signed(self.len, d),
            SeekTarget::Current(d) => add_signed(self.pos, d),
        };
        match t {
            Some(p) => {
                self.pos = p;
                Ok(p)
            },
            None => Err(SeekBeforeStart),
        }
    }
}

fn vec_of_zeros(n: usize) -> (r: Vec<u8>)
    ensures
        r@.len() == n,
{
    let mut v: Vec<u8> = Vec::new();
    let mut i: usize = 0;
    while i < n
        invariant
            i <= n,
            v@.len() == i,
        decreases n - i,
    {
        v.push(0);
        i += 1;
    }
    v
}

fn copy_from(buf: &mut [u8], src: &[u8], skip: usize, t: usize)
    requires
        t <= old(buf)@.len(),
        skip + t <= src@.len(),
    ensures
        final(buf)@.len() == old(buf)@.len(),
        final(buf)@.subrange(0, t as int) == src@.subrange(skip as int, skip + t),
        final(buf)@.subrange(t as int, old(buf)@.len() as int) == old(buf)@.subrange(t as int, old(buf)@.len() as int),
{
    let mut i: usize = 0;
    while i < t
        invariant
            i <= t,
            t <= buf@.len(),
            skip + t <= src@.len(),
            src@.len() == src.len(),
            buf@.len() == old(buf)@.len(),
            forall|k: int| 0 <= k < i ==> #[trigger] buf@[k] == src@[skip + k],
            buf@.subrange(t as int, buf@.len() as int) == old(buf)@.subrange(t as int, old(buf)@.len() as int),
        decreases t - i,
    {
        buf[i] = src[skip + i];
        i += 1;
        assert(buf@.subrange(t as int, buf@.len() as int) =~= old(buf)@.subrange(t as int, old(buf)@.len() as int));
    }
    assert(buf@.subrange(0, t as int) =~= src@.subrange(skip as int, skip + t));
}

} // verus!
