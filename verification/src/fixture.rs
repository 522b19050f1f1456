//! An in-memory medium with injectable bad sectors, for exercising damage
//! handling. Fixture content must be synthetic.

use vstd::prelude::*;
use std::collections::BTreeSet;

use crate::geometry::{Lba, SectorSize};
use crate::ports::{BlockSource, DeviceClass, Geometry, ReadError, ReadFailure};

verus! {

broadcast use {vstd::std_specs::btree::group_btree_axioms, vstd::laws_cmp::group_laws_cmp};

/// The first sector from `lo` up to (not including) `hi` in `bad`.
pub open spec fn first_bad(bad: Set<u64>, lo: int, hi: int) -> Option<u64>
    decreases hi - lo,
{
    if lo >= hi || lo < 0 || lo > u64::MAX {
        None
    } else if bad.contains(lo as u64) {
        Some(lo as u64)
    } else {
        first_bad(bad, lo + 1, hi)
    }
}

/// A medium of bytes addressed in sectors, with some sectors unreadable.
pub struct MemDisk {
    sector_size: SectorSize,
    class: DeviceClass,
    data: Vec<u8>,
    bad: BTreeSet<u64>,
    log: Ghost<Seq<(Lba, nat)>>,
}

impl MemDisk {
    /// The bytes are a whole number of sectors.
    #[verifier::type_invariant]
    spec fn inv(self) -> bool {
        (self.data@.len() as int) % (self.sector_size@ as int) == 0
    }

    /// The sector size.
    pub closed spec fn spec_sector_size(&self) -> SectorSize {
        self.sector_size
    }

    /// The backing bytes.
    pub closed spec fn spec_data(&self) -> Seq<u8> {
        self.data@
    }

    /// The unreadable sectors.
    pub closed spec fn spec_bad(&self) -> Set<u64> {
        self.bad@
    }

    /// The medium's class.
    pub closed spec fn spec_class(&self) -> DeviceClass {
        self.class
    }

    /// The reads asked of the medium so far: first sector and length.
    pub closed spec fn spec_requests(&self) -> Seq<(Lba, nat)> {
        self.log@
    }

    /// Whether `b` is the medium `a` with the same bytes, bad sectors,
    /// sector size and class.
    pub open spec fn same_medium(a: MemDisk, b: MemDisk) -> bool {
        &&& a.spec_sector_size() == b.spec_sector_size()
        &&& a.spec_data() == b.spec_data()
        &&& a.spec_bad() == b.spec_bad()
        &&& a.spec_class() == b.spec_class()
    }

    /// The number of whole sectors the bytes hold.
    pub open spec fn spec_sector_count(&self) -> int {
        (self.spec_data().len() as int) / (self.spec_sector_size()@ as int)
    }

    /// A medium of `data` in sectors of `sector_size`, all readable; the
    /// data is a whole number of sectors.
    pub fn new(sector_size: SectorSize, data: Vec<u8>) -> (r: Self)
        requires
            (data@.len() as int) % (sector_size@ as int) == 0,
        ensures
            r.spec_sector_size() == sector_size,
            r.spec_data() == data@,
            r.spec_bad() == Set::<u64>::empty(),
            r.spec_class() == DeviceClass::ImageFile,
            r.spec_requests() == Seq::<(Lba, nat)>::empty(),
    {
        MemDisk { sector_size, class: DeviceClass::ImageFile, data, bad: BTreeSet::new(), log: Ghost(Seq::empty()) }
    }

    /// The medium with sector `lba` unreadable too.
    pub fn with_bad_sector(self, lba: Lba) -> (r: Self)
        ensures
            r.spec_sector_size() == self.spec_sector_size(),
            r.spec_data() == self.spec_data(),
            r.spec_bad() == self.spec_bad().insert(lba@),
            r.spec_class() == self.spec_class(),
            r.spec_requests() == self.spec_requests(),
    {
        proof {
            use_type_invariant(&self);
        }
        let MemDisk { sector_size, class, data, bad, log } = self;
        let mut bad = bad;
        bad.insert(lba.get());
        MemDisk { sector_size, class, data, bad, log }
    }

    /// The backing bytes, including those behind bad sectors.
    pub fn data(&self) -> (r: &[u8])
        ensures
            r@ == self.spec_data(),
    {
        self.data.as_slice()
    }

    fn sector_count(&self) -> (r: u64)
        ensures
            r == self.spec_sector_count(),
    {
        let ss = self.sector_size.get() as usize;
        (self.data.len() / ss) as u64
    }

    /// The medium's geometry.
    pub fn geometry(&self) -> (r: Geometry)
        ensures
            r.sector_size == self.spec_sector_size(),
            r.sector_count == self.spec_sector_count(),
            r.class == self.spec_class(),
    {
        Geometry::new(self.sector_size, self.sector_count(), self.class)
    }

    /// Reads `buf.len()` bytes from sector `lba` on. A range past the end
    /// fails as out of range; a range that holds a bad sector fails naming
    /// the first one, with a length of one sector; either way `buf` is left
    /// alone. `buf` is a non-zero multiple of the sector size.
    pub fn read_at(&mut self, lba: Lba, buf: &mut [u8]) -> (r: Result<(), ReadError>)
        requires
            old(buf)@.len() > 0,
            (old(buf)@.len() as int) % (old(self).spec_sector_size()@ as int) == 0,
        ensures
            MemDisk::same_medium(*final(self), *old(self)),
            final(self).spec_requests() == old(self).spec_requests().push((lba, old(buf)@.len())),
            final(buf)@.len() == old(buf)@.len(),
            read_outcome(*old(self), lba, old(buf)@, r, final(buf)@),
    {
        proof {
            use_type_invariant(&*self);
        }
        self.log = Ghost(self.log@.push((lba, buf@.len() as nat)));
        let ghost pre = *self;
        let sector_bytes = self.sector_size.get() as usize;
        let sectors = (buf.len() / sector_bytes) as u64;
        if !self.geometry().contains(lba, sectors) {
            return Err(ReadError::out_of_range(lba, sectors, self.sector_count()));
        }
        let first = lba.get();
        let end = first + sectors;
        let mut s = first;
        while s < end
            invariant
                first <= s <= end,
                first == lba@,
                end == lba@ + sectors,
                *self == pre,
                MemDisk::same_medium(pre, *old(self)),
                pre.spec_requests() == old(self).spec_requests().push((lba, old(buf)@.len())),
                buf@ == old(buf)@,
                lba@ + sectors <= old(self).spec_sector_count(),
                sectors == (old(buf)@.len() as int) / (old(self).spec_sector_size()@ as int),
                first_bad(self.bad@, s as int, end as int) == first_bad(self.bad@, first as int, end as int),
            decreases end - s,
        {
            if self.bad.contains(&s) {
                assert(first_bad(self.bad@, s as int, end as int) == Some(s));
                return Err(ReadError::bad_sector(Lba::new(s), 1));
            }
            s += 1;
        }
        let ghost count = self.spec_sector_count();
        let dl = self.data.len();
        assert(lba@ * sector_bytes + buf@.len() <= self.data@.len() && lba@ <= lba@ * sector_bytes) by (nonlinear_arith)
            requires
                lba@ + sectors <= count,
                count == (self.data@.len() as int) / (sector_bytes as int),
                sectors == (buf@.len() as int) / (sector_bytes as int),
                (buf@.len() as int) % (sector_bytes as int) == 0,
                sector_bytes > 0,
        ;
        let start = (first as usize) * sector_bytes;
        let n = buf.len();
        let mut i: usize = 0;
        while i < n
            invariant
                n == buf@.len(),
                self.data@.len() == dl,
                start + n <= dl,
                i <= n,
                *self == pre,
                MemDisk::same_medium(pre, *old(self)),
                pre.spec_requests() == old(self).spec_requests().push((lba, old(buf)@.len())),
                forall|k: int| 0 <= k < i ==> buf@[k] == self.data@[start + k],
            decreases n - i,
        {
            buf[i] = self.data[start + i];
            i += 1;
        }
        assert(buf@ =~= self.data@.subrange(start as int, start + n));
        Ok(())
    }
}

/// What reading `before.len()` bytes from sector `lba` of `d` gives, as
/// the result `r` and the buffer's contents `after`: a range past the end
/// fails as out of range, a range holding a bad sector fails naming the
/// first one (with a length of one sector), and either way the buffer is
/// left alone; otherwise the read succeeds with the medium's bytes there.
pub open spec fn read_outcome(d: MemDisk, lba: Lba, before: Seq<u8>, r: Result<(), ReadError>, after: Seq<u8>) -> bool {
    let ss = d.spec_sector_size()@ as int;
    let sectors = (before.len() as int) / ss;
    if lba@ + sectors > d.spec_sector_count() {
        &&& r matches Err(e) && e.failure() == ReadFailure::OutOfRange(d.spec_sector_count() as u64)
            && e.at() == lba && e.length() == sectors
        &&& after == before
    } else if first_bad(d.spec_bad(), lba@ as int, lba@ + sectors) is Some {
        &&& r matches Err(e) && e.failure() == ReadFailure::BadSector
            && e.at()@ == first_bad(d.spec_bad(), lba@ as int, lba@ + sectors)->0 && e.length() == 1
        &&& after == before
    } else {
        &&& r is Ok
        &&& after == d.spec_data().subrange(lba@ * ss, lba@ * ss + before.len())
    }
}

impl BlockSource for MemDisk {
    open spec fn medium(&self) -> Seq<u8> {
        self.spec_data()
    }

    open spec fn requests(&self) -> Seq<(Lba, nat)> {
        self.spec_requests()
    }

    open spec fn spec_geometry(&self) -> Geometry {
        Geometry {
            sector_size: self.spec_sector_size(),
            sector_count: self.spec_sector_count() as u64,
            class: self.spec_class(),
        }
    }

    fn geometry(&self) -> (r: Geometry) {
        proof {
            use_type_invariant(self);
            use_type_invariant(&self.sector_size);
            self.sector_size.lemma_inv_valid();
            let n = self.data@.len() as int;
            let ss = self.sector_size@ as int;
            vstd::arithmetic::div_mod::lemma_fundamental_div_mod(n, ss);
            assert(n == (n / ss) * ss) by (nonlinear_arith)
                requires
                    n == ss * (n / ss) + n % ss,
                    n % ss == 0,
            ;
        }
        MemDisk::geometry(self)
    }

    /// Reads as [`MemDisk::read_at`] does ([`read_outcome`]).
    fn read_at(&mut self, lba: Lba, buf: &mut [u8]) -> (r: Result<(), ReadError>)
        ensures
            MemDisk::same_medium(*final(self), *old(self)),
            read_outcome(*old(self), lba, old(buf)@, r, final(buf)@),
    {
        MemDisk::read_at(self, lba, buf)
    }
}

impl Clone for MemDisk {
    /// A copy of the medium: the same sectors, bytes and bad sectors.
    fn clone(&self) -> (r: Self)
        ensures
            r.spec_sector_size() == self.spec_sector_size(),
            r.spec_data() == self.spec_data(),
            r.spec_bad() == self.spec_bad(),
            r.spec_class() == self.spec_class(),
    {
        proof {
            use_type_invariant(self);
        }
        let mut data: Vec<u8> = Vec::new();
        let mut i: usize = 0;
        while i < self.data.len()
            invariant
                i <= self.data@.len(),
                data@ == self.data@.subrange(0, i as int),
            decreases self.data.len() - i,
        {
            data.push(self.data[i]);
            i += 1;
            assert(data@ =~= self.data@.subrange(0, i as int));
        }
        assert(data@ =~= self.data@);
        MemDisk { sector_size: self.sector_size, class: self.class, data, bad: self.bad.clone(), log: Ghost(self.log@) }
    }
}

} // verus!
