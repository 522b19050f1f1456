//! Where on a medium a thing sits: sector addresses, byte offsets, the
//! sector size, and runs of either.
//!
//! Sector-addressed and byte-addressed values are never mixed, and every
//! sum or product over a value a medium could have influenced is checked.

use vstd::prelude::*;
use vstd::string::StringExecFns;

use crate::text::{decimal, decimal_spec};

verus! {

/// Logical block address: a position on a medium, counted in sectors.
#[derive(Clone, Copy, Debug, Default, PartialEq, Eq, PartialOrd, Ord, Hash, Structural)]
pub struct Lba(u64);

impl View for Lba {
    type V = u64;

    closed spec fn view(&self) -> u64 {
        self.0
    }
}

impl Lba {
    /// The address of sector `sector`.
    pub closed spec fn new_spec(sector: u64) -> Lba {
        Lba(sector)
    }

    /// An address is its sector number.
    pub broadcast proof fn lemma_new_spec(sector: u64)
        ensures
            #[trigger] Lba::new_spec(sector)@ == sector,
    {
    }

    /// An address is determined by its sector number.
    pub broadcast proof fn lemma_view_determines(l: Lba)
        ensures
            #[trigger] Lba::new_spec(l@) == l,
    {
    }

    /// Address of sector `sector`.
    pub fn new(sector: u64) -> (r: Self)
        ensures
            r@ == sector,
            r == Lba::new_spec(sector),
    {
        Lba(sector)
    }

    /// The sector number.
    pub fn get(self) -> (r: u64)
        ensures
            r == self@,
    {
        self.0
    }

    /// Address `sectors` past `self`, or `None` on overflow.
    pub fn checked_add(self, sectors: u64) -> (r: Option<Self>)
        ensures
            match r {
                Some(l) => l@ == self@ + sectors,
                None => self@ + sectors > u64::MAX,
            },
    {
        match self.0.checked_add(sectors) {
            Some(sector) => Some(Lba(sector)),
            None => None,
        }
    }

    /// Byte position of the first byte of this sector, or `None` on
    /// overflow.
    pub fn to_byte_offset(self, sector_size: SectorSize) -> (r: Option<ByteOffset>)
        ensures
            match r {
                Some(b) => b@ == self@ * sector_size@,
                None => self@ * sector_size@ > u64::MAX,
            },
    {
        match self.0.checked_mul(sector_size.as_u64()) {
            Some(bytes) => Some(ByteOffset::new(bytes)),
            None => None,
        }
    }
}

/// A position on a medium, counted in bytes from the start.
#[derive(Clone, Copy, Debug, Default, PartialEq, Eq, PartialOrd, Ord, Hash, Structural)]
pub struct ByteOffset(u64);

impl View for ByteOffset {
    type V = u64;

    closed spec fn view(&self) -> u64 {
        self.0
    }
}

impl ByteOffset {
    /// Offset of byte `bytes`.
    pub fn new(bytes: u64) -> (r: Self)
        ensures
            r@ == bytes,
    {
        ByteOffset(bytes)
    }

    /// The byte position.
    pub fn get(self) -> (r: u64)
        ensures
            r == self@,
    {
        self.0
    }

    /// Offset `bytes` past `self`, or `None` on overflow.
    pub fn checked_add(self, bytes: u64) -> (r: Option<Self>)
        ensures
            match r {
                Some(b) => b@ == self@ + bytes,
                None => self@ + bytes > u64::MAX,
            },
    {
        match self.0.checked_add(bytes) {
            Some(sum) => Some(ByteOffset(sum)),
            None => None,
        }
    }
}

/// The sector sizes a medium can have: the powers of two from 512 to 4096.
pub open spec fn valid_sector_size(bytes: u32) -> bool {
    bytes == 512 || bytes == 1024 || bytes == 2048 || bytes == 4096
}

/// Size of a logical sector in bytes: a power of two from 512 to 4096.
#[derive(Clone, Copy, Debug, PartialEq, Eq, PartialOrd, Ord, Hash, Structural)]
pub struct SectorSize(u32);

impl View for SectorSize {
    type V = u32;

    closed spec fn view(&self) -> u32 {
        self.0
    }
}

impl SectorSize {
    #[verifier::type_invariant]
    pub(crate) closed spec fn inv(self) -> bool {
        valid_sector_size(self.0)
    }

    /// What the invariant says: the size is a valid one.
    pub(crate) proof fn lemma_inv_valid(self)
        requires
            self.inv(),
        ensures
            valid_sector_size(self@),
    {
    }

    /// Validates `bytes` as a sector size; the error keeps the rejected
    /// value.
    pub fn from_u32(bytes: u32) -> (r: Result<Self, GeometryError>)
        ensures
            match r {
                Ok(s) => valid_sector_size(bytes) && s@ == bytes,
                Err(e) => !valid_sector_size(bytes) && e.rejected() == bytes,
            },
    {
        if bytes == 512 || bytes == 1024 || bytes == 2048 || bytes == 4096 {
            Ok(SectorSize(bytes))
        } else {
            Err(GeometryError::new(bytes))
        }
    }

    /// A sector size known to be valid.
    pub fn new(bytes: u32) -> (r: Self)
        requires
            valid_sector_size(bytes),
        ensures
            r@ == bytes,
    {
        SectorSize(bytes)
    }

    /// The sector size in bytes.
    pub fn get(self) -> (r: u32)
        ensures
            r == self@,
            valid_sector_size(r),
    {
        proof {
            use_type_invariant(&self);
        }
        self.0
    }

    /// The sector size in bytes, widened for offset arithmetic.
    pub fn as_u64(self) -> (r: u64)
        ensures
            r == self@,
            valid_sector_size(self@),
    {
        proof {
            use_type_invariant(&self);
        }
        self.0 as u64
    }
}

/// A contiguous run of sectors: `start` inclusive, `sectors` long.
#[derive(Clone, Copy, Debug, PartialEq, Eq, PartialOrd, Ord, Hash, Structural)]
pub struct SectorRange {
    pub start: Lba,
    pub sectors: u64,
}

impl SectorRange {
    /// The run of `sectors` sectors starting at `start`.
    pub fn new(start: Lba, sectors: u64) -> (r: Self)
        ensures
            r.start == start,
            r.sectors == sectors,
    {
        SectorRange { start, sectors }
    }

    /// First sector past the end of the run, or `None` on overflow.
    pub fn end(self) -> (r: Option<Lba>)
        ensures
            match r {
                Some(l) => l@ == self.start@ + self.sectors,
                None => self.start@ + self.sectors > u64::MAX,
            },
    {
        self.start.checked_add(self.sectors)
    }
}

/// A contiguous run of bytes: `start` inclusive, `len` long.
#[derive(Clone, Copy, Debug, PartialEq, Eq, PartialOrd, Ord, Hash, Structural)]
pub struct ByteRange {
    pub start: ByteOffset,
    pub len: u64,
}

impl ByteRange {
    /// The run of `len` bytes starting at `start`.
    pub fn new(start: ByteOffset, len: u64) -> (r: Self)
        ensures
            r.start == start,
            r.len == len,
    {
        ByteRange { start, len }
    }

    /// First byte past the end of the run, or `None` on overflow.
    pub fn end(self) -> (r: Option<ByteOffset>)
        ensures
            match r {
                Some(b) => b@ == self.start@ + self.len,
                None => self.start@ + self.len > u64::MAX,
            },
    {
        self.start.checked_add(self.len)
    }

    /// First byte past the end of the run, saturating at `u64::MAX`: a
    /// corrupt length never shrinks the range.
    pub fn end_saturating(self) -> (r: ByteOffset)
        ensures
            r@ == (if self.start@ + self.len > u64::MAX { u64::MAX as int } else { self.start@ + self.len }),
    {
        ByteOffset::new(self.start.get().saturating_add(self.len))
    }
}

#[verifier::external_type_specification]
#[verifier::external_body]
pub struct ExBacktrace(std::backtrace::Backtrace);

/// `Backtrace::capture`: a backtrace of the current call stack, captured or
/// not as the environment asks. Nothing is claimed of it.
#[verifier::external_body]
pub(crate) fn capture_backtrace() -> std::backtrace::Backtrace {
    std::backtrace::Backtrace::capture()
}

/// `Backtrace::status` and its `Display`: the backtrace's text when it was
/// captured. Nothing is claimed of it: it depends on the environment and the
/// call stack.
#[verifier::external_body]
pub(crate) fn captured_backtrace_text(b: &std::backtrace::Backtrace) -> Option<String> {
    match b.status() {
        std::backtrace::BacktraceStatus::Captured => Some(format!("{}", b)),
        _ => None,
    }
}

/// The text of a sector-size rejection, before any backtrace.
pub open spec fn geometry_message(bytes: u32) -> Seq<char> {
    "invalid sector size: "@ + decimal_spec(bytes as nat) + " bytes (must be a power of two in 512..=4096)"@
}

/// A value could not be interpreted as valid storage geometry.
#[derive(Debug)]
pub struct GeometryError {
    bytes: u32,
    backtrace: std::backtrace::Backtrace,
}

impl GeometryError {
    /// The rejected value.
    pub closed spec fn rejected(&self) -> u32 {
        self.bytes
    }

    fn new(bytes: u32) -> (r: Self)
        ensures
            r.rejected() == bytes,
    {
        GeometryError { bytes, backtrace: capture_backtrace() }
    }

    /// The rejected value.
    pub fn bytes(&self) -> (r: u32)
        ensures
            r == self.rejected(),
    {
        self.bytes
    }

    /// The backtrace this error holds, captured when it was made.
    pub closed spec fn trace(&self) -> std::backtrace::Backtrace {
        self.backtrace
    }

    /// The backtrace captured where the value was rejected.
    pub fn backtrace(&self) -> (r: &std::backtrace::Backtrace)
        ensures
            *r == self.trace(),
    {
        &self.backtrace
    }

    /// What went wrong, in words: [`geometry_message`], then the backtrace
    /// on a line of its own when one was captured.
    pub fn message(&self) -> (r: String)
        ensures
            geometry_message(self.rejected()).len() <= r@.len(),
            r@.subrange(0, geometry_message(self.rejected()).len() as int) == geometry_message(self.rejected()),
    {
        let mut s = String::from_str("invalid sector size: ");
        let number = decimal(self.bytes as u64);
        s.append(number.as_str());
        s.append(" bytes (must be a power of two in 512..=4096)");
        let ghost head = s@;
        assert(head == geometry_message(self.bytes));
        match captured_backtrace_text(&self.backtrace) {
            Some(text) => {
                s.append("\n");
                s.append(text.as_str());
            },
            None => {},
        }
        assert(s@.subrange(0, head.len() as int) =~= head);
        s
    }
}

} // verus!
