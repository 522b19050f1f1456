//! Signature scanning: where headers and footers of a file type occur in a
//! buffer.

use vstd::prelude::*;

use crate::types::{footer_of, header_of, FileType, JPEG_FOOTER, JPEG_HEADER, PNG_FOOTER, PNG_HEADER};

verus! {

/// Whether `n` occurs in `h` at `i`.
pub open spec fn occurs_at(h: Seq<u8>, n: Seq<u8>, i: int) -> bool {
    0 <= i && i + n.len() <= h.len() && h.subrange(i, i + n.len()) == n
}

/// The first place at or after `pos` where `n` occurs in `h`.
pub open spec fn first_from(h: Seq<u8>, n: Seq<u8>, pos: int) -> Option<int>
    decreases h.len() + 1 - pos,
{
    if pos < 0 || pos > h.len() || pos + n.len() > h.len() {
        None
    } else if occurs_at(h, n, pos) {
        Some(pos)
    } else {
        first_from(h, n, pos + 1)
    }
}

/// Every non-overlapping occurrence of `n` in `h` from `pos` on, left to
/// right: after a match the search resumes past it.
pub open spec fn occurrences(h: Seq<u8>, n: Seq<u8>, pos: int) -> Seq<usize>
    decreases h.len() + 1 - pos,
{
    if n.len() == 0 || pos < 0 || pos > h.len() {
        Seq::empty()
    } else {
        match first_from(h, n, pos) {
            None => Seq::empty(),
            Some(i) => {
                if i < pos {
                    Seq::empty()
                } else {
                    proof {
                        lemma_first_from(h, n, pos);
                    }
                    seq![i as usize] + occurrences(h, n, i + n.len())
                }
            },
        }
    }
}

/// `memchr::memmem::find`: the first place `needle` occurs in `haystack`.
/// Claimed, as the crate documents it: the result is a place where the
/// needle occurs and it occurs nowhere earlier; `None` when it occurs
/// nowhere.
#[verifier::external_body]
fn memmem_find(haystack: &[u8], needle: &[u8]) -> (r: Option<usize>)
    ensures
        match r {
            Some(i) => occurs_at(haystack@, needle@, i as int) && forall|j: int|
                0 <= j < i ==> !occurs_at(haystack@, needle@, j),
            None => forall|j: int| !occurs_at(haystack@, needle@, j),
        },
{
    memchr::memmem::find(haystack, needle)
}

/// A search in the tail of `h` from `pos` is a search of `h` from `pos`.
proof fn lemma_tail_occurs(h: Seq<u8>, n: Seq<u8>, pos: int, j: int)
    requires
        0 <= pos <= h.len(),
    ensures
        occurs_at(h.subrange(pos, h.len() as int), n, j) == (j >= 0 && occurs_at(h, n, pos + j)),
{
    let t = h.subrange(pos, h.len() as int);
    if j >= 0 && j + n.len() <= t.len() {
        assert(t.subrange(j, j + n.len()) =~= h.subrange(pos + j, pos + j + n.len()));
    }
}

/// `first_from` finds the least occurrence at or after `pos`.
pub proof fn lemma_first_from(h: Seq<u8>, n: Seq<u8>, pos: int)
    requires
        pos >= 0,
    ensures
        match first_from(h, n, pos) {
            Some(i) => i >= pos && occurs_at(h, n, i) && forall|j: int| pos <= j < i ==> !occurs_at(h, n, j),
            None => forall|j: int| j >= pos ==> !occurs_at(h, n, j),
        },
    decreases h.len() + 1 - pos,
{
    if pos > h.len() || pos + n.len() > h.len() {
    } else if occurs_at(h, n, pos) {
    } else {
        lemma_first_from(h, n, pos + 1);
    }
}

/// The first occurrence at or after `pos`, found with `memmem_find` on the
/// tail.
fn find_from(h: &[u8], n: &[u8], pos: usize) -> (r: Option<usize>)
    requires
        pos <= h@.len(),
    ensures
        match first_from(h@, n@, pos as int) {
            Some(i) => r == Some(i as usize),
            None => r is None,
        },
{
    let tail = vstd::slice::slice_subrange(h, pos, h.len());
    let found = memmem_find(tail, n);
    proof {
        lemma_first_from(h@, n@, pos as int);
        assert forall|j: int| #![trigger occurs_at(tail@, n@, j)] true implies occurs_at(tail@, n@, j) == (j >= 0 && occurs_at(h@, n@, pos + j)) by {
            lemma_tail_occurs(h@, n@, pos as int, j);
        }
    }
    match found {
        Some(idx) => {
            proof {
                assert(occurs_at(h@, n@, pos + idx));
                assert forall|j: int| pos <= j < pos + idx implies !occurs_at(h@, n@, j) by {
                    assert(!occurs_at(tail@, n@, j - pos));
                }
                match first_from(h@, n@, pos as int) {
                    Some(i) => {
                        if i < pos + idx {
                            assert(!occurs_at(h@, n@, i));
                        }
                        if i > pos + idx {
                            assert(!occurs_at(h@, n@, pos + idx));
                        }
                    },
                    None => {
                        assert(!occurs_at(h@, n@, pos + idx));
                    },
                }
            }
            Some(pos + idx)
        },
        None => {
            proof {
                match first_from(h@, n@, pos as int) {
                    Some(i) => {
                        assert(!occurs_at(tail@, n@, i - pos));
                    },
                    None => {},
                }
            }
            None
        },
    }
}

/// Every non-overlapping occurrence of a non-empty `needle` in `h`.
fn find_all(h: &[u8], needle: &[u8]) -> (r: Vec<usize>)
    requires
        needle@.len() > 0,
    ensures
        r@ == occurrences(h@, needle@, 0),
{
    let mut out: Vec<usize> = Vec::new();
    let mut pos: usize = 0;
    while pos <= h.len()
        invariant
            needle@.len() > 0,
            pos <= h@.len() + 1,
            out@ + occurrences(h@, needle@, pos as int) == occurrences(h@, needle@, 0),
        decreases h@.len() + 1 - pos,
    {
        proof {
            lemma_first_from(h@, needle@, pos as int);
        }
        match find_from(h, needle, pos) {
            Some(i) => {
                out.push(i);
                let ghost old_pos = pos;
                pos = i + needle.len();
                proof {
                    assert(out@ + occurrences(h@, needle@, pos as int) =~= occurrences(h@, needle@, 0));
                }
            },
            None => {
                assert(occurrences(h@, needle@, pos as int) == Seq::<usize>::empty());
                assert(out@ =~= out@ + Seq::<usize>::empty());
                return out;
            },
        }
    }
    assert(out@ =~= out@ + Seq::<usize>::empty());
    out
}

/// Finds the header and footer signatures of one file type.
#[derive(Debug, Clone, Copy)]
pub struct SignatureScanner {
    header: &'static [u8],
    footer: &'static [u8],
    file_type: FileType,
}

impl SignatureScanner {
    /// The scanner's signatures match its file type.
    #[verifier::type_invariant]
    spec fn wf(self) -> bool {
        &&& self.file_type != FileType::Unknown
        &&& self.header@ == header_of(self.file_type)
        &&& self.footer@ == footer_of(self.file_type)
    }

    /// The file type scanned for.
    pub closed spec fn spec_file_type(&self) -> FileType {
        self.file_type
    }

    /// A JPEG scanner: SOI then a marker's `FF`; EOI.
    pub fn jpeg() -> (r: Self)
        ensures
            r.spec_file_type() == FileType::Jpeg,
    {
        let header: &'static [u8] = &JPEG_HEADER;
        let footer: &'static [u8] = &JPEG_FOOTER;
        assert(header@ =~= header_of(FileType::Jpeg));
        assert(footer@ =~= footer_of(FileType::Jpeg));
        SignatureScanner { header, footer, file_type: FileType::Jpeg }
    }

    /// A PNG scanner: the signature; IEND and its CRC.
    pub fn png() -> (r: Self)
        ensures
            r.spec_file_type() == FileType::Png,
    {
        let header: &'static [u8] = &PNG_HEADER;
        let footer: &'static [u8] = &PNG_FOOTER;
        assert(header@ =~= header_of(FileType::Png));
        assert(footer@ =~= footer_of(FileType::Png));
        SignatureScanner { header, footer, file_type: FileType::Png }
    }

    /// The file type scanned for.
    pub fn file_type(&self) -> (r: FileType)
        ensures
            r == self.spec_file_type(),
            r != FileType::Unknown,
    {
        proof {
            use_type_invariant(self);
        }
        self.file_type
    }

    /// Every non-overlapping header occurrence, in order.
    pub fn scan_headers(&self, buffer: &[u8]) -> (r: Vec<usize>)
        ensures
            r@ == occurrences(buffer@, header_of(self.spec_file_type()), 0),
    {
        proof {
            use_type_invariant(self);
        }
        find_all(buffer, self.header)
    }

    /// Every non-overlapping footer occurrence, in order.
    pub fn scan_footers(&self, buffer: &[u8]) -> (r: Vec<usize>)
        ensures
            r@ == occurrences(buffer@, footer_of(self.spec_file_type()), 0),
    {
        proof {
            use_type_invariant(self);
        }
        find_all(buffer, self.footer)
    }
}

/// A scanner for the signatures of one file type.
pub trait FileScanner {
    /// Every header occurrence in `buffer`, in order.
    fn scan_headers(&self, buffer: &[u8]) -> Vec<usize>;

    /// Every footer occurrence in `buffer`, in order.
    fn scan_footers(&self, buffer: &[u8]) -> Vec<usize>;

    /// The file type scanned for.
    fn file_type(&self) -> FileType;
}

impl FileScanner for SignatureScanner {
    fn scan_headers(&self, buffer: &[u8]) -> (r: Vec<usize>)
        ensures
            r@ == occurrences(buffer@, header_of(self.spec_file_type()), 0),
    {
        SignatureScanner::scan_headers(self, buffer)
    }

    fn scan_footers(&self, buffer: &[u8]) -> (r: Vec<usize>)
        ensures
            r@ == occurrences(buffer@, footer_of(self.spec_file_type()), 0),
    {
        SignatureScanner::scan_footers(self, buffer)
    }

    fn file_type(&self) -> (r: FileType)
        ensures
            r == self.spec_file_type(),
    {
        SignatureScanner::file_type(self)
    }
}

} // verus!
