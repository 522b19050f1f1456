//! Where a JPEG ends inside a buffer that may run on past it.
//!
//! A stream that the resynchronising parser reads to a proper EOI ends
//! there. Otherwise the candidates are the EOI markers in the buffer and,
//! when the caller found one, the point where the byte entropy drops (that
//! measure is taken in floating point, outside this module): the last EOI
//! within a window after the drop is preferred, then the drop itself;
//! without a drop the first EOI that closes a whole stream is taken.

use vstd::prelude::*;

use super::parser::jpeg_header_ok;
use super::resync::{lemma_short_streams_fit, resync_parse_spec, JpegParser};

verus! {

/// The end (offset past `D9`) of each EOI marker that starts at an index
/// below `k` of `d`, in order.
pub open spec fn eoi_ends(d: Seq<u8>, k: int) -> Seq<usize>
    decreases k,
{
    if k <= 0 {
        Seq::empty()
    } else {
        eoi_ends(d, k - 1) + if d[k - 1] == 0xFF && d[k] == 0xD9 {
            seq![(k + 1) as usize]
        } else {
            Seq::<usize>::empty()
        }
    }
}

/// The largest of `eois` that is at most `bound`.
pub open spec fn best_eoi(eois: Seq<usize>, bound: int) -> Option<usize>
    decreases eois.len(),
{
    if eois.len() == 0 {
        None
    } else {
        let rest = best_eoi(eois.drop_last(), bound);
        let e = eois.last();
        if e <= bound && (rest is None || e >= rest->0) {
            Some(e)
        } else {
            rest
        }
    }
}

/// Whether the first `end` bytes of `d` are a whole stream: the
/// resynchronising parser reads them, finds markers and content, and is not
/// cut short.
pub open spec fn ends_validly(d: Seq<u8>, end: int) -> bool {
    4 <= end <= d.len() && jpeg_header_ok(d.subrange(0, end)) && {
        let s = resync_parse_spec(d.subrange(0, end));
        s.markers.len() > 0 && !s.is_truncated && s.has_valid_content
    }
}

/// The first of `eois` from index `i` on that is accepted: any one when
/// structure is not checked, else the first that ends a whole stream.
pub open spec fn first_accepted(d: Seq<u8>, eois: Seq<usize>, i: int, validate: bool) -> Option<usize>
    decreases eois.len() - i,
{
    if i < 0 || i >= eois.len() {
        None
    } else if !validate || ends_validly(d, eois[i] as int) {
        Some(eois[i])
    } else {
        first_accepted(d, eois, i + 1, validate)
    }
}

/// How many bytes of `d` the EOI search covers: the whole buffer, at most
/// `max_file_size`.
pub open spec fn search_limit(d: Seq<u8>, max_file_size: u64) -> int {
    let cap = (max_file_size as usize) as int;
    if d.len() < cap { d.len() as int } else { cap }
}

/// Where the stream in `d` ends, given the entropy drop found in it (if
/// any), whether EOI markers are used as hints, whether a candidate end
/// must close a whole stream, the entropy window and the largest file
/// searched.
pub open spec fn boundary_spec(
    d: Seq<u8>,
    entropy_boundary: Option<usize>,
    use_eoi_hints: bool,
    validate_structure: bool,
    entropy_window: usize,
    max_file_size: u64,
) -> Option<usize> {
    if d.len() < 4 {
        None
    } else if jpeg_header_ok(d) && resync_parse_spec(d).valid_end_offset > 0 && !resync_parse_spec(d).is_truncated {
        Some(resync_parse_spec(d).valid_end_offset as usize)
    } else {
        let eois = if use_eoi_hints { eoi_ends(d, search_limit(d, max_file_size) - 1) } else { Seq::empty() };
        match entropy_boundary {
            Some(eb) => match best_eoi(eois, eb + entropy_window) {
                Some(b) => if !validate_structure || ends_validly(d, b as int) { Some(b) } else { Some(eb) },
                None => Some(eb),
            },
            None => first_accepted(d, eois, 0, validate_structure),
        }
    }
}

/// Where the JPEG stream that `data` starts with ends ([`boundary_spec`]).
/// `entropy_boundary` is where the byte entropy of `data` drops, when it
/// does. A buffer of up to twice `u32::MAX` bytes is taken, so that the
/// parser's count of damaged segments cannot overflow.
pub fn find_boundary(
    data: &[u8],
    entropy_boundary: Option<usize>,
    use_eoi_hints: bool,
    validate_structure: bool,
    entropy_window: usize,
    max_file_size: u64,
) -> (r: Option<usize>)
    requires
        data@.len() <= 2 * (u32::MAX as int),
    ensures
        r == boundary_spec(data@, entropy_boundary, use_eoi_hints, validate_structure, entropy_window, max_file_size),
{
    if data.len() < 4 {
        return None;
    }
    let parser = JpegParser::new();
    proof {
        lemma_short_streams_fit(data@);
    }
    if let Ok(structure) = parser.parse(data) {
        if structure.valid_end_offset > 0 && !structure.is_truncated {
            return Some(structure.valid_end_offset as usize);
        }
    }
    let eoi_candidates = if use_eoi_hints {
        find_all_eoi_markers(data, max_file_size)
    } else {
        Vec::new()
    };
    match entropy_boundary {
        Some(entropy_bound) => {
            if let Some(best) = select_best_eoi(&eoi_candidates, entropy_bound, entropy_window) {
                if validate_structure {
                    if validate_jpeg_at_offset(data, best) {
                        return Some(best);
                    }
                } else {
                    return Some(best);
                }
            }
            Some(entropy_bound)
        },
        None => {
            let mut i: usize = 0;
            while i < eoi_candidates.len()
                invariant
                    data@.len() <= 2 * (u32::MAX as int),
                    i <= eoi_candidates@.len(),
                    boundary_spec(data@, entropy_boundary, use_eoi_hints, validate_structure, entropy_window, max_file_size)
                        == first_accepted(data@, eoi_candidates@, 0, validate_structure),
                    first_accepted(data@, eoi_candidates@, i as int, validate_structure)
                        == first_accepted(data@, eoi_candidates@, 0, validate_structure),
                decreases eoi_candidates.len() - i,
            {
                let eoi = eoi_candidates[i];
                if validate_structure {
                    if validate_jpeg_at_offset(data, eoi) {
                        return Some(eoi);
                    }
                } else {
                    return Some(eoi);
                }
                i += 1;
            }
            None
        },
    }
}

/// The ends of the EOI markers in the first `max_file_size` bytes of `data`.
fn find_all_eoi_markers(data: &[u8], max_file_size: u64) -> (r: Vec<usize>)
    ensures
        r@ == eoi_ends(data@, search_limit(data@, max_file_size) - 1),
{
    let cap = max_file_size as usize;
    let max_search = if data.len() < cap { data.len() } else { cap };
    let mut candidates: Vec<usize> = Vec::new();
    if max_search == 0 {
        return candidates;
    }
    let mut i: usize = 0;
    while i < max_search - 1
        invariant
            max_search == search_limit(data@, max_file_size),
            max_search <= data@.len(),
            max_search >= 1,
            i <= max_search - 1,
            candidates@ == eoi_ends(data@, i as int),
        decreases max_search - 1 - i,
    {
        if data[i] == 0xFF && data[i + 1] == 0xD9 {
            candidates.push(i + 2);
        }
        i += 1;
        assert(candidates@ =~= eoi_ends(data@, i as int));
    }
    candidates
}

/// The largest candidate at most `entropy_window` past `entropy_boundary`.
fn select_best_eoi(eois: &Vec<usize>, entropy_boundary: usize, entropy_window: usize) -> (r: Option<usize>)
    ensures
        r == best_eoi(eois@, entropy_boundary + entropy_window),
{
    let ghost bound: int = entropy_boundary + entropy_window;
    let mut best: Option<usize> = None;
    let mut i: usize = 0;
    while i < eois.len()
        invariant
            i <= eois@.len(),
            bound == entropy_boundary + entropy_window,
            best == best_eoi(eois@.subrange(0, i as int), bound),
        decreases eois.len() - i,
    {
        let e = eois[i];
        let within = if e >= entropy_window { e - entropy_window <= entropy_boundary } else { true };
        let ghost before = eois@.subrange(0, i as int);
        if within && (best.is_none() || e >= best.unwrap()) {
            best = Some(e);
        }
        i += 1;
        assert(eois@.subrange(0, i as int).drop_last() =~= before);
    }
    assert(eois@.subrange(0, eois@.len() as int) =~= eois@);
    best
}

/// Whether the first `end_offset` bytes of `data` are a whole stream
/// ([`ends_validly`]).
fn validate_jpeg_at_offset(data: &[u8], end_offset: usize) -> (r: bool)
    requires
        data@.len() <= 2 * (u32::MAX as int),
    ensures
        r == ends_validly(data@, end_offset as int),
{
    if end_offset > data.len() || end_offset < 4 {
        return false;
    }
    let prefix = vstd::slice::slice_subrange(data, 0, end_offset);
    proof {
        lemma_short_streams_fit(prefix@);
    }
    let parser = JpegParser::new();
    match parser.parse(prefix) {
        Ok(structure) => structure.markers.len() > 0 && !structure.is_truncated && structure.has_valid_content,
        Err(_) => false,
    }
}

} // verus!
