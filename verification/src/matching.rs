//! The evidence behind pairing a header with a footer.

use vstd::prelude::*;

use crate::error::FileFormat;

verus! {

/// Which of the pairing checks a header and footer candidate passed.
#[derive(Debug, Clone, Default, PartialEq, Eq, Structural)]
pub struct MatchEvidence {
    /// Both candidates are of the same format.
    pub format_match: bool,
    /// The footer lies at a plausible distance after the header.
    pub distance_reasonable: bool,
    /// The implied file size is within the header's expected range.
    pub size_in_expected_range: bool,
    /// Whether the bytes between them parsed, when that was checked.
    pub structure_valid: Option<bool>,
    /// Their statistics agree.
    pub stats_consistent: bool,
}

/// The size a file of a format typically has, when its header says nothing.
pub open spec fn typical_size(format: FileFormat) -> int {
    match format {
        FileFormat::Jpeg => 500_000,
        FileFormat::Png => 200_000,
        FileFormat::Unknown => 100_000,
    }
}

/// The checks a header at `header_offset` and a footer at `footer_offset`
/// pass. The formats must agree; then the footer must come after the
/// header at a distance within `min_file_size..=max_file_size`; only then
/// are the size checked (against the header's expected range, or else to
/// within a factor of ten of the format's typical size) and the statistics
/// taken as consistent. Each failing step leaves the later checks unset.
pub open spec fn evidence_spec(
    header_offset: u64,
    header_format: FileFormat,
    expected_size_range: Option<(u64, u64)>,
    footer_offset: u64,
    footer_format: FileFormat,
    min_file_size: u64,
    max_file_size: u64,
) -> MatchEvidence {
    let none = MatchEvidence {
        format_match: false,
        distance_reasonable: false,
        size_in_expected_range: false,
        structure_valid: None,
        stats_consistent: false,
    };
    if header_format != footer_format {
        none
    } else if footer_offset <= header_offset {
        MatchEvidence { format_match: true, ..none }
    } else {
        let distance = footer_offset - header_offset;
        if distance < min_file_size || distance > max_file_size {
            MatchEvidence { format_match: true, ..none }
        } else {
            let in_range = match expected_size_range {
                Some((lo, hi)) => lo <= distance <= hi,
                None => typical_size(header_format) <= 10 * distance && distance <= 10 * typical_size(header_format),
            };
            MatchEvidence {
                format_match: true,
                distance_reasonable: true,
                size_in_expected_range: in_range,
                structure_valid: None,
                stats_consistent: true,
            }
        }
    }
}

/// The evidence for pairing a header with a footer, as [`evidence_spec`]
/// states it.
pub fn pair_evidence(
    header_offset: u64,
    header_format: FileFormat,
    expected_size_range: Option<(u64, u64)>,
    footer_offset: u64,
    footer_format: FileFormat,
    min_file_size: u64,
    max_file_size: u64,
) -> (r: MatchEvidence)
    ensures
        r == evidence_spec(
            header_offset,
            header_format,
            expected_size_range,
            footer_offset,
            footer_format,
            min_file_size,
            max_file_size,
        ),
{
    let mut evidence = MatchEvidence {
        format_match: false,
        distance_reasonable: false,
        size_in_expected_range: false,
        structure_valid: None,
        stats_consistent: false,
    };
    if header_format != footer_format {
        return evidence;
    }
    evidence.format_match = true;
    if footer_offset <= header_offset {
        return evidence;
    }
    let distance = footer_offset - header_offset;
    if distance < min_file_size || distance > max_file_size {
        return evidence;
    }
    evidence.distance_reasonable = true;
    evidence.size_in_expected_range = match expected_size_range {
        Some((lo, hi)) => lo <= distance && distance <= hi,
        None => {
            let typical = typical_file_size(header_format);
            let tenfold = distance as u128 * 10;
            typical as u128 <= tenfold && distance as u128 <= typical as u128 * 10
        },
    };
    evidence.stats_consistent = true;
    evidence
}

/// The size a file of `format` typically has ([`typical_size`]).
pub fn typical_file_size(format: FileFormat) -> (r: u64)
    ensures
        r == typical_size(format),
{
    match format {
        FileFormat::Jpeg => 500_000,
        FileFormat::Png => 200_000,
        FileFormat::Unknown => 100_000,
    }
}

/// Whether a header-to-footer `distance` outside the header's expected
/// size range `min_size..=max_size` still comes near it: from half the
/// least size to twice the most.
pub fn near_expected_size(distance: u64, min_size: u64, max_size: u64) -> (r: bool)
    ensures
        r == (min_size / 2 <= distance && distance <= 2 * max_size),
{
    distance >= min_size / 2 && (max_size > u64::MAX / 2 || distance <= max_size * 2)
}

/// Whether one of the picked edges `picks` (positions in `edges`) uses
/// header `h`.
pub open spec fn header_taken(edges: Seq<(usize, usize)>, picks: Seq<usize>, h: usize) -> bool {
    exists|i: int| 0 <= i < picks.len() && edges[picks[i] as int].0 == h
}

/// Whether one of the picked edges uses footer `f`.
pub open spec fn footer_taken(edges: Seq<(usize, usize)>, picks: Seq<usize>, f: usize) -> bool {
    exists|i: int| 0 <= i < picks.len() && edges[picks[i] as int].1 == f
}

/// The positions of the edges a greedy pass over the first `k` of `edges`
/// keeps, in order: an edge is kept when neither its header nor its footer
/// is used by an edge kept before it.
pub open spec fn greedy_picks(edges: Seq<(usize, usize)>, k: int) -> Seq<usize>
    decreases k,
{
    if k <= 0 {
        Seq::empty()
    } else {
        let before = greedy_picks(edges, k - 1);
        let e = edges[k - 1];
        if !header_taken(edges, before, e.0) && !footer_taken(edges, before, e.1) {
            before.push((k - 1) as usize)
        } else {
            before
        }
    }
}

/// The greedy assignment over `edges`, pairs of a header index below
/// `n_headers` and a footer index below `n_footers`, taken in the order
/// given (best first): the positions of the edges kept
/// ([`greedy_picks`]).
pub fn greedy_assignment(edges: &[(usize, usize)], n_headers: usize, n_footers: usize) -> (r: Vec<usize>)
    requires
        forall|i: int| 0 <= i < edges@.len() ==> (#[trigger] edges@[i]).0 < n_headers && edges@[i].1 < n_footers,
    ensures
        r@ == greedy_picks(edges@, edges@.len() as int),
{
    let mut used_headers: Vec<bool> = vec![false; n_headers];
    let mut used_footers: Vec<bool> = vec![false; n_footers];
    let mut picks: Vec<usize> = Vec::new();
    let mut k: usize = 0;
    while k < edges.len()
        invariant
            k <= edges@.len(),
            used_headers@.len() == n_headers,
            used_footers@.len() == n_footers,
            forall|i: int| 0 <= i < edges@.len() ==> (#[trigger] edges@[i]).0 < n_headers && edges@[i].1 < n_footers,
            picks@ == greedy_picks(edges@, k as int),
            forall|p: int| 0 <= p < picks@.len() ==> picks@[p] < k,
            forall|h: int| 0 <= h < n_headers ==> (used_headers@[h] <==> header_taken(edges@, picks@, h as usize)),
            forall|f: int| 0 <= f < n_footers ==> (used_footers@[f] <==> footer_taken(edges@, picks@, f as usize)),
        decreases edges.len() - k,
    {
        let (h, f) = edges[k];
        let ghost before = picks@;
        if !used_headers[h] && !used_footers[f] {
            used_headers.set(h, true);
            used_footers.set(f, true);
            picks.push(k);
            proof {
                assert forall|x: int| 0 <= x < n_headers implies (used_headers@[x] <==> header_taken(
                    edges@,
                    picks@,
                    x as usize,
                )) by {
                    if header_taken(edges@, picks@, x as usize) && x != h {
                        let i = choose|i: int| 0 <= i < picks@.len() && edges@[picks@[i] as int].0 == x as usize;
                        assert(i < before.len());
                        assert(header_taken(edges@, before, x as usize));
                    }
                    if x == h {
                        assert(edges@[picks@[before.len() as int] as int].0 == h);
                    }
                    if header_taken(edges@, before, x as usize) {
                        let i = choose|i: int| 0 <= i < before.len() && edges@[before[i] as int].0 == x as usize;
                        assert(picks@[i] == before[i]);
                    }
                }
                assert forall|x: int| 0 <= x < n_footers implies (used_footers@[x] <==> footer_taken(
                    edges@,
                    picks@,
                    x as usize,
                )) by {
                    if footer_taken(edges@, picks@, x as usize) && x != f {
                        let i = choose|i: int| 0 <= i < picks@.len() && edges@[picks@[i] as int].1 == x as usize;
                        assert(i < before.len());
                        assert(footer_taken(edges@, before, x as usize));
                    }
                    if x == f {
                        assert(edges@[picks@[before.len() as int] as int].1 == f);
                    }
                    if footer_taken(edges@, before, x as usize) {
                        let i = choose|i: int| 0 <= i < before.len() && edges@[before[i] as int].1 == x as usize;
                        assert(picks@[i] == before[i]);
                    }
                }
            }
        }
        k += 1;
    }
    picks
}

/// Whether `picks`, positions below `k` in `edges`, are in increasing order
/// and use no header and no footer twice.
pub open spec fn is_matching(edges: Seq<(usize, usize)>, picks: Seq<usize>, k: int) -> bool {
    &&& forall|i: int| 0 <= i < picks.len() ==> #[trigger] picks[i] < k
    &&& forall|i: int, j: int|
        0 <= i < j < picks.len() ==> #[trigger] picks[i] < #[trigger] picks[j]
            && edges[picks[i] as int].0 != edges[picks[j] as int].0
            && edges[picks[i] as int].1 != edges[picks[j] as int].1
}

/// The greedy assignment pairs each header and each footer at most once,
/// and keeps each edge at most once, in the order given.
pub proof fn lemma_greedy_is_a_matching(edges: Seq<(usize, usize)>, k: int)
    requires
        0 <= k <= edges.len(),
        edges.len() <= usize::MAX,
    ensures
        is_matching(edges, greedy_picks(edges, k), k),
    decreases k,
{
    if k > 0 {
        lemma_greedy_is_a_matching(edges, k - 1);
        let before = greedy_picks(edges, k - 1);
        let e = edges[k - 1];
        if !header_taken(edges, before, e.0) && !footer_taken(edges, before, e.1) {
            let p = before.push((k - 1) as usize);
            assert forall|i: int, j: int| 0 <= i < j < p.len() implies #[trigger] p[i] < #[trigger] p[j]
                && edges[p[i] as int].0 != edges[p[j] as int].0
                && edges[p[i] as int].1 != edges[p[j] as int].1 by {
                if j == before.len() {
                    assert(p[i] == before[i]);
                    assert(before[i] < k - 1);
                    assert(p[j] as int == k - 1);
                    if edges[before[i] as int].0 == e.0 {
                        assert(header_taken(edges, before, e.0));
                    }
                    if edges[before[i] as int].1 == e.1 {
                        assert(footer_taken(edges, before, e.1));
                    }
                } else {
                    assert(p[i] == before[i] && p[j] == before[j]);
                }
            }
            assert forall|i: int| 0 <= i < p.len() implies #[trigger] p[i] < k by {
                if i < before.len() {
                    assert(p[i] == before[i]);
                }
            }
        }
    }
}

} // verus!
