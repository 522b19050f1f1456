//! Restart markers inside entropy-coded data.
//!
//! A restart interval makes the encoder emit `RST0`..`RST7` in a fixed cycle.
//! Where two fragments of one image meet, the cycle has to carry on across the
//! junction, which makes restart markers a cheap test of a reassembly.

use vstd::prelude::*;

use super::{is_restart_marker, restart_marker_index, restart_spec};

verus! {

/// A restart marker found in a buffer.
#[derive(Debug, Clone, Copy, PartialEq, Eq, Structural)]
pub struct RestartMarkerInfo {
    /// Offset of the `FF` byte.
    pub offset: usize,
    /// The marker's index in the cycle, `0..=7`.
    pub rst_number: u8,
}

/// The restart markers from position `i` on, after `acc`: stuffed zeros
/// are stepped over and EOI ends the scan.
pub open spec fn restart_scan(d: Seq<u8>, i: int, acc: Seq<RestartMarkerInfo>) -> Seq<RestartMarkerInfo>
    decreases d.len() - i,
{
    if i < 0 || i + 1 >= d.len() {
        acc
    } else if d[i] == 0xFF && d[i + 1] == 0x00 {
        restart_scan(d, i + 2, acc)
    } else if d[i] == 0xFF && restart_spec(d[i + 1]) {
        restart_scan(d, i + 2, acc.push(RestartMarkerInfo { offset: i as usize, rst_number: (d[i + 1] - 0xD0) as u8 }))
    } else if d[i] == 0xFF && d[i + 1] == 0xD9 {
        acc
    } else {
        restart_scan(d, i + 1, acc)
    }
}

/// The number of `FF`+restart pairs from position `i` on, counting each pair
/// once and not looking inside it.
pub open spec fn restart_count(d: Seq<u8>, i: int) -> nat
    decreases d.len() - i,
{
    if i < 0 || i + 1 >= d.len() {
        0
    } else if d[i] == 0xFF && restart_spec(d[i + 1]) {
        1 + restart_count(d, i + 2)
    } else {
        restart_count(d, i + 1)
    }
}

/// The first restart marker from position `i` on, stepping over stuffed
/// zeros (but not stopping at EOI).
pub open spec fn restart_first(d: Seq<u8>, i: int) -> Option<RestartMarkerInfo>
    decreases d.len() - i,
{
    if i < 0 || i + 1 >= d.len() {
        None
    } else if d[i] == 0xFF && d[i + 1] == 0x00 {
        restart_first(d, i + 2)
    } else if d[i] == 0xFF && restart_spec(d[i + 1]) {
        Some(RestartMarkerInfo { offset: i as usize, rst_number: (d[i + 1] - 0xD0) as u8 })
    } else {
        restart_first(d, i + 1)
    }
}

/// Whether the markers continue one cycle: each index is one past the
/// previous, modulo 8.
pub open spec fn in_cycle(ms: Seq<RestartMarkerInfo>) -> bool {
    forall|k: int| 1 <= k < ms.len() ==> #[trigger] ms[k].rst_number == (ms[0].rst_number + k) % 8
}

/// Finds restart markers and checks their cycle.
#[derive(Debug, Clone, Default)]
pub struct RestartMarkerScanner {
    expected_next: u8,
}

impl RestartMarkerScanner {
    /// The index the scanner expects next.
    pub closed spec fn expected(&self) -> u8 {
        self.expected_next
    }

    /// A scanner expecting `RST0`.
    pub fn new() -> (r: Self)
        ensures
            r.expected() == 0,
    {
        RestartMarkerScanner { expected_next: 0 }
    }

    /// Expects `RST0` again.
    pub fn reset(&mut self)
        ensures
            final(self).expected() == 0,
    {
        self.expected_next = 0;
    }

    /// Every restart marker in `buffer` before EOI, in order.
    pub fn scan(&self, buffer: &[u8]) -> (r: Vec<RestartMarkerInfo>)
        ensures
            r@ == restart_scan(buffer@, 0, Seq::empty()),
    {
        let mut markers: Vec<RestartMarkerInfo> = Vec::new();
        let mut i: usize = 0;
        let n = buffer.len();
        while i < n && i + 1 < n
            invariant
                n == buffer@.len(),
                restart_scan(buffer@, i as int, markers@) == restart_scan(buffer@, 0, Seq::empty()),
            ensures
                markers@ == restart_scan(buffer@, 0, Seq::empty()),
            decreases n - i,
        {
            if buffer[i] == 0xFF {
                let marker = buffer[i + 1];
                if marker == 0x00 {
                    i += 2;
                    continue;
                }
                if is_restart_marker(marker) {
                    if let Some(num) = restart_marker_index(marker) {
                        markers.push(RestartMarkerInfo { offset: i, rst_number: num });
                    }
                    i += 2;
                    continue;
                }
                if marker == 0xD9 {
                    break;
                }
            }
            i += 1;
        }
        markers
    }

    /// Whether `markers` follow one restart cycle from the first marker's
    /// index.
    pub fn validate_sequence(&self, markers: &[RestartMarkerInfo]) -> (r: bool)
        requires
            markers@.len() >= 2 ==> markers@[0].rst_number < 255,
        ensures
            r == in_cycle(markers@),
    {
        if markers.len() == 0 {
            return true;
        }
        let first = markers[0].rst_number;
        let mut expected = first;
        let mut i: usize = 1;
        while i < markers.len()
            invariant
                1 <= i <= markers@.len(),
                first == markers@[0].rst_number,
                markers@.len() >= 2 ==> first < 255,
                i == 1 ==> expected == first,
                i > 1 ==> expected == (first + (i - 1)) % 8,
                forall|k: int| 1 <= k < i ==> #[trigger] markers@[k].rst_number == (first + k) % 8,
            decreases markers.len() - i,
        {
            proof {
                if i > 1 {
                    assert((((first + (i - 1)) % 8) + 1) % 8 == (first + i) % 8);
                }
            }
            expected = (expected + 1) % 8;
            if markers[i].rst_number != expected {
                return false;
            }
            i += 1;
        }
        true
    }

    /// Whether `new_marker` continues the cycle `existing_markers` ends with.
    pub fn would_maintain_sequence(&self, existing_markers: &[RestartMarkerInfo], new_marker: RestartMarkerInfo) -> (r: bool)
        requires
            existing_markers@.len() > 0 ==> existing_markers@.last().rst_number < 255,
        ensures
            r == (existing_markers@.len() == 0 || new_marker.rst_number == (existing_markers@.last().rst_number + 1) % 8),
    {
        if existing_markers.len() == 0 {
            return true;
        }
        let last = existing_markers[existing_markers.len() - 1];
        let expected_next = (last.rst_number + 1) % 8;
        new_marker.rst_number == expected_next
    }

    /// How many `FF`+restart pairs `buffer` holds.
    pub fn count_markers(&self, buffer: &[u8]) -> (r: usize)
        ensures
            r == restart_count(buffer@, 0),
    {
        let mut count: usize = 0;
        let mut i: usize = 0;
        let n = buffer.len();
        while i < n && i + 1 < n
            invariant
                n == buffer@.len(),
                count + restart_count(buffer@, i as int) == restart_count(buffer@, 0),
                count <= i,
            decreases n - i,
        {
            if buffer[i] == 0xFF && is_restart_marker(buffer[i + 1]) {
                count += 1;
                i += 2;
            } else {
                i += 1;
            }
        }
        count
    }

    /// The first restart marker in `buffer`.
    pub fn find_first(&self, buffer: &[u8]) -> (r: Option<RestartMarkerInfo>)
        ensures
            r == restart_first(buffer@, 0),
    {
        let mut i: usize = 0;
        let n = buffer.len();
        while i < n && i + 1 < n
            invariant
                n == buffer@.len(),
                restart_first(buffer@, i as int) == restart_first(buffer@, 0),
            decreases n - i,
        {
            if buffer[i] == 0xFF {
                let marker = buffer[i + 1];
                if marker == 0x00 {
                    i += 2;
                    continue;
                }
                if is_restart_marker(marker) {
                    return match restart_marker_index(marker) {
                        Some(num) => Some(RestartMarkerInfo { offset: i, rst_number: num }),
                        None => None,
                    };
                }
            }
            i += 1;
        }
        None
    }
}

/// `m` names a restart marker of `d`: `FF` at its offset, followed by
/// `D0 + m.rst_number`.
pub open spec fn marks_restart(d: Seq<u8>, m: RestartMarkerInfo) -> bool {
    &&& m.offset + 1 < d.len()
    &&& d[m.offset as int] == 0xFF
    &&& restart_spec(d[m.offset + 1])
    &&& m.rst_number == d[m.offset + 1] - 0xD0
    &&& m.rst_number < 8
}

/// Every marker the scan finds is a restart marker at its offset.
pub proof fn lemma_scan_finds_restart_markers(d: Seq<u8>, i: int, acc: Seq<RestartMarkerInfo>)
    requires
        d.len() <= usize::MAX,
        forall|k: int| 0 <= k < acc.len() ==> marks_restart(d, #[trigger] acc[k]),
    ensures
        forall|k: int| 0 <= k < restart_scan(d, i, acc).len() ==> marks_restart(d, #[trigger] restart_scan(d, i, acc)[k]),
    decreases d.len() - i,
{
    if i < 0 || i + 1 >= d.len() {
        assert(restart_scan(d, i, acc) == acc);
    } else if d[i] == 0xFF && d[i + 1] == 0x00 {
        lemma_scan_finds_restart_markers(d, i + 2, acc);
        assert(restart_scan(d, i, acc) == restart_scan(d, i + 2, acc));
    } else if d[i] == 0xFF && restart_spec(d[i + 1]) {
        let next = acc.push(RestartMarkerInfo { offset: i as usize, rst_number: (d[i + 1] - 0xD0) as u8 });
        assert(marks_restart(d, next[acc.len() as int]));
        assert forall|k: int| 0 <= k < next.len() implies marks_restart(d, #[trigger] next[k]) by {
            if k < acc.len() {
                assert(next[k] == acc[k]);
            }
        }
        assert(restart_scan(d, i, acc) == restart_scan(d, i + 2, next));
        lemma_scan_finds_restart_markers(d, i + 2, next);
    } else if d[i] == 0xFF && d[i + 1] == 0xD9 {
        assert(restart_scan(d, i, acc) == acc);
        assert(forall|k: int| 0 <= k < restart_scan(d, i, acc).len() ==> marks_restart(d, #[trigger] restart_scan(d, i, acc)[k]));
    } else {
        lemma_scan_finds_restart_markers(d, i + 1, acc);
        assert(restart_scan(d, i, acc) == restart_scan(d, i + 1, acc));
        assert(forall|k: int| 0 <= k < restart_scan(d, i, acc).len() ==> marks_restart(d, #[trigger] restart_scan(d, i, acc)[k]));
    }
}

/// How far, around the cycle of eight, the first restart marker of a tail
/// is from the one that should follow the last marker of a head: zero for
/// the marker that continues the sequence, at most four. `None` when either
/// side has no marker.
pub open spec fn restart_gap_spec(head: Seq<RestartMarkerInfo>, tail: Seq<RestartMarkerInfo>) -> Option<u8> {
    if head.len() == 0 || tail.len() == 0 {
        None
    } else {
        let expected = (head.last().rst_number + 1) % 8;
        let first = tail[0].rst_number as int;
        let diff = if first >= expected { first - expected } else { expected - first };
        Some((if diff <= 8 - diff { diff } else { 8 - diff }) as u8)
    }
}

/// The gap at the junction of a head and a tail ([`restart_gap_spec`]),
/// which scores how well the two continue one restart sequence.
pub fn restart_gap(head: &[RestartMarkerInfo], tail: &[RestartMarkerInfo]) -> (r: Option<u8>)
    requires
        head@.len() > 0 ==> head@.last().rst_number < 8,
        tail@.len() > 0 ==> tail@[0].rst_number < 8,
    ensures
        r == restart_gap_spec(head@, tail@),
        r matches Some(g) ==> g <= 4,
{
    if head.len() == 0 || tail.len() == 0 {
        return None;
    }
    let expected = (head[head.len() - 1].rst_number + 1) % 8;
    let first = tail[0].rst_number;
    let diff = if first >= expected { first - expected } else { expected - first };
    Some(if diff <= 8 - diff { diff } else { 8 - diff })
}

} // verus!
