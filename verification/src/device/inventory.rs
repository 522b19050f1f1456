//! What media a machine offers and whether any of them is in use.

use vstd::prelude::*;
use vstd::multiset::Multiset;
use vstd::string::StringExecFns;

use crate::device::class::TrimState;
use crate::device::naming::NodeKind;
use crate::ports::DeviceClass;
use crate::text::chars_of;

pub use crate::device::shadow::{shadow_copy_index, shadow_copy_path, ShadowCopy, MAX_SHADOW_COPY_INDEX};

verus! {

/// A filesystem mount of a medium.
#[derive(Clone, Debug, PartialEq, Eq)]
pub struct MountPoint {
    pub source: String,
    pub target: String,
    pub read_only: bool,
}

impl MountPoint {
    /// A copy of the mount.
    pub fn duplicate(&self) -> (r: Self)
        ensures
            r == *self,
    {
        MountPoint { source: self.source.clone(), target: self.target.clone(), read_only: self.read_only }
    }

    /// The mount in words: `source at target`, and ` (read-only)` when so.
    pub fn describe(&self) -> (r: String)
        ensures
            r@ == self.source@ + " at "@ + self.target@ + (if self.read_only { " (read-only)"@ } else { Seq::empty() }),
    {
        let mut s = self.source.clone();
        s.append(" at ");
        s.append(self.target.as_str());
        if self.read_only {
            s.append(" (read-only)");
        }
        s
    }
}

/// A medium the machine offers.
#[derive(Clone, Debug, PartialEq, Eq)]
pub struct DeviceInfo {
    pub path: String,
    pub kind: NodeKind,
    pub capacity_bytes: Option<u64>,
    pub class: DeviceClass,
    pub trim: TrimState,
    pub mounts: Vec<MountPoint>,
    pub model: Option<String>,
}

impl DeviceInfo {
    /// Whether anything on the medium is mounted.
    pub fn is_mounted(&self) -> (r: bool)
        ensures
            r == (self.mounts@.len() > 0),
    {
        self.mounts.len() > 0
    }

    /// Whether some mount of the medium is writable.
    pub fn has_writable_mount(&self) -> (r: bool)
        ensures
            r == (exists|i: int| 0 <= i < self.mounts@.len() && !(#[trigger] self.mounts@[i]).read_only),
    {
        let mut i: usize = 0;
        while i < self.mounts.len()
            invariant
                i <= self.mounts@.len(),
                forall|k: int| 0 <= k < i ==> (#[trigger] self.mounts@[k]).read_only,
            decreases self.mounts.len() - i,
        {
            if !self.mounts[i].read_only {
                return true;
            }
            i += 1;
        }
        false
    }
}

/// Lexicographic order of texts, character by character, a prefix first:
/// the order of `str`'s comparison, since UTF-8 keeps the order of code
/// points.
pub open spec fn chars_le(a: Seq<char>, b: Seq<char>) -> bool
    decreases a.len(),
{
    if a.len() == 0 {
        true
    } else if b.len() == 0 {
        false
    } else if a[0] != b[0] {
        a[0] < b[0]
    } else {
        chars_le(a.drop_first(), b.drop_first())
    }
}

/// Of two texts, one is at or before the other.
pub proof fn lemma_chars_le_total(a: Seq<char>, b: Seq<char>)
    ensures
        chars_le(a, b) || chars_le(b, a),
    decreases a.len(),
{
    if a.len() > 0 && b.len() > 0 && a[0] == b[0] {
        lemma_chars_le_total(a.drop_first(), b.drop_first());
    }
}

/// The order of texts is transitive.
pub proof fn lemma_chars_le_trans(a: Seq<char>, b: Seq<char>, c: Seq<char>)
    requires
        chars_le(a, b),
        chars_le(b, c),
    ensures
        chars_le(a, c),
    decreases a.len(),
{
    if a.len() > 0 && b.len() > 0 && c.len() > 0 && a[0] == b[0] && b[0] == c[0] {
        lemma_chars_le_trans(a.drop_first(), b.drop_first(), c.drop_first());
    }
}

/// Past a common prefix, two texts compare as their rests do.
proof fn lemma_chars_le_skip(a: Seq<char>, b: Seq<char>, i: int)
    requires
        0 <= i <= a.len(),
        i <= b.len(),
        a.subrange(0, i) == b.subrange(0, i),
    ensures
        chars_le(a, b) == chars_le(a.subrange(i, a.len() as int), b.subrange(i, b.len() as int)),
    decreases i,
{
    if i > 0 {
        assert(a[0] == a.subrange(0, i)[0]);
        assert(b[0] == b.subrange(0, i)[0]);
        assert(a.drop_first().subrange(0, i - 1) =~= a.subrange(0, i).drop_first());
        assert(b.drop_first().subrange(0, i - 1) =~= b.subrange(0, i).drop_first());
        lemma_chars_le_skip(a.drop_first(), b.drop_first(), i - 1);
        assert(a.drop_first().subrange(i - 1, a.len() - 1) =~= a.subrange(i, a.len() as int));
        assert(b.drop_first().subrange(i - 1, b.len() - 1) =~= b.subrange(i, b.len() as int));
    } else {
        assert(a.subrange(0, a.len() as int) =~= a);
        assert(b.subrange(0, b.len() as int) =~= b);
    }
}

/// Whether `a` is at or before `b` in [`chars_le`].
fn text_le(a: &[char], b: &[char]) -> (r: bool)
    ensures
        r == chars_le(a@, b@),
{
    let mut i: usize = 0;
    while i < a.len() && i < b.len()
        invariant
            i <= a.len(),
            i <= b.len(),
            a@.subrange(0, i as int) == b@.subrange(0, i as int),
        decreases a.len() - i,
    {
        if a[i] != b[i] {
            proof {
                lemma_chars_le_skip(a@, b@, i as int);
            }
            return a[i] < b[i];
        }
        assert(a@.subrange(0, i + 1) =~= a@.subrange(0, i as int).push(a@[i as int]));
        assert(b@.subrange(0, i + 1) =~= b@.subrange(0, i as int).push(b@[i as int]));
        i += 1;
    }
    proof {
        lemma_chars_le_skip(a@, b@, i as int);
    }
    i == a.len()
}

/// The listing order of media: whole disks before partitions, then by path.
pub open spec fn device_le(x: DeviceInfo, y: DeviceInfo) -> bool {
    let px = x.kind == NodeKind::Partition;
    let py = y.kind == NodeKind::Partition;
    (!px && py) || (px == py && chars_le(x.path@, y.path@))
}

/// Of two media, one lists at or before the other.
pub proof fn lemma_device_le_total(x: DeviceInfo, y: DeviceInfo)
    ensures
        device_le(x, y) || device_le(y, x),
{
    lemma_chars_le_total(x.path@, y.path@);
}

/// The listing order is transitive.
pub proof fn lemma_device_le_trans(x: DeviceInfo, y: DeviceInfo, z: DeviceInfo)
    requires
        device_le(x, y),
        device_le(y, z),
    ensures
        device_le(x, z),
{
    if chars_le(x.path@, y.path@) && chars_le(y.path@, z.path@) {
        lemma_chars_le_trans(x.path@, y.path@, z.path@);
    }
}

fn device_le_exec(x: &DeviceInfo, y: &DeviceInfo) -> (r: bool)
    ensures
        r == device_le(*x, *y),
{
    let px = x.kind == NodeKind::Partition;
    let py = y.kind == NodeKind::Partition;
    if !px && py {
        return true;
    }
    if px != py {
        return false;
    }
    let a = chars_of(x.path.as_str());
    let b = chars_of(y.path.as_str());
    text_le(a.as_slice(), b.as_slice())
}

/// Whether a listing is in [`device_le`] order.
pub open spec fn listed_in_order(s: Seq<DeviceInfo>) -> bool {
    forall|i: int, j: int| 0 <= i < j < s.len() ==> device_le(#[trigger] s[i], #[trigger] s[j])
}

/// The media found, in listing order: whole disks first, then by path, so
/// the listing is stable across runs and a scan's usual target is on top.
/// The same media come out as went in.
pub fn order_devices(found: Vec<DeviceInfo>) -> (r: Vec<DeviceInfo>)
    ensures
        r@.to_multiset() == found@.to_multiset(),
        listed_in_order(r@),
{
    let ghost all = found@.to_multiset();
    let mut rest = found;
    let mut out: Vec<DeviceInfo> = Vec::new();
    proof {
        out@.to_multiset_ensures();
        vstd::multiset::lemma_multiset_empty_len(out@.to_multiset());
    }
    assert(out@.to_multiset() =~= Multiset::empty());
    while rest.len() > 0
        invariant
            out@.to_multiset().add(rest@.to_multiset()) == all,
            listed_in_order(out@),
        decreases rest.len(),
    {
        let ghost before = rest@;
        let item = rest.pop().unwrap();
        assert(before =~= rest@.push(item));
        proof {
            rest@.to_multiset_ensures();
        }
        let mut j: usize = 0;
        while j < out.len() && device_le_exec(&out[j], &item)
            invariant
                j <= out.len(),
                forall|k: int| 0 <= k < j ==> device_le(#[trigger] out@[k], item),
            decreases out.len() - j,
        {
            j += 1;
        }
        let ghost old_out = out@;
        proof {
            if j < old_out.len() {
                lemma_device_le_total(old_out[j as int], item);
            }
        }
        out.insert(j, item);
        proof {
            out@.to_multiset_ensures();
            assert(out@.remove(j as int) =~= old_out);
            assert(out@[j as int] == item);
            assert(out@.remove(j as int).to_multiset() == out@.to_multiset().remove(out@[j as int]));
            assert(out@.to_multiset().remove(item) == old_out.to_multiset());
            assert(out@.contains(item)) by {
                assert(out@[j as int] == item);
            }
            assert(out@.to_multiset().count(item) > 0);
            assert(out@.to_multiset() =~= old_out.to_multiset().insert(item));
            assert forall|a: int, b: int| 0 <= a < b < out@.len() implies device_le(
                #[trigger] out@[a],
                #[trigger] out@[b],
            ) by {
                if a < j && b == j {
                } else if a < j && b > j {
                    assert(out@[b] == old_out[b - 1]);
                    assert(device_le(old_out[a], old_out[b - 1]));
                } else if a == j {
                    assert(out@[b] == old_out[b - 1]);
                    if b - 1 > j {
                        assert(device_le(old_out[j as int], old_out[b - 1]));
                        lemma_device_le_trans(item, old_out[j as int], old_out[b - 1]);
                    }
                } else if a > j {
                    assert(out@[a] == old_out[a - 1]);
                    assert(out@[b] == old_out[b - 1]);
                    assert(device_le(old_out[a - 1], old_out[b - 1]));
                } else {
                    assert(out@[a] == old_out[a]);
                    assert(out@[b] == old_out[b]);
                }
            }
        }
    }
    proof {
        rest@.to_multiset_ensures();
        vstd::multiset::lemma_multiset_empty_len(rest@.to_multiset());
    }
    assert(rest@.to_multiset() =~= Multiset::empty());
    out
}

} // verus!
