//! What an operating system's device paths mean: whether a path addresses a
//! whole disk or one partition, and which disk a partition belongs to.
//!
//! These are decisions, not system calls, so they are written down once
//! here and hold on every platform.

use vstd::prelude::*;

use crate::text::{
    lemma_decimal_digits, lemma_strip_head, lemma_lower_concat, lemma_lower_digits, lemma_lower_idempotent, lemma_strip_concat, all_digits, all_digits_exec, any_alpha, any_alpha_exec, chars_of, count_trailing_digits, decimal,
    decimal_spec, index_from, index_of, is_alpha, is_digit, join_chars, last_index_before, last_index_of,
    lower_chars, lower_seq, parse_u32, rsplit_once, split_once, string_of, strip, strip_prefix, sub_chars,
    trailing_digits, u32_text,
};

verus! {

/// Whether a device node addresses a whole disk or one partition.
#[derive(Clone, Copy, Debug, PartialEq, Eq, Hash, Structural)]
pub enum NodeKind {
    WholeDisk,
    Partition,
}

/// The prefix of a Windows physical drive path.
pub const WINDOWS_PHYSICAL_DRIVE: &'static str = "\\\\.\\PhysicalDrive";

/// A Windows path after its device-namespace prefix (`\\.\` or `\\?\`).
pub open spec fn windows_rest(p: Seq<char>) -> Option<Seq<char>> {
    match strip(p, "\\\\.\\"@) {
        Some(r) => Some(r),
        None => strip(p, "\\\\?\\"@),
    }
}

/// The kind of a Windows device path: `PhysicalDriveN` is a whole disk,
/// `HarddiskVolumeN` and a drive letter are partitions, in any case.
pub open spec fn windows_kind(p: Seq<char>) -> Option<NodeKind> {
    match windows_rest(p) {
        None => None,
        Some(rest) => {
            let lower = lower_seq(rest);
            match strip(lower, "physicaldrive"@) {
                Some(idx) => if u32_text(idx) is Some { Some(NodeKind::WholeDisk) } else { None },
                None => match strip(lower, "harddiskvolume"@) {
                    Some(idx) => if u32_text(idx) is Some { Some(NodeKind::Partition) } else { None },
                    None => if lower.len() == 2 && is_alpha(lower[0]) && lower[1] == ':' {
                        Some(NodeKind::Partition)
                    } else {
                        None
                    },
                },
            }
        },
    }
}

/// The kind of an NVMe or MMC name after its family: a `p` and a number
/// after a non-empty head make a partition.
pub open spec fn numbered_kind(rest: Seq<char>) -> Option<NodeKind> {
    match rsplit_once(rest, 'p') {
        Some((head, tail)) => if head.len() > 0 && u32_text(tail) is Some {
            Some(NodeKind::Partition)
        } else {
            Some(NodeKind::WholeDisk)
        },
        None => Some(NodeKind::WholeDisk),
    }
}

/// The kind of an `sd`, `vd`, `hd` or `loop` name after its family:
/// letters then digits make a partition, letters alone a disk; a loop
/// device is a partition when a `p` follows.
pub open spec fn lettered_kind(rest: Seq<char>, is_loop: bool) -> Option<NodeKind> {
    if rest.len() == 0 {
        None
    } else if is_loop {
        if index_from(rest, 'p', 0) is Some { Some(NodeKind::Partition) } else { Some(NodeKind::WholeDisk) }
    } else if any_alpha(rest) && trailing_digits(rest) > 0 {
        Some(NodeKind::Partition)
    } else if any_alpha(rest) {
        Some(NodeKind::WholeDisk)
    } else {
        None
    }
}

/// The kind of a Linux device path.
pub open spec fn linux_kind(p: Seq<char>) -> Option<NodeKind> {
    match strip(p, "/dev/"@) {
        None => None,
        Some(name) => {
            if name.len() == 0 || index_from(name, '/', 0) is Some {
                match strip(name, "mapper/"@) {
                    Some(rest) => if rest.len() > 0 { Some(NodeKind::WholeDisk) } else { None },
                    None => None,
                }
            } else if strip(name, "nvme"@) is Some {
                numbered_kind(strip(name, "nvme"@)->0)
            } else if strip(name, "mmcblk"@) is Some {
                numbered_kind(strip(name, "mmcblk"@)->0)
            } else if strip(name, "sd"@) is Some {
                lettered_kind(strip(name, "sd"@)->0, false)
            } else if strip(name, "vd"@) is Some {
                lettered_kind(strip(name, "vd"@)->0, false)
            } else if strip(name, "hd"@) is Some {
                lettered_kind(strip(name, "hd"@)->0, false)
            } else if strip(name, "loop"@) is Some {
                lettered_kind(strip(name, "loop"@)->0, true)
            } else {
                None
            }
        },
    }
}

/// Whether every character is a digit or `s`.
pub open spec fn digits_or_s(s: Seq<char>) -> bool {
    forall|i: int| 0 <= i < s.len() ==> is_digit(#[trigger] s[i]) || s[i] == 's'
}

/// A macOS name with its raw-device `r` taken off.
pub open spec fn unraw(name: Seq<char>) -> Seq<char> {
    match strip(name, "r"@) {
        Some(n) => n,
        None => name,
    }
}

/// The kind of a macOS device path: `diskN` (or `rdiskN`) is a whole disk,
/// `diskNsM...` a slice.
pub open spec fn macos_kind(p: Seq<char>) -> Option<NodeKind> {
    match strip(p, "/dev/"@) {
        None => None,
        Some(name) => match strip(unraw(name), "disk"@) {
            None => None,
            Some(rest) => {
                let (index, slices) = match split_once(rest, 's') {
                    Some((h, t)) => (h, t.len() > 0 && digits_or_s(t)),
                    None => (rest, false),
                };
                if index.len() == 0 || !all_digits(index) {
                    None
                } else if slices {
                    Some(NodeKind::Partition)
                } else {
                    Some(NodeKind::WholeDisk)
                }
            },
        },
    }
}

/// The raw (unbuffered) spelling of a macOS disk path; anything else as it
/// is.
pub open spec fn macos_raw(p: Seq<char>) -> Seq<char> {
    match strip(p, "/dev/"@) {
        Some(name) => if strip(name, "disk"@) is Some { "/dev/r"@ + name } else { p },
        None => p,
    }
}

/// The disk a macOS slice belongs to, keeping its raw or buffered spelling.
pub open spec fn macos_disk_of(p: Seq<char>) -> Option<Seq<char>> {
    if macos_kind(p) != Some(NodeKind::Partition) {
        None
    } else {
        let name = strip(p, "/dev/"@)->0;
        let raw = strip(name, "r"@) is Some;
        let rest = strip(unraw(name), "disk"@)->0;
        let index = match index_from(rest, 's', 0) {
            Some(i) => rest.subrange(0, i),
            None => rest,
        };
        Some(if raw { "/dev/rdisk"@ + index } else { "/dev/disk"@ + index })
    }
}

/// The one spelling of a device path: Windows device paths take the `\\.\`
/// namespace and lower case; macOS raw nodes their buffered name; anything
/// else stays as it is.
pub open spec fn canonical_spec(p: Seq<char>) -> Seq<char> {
    if windows_rest(p) is Some && windows_kind(p) is Some {
        "\\\\.\\"@ + lower_seq(windows_rest(p)->0)
    } else if macos_kind(p) is Some && strip(p, "/dev/"@) is Some && strip(strip(p, "/dev/"@)->0, "r"@) is Some {
        "/dev/"@ + strip(strip(p, "/dev/"@)->0, "r"@)->0
    } else {
        p
    }
}

/// The disk a Linux partition belongs to: NVMe, MMC and loop devices drop
/// the last `p` and what follows; the others drop their trailing digits.
pub open spec fn linux_disk_of(p: Seq<char>) -> Option<Seq<char>> {
    if linux_kind(p) != Some(NodeKind::Partition) {
        None
    } else {
        let name = strip(p, "/dev/"@)->0;
        if strip(name, "nvme"@) is Some || strip(name, "mmcblk"@) is Some || strip(name, "loop"@) is Some {
            match rsplit_once(name, 'p') {
                Some((head, _)) => Some("/dev/"@ + head),
                None => None,
            }
        } else {
            let trimmed = name.subrange(0, name.len() - trailing_digits(name));
            if trimmed.len() > 0 && trailing_digits(name) > 0 {
                Some("/dev/"@ + trimmed)
            } else {
                None
            }
        }
    }
}

/// The path of Windows physical drive `index`.
pub open spec fn physical_drive_path(index: u32) -> Seq<char> {
    "\\\\.\\PhysicalDrive"@ + decimal_spec(index as nat)
}

/// The path of Windows physical drive `index`.
pub fn windows_physical_drive(index: u32) -> (r: String)
    ensures
        r@ == physical_drive_path(index),
{
    let mut prefix = chars_of(WINDOWS_PHYSICAL_DRIVE);
    let digits = chars_of(decimal(index as u64).as_str());
    let all = join_chars(&prefix, &digits);
    string_of(&all)
}

/// The Windows path after `\\.\` or `\\?\`.
fn windows_rest_exec(p: &[char]) -> (r: Option<Vec<char>>)
    ensures
        match windows_rest(p@) {
            Some(t) => r matches Some(v) && v@ == t,
            None => r is None,
        },
{
    let a = chars_of("\\\\.\\");
    match strip_prefix(p, &a) {
        Some(r) => Some(r),
        None => {
            let b = chars_of("\\\\?\\");
            strip_prefix(p, &b)
        },
    }
}

fn windows_kind_chars(p: &[char]) -> (r: Option<NodeKind>)
    ensures
        r == windows_kind(p@),
{
    let rest = match windows_rest_exec(p) {
        Some(r) => r,
        None => return None,
    };
    let lower = lower_chars(&rest);
    let pd = chars_of("physicaldrive");
    match strip_prefix(&lower, &pd) {
        Some(idx) => {
            return if parse_u32(&idx).is_some() { Some(NodeKind::WholeDisk) } else { None };
        },
        None => {},
    }
    let hv = chars_of("harddiskvolume");
    match strip_prefix(&lower, &hv) {
        Some(idx) => {
            return if parse_u32(&idx).is_some() { Some(NodeKind::Partition) } else { None };
        },
        None => {},
    }
    if lower.len() == 2 && ((lower[0] >= 'a' && lower[0] <= 'z') || (lower[0] >= 'A' && lower[0] <= 'Z'))
        && lower[1] == ':' {
        return Some(NodeKind::Partition);
    }
    None
}

/// The kind of a Windows device path ([`windows_kind`]).
pub fn windows_node_kind(path: &str) -> (r: Option<NodeKind>)
    ensures
        r == windows_kind(path@),
{
    let p = chars_of(path);
    windows_kind_chars(&p)
}

fn numbered_kind_exec(rest: &[char]) -> (r: Option<NodeKind>)
    ensures
        r == numbered_kind(rest@),
{
    match last_index_of(rest, 'p') {
        Some(i) => {
            let tail = sub_chars(rest, i + 1, rest.len());
            if i > 0 && parse_u32(&tail).is_some() {
                Some(NodeKind::Partition)
            } else {
                Some(NodeKind::WholeDisk)
            }
        },
        None => Some(NodeKind::WholeDisk),
    }
}

fn lettered_kind_exec(rest: &[char], is_loop: bool) -> (r: Option<NodeKind>)
    ensures
        r == lettered_kind(rest@, is_loop),
{
    if rest.len() == 0 {
        return None;
    }
    let trailing = count_trailing_digits(rest);
    let has_letters = any_alpha_exec(rest);
    if is_loop {
        if index_of(rest, 'p').is_some() {
            Some(NodeKind::Partition)
        } else {
            Some(NodeKind::WholeDisk)
        }
    } else if has_letters && trailing > 0 {
        Some(NodeKind::Partition)
    } else if has_letters {
        Some(NodeKind::WholeDisk)
    } else {
        None
    }
}

fn linux_kind_chars(p: &[char]) -> (r: Option<NodeKind>)
    ensures
        r == linux_kind(p@),
{
    let dev = chars_of("/dev/");
    let name = match strip_prefix(p, &dev) {
        Some(n) => n,
        None => return None,
    };
    if name.len() == 0 || index_of(&name, '/').is_some() {
        let mapper = chars_of("mapper/");
        return match strip_prefix(&name, &mapper) {
            Some(rest) => if rest.len() > 0 { Some(NodeKind::WholeDisk) } else { None },
            None => None,
        };
    }
    let nvme = chars_of("nvme");
    match strip_prefix(&name, &nvme) {
        Some(rest) => return numbered_kind_exec(&rest),
        None => {},
    }
    let mmc = chars_of("mmcblk");
    match strip_prefix(&name, &mmc) {
        Some(rest) => return numbered_kind_exec(&rest),
        None => {},
    }
    let sd = chars_of("sd");
    match strip_prefix(&name, &sd) {
        Some(rest) => return lettered_kind_exec(&rest, false),
        None => {},
    }
    let vd = chars_of("vd");
    match strip_prefix(&name, &vd) {
        Some(rest) => return lettered_kind_exec(&rest, false),
        None => {},
    }
    let hd = chars_of("hd");
    match strip_prefix(&name, &hd) {
        Some(rest) => return lettered_kind_exec(&rest, false),
        None => {},
    }
    let lp = chars_of("loop");
    match strip_prefix(&name, &lp) {
        Some(rest) => lettered_kind_exec(&rest, true),
        None => None,
    }
}

/// The kind of a Linux device path ([`linux_kind`]).
pub fn linux_node_kind(path: &str) -> (r: Option<NodeKind>)
    ensures
        r == linux_kind(path@),
{
    let p = chars_of(path);
    linux_kind_chars(&p)
}

fn digits_or_s_exec(s: &[char]) -> (r: bool)
    ensures
        r == digits_or_s(s@),
{
    let mut i: usize = 0;
    while i < s.len()
        invariant
            i <= s@.len(),
            forall|k: int| 0 <= k < i ==> is_digit(#[trigger] s@[k]) || s@[k] == 's',
        decreases s.len() - i,
    {
        let c = s[i];
        if !((c >= '0' && c <= '9') || c == 's') {
            assert(!(is_digit(s@[i as int]) || s@[i as int] == 's'));
            return false;
        }
        i += 1;
    }
    true
}

fn unraw_exec(name: &[char]) -> (r: Vec<char>)
    ensures
        r@ == unraw(name@),
{
    let r = chars_of("r");
    match strip_prefix(name, &r) {
        Some(n) => n,
        None => {
            let v = sub_chars(name, 0, name.len());
            assert(v@ =~= name@);
            v
        },
    }
}

fn macos_kind_chars(p: &[char]) -> (r: Option<NodeKind>)
    ensures
        r == macos_kind(p@),
{
    let dev = chars_of("/dev/");
    let name = match strip_prefix(p, &dev) {
        Some(n) => n,
        None => return None,
    };
    let bare = unraw_exec(&name);
    let disk = chars_of("disk");
    let rest = match strip_prefix(&bare, &disk) {
        Some(r) => r,
        None => return None,
    };
    let (index, slices) = match index_of(&rest, 's') {
        Some(i) => {
            let head = sub_chars(&rest, 0, i);
            let tail = sub_chars(&rest, i + 1, rest.len());
            let ok = tail.len() > 0 && digits_or_s_exec(&tail);
            (head, ok)
        },
        None => {
            let v = sub_chars(&rest, 0, rest.len());
            assert(v@ =~= rest@);
            (v, false)
        },
    };
    if index.len() == 0 || !all_digits_exec(&index) {
        return None;
    }
    if slices {
        Some(NodeKind::Partition)
    } else {
        Some(NodeKind::WholeDisk)
    }
}

/// The kind of a macOS device path ([`macos_kind`]).
pub fn macos_node_kind(path: &str) -> (r: Option<NodeKind>)
    ensures
        r == macos_kind(path@),
{
    let p = chars_of(path);
    macos_kind_chars(&p)
}

/// The raw spelling of a macOS disk path ([`macos_raw`]).
pub fn macos_raw_path(path: &str) -> (r: String)
    ensures
        r@ == macos_raw(path@),
{
    let p = chars_of(path);
    let dev = chars_of("/dev/");
    match strip_prefix(&p, &dev) {
        Some(name) => {
            let disk = chars_of("disk");
            if strip_prefix(&name, &disk).is_some() {
                let pre = chars_of("/dev/r");
                let all = join_chars(&pre, &name);
                return string_of(&all);
            }
        },
        None => {},
    }
    string_of(&p)
}

/// The disk a macOS slice belongs to ([`macos_disk_of`]).
pub fn macos_whole_disk(path: &str) -> (r: Option<String>)
    ensures
        match macos_disk_of(path@) {
            Some(d) => r matches Some(s) && s@ == d,
            None => r is None,
        },
{
    let p = chars_of(path);
    match macos_kind_chars(&p) {
        Some(NodeKind::Partition) => {},
        _ => return None,
    }
    let dev = chars_of("/dev/");
    let name = match strip_prefix(&p, &dev) {
        Some(n) => n,
        None => return None,
    };
    let r = chars_of("r");
    let raw = strip_prefix(&name, &r).is_some();
    let bare = unraw_exec(&name);
    let disk = chars_of("disk");
    let rest = match strip_prefix(&bare, &disk) {
        Some(x) => x,
        None => return None,
    };
    let index = match index_of(&rest, 's') {
        Some(i) => sub_chars(&rest, 0, i),
        None => {
            let v = sub_chars(&rest, 0, rest.len());
            assert(v@ =~= rest@);
            v
        },
    };
    let pre = if raw { chars_of("/dev/rdisk") } else { chars_of("/dev/disk") };
    let all = join_chars(&pre, &index);
    Some(string_of(&all))
}

/// The one spelling of a device path ([`canonical_spec`]).
pub fn canonical(path: &str) -> (r: String)
    ensures
        r@ == canonical_spec(path@),
{
    let p = chars_of(path);
    match windows_rest_exec(&p) {
        Some(rest) => {
            if windows_kind_chars(&p).is_some() {
                let pre = chars_of("\\\\.\\");
                let lower = lower_chars(&rest);
                let all = join_chars(&pre, &lower);
                return string_of(&all);
            }
        },
        None => {},
    }
    if macos_kind_chars(&p).is_some() {
        let dev = chars_of("/dev/");
        match strip_prefix(&p, &dev) {
            Some(name) => {
                let r = chars_of("r");
                match strip_prefix(&name, &r) {
                    Some(bare) => {
                        let all = join_chars(&dev, &bare);
                        return string_of(&all);
                    },
                    None => {},
                }
            },
            None => {},
        }
    }
    string_of(&p)
}

/// The disk a Linux partition belongs to ([`linux_disk_of`]).
pub fn linux_whole_disk(path: &str) -> (r: Option<String>)
    ensures
        match linux_disk_of(path@) {
            Some(d) => r matches Some(s) && s@ == d,
            None => r is None,
        },
{
    let p = chars_of(path);
    match linux_kind_chars(&p) {
        Some(NodeKind::Partition) => {},
        _ => return None,
    }
    let dev = chars_of("/dev/");
    let name = match strip_prefix(&p, &dev) {
        Some(n) => n,
        None => return None,
    };
    let nvme = chars_of("nvme");
    let mmc = chars_of("mmcblk");
    let lo = chars_of("loop");
    if strip_prefix(&name, &nvme).is_some() || strip_prefix(&name, &mmc).is_some() || strip_prefix(&name, &lo).is_some() {
        return match last_index_of(&name, 'p') {
            Some(i) => {
                let head = sub_chars(&name, 0, i);
                let all = join_chars(&dev, &head);
                Some(string_of(&all))
            },
            None => None,
        };
    }
    let t = count_trailing_digits(&name);
    let trimmed = sub_chars(&name, 0, name.len() - t);
    if trimmed.len() > 0 && t > 0 {
        let all = join_chars(&dev, &trimmed);
        Some(string_of(&all))
    } else {
        None
    }
}

/// A physical drive path names a whole disk, whatever its index: the path
/// [`windows_physical_drive`] writes is one [`windows_node_kind`] reads as a
/// whole disk.
pub proof fn lemma_physical_drive_round_trip(index: u32)
    ensures
        windows_kind(physical_drive_path(index)) == Some(NodeKind::WholeDisk),
{
    reveal_strlit("\\\\.\\PhysicalDrive");
    reveal_strlit("\\\\.\\");
    reveal_strlit("physicaldrive");
    let dec = decimal_spec(index as nat);
    lemma_decimal_digits(index as nat);
    let body = seq!['P', 'h', 'y', 's', 'i', 'c', 'a', 'l', 'D', 'r', 'i', 'v', 'e'];
    let p = physical_drive_path(index);
    assert(p =~= "\\\\.\\"@ + (body + dec));
    lemma_strip_concat("\\\\.\\"@, body + dec);
    assert(windows_rest(p) == Some(body + dec));
    lemma_lower_concat(body, dec);
    lemma_lower_digits(dec);
    assert(lower_seq(body) =~= "physicaldrive"@);
    lemma_strip_concat("physicaldrive"@, dec);
    assert(strip(lower_seq(body + dec), "physicaldrive"@) == Some(dec));
    assert(u32_text(dec) == Some(index));
}

/// Asking for the raw spelling twice changes nothing.
pub proof fn lemma_macos_raw_idempotent(p: Seq<char>)
    ensures
        macos_raw(macos_raw(p)) == macos_raw(p),
{
    reveal_strlit("/dev/");
    reveal_strlit("/dev/r");
    reveal_strlit("disk");
    match strip(p, "/dev/"@) {
        Some(name) => {
            if strip(name, "disk"@) is Some {
                let q = "/dev/r"@ + name;
                assert(q =~= "/dev/"@ + (seq!['r'] + name));
                lemma_strip_concat("/dev/"@, seq!['r'] + name);
                assert((seq!['r'] + name)[0] == 'r');
                if strip(seq!['r'] + name, "disk"@) is Some {
                    lemma_strip_head(seq!['r'] + name, "disk"@, 0);
                }
            }
        },
        None => {},
    }
}

/// The raw and buffered spellings of a macOS disk node have one canonical
/// form: `/dev/rdiskN...` and `/dev/diskN...` canonicalise alike.
pub proof fn lemma_macos_spellings_agree(rest: Seq<char>)
    requires
        strip(rest, "disk"@) is Some,
        macos_kind("/dev/"@ + rest) is Some,
    ensures
        canonical_spec("/dev/r"@ + rest) == canonical_spec("/dev/"@ + rest),
{
    reveal_strlit("/dev/");
    reveal_strlit("/dev/r");
    reveal_strlit("r");
    reveal_strlit("disk");
    reveal_strlit("\\\\.\\");
    reveal_strlit("\\\\?\\");
    let a = "/dev/"@ + rest;
    let b = "/dev/r"@ + rest;
    assert(b =~= "/dev/"@ + (seq!['r'] + rest));
    lemma_strip_concat("/dev/"@, rest);
    lemma_strip_concat("/dev/"@, seq!['r'] + rest);
    lemma_strip_concat("r"@, rest);
    assert(seq!['r'] + rest =~= "r"@ + rest);
    assert(unraw(seq!['r'] + rest) == rest);
    assert(strip(rest, "r"@) is None) by {
        lemma_strip_head(rest, "disk"@, 0);
        if strip(rest, "r"@) is Some {
            lemma_strip_head(rest, "r"@, 0);
        }
    }
    assert(unraw(rest) == rest);
    assert(macos_kind(b) == macos_kind(a));
    assert(windows_rest(a) is None) by {
        if strip(a, "\\\\.\\"@) is Some {
            assert(a[0] == '/');
        }
        if strip(a, "\\\\?\\"@) is Some {
            assert(a[0] == '/');
        }
    }
    assert(windows_rest(b) is None) by {
        if strip(b, "\\\\.\\"@) is Some {
            assert(b[0] == '/');
        }
        if strip(b, "\\\\?\\"@) is Some {
            assert(b[0] == '/');
        }
    }
}

/// The spellings of one Windows device compare alike: the `\\?\` and
/// `\\.\` namespaces, in any letter case, canonicalise to one path.
pub proof fn lemma_windows_spellings_agree(r1: Seq<char>, r2: Seq<char>)
    requires
        lower_seq(r1) == lower_seq(r2),
        windows_kind("\\\\.\\"@ + r2) is Some,
    ensures
        canonical_spec("\\\\?\\"@ + r1) == canonical_spec("\\\\.\\"@ + r2),
{
    reveal_strlit("\\\\.\\");
    reveal_strlit("\\\\?\\");
    let a = "\\\\?\\"@ + r1;
    let b = "\\\\.\\"@ + r2;
    lemma_strip_concat("\\\\?\\"@, r1);
    lemma_strip_concat("\\\\.\\"@, r2);
    assert(strip(a, "\\\\.\\"@) is None) by {
        if strip(a, "\\\\.\\"@) is Some {
            lemma_strip_head(a, "\\\\.\\"@, 2);
            assert(a[2] == '?');
        }
    }
    assert(windows_rest(a) == Some(r1));
    assert(windows_rest(b) == Some(r2));
    assert(windows_kind(a) == windows_kind(b));
}

/// Canonicalising twice is canonicalising once: the one spelling of a path
/// is its own one spelling.
pub proof fn lemma_canonical_idempotent(p: Seq<char>)
    ensures
        canonical_spec(canonical_spec(p)) == canonical_spec(p),
{
    reveal_strlit("/dev/");
    reveal_strlit("r");
    reveal_strlit("disk");
    reveal_strlit("\\\\.\\");
    reveal_strlit("\\\\?\\");
    if windows_rest(p) is Some && windows_kind(p) is Some {
        let rest = windows_rest(p)->0;
        let q = "\\\\.\\"@ + lower_seq(rest);
        lemma_strip_concat("\\\\.\\"@, lower_seq(rest));
        assert(windows_rest(q) == Some(lower_seq(rest)));
        lemma_lower_idempotent(rest);
        assert(windows_kind(q) == windows_kind(p));
    } else if macos_kind(p) is Some && strip(p, "/dev/"@) is Some && strip(strip(p, "/dev/"@)->0, "r"@) is Some {
        let name = strip(p, "/dev/"@)->0;
        let bare = strip(name, "r"@)->0;
        let q = "/dev/"@ + bare;
        lemma_strip_concat("/dev/"@, bare);
        assert(unraw(name) == bare);
        assert(strip(bare, "disk"@) is Some);
        assert(strip(bare, "r"@) is None) by {
            lemma_strip_head(bare, "disk"@, 0);
            if strip(bare, "r"@) is Some {
                lemma_strip_head(bare, "r"@, 0);
            }
        }
        assert(unraw(bare) == bare);
        assert(macos_kind(q) == macos_kind(p));
        assert(windows_rest(q) is None) by {
            if strip(q, "\\\\.\\"@) is Some {
                lemma_strip_head(q, "\\\\.\\"@, 0);
                lemma_strip_head(q, "/dev/"@, 0);
            }
            if strip(q, "\\\\?\\"@) is Some {
                lemma_strip_head(q, "\\\\?\\"@, 0);
                lemma_strip_head(q, "/dev/"@, 0);
            }
        }
    }
}

} // verus!
