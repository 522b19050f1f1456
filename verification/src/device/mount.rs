//! Reading the operating system's mount table. The platforms hand over the
//! text or records; what they mean is decided here.

use vstd::prelude::*;

use crate::device::inventory::MountPoint;
use crate::text::{chars_of, index_from, lemma_index_from, string_of, sub_chars, text_eq};

verus! {

/// The lines of `t` from `pos` on, as `str::lines` gives them: split at
/// `\n`, a `\r` before it dropped, no empty line after a final `\n`.
pub open spec fn lines_from(t: Seq<char>, pos: int) -> Seq<Seq<char>>
    decreases t.len() - pos,
{
    if pos < 0 || pos >= t.len() {
        Seq::empty()
    } else {
        match index_from(t, '\n', pos) {
            None => seq![t.subrange(pos, t.len() as int)],
            Some(i) => {
                let raw = t.subrange(pos, i);
                let line = if raw.len() > 0 && raw.last() == '\r' { raw.drop_last() } else { raw };
                proof {
                    lemma_index_from(t, '\n', pos);
                }
                seq![line] + lines_from(t, i + 1)
            },
        }
    }
}

/// The `k`th piece of `s` split at every `sep`, if there are that many.
pub open spec fn piece(s: Seq<char>, sep: char, k: nat) -> Option<Seq<char>>
    decreases k,
{
    match index_from(s, sep, 0) {
        Some(i) => if k == 0 {
            Some(s.subrange(0, i))
        } else {
            proof {
                lemma_index_from(s, sep, 0);
            }
            piece(s.subrange(i + 1, s.len() as int), sep, (k - 1) as nat)
        },
        None => if k == 0 { Some(s) } else { None },
    }
}

/// The first place from `from` on where `p` occurs in `s`.
pub open spec fn find_text(s: Seq<char>, p: Seq<char>, from: int) -> Option<int>
    decreases s.len() + 1 - from,
{
    if from < 0 || from + p.len() > s.len() {
        None
    } else if s.subrange(from, from + p.len()) == p {
        Some(from)
    } else {
        find_text(s, p, from + 1)
    }
}

/// Whether some `,`-separated option in `list` is exactly `ro`.
pub open spec fn lists_ro(list: Seq<char>) -> bool
    decreases list.len(),
{
    match index_from(list, ',', 0) {
        Some(i) => {
            proof {
                lemma_index_from(list, ',', 0);
            }
            list.subrange(0, i) == seq!['r', 'o'] || lists_ro(list.subrange(i + 1, list.len() as int))
        },
        None => list == seq!['r', 'o'],
    }
}

/// Whether an option list is there and says `ro`.
pub open spec fn read_only_option(options: Option<Seq<char>>) -> bool {
    match options {
        Some(l) => lists_ro(l),
        None => false,
    }
}

/// The value of an octal digit.
pub open spec fn octal_digit(c: char) -> Option<nat> {
    if '0' <= c <= '7' {
        Some(((c as u32) - ('0' as u32)) as nat)
    } else {
        None
    }
}

/// What three characters after a backslash stand for, as
/// `u8::from_str_radix(.., 8)` reads them: an optional `+` and octal digits
/// giving a byte.
pub open spec fn octal_byte(d: Seq<char>) -> Option<u8> {
    if d.len() != 3 {
        None
    } else if d[0] == '+' {
        match (octal_digit(d[1]), octal_digit(d[2])) {
            (Some(a), Some(b)) => Some((a * 8 + b) as u8),
            _ => None,
        }
    } else {
        match (octal_digit(d[0]), octal_digit(d[1]), octal_digit(d[2])) {
            (Some(a), Some(b), Some(c)) => if a * 64 + b * 8 + c <= 255 {
                Some((a * 64 + b * 8 + c) as u8)
            } else {
                None
            },
            _ => None,
        }
    }
}

/// A mount-table field with its octal escapes (`\040` for a space)
/// replaced, from position `i` on; a backslash that starts no escape stays.
pub open spec fn unescape_from(s: Seq<char>, i: int) -> Seq<char>
    decreases s.len() - i,
{
    if i < 0 || i >= s.len() {
        Seq::empty()
    } else if s[i] != '\\' {
        seq![s[i]] + unescape_from(s, i + 1)
    } else {
        let digits = s.subrange(i + 1, if i + 4 <= s.len() { i + 4 } else { s.len() as int });
        match octal_byte(digits) {
            Some(b) => seq![(b as u32) as char] + unescape_from(s, i + 4),
            None => seq!['\\'] + unescape_from(s, i + 1),
        }
    }
}

/// The mount one mountinfo line describes: the fields before ` - ` hold
/// the mount point (fifth) and its options (sixth); after it come the
/// filesystem type, the source (which must be a path) and the
/// filesystem's options. Either option list saying `ro` makes the mount
/// read-only.
pub open spec fn mount_of_line(line: Seq<char>) -> Option<(Seq<char>, Seq<char>, bool)> {
    match find_text(line, " - "@, 0) {
        None => None,
        Some(i) => {
            let head = line.subrange(0, i);
            let tail = line.subrange(i + 3, line.len() as int);
            match piece(tail, ' ', 1) {
                None => None,
                Some(source) => {
                    if !(source.len() > 0 && source[0] == '/') {
                        None
                    } else {
                        match piece(head, ' ', 4) {
                            None => None,
                            Some(target) => Some(
                                (
                                    unescape_from(source, 0),
                                    unescape_from(target, 0),
                                    read_only_option(piece(head, ' ', 5)) || read_only_option(piece(tail, ' ', 2)),
                                ),
                            ),
                        }
                    }
                },
            }
        },
    }
}

/// The mounts of the lines from `k` on.
pub open spec fn mounts_of_lines(ls: Seq<Seq<char>>, k: int) -> Seq<(Seq<char>, Seq<char>, bool)>
    decreases ls.len() - k,
{
    if k < 0 || k >= ls.len() {
        Seq::empty()
    } else {
        match mount_of_line(ls[k]) {
            Some(m) => seq![m] + mounts_of_lines(ls, k + 1),
            None => mounts_of_lines(ls, k + 1),
        }
    }
}

/// Whether `ms` are the mounts `expected` describes, in order.
pub open spec fn mounts_match(ms: Seq<MountPoint>, expected: Seq<(Seq<char>, Seq<char>, bool)>) -> bool {
    &&& ms.len() == expected.len()
    &&& forall|i: int| #![trigger ms[i]] 0 <= i < ms.len() ==> ms[i].source@ == expected[i].0 && ms[i].target@
        == expected[i].1 && ms[i].read_only == expected[i].2
}

/// A place `find_text` reports holds the pattern within the text.
proof fn lemma_find_text(s: Seq<char>, p: Seq<char>, from: int)
    ensures
        find_text(s, p, from) matches Some(i) ==> from <= i && i + p.len() <= s.len() && i >= 0,
    decreases s.len() + 1 - from,
{
    if from < 0 || from + p.len() > s.len() {
    } else if s.subrange(from, from + p.len()) == p {
    } else {
        lemma_find_text(s, p, from + 1);
    }
}

fn find_text_exec(s: &[char], p: &[char]) -> (r: Option<usize>)
    ensures
        match r {
            Some(i) => find_text(s@, p@, 0) == Some(i as int) && i + p@.len() <= s@.len(),
            None => find_text(s@, p@, 0) is None,
        },
{
    proof {
        lemma_find_text(s@, p@, 0);
    }
    let mut from: usize = 0;
    while from <= s.len() && p.len() <= s.len() - from
        invariant
            from <= s@.len() + 1,
            find_text(s@, p@, from as int) == find_text(s@, p@, 0),
        decreases s@.len() + 1 - from,
    {
        let mut k: usize = 0;
        let mut same = true;
        while k < p.len()
            invariant
                from + p@.len() <= s@.len(),
                s@.len() == s.len(),
                k <= p@.len(),
                same == (forall|j: int| 0 <= j < k ==> s@[from + j] == p@[j]),
            decreases p.len() - k,
        {
            if s[from + k] != p[k] {
                same = false;
            }
            k += 1;
        }
        proof {
            if same {
                assert(s@.subrange(from as int, from + p@.len()) =~= p@);
            } else {
                let j = choose|j: int| 0 <= j < p@.len() && s@[from + j] != p@[j];
                assert(s@.subrange(from as int, from + p@.len())[j] != p@[j]);
            }
        }
        if same {
            return Some(from);
        }
        from += 1;
    }
    None
}

fn piece_exec(s: &[char], sep: char, k: usize) -> (r: Option<Vec<char>>)
    ensures
        match piece(s@, sep, k as nat) {
            Some(t) => r matches Some(v) && v@ == t,
            None => r is None,
        },
    decreases k,
{
    match crate::text::index_of(s, sep) {
        Some(i) => {
            if k == 0 {
                Some(sub_chars(s, 0, i))
            } else {
                let rest = sub_chars(s, i + 1, s.len());
                piece_exec(&rest, sep, k - 1)
            }
        },
        None => {
            if k == 0 {
                let v = sub_chars(s, 0, s.len());
                assert(v@ =~= s@);
                Some(v)
            } else {
                None
            }
        },
    }
}

fn lists_ro_exec(list: &[char]) -> (r: bool)
    ensures
        r == lists_ro(list@),
    decreases list@.len(),
{
    match crate::text::index_of(list, ',') {
        Some(i) => {
            let head_is_ro = i == 2 && list[0] == 'r' && list[1] == 'o';
            let ghost h = list@.subrange(0, i as int);
            proof {
                if head_is_ro {
                    assert(h =~= seq!['r', 'o']);
                } else if h == seq!['r', 'o'] {
                    assert(h.len() == 2);
                    assert(h[0] == list@[0] && h[1] == list@[1]);
                }
            }
            if head_is_ro {
                return true;
            }
            let rest = sub_chars(list, i + 1, list.len());
            let r = lists_ro_exec(&rest);
            assert(lists_ro(list@) == (h == seq!['r', 'o'] || lists_ro(rest@)));
            r
        },
        None => {
            let is_ro = list.len() == 2 && list[0] == 'r' && list[1] == 'o';
            proof {
                if is_ro {
                    assert(list@ =~= seq!['r', 'o']);
                } else if list@ == seq!['r', 'o'] {
                    assert(list@[0] == 'r' && list@[1] == 'o');
                }
            }
            is_ro
        },
    }
}

fn read_only_option_exec(options: &Option<Vec<char>>) -> (r: bool)
    ensures
        r == read_only_option(match options {
            Some(v) => Some(v@),
            None => None,
        }),
{
    match options {
        Some(l) => lists_ro_exec(l),
        None => false,
    }
}

fn octal_digit_exec(c: char) -> (r: Option<u32>)
    ensures
        match octal_digit(c) {
            Some(v) => r == Some(v as u32) && v < 8,
            None => r is None,
        },
{
    if c >= '0' && c <= '7' {
        Some((c as u32) - ('0' as u32))
    } else {
        None
    }
}

fn octal_byte_exec(d: &[char]) -> (r: Option<u8>)
    ensures
        r == octal_byte(d@),
{
    if d.len() != 3 {
        return None;
    }
    if d[0] == '+' {
        match (octal_digit_exec(d[1]), octal_digit_exec(d[2])) {
            (Some(a), Some(b)) => Some((a * 8 + b) as u8),
            _ => None,
        }
    } else {
        match (octal_digit_exec(d[0]), octal_digit_exec(d[1]), octal_digit_exec(d[2])) {
            (Some(a), Some(b), Some(c)) => {
                let v = a * 64 + b * 8 + c;
                if v <= 255 {
                    Some(v as u8)
                } else {
                    None
                }
            },
            _ => None,
        }
    }
}

/// `char::from` a byte: the character of that code point. Claimed as
/// documented: its code is the byte's value.
#[verifier::external_body]
fn byte_char(b: u8) -> (r: char)
    ensures
        r == (b as u32) as char,
{
    char::from(b)
}

fn unescape(s: &[char]) -> (r: Vec<char>)
    ensures
        r@ == unescape_from(s@, 0),
{
    let mut out: Vec<char> = Vec::new();
    let mut i: usize = 0;
    while i < s.len()
        invariant
            i <= s@.len() + 3,
            out@ + unescape_from(s@, i as int) == unescape_from(s@, 0),
        decreases s@.len() - i,
    {
        let ghost before = out@;
        if s[i] != '\\' {
            out.push(s[i]);
            assert(out@ + unescape_from(s@, i + 1) =~= before + unescape_from(s@, i as int));
            i += 1;
        } else {
            let end = if s.len() - i >= 4 { i + 4 } else { s.len() };
            let digits = sub_chars(s, i + 1, end);
            match octal_byte_exec(&digits) {
                Some(b) => {
                    out.push(byte_char(b));
                    assert(out@ + unescape_from(s@, i + 4) =~= before + unescape_from(s@, i as int));
                    i += 4;
                },
                None => {
                    out.push('\\');
                    assert(out@ + unescape_from(s@, i + 1) =~= before + unescape_from(s@, i as int));
                    i += 1;
                },
            }
        }
    }
    assert(out@ =~= out@ + unescape_from(s@, i as int));
    out
}

fn mount_of_line_exec(line: &[char]) -> (r: Option<MountPoint>)
    ensures
        match mount_of_line(line@) {
            Some(m) => r matches Some(mp) && mp.source@ == m.0 && mp.target@ == m.1 && mp.read_only == m.2,
            None => r is None,
        },
{
    let sep = chars_of(" - ");
    proof {
        reveal_strlit(" - ");
    }
    assert(sep@.len() == 3);
    let i = match find_text_exec(line, &sep) {
        Some(i) => i,
        None => return None,
    };
    let n = line.len();
    let head = sub_chars(line, 0, i);
    let tail = sub_chars(line, i + 3, n);
    let source = match piece_exec(&tail, ' ', 1) {
        Some(s) => s,
        None => return None,
    };
    if !(source.len() > 0 && source[0] == '/') {
        return None;
    }
    let target = match piece_exec(&head, ' ', 4) {
        Some(t) => t,
        None => return None,
    };
    let options = piece_exec(&head, ' ', 5);
    let super_options = piece_exec(&tail, ' ', 2);
    let read_only = read_only_option_exec(&options) || read_only_option_exec(&super_options);
    let src = unescape(&source);
    let tgt = unescape(&target);
    Some(MountPoint { source: string_of(&src), target: string_of(&tgt), read_only })
}

/// The mounts of a Linux `mountinfo` text whose source is a path; lines
/// without the ` - ` separator, or too short, are skipped
/// ([`mount_of_line`]).
pub fn parse_linux_mountinfo(text: &str) -> (r: Vec<MountPoint>)
    ensures
        mounts_match(r@, mounts_of_lines(lines_from(text@, 0), 0)),
{
    let t = chars_of(text);
    let ghost ls = lines_from(t@, 0);
    let mut mounts: Vec<MountPoint> = Vec::new();
    let mut pos: usize = 0;
    let ghost mut k: int = 0;
    while pos < t.len()
        invariant
            pos <= t@.len(),
            0 <= k,
            ls == lines_from(t@, 0),
            ls.subrange(k, ls.len() as int) == lines_from(t@, pos as int),
            k <= ls.len(),
            ({
                let done = mounts_of_lines(ls.subrange(0, k), 0);
                mounts_match(mounts@, done)
            }),
        decreases t@.len() - pos,
    {
        proof {
            lemma_index_from(t@, '\n', pos as int);
        }
        let (line, next) = match crate::text::index_of_from(&t, '\n', pos) {
            Some(i) => {
                let raw = sub_chars(&t, pos, i);
                let line = if raw.len() > 0 && raw[raw.len() - 1] == '\r' {
                    sub_chars(&raw, 0, raw.len() - 1)
                } else {
                    raw
                };
                (line, i + 1)
            },
            None => (sub_chars(&t, pos, t.len()), t.len()),
        };
        proof {
            assert(lines_from(t@, pos as int) == seq![line@] + lines_from(t@, next as int));
            lemma_mounts_of_lines_split(ls, k);
        }
        match mount_of_line_exec(&line) {
            Some(m) => mounts.push(m),
            None => {},
        }
        proof {
            assert(ls[k] == line@) by {
                assert(ls.subrange(k, ls.len() as int)[0] == ls[k]);
            }
            assert(ls.subrange(k + 1, ls.len() as int) =~= ls.subrange(k, ls.len() as int).drop_first());
            k = k + 1;
        }
        pos = next;
    }
    proof {
        assert(ls.subrange(k, ls.len() as int).len() == 0);
        assert(ls.subrange(0, k) =~= ls);
    }
    mounts
}

/// The mounts of `ls` up to `k + 1` are those up to `k`, then line `k`'s.
proof fn lemma_mounts_of_lines_split(ls: Seq<Seq<char>>, k: int)
    requires
        0 <= k < ls.len(),
    ensures
        mounts_of_lines(ls.subrange(0, k + 1), 0) == mounts_of_lines(ls.subrange(0, k), 0) + (match mount_of_line(
            ls[k],
        ) {
            Some(m) => seq![m],
            None => Seq::empty(),
        }),
    decreases k,
{
    let a = ls.subrange(0, k + 1);
    let b = ls.subrange(0, k);
    if k == 0 {
        assert(mounts_of_lines(b, 0) == Seq::<(Seq<char>, Seq<char>, bool)>::empty());
        assert(mounts_of_lines(a, 1) == Seq::<(Seq<char>, Seq<char>, bool)>::empty());
        assert(a[0] == ls[0]);
        assert(mounts_of_lines(a, 0) =~= (match mount_of_line(ls[0]) {
            Some(m) => seq![m],
            None => Seq::empty(),
        }));
    } else {
        lemma_mounts_of_lines_tail(a, 1);
        lemma_mounts_of_lines_tail(b, 1);
        lemma_mounts_of_lines_split(ls.subrange(1, ls.len() as int), k - 1);
        assert(a.subrange(1, a.len() as int) =~= ls.subrange(1, ls.len() as int).subrange(0, k));
        assert(b.subrange(1, b.len() as int) =~= ls.subrange(1, ls.len() as int).subrange(0, k - 1));
        assert(a[0] == ls[0] && b[0] == ls[0]);
        assert(ls.subrange(1, ls.len() as int)[k - 1] == ls[k]);
        let tail_k = match mount_of_line(ls[k]) {
            Some(m) => seq![m],
            None => Seq::<(Seq<char>, Seq<char>, bool)>::empty(),
        };
        let first = match mount_of_line(ls[0]) {
            Some(m) => seq![m],
            None => Seq::<(Seq<char>, Seq<char>, bool)>::empty(),
        };
        assert(mounts_of_lines(a, 0) == first + mounts_of_lines(a, 1));
        assert(mounts_of_lines(b, 0) == first + mounts_of_lines(b, 1));
        assert(mounts_of_lines(a, 0) =~= mounts_of_lines(b, 0) + tail_k);
    }
}

/// The mounts of `ls` from `k` on are those of the lines from `k` on.
proof fn lemma_mounts_of_lines_tail(ls: Seq<Seq<char>>, k: int)
    requires
        0 <= k <= ls.len(),
    ensures
        mounts_of_lines(ls, k) == mounts_of_lines(ls.subrange(k, ls.len() as int), 0),
    decreases ls.len() - k,
{
    let t = ls.subrange(k, ls.len() as int);
    if k < ls.len() {
        lemma_mounts_of_lines_tail(ls, k + 1);
        lemma_mounts_of_lines_tail(t, 1);
        assert(t.subrange(1, t.len() as int) =~= ls.subrange(k + 1, ls.len() as int));
        assert(t[0] == ls[k]);
    }
}

/// The mounts of `ms` that `keep` marks, in order.
pub open spec fn select(ms: Seq<MountPoint>, keep: Seq<bool>) -> Seq<MountPoint>
    decreases ms.len(),
{
    if ms.len() == 0 || keep.len() != ms.len() {
        Seq::empty()
    } else {
        let p = select(ms.drop_last(), keep.drop_last());
        if keep.last() {
            p.push(ms.last())
        } else {
            p
        }
    }
}

/// Whether `k` is the right mark for mount `m` of `device`: a mount of the
/// device itself is kept; any other is kept when `whole_disk_of` answered
/// its source with the device.
pub open spec fn marked_right<F: Fn(&str) -> Option<String>>(device: Seq<char>, m: MountPoint, whole_disk_of: F, k: bool) -> bool {
    if m.source@ == device {
        k
    } else {
        exists|arg: &str, d: Option<String>|
            arg@ == m.source@ && #[trigger] whole_disk_of.ensures((arg,), d) && k == (d matches Some(x) && x@
                == device)
    }
}

/// Whether `keep` marks exactly the mounts of `device` in `ms`.
pub open spec fn marks_mounts_of<F: Fn(&str) -> Option<String>>(
    device: Seq<char>,
    ms: Seq<MountPoint>,
    whole_disk_of: F,
    keep: Seq<bool>,
) -> bool {
    &&& keep.len() == ms.len()
    &&& forall|i: int| 0 <= i < ms.len() ==> #[trigger] marked_right(device, ms[i], whole_disk_of, keep[i])
}

/// The mounts of `device`: those on it, and those on a partition that
/// `whole_disk_of` says belongs to it. `whole_disk_of` is asked only about
/// mounts whose source is not the device itself.
pub fn mounts_of<F: Fn(&str) -> Option<String>>(device: &str, mounts: &[MountPoint], whole_disk_of: F) -> (r: Vec<
    MountPoint,
>)
    requires
        forall|s: &str| #[trigger] whole_disk_of.requires((s,)),
    ensures
        exists|keep: Seq<bool>| marks_mounts_of(device@, mounts@, whole_disk_of, keep) && r@ == select(mounts@, keep),
{
    let mut out: Vec<MountPoint> = Vec::new();
    let ghost mut keep: Seq<bool> = Seq::empty();
    let mut i: usize = 0;
    while i < mounts.len()
        invariant
            i <= mounts@.len(),
            forall|s: &str| #[trigger] whole_disk_of.requires((s,)),
            marks_mounts_of(device@, mounts@.subrange(0, i as int), whole_disk_of, keep),
            out@ == select(mounts@.subrange(0, i as int), keep),
        decreases mounts.len() - i,
    {
        let m = &mounts[i];
        let source = m.source.as_str();
        let same = text_eq(source, device);
        let mut k = true;
        let ghost mut answer: Option<String> = None;
        if !same {
            let ans = whole_disk_of(source);
            k = match &ans {
                Some(d) => text_eq(d.as_str(), device),
                None => false,
            };
            proof {
                answer = ans;
            }
        }
        let ghost old_keep = keep;
        if k {
            out.push(m.duplicate());
        }
        proof {
            keep = keep.push(k);
            let pre = mounts@.subrange(0, i + 1);
            assert(pre.drop_last() =~= mounts@.subrange(0, i as int));
            assert(keep.drop_last() =~= old_keep);
            assert(pre.last() == mounts@[i as int]);
            if !same {
                assert(whole_disk_of.ensures((source,), answer));
            }
            assert(marked_right(device@, mounts@[i as int], whole_disk_of, k));
            assert forall|j: int| 0 <= j < pre.len() implies #[trigger] marked_right(device@, pre[j], whole_disk_of, keep[j]) by {
                if j < i {
                    assert(pre[j] == mounts@.subrange(0, i as int)[j]);
                    assert(keep[j] == old_keep[j]);
                }
            }
            assert(keep.len() == pre.len());
            assert(marks_mounts_of(device@, pre, whole_disk_of, keep));
        }
        i += 1;
    }
    assert(mounts@.subrange(0, mounts@.len() as int) =~= mounts@);
    out
}

} // verus!
