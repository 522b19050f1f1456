//! Text helpers: decimal numbers and string comparison.

use vstd::prelude::*;
use vstd::string::{StrSliceExecFns, StringExecFns};

verus! {

/// The character of a decimal digit.
pub open spec fn digit_char(d: nat) -> char {
    if d == 0 {
        '0'
    } else if d == 1 {
        '1'
    } else if d == 2 {
        '2'
    } else if d == 3 {
        '3'
    } else if d == 4 {
        '4'
    } else if d == 5 {
        '5'
    } else if d == 6 {
        '6'
    } else if d == 7 {
        '7'
    } else if d == 8 {
        '8'
    } else {
        '9'
    }
}

/// `n` written in decimal, without leading zeros.
pub open spec fn decimal_spec(n: nat) -> Seq<char>
    decreases n,
{
    if n < 10 {
        seq![digit_char(n)]
    } else {
        decimal_spec(n / 10).push(digit_char(n % 10))
    }
}

/// The one-character text of digit `d`.
fn digit_str(d: u64) -> (r: &'static str)
    requires
        d < 10,
    ensures
        r@ == seq![digit_char(d as nat)],
{
    proof {
        reveal_strlit("0");
        reveal_strlit("1");
        reveal_strlit("2");
        reveal_strlit("3");
        reveal_strlit("4");
        reveal_strlit("5");
        reveal_strlit("6");
        reveal_strlit("7");
        reveal_strlit("8");
        reveal_strlit("9");
    }
    if d == 0 {
        "0"
    } else if d == 1 {
        "1"
    } else if d == 2 {
        "2"
    } else if d == 3 {
        "3"
    } else if d == 4 {
        "4"
    } else if d == 5 {
        "5"
    } else if d == 6 {
        "6"
    } else if d == 7 {
        "7"
    } else if d == 8 {
        "8"
    } else {
        "9"
    }
}

/// `n` in decimal ([`decimal_spec`]).
pub fn decimal(n: u64) -> (r: String)
    ensures
        r@ == decimal_spec(n as nat),
    decreases n,
{
    if n < 10 {
        String::from_str(digit_str(n))
    } else {
        let mut s = decimal(n / 10);
        s.append(digit_str(n % 10));
        s
    }
}

/// Whether two texts are the same.
pub fn text_eq(a: &str, b: &str) -> (r: bool)
    ensures
        r == (a@ == b@),
{
    let x = String::from_str(a);
    let y = String::from_str(b);
    x == y
}

/// The lower-case character of a hexadecimal digit.
pub open spec fn hex_char(d: nat) -> char {
    if d < 10 {
        digit_char(d)
    } else if d == 10 {
        'a'
    } else if d == 11 {
        'b'
    } else if d == 12 {
        'c'
    } else if d == 13 {
        'd'
    } else if d == 14 {
        'e'
    } else {
        'f'
    }
}

/// The bytes in lower-case hexadecimal, two digits each.
pub open spec fn hex_spec(bytes: Seq<u8>) -> Seq<char>
    decreases bytes.len(),
{
    if bytes.len() == 0 {
        Seq::empty()
    } else {
        hex_spec(bytes.drop_last()) + seq![hex_char((bytes.last() / 16) as nat), hex_char((bytes.last() % 16) as nat)]
    }
}

/// The one-character text of hex digit `d`.
fn hex_digit_str(d: u8) -> (r: &'static str)
    requires
        d < 16,
    ensures
        r@ == seq![hex_char(d as nat)],
{
    if d < 10 {
        return digit_str(d as u64);
    }
    proof {
        reveal_strlit("a");
        reveal_strlit("b");
        reveal_strlit("c");
        reveal_strlit("d");
        reveal_strlit("e");
        reveal_strlit("f");
    }
    if d == 10 {
        "a"
    } else if d == 11 {
        "b"
    } else if d == 12 {
        "c"
    } else if d == 13 {
        "d"
    } else if d == 14 {
        "e"
    } else {
        "f"
    }
}

/// `bytes` in lower-case hexadecimal ([`hex_spec`]).
pub fn hex(bytes: &[u8]) -> (r: String)
    ensures
        r@ == hex_spec(bytes@),
{
    let mut s = String::new();
    let mut i: usize = 0;
    while i < bytes.len()
        invariant
            i <= bytes@.len(),
            s@ == hex_spec(bytes@.subrange(0, i as int)),
        decreases bytes.len() - i,
    {
        let b = bytes[i];
        s.append(hex_digit_str(b / 16));
        s.append(hex_digit_str(b % 16));
        proof {
            let pre = bytes@.subrange(0, i + 1);
            assert(pre.drop_last() =~= bytes@.subrange(0, i as int));
            assert(pre.last() == b);
        }
        i += 1;
    }
    assert(bytes@.subrange(0, bytes@.len() as int) =~= bytes@);
    s
}

/// Whether `c` is an ASCII digit.
pub open spec fn is_digit(c: char) -> bool {
    '0' <= c <= '9'
}

/// Whether `c` is an ASCII letter.
pub open spec fn is_alpha(c: char) -> bool {
    ('a' <= c <= 'z') || ('A' <= c <= 'Z')
}

/// `c` with an ASCII capital turned lower-case.
pub open spec fn ascii_lower(c: char) -> char {
    if 'A' <= c <= 'Z' {
        ((c as u32) + 32) as char
    } else {
        c
    }
}

/// `s` with every ASCII capital turned lower-case.
pub open spec fn lower_seq(s: Seq<char>) -> Seq<char> {
    s.map_values(|c: char| ascii_lower(c))
}

/// What is left of `s` after the prefix `p`, if `s` starts with it.
pub open spec fn strip(s: Seq<char>, p: Seq<char>) -> Option<Seq<char>> {
    if p.len() <= s.len() && s.subrange(0, p.len() as int) == p {
        Some(s.subrange(p.len() as int, s.len() as int))
    } else {
        None
    }
}

/// The first index of `c` in `s` from `from` on.
pub open spec fn index_from(s: Seq<char>, c: char, from: int) -> Option<int>
    decreases s.len() - from,
{
    if from < 0 || from >= s.len() {
        None
    } else if s[from] == c {
        Some(from)
    } else {
        index_from(s, c, from + 1)
    }
}

/// The last index of `c` in `s` before `upto`.
pub open spec fn last_index_before(s: Seq<char>, c: char, upto: int) -> Option<int>
    decreases upto,
{
    if upto <= 0 || upto > s.len() {
        None
    } else if s[upto - 1] == c {
        Some(upto - 1)
    } else {
        last_index_before(s, c, upto - 1)
    }
}

/// The parts of `s` before and after its first `c`.
pub open spec fn split_once(s: Seq<char>, c: char) -> Option<(Seq<char>, Seq<char>)> {
    match index_from(s, c, 0) {
        Some(i) => Some((s.subrange(0, i), s.subrange(i + 1, s.len() as int))),
        None => None,
    }
}

/// The parts of `s` before and after its last `c`.
pub open spec fn rsplit_once(s: Seq<char>, c: char) -> Option<(Seq<char>, Seq<char>)> {
    match last_index_before(s, c, s.len() as int) {
        Some(i) => Some((s.subrange(0, i), s.subrange(i + 1, s.len() as int))),
        None => None,
    }
}

/// Whether every character of `s` is an ASCII digit.
pub open spec fn all_digits(s: Seq<char>) -> bool {
    forall|i: int| 0 <= i < s.len() ==> is_digit(#[trigger] s[i])
}

/// Whether some character of `s` is an ASCII letter.
pub open spec fn any_alpha(s: Seq<char>) -> bool {
    exists|i: int| 0 <= i < s.len() && is_alpha(#[trigger] s[i])
}

/// How many ASCII digits `s` ends with.
pub open spec fn trailing_digits(s: Seq<char>) -> nat
    decreases s.len(),
{
    if s.len() == 0 || !is_digit(s.last()) {
        0
    } else {
        1 + trailing_digits(s.drop_last())
    }
}

/// The number the decimal digits `s` spell.
pub open spec fn digits_value(s: Seq<char>) -> nat
    decreases s.len(),
{
    if s.len() == 0 {
        0
    } else {
        digits_value(s.drop_last()) * 10 + ((s.last() as u32) - ('0' as u32)) as nat
    }
}

/// What `str::parse::<u32>` gives: an optional `+`, then at least one
/// digit and nothing else, spelling a number that fits.
pub open spec fn u32_text(s: Seq<char>) -> Option<u32> {
    let d = if s.len() > 0 && s[0] == '+' { s.drop_first() } else { s };
    if d.len() == 0 || !all_digits(d) || digits_value(d) > u32::MAX {
        None
    } else {
        Some(digits_value(d) as u32)
    }
}

/// The characters of `s`.
pub fn chars_of(s: &str) -> (r: Vec<char>)
    ensures
        r@ == s@,
{
    let n = s.unicode_len();
    let mut out: Vec<char> = Vec::new();
    let mut i: usize = 0;
    while i < n
        invariant
            n == s@.len(),
            i <= n,
            out@ == s@.subrange(0, i as int),
        decreases n - i,
    {
        out.push(s.get_char(i));
        i += 1;
        assert(out@ =~= s@.subrange(0, i as int));
    }
    assert(s@.subrange(0, n as int) =~= s@);
    out
}

/// `String::push`: `c` appended. Claimed as documented: the text grows by
/// that one character.
#[verifier::external_body]
fn push_char(s: &mut String, c: char)
    ensures
        final(s)@ == old(s)@.push(c),
{
    s.push(c);
}

/// The text of the characters `cs`.
pub fn string_of(cs: &[char]) -> (r: String)
    ensures
        r@ == cs@,
{
    let mut s = String::new();
    let mut i: usize = 0;
    while i < cs.len()
        invariant
            i <= cs@.len(),
            s@ == cs@.subrange(0, i as int),
        decreases cs.len() - i,
    {
        push_char(&mut s, cs[i]);
        i += 1;
        assert(s@ =~= cs@.subrange(0, i as int));
    }
    assert(cs@.subrange(0, cs@.len() as int) =~= cs@);
    s
}

/// The characters of `s` from `a` to `b`.
pub fn sub_chars(s: &[char], a: usize, b: usize) -> (r: Vec<char>)
    requires
        a <= b <= s@.len(),
    ensures
        r@ == s@.subrange(a as int, b as int),
{
    let mut out: Vec<char> = Vec::new();
    let mut i: usize = a;
    while i < b
        invariant
            a <= i <= b,
            b <= s@.len(),
            out@ == s@.subrange(a as int, i as int),
        decreases b - i,
    {
        out.push(s[i]);
        i += 1;
        assert(out@ =~= s@.subrange(a as int, i as int));
    }
    out
}

/// `a` followed by `b`.
pub fn join_chars(a: &[char], b: &[char]) -> (r: Vec<char>)
    ensures
        r@ == a@ + b@,
{
    let mut out = sub_chars(a, 0, a.len());
    let mut i: usize = 0;
    while i < b.len()
        invariant
            i <= b@.len(),
            out@ == a@ + b@.subrange(0, i as int),
        decreases b.len() - i,
    {
        out.push(b[i]);
        i += 1;
        assert(out@ =~= a@ + b@.subrange(0, i as int));
    }
    assert(b@.subrange(0, b@.len() as int) =~= b@);
    assert(a@.subrange(0, a@.len() as int) =~= a@);
    out
}

/// Whether `s` starts with `p`.
pub fn starts_with(s: &[char], p: &[char]) -> (r: bool)
    ensures
        r == (strip(s@, p@) is Some),
{
    if p.len() > s.len() {
        return false;
    }
    let mut i: usize = 0;
    while i < p.len()
        invariant
            p@.len() <= s@.len(),
            i <= p@.len(),
            forall|k: int| 0 <= k < i ==> s@[k] == p@[k],
        decreases p.len() - i,
    {
        if s[i] != p[i] {
            assert(s@.subrange(0, p@.len() as int)[i as int] != p@[i as int]);
            return false;
        }
        i += 1;
    }
    assert(s@.subrange(0, p@.len() as int) =~= p@);
    true
}

/// What is left of `s` after the prefix `p` ([`strip`]).
pub fn strip_prefix(s: &[char], p: &[char]) -> (r: Option<Vec<char>>)
    ensures
        match strip(s@, p@) {
            Some(t) => r matches Some(v) && v@ == t,
            None => r is None,
        },
{
    if starts_with(s, p) {
        Some(sub_chars(s, p.len(), s.len()))
    } else {
        None
    }
}

/// Where `index_from` finds `c`, it is there, at or after `from`, and
/// nowhere between.
pub proof fn lemma_index_from(s: Seq<char>, c: char, from: int)
    ensures
        index_from(s, c, from) matches Some(i) ==> from <= i < s.len() && s[i] == c && forall|k: int|
            from <= k < i ==> s[k] != c,
        index_from(s, c, from) is None && from >= 0 ==> forall|k: int| from <= k < s.len() ==> s[k] != c,
    decreases s.len() - from,
{
    if from < 0 || from >= s.len() {
    } else if s[from] == c {
    } else {
        lemma_index_from(s, c, from + 1);
    }
}

/// Where `last_index_before` finds `c`, it is there, before `upto`, and
/// nowhere after it up to `upto`.
pub proof fn lemma_last_index(s: Seq<char>, c: char, upto: int)
    ensures
        last_index_before(s, c, upto) matches Some(i) ==> 0 <= i < upto <= s.len() && s[i] == c && forall|k: int|
            i < k < upto ==> s[k] != c,
        last_index_before(s, c, upto) is None && upto <= s.len() ==> forall|k: int| 0 <= k < upto ==> s[k] != c,
    decreases upto,
{
    if upto <= 0 || upto > s.len() {
    } else if s[upto - 1] == c {
    } else {
        lemma_last_index(s, c, upto - 1);
    }
}

/// The first index of `c` in `s` ([`index_from`] from 0).
pub fn index_of(s: &[char], c: char) -> (r: Option<usize>)
    ensures
        match r {
            Some(i) => index_from(s@, c, 0) == Some(i as int) && i < s.len() && i < s@.len() && s@[i as int] == c,
            None => index_from(s@, c, 0) is None,
        },
{
    proof {
        lemma_index_from(s@, c, 0);
    }
    let mut i: usize = 0;
    while i < s.len()
        invariant
            i <= s@.len(),
            index_from(s@, c, i as int) == index_from(s@, c, 0),
        decreases s.len() - i,
    {
        if s[i] == c {
            return Some(i);
        }
        i += 1;
    }
    None
}

/// The first index of `c` in `s` at or after `from` ([`index_from`]).
pub fn index_of_from(s: &[char], c: char, from: usize) -> (r: Option<usize>)
    ensures
        match r {
            Some(i) => index_from(s@, c, from as int) == Some(i as int) && from <= i < s.len() && i < s@.len()
                && s@[i as int] == c,
            None => index_from(s@, c, from as int) is None,
        },
{
    proof {
        lemma_index_from(s@, c, from as int);
    }
    let mut i: usize = from;
    while i < s.len()
        invariant
            from <= i,
            i <= s@.len() || i == from,
            index_from(s@, c, i as int) == index_from(s@, c, from as int),
        decreases s@.len() - i,
    {
        if s[i] == c {
            return Some(i);
        }
        i += 1;
    }
    None
}

/// The last index of `c` in `s` ([`last_index_before`] the end).
pub fn last_index_of(s: &[char], c: char) -> (r: Option<usize>)
    ensures
        match r {
            Some(i) => last_index_before(s@, c, s@.len() as int) == Some(i as int) && i < s.len() && i < s@.len()
                && s@[i as int] == c,
            None => last_index_before(s@, c, s@.len() as int) is None,
        },
{
    proof {
        lemma_last_index(s@, c, s@.len() as int);
    }
    let mut i: usize = s.len();
    while i > 0
        invariant
            i <= s@.len(),
            last_index_before(s@, c, i as int) == last_index_before(s@, c, s@.len() as int),
        decreases i,
    {
        if s[i - 1] == c {
            return Some(i - 1);
        }
        i -= 1;
    }
    None
}

/// Whether every character is an ASCII digit.
pub fn all_digits_exec(s: &[char]) -> (r: bool)
    ensures
        r == all_digits(s@),
{
    let mut i: usize = 0;
    while i < s.len()
        invariant
            i <= s@.len(),
            forall|k: int| 0 <= k < i ==> is_digit(#[trigger] s@[k]),
        decreases s.len() - i,
    {
        if !(s[i] >= '0' && s[i] <= '9') {
            assert(!is_digit(s@[i as int]));
            return false;
        }
        i += 1;
    }
    true
}

/// Whether some character is an ASCII letter.
pub fn any_alpha_exec(s: &[char]) -> (r: bool)
    ensures
        r == any_alpha(s@),
{
    let mut i: usize = 0;
    while i < s.len()
        invariant
            i <= s@.len(),
            forall|k: int| 0 <= k < i ==> !is_alpha(#[trigger] s@[k]),
        decreases s.len() - i,
    {
        let c = s[i];
        if (c >= 'a' && c <= 'z') || (c >= 'A' && c <= 'Z') {
            assert(is_alpha(s@[i as int]));
            return true;
        }
        i += 1;
    }
    false
}

/// How many ASCII digits `s` ends with.
pub fn count_trailing_digits(s: &[char]) -> (r: usize)
    ensures
        r == trailing_digits(s@),
        r <= s@.len(),
{
    let mut n: usize = 0;
    assert(s@.subrange(0, s@.len() as int) =~= s@);
    while n < s.len() && s[s.len() - 1 - n] >= '0' && s[s.len() - 1 - n] <= '9'
        invariant
            n <= s@.len(),
            trailing_digits(s@) == n + trailing_digits(s@.subrange(0, s@.len() - n)),
        decreases s.len() - n,
    {
        let ghost t = s@.subrange(0, s@.len() - n);
        assert(t.drop_last() =~= s@.subrange(0, s@.len() - n - 1));
        n += 1;
    }
    proof {
        let t = s@.subrange(0, s@.len() - n);
        if t.len() > 0 {
            assert(t.last() == s@[s@.len() - 1 - n]);
        }
    }
    n
}

/// `s` with ASCII capitals turned lower-case.
pub fn lower_chars(s: &[char]) -> (r: Vec<char>)
    ensures
        r@ == lower_seq(s@),
{
    let mut out: Vec<char> = Vec::new();
    let mut i: usize = 0;
    while i < s.len()
        invariant
            i <= s@.len(),
            out@ == lower_seq(s@.subrange(0, i as int)),
        decreases s.len() - i,
    {
        let c = s[i];
        let l = if c >= 'A' && c <= 'Z' {
            ((c as u8) + 32) as char
        } else {
            c
        };
        out.push(l);
        i += 1;
        assert(out@ =~= lower_seq(s@.subrange(0, i as int)));
    }
    assert(s@.subrange(0, s@.len() as int) =~= s@);
    out
}

/// The number `s` spells, as `str::parse::<u32>` reads it ([`u32_text`]).
pub fn parse_u32(s: &[char]) -> (r: Option<u32>)
    ensures
        r == u32_text(s@),
{
    let start: usize = if s.len() > 0 && s[0] == '+' { 1 } else { 0 };
    let ghost d = if s@.len() > 0 && s@[0] == '+' { s@.drop_first() } else { s@ };
    assert(d =~= s@.subrange(start as int, s@.len() as int));
    if start >= s.len() {
        return None;
    }
    let mut value: u64 = 0;
    let mut i: usize = start;
    while i < s.len()
        invariant
            start <= i <= s@.len(),
            d == s@.subrange(start as int, s@.len() as int),
            d == (if s@.len() > 0 && s@[0] == '+' { s@.drop_first() } else { s@ }),
            all_digits(s@.subrange(start as int, i as int)),
            value == digits_value(s@.subrange(start as int, i as int)),
            value <= u32::MAX,
        decreases s.len() - i,
    {
        let c = s[i];
        if !(c >= '0' && c <= '9') {
            proof {
                assert(d[i - start] == c);
                assert(!is_digit(d[i - start]));
            }
            return None;
        }
        let ghost pre = s@.subrange(start as int, i + 1);
        assert(pre.drop_last() =~= s@.subrange(start as int, i as int));
        assert(pre.last() == c);
        assert(digits_value(pre) == digits_value(pre.drop_last()) * 10 + ((c as u32) - ('0' as u32)) as nat);
        value = value * 10 + ((c as u32) - ('0' as u32)) as u64;
        if value > 4294967295 {
            proof {
                if all_digits(d) {
                    lemma_digits_value_prefix(d, (i + 1 - start) as int);
                    assert(d.subrange(0, i + 1 - start) =~= pre);
                }
            }
            return None;
        }
        i += 1;
    }
    assert(s@.subrange(start as int, i as int) =~= d);
    Some(value as u32)
}

/// What `str::parse::<u64>` gives: an optional `+`, then at least one
/// digit and nothing else, spelling a number that fits.
pub open spec fn u64_text(s: Seq<char>) -> Option<u64> {
    let d = if s.len() > 0 && s[0] == '+' { s.drop_first() } else { s };
    if d.len() == 0 || !all_digits(d) || digits_value(d) > u64::MAX {
        None
    } else {
        Some(digits_value(d) as u64)
    }
}

/// The number `s` spells, as `str::parse::<u64>` reads it ([`u64_text`]).
pub fn parse_u64(s: &[char]) -> (r: Option<u64>)
    ensures
        r == u64_text(s@),
{
    let start: usize = if s.len() > 0 && s[0] == '+' { 1 } else { 0 };
    let ghost d = if s@.len() > 0 && s@[0] == '+' { s@.drop_first() } else { s@ };
    assert(d =~= s@.subrange(start as int, s@.len() as int));
    if start >= s.len() {
        return None;
    }
    let mut value: u128 = 0;
    let mut i: usize = start;
    while i < s.len()
        invariant
            start <= i <= s@.len(),
            d == s@.subrange(start as int, s@.len() as int),
            d == (if s@.len() > 0 && s@[0] == '+' { s@.drop_first() } else { s@ }),
            all_digits(s@.subrange(start as int, i as int)),
            value == digits_value(s@.subrange(start as int, i as int)),
            value <= u64::MAX,
        decreases s.len() - i,
    {
        let c = s[i];
        if !(c >= '0' && c <= '9') {
            proof {
                assert(d[i - start] == c);
                assert(!is_digit(d[i - start]));
            }
            return None;
        }
        let ghost pre = s@.subrange(start as int, i + 1);
        assert(pre.drop_last() =~= s@.subrange(start as int, i as int));
        assert(pre.last() == c);
        assert(digits_value(pre) == digits_value(pre.drop_last()) * 10 + ((c as u32) - ('0' as u32)) as nat);
        value = value * 10 + ((c as u32) - ('0' as u32)) as u128;
        if value > 18446744073709551615 {
            proof {
                if all_digits(d) {
                    lemma_digits_value_prefix(d, (i + 1 - start) as int);
                    assert(d.subrange(0, i + 1 - start) =~= pre);
                }
            }
            return None;
        }
        i += 1;
    }
    assert(s@.subrange(start as int, i as int) =~= d);
    Some(value as u64)
}

/// A prefix of a digit string never spells more than the whole.
pub proof fn lemma_digits_value_prefix(s: Seq<char>, k: int)
    requires
        0 <= k <= s.len(),
        all_digits(s),
    ensures
        digits_value(s.subrange(0, k)) <= digits_value(s),
    decreases s.len() - k,
{
    if k < s.len() {
        lemma_digits_value_prefix(s, k + 1);
        let p = s.subrange(0, k + 1);
        assert(p.drop_last() =~= s.subrange(0, k));
        assert(is_digit(s[k]));
    } else {
        assert(s.subrange(0, k) =~= s);
    }
}

/// A decimal numeral is a non-empty run of digits, without a sign, that
/// spells its number.
pub proof fn lemma_decimal_digits(n: nat)
    ensures
        decimal_spec(n).len() > 0,
        all_digits(decimal_spec(n)),
        digits_value(decimal_spec(n)) == n,
        decimal_spec(n)[0] != '+',
    decreases n,
{
    if n < 10 {
        let d = decimal_spec(n);
        assert(d.drop_last() =~= Seq::<char>::empty());
        assert(digits_value(Seq::<char>::empty()) == 0);
        assert(d.last() == digit_char(n));
        assert((digit_char(n) as u32) - ('0' as u32) == n);
    } else {
        lemma_decimal_digits(n / 10);
        let d = decimal_spec(n);
        let h = decimal_spec(n / 10);
        assert(d == h.push(digit_char(n % 10)));
        assert(d.drop_last() =~= h);
        assert((digit_char(n % 10) as u32) - ('0' as u32) == n % 10);
        assert(d[0] == h[0]);
        assert forall|i: int| 0 <= i < d.len() implies is_digit(#[trigger] d[i]) by {
            if i < h.len() {
                assert(d[i] == h[i]);
            }
        }
    }
}

/// Lower-casing a concatenation lower-cases each part.
pub proof fn lemma_lower_concat(a: Seq<char>, b: Seq<char>)
    ensures
        lower_seq(a + b) == lower_seq(a) + lower_seq(b),
{
    assert(lower_seq(a + b) =~= lower_seq(a) + lower_seq(b));
}

/// Lower-casing leaves digits alone.
pub proof fn lemma_lower_digits(s: Seq<char>)
    requires
        all_digits(s),
    ensures
        lower_seq(s) == s,
{
    assert forall|i: int| 0 <= i < s.len() implies lower_seq(s)[i] == s[i] by {
        assert(is_digit(s[i]));
    }
    assert(lower_seq(s) =~= s);
}

/// Lower-casing twice is lower-casing once.
pub proof fn lemma_lower_idempotent(s: Seq<char>)
    ensures
        lower_seq(lower_seq(s)) == lower_seq(s),
{
    assert(lower_seq(lower_seq(s)) =~= lower_seq(s));
}

/// Stripping a prefix from a concatenation that starts with it gives the
/// rest.
pub proof fn lemma_strip_concat(p: Seq<char>, rest: Seq<char>)
    ensures
        strip(p + rest, p) == Some(rest),
{
    assert((p + rest).subrange(0, p.len() as int) =~= p);
    assert((p + rest).subrange(p.len() as int, (p + rest).len() as int) =~= rest);
}

/// A text that a prefix strips from starts with that prefix's characters.
pub proof fn lemma_strip_head(s: Seq<char>, p: Seq<char>, k: int)
    requires
        strip(s, p) is Some,
        0 <= k < p.len(),
    ensures
        s[k] == p[k],
{
    assert(s.subrange(0, p.len() as int)[k] == s[k]);
}

/// Whether `c` has the Unicode `White_Space` property, as
/// `char::is_whitespace` reads it.
pub open spec fn is_ws(c: char) -> bool {
    ('\u{9}' <= c <= '\u{D}') || c == ' ' || c == '\u{85}' || c == '\u{A0}' || c == '\u{1680}' || ('\u{2000}'
        <= c <= '\u{200A}') || c == '\u{2028}' || c == '\u{2029}' || c == '\u{202F}' || c == '\u{205F}' || c
        == '\u{3000}'
}

/// How many whitespace characters `s` starts with.
pub open spec fn leading_ws(s: Seq<char>) -> nat
    decreases s.len(),
{
    if s.len() == 0 || !is_ws(s[0]) {
        0
    } else {
        1 + leading_ws(s.drop_first())
    }
}

/// How many whitespace characters `s` ends with.
pub open spec fn trailing_ws(s: Seq<char>) -> nat
    decreases s.len(),
{
    if s.len() == 0 || !is_ws(s.last()) {
        0
    } else {
        1 + trailing_ws(s.drop_last())
    }
}

/// `s` without its leading and trailing whitespace, as `str::trim` gives it.
pub open spec fn trim_spec(s: Seq<char>) -> Seq<char> {
    let t = s.subrange(leading_ws(s) as int, s.len() as int);
    t.subrange(0, t.len() - trailing_ws(t))
}

fn is_ws_exec(c: char) -> (r: bool)
    ensures
        r == is_ws(c),
{
    (c >= '\u{9}' && c <= '\u{D}') || c == ' ' || c == '\u{85}' || c == '\u{A0}' || c == '\u{1680}' || (c
        >= '\u{2000}' && c <= '\u{200A}') || c == '\u{2028}' || c == '\u{2029}' || c == '\u{202F}' || c
        == '\u{205F}' || c == '\u{3000}'
}

proof fn lemma_leading_ws_le(s: Seq<char>)
    ensures
        leading_ws(s) <= s.len(),
    decreases s.len(),
{
    if s.len() > 0 && is_ws(s[0]) {
        lemma_leading_ws_le(s.drop_first());
    }
}

proof fn lemma_trailing_ws_le(s: Seq<char>)
    ensures
        trailing_ws(s) <= s.len(),
    decreases s.len(),
{
    if s.len() > 0 && is_ws(s.last()) {
        lemma_trailing_ws_le(s.drop_last());
    }
}

/// `s` without leading and trailing whitespace ([`trim_spec`]).
pub fn trim_chars(s: &[char]) -> (r: Vec<char>)
    ensures
        r@ == trim_spec(s@),
{
    let n = s.len();
    let mut a: usize = 0;
    assert(s@.subrange(0, n as int) =~= s@);
    while a < n && is_ws_exec(s[a])
        invariant
            n == s@.len(),
            a <= n,
            leading_ws(s@) == a + leading_ws(s@.subrange(a as int, n as int)),
        decreases n - a,
    {
        let ghost t = s@.subrange(a as int, n as int);
        assert(t.drop_first() =~= s@.subrange(a + 1, n as int));
        a += 1;
    }
    proof {
        let t = s@.subrange(a as int, n as int);
        if t.len() > 0 {
            assert(t[0] == s@[a as int]);
        }
    }
    let ghost t = s@.subrange(a as int, n as int);
    let mut b: usize = n;
    assert(t.subrange(0, t.len() as int) =~= t);
    while b > a && is_ws_exec(s[b - 1])
        invariant
            n == s@.len(),
            a <= b <= n,
            t == s@.subrange(a as int, n as int),
            trailing_ws(t) == (n - b) + trailing_ws(t.subrange(0, b - a)),
        decreases b - a,
    {
        let ghost u = t.subrange(0, b - a);
        assert(u.drop_last() =~= t.subrange(0, b - 1 - a));
        assert(u.last() == s@[b - 1]);
        b -= 1;
    }
    proof {
        let u = t.subrange(0, b - a);
        if u.len() > 0 {
            assert(u.last() == s@[b - 1]);
        }
        assert(t.subrange(0, t.len() - trailing_ws(t)) =~= s@.subrange(a as int, b as int));
    }
    sub_chars(s, a, b)
}

/// `n` in lower-case hexadecimal, without leading zeros.
pub open spec fn hex_number_spec(n: nat) -> Seq<char>
    decreases n,
{
    if n < 16 {
        seq![hex_char(n)]
    } else {
        hex_number_spec(n / 16).push(hex_char(n % 16))
    }
}

/// `n` as `0x` and its lower-case hexadecimal digits ([`hex_number_spec`]).
pub fn hex_number(n: u64) -> (r: String)
    ensures
        r@ == "0x"@ + hex_number_spec(n as nat),
    decreases n,
{
    if n < 16 {
        let mut s = String::from_str("0x");
        s.append(hex_digit_str(n as u8));
        s
    } else {
        let mut s = hex_number(n / 16);
        s.append(hex_digit_str((n % 16) as u8));
        proof {
            assert(("0x"@ + hex_number_spec((n / 16) as nat)).push(hex_char((n % 16) as nat))
                =~= "0x"@ + hex_number_spec(n as nat));
        }
        s
    }
}

/// The upper-case character of a hexadecimal digit.
pub open spec fn upper_hex_char(d: nat) -> char {
    if d < 10 {
        digit_char(d)
    } else if d == 10 {
        'A'
    } else if d == 11 {
        'B'
    } else if d == 12 {
        'C'
    } else if d == 13 {
        'D'
    } else if d == 14 {
        'E'
    } else {
        'F'
    }
}

/// The one-character text of upper-case hex digit `d`.
fn upper_hex_digit_str(d: u8) -> (r: &'static str)
    requires
        d < 16,
    ensures
        r@ == seq![upper_hex_char(d as nat)],
{
    if d < 10 {
        return digit_str(d as u64);
    }
    proof {
        reveal_strlit("A");
        reveal_strlit("B");
        reveal_strlit("C");
        reveal_strlit("D");
        reveal_strlit("E");
        reveal_strlit("F");
    }
    if d == 10 {
        "A"
    } else if d == 11 {
        "B"
    } else if d == 12 {
        "C"
    } else if d == 13 {
        "D"
    } else if d == 14 {
        "E"
    } else {
        "F"
    }
}

/// A byte as two upper-case hexadecimal digits.
pub open spec fn upper_hex_byte_spec(b: u8) -> Seq<char> {
    seq![upper_hex_char((b / 16) as nat), upper_hex_char((b % 16) as nat)]
}

/// A byte as two upper-case hexadecimal digits ([`upper_hex_byte_spec`]).
pub fn upper_hex_byte(b: u8) -> (r: String)
    ensures
        r@ == upper_hex_byte_spec(b),
{
    let mut s = String::from_str(upper_hex_digit_str(b / 16));
    s.append(upper_hex_digit_str(b % 16));
    s
}

} // verus!
