//! Volume Shadow Copies: the snapshots a live Windows system already holds,
//! named `\\?\GLOBALROOT\Device\HarddiskVolumeShadowCopyN`.

use vstd::prelude::*;

use crate::text::{
    chars_of, decimal, decimal_spec, join_chars, lemma_decimal_digits, lemma_lower_concat, lemma_lower_digits,
    lemma_strip_concat, lower_chars, lower_seq, parse_u32, string_of, strip, strip_prefix, u32_text,
};

verus! {

/// A shadow copy: its device path and index.
#[derive(Clone, Debug, PartialEq, Eq)]
pub struct ShadowCopy {
    pub path: String,
    pub index: u32,
}

/// The path of every shadow copy, before its index.
pub const SHADOW_COPY_PREFIX: &'static str = "\\\\?\\GLOBALROOT\\Device\\HarddiskVolumeShadowCopy";

/// The highest index probed for.
pub const MAX_SHADOW_COPY_INDEX: u32 = 1024;

/// The path of shadow copy `index`.
pub open spec fn shadow_path(index: u32) -> Seq<char> {
    SHADOW_COPY_PREFIX@ + decimal_spec(index as nat)
}

/// The index of a shadow-copy path, the namespace matched in any case.
pub open spec fn shadow_index(p: Seq<char>) -> Option<u32> {
    match strip(lower_seq(p), lower_seq(SHADOW_COPY_PREFIX@)) {
        Some(rest) => u32_text(rest),
        None => None,
    }
}

/// The path of shadow copy `index`.
pub fn shadow_copy_path(index: u32) -> (r: String)
    ensures
        r@ == shadow_path(index),
{
    let prefix = chars_of(SHADOW_COPY_PREFIX);
    let digits = chars_of(decimal(index as u64).as_str());
    let all = join_chars(&prefix, &digits);
    string_of(&all)
}

/// The index a shadow-copy path names ([`shadow_index`]).
pub fn shadow_copy_index(path: &str) -> (r: Option<u32>)
    ensures
        r == shadow_index(path@),
{
    let p = chars_of(path);
    let lower = lower_chars(&p);
    let pre = chars_of(SHADOW_COPY_PREFIX);
    let lower_pre = lower_chars(&pre);
    match strip_prefix(&lower, &lower_pre) {
        Some(rest) => parse_u32(&rest),
        None => None,
    }
}

/// A shadow-copy path round-trips through its index: the path
/// [`shadow_copy_path`] writes, [`shadow_copy_index`] reads back as the same
/// index.
pub proof fn lemma_shadow_round_trip(index: u32)
    ensures
        shadow_index(shadow_path(index)) == Some(index),
{
    let dec = decimal_spec(index as nat);
    lemma_decimal_digits(index as nat);
    lemma_lower_concat(SHADOW_COPY_PREFIX@, dec);
    lemma_lower_digits(dec);
    lemma_strip_concat(lower_seq(SHADOW_COPY_PREFIX@), dec);
}

} // verus!
