//! What the statistical image classifier can conclude about a picture.

use vstd::prelude::*;

verus! {

/// The classifier's verdict on a decoded picture.
#[derive(Debug, Clone, Copy, PartialEq, Eq, Structural)]
pub enum ImageClassification {
    /// A photograph of a natural scene.
    NaturalPhoto,
    /// A drawn or rendered graphic: an icon, a chart, a screenshot.
    ArtificialGraphic,
    /// Decoded, but damaged.
    Corrupted,
    /// Statistically indistinguishable from random bytes.
    Encrypted,
    /// Too few pixels to judge.
    TooSmall,
}

impl ImageClassification {
    /// Whether the verdict is a natural photograph.
    pub fn is_photo(self) -> (r: bool)
        ensures
            r == (self == ImageClassification::NaturalPhoto),
    {
        match self {
            ImageClassification::NaturalPhoto => true,
            _ => false,
        }
    }
}

/// The luma of a pixel, by the Rec. 601 weights in thousandths.
pub open spec fn luma(r: u8, g: u8, b: u8) -> u8 {
    ((r * 299 + g * 587 + b * 114) / 1000) as u8
}

/// The grey levels of pixel data with `channels` bytes a pixel: for three
/// (RGB) or four (RGBA) channels, the luma of each whole pixel, a trailing
/// partial pixel dropped; otherwise the bytes as they are.
pub open spec fn grayscale_spec(data: Seq<u8>, channels: usize) -> Seq<u8> {
    if channels == 3 {
        Seq::new(data.len() / 3, |i: int| luma(data[3 * i], data[3 * i + 1], data[3 * i + 2]))
    } else if channels == 4 {
        Seq::new(data.len() / 4, |i: int| luma(data[4 * i], data[4 * i + 1], data[4 * i + 2]))
    } else {
        data
    }
}

/// The grey levels of `data`, as [`grayscale_spec`] states them.
pub fn to_grayscale(data: &[u8], channels: usize) -> (r: Vec<u8>)
    ensures
        r@ == grayscale_spec(data@, channels),
{
    if channels != 3 && channels != 4 {
        let mut out: Vec<u8> = Vec::new();
        let mut i: usize = 0;
        while i < data.len()
            invariant
                i <= data@.len(),
                out@ == data@.subrange(0, i as int),
            decreases data.len() - i,
        {
            out.push(data[i]);
            i += 1;
            assert(out@ =~= data@.subrange(0, i as int));
        }
        assert(data@.subrange(0, data@.len() as int) =~= data@);
        return out;
    }
    let len = data.len();
    let n = len / channels;
    let mut out: Vec<u8> = Vec::new();
    let mut i: usize = 0;
    while i < n
        invariant
            channels == 3 || channels == 4,
            len == data@.len(),
            n == data@.len() / (channels as nat),
            i <= n,
            out@.len() == i,
            forall|k: int| 0 <= k < i ==> #[trigger] out@[k] == luma(
                data@[channels * k],
                data@[channels * k + 1],
                data@[channels * k + 2],
            ),
        decreases n - i,
    {
        assert(channels * i + channels <= data@.len()) by (nonlinear_arith)
            requires
                i < n,
                n == data@.len() / (channels as nat),
                channels > 0,
        ;
        let at = channels * i;
        let r = data[at] as u32;
        let g = data[at + 1] as u32;
        let b = data[at + 2] as u32;
        out.push(((r * 299 + g * 587 + b * 114) / 1000) as u8);
        i += 1;
    }
    assert(out@ =~= grayscale_spec(data@, channels));
    out
}

} // verus!
