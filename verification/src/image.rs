//! Texture image bookkeeping.

use vstd::prelude::*;

use crate::text::str_eq;

verus! {

/// `a` comes before `b` when images are ordered by id, ties kept in
/// declaration order.
pub open spec fn load_before(ids: Seq<usize>, a: usize, b: usize) -> bool {
    ids[a as int] < ids[b as int] || (ids[a as int] == ids[b as int] && a < b)
}

/// `order` lists each position of `ids` exactly once.
pub open spec fn is_permutation_of_positions(order: Seq<usize>, n: nat) -> bool {
    &&& order.len() == n
    &&& forall|k: int| 0 <= k < order.len() ==> #[trigger] order[k] < n
    &&& forall|a: int, b: int| 0 <= a < b < order.len() ==> order[a] != order[b]
}

/// `order` lists the positions of `ids` sorted by id, ties in declaration order.
pub open spec fn is_load_order(ids: Seq<usize>, order: Seq<usize>) -> bool {
    &&& is_permutation_of_positions(order, ids.len())
    &&& forall|a: int, b: int|
        0 <= a < b < order.len() ==> load_before(ids, #[trigger] order[a], #[trigger] order[b])
}

/// The order in which the scene's texture images are loaded: their positions
/// sorted by image id, images with equal ids in the order they are declared.
pub fn image_load_order(ids: &[usize]) -> (order: Vec<usize>)
    ensures
        is_load_order(ids@, order@),
{
    let n = ids.len();
    let mut order: Vec<usize> = Vec::new();
    let mut i: usize = 0;
    while i < n
        invariant
            n == ids@.len(),
            i <= n,
            is_permutation_of_positions(order@, i as nat),
            forall|a: int, b: int|
                0 <= a < b < order@.len() ==> load_before(ids@, #[trigger] order@[a], #[trigger] order@[b]),
        decreases n - i,
    {
        let key = ids[i];
        let mut p: usize = 0;
        while p < order.len() && ids[order[p]] <= key
            invariant
                n == ids@.len(),
                i < n,
                key == ids@[i as int],
                p <= order@.len(),
                is_permutation_of_positions(order@, i as nat),
                forall|k: int| 0 <= k < p ==> ids@[#[trigger] order@[k] as int] <= key,
            decreases order@.len() - p,
        {
            p += 1;
        }
        proof {
            // Everything from `p` on has a larger id: the list is sorted.
            assert forall|k: int| p <= k < order@.len() implies ids@[#[trigger] order@[k] as int] > key by {
                if ids@[order@[p as int] as int] > key && k > p {
                    assert(load_before(ids@, order@[p as int], order@[k]));
                }
            }
        }
        let ghost before = order@;
        order.insert(p, i);
        proof {
            assert forall|k: int| 0 <= k < order@.len() implies #[trigger] order@[k] < i + 1 by {
                if k < p {
                    assert(order@[k] == before[k]);
                } else if k > p {
                    assert(order@[k] == before[k - 1]);
                }
            }
            assert forall|a: int, b: int| 0 <= a < b < order@.len() implies order@[a] != order@[b]
                && load_before(ids@, #[trigger] order@[a], #[trigger] order@[b]) by {
                if a < p {
                    assert(order@[a] == before[a]);
                } else if a > p {
                    assert(order@[a] == before[a - 1]);
                }
                if b < p {
                    assert(order@[b] == before[b]);
                } else if b > p {
                    assert(order@[b] == before[b - 1]);
                }
            }
        }
        i += 1;
    }
    order
}

/// How a rendered image is written out.
#[derive(Clone, Copy, Debug, PartialEq, Eq, Structural)]
pub enum ImageEncoding {
    /// Eight bits per channel, values clamped to `0..=255`.
    LowDynamicRange,
    /// Floating-point channels.
    HighDynamicRange,
}

/// The encoding for an output file extension: `png`, `jpg` and `jpeg` are low
/// dynamic range, `exr` and `hdr` high dynamic range; others have none.
pub open spec fn encoding_for_extension_spec(ext: Seq<char>) -> Option<ImageEncoding> {
    if ext == seq!['p', 'n', 'g'] || ext == seq!['j', 'p', 'g'] || ext == seq!['j', 'p', 'e', 'g'] {
        Some(ImageEncoding::LowDynamicRange)
    } else if ext == seq!['e', 'x', 'r'] || ext == seq!['h', 'd', 'r'] {
        Some(ImageEncoding::HighDynamicRange)
    } else {
        None
    }
}

/// Chooses how to encode an image from the extension of its output file.
pub fn encoding_for_extension(ext: &str) -> (r: Option<ImageEncoding>)
    ensures
        r == encoding_for_extension_spec(ext@),
{
    proof {
        reveal_strlit("png");
        reveal_strlit("jpg");
        reveal_strlit("jpeg");
        reveal_strlit("exr");
        reveal_strlit("hdr");
        assert("png"@ =~= seq!['p', 'n', 'g']);
        assert("jpg"@ =~= seq!['j', 'p', 'g']);
        assert("jpeg"@ =~= seq!['j', 'p', 'e', 'g']);
        assert("exr"@ =~= seq!['e', 'x', 'r']);
        assert("hdr"@ =~= seq!['h', 'd', 'r']);
    }
    if str_eq(ext, "png") || str_eq(ext, "jpg") || str_eq(ext, "jpeg") {
        Some(ImageEncoding::LowDynamicRange)
    } else if str_eq(ext, "exr") || str_eq(ext, "hdr") {
        Some(ImageEncoding::HighDynamicRange)
    } else {
        None
    }
}

/// How a texture's value is applied at a surface point.
#[derive(Clone, Copy, Debug, PartialEq, Eq, Structural)]
pub enum DecalMode {
    ReplaceKd,
    BlendKd,
    ReplaceKs,
    ReplaceBackground,
    ReplaceNormal,
    BumpNormal,
    ReplaceAll,
}

impl Default for DecalMode {
    fn default() -> (r: Self)
        ensures
            r == DecalMode::ReplaceKd,
    {
        DecalMode::ReplaceKd
    }
}

/// The decal mode a scene file names: `replace_kd`, `blend_kd`, `replace_ks`,
/// `replace_background`, `replace_normal`, `bump_normal` or `replace_all`; an
/// empty name gives the default, `replace_kd`; other names give none.
pub open spec fn decal_mode_spec(s: Seq<char>) -> Option<DecalMode> {
    if s.len() == 0 || s == seq!['r', 'e', 'p', 'l', 'a', 'c', 'e', '_', 'k', 'd'] {
        Some(DecalMode::ReplaceKd)
    } else if s == seq!['b', 'l', 'e', 'n', 'd', '_', 'k', 'd'] {
        Some(DecalMode::BlendKd)
    } else if s == seq!['r', 'e', 'p', 'l', 'a', 'c', 'e', '_', 'k', 's'] {
        Some(DecalMode::ReplaceKs)
    } else if s == seq![
        'r', 'e', 'p', 'l', 'a', 'c', 'e', '_', 'b', 'a', 'c', 'k', 'g', 'r', 'o', 'u', 'n', 'd',
    ] {
        Some(DecalMode::ReplaceBackground)
    } else if s == seq!['r', 'e', 'p', 'l', 'a', 'c', 'e', '_', 'n', 'o', 'r', 'm', 'a', 'l'] {
        Some(DecalMode::ReplaceNormal)
    } else if s == seq!['b', 'u', 'm', 'p', '_', 'n', 'o', 'r', 'm', 'a', 'l'] {
        Some(DecalMode::BumpNormal)
    } else if s == seq!['r', 'e', 'p', 'l', 'a', 'c', 'e', '_', 'a', 'l', 'l'] {
        Some(DecalMode::ReplaceAll)
    } else {
        None
    }
}

/// Reads a texture map's decal mode (see `decal_mode_spec`).
pub fn parse_decal(s: &str) -> (r: Option<DecalMode>)
    ensures
        r == decal_mode_spec(s@),
{
    proof {
        reveal_strlit("");
        reveal_strlit("replace_kd");
        reveal_strlit("blend_kd");
        reveal_strlit("replace_ks");
        reveal_strlit("replace_background");
        reveal_strlit("replace_normal");
        reveal_strlit("bump_normal");
        reveal_strlit("replace_all");
        assert(""@ =~= Seq::<char>::empty());
        assert(s@.len() == 0 ==> s@ =~= Seq::<char>::empty());
        assert("replace_kd"@ =~= seq!['r', 'e', 'p', 'l', 'a', 'c', 'e', '_', 'k', 'd']);
        assert("blend_kd"@ =~= seq!['b', 'l', 'e', 'n', 'd', '_', 'k', 'd']);
        assert("replace_ks"@ =~= seq!['r', 'e', 'p', 'l', 'a', 'c', 'e', '_', 'k', 's']);
        assert("replace_background"@ =~= seq![
            'r', 'e', 'p', 'l', 'a', 'c', 'e', '_', 'b', 'a', 'c', 'k', 'g', 'r', 'o', 'u', 'n', 'd',
        ]);
        assert("replace_normal"@ =~= seq!['r', 'e', 'p', 'l', 'a', 'c', 'e', '_', 'n', 'o', 'r', 'm', 'a', 'l']);
        assert("bump_normal"@ =~= seq!['b', 'u', 'm', 'p', '_', 'n', 'o', 'r', 'm', 'a', 'l']);
        assert("replace_all"@ =~= seq!['r', 'e', 'p', 'l', 'a', 'c', 'e', '_', 'a', 'l', 'l']);
    }
    if str_eq(s, "") || str_eq(s, "replace_kd") {
        Some(DecalMode::ReplaceKd)
    } else if str_eq(s, "blend_kd") {
        Some(DecalMode::BlendKd)
    } else if str_eq(s, "replace_ks") {
        Some(DecalMode::ReplaceKs)
    } else if str_eq(s, "replace_background") {
        Some(DecalMode::ReplaceBackground)
    } else if str_eq(s, "replace_normal") {
        Some(DecalMode::ReplaceNormal)
    } else if str_eq(s, "bump_normal") {
        Some(DecalMode::BumpNormal)
    } else if str_eq(s, "replace_all") {
        Some(DecalMode::ReplaceAll)
    } else {
        None
    }
}

/// How an image texture is sampled between texels.
#[derive(Clone, Copy, Debug, PartialEq, Eq, Structural)]
pub enum Interpolation {
    Nearest,
    Bilinear,
    Trilinear,
}

/// The interpolation a scene file names: `nearest`, `bilinear` or
/// `trilinear`; an empty name gives `nearest`; other names give none.
pub open spec fn interpolation_spec(s: Seq<char>) -> Option<Interpolation> {
    if s.len() == 0 || s == seq!['n', 'e', 'a', 'r', 'e', 's', 't'] {
        Some(Interpolation::Nearest)
    } else if s == seq!['b', 'i', 'l', 'i', 'n', 'e', 'a', 'r'] {
        Some(Interpolation::Bilinear)
    } else if s == seq!['t', 'r', 'i', 'l', 'i', 'n', 'e', 'a', 'r'] {
        Some(Interpolation::Trilinear)
    } else {
        None
    }
}

/// Reads an image texture's interpolation (see `interpolation_spec`).
pub fn parse_interp(s: &str) -> (r: Option<Interpolation>)
    ensures
        r == interpolation_spec(s@),
{
    proof {
        reveal_strlit("");
        reveal_strlit("nearest");
        reveal_strlit("bilinear");
        reveal_strlit("trilinear");
        assert(""@ =~= Seq::<char>::empty());
        assert(s@.len() == 0 ==> s@ =~= Seq::<char>::empty());
        assert("nearest"@ =~= seq!['n', 'e', 'a', 'r', 'e', 's', 't']);
        assert("bilinear"@ =~= seq!['b', 'i', 'l', 'i', 'n', 'e', 'a', 'r']);
        assert("trilinear"@ =~= seq!['t', 'r', 'i', 'l', 'i', 'n', 'e', 'a', 'r']);
    }
    if str_eq(s, "") || str_eq(s, "nearest") {
        Some(Interpolation::Nearest)
    } else if str_eq(s, "bilinear") {
        Some(Interpolation::Bilinear)
    } else if str_eq(s, "trilinear") {
        Some(Interpolation::Trilinear)
    } else {
        None
    }
}

/// How Perlin noise in `[-1, 1]` becomes a texture value.
#[derive(Clone, Copy, Debug, PartialEq, Eq, Structural)]
pub enum NoiseConversion {
    /// Its absolute value.
    AbsoluteVal,
    /// Mapped linearly onto `[0, 1]`.
    Linear,
}

/// The noise conversion a scene file names: `absval` or `linear`; an empty
/// name gives `linear`; other names give none.
pub open spec fn noise_conversion_spec(s: Seq<char>) -> Option<NoiseConversion> {
    if s == seq!['a', 'b', 's', 'v', 'a', 'l'] {
        Some(NoiseConversion::AbsoluteVal)
    } else if s.len() == 0 || s == seq!['l', 'i', 'n', 'e', 'a', 'r'] {
        Some(NoiseConversion::Linear)
    } else {
        None
    }
}

/// Reads a Perlin texture's noise conversion (see `noise_conversion_spec`).
pub fn parse_noise_conversion(s: &str) -> (r: Option<NoiseConversion>)
    ensures
        r == noise_conversion_spec(s@),
{
    proof {
        reveal_strlit("");
        reveal_strlit("absval");
        reveal_strlit("linear");
        assert(""@ =~= Seq::<char>::empty());
        assert(s@.len() == 0 ==> s@ =~= Seq::<char>::empty());
        assert("absval"@ =~= seq!['a', 'b', 's', 'v', 'a', 'l']);
        assert("linear"@ =~= seq!['l', 'i', 'n', 'e', 'a', 'r']);
    }
    if str_eq(s, "absval") {
        Some(NoiseConversion::AbsoluteVal)
    } else if str_eq(s, "") || str_eq(s, "linear") {
        Some(NoiseConversion::Linear)
    } else {
        None
    }
}

} // verus!
