//! The texture a bake hands back, and the flat one it falls back on.
use vstd::prelude::*;

verus! {

/// A baked texture: RGBA8 buffers for each map, base level first, and how
/// many mip levels each buffer holds.
pub struct TextureData {
    pub albedo: Vec<u8>,
    pub normal: Vec<u8>,
    pub roughness: Vec<u8>,
    pub emissive: Option<Vec<u8>>,
    pub width: u32,
    pub height: u32,
    /// Mip levels in each buffer, the base level included.
    pub mip_level_count: u32,
}

/// The mip levels a texture is taken to hold when the payload says
/// nothing: the base level only.
pub fn default_mip_level_count() -> (n: u32)
    ensures
        n == 1,
{
    1
}

/// `pixels` pixels, each the four bytes `rgba`.
pub open spec fn repeated(rgba: Seq<u8>, pixels: nat) -> Seq<u8> {
    Seq::new(4 * pixels, |i: int| rgba[i % 4])
}

/// `pixels` pixels of the colour `rgba`.
fn fill(rgba: [u8; 4], pixels: usize) -> (v: Vec<u8>)
    requires
        4 * pixels <= usize::MAX,
    ensures
        v@ == repeated(rgba@, pixels as nat),
{
    let mut v: Vec<u8> = Vec::new();
    let mut k: usize = 0;
    while k < pixels
        invariant
            k <= pixels,
            4 * pixels <= usize::MAX,
            v@.len() == 4 * k,
            forall|i: int| 0 <= i < 4 * k ==> #[trigger] v@[i] == rgba@[i % 4],
        decreases pixels - k,
    {
        v.push(rgba[0]);
        v.push(rgba[1]);
        v.push(rgba[2]);
        v.push(rgba[3]);
        assert forall|i: int| 0 <= i < 4 * (k + 1) implies #[trigger] v@[i] == rgba@[i % 4] by {
            if i >= 4 * k {
                assert(i % 4 == i - 4 * k);
            }
        }
        k = k + 1;
    }
    assert(v@ =~= repeated(rgba@, pixels as nat));
    v
}

impl TextureData {
    /// A flat texture of the size asked for: black albedo, a normal map
    /// facing straight out, full roughness, no emission, the base level
    /// only. What a bake hands back when its generator refuses the size.
    pub fn flat(width: u32, height: u32) -> (t: TextureData)
        requires
            4 * (width as int) * (height as int) <= usize::MAX,
        ensures
            t.width == width,
            t.height == height,
            t.mip_level_count == 1,
            t.emissive is None,
            t.albedo@ == repeated(seq![0u8, 0u8, 0u8, 255u8], (width * height) as nat),
            t.normal@ == repeated(seq![128u8, 128u8, 255u8, 255u8], (width * height) as nat),
            t.roughness@ == repeated(seq![255u8, 255u8, 255u8, 255u8], (width * height) as nat),
    {
        assert(4 * ((width as int) * (height as int)) == 4 * (width as int) * (height as int))
            by (nonlinear_arith);
        let px = (width as usize) * (height as usize);
        let albedo = fill([0u8, 0u8, 0u8, 255u8], px);
        let normal = fill([128u8, 128u8, 255u8, 255u8], px);
        let roughness = fill([255u8, 255u8, 255u8, 255u8], px);
        assert([0u8, 0u8, 0u8, 255u8]@ =~= seq![0u8, 0u8, 0u8, 255u8]);
        assert([128u8, 128u8, 255u8, 255u8]@ =~= seq![128u8, 128u8, 255u8, 255u8]);
        assert([255u8, 255u8, 255u8, 255u8]@ =~= seq![255u8, 255u8, 255u8, 255u8]);
        TextureData {
            albedo,
            normal,
            roughness,
            emissive: None,
            width,
            height,
            mip_level_count: default_mip_level_count(),
        }
    }
}

} // verus!
