//! Random-threshold dithering: each pixel is compared against a fresh,
//! uniformly drawn threshold, so the output is noisy by design. The draw
//! comes from an outside generator; everything proved here holds of every
//! possible draw.

use vstd::prelude::*;
use rand::Rng;
use crate::couleur::{Pixel, blanc, noir, get_luminance, luminance_spec};
use crate::grille::{Grille, lemma_indice_borne};

verus! {

/// Relies on rand::Rng::gen_range over the half-open range 0..255 on a
/// thread-local generator: the draw is uniform in [0, 255), hence always
/// below 255, and the range is non-empty, so the call does not panic.
#[verifier::external_body]
fn tirage_seuil() -> (t: u8)
    ensures
        t < 255,
{
    rand::thread_rng().gen_range(0..255u8)
}

/// Replaces every pixel by white or black, comparing its luminance against
/// an independent uniform draw in [0, 255) channel units. The draw is not
/// observable, so the contract states what holds of every outcome: the
/// output is two-tone, a pixel brighter than every possible draw comes out
/// white, and a pixel at zero luminance comes out black.
pub fn tramage_aleatoire(rgb_image: &mut Grille)
    requires
        old(rgb_image).est_valide(),
    ensures
        final(rgb_image).est_valide(),
        final(rgb_image).largeur == old(rgb_image).largeur,
        final(rgb_image).hauteur == old(rgb_image).hauteur,
        forall|x: int, y: int|
            0 <= x < old(rgb_image).largeur && 0 <= y < old(rgb_image).hauteur
                ==> #[trigger] final(rgb_image).pixel_en(x, y) == blanc()
                || final(rgb_image).pixel_en(x, y) == noir(),
        forall|x: int, y: int|
            0 <= x < old(rgb_image).largeur && 0 <= y < old(rgb_image).hauteur
                && luminance_spec(#[trigger] old(rgb_image).pixel_en(x, y)) > 2540000
                ==> final(rgb_image).pixel_en(x, y) == blanc(),
        forall|x: int, y: int|
            0 <= x < old(rgb_image).largeur && 0 <= y < old(rgb_image).hauteur
                && luminance_spec(#[trigger] old(rgb_image).pixel_en(x, y)) == 0
                ==> final(rgb_image).pixel_en(x, y) == noir(),
{
    let ghost origine = rgb_image.pixels@;
    let ghost l = rgb_image.largeur as int;
    let ghost h = rgb_image.hauteur as int;
    let n = rgb_image.pixels.len();
    let mut k: usize = 0;
    while k < n
        invariant
            k <= n,
            rgb_image.pixels@.len() == n,
            rgb_image.largeur == l,
            rgb_image.hauteur == h,
            origine.len() == n,
            forall|j: int|
                0 <= j < k ==> #[trigger] rgb_image.pixels@[j] == blanc()
                    || rgb_image.pixels@[j] == noir(),
            forall|j: int|
                0 <= j < k && luminance_spec(#[trigger] origine[j]) > 2540000
                    ==> rgb_image.pixels@[j] == blanc(),
            forall|j: int|
                0 <= j < k && luminance_spec(#[trigger] origine[j]) == 0
                    ==> rgb_image.pixels@[j] == noir(),
            forall|j: int| k <= j < n ==> rgb_image.pixels@[j] == origine[j],
        decreases n - k,
    {
        let lum = get_luminance(&rgb_image.pixels[k]);
        let tirage = tirage_seuil();
        let seuil: u32 = (tirage as u32) * 10000;
        let q = if lum > seuil {
            Pixel { r: 255, g: 255, b: 255 }
        } else {
            Pixel { r: 0, g: 0, b: 0 }
        };
        rgb_image.pixels[k] = q;
        k += 1;
    }
    proof {
        assert forall|x: int, y: int| 0 <= x < l && 0 <= y < h implies {
            &&& (#[trigger] final(rgb_image).pixel_en(x, y) == blanc()
                || final(rgb_image).pixel_en(x, y) == noir())
            &&& (luminance_spec(old(rgb_image).pixel_en(x, y)) > 2540000
                ==> final(rgb_image).pixel_en(x, y) == blanc())
            &&& (luminance_spec(old(rgb_image).pixel_en(x, y)) == 0
                ==> final(rgb_image).pixel_en(x, y) == noir())
        } by {
            lemma_indice_borne(x, y, l, h);
        }
    }
}

} // verus!
