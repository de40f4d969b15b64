//! Fixed-threshold dithering: every pixel is compared against a single
//! luminance threshold and replaced by one of two configured colors.

use vstd::prelude::*;
use crate::couleur::{Pixel, blanc, get_luminance, luminance_spec};
use crate::grille::{Grille, lemma_indice_borne, lemma_colonne_ligne};

verus! {

/// Default threshold: 127.5 channel units, in ten-thousandths.
pub const SEUIL_DEFAUT: u32 = 1275000;

/// The two-color threshold decision: strictly brighter than the threshold
/// gives the first color, else the second. At luminance exactly equal to
/// the threshold the comparison is strict, so the second color is chosen.
pub open spec fn seuillage_pixel(p: Pixel, seuil: int, couleur1: Pixel, couleur2: Pixel) -> Pixel {
    if luminance_spec(p) > seuil {
        couleur1
    } else {
        couleur2
    }
}

/// A pixel whose luminance equals the threshold always takes the second
/// color: the comparison is strict, so the boundary case is deterministic.
pub proof fn lemma_seuillage_egalite(p: Pixel, seuil: int, couleur1: Pixel, couleur2: Pixel)
    requires
        luminance_spec(p) == seuil,
    ensures
        seuillage_pixel(p, seuil, couleur1, couleur2) == couleur2,
{
}

/// A pixel strictly brighter than the threshold always takes the first color.
pub proof fn lemma_seuillage_au_dessus(p: Pixel, seuil: int, couleur1: Pixel, couleur2: Pixel)
    requires
        luminance_spec(p) > seuil,
    ensures
        seuillage_pixel(p, seuil, couleur1, couleur2) == couleur1,
{
}

/// Replaces every pixel by `couleur1` when its luminance strictly exceeds
/// `seuil` (in ten-thousandths of a channel unit), else by `couleur2`.
pub fn apply_threshold_seuillage(
    rgb_image: &mut Grille,
    seuil: u32,
    couleur1: Pixel,
    couleur2: Pixel,
)
    requires
        old(rgb_image).est_valide(),
    ensures
        final(rgb_image).est_valide(),
        final(rgb_image).largeur == old(rgb_image).largeur,
        final(rgb_image).hauteur == old(rgb_image).hauteur,
        forall|x: int, y: int|
            0 <= x < old(rgb_image).largeur && 0 <= y < old(rgb_image).hauteur
                ==> final(rgb_image).pixel_en(x, y) == seuillage_pixel(
                #[trigger] old(rgb_image).pixel_en(x, y),
                seuil as int,
                couleur1,
                couleur2,
            ),
{
    let ghost origine = rgb_image.pixels@;
    let ghost l = rgb_image.largeur as int;
    let ghost h = rgb_image.hauteur as int;
    let n = rgb_image.pixels.len();
    let mut k: usize = 0;
    while k < n
        invariant
            k <= n,
            rgb_image.pixels@.len() == n,
            rgb_image.largeur == l,
            rgb_image.hauteur == h,
            origine.len() == n,
            forall|j: int|
                0 <= j < k ==> rgb_image.pixels@[j] == seuillage_pixel(
                    #[trigger] origine[j],
                    seuil as int,
                    couleur1,
                    couleur2,
                ),
            forall|j: int| k <= j < n ==> rgb_image.pixels@[j] == origine[j],
        decreases n - k,
    {
        let lum = get_luminance(&rgb_image.pixels[k]);
        let q = if lum > seuil {
            couleur1
        } else {
            couleur2
        };
        rgb_image.pixels[k] = q;
        k += 1;
    }
    proof {
        assert forall|x: int, y: int| 0 <= x < l && 0 <= y < h implies final(rgb_image).pixel_en(
            x,
            y,
        ) == seuillage_pixel(
            #[trigger] old(rgb_image).pixel_en(x, y),
            seuil as int,
            couleur1,
            couleur2,
        ) by {
            lemma_indice_borne(x, y, l, h);
        }
    }
}

/// Paints every pixel in an even column white and leaves the others as
/// they are.
pub fn white_pixel_1_out_of_2(rgb_image: &mut Grille)
    requires
        old(rgb_image).est_valide(),
    ensures
        final(rgb_image).est_valide(),
        final(rgb_image).largeur == old(rgb_image).largeur,
        final(rgb_image).hauteur == old(rgb_image).hauteur,
        forall|x: int, y: int|
            0 <= x < old(rgb_image).largeur && 0 <= y < old(rgb_image).hauteur
                ==> #[trigger] final(rgb_image).pixel_en(x, y) == (if x % 2 == 0 {
                blanc()
            } else {
                old(rgb_image).pixel_en(x, y)
            }),
{
    let ghost origine = rgb_image.pixels@;
    let ghost l = rgb_image.largeur as int;
    let ghost h = rgb_image.hauteur as int;
    let n = rgb_image.pixels.len();
    let mut k: usize = 0;
    while k < n
        invariant
            k <= n,
            rgb_image.pixels@.len() == n,
            rgb_image.largeur == l,
            rgb_image.hauteur == h,
            rgb_image.est_valide(),
            origine.len() == n,
            forall|j: int|
                0 <= j < k ==> #[trigger] rgb_image.pixels@[j] == (if (j % l) % 2 == 0 {
                    blanc()
                } else {
                    origine[j]
                }),
            forall|j: int| k <= j < n ==> rgb_image.pixels@[j] == origine[j],
        decreases n - k,
    {
        proof {
            assert(l > 0) by (nonlinear_arith)
                requires
                    l * h == n,
                    0 <= k < n,
                    l >= 0,
                    h >= 0,
            ;
        }
        let x = k % rgb_image.largeur;
        if x % 2 == 0 {
            let q = Pixel { r: 255, g: 255, b: 255 };
            rgb_image.pixels[k] = q;
        }
        k += 1;
    }
    proof {
        assert forall|x: int, y: int| 0 <= x < l && 0 <= y < h implies
            #[trigger] final(rgb_image).pixel_en(x, y) == (if x % 2 == 0 {
            blanc()
        } else {
            old(rgb_image).pixel_en(x, y)
        }) by {
            lemma_indice_borne(x, y, l, h);
            lemma_colonne_ligne(x, y, l);
        }
    }
}

} // verus!
