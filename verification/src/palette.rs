//! The fixed 8-color palette and the nearest-color matcher: every
//! quantization strategy that maps a pixel onto a reduced set of colors
//! goes through the search defined here.

use vstd::prelude::*;
use crate::couleur::{
    Pixel, distance_carree, distance_carree_spec, lemma_distance_nulle, lemma_distance_nulle_egaux,
    lemma_distance_positive, noir, blanc, rouge, vert, bleu, jaune, cyan, magenta,
};
use crate::grille::{Grille, lemma_indice_borne};

verus! {

/// A configuration error, surfaced before any pixel work begins.
#[derive(Clone, Copy, PartialEq, Eq, Structural, Debug)]
pub enum ErreurConfig {
    /// The requested number of palette colors lies outside 1..=8.
    NombreCouleursInvalide,
}

/// The canonical 8-color palette, in its canonical order.
pub open spec fn palette_complete() -> Seq<Pixel> {
    seq![noir(), blanc(), rouge(), vert(), bleu(), jaune(), cyan(), magenta()]
}

/// The i-th color of the canonical palette.
pub fn couleur_canonique(i: usize) -> (c: Pixel)
    requires
        i < 8,
    ensures
        c == palette_complete()[i as int],
{
    if i == 0 {
        Pixel { r: 0, g: 0, b: 0 }
    } else if i == 1 {
        Pixel { r: 255, g: 255, b: 255 }
    } else if i == 2 {
        Pixel { r: 255, g: 0, b: 0 }
    } else if i == 3 {
        Pixel { r: 0, g: 255, b: 0 }
    } else if i == 4 {
        Pixel { r: 0, g: 0, b: 255 }
    } else if i == 5 {
        Pixel { r: 255, g: 255, b: 0 }
    } else if i == 6 {
        Pixel { r: 0, g: 255, b: 255 }
    } else {
        Pixel { r: 255, g: 0, b: 255 }
    }
}

/// Builds the palette holding the first `n_couleurs` colors of the canonical
/// order. A request outside 1..=8 is a configuration error and is rejected
/// before any pixel work.
pub fn palette_canonique(n_couleurs: usize) -> (r: Result<Vec<Pixel>, ErreurConfig>)
    ensures
        (r is Ok) <==> 1 <= n_couleurs <= 8,
        match r {
            Ok(pal) => pal@ == palette_complete().take(n_couleurs as int),
            Err(e) => e == ErreurConfig::NombreCouleursInvalide,
        },
{
    if n_couleurs == 0 || n_couleurs > 8 {
        return Err(ErreurConfig::NombreCouleursInvalide);
    }
    let mut pal: Vec<Pixel> = Vec::new();
    let mut i: usize = 0;
    while i < n_couleurs
        invariant
            i <= n_couleurs <= 8,
            pal@.len() == i,
            forall|j: int| 0 <= j < i ==> pal@[j] == palette_complete()[j],
        decreases n_couleurs - i,
    {
        pal.push(couleur_canonique(i));
        i += 1;
    }
    proof {
        assert(pal@ =~= palette_complete().take(n_couleurs as int));
    }
    Ok(pal)
}

/// The palette entry closest to `c` by Euclidean distance; on a tie, the
/// earliest entry in palette order wins.
pub open spec fn couleur_la_plus_proche(c: Pixel, pal: Seq<Pixel>) -> Pixel
    recommends
        pal.len() >= 1,
    decreases pal.len(),
{
    if pal.len() <= 1 {
        pal[0]
    } else {
        let avant = couleur_la_plus_proche(c, pal.drop_last());
        if distance_carree_spec(c, pal.last()) < distance_carree_spec(c, avant) {
            pal.last()
        } else {
            avant
        }
    }
}

/// The chosen color belongs to the palette and minimizes the distance to `c`.
pub proof fn lemma_plus_proche_minimale(c: Pixel, pal: Seq<Pixel>)
    requires
        pal.len() >= 1,
    ensures
        pal.contains(couleur_la_plus_proche(c, pal)),
        forall|j: int|
            0 <= j < pal.len() ==> distance_carree_spec(c, couleur_la_plus_proche(c, pal))
                <= distance_carree_spec(c, #[trigger] pal[j]),
    decreases pal.len(),
{
    if pal.len() == 1 {
        assert(pal[0] == couleur_la_plus_proche(c, pal));
    } else {
        lemma_plus_proche_minimale(c, pal.drop_last());
        let avant = couleur_la_plus_proche(c, pal.drop_last());
        assert forall|j: int| 0 <= j < pal.len() implies distance_carree_spec(
            c,
            couleur_la_plus_proche(c, pal),
        ) <= distance_carree_spec(c, #[trigger] pal[j]) by {
            if j < pal.len() - 1 {
                assert(pal.drop_last()[j] == pal[j]);
            }
        }
        if !(distance_carree_spec(c, pal.last()) < distance_carree_spec(c, avant)) {
            let i = choose|i: int| 0 <= i < pal.drop_last().len() && pal.drop_last()[i] == avant;
            assert(pal[i] == avant);
        }
    }
}

/// The index of the chosen palette entry: `i` points at the chosen color and
/// every earlier entry is strictly farther from `c`.
pub open spec fn est_premier_minimum(c: Pixel, pal: Seq<Pixel>, i: int) -> bool {
    &&& 0 <= i < pal.len()
    &&& pal[i] == couleur_la_plus_proche(c, pal)
    &&& forall|j: int|
        0 <= j < i ==> distance_carree_spec(c, #[trigger] pal[j]) > distance_carree_spec(
            c,
            pal[i],
        )
}

/// Tie-break: the chosen color sits at an index before which every entry is
/// strictly farther from `c`, so the first entry achieving the minimum wins.
pub proof fn lemma_plus_proche_premiere(c: Pixel, pal: Seq<Pixel>)
    requires
        pal.len() >= 1,
    ensures
        exists|i: int| est_premier_minimum(c, pal, i),
    decreases pal.len(),
{
    if pal.len() == 1 {
        assert(est_premier_minimum(c, pal, 0));
    } else {
        lemma_plus_proche_premiere(c, pal.drop_last());
        lemma_plus_proche_minimale(c, pal.drop_last());
        let avant = couleur_la_plus_proche(c, pal.drop_last());
        let i0 = choose|i: int| est_premier_minimum(c, pal.drop_last(), i);
        if distance_carree_spec(c, pal.last()) < distance_carree_spec(c, avant) {
            assert forall|j: int| 0 <= j < pal.len() - 1 implies distance_carree_spec(
                c,
                #[trigger] pal[j],
            ) > distance_carree_spec(c, pal[pal.len() - 1]) by {
                assert(pal.drop_last()[j] == pal[j]);
            }
            assert(est_premier_minimum(c, pal, pal.len() - 1));
        } else {
            assert(pal.drop_last()[i0] == pal[i0]);
            assert forall|j: int| 0 <= j < i0 implies distance_carree_spec(c, #[trigger] pal[j])
                > distance_carree_spec(c, pal[i0]) by {
                assert(pal.drop_last()[j] == pal[j]);
            }
            assert(est_premier_minimum(c, pal, i0));
        }
    }
}

/// A palette that contains the queried color exactly gives back that color,
/// at distance zero.
pub proof fn lemma_plus_proche_exacte(c: Pixel, pal: Seq<Pixel>)
    requires
        pal.len() >= 1,
        pal.contains(c),
    ensures
        couleur_la_plus_proche(c, pal) == c,
        distance_carree_spec(c, couleur_la_plus_proche(c, pal)) == 0,
{
    lemma_plus_proche_minimale(c, pal);
    let ch = couleur_la_plus_proche(c, pal);
    let i = choose|i: int| 0 <= i < pal.len() && pal[i] == c;
    lemma_distance_nulle(c);
    assert(distance_carree_spec(c, ch) <= distance_carree_spec(c, pal[i]));
    lemma_distance_positive(c, ch);
    lemma_distance_nulle_egaux(c, ch);
}

/// Finds the palette entry closest to `c`; on a tie, the earliest entry in
/// palette order wins.
pub fn couleur_plus_proche(c: &Pixel, palette: &Vec<Pixel>) -> (r: Pixel)
    requires
        palette@.len() >= 1,
    ensures
        r == couleur_la_plus_proche(*c, palette@),
{
    let mut meilleure = palette[0];
    let mut meilleure_distance = distance_carree(c, &palette[0]);
    let mut i: usize = 1;
    assert(palette@.take(1)[0] == palette@[0]);
    while i < palette.len()
        invariant
            1 <= i <= palette@.len(),
            meilleure == couleur_la_plus_proche(*c, palette@.take(i as int)),
            meilleure_distance == distance_carree_spec(*c, meilleure),
        decreases palette@.len() - i,
    {
        let d = distance_carree(c, &palette[i]);
        proof {
            assert(palette@.take(i + 1).drop_last() =~= palette@.take(i as int));
            assert(palette@.take(i + 1).last() == palette@[i as int]);
        }
        if d < meilleure_distance {
            meilleure = palette[i];
            meilleure_distance = d;
        }
        i += 1;
    }
    proof {
        assert(palette@.take(palette@.len() as int) =~= palette@);
    }
    meilleure
}

/// Quantizes every pixel of the grid onto the given non-empty palette,
/// replacing each pixel by its nearest palette entry, so every output
/// pixel belongs to the palette.
pub fn apply_distance_eucli(rgb_image: &mut Grille, palette: &Vec<Pixel>)
    requires
        old(rgb_image).est_valide(),
        palette@.len() >= 1,
    ensures
        final(rgb_image).est_valide(),
        final(rgb_image).largeur == old(rgb_image).largeur,
        final(rgb_image).hauteur == old(rgb_image).hauteur,
        forall|x: int, y: int|
            0 <= x < old(rgb_image).largeur && 0 <= y < old(rgb_image).hauteur
                ==> final(rgb_image).pixel_en(x, y) == couleur_la_plus_proche(
                #[trigger] old(rgb_image).pixel_en(x, y),
                palette@,
            ),
        forall|j: int|
            0 <= j < final(rgb_image).pixels@.len() ==> palette@.contains(
                #[trigger] final(rgb_image).pixels@[j],
            ),
{
    let ghost origine = rgb_image.pixels@;
    let ghost l = rgb_image.largeur as int;
    let ghost h = rgb_image.hauteur as int;
    let n = rgb_image.pixels.len();
    let mut k: usize = 0;
    while k < n
        invariant
            k <= n,
            rgb_image.pixels@.len() == n,
            rgb_image.largeur == l,
            rgb_image.hauteur == h,
            origine.len() == n,
            palette@.len() >= 1,
            forall|j: int|
                0 <= j < k ==> rgb_image.pixels@[j] == couleur_la_plus_proche(
                    #[trigger] origine[j],
                    palette@,
                ),
            forall|j: int| 0 <= j < k ==> palette@.contains(#[trigger] rgb_image.pixels@[j]),
            forall|j: int| k <= j < n ==> rgb_image.pixels@[j] == origine[j],
        decreases n - k,
    {
        let p = rgb_image.pixels[k];
        let q = couleur_plus_proche(&p, palette);
        proof {
            lemma_plus_proche_minimale(p, palette@);
        }
        rgb_image.pixels[k] = q;
        k += 1;
    }
    proof {
        assert forall|x: int, y: int| 0 <= x < l && 0 <= y < h implies final(rgb_image).pixel_en(
            x,
            y,
        ) == couleur_la_plus_proche(#[trigger] old(rgb_image).pixel_en(x, y), palette@) by {
            lemma_indice_borne(x, y, l, h);
        }
    }
}

} // verus!
