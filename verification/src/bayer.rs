//! Ordered (Bayer) dithering: a recursively built threshold matrix whose
//! cells form a permutation of 0..size*size, tiled over the image by modulo
//! indexing, each cell giving a per-pixel luminance threshold.

use vstd::prelude::*;
use crate::couleur::{Pixel, blanc, noir, get_luminance};
use crate::grille::{Grille, lemma_indice_borne, lemma_colonne_ligne};
use crate::seuillage::seuillage_pixel;

verus! {

/// Side length of the order-k matrix: 2^k.
pub open spec fn taille_bayer(ordre: nat) -> nat
    decreases ordre,
{
    if ordre == 0 {
        1
    } else {
        2 * taille_bayer((ordre - 1) as nat)
    }
}

/// The cell (i, j) of the order-k matrix. Order 0 is the single cell 0;
/// the order-k matrix is four copies of the order-(k-1) matrix, each value
/// scaled by 4 and offset by the quadrant's rank: 0 top-left, 2 bottom-left,
/// 3 top-right, 1 bottom-right (rows indexed by i, columns by j).
pub open spec fn valeur_bayer(ordre: nat, i: int, j: int) -> int
    recommends
        0 <= i < taille_bayer(ordre),
        0 <= j < taille_bayer(ordre),
    decreases ordre,
{
    if ordre == 0 {
        0
    } else {
        let s = taille_bayer((ordre - 1) as nat) as int;
        let bi = if i < s {
            i
        } else {
            i - s
        };
        let bj = if j < s {
            j
        } else {
            j - s
        };
        let decalage: int = if i < s && j < s {
            0
        } else if i >= s && j < s {
            2
        } else if i < s && j >= s {
            3
        } else {
            1
        };
        4 * valeur_bayer((ordre - 1) as nat, bi, bj) + decalage
    }
}

/// The matrix side is at least one cell.
pub proof fn lemma_taille_bayer_min(ordre: nat)
    ensures
        taille_bayer(ordre) >= 1,
    decreases ordre,
{
    if ordre > 0 {
        lemma_taille_bayer_min((ordre - 1) as nat);
    }
}

/// The matrix side grows with the order.
pub proof fn lemma_taille_bayer_monotone(o1: nat, o2: nat)
    requires
        o1 <= o2,
    ensures
        taille_bayer(o1) <= taille_bayer(o2),
    decreases o2,
{
    if o1 < o2 {
        lemma_taille_bayer_monotone(o1, (o2 - 1) as nat);
        lemma_taille_bayer_min((o2 - 1) as nat);
    }
}

/// Orders up to 15 keep the matrix side within 2^15 cells.
pub proof fn lemma_taille_bayer_max(ordre: nat)
    requires
        ordre <= 15,
    ensures
        taille_bayer(ordre) <= 32768,
{
    lemma_taille_bayer_monotone(ordre, 15);
    reveal_with_fuel(taille_bayer, 17);
    assert(taille_bayer(15) == 32768);
}

/// Every cell value lies in 0..size*size.
pub proof fn lemma_bayer_bornes(ordre: nat, i: int, j: int)
    requires
        0 <= i < taille_bayer(ordre),
        0 <= j < taille_bayer(ordre),
    ensures
        0 <= valeur_bayer(ordre, i, j) < taille_bayer(ordre) * taille_bayer(ordre),
    decreases ordre,
{
    if ordre == 0 {
    } else {
        let s = taille_bayer((ordre - 1) as nat) as int;
        lemma_taille_bayer_min((ordre - 1) as nat);
        let bi = if i < s {
            i
        } else {
            i - s
        };
        let bj = if j < s {
            j
        } else {
            j - s
        };
        lemma_bayer_bornes((ordre - 1) as nat, bi, bj);
        assert((2 * s) * (2 * s) == 4 * (s * s)) by (nonlinear_arith);
    }
}

/// Distinct cells hold distinct values: together with the bounds, the
/// size*size cell values are a permutation of 0..size*size.
pub proof fn lemma_bayer_injective(ordre: nat, i1: int, j1: int, i2: int, j2: int)
    requires
        0 <= i1 < taille_bayer(ordre),
        0 <= j1 < taille_bayer(ordre),
        0 <= i2 < taille_bayer(ordre),
        0 <= j2 < taille_bayer(ordre),
        valeur_bayer(ordre, i1, j1) == valeur_bayer(ordre, i2, j2),
    ensures
        i1 == i2 && j1 == j2,
    decreases ordre,
{
    if ordre == 0 {
    } else {
        let s = taille_bayer((ordre - 1) as nat) as int;
        lemma_taille_bayer_min((ordre - 1) as nat);
        let b1 = valeur_bayer(
            (ordre - 1) as nat,
            if i1 < s { i1 } else { i1 - s },
            if j1 < s { j1 } else { j1 - s },
        );
        let b2 = valeur_bayer(
            (ordre - 1) as nat,
            if i2 < s { i2 } else { i2 - s },
            if j2 < s { j2 } else { j2 - s },
        );
        lemma_bayer_bornes(
            (ordre - 1) as nat,
            if i1 < s { i1 } else { i1 - s },
            if j1 < s { j1 } else { j1 - s },
        );
        lemma_bayer_bornes(
            (ordre - 1) as nat,
            if i2 < s { i2 } else { i2 - s },
            if j2 < s { j2 } else { j2 - s },
        );
        assert(b1 == b2);
        lemma_bayer_injective(
            (ordre - 1) as nat,
            if i1 < s { i1 } else { i1 - s },
            if j1 < s { j1 } else { j1 - s },
            if i2 < s { i2 } else { i2 - s },
            if j2 < s { j2 } else { j2 - s },
        );
    }
}

/// Every value below size*size appears in some cell: together with the
/// bounds and injectivity, the matrix spans 0..size*size exactly once.
pub proof fn lemma_bayer_surjective(ordre: nat, v: int)
    requires
        0 <= v < taille_bayer(ordre) * taille_bayer(ordre),
    ensures
        exists|i: int, j: int|
            0 <= i < taille_bayer(ordre) && 0 <= j < taille_bayer(ordre) && #[trigger] valeur_bayer(
                ordre,
                i,
                j,
            ) == v,
    decreases ordre,
{
    if ordre == 0 {
        let t = taille_bayer(ordre) as int;
        assert(v == 0) by (nonlinear_arith)
            requires
                t == 1,
                0 <= v,
                v < t * t,
        ;
        assert(valeur_bayer(ordre, 0, 0) == v);
    } else {
        let s = taille_bayer((ordre - 1) as nat) as int;
        lemma_taille_bayer_min((ordre - 1) as nat);
        assert((2 * s) * (2 * s) == 4 * (s * s)) by (nonlinear_arith);
        let base = v / 4;
        let d = v % 4;
        lemma_bayer_surjective((ordre - 1) as nat, base);
        let (i0, j0): (int, int) = choose|i0: int, j0: int|
            0 <= i0 < taille_bayer((ordre - 1) as nat) && 0 <= j0 < taille_bayer(
                (ordre - 1) as nat,
            ) && #[trigger] valeur_bayer((ordre - 1) as nat, i0, j0) == base;
        if d == 0 {
            assert(valeur_bayer(ordre, i0, j0) == v);
        } else if d == 2 {
            assert(valeur_bayer(ordre, i0 + s, j0) == v);
        } else if d == 3 {
            assert(valeur_bayer(ordre, i0, j0 + s) == v);
        } else {
            assert(valeur_bayer(ordre, i0 + s, j0 + s) == v);
        }
    }
}

/// Builds the order-k Bayer threshold matrix, row by row: a square matrix
/// of side 2^k whose cells are exactly the recursive quadrant values.
pub fn genere_matrice_bayer(ordre: u32) -> (m: Vec<Vec<u32>>)
    requires
        ordre <= 15,
    ensures
        m@.len() == taille_bayer(ordre as nat),
        forall|i: int| 0 <= i < m@.len() ==> (#[trigger] m@[i])@.len() == taille_bayer(
            ordre as nat,
        ),
        forall|i: int, j: int|
            0 <= i < m@.len() && 0 <= j < m@.len() ==> (#[trigger] m@[i]@[j]) == valeur_bayer(
                ordre as nat,
                i,
                j,
            ),
    decreases ordre,
{
    if ordre == 0 {
        let mut ligne: Vec<u32> = Vec::new();
        ligne.push(0);
        let mut m: Vec<Vec<u32>> = Vec::new();
        m.push(ligne);
        return m;
    }
    let prec = genere_matrice_bayer(ordre - 1);
    let s = prec.len();
    proof {
        lemma_taille_bayer_min((ordre - 1) as nat);
        lemma_taille_bayer_max(ordre as nat);
        assert(taille_bayer(ordre as nat) == 2 * taille_bayer((ordre - 1) as nat));
    }
    let ns = s * 2;
    let mut m: Vec<Vec<u32>> = Vec::new();
    let mut i: usize = 0;
    while i < ns
        invariant
            i <= ns,
            1 <= s <= 16384,
            ns == 2 * s,
            1 <= ordre <= 15,
            s == taille_bayer((ordre - 1) as nat),
            ns == taille_bayer(ordre as nat),
            prec@.len() == s,
            forall|a: int| 0 <= a < s ==> (#[trigger] prec@[a])@.len() == s,
            forall|a: int, b: int|
                0 <= a < s && 0 <= b < s ==> (#[trigger] prec@[a]@[b]) == valeur_bayer(
                    (ordre - 1) as nat,
                    a,
                    b,
                ),
            m@.len() == i,
            forall|a: int| 0 <= a < i ==> (#[trigger] m@[a])@.len() == ns,
            forall|a: int, b: int|
                0 <= a < i && 0 <= b < ns ==> (#[trigger] m@[a]@[b]) == valeur_bayer(
                    ordre as nat,
                    a,
                    b,
                ),
        decreases ns - i,
    {
        let mut ligne: Vec<u32> = Vec::new();
        let mut j: usize = 0;
        while j < ns
            invariant
                j <= ns,
                i < ns,
                1 <= s <= 16384,
                ns == 2 * s,
                1 <= ordre <= 15,
                s == taille_bayer((ordre - 1) as nat),
                ns == taille_bayer(ordre as nat),
                prec@.len() == s,
                forall|a: int| 0 <= a < s ==> (#[trigger] prec@[a])@.len() == s,
                forall|a: int, b: int|
                    0 <= a < s && 0 <= b < s ==> (#[trigger] prec@[a]@[b]) == valeur_bayer(
                        (ordre - 1) as nat,
                        a,
                        b,
                    ),
                ligne@.len() == j,
                forall|b: int| 0 <= b < j ==> (#[trigger] ligne@[b]) == valeur_bayer(
                    ordre as nat,
                    i as int,
                    b,
                ),
            decreases ns - j,
        {
            let bi = if i < s {
                i
            } else {
                i - s
            };
            let bj = if j < s {
                j
            } else {
                j - s
            };
            let base = prec[bi][bj];
            proof {
                lemma_bayer_bornes((ordre - 1) as nat, bi as int, bj as int);
                assert(s * s <= 16384 * 16384) by (nonlinear_arith)
                    requires
                        1 <= s <= 16384,
                ;
            }
            let d: u32 = if i < s && j < s {
                0
            } else if i >= s && j < s {
                2
            } else if i < s {
                3
            } else {
                1
            };
            ligne.push(base * 4 + d);
            j += 1;
        }
        m.push(ligne);
        i += 1;
    }
    m
}

/// The luminance threshold of cell (i, j), scaled to the channel range:
/// cell * 255 / (size * size), in channel units.
pub open spec fn seuil_bayer(ordre: nat, i: int, j: int) -> int {
    valeur_bayer(ordre, i, j) * 255 / (taille_bayer(ordre) * taille_bayer(ordre)) as int
}

/// Ordered dithering: tiles the order-k threshold matrix over the image by
/// modulo indexing; a pixel strictly brighter than its cell's scaled
/// threshold becomes white, else black.
pub fn apply_matrice_bayer(rgb_image: &mut Grille, ordre: u32)
    requires
        old(rgb_image).est_valide(),
        ordre <= 15,
    ensures
        final(rgb_image).est_valide(),
        final(rgb_image).largeur == old(rgb_image).largeur,
        final(rgb_image).hauteur == old(rgb_image).hauteur,
        forall|x: int, y: int|
            0 <= x < old(rgb_image).largeur && 0 <= y < old(rgb_image).hauteur
                ==> #[trigger] final(rgb_image).pixel_en(x, y) == seuillage_pixel(
                old(rgb_image).pixel_en(x, y),
                10000 * seuil_bayer(
                    ordre as nat,
                    x % taille_bayer(ordre as nat) as int,
                    y % taille_bayer(ordre as nat) as int,
                ),
                blanc(),
                noir(),
            ),
{
    let matrice = genere_matrice_bayer(ordre);
    let size = matrice.len();
    proof {
        lemma_taille_bayer_min(ordre as nat);
        lemma_taille_bayer_max(ordre as nat);
    }
    let ghost origine = rgb_image.pixels@;
    let ghost l = rgb_image.largeur as int;
    let ghost h = rgb_image.hauteur as int;
    let ghost ta = taille_bayer(ordre as nat) as int;
    let n = rgb_image.pixels.len();
    let mut k: usize = 0;
    while k < n
        invariant
            k <= n,
            rgb_image.pixels@.len() == n,
            rgb_image.largeur == l,
            rgb_image.hauteur == h,
            origine.len() == n,
            l * h == n,
            1 <= size <= 32768,
            size == ta,
            ta == taille_bayer(ordre as nat),
            matrice@.len() == size,
            forall|a: int| 0 <= a < size ==> (#[trigger] matrice@[a])@.len() == size,
            forall|a: int, b: int|
                0 <= a < size && 0 <= b < size ==> (#[trigger] matrice@[a]@[b]) == valeur_bayer(
                    ordre as nat,
                    a,
                    b,
                ),
            forall|j: int|
                0 <= j < k ==> #[trigger] rgb_image.pixels@[j] == seuillage_pixel(
                    origine[j],
                    10000 * seuil_bayer(ordre as nat, (j % l) % ta, (j / l) % ta),
                    blanc(),
                    noir(),
                ),
            forall|j: int| k <= j < n ==> rgb_image.pixels@[j] == origine[j],
        decreases n - k,
    {
        proof {
            assert(l > 0) by (nonlinear_arith)
                requires
                    l * h == n,
                    0 <= k < n,
                    l >= 0,
                    h >= 0,
            ;
        }
        let x = k % rgb_image.largeur;
        let y = k / rgb_image.largeur;
        let mi = x % size;
        let mj = y % size;
        let cellule = matrice[mi][mj];
        proof {
            lemma_bayer_bornes(ordre as nat, mi as int, mj as int);
            assert(size * size <= 32768 * 32768) by (nonlinear_arith)
                requires
                    1 <= size <= 32768,
            ;
        }
        let carre: u64 = (size as u64) * (size as u64);
        let seuil64: u64 = (cellule as u64) * 255 / carre;
        proof {
            assert((cellule as int) * 255 / (carre as int) < 255) by (nonlinear_arith)
                requires
                    cellule as int >= 0,
                    (cellule as int) < carre as int,
                    carre as int >= 1,
            ;
        }
        let seuil: u32 = (seuil64 as u32) * 10000;
        let lum = get_luminance(&rgb_image.pixels[k]);
        let q = if lum > seuil {
            Pixel { r: 255, g: 255, b: 255 }
        } else {
            Pixel { r: 0, g: 0, b: 0 }
        };
        rgb_image.pixels[k] = q;
        k += 1;
    }
    proof {
        assert forall|x: int, y: int| 0 <= x < l && 0 <= y < h implies
            #[trigger] final(rgb_image).pixel_en(x, y) == seuillage_pixel(
            old(rgb_image).pixel_en(x, y),
            10000 * seuil_bayer(ordre as nat, x % ta, y % ta),
            blanc(),
            noir(),
        ) by {
            lemma_indice_borne(x, y, l, h);
            lemma_colonne_ligne(x, y, l);
        }
    }
}

} // verus!
