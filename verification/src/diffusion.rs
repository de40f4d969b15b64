//! Error-diffusion dithering: a single pass in scan order (row-major,
//! left-to-right, top-to-bottom) that quantizes each pixel and hands the
//! quantization residual on to not-yet-processed neighbors.
//!
//! Residuals are exact fixed-point integers in the same ten-thousandth
//! units as luminance (or in plain channel units for the palette variant);
//! halves and sixteenth-parts are rounded toward zero. Each variant's
//! contract equates the output with a spec-level recurrence over the input
//! grid alone, so the transforms are deterministic: no hidden state and no
//! randomness can change the result.

use vstd::prelude::*;
use crate::couleur::{Pixel, blanc, noir, get_luminance, luminance_spec};
use crate::grille::Grille;

verus! {

/// Half of a residual, rounded toward zero.
pub open spec fn moitie_spec(e: int) -> int {
    if e >= 0 {
        e / 2
    } else {
        -((-e) / 2)
    }
}

/// num sixteenths of a residual, rounded toward zero.
pub open spec fn part_seizieme_spec(e: int, num: int) -> int {
    if e >= 0 {
        (e * num) / 16
    } else {
        -(((-e) * num) / 16)
    }
}

/// Computes half of a residual, rounding toward zero.
fn moitie(e: i64) -> (r: i64)
    ensures
        r as int == moitie_spec(e as int),
{
    e.checked_div(2).unwrap()
}

/// Computes num sixteenths of a residual, rounding toward zero.
fn part_seizieme(e: i64, num: i64) -> (r: i64)
    requires
        0 <= num <= 8,
        -2_000_000 <= e <= 2_000_000,
    ensures
        r as int == part_seizieme_spec(e as int, num as int),
{
    proof {
        assert(-16_000_000 <= e * num <= 16_000_000 && -16_000_000 <= (-e) * num <= 16_000_000)
            by (nonlinear_arith)
            requires
                0 <= num <= 8,
                -2_000_000 <= e <= 2_000_000,
        ;
    }
    if e >= 0 {
        (e * num).checked_div(16).unwrap()
    } else {
        let p = ((-e) * num).checked_div(16).unwrap();
        -p
    }
}

/// The residual flowing into cell `i` under the two-tap kernel: half the
/// error of the left neighbor and half the error of the neighbor above,
/// each present only when that neighbor exists.
pub open spec fn report_mono(e: Seq<int>, l: int, i: int) -> int {
    (if i % l >= 1 {
        moitie_spec(e[i - 1])
    } else {
        0
    }) + (if i >= l {
        moitie_spec(e[i - l])
    } else {
        0
    })
}

/// The quantization error of the next cell in scan order, given the errors
/// of all earlier cells: incoming luminance plus residual, minus white or
/// black, whichever the 0.5 threshold (1275000 in ten-thousandths) picks.
pub open spec fn erreur_suivante_mono(px: Seq<Pixel>, l: int, prec: Seq<int>) -> int {
    let i = prec.len() as int;
    let t = luminance_spec(px[i]) + report_mono(prec, l, i);
    t - (if t > 1275000 {
        2550000int
    } else {
        0int
    })
}

/// The quantization errors of the first `k` cells, in scan order.
pub open spec fn erreurs_mono(px: Seq<Pixel>, l: int, k: nat) -> Seq<int>
    decreases k,
{
    if k == 0 {
        Seq::empty()
    } else {
        let prec = erreurs_mono(px, l, (k - 1) as nat);
        prec.push(erreur_suivante_mono(px, l, prec))
    }
}

pub proof fn lemma_erreurs_mono_longueur(px: Seq<Pixel>, l: int, k: nat)
    ensures
        erreurs_mono(px, l, k).len() == k,
    decreases k,
{
    if k > 0 {
        lemma_erreurs_mono_longueur(px, l, (k - 1) as nat);
    }
}

/// The monochrome two-tap output: cell `i` is white exactly when its
/// luminance plus incoming residual strictly exceeds the mid-gray level.
pub open spec fn sortie_monochrome(px: Seq<Pixel>, l: int) -> Seq<Pixel> {
    Seq::new(
        px.len(),
        |i: int|
            {
                let t = luminance_spec(px[i]) + report_mono(erreurs_mono(px, l, i as nat), l, i);
                if t > 1275000 {
                    blanc()
                } else {
                    noir()
                }
            },
    )
}

/// Monochrome two-tap error diffusion: one scan-order pass; each pixel
/// becomes white or black by the mid-gray threshold on its luminance plus
/// accumulated residual, and half the quantization error flows to the right
/// neighbor and half to the neighbor below, when they exist. The output
/// equals a recurrence over the input grid alone, so two runs on equal
/// grids give equal results.
pub fn diffusion_erreur_monochrome(rgb_image: &mut Grille)
    requires
        old(rgb_image).est_valide(),
    ensures
        final(rgb_image).est_valide(),
        final(rgb_image).largeur == old(rgb_image).largeur,
        final(rgb_image).hauteur == old(rgb_image).hauteur,
        final(rgb_image).pixels@ == sortie_monochrome(
            old(rgb_image).pixels@,
            old(rgb_image).largeur as int,
        ),
        forall|j: int|
            0 <= j < final(rgb_image).pixels@.len() ==> #[trigger] final(rgb_image).pixels@[j]
                == blanc() || final(rgb_image).pixels@[j] == noir(),
{
    let ghost origine = rgb_image.pixels@;
    let ghost l = rgb_image.largeur as int;
    let ghost h = rgb_image.hauteur as int;
    let n = rgb_image.pixels.len();
    let mut erreurs: Vec<i64> = Vec::new();
    let mut k: usize = 0;
    while k < n
        invariant
            k <= n,
            rgb_image.pixels@.len() == n,
            rgb_image.largeur == l,
            rgb_image.hauteur == h,
            l * h == n,
            origine.len() == n,
            erreurs@.len() == k,
            forall|i: int|
                0 <= i < k ==> #[trigger] erreurs@[i] as int == erreurs_mono(
                    origine,
                    l,
                    k as nat,
                )[i],
            forall|i: int| 0 <= i < k ==> -1275000 <= #[trigger] erreurs@[i] <= 1275000,
            forall|j: int|
                0 <= j < k ==> #[trigger] rgb_image.pixels@[j] == sortie_monochrome(origine, l)[j],
            forall|j: int|
                0 <= j < k ==> #[trigger] rgb_image.pixels@[j] == blanc()
                    || rgb_image.pixels@[j] == noir(),
            forall|j: int| k <= j < n ==> rgb_image.pixels@[j] == origine[j],
        decreases n - k,
    {
        proof {
            assert(l > 0) by (nonlinear_arith)
                requires
                    l * h == n,
                    0 <= k < n,
                    l >= 0,
                    h >= 0,
            ;
            lemma_erreurs_mono_longueur(origine, l, k as nat);
        }
        let largeur = rgb_image.largeur;
        let x = k % largeur;
        let lum = get_luminance(&rgb_image.pixels[k]);
        let mut report: i64 = 0;
        if x >= 1 {
            proof {
                assert(k >= 1) by (nonlinear_arith)
                    requires
                        x as int == (k as int) % l,
                        x >= 1,
                        l > 0,
                        k >= 0,
                ;
            }
            report = report + moitie(erreurs[k - 1]);
        }
        if k >= largeur {
            report = report + moitie(erreurs[k - largeur]);
        }
        proof {
            assert(report as int == report_mono(erreurs_mono(origine, l, k as nat), l, k as int));
            assert(-1275000 <= report <= 1275000);
        }
        let t: i64 = lum as i64 + report;
        let q: Pixel;
        let ek: i64;
        if t > 1275000 {
            q = Pixel { r: 255, g: 255, b: 255 };
            ek = t - 2550000;
        } else {
            q = Pixel { r: 0, g: 0, b: 0 };
            ek = t;
        }
        rgb_image.pixels[k] = q;
        erreurs.push(ek);
        proof {
            let prec = erreurs_mono(origine, l, k as nat);
            assert(erreurs_mono(origine, l, (k + 1) as nat) == prec.push(
                erreur_suivante_mono(origine, l, prec),
            ));
            assert(ek as int == erreur_suivante_mono(origine, l, prec));
            assert(rgb_image.pixels@[k as int] == sortie_monochrome(origine, l)[k as int]);
        }
        k += 1;
    }
    proof {
        lemma_erreurs_mono_longueur(origine, l, n as nat);
        assert(rgb_image.pixels@ =~= sortie_monochrome(origine, l));
    }
}

/// The residual flowing into cell `i` under the Floyd-Steinberg kernel:
/// 7/16 of the left neighbor's error, 3/16 from above-right, 5/16 from
/// above, and 1/16 from above-left, each present only when that neighbor
/// exists.
pub open spec fn report_fs(e: Seq<int>, l: int, i: int) -> int {
    (if i % l >= 1 {
        part_seizieme_spec(e[i - 1], 7)
    } else {
        0
    }) + (if i >= l && (i % l) + 1 < l {
        part_seizieme_spec(e[i - l + 1], 3)
    } else {
        0
    }) + (if i >= l {
        part_seizieme_spec(e[i - l], 5)
    } else {
        0
    }) + (if i >= l && i % l >= 1 {
        part_seizieme_spec(e[i - l - 1], 1)
    } else {
        0
    })
}

/// The quantization error of the next cell in scan order under the
/// Floyd-Steinberg kernel.
pub open spec fn erreur_suivante_fs(px: Seq<Pixel>, l: int, prec: Seq<int>) -> int {
    let i = prec.len() as int;
    let t = luminance_spec(px[i]) + report_fs(prec, l, i);
    t - (if t > 1275000 {
        2550000int
    } else {
        0int
    })
}

/// The quantization errors of the first `k` cells under the
/// Floyd-Steinberg kernel, in scan order.
pub open spec fn erreurs_fs(px: Seq<Pixel>, l: int, k: nat) -> Seq<int>
    decreases k,
{
    if k == 0 {
        Seq::empty()
    } else {
        let prec = erreurs_fs(px, l, (k - 1) as nat);
        prec.push(erreur_suivante_fs(px, l, prec))
    }
}

pub proof fn lemma_erreurs_fs_longueur(px: Seq<Pixel>, l: int, k: nat)
    ensures
        erreurs_fs(px, l, k).len() == k,
    decreases k,
{
    if k > 0 {
        lemma_erreurs_fs_longueur(px, l, (k - 1) as nat);
    }
}

/// The Floyd-Steinberg output: cell `i` is white exactly when its luminance
/// plus incoming residual strictly exceeds the mid-gray level.
pub open spec fn sortie_floyd_steinberg(px: Seq<Pixel>, l: int) -> Seq<Pixel> {
    Seq::new(
        px.len(),
        |i: int|
            {
                let t = luminance_spec(px[i]) + report_fs(erreurs_fs(px, l, i as nat), l, i);
                if t > 1275000 {
                    blanc()
                } else {
                    noir()
                }
            },
    )
}

/// Monochrome Floyd-Steinberg error diffusion: one scan-order pass; each
/// pixel becomes white or black by the mid-gray threshold on its luminance
/// plus accumulated residual, and the quantization error spreads 7/16 to
/// the right, 3/16 below-left, 5/16 below and 1/16 below-right, skipping
/// targets outside the grid. The output equals a recurrence over the input
/// grid alone, so two runs on equal grids give equal results.
#[verifier::rlimit(80)]
pub fn diffusion_erreur_floyd_steinberg(rgb_image: &mut Grille)
    requires
        old(rgb_image).est_valide(),
    ensures
        final(rgb_image).est_valide(),
        final(rgb_image).largeur == old(rgb_image).largeur,
        final(rgb_image).hauteur == old(rgb_image).hauteur,
        final(rgb_image).pixels@ == sortie_floyd_steinberg(
            old(rgb_image).pixels@,
            old(rgb_image).largeur as int,
        ),
        forall|j: int|
            0 <= j < final(rgb_image).pixels@.len() ==> #[trigger] final(rgb_image).pixels@[j]
                == blanc() || final(rgb_image).pixels@[j] == noir(),
{
    let ghost origine = rgb_image.pixels@;
    let ghost l = rgb_image.largeur as int;
    let ghost h = rgb_image.hauteur as int;
    let n = rgb_image.pixels.len();
    let mut erreurs: Vec<i64> = Vec::new();
    let mut k: usize = 0;
    while k < n
        invariant
            k <= n,
            rgb_image.pixels@.len() == n,
            rgb_image.largeur == l,
            rgb_image.hauteur == h,
            l * h == n,
            origine.len() == n,
            erreurs@.len() == k,
            forall|i: int|
                0 <= i < k ==> #[trigger] erreurs@[i] as int == erreurs_fs(
                    origine,
                    l,
                    k as nat,
                )[i],
            forall|i: int| 0 <= i < k ==> -1275000 <= #[trigger] erreurs@[i] <= 1275000,
            forall|j: int|
                0 <= j < k ==> #[trigger] rgb_image.pixels@[j] == sortie_floyd_steinberg(
                    origine,
                    l,
                )[j],
            forall|j: int|
                0 <= j < k ==> #[trigger] rgb_image.pixels@[j] == blanc()
                    || rgb_image.pixels@[j] == noir(),
            forall|j: int| k <= j < n ==> rgb_image.pixels@[j] == origine[j],
        decreases n - k,
    {
        proof {
            assert(l > 0) by (nonlinear_arith)
                requires
                    l * h == n,
                    0 <= k < n,
                    l >= 0,
                    h >= 0,
            ;
            lemma_erreurs_fs_longueur(origine, l, k as nat);
        }
        let largeur = rgb_image.largeur;
        let x = k % largeur;
        let lum = get_luminance(&rgb_image.pixels[k]);
        let mut report: i64 = 0;
        if x >= 1 {
            proof {
                assert(k >= 1) by (nonlinear_arith)
                    requires
                        x as int == (k as int) % l,
                        x >= 1,
                        l > 0,
                        k >= 0,
                ;
            }
            report = report + part_seizieme(erreurs[k - 1], 7);
        }
        if k >= largeur {
            if x + 1 < largeur {
                report = report + part_seizieme(erreurs[k - largeur + 1], 3);
            }
            report = report + part_seizieme(erreurs[k - largeur], 5);
            if x >= 1 {
                proof {
                    assert(k >= l + 1) by (nonlinear_arith)
                        requires
                            x as int == (k as int) % l,
                            x >= 1,
                            l > 0,
                            k as int >= l,
                    ;
                }
                report = report + part_seizieme(erreurs[k - largeur - 1], 1);
            }
        }
        proof {
            assert(report as int == report_fs(erreurs_fs(origine, l, k as nat), l, k as int));
            assert(-1275000 <= report <= 1275000);
        }
        let t: i64 = lum as i64 + report;
        let q: Pixel;
        let ek: i64;
        if t > 1275000 {
            q = Pixel { r: 255, g: 255, b: 255 };
            ek = t - 2550000;
        } else {
            q = Pixel { r: 0, g: 0, b: 0 };
            ek = t;
        }
        rgb_image.pixels[k] = q;
        erreurs.push(ek);
        proof {
            let prec = erreurs_fs(origine, l, k as nat);
            assert(erreurs_fs(origine, l, (k + 1) as nat) == prec.push(
                erreur_suivante_fs(origine, l, prec),
            ));
            assert(ek as int == erreur_suivante_fs(origine, l, prec));
            assert(rgb_image.pixels@[k as int] == sortie_floyd_steinberg(origine, l)[k as int]);
        }
        k += 1;
    }
    proof {
        lemma_erreurs_fs_longueur(origine, l, n as nat);
        assert(rgb_image.pixels@ =~= sortie_floyd_steinberg(origine, l));
    }
}

/// Clamps a channel value plus residual back into the 8-bit range.
pub open spec fn borne_u8(v: int) -> u8 {
    if v < 0 {
        0
    } else if v > 255 {
        255
    } else {
        v as u8
    }
}

/// Computes the clamped channel value.
fn borne(v: i64) -> (r: u8)
    ensures
        r == borne_u8(v as int),
{
    if v < 0 {
        0
    } else if v > 255 {
        255
    } else {
        v as u8
    }
}

/// The three-channel residual flowing into cell `i` under the two-tap
/// kernel, in plain channel units.
pub open spec fn report_palette(e: Seq<(int, int, int)>, l: int, i: int) -> (int, int, int) {
    let gauche = if i % l >= 1 {
        (moitie_spec(e[i - 1].0), moitie_spec(e[i - 1].1), moitie_spec(e[i - 1].2))
    } else {
        (0int, 0int, 0int)
    };
    let haut = if i >= l {
        (moitie_spec(e[i - l].0), moitie_spec(e[i - l].1), moitie_spec(e[i - l].2))
    } else {
        (0int, 0int, 0int)
    };
    (gauche.0 + haut.0, gauche.1 + haut.1, gauche.2 + haut.2)
}

/// The color a cell presents to the palette search: its original channels
/// plus the incoming residual, clamped back into the 8-bit range.
pub open spec fn reconstruit(p: Pixel, rep: (int, int, int)) -> Pixel {
    Pixel { r: borne_u8(p.r + rep.0), g: borne_u8(p.g + rep.1), b: borne_u8(p.b + rep.2) }
}

/// The vector quantization error of the next cell in scan order: the
/// unclamped reconstructed channels minus the chosen palette color.
pub open spec fn erreur_suivante_palette(
    px: Seq<Pixel>,
    pal: Seq<Pixel>,
    l: int,
    prec: Seq<(int, int, int)>,
) -> (int, int, int) {
    let i = prec.len() as int;
    let rep = report_palette(prec, l, i);
    let choisie = crate::palette::couleur_la_plus_proche(reconstruit(px[i], rep), pal);
    (
        px[i].r + rep.0 - choisie.r,
        px[i].g + rep.1 - choisie.g,
        px[i].b + rep.2 - choisie.b,
    )
}

/// The vector quantization errors of the first `k` cells, in scan order.
pub open spec fn erreurs_palette(px: Seq<Pixel>, pal: Seq<Pixel>, l: int, k: nat) -> Seq<
    (int, int, int),
>
    decreases k,
{
    if k == 0 {
        Seq::empty()
    } else {
        let prec = erreurs_palette(px, pal, l, (k - 1) as nat);
        prec.push(erreur_suivante_palette(px, pal, l, prec))
    }
}

pub proof fn lemma_erreurs_palette_longueur(px: Seq<Pixel>, pal: Seq<Pixel>, l: int, k: nat)
    ensures
        erreurs_palette(px, pal, l, k).len() == k,
    decreases k,
{
    if k > 0 {
        lemma_erreurs_palette_longueur(px, pal, l, (k - 1) as nat);
    }
}

/// The palette-diffusion output: each cell takes the palette color nearest
/// to its reconstructed (residual-added, clamped) color.
pub open spec fn sortie_palette(px: Seq<Pixel>, pal: Seq<Pixel>, l: int) -> Seq<Pixel> {
    Seq::new(
        px.len(),
        |i: int|
            crate::palette::couleur_la_plus_proche(
                reconstruit(
                    px[i],
                    report_palette(erreurs_palette(px, pal, l, i as nat), l, i),
                ),
                pal,
            ),
    )
}

/// Palette error diffusion: one scan-order pass; each pixel's channels plus
/// accumulated residual are matched against the non-empty palette via the
/// nearest-color search, the vector error splits half to the right neighbor
/// and half to the neighbor below, when they exist. The output equals a
/// recurrence over the input grid and palette alone, so it is deterministic,
/// and every output pixel belongs to the palette.
#[verifier::rlimit(80)]
pub fn diffusion_erreur_palette(rgb_image: &mut Grille, palette: &Vec<Pixel>)
    requires
        old(rgb_image).est_valide(),
        palette@.len() >= 1,
        old(rgb_image).pixels@.len() <= 1_000_000_000_000,
    ensures
        final(rgb_image).est_valide(),
        final(rgb_image).largeur == old(rgb_image).largeur,
        final(rgb_image).hauteur == old(rgb_image).hauteur,
        final(rgb_image).pixels@ == sortie_palette(
            old(rgb_image).pixels@,
            palette@,
            old(rgb_image).largeur as int,
        ),
        forall|j: int|
            0 <= j < final(rgb_image).pixels@.len() ==> palette@.contains(
                #[trigger] final(rgb_image).pixels@[j],
            ),
{
    let ghost origine = rgb_image.pixels@;
    let ghost pal = palette@;
    let ghost l = rgb_image.largeur as int;
    let ghost h = rgb_image.hauteur as int;
    let n = rgb_image.pixels.len();
    let mut err_r: Vec<i64> = Vec::new();
    let mut err_g: Vec<i64> = Vec::new();
    let mut err_b: Vec<i64> = Vec::new();
    let mut k: usize = 0;
    while k < n
        invariant
            k <= n,
            n <= 1_000_000_000_000,
            rgb_image.pixels@.len() == n,
            rgb_image.largeur == l,
            rgb_image.hauteur == h,
            l * h == n,
            origine.len() == n,
            pal == palette@,
            pal.len() >= 1,
            err_r@.len() == k,
            err_g@.len() == k,
            err_b@.len() == k,
            forall|i: int|
                0 <= i < k ==> #[trigger] err_r@[i] as int == erreurs_palette(
                    origine,
                    pal,
                    l,
                    k as nat,
                )[i].0,
            forall|i: int|
                0 <= i < k ==> #[trigger] err_g@[i] as int == erreurs_palette(
                    origine,
                    pal,
                    l,
                    k as nat,
                )[i].1,
            forall|i: int|
                0 <= i < k ==> #[trigger] err_b@[i] as int == erreurs_palette(
                    origine,
                    pal,
                    l,
                    k as nat,
                )[i].2,
            forall|i: int|
                0 <= i < k ==> -510 * (i + 1) <= #[trigger] err_r@[i] <= 510 * (i + 1),
            forall|i: int|
                0 <= i < k ==> -510 * (i + 1) <= #[trigger] err_g@[i] <= 510 * (i + 1),
            forall|i: int|
                0 <= i < k ==> -510 * (i + 1) <= #[trigger] err_b@[i] <= 510 * (i + 1),
            forall|j: int|
                0 <= j < k ==> #[trigger] rgb_image.pixels@[j] == sortie_palette(
                    origine,
                    pal,
                    l,
                )[j],
            forall|j: int|
                0 <= j < k ==> pal.contains(#[trigger] rgb_image.pixels@[j]),
            forall|j: int| k <= j < n ==> rgb_image.pixels@[j] == origine[j],
        decreases n - k,
    {
        proof {
            assert(l > 0) by (nonlinear_arith)
                requires
                    l * h == n,
                    0 <= k < n,
                    l >= 0,
                    h >= 0,
            ;
            lemma_erreurs_palette_longueur(origine, pal, l, k as nat);
        }
        let largeur = rgb_image.largeur;
        let x = k % largeur;
        let p = rgb_image.pixels[k];
        let mut rep_r: i64 = 0;
        let mut rep_g: i64 = 0;
        let mut rep_b: i64 = 0;
        if x >= 1 {
            proof {
                assert(k >= 1) by (nonlinear_arith)
                    requires
                        x as int == (k as int) % l,
                        x >= 1,
                        l > 0,
                        k >= 0,
                ;
            }
            rep_r = rep_r + moitie(err_r[k - 1]);
            rep_g = rep_g + moitie(err_g[k - 1]);
            rep_b = rep_b + moitie(err_b[k - 1]);
        }
        if k >= largeur {
            rep_r = rep_r + moitie(err_r[k - largeur]);
            rep_g = rep_g + moitie(err_g[k - largeur]);
            rep_b = rep_b + moitie(err_b[k - largeur]);
        }
        proof {
            let rep = report_palette(erreurs_palette(origine, pal, l, k as nat), l, k as int);
            assert(rep_r as int == rep.0 && rep_g as int == rep.1 && rep_b as int == rep.2);
        }
        let recon = Pixel {
            r: borne(p.r as i64 + rep_r),
            g: borne(p.g as i64 + rep_g),
            b: borne(p.b as i64 + rep_b),
        };
        let choisie = crate::palette::couleur_plus_proche(&recon, palette);
        let ek_r: i64 = p.r as i64 + rep_r - choisie.r as i64;
        let ek_g: i64 = p.g as i64 + rep_g - choisie.g as i64;
        let ek_b: i64 = p.b as i64 + rep_b - choisie.b as i64;
        rgb_image.pixels[k] = choisie;
        err_r.push(ek_r);
        err_g.push(ek_g);
        err_b.push(ek_b);
        proof {
            crate::palette::lemma_plus_proche_minimale(recon, pal);
            let prec = erreurs_palette(origine, pal, l, k as nat);
            assert(erreurs_palette(origine, pal, l, (k + 1) as nat) == prec.push(
                erreur_suivante_palette(origine, pal, l, prec),
            ));
            assert((ek_r as int, ek_g as int, ek_b as int) == erreur_suivante_palette(
                origine,
                pal,
                l,
                prec,
            ));
            assert(rgb_image.pixels@[k as int] == sortie_palette(origine, pal, l)[k as int]);
        }
        k += 1;
    }
    proof {
        lemma_erreurs_palette_longueur(origine, pal, l, n as nat);
        assert(rgb_image.pixels@ =~= sortie_palette(origine, pal, l));
    }
}

} // verus!
