//! Tests for ordered (Bayer) dithering, random-threshold dithering and the
//! three error-diffusion variants.

use ditherpunk::aleatoire::tramage_aleatoire;
use ditherpunk::bayer::{apply_matrice_bayer, genere_matrice_bayer};
use ditherpunk::diffusion::{
    diffusion_erreur_floyd_steinberg, diffusion_erreur_monochrome, diffusion_erreur_palette,
};
use ditherpunk::grille::Grille;
use ditherpunk::palette::palette_canonique;
use ditherpunk::Pixel;

fn px(r: u8, g: u8, b: u8) -> Pixel {
    Pixel { r, g, b }
}

fn noir() -> Pixel {
    px(0, 0, 0)
}

fn blanc() -> Pixel {
    px(255, 255, 255)
}

fn grille(largeur: usize, hauteur: usize, pixels: Vec<Pixel>) -> Grille {
    Grille::depuis_pixels(largeur, hauteur, pixels).unwrap()
}

#[test]
fn matrice_bayer_ordre_zero() {
    assert_eq!(genere_matrice_bayer(0), vec![vec![0]]);
}

#[test]
fn matrice_bayer_ordre_un() {
    // The quadrant rule applied once to [[0]].
    assert_eq!(genere_matrice_bayer(1), vec![vec![0, 3], vec![2, 1]]);
}

#[test]
fn matrice_bayer_ordre_deux() {
    assert_eq!(
        genere_matrice_bayer(2),
        vec![
            vec![0, 12, 3, 15],
            vec![8, 4, 11, 7],
            vec![2, 14, 1, 13],
            vec![10, 6, 9, 5],
        ]
    );
}

#[test]
fn matrice_bayer_est_une_permutation() {
    // Order 3: the 64 cells hold each value of 0..64 exactly once.
    let m = genere_matrice_bayer(3);
    assert_eq!(m.len(), 8);
    let mut valeurs: Vec<u32> = Vec::new();
    for ligne in &m {
        assert_eq!(ligne.len(), 8);
        valeurs.extend(ligne);
    }
    valeurs.sort();
    let attendu: Vec<u32> = (0..64).collect();
    assert_eq!(valeurs, attendu);
}

#[test]
fn bayer_ordre_zero_seuil_nul() {
    // Order 0: the single cell gives threshold 0, so any pixel with positive
    // luminance turns white and only zero-luminance pixels stay black.
    let mut g = grille(2, 1, vec![noir(), px(1, 1, 1)]);
    apply_matrice_bayer(&mut g, 0);
    assert_eq!(g.pixels, vec![noir(), blanc()]);
}

#[test]
fn bayer_ordre_un_gris_moyen() {
    // Order 1 thresholds are (cell * 255 / 4) * 10000: cells [[0,3],[2,1]]
    // give 0, 191.25->191, 127.5->127, 63.75->63 channel units. A uniform
    // gray at 127 units exceeds 0, 63 and 127 but not 191.
    let gris = px(127, 127, 127);
    let mut g = grille(2, 2, vec![gris; 4]);
    apply_matrice_bayer(&mut g, 1);
    // Cell (x=0,y=0) holds 0 -> white; (x=1,y=0) holds matrix[1][0]=2 ->
    // threshold 127 -> 1270000 == luminance, not strictly above -> black;
    // (x=0,y=1) holds matrix[0][1]=3 -> 191 -> black; (x=1,y=1) holds 1 ->
    // 63 -> white.
    assert_eq!(g.pixels, vec![blanc(), noir(), noir(), blanc()]);
}

#[test]
fn tramage_aleatoire_bornes_sures() {
    // Whatever the draws, the output is two-tone; full white always beats
    // every threshold, zero luminance never does.
    let mut g = grille(
        2,
        2,
        vec![blanc(), noir(), px(200, 30, 90), px(127, 127, 127)],
    );
    tramage_aleatoire(&mut g);
    assert_eq!(g.pixels[0], blanc());
    assert_eq!(g.pixels[1], noir());
    for p in &g.pixels {
        assert!(*p == blanc() || *p == noir());
    }
}

#[test]
fn diffusion_monochrome_deterministe() {
    let pixels = vec![px(90, 14, 200), px(31, 99, 140), px(250, 12, 4), px(127, 127, 127)];
    let mut g1 = grille(2, 2, pixels.clone());
    let mut g2 = grille(2, 2, pixels);
    diffusion_erreur_monochrome(&mut g1);
    diffusion_erreur_monochrome(&mut g2);
    assert_eq!(g1.pixels, g2.pixels);
    for p in &g1.pixels {
        assert!(*p == blanc() || *p == noir());
    }
}

#[test]
fn diffusion_monochrome_report_a_droite() {
    // Two grays at 127 units: the first is just below the 127.5 threshold
    // and goes black; its residual (1270000 ten-thousandths) is halved onto
    // the second, which then exceeds the threshold and goes white.
    let gris = px(127, 127, 127);
    let mut g = grille(2, 1, vec![gris, gris]);
    diffusion_erreur_monochrome(&mut g);
    assert_eq!(g.pixels, vec![noir(), blanc()]);
}

#[test]
fn diffusion_monochrome_report_en_bas() {
    // The same two grays stacked vertically: the residual flows downward.
    let gris = px(127, 127, 127);
    let mut g = grille(1, 2, vec![gris, gris]);
    diffusion_erreur_monochrome(&mut g);
    assert_eq!(g.pixels, vec![noir(), blanc()]);
}

#[test]
fn diffusion_monochrome_blanc_stable() {
    let mut g = grille(3, 2, vec![blanc(); 6]);
    diffusion_erreur_monochrome(&mut g);
    assert_eq!(g.pixels, vec![blanc(); 6]);
}

#[test]
fn diffusion_floyd_steinberg_deterministe() {
    let pixels = vec![px(13, 240, 7), px(128, 128, 128), px(99, 1, 254), px(66, 66, 66)];
    let mut g1 = grille(4, 1, pixels.clone());
    let mut g2 = grille(4, 1, pixels);
    diffusion_erreur_floyd_steinberg(&mut g1);
    diffusion_erreur_floyd_steinberg(&mut g2);
    assert_eq!(g1.pixels, g2.pixels);
    for p in &g1.pixels {
        assert!(*p == blanc() || *p == noir());
    }
}

#[test]
fn diffusion_floyd_steinberg_report_sept_seiziemes() {
    // Two grays at 127 units: the first goes black with residual 1270000;
    // 7/16 of it (555625) reaches the right neighbor, which passes the
    // threshold and goes white.
    let gris = px(127, 127, 127);
    let mut g = grille(2, 1, vec![gris, gris]);
    diffusion_erreur_floyd_steinberg(&mut g);
    assert_eq!(g.pixels, vec![noir(), blanc()]);
}

#[test]
fn diffusion_floyd_steinberg_cinq_seiziemes_en_bas() {
    // Stacked vertically, only 5/16 of the residual (396875) flows down:
    // 1270000 + 396875 passes the threshold as well.
    let gris = px(127, 127, 127);
    let mut g = grille(1, 2, vec![gris, gris]);
    diffusion_erreur_floyd_steinberg(&mut g);
    assert_eq!(g.pixels, vec![noir(), blanc()]);
}

#[test]
fn diffusion_palette_deux_couleurs() {
    // With the two-color canonical palette every output pixel is black or
    // white.
    let pal = palette_canonique(2).unwrap();
    let mut g = grille(
        2,
        2,
        vec![px(10, 10, 10), px(200, 200, 200), px(255, 0, 0), px(30, 40, 50)],
    );
    diffusion_erreur_palette(&mut g, &pal);
    for p in &g.pixels {
        assert!(*p == blanc() || *p == noir());
    }
    assert_eq!(g.pixels[0], noir());
    assert_eq!(g.pixels[1], blanc());
}

#[test]
fn diffusion_palette_membre_exact_stable() {
    // A uniform image in a palette color stays exactly that color: the
    // reconstructed color is always an exact member, so no error accumulates.
    let pal = palette_canonique(8).unwrap();
    let rouge = px(255, 0, 0);
    let mut g = grille(3, 3, vec![rouge; 9]);
    diffusion_erreur_palette(&mut g, &pal);
    assert_eq!(g.pixels, vec![rouge; 9]);
}

#[test]
fn grille_vide_traversee_sans_travail() {
    // A 0x0 grid goes through every strategy without touching anything.
    let pal = palette_canonique(2).unwrap();
    let mut g = grille(0, 0, vec![]);
    diffusion_erreur_monochrome(&mut g);
    diffusion_erreur_floyd_steinberg(&mut g);
    diffusion_erreur_palette(&mut g, &pal);
    apply_matrice_bayer(&mut g, 1);
    tramage_aleatoire(&mut g);
    assert_eq!(g.largeur, 0);
    assert_eq!(g.hauteur, 0);
    assert!(g.pixels.is_empty());
}

#[test]
fn diffusion_palette_deterministe() {
    let pal = palette_canonique(8).unwrap();
    let pixels = vec![px(90, 14, 200), px(31, 99, 140), px(250, 12, 4), px(127, 127, 127)];
    let mut g1 = grille(2, 2, pixels.clone());
    let mut g2 = grille(2, 2, pixels);
    diffusion_erreur_palette(&mut g1, &pal);
    diffusion_erreur_palette(&mut g2, &pal);
    assert_eq!(g1.pixels, g2.pixels);
}
