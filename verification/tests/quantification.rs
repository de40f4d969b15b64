//! Tests for the canonical palette, the nearest-color search, the
//! threshold transforms and the grid type.

use ditherpunk::couleur::distance_carree;
use ditherpunk::grille::Grille;
use ditherpunk::palette::{
    apply_distance_eucli, couleur_plus_proche, palette_canonique, ErreurConfig,
};
use ditherpunk::seuillage::{apply_threshold_seuillage, white_pixel_1_out_of_2, SEUIL_DEFAUT};
use ditherpunk::Pixel;

fn px(r: u8, g: u8, b: u8) -> Pixel {
    Pixel { r, g, b }
}

fn noir() -> Pixel {
    px(0, 0, 0)
}

fn blanc() -> Pixel {
    px(255, 255, 255)
}

fn grille(largeur: usize, hauteur: usize, pixels: Vec<Pixel>) -> Grille {
    Grille::depuis_pixels(largeur, hauteur, pixels).unwrap()
}

#[test]
fn grille_dimensions_incoherentes() {
    assert!(Grille::depuis_pixels(2, 2, vec![noir(); 3]).is_none());
    assert!(Grille::depuis_pixels(2, 2, vec![noir(); 4]).is_some());
    assert!(Grille::depuis_pixels(0, 5, vec![]).is_some());
}

#[test]
fn grille_lecture_ecriture() {
    let mut g = grille(2, 2, vec![noir(), blanc(), px(1, 2, 3), px(4, 5, 6)]);
    assert_eq!(g.get_pixel(1, 0), blanc());
    assert_eq!(g.get_pixel(0, 1), px(1, 2, 3));
    g.set_pixel(0, 1, px(9, 9, 9));
    assert_eq!(g.get_pixel(0, 1), px(9, 9, 9));
    assert_eq!(g.get_pixel(1, 1), px(4, 5, 6));
}

#[test]
fn palette_canonique_tailles_rejetees() {
    assert_eq!(palette_canonique(0), Err(ErreurConfig::NombreCouleursInvalide));
    assert_eq!(palette_canonique(9), Err(ErreurConfig::NombreCouleursInvalide));
}

#[test]
fn palette_canonique_ordre_canonique() {
    assert_eq!(palette_canonique(2).unwrap(), vec![noir(), blanc()]);
    assert_eq!(
        palette_canonique(8).unwrap(),
        vec![
            noir(),
            blanc(),
            px(255, 0, 0),
            px(0, 255, 0),
            px(0, 0, 255),
            px(255, 255, 0),
            px(0, 255, 255),
            px(255, 0, 255),
        ]
    );
}

#[test]
fn plus_proche_membre_exact() {
    // A palette containing the exact input color returns it, at distance 0.
    let pal = palette_canonique(8).unwrap();
    let rouge = px(255, 0, 0);
    let choisie = couleur_plus_proche(&rouge, &pal);
    assert_eq!(choisie, rouge);
    assert_eq!(distance_carree(&rouge, &choisie), 0);
}

#[test]
fn plus_proche_egalite_premier_gagne() {
    // (1,0,0) is at squared distance 1 from both entries: the first wins.
    let pal = vec![px(0, 0, 0), px(2, 0, 0)];
    assert_eq!(couleur_plus_proche(&px(1, 0, 0), &pal), px(0, 0, 0));
}

#[test]
fn plus_proche_gris_moyen() {
    // (127,127,127): squared distance 3*127^2 to black, 3*128^2 to white.
    let pal = vec![noir(), blanc()];
    assert_eq!(couleur_plus_proche(&px(127, 127, 127), &pal), noir());
    assert_eq!(couleur_plus_proche(&px(128, 128, 128), &pal), blanc());
}

#[test]
fn quantification_deux_couleurs() {
    // Palette mode with the first two canonical colors: every pixel goes to
    // black or white, whichever is closer.
    let pal = palette_canonique(2).unwrap();
    let mut g = grille(
        2,
        2,
        vec![px(10, 10, 10), px(200, 200, 200), px(255, 0, 0), px(30, 40, 50)],
    );
    apply_distance_eucli(&mut g, &pal);
    assert_eq!(g.pixels, vec![noir(), blanc(), noir(), noir()]);
}

#[test]
fn seuillage_damier_inchange() {
    // A 2x2 checkerboard of white and black under the default threshold
    // with colors white/black comes out unchanged.
    let mut g = grille(2, 2, vec![blanc(), noir(), noir(), blanc()]);
    apply_threshold_seuillage(&mut g, SEUIL_DEFAUT, blanc(), noir());
    assert_eq!(g.pixels, vec![blanc(), noir(), noir(), blanc()]);
}

#[test]
fn seuillage_egalite_prend_la_seconde() {
    // A uniform gray whose luminance equals the threshold exactly: the
    // comparison is strict, so every pixel takes the second color.
    let gris = px(127, 127, 127);
    let mut g = grille(2, 2, vec![gris; 4]);
    apply_threshold_seuillage(&mut g, 1270000, blanc(), noir());
    assert_eq!(g.pixels, vec![noir(); 4]);
}

#[test]
fn seuillage_tout_au_dessus() {
    // An image entirely above the threshold: every pixel takes the first color.
    let mut g = grille(3, 1, vec![px(200, 200, 200), px(130, 130, 130), blanc()]);
    apply_threshold_seuillage(&mut g, SEUIL_DEFAUT, px(1, 2, 3), noir());
    assert_eq!(g.pixels, vec![px(1, 2, 3); 3]);
}

#[test]
fn seuillage_couleurs_configurees() {
    let mut g = grille(2, 1, vec![px(250, 250, 250), px(5, 5, 5)]);
    apply_threshold_seuillage(&mut g, SEUIL_DEFAUT, px(255, 255, 0), px(0, 0, 255));
    assert_eq!(g.pixels, vec![px(255, 255, 0), px(0, 0, 255)]);
}

#[test]
fn un_pixel_blanc_sur_deux() {
    let mut g = grille(3, 2, vec![px(1, 1, 1); 6]);
    white_pixel_1_out_of_2(&mut g);
    assert_eq!(
        g.pixels,
        vec![blanc(), px(1, 1, 1), blanc(), blanc(), px(1, 1, 1), blanc()]
    );
}
