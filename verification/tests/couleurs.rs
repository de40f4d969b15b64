//! Tests for the pixel model, the metrics and the color-name table.

use ditherpunk::couleur::{
    get_luminance, distance_carree, parse_couleur, resoudre_couleur, LUMINANCE_MAX,
};
use ditherpunk::Pixel;

fn px(r: u8, g: u8, b: u8) -> Pixel {
    Pixel { r, g, b }
}

#[test]
fn luminance_noir_et_blanc() {
    assert_eq!(get_luminance(&px(0, 0, 0)), 0);
    assert_eq!(get_luminance(&px(255, 255, 255)), 2550000);
    assert_eq!(get_luminance(&px(255, 255, 255)), LUMINANCE_MAX);
}

#[test]
fn luminance_canaux_exacts() {
    // One channel at a time: the three weights appear unmixed.
    assert_eq!(get_luminance(&px(255, 0, 0)), 2126 * 255);
    assert_eq!(get_luminance(&px(0, 255, 0)), 7152 * 255);
    assert_eq!(get_luminance(&px(0, 0, 255)), 722 * 255);
    // A mid gray: exactly 127 channel units.
    assert_eq!(get_luminance(&px(127, 127, 127)), 1270000);
}

#[test]
fn luminance_monotone_par_canal() {
    let base = get_luminance(&px(10, 20, 30));
    assert!(get_luminance(&px(11, 20, 30)) > base);
    assert!(get_luminance(&px(10, 21, 30)) > base);
    assert!(get_luminance(&px(10, 20, 31)) > base);
    assert!(base <= LUMINANCE_MAX);
}

#[test]
fn distance_nulle_et_symetrique() {
    let a = px(12, 200, 7);
    let b = px(250, 3, 99);
    assert_eq!(distance_carree(&a, &a), 0);
    assert_eq!(distance_carree(&b, &b), 0);
    assert_eq!(distance_carree(&a, &b), distance_carree(&b, &a));
}

#[test]
fn distance_valeur_exacte() {
    // Black to white: 255^2 in each of the three channels.
    assert_eq!(distance_carree(&px(0, 0, 0), &px(255, 255, 255)), 3 * 255 * 255);
    assert_eq!(distance_carree(&px(1, 2, 3), &px(4, 6, 3)), 9 + 16 + 0);
}

#[test]
fn parse_couleur_noms_reconnus() {
    assert_eq!(parse_couleur("BLACK"), Some(px(0, 0, 0)));
    assert_eq!(parse_couleur("WHITE"), Some(px(255, 255, 255)));
    assert_eq!(parse_couleur("RED"), Some(px(255, 0, 0)));
    assert_eq!(parse_couleur("GREEN"), Some(px(0, 255, 0)));
    assert_eq!(parse_couleur("BLUE"), Some(px(0, 0, 255)));
    assert_eq!(parse_couleur("YELLOW"), Some(px(255, 255, 0)));
    assert_eq!(parse_couleur("CYAN"), Some(px(0, 255, 255)));
    assert_eq!(parse_couleur("MAGENTA"), Some(px(255, 0, 255)));
    assert_eq!(parse_couleur("GREY"), Some(px(127, 127, 127)));
}

#[test]
fn parse_couleur_insensible_a_la_casse() {
    assert_eq!(parse_couleur("black"), Some(px(0, 0, 0)));
    assert_eq!(parse_couleur("White"), Some(px(255, 255, 255)));
    assert_eq!(parse_couleur("yElLoW"), Some(px(255, 255, 0)));
}

#[test]
fn parse_couleur_nom_inconnu() {
    assert_eq!(parse_couleur(""), None);
    assert_eq!(parse_couleur("TURQUOISE"), None);
    assert_eq!(parse_couleur("BLACKK"), None);
}

#[test]
fn resoudre_couleur_repli_gris() {
    // Unknown names consistently resolve to mid-gray.
    assert_eq!(resoudre_couleur("TURQUOISE"), px(127, 127, 127));
    assert_eq!(resoudre_couleur(""), px(127, 127, 127));
    assert_eq!(resoudre_couleur("red"), px(255, 0, 0));
}
