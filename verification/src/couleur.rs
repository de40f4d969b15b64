//! The pixel type, the named colors, and the two perceptual metrics:
//! luminance and (squared) Euclidean color distance.

use vstd::prelude::*;
use vstd::string::StringSliceAdditionalSpecFns;

verus! {

/// An RGB pixel with three 8-bit channels. Equality is exact channel-wise
/// comparison.
#[derive(Clone, Copy, PartialEq, Eq, Structural, Debug)]
pub struct Pixel {
    pub r: u8,
    pub g: u8,
    pub b: u8,
}

pub open spec fn noir() -> Pixel {
    Pixel { r: 0, g: 0, b: 0 }
}

pub open spec fn blanc() -> Pixel {
    Pixel { r: 255, g: 255, b: 255 }
}

/// The mid-gray fallback for unknown color names.
pub open spec fn gris() -> Pixel {
    Pixel { r: 127, g: 127, b: 127 }
}

pub open spec fn rouge() -> Pixel {
    Pixel { r: 255, g: 0, b: 0 }
}

pub open spec fn vert() -> Pixel {
    Pixel { r: 0, g: 255, b: 0 }
}

pub open spec fn bleu() -> Pixel {
    Pixel { r: 0, g: 0, b: 255 }
}

pub open spec fn jaune() -> Pixel {
    Pixel { r: 255, g: 255, b: 0 }
}

pub open spec fn cyan() -> Pixel {
    Pixel { r: 0, g: 255, b: 255 }
}

pub open spec fn magenta() -> Pixel {
    Pixel { r: 255, g: 0, b: 255 }
}

/// Largest luminance value: the luminance of pure white, in ten-thousandths
/// of a channel unit.
pub const LUMINANCE_MAX: u32 = 2550000;

/// Perceptual luminance of a pixel, in ten-thousandths of a channel unit:
/// 2126 * r + 7152 * g + 722 * b, the classic weights scaled by 10000.
pub open spec fn luminance_spec(p: Pixel) -> int {
    2126 * (p.r as int) + 7152 * (p.g as int) + 722 * (p.b as int)
}

/// Computes the perceptual luminance of a pixel, in ten-thousandths of a
/// channel unit.
pub fn get_luminance(pixel: &Pixel) -> (l: u32)
    ensures
        l == luminance_spec(*pixel),
        l <= LUMINANCE_MAX,
{
    2126 * (pixel.r as u32) + 7152 * (pixel.g as u32) + 722 * (pixel.b as u32)
}

/// Luminance is bounded: it lies between the luminance of black and the
/// luminance of white.
pub proof fn lemma_luminance_bornee(p: Pixel)
    ensures
        luminance_spec(noir()) <= luminance_spec(p) <= luminance_spec(blanc()),
        0 <= luminance_spec(p) <= LUMINANCE_MAX,
{
}

/// Luminance is monotonic in each channel: raising any channel can only
/// raise the luminance.
pub proof fn lemma_luminance_monotone(p1: Pixel, p2: Pixel)
    requires
        p1.r <= p2.r,
        p1.g <= p2.g,
        p1.b <= p2.b,
    ensures
        luminance_spec(p1) <= luminance_spec(p2),
{
}

/// Squared Euclidean distance between two colors in RGB space. Squaring
/// is monotone on non-negative reals, so comparing squared distances orders
/// colors exactly as the Euclidean distance does, with no rounding at all.
pub open spec fn distance_carree_spec(c1: Pixel, c2: Pixel) -> int {
    let dr = c1.r as int - c2.r as int;
    let dg = c1.g as int - c2.g as int;
    let db = c1.b as int - c2.b as int;
    dr * dr + dg * dg + db * db
}

/// The square of the difference of two channel values.
fn carre_difference(a: u8, b: u8) -> (d: u32)
    ensures
        d == (a as int - b as int) * (a as int - b as int),
        d <= 65025,
{
    let ecart: u32 = if a >= b {
        (a - b) as u32
    } else {
        (b - a) as u32
    };
    assert(ecart * ecart == (a as int - b as int) * (a as int - b as int)
        && ecart * ecart <= 65025) by (nonlinear_arith)
        requires
            ecart <= 255,
            ecart == a as int - b as int || ecart == b as int - a as int,
    ;
    ecart * ecart
}

/// Computes the squared Euclidean distance between two colors.
pub fn distance_carree(c1: &Pixel, c2: &Pixel) -> (d: u32)
    ensures
        d == distance_carree_spec(*c1, *c2),
{
    carre_difference(c1.r, c2.r) + carre_difference(c1.g, c2.g) + carre_difference(c1.b, c2.b)
}

/// The distance from a color to itself is zero, and the distance between
/// two equal colors is zero.
pub proof fn lemma_distance_nulle(c: Pixel)
    ensures
        distance_carree_spec(c, c) == 0,
{
}

/// Distance is symmetric.
pub proof fn lemma_distance_symetrique(c1: Pixel, c2: Pixel)
    ensures
        distance_carree_spec(c1, c2) == distance_carree_spec(c2, c1),
{
    assert(distance_carree_spec(c1, c2) == distance_carree_spec(c2, c1)) by (nonlinear_arith);
}

/// Distance is non-negative.
pub proof fn lemma_distance_positive(c1: Pixel, c2: Pixel)
    ensures
        distance_carree_spec(c1, c2) >= 0,
{
    assert(distance_carree_spec(c1, c2) >= 0) by (nonlinear_arith);
}

/// A byte mapped to upper case when it is an ASCII lower-case letter,
/// else kept as it is.
pub open spec fn maj_ascii(b: u8) -> u8 {
    if 97 <= b && b <= 122 {
        (b - 32) as u8
    } else {
        b
    }
}

/// A byte sequence with every ASCII lower-case letter raised to upper case.
pub open spec fn nom_normalise(s: Seq<u8>) -> Seq<u8> {
    s.map_values(|b: u8| maj_ascii(b))
}

/// The named color table, keyed by the ASCII-upper-cased bytes of the name:
/// BLACK, WHITE, RED, GREEN, BLUE, YELLOW, CYAN, MAGENTA and GREY are
/// recognized (case-insensitively); any other name resolves to nothing.
pub open spec fn parse_couleur_spec(s: Seq<u8>) -> Option<Pixel> {
    let n = nom_normalise(s);
    if n == seq![66u8, 76u8, 65u8, 67u8, 75u8] {  // BLACK
        Some(noir())
    } else if n == seq![87u8, 72u8, 73u8, 84u8, 69u8] {  // WHITE
        Some(blanc())
    } else if n == seq![82u8, 69u8, 68u8] {  // RED
        Some(rouge())
    } else if n == seq![71u8, 82u8, 69u8, 69u8, 78u8] {  // GREEN
        Some(vert())
    } else if n == seq![66u8, 76u8, 85u8, 69u8] {  // BLUE
        Some(bleu())
    } else if n == seq![89u8, 69u8, 76u8, 76u8, 79u8, 87u8] {  // YELLOW
        Some(jaune())
    } else if n == seq![67u8, 89u8, 65u8, 78u8] {  // CYAN
        Some(cyan())
    } else if n == seq![77u8, 65u8, 71u8, 69u8, 78u8, 84u8, 65u8] {  // MAGENTA
        Some(magenta())
    } else if n == seq![71u8, 82u8, 69u8, 89u8] {  // GREY
        Some(gris())
    } else {
        None
    }
}

/// Raises an ASCII lower-case letter to upper case.
fn maj_octet(b: u8) -> (r: u8)
    ensures
        r == maj_ascii(b),
{
    if b >= 97 && b <= 122 {
        b - 32
    } else {
        b
    }
}

/// Compares the ASCII-upper-cased bytes of `s` against an expected name.
fn nom_egal(s: &[u8], attendu: &Vec<u8>) -> (r: bool)
    ensures
        r == (nom_normalise(s@) == attendu@),
{
    if s.len() != attendu.len() {
        return false;
    }
    let mut i: usize = 0;
    while i < attendu.len()
        invariant
            i <= s@.len(),
            s@.len() == attendu@.len(),
            forall|j: int| 0 <= j < i ==> maj_ascii(s@[j]) == attendu@[j],
        decreases s@.len() - i,
    {
        if maj_octet(s[i]) != attendu[i] {
            assert(nom_normalise(s@)[i as int] != attendu@[i as int]);
            return false;
        }
        i += 1;
    }
    proof {
        assert(nom_normalise(s@) =~= attendu@);
    }
    true
}

/// Resolves a color name (case-insensitively, by its bytes) against the
/// named color table: the nine recognized names give their pixel; any
/// other name gives nothing.
pub fn parse_couleur(couleur: &str) -> (r: Option<Pixel>)
    ensures
        r == parse_couleur_spec(couleur.spec_bytes()),
{
    let octets = couleur.as_bytes();
    if nom_egal(octets, &vec![66u8, 76u8, 65u8, 67u8, 75u8]) {
        Some(Pixel { r: 0, g: 0, b: 0 })
    } else if nom_egal(octets, &vec![87u8, 72u8, 73u8, 84u8, 69u8]) {
        Some(Pixel { r: 255, g: 255, b: 255 })
    } else if nom_egal(octets, &vec![82u8, 69u8, 68u8]) {
        Some(Pixel { r: 255, g: 0, b: 0 })
    } else if nom_egal(octets, &vec![71u8, 82u8, 69u8, 69u8, 78u8]) {
        Some(Pixel { r: 0, g: 255, b: 0 })
    } else if nom_egal(octets, &vec![66u8, 76u8, 85u8, 69u8]) {
        Some(Pixel { r: 0, g: 0, b: 255 })
    } else if nom_egal(octets, &vec![89u8, 69u8, 76u8, 76u8, 79u8, 87u8]) {
        Some(Pixel { r: 255, g: 255, b: 0 })
    } else if nom_egal(octets, &vec![67u8, 89u8, 65u8, 78u8]) {
        Some(Pixel { r: 0, g: 255, b: 255 })
    } else if nom_egal(octets, &vec![77u8, 65u8, 71u8, 69u8, 78u8, 84u8, 65u8]) {
        Some(Pixel { r: 255, g: 0, b: 255 })
    } else if nom_egal(octets, &vec![71u8, 82u8, 69u8, 89u8]) {
        Some(Pixel { r: 127, g: 127, b: 127 })
    } else {
        None
    }
}

/// Resolves a color name as `parse_couleur` does, falling back to the
/// mid-gray color for every unknown name, so that a configuration with a
/// misspelled name still yields a total transform.
pub fn resoudre_couleur(couleur: &str) -> (r: Pixel)
    ensures
        r == match parse_couleur_spec(couleur.spec_bytes()) {
            Some(c) => c,
            None => gris(),
        },
{
    match parse_couleur(couleur) {
        Some(c) => c,
        None => Pixel { r: 127, g: 127, b: 127 },
    }
}

/// Distance separates colors: it is zero only between equal colors.
pub proof fn lemma_distance_nulle_egaux(c1: Pixel, c2: Pixel)
    requires
        distance_carree_spec(c1, c2) == 0,
    ensures
        c1 == c2,
{
    assert(c1.r == c2.r && c1.g == c2.g && c1.b == c2.b) by (nonlinear_arith)
        requires
            distance_carree_spec(c1, c2) == 0,
    ;
}

} // verus!
