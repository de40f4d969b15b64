//! The image grid: a width-by-height rectangular array of pixels, stored
//! row-major and mutated in place by the dithering strategies.

use vstd::prelude::*;
use vstd::arithmetic::div_mod::lemma_fundamental_div_mod_converse;
use crate::couleur::Pixel;

verus! {

broadcast use vstd::std_specs::vec::axiom_spec_len;

/// A rectangular pixel grid, row-major: the pixel at column `x` and row `y`
/// sits at index `y * largeur + x`.
pub struct Grille {
    pub largeur: usize,
    pub hauteur: usize,
    pub pixels: Vec<Pixel>,
}

impl Grille {
    /// Well-formedness: the pixel store holds exactly one pixel for each
    /// (x, y) with x < largeur and y < hauteur.
    pub open spec fn est_valide(self) -> bool {
        self.pixels@.len() == self.largeur * self.hauteur
    }

    /// Row-major index of the cell at column `x`, row `y`.
    pub open spec fn indice(self, x: int, y: int) -> int {
        y * self.largeur + x
    }

    /// The pixel at column `x`, row `y`.
    pub open spec fn pixel_en(self, x: int, y: int) -> Pixel {
        self.pixels@[self.indice(x, y)]
    }

    /// Builds a grid from a row-major pixel vector; the vector must hold
    /// exactly `largeur * hauteur` pixels, else nothing is built.
    pub fn depuis_pixels(largeur: usize, hauteur: usize, pixels: Vec<Pixel>) -> (r: Option<Grille>)
        ensures
            match r {
                Some(g) => {
                    &&& g.largeur == largeur
                    &&& g.hauteur == hauteur
                    &&& g.pixels@ == pixels@
                    &&& g.est_valide()
                },
                None => pixels@.len() != largeur * hauteur,
            },
            (r is Some) <==> pixels@.len() == largeur * hauteur,
    {
        proof {
            vstd::std_specs::vec::axiom_spec_len(&pixels);
        }
        let attendu = largeur.checked_mul(hauteur);
        match attendu {
            Some(n) => {
                if n == pixels.len() {
                    Some(Grille { largeur, hauteur, pixels })
                } else {
                    None
                }
            },
            None => {
                // The product overflows usize, so no vector can be that long.
                None
            },
        }
    }

    /// Reads the pixel at column `x`, row `y`.
    pub fn get_pixel(&self, x: usize, y: usize) -> (p: Pixel)
        requires
            self.est_valide(),
            x < self.largeur,
            y < self.hauteur,
        ensures
            p == self.pixel_en(x as int, y as int),
    {
        proof {
            vstd::std_specs::vec::axiom_spec_len(&self.pixels);
            lemma_indice_borne(x as int, y as int, self.largeur as int, self.hauteur as int);
        }
        self.pixels[y * self.largeur + x]
    }

    /// Writes the pixel at column `x`, row `y`.
    pub fn set_pixel(&mut self, x: usize, y: usize, p: Pixel)
        requires
            old(self).est_valide(),
            x < old(self).largeur,
            y < old(self).hauteur,
        ensures
            final(self).est_valide(),
            final(self).largeur == old(self).largeur,
            final(self).hauteur == old(self).hauteur,
            final(self).pixels@ == old(self).pixels@.update(old(self).indice(x as int, y as int), p),
    {
        proof {
            vstd::std_specs::vec::axiom_spec_len(&self.pixels);
            lemma_indice_borne(x as int, y as int, self.largeur as int, self.hauteur as int);
        }
        let i = y * self.largeur + x;
        self.pixels[i] = p;
    }
}

/// A row-major index lies inside the pixel store.
pub proof fn lemma_indice_borne(x: int, y: int, largeur: int, hauteur: int)
    by (nonlinear_arith)
    requires
        0 <= x < largeur,
        0 <= y < hauteur,
    ensures
        0 <= y * largeur,
        0 <= y * largeur + x < largeur * hauteur,
{
}

/// A row-major index decomposes back into its column and row.
pub proof fn lemma_colonne_ligne(x: int, y: int, largeur: int)
    requires
        0 <= x < largeur,
        0 <= y,
    ensures
        (y * largeur + x) % largeur == x,
        (y * largeur + x) / largeur == y,
{
    lemma_fundamental_div_mod_converse(y * largeur + x, largeur, y, x);
}

} // verus!
