//! Kitties and their genomes: gender derivation and DNA combination.

use vstd::prelude::*;

verus! {

/// A kitty is an immutable 16-byte genome. Its gender is derived from the
/// genome, never stored.
#[derive(Clone, Copy, PartialEq, Eq, Debug)]
pub struct Kitty(pub [u8; 16]);

#[derive(Clone, Copy, PartialEq, Eq, Structural, Debug)]
pub enum KittyGender {
    Male,
    Female,
}

impl Kitty {
    /// The gender of a kitty: parity of genome byte 0, even meaning male.
    pub open spec fn spec_gender(self) -> KittyGender {
        if self.0[0] % 2 == 0 {
            KittyGender::Male
        } else {
            KittyGender::Female
        }
    }

    pub fn gender(&self) -> (g: KittyGender)
        ensures
            g == self.spec_gender(),
    {
        if self.0[0] % 2 == 0 {
            KittyGender::Male
        } else {
            KittyGender::Female
        }
    }
}

/// One byte of a child genome: each selector bit picks, per bit position,
/// whether the child inherits `dna1`'s bit (selector bit 0) or `dna2`'s
/// (selector bit 1).
pub open spec fn spec_combine_dna(dna1: u8, dna2: u8, selector: u8) -> u8 {
    (!selector & dna1) | (selector & dna2)
}

pub fn combine_dna(dna1: u8, dna2: u8, selector: u8) -> (r: u8)
    ensures
        r == spec_combine_dna(dna1, dna2, selector),
{
    (!selector & dna1) | (selector & dna2)
}

/// Whether `child` is the byte-wise combination of the two parent genomes
/// under `selector`.
pub open spec fn spec_combined_genome(
    parent1: [u8; 16],
    parent2: [u8; 16],
    selector: [u8; 16],
    child: [u8; 16],
) -> bool {
    forall|i: int|
        0 <= i < 16 ==> child[i] == spec_combine_dna(parent1[i], parent2[i], selector[i])
}

/// Combines two parent genomes byte by byte under a selector mask.
pub fn combine_genomes(parent1: &[u8; 16], parent2: &[u8; 16], selector: &[u8; 16]) -> (child: [u8;
    16])
    ensures
        spec_combined_genome(*parent1, *parent2, *selector, child),
{
    let mut child: [u8; 16] = [0u8; 16];
    let mut i: usize = 0;
    while i < 16
        invariant
            i <= 16,
            forall|j: int|
                0 <= j < i ==> child[j] == spec_combine_dna(
                    parent1[j],
                    parent2[j],
                    selector[j],
                ),
        decreases 16 - i,
    {
        child[i] = combine_dna(parent1[i], parent2[i], selector[i]);
        i = i + 1;
    }
    child
}

} // verus!
