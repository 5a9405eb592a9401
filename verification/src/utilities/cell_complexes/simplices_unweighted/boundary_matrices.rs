//! Boundary matrices of simplicial complexes.

use vstd::prelude::*;
use vstd::std_specs::cmp::PartialEqSpec;
use crate::rings::ring::Ring;
use crate::utilities::cell_complexes::simplices_unweighted::facets::{
    combinations, combinations_of, lemma_combinations_count,
};
use crate::utilities::combinatorics::views_of;
use crate::utilities::ring::MinusOneToPower;
use crate::utilities::sequences_and_ordinals::{last_match, BiMapSequential};

verus! {

//  ---------------------------------------------------------------------------
//  SIMPLEX BIMAP TO BOUNDARY
//  ---------------------------------------------------------------------------
/// The greatest index at which `simplices` holds the simplex `a`, if there
/// is one.
pub open spec fn ordinal_of(simplices: Seq<Vec<usize>>, a: Seq<usize>) -> Option<usize>
    decreases simplices.len(),
{
    if simplices.len() == 0 {
        None
    } else if simplices.last()@ == a {
        Some((simplices.len() - 1) as usize)
    } else {
        ordinal_of(simplices.drop_last(), a)
    }
}

/// The facets of `simplex`, in the order in which the boundary lists them:
/// first the facet without the last vertex, last the facet without the
/// first.
pub open spec fn facets_of(simplex: Seq<usize>) -> Seq<Seq<usize>> {
    combinations(simplex, (simplex.len() - 1) as nat)
}

/// Every facet of every simplex of positive dimension is among the
/// simplices.
pub open spec fn facets_are_present(simplices: Seq<Vec<usize>>) -> bool {
    forall|s: int, f: int|
        #![trigger facets_of(simplices[s]@)[f]]
        0 <= s < simplices.len() && simplices[s]@.len() > 1 && 0 <= f < simplices[s]@.len()
            ==> ordinal_of(simplices, facets_of(simplices[s]@)[f]) is Some
}

/// The boundary of `simplex`: nothing for a vertex; else one entry for each
/// facet, which holds the ordinal of the facet and the sign `(-1)^k`, where
/// `k` is the index of the vertex that the facet lacks.
pub open spec fn boundary_of<RingOp: Ring<RingElt>, RingElt>(
    simplices: Seq<Vec<usize>>,
    ring: RingOp,
    simplex: Seq<usize>,
) -> Seq<(usize, RingElt)> {
    if simplex.len() <= 1 {
        Seq::empty()
    } else {
        Seq::new(
            simplex.len(),
            |f: int|
                (
                    ordinal_of(simplices, facets_of(simplex)[f])->0,
                    ring.sign((simplex.len() - 1 - f) as usize),
                ),
        )
    }
}

/// Looking a vector up among vectors of numbers finds the vector that holds
/// the same sequence.
pub proof fn lemma_last_match_is_ordinal(simplices: Seq<Vec<usize>>, a: Vec<usize>)
    ensures
        last_match(simplices, a) == ordinal_of(simplices, a@),
    decreases simplices.len(),
{
    broadcast use vstd::laws_eq::group_laws_eq;

    reveal(vstd::laws_eq::obeys_concrete_eq);
    if simplices.len() > 0 {
        lemma_last_match_is_ordinal(simplices.drop_last(), a);
        let last = simplices.last();
        if last@ == a@ {
            assert(last.eq_spec(&a));
        } else if last.eq_spec(&a) {
            assert(last@ =~= a@);
        }
    }
}

/// The boundary matrix of a simplicial complex, given its simplices in the
/// order of their ordinals.  Column `i` is the boundary of simplex `i`.
pub fn boundary_matrix_from_complex_facets<RingOp, RingElt>(
    simplex_bimap: &BiMapSequential<Vec<usize>>,
    ring: RingOp,
) -> (boundary: Vec<Vec<(usize, RingElt)>>) where RingOp: Ring<RingElt>
    requires
        forall|s: int|
            0 <= s < simplex_bimap.ord_to_val@.len() ==> (#[trigger] simplex_bimap.ord_to_val@[s])@.len()
                > 0,
        facets_are_present(simplex_bimap.ord_to_val@),
    ensures
        boundary@.len() == simplex_bimap.ord_to_val@.len(),
        forall|s: int|
            0 <= s < boundary@.len() ==> (#[trigger] boundary@[s])@ == boundary_of(
                simplex_bimap.ord_to_val@,
                ring,
                simplex_bimap.ord_to_val@[s]@,
            ),
{
    broadcast use vstd::laws_eq::group_laws_eq;

    let mut boundary: Vec<Vec<(usize, RingElt)>> = Vec::new();
    let ghost simplices = simplex_bimap.ord_to_val@;
    let mut s: usize = 0;
    while s < simplex_bimap.ord_to_val.len()
        invariant
            s <= simplices.len(),
            simplices == simplex_bimap.ord_to_val@,
            forall|m: int| 0 <= m < simplices.len() ==> (#[trigger] simplices[m])@.len() > 0,
            facets_are_present(simplices),
            boundary@.len() == s,
            forall|m: int|
                0 <= m < s ==> (#[trigger] boundary@[m])@ == boundary_of(
                    simplices,
                    ring,
                    simplices[m]@,
                ),
        decreases simplices.len() - s,
    {
        let simplex = &simplex_bimap.ord_to_val[s];
        let simplex_num_verts = simplex.len();
        let simplex_dim = simplex_num_verts - 1;
        // no need to calculate boundaries of dim-0 cells
        if simplex_dim == 0 {
            let empty: Vec<(usize, RingElt)> = Vec::new();
            assert(empty@ =~= boundary_of(simplices, ring, simplex@));
            boundary.push(empty);
            s += 1;
            continue ;
        }
        let mut vec: Vec<(usize, RingElt)> = Vec::new();  // num_vertices = NUMBER OF FACETS
        let facets = combinations_of(simplex, simplex_dim);
        proof {
            lemma_combinations_count(simplex@);
            assert(views_of(facets@).len() == facets@.len());
        }
        let mut facet_count: usize = 0;
        while facet_count < facets.len()
            invariant
                facet_count <= facets@.len(),
                facets@.len() == simplex_num_verts,
                simplex_num_verts > 1,
                simplex_dim == simplex_num_verts - 1,
                simplex_num_verts == simplex@.len(),
                simplex@ == simplices[s as int]@,
                s < simplices.len(),
                simplices == simplex_bimap.ord_to_val@,
                facets_are_present(simplices),
                views_of(facets@) == facets_of(simplex@),
                vec@ == boundary_of(simplices, ring, simplex@).take(facet_count as int),
            decreases facets@.len() - facet_count,
        {
            let facet = &facets[facet_count];
            proof {
                lemma_last_match_is_ordinal(simplices, *facet);
                assert(facet@ == views_of(facets@)[facet_count as int]);
                assert(facet@ == facets_of(simplices[s as int]@)[facet_count as int]);
            }
            let index = simplex_bimap.ord(facet).unwrap();
            vec.push((index, ring.minus_one_to_power(simplex_dim - facet_count)));
            assert(vec@ =~= boundary_of(simplices, ring, simplex@).take(facet_count + 1));
            facet_count += 1;
        }
        assert(vec@ =~= boundary_of(simplices, ring, simplex@));
        boundary.push(vec);
        s += 1;
    }
    boundary
}

} // verus!
