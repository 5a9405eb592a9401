//! Simplices, and the facets of a simplex.

use vstd::prelude::*;
use vstd::std_specs::cmp::PartialEqSpec;
use crate::utilities::indexing_and_bijection::{
    compose_f_after_g, composed, index_comes_first, indices_below, is_permutation, is_sorted,
    lawful_order, sort_perm, sort_vec,
};

verus! {

//  ---------------------------------------------------------------------------
//  PERMUTATION ON SIMPLICES INDUCED BY PERMUTATION ON VERTICES
//  ---------------------------------------------------------------------------
/// `key` is the sort key of the simplex that `simplex` becomes under the
/// renumbering `vertex_perm` of the vertices: its number of vertices, and its
/// new vertices in ascending order.  Simplices are ordered by these keys:
/// first by the number of vertices, then lexicographically.
pub open spec fn is_renumbered_key(
    simplex: Seq<usize>,
    vertex_perm: Seq<usize>,
    key: (usize, Vec<usize>),
) -> bool {
    &&& key.0 == simplex.len()
    &&& is_sorted(key.1@)
    &&& key.1@.to_multiset() == composed(vertex_perm, simplex).to_multiset()
}

/// `keys` are the sort keys of the renumbered simplices, and `r` lists the
/// positions of the simplices in ascending order of their keys; simplices
/// with equal keys keep their order.
pub open spec fn sorts_renumbered(
    simplices: Seq<Vec<usize>>,
    vertex_perm: Seq<usize>,
    keys: Seq<(usize, Vec<usize>)>,
    r: Seq<usize>,
) -> bool {
    &&& keys.len() == simplices.len()
    &&& forall|i: int|
        0 <= i < keys.len() ==> is_renumbered_key(simplices[i]@, vertex_perm, #[trigger] keys[i])
    &&& forall|i: int, j: int|
        0 <= i < j < r.len() ==> index_comes_first(keys, #[trigger] r[i], #[trigger] r[j])
}

/// Given a vector f = [f0, .., fn] representing a function of form
/// f: old_vertex_number -> new_vertex_number, obtain the vector
/// g: new_simplex_number -> old_simplex_number; here "number" refers to
/// lexicographic order: `g[i]` is the position in `simplex_sequence` of the
/// simplex that comes `i`th once the vertices are renumbered.
///
/// This function does not assume that the `simplex_sequence` has lexicographic
/// order.
pub fn simplex_perm_o2n_from_vertex_perm_o2n(
    simplex_sequence: &Vec<Vec<usize>>,
    vertex_perm_old_to_new: &Vec<usize>,
) -> (r: Vec<usize>)
    requires
        lawful_order::<(usize, Vec<usize>)>(),
        forall|i: int|
            0 <= i < simplex_sequence@.len() ==> indices_below(
                (#[trigger] simplex_sequence@[i])@,
                vertex_perm_old_to_new@.len(),
            ),
    ensures
        r@.len() == simplex_sequence@.len(),
        is_permutation(r@),
        exists|keys: Seq<(usize, Vec<usize>)>| #[trigger]
            sorts_renumbered(simplex_sequence@, vertex_perm_old_to_new@, keys, r@),
{
    broadcast use vstd::seq_lib::group_to_multiset_ensures;

    // Create vector of new simplices
    let mut new_simplex_sequence: Vec<(usize, Vec<usize>)> = Vec::new();
    let mut i: usize = 0;
    while i < simplex_sequence.len()
        invariant
            i <= simplex_sequence@.len(),
            forall|m: int|
                0 <= m < simplex_sequence@.len() ==> indices_below(
                    (#[trigger] simplex_sequence@[m])@,
                    vertex_perm_old_to_new@.len(),
                ),
            new_simplex_sequence@.len() == i,
            forall|m: int|
                0 <= m < i ==> is_renumbered_key(
                    simplex_sequence@[m]@,
                    vertex_perm_old_to_new@,
                    #[trigger] new_simplex_sequence@[m],
                ),
        decreases simplex_sequence@.len() - i,
    {
        let mut vertices = compose_f_after_g(vertex_perm_old_to_new, &simplex_sequence[i]);
        proof {
            let expected = composed(vertex_perm_old_to_new@, simplex_sequence@[i as int]@);
            assert(vertices@ =~= expected);
            lemma_usize_order();
        }
        // We must remember to sort the new vertices
        sort_vec(&mut vertices);
        new_simplex_sequence.push((simplex_sequence[i].len(), vertices));
        i += 1;
    }
    // Obtain the sort permutation
    let r = sort_perm(&new_simplex_sequence);
    assert(sorts_renumbered(
        simplex_sequence@,
        vertex_perm_old_to_new@,
        new_simplex_sequence@,
        r@,
    ));
    r
}

/// The order of the machine integers is lawful.
proof fn lemma_usize_order()
    ensures
        lawful_order::<usize>(),
{
    broadcast use vstd::laws_cmp::group_laws_cmp;

}

//  ---------------------------------------------------------------------------
//  COMBINATORIAL SIMPLEX (UNWEIGHTED) -- DEFINITION
//  ---------------------------------------------------------------------------
/// An unweighted simplex; the vertices should be sorted in ascending order.
#[derive(Debug, Clone, Hash)]
pub struct Simplex<Vertex> {
    pub vertices: Vec<Vertex>,  //  vertices should be sorted in ascending order
}

/// Two simplices are equal if they have the same vertices.
impl<Vertex: PartialEq> PartialEq for Simplex<Vertex> {
    fn eq(&self, other: &Self) -> (r: bool) {
        self.vertices == other.vertices
    }
}

impl<Vertex: PartialEq> vstd::std_specs::cmp::PartialEqSpecImpl for Simplex<Vertex> {
    open spec fn obeys_eq_spec() -> bool {
        Vertex::obeys_eq_spec()
    }

    open spec fn eq_spec(&self, other: &Self) -> bool {
        PartialEqSpec::eq_spec(&self.vertices, &other.vertices)
    }
}

impl<Vertex: Eq> Eq for Simplex<Vertex> {

}

impl<Vertex> Simplex<Vertex> {
    /// The number of vertices of the simplex.
    pub fn num_vertices(&self) -> (r: usize)
        ensures
            r == self.vertices@.len(),
    {
        self.vertices.len()
    }

    /// The dimension of the simplex: one less than the number of its
    /// vertices.
    pub fn dim(&self) -> (r: usize)
        requires
            self.vertices@.len() > 0,
        ensures
            r == self.vertices@.len() - 1,
    {
        self.vertices.len() - 1
    }
}

//  ---------------------------------------------------------------------------
//  FACETS-OF-A-SIMPLEX: ASCENDING ITERATOR WITH **NO** RETURN VALUE
//  ---------------------------------------------------------------------------
/// Maintains an "inner state" that steps through the facets of a simplex in
/// ascending lexicographic order; only returns `Some(())` or `None`.
///
/// The facets come in this order: first the facet without the last vertex,
/// then the facet without the last but one, and so on.  While the state
/// represents a facet, `deleted_vertex_index` is the index of the vertex that
/// the facet lacks; else it is `None` and `facet` is of no account.
#[derive(Clone, Debug, PartialEq)]
pub struct FacetIteratorNoReturnAscending<Vertex> {
    pub simplex: Simplex<Vertex>,
    pub facet: Simplex<Vertex>,
    pub deleted_vertex_index: Option<usize>,
}

impl<Vertex> FacetIteratorNoReturnAscending<Vertex> where Vertex: Copy {
    /// If the state represents a facet, it is the facet that lacks the
    /// vertex at `deleted_vertex_index`.
    pub open spec fn well_formed(&self) -> bool {
        match self.deleted_vertex_index {
            Some(d) => d < self.simplex.vertices@.len() && self.facet.vertices@
                == self.simplex.vertices@.remove(d as int),
            None => true,
        }
    }

    /// Initialize a no-return facet iterator.
    ///
    /// Its internal state does not represent a facet; rather, the internal state will
    /// represent the first facet after `next()` is called for the first time.
    pub fn new(simplex: Simplex<Vertex>, buffer: Option<Simplex<Vertex>>) -> (r: Self)
        requires
            simplex.vertices@.len() > 0,
        ensures
            r.simplex == simplex,
            r.deleted_vertex_index is None,
            match buffer {
                Some(given) => r.facet == given,
                None => r.facet.vertices@.len() == 0,
            },
            r.well_formed(),
    {
        let buff = if let Some(vec) = buffer {
            vec
        } else {
            Simplex {
                vertices: Vec::with_capacity(simplex.dim()),  // = 1 less than num_vertices = NUM VERTICES OF A FACET
            }
        };
        FacetIteratorNoReturnAscending { simplex: simplex, facet: buff, deleted_vertex_index: None }
    }

    /// Start over with another simplex.  The state does not represent a
    /// facet until `next()` is called.
    pub fn reinitialize_with_simplex(&mut self, simplex: Simplex<Vertex>)
        requires
            simplex.vertices@.len() > 0,
        ensures
            final(self).simplex == simplex,
            final(self).facet.vertices@.len() == 0,
            final(self).deleted_vertex_index is None,
            final(self).well_formed(),
    {
        // replace the old simplex with the new
        self.simplex = simplex;
        // update the state to indicate that it does not represent a facet
        self.facet.vertices.clear();
        self.deleted_vertex_index = None;
    }

    /// Step to the next facet.
    ///
    /// From a state that represents no facet, step to the facet without the
    /// last vertex.  From the facet without vertex `k > 0`, step to the
    /// facet without vertex `k - 1`.  From the facet without vertex 0, step
    /// to the state that represents no facet, and return `None`.
    pub fn next(&mut self) -> (r: Option<()>)
        requires
            old(self).well_formed(),
            old(self).simplex.vertices@.len() > 0,
        ensures
            final(self).well_formed(),
            final(self).simplex == old(self).simplex,
            match old(self).deleted_vertex_index {
                Some(d) => if d == 0 {
                    &&& r is None
                    &&& final(self).deleted_vertex_index is None
                    &&& final(self).facet.vertices@.len() == 0
                } else {
                    &&& r is Some
                    &&& final(self).deleted_vertex_index == Some((d - 1) as usize)
                },
                None => {
                    &&& r is Some
                    &&& final(self).deleted_vertex_index == Some(
                        (old(self).simplex.vertices@.len() - 1) as usize,
                    )
                },
            },
    {
        if let Some(deleted_index) = self.deleted_vertex_index {
            if deleted_index == 0 {
                // if we start from the facet obtained by deleting vertex 0, then the
                // next state should **not** represent a facet
                self.deleted_vertex_index = None;
                self.facet.vertices.clear();
                return None
            } else {
                // if we start from the facet obtained by deleting vertex k > 0, then
                // the next state should represent the facet obtained by deleting vertex k-1
                let next_deleted_index = deleted_index - 1;
                let vertex = self.simplex.vertices[deleted_index];
                self.facet.vertices[next_deleted_index] = vertex;  // replace the deleted index and remove the next one
                self.deleted_vertex_index = Some(next_deleted_index);
                assert(self.facet.vertices@ =~= self.simplex.vertices@.remove(
                    next_deleted_index as int,
                ));
                return Some(())
            }
        } else {
            self.facet.vertices.clear();
            let dim = self.simplex.dim();
            let mut i: usize = 0;
            while i < dim
                invariant
                    i <= dim,
                    dim == self.simplex.vertices@.len() - 1,
                    self.simplex == old(self).simplex,
                    self.facet.vertices@ == self.simplex.vertices@.take(i as int),
                decreases dim - i,
            {
                // dim = 1 less than num_vertices = INDEX OF LAST VERTEX IN SIMPLEX
                let vertex = self.simplex.vertices[i];
                self.facet.vertices.push(vertex);
                assert(self.facet.vertices@ =~= self.simplex.vertices@.take(i + 1));
                i += 1;
            }
            // set deleted vertex equal to last
            self.deleted_vertex_index = Some(dim);  // dim = 1 less than num_vertices = INDEX OF LAST VERTEX IN SIMPLEX
            assert(self.facet.vertices@ =~= self.simplex.vertices@.remove(dim as int));
            return Some(())
        }
    }
}

} // verus!
