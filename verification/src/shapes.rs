//! The primitives whose description holds no coordinates of its own: a
//! triangle names its corners by their places in the scene's vertex pool.

use vstd::prelude::*;

verus! {

/// A triangle: the places of its three corners in the vertex pool, given
/// counter-clockwise, and the number of its material.
#[derive(Debug, Clone, PartialEq, Eq)]
pub struct Triangle {
    pub _id: usize,
    pub indices: [usize; 3],
    pub material_idx: usize,
}

impl Triangle {
    /// Whether every corner names a vertex of a pool of `n_vertices` points.
    pub open spec fn corners_within(&self, n_vertices: int) -> bool {
        forall|k: int| 0 <= k < 3 ==> (#[trigger] self.indices@[k]) < n_vertices
    }

    /// Tells whether every corner names a vertex of a pool of `n_vertices`
    /// points, so that looking the corners up cannot fail.
    pub fn has_corners_within(&self, n_vertices: usize) -> (r: bool)
        ensures
            r == self.corners_within(n_vertices as int),
    {
        let r = self.indices[0] < n_vertices && self.indices[1] < n_vertices && self.indices[2]
            < n_vertices;
        proof {
            if r {
                assert forall|k: int| 0 <= k < 3 implies (#[trigger] self.indices@[k])
                    < n_vertices by {
                    assert(k == 0 || k == 1 || k == 2);
                }
            } else {
                assert(self.indices@[0] >= n_vertices || self.indices@[1] >= n_vertices
                    || self.indices@[2] >= n_vertices);
            }
        }
        r
    }
}

impl Default for Triangle {
    fn default() -> (r: Self)
        ensures
            r._id == 0,
            r.material_idx == 0,
            forall|k: int| 0 <= k < 3 ==> r.indices@[k] == 0,
    {
        Triangle { _id: 0, indices: [0, 0, 0], material_idx: 0 }
    }
}

} // verus!
