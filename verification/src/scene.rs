//! Meshes and their expansion into single triangles.

use vstd::prelude::*;
use crate::dataforms::{same_text, DataField};
use crate::shapes::Triangle;

verus! {

/// The face list of a mesh: vertex indices, three for each face.
pub type FaceType = DataField<usize>;

/// A mesh: its number, the number of its material, and its faces.
#[derive(Debug, Clone)]
pub struct Mesh {
    pub _id: usize,
    pub material_idx: usize,
    pub faces: FaceType,
}

/// The distance between the ids given to the triangles of two meshes whose
/// numbers differ by one.
pub const MESH_ID_STRIDE: usize = 10_000_000;

/// The id of the triangle made of face `face` of the mesh numbered `mesh_id`.
pub open spec fn triangle_id(mesh_id: int, face: int) -> int {
    MESH_ID_STRIDE * mesh_id + face
}

impl FaceType {
    /// Whether the list is tagged as a list of triangles.
    pub open spec fn is_triangle_list(&self) -> bool {
        self._type@ == "triangle"@
    }

    /// The number of faces as a mathematical integer: the whole triples of
    /// the list.
    pub open spec fn face_count(&self) -> int {
        self._data@.len() as int / 3
    }

    /// Tells whether the list is tagged as a list of triangles.
    pub fn holds_triangles(&self) -> (r: bool)
        ensures
            r == self.is_triangle_list(),
    {
        same_text(self._type.as_str(), "triangle")
    }

    /// The number of faces. Indices left over after the last whole triple
    /// make no face.
    pub fn len(&self) -> (n: usize)
        requires
            self.is_triangle_list(),
        ensures
            n == self.face_count(),
    {
        self._data.len() / 3
    }

    /// The three vertex indices of face `i`.
    pub fn get_indices(&self, i: usize) -> (r: [usize; 3])
        requires
            self.is_triangle_list(),
            i < self.face_count(),
        ensures
            r@ == self._data@.subrange(3 * i, 3 * i + 3),
    {
        let n: usize = self._data.len();
        assert(3 * i + 3 <= n);
        let start: usize = i * 3;
        let r = [self._data[start], self._data[start + 1], self._data[start + 2]];
        assert(r@ =~= self._data@.subrange(3 * i, 3 * i + 3));
        r
    }
}

impl Default for Mesh {
    fn default() -> (r: Self)
        ensures
            r._id == 0,
            r.material_idx == 0,
            r.faces._data@.len() == 0,
            r.faces._type@.len() == 0,
            r.faces._ply_file@.len() == 0,
    {
        Mesh { _id: 0, material_idx: 0, faces: DataField::default() }
    }
}

impl Mesh {
    /// Whether `t` is the triangle that face `face` of the mesh expands to:
    /// it has the face's three indices, the mesh's material, and an id made
    /// of the mesh's number and the face's place.
    pub open spec fn expands_to(&self, face: int, t: Triangle) -> bool {
        &&& t._id == triangle_id(self._id as int, face)
        &&& t.indices@ == self.faces._data@.subrange(3 * face, 3 * face + 3)
        &&& t.material_idx == self.material_idx
    }

    /// Whether every triangle id of the mesh fits the machine's integers.
    pub open spec fn ids_fit(&self) -> bool {
        &&& triangle_id(self._id as int, 0) <= usize::MAX
        &&& self.faces.face_count() > 0 ==> triangle_id(
            self._id as int,
            self.faces.face_count() - 1,
        ) <= usize::MAX
    }

    /// Tells whether every triangle id of the mesh fits the machine's
    /// integers.
    pub fn has_fitting_ids(&self) -> (r: bool)
        ensures
            r == self.ids_fit(),
    {
        let faces: usize = self.faces._data.len() / 3;
        match MESH_ID_STRIDE.checked_mul(self._id) {
            None => false,
            Some(offset) => faces == 0 || offset.checked_add(faces - 1).is_some(),
        }
    }
}

/// The triangles of a mesh, one for each face in the order of the faces.
pub fn mesh_to_triangles(mesh: &Mesh) -> (triangles: Vec<Triangle>)
    requires
        mesh.faces.is_triangle_list(),
        mesh.ids_fit(),
    ensures
        triangles@.len() == mesh.faces.face_count(),
        forall|i: int| 0 <= i < triangles@.len() ==> mesh.expands_to(i, #[trigger] triangles@[i]),
{
    let id_offset: usize = MESH_ID_STRIDE * mesh._id;
    let n_faces: usize = mesh.faces.len();
    let mut triangles: Vec<Triangle> = Vec::with_capacity(n_faces);
    let mut i: usize = 0;
    while i < n_faces
        invariant
            i <= n_faces,
            n_faces == mesh.faces.face_count(),
            mesh.faces.is_triangle_list(),
            mesh.ids_fit(),
            id_offset == triangle_id(mesh._id as int, 0),
            triangles@.len() == i,
            forall|j: int| 0 <= j < i ==> mesh.expands_to(j, #[trigger] triangles@[j]),
        decreases n_faces - i,
    {
        let indices = mesh.faces.get_indices(i);
        triangles.push(Triangle { _id: id_offset + i, indices, material_idx: mesh.material_idx });
        i = i + 1;
    }
    triangles
}

/// Two faces get the same triangle id only if they are the same face of
/// meshes with the same number, as long as neither mesh has more faces than
/// the stride between mesh ids.
pub proof fn triangle_ids_are_distinct(mesh_a: int, face_a: int, mesh_b: int, face_b: int)
    requires
        0 <= mesh_a,
        0 <= mesh_b,
        0 <= face_a < MESH_ID_STRIDE,
        0 <= face_b < MESH_ID_STRIDE,
        triangle_id(mesh_a, face_a) == triangle_id(mesh_b, face_b),
    ensures
        mesh_a == mesh_b,
        face_a == face_b,
{
}

} // verus!
