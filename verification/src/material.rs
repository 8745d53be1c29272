//! The kinds of material and what each of them adds to the colour of a hit.

use vstd::prelude::*;
use crate::dataforms::same_text;

verus! {

/// The kinds of material.
#[derive(Debug, Clone, Copy, PartialEq, Eq, Structural)]
pub enum MaterialKind {
    /// Lit by the lights only.
    Diffuse,
    /// Lit by the lights, and shows what a perfect mirror shows.
    Mirror,
    /// Glass: reflects and lets light through.
    Dielectric,
}

/// What a hit adds to the ambient term of its colour.
#[derive(Debug, Clone, Copy, PartialEq, Eq, Structural)]
pub struct Shading {
    /// The light that reaches the point from each point light that no shape
    /// hides.
    pub direct: bool,
    /// The colour seen along the reflected ray.
    pub reflection: bool,
    /// The colour seen along the refracted ray.
    pub refraction: bool,
}

/// The kind that a scene file names by `tag`. A material without a tag, or
/// with a tag that names no kind, is diffuse.
pub open spec fn kind_of_tag(tag: Option<Seq<char>>) -> MaterialKind {
    match tag {
        Some(t) => if t == "mirror"@ {
            MaterialKind::Mirror
        } else if t == "dielectric"@ {
            MaterialKind::Dielectric
        } else {
            MaterialKind::Diffuse
        },
        None => MaterialKind::Diffuse,
    }
}

/// Whether `tag` names a kind of material.
pub open spec fn names_a_kind(tag: Seq<char>) -> bool {
    tag == "diffuse"@ || tag == "mirror"@ || tag == "dielectric"@
}

/// Tells whether `tag` names a kind of material.
pub fn is_material_type(tag: &str) -> (r: bool)
    ensures
        r == names_a_kind(tag@),
{
    same_text(tag, "diffuse") || same_text(tag, "mirror") || same_text(tag, "dielectric")
}

impl MaterialKind {
    /// The tag by which a scene file names the kind.
    pub open spec fn tag(self) -> Seq<char> {
        match self {
            MaterialKind::Diffuse => "diffuse"@,
            MaterialKind::Mirror => "mirror"@,
            MaterialKind::Dielectric => "dielectric"@,
        }
    }

    /// What a hit on a material of this kind adds to its ambient term: a
    /// diffuse one the direct light, a mirror the direct light and the
    /// reflection, glass the reflection and the refraction.
    pub open spec fn shading(self) -> Shading {
        match self {
            MaterialKind::Diffuse => Shading { direct: true, reflection: false, refraction: false },
            MaterialKind::Mirror => Shading { direct: true, reflection: true, refraction: false },
            MaterialKind::Dielectric => Shading {
                direct: false,
                reflection: true,
                refraction: true,
            },
        }
    }

    /// The kind that a scene file names by `tag`; diffuse where it names
    /// none.
    pub fn from_type(tag: Option<&str>) -> (kind: MaterialKind)
        ensures
            kind == kind_of_tag(
                match tag {
                    Some(t) => Some(t@),
                    None => None,
                },
            ),
    {
        match tag {
            Some(t) => {
                if same_text(t, "mirror") {
                    MaterialKind::Mirror
                } else if same_text(t, "dielectric") {
                    MaterialKind::Dielectric
                } else {
                    MaterialKind::Diffuse
                }
            },
            None => MaterialKind::Diffuse,
        }
    }

    /// The tag by which a scene file names the kind.
    pub fn get_type(&self) -> (r: &'static str)
        ensures
            r@ == self.tag(),
    {
        match self {
            MaterialKind::Diffuse => "diffuse",
            MaterialKind::Mirror => "mirror",
            MaterialKind::Dielectric => "dielectric",
        }
    }

    /// What a hit on a material of this kind adds to its ambient term.
    pub fn contributions(&self) -> (r: Shading)
        ensures
            r == self.shading(),
    {
        match self {
            MaterialKind::Diffuse => Shading { direct: true, reflection: false, refraction: false },
            MaterialKind::Mirror => Shading { direct: true, reflection: true, refraction: false },
            MaterialKind::Dielectric => Shading {
                direct: false,
                reflection: true,
                refraction: true,
            },
        }
    }
}

/// The place in the table of materials of the material numbered
/// `material_id`. Materials are numbered from 1: number 0 names none, and
/// neither does a number above `n_materials`.
pub open spec fn table_place(material_id: int, n_materials: int) -> Option<int> {
    if 1 <= material_id <= n_materials {
        Some(material_id - 1)
    } else {
        None
    }
}

/// The place in a table of `n_materials` materials of the material numbered
/// `material_id`, if the number names one.
pub fn material_index(material_id: usize, n_materials: usize) -> (r: Option<usize>)
    ensures
        match r {
            Some(i) => table_place(material_id as int, n_materials as int) == Some(i as int),
            None => table_place(material_id as int, n_materials as int) is None,
        },
{
    if 1 <= material_id && material_id <= n_materials {
        Some(material_id - 1)
    } else {
        None
    }
}

/// The tag of a kind names that kind and no other.
pub proof fn tag_names_its_kind(kind: MaterialKind)
    ensures
        names_a_kind(kind.tag()),
        kind_of_tag(Some(kind.tag())) == kind,
{
    reveal_strlit("diffuse");
    reveal_strlit("mirror");
    reveal_strlit("dielectric");
    assert("diffuse"@.len() == 7);
    assert("mirror"@.len() == 6);
    assert("dielectric"@.len() == 10);
}

} // verus!
