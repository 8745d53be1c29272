use raytracer::material::{is_material_type, material_index, MaterialKind, Shading};

#[test]
fn a_tag_names_its_kind() {
    assert_eq!(MaterialKind::from_type(Some("diffuse")), MaterialKind::Diffuse);
    assert_eq!(MaterialKind::from_type(Some("mirror")), MaterialKind::Mirror);
    assert_eq!(MaterialKind::from_type(Some("dielectric")), MaterialKind::Dielectric);
}

#[test]
fn a_missing_or_unknown_tag_is_diffuse() {
    assert_eq!(MaterialKind::from_type(None), MaterialKind::Diffuse);
    assert_eq!(MaterialKind::from_type(Some("conductor")), MaterialKind::Diffuse);
    assert_eq!(MaterialKind::from_type(Some("Mirror")), MaterialKind::Diffuse);
    assert_eq!(MaterialKind::from_type(Some("")), MaterialKind::Diffuse);
    assert!(is_material_type("diffuse"));
    assert!(is_material_type("mirror"));
    assert!(is_material_type("dielectric"));
    assert!(!is_material_type("conductor"));
    assert!(!is_material_type(""));
}

#[test]
fn the_tag_of_a_kind_leads_back_to_the_kind() {
    for kind in [MaterialKind::Diffuse, MaterialKind::Mirror, MaterialKind::Dielectric] {
        assert!(is_material_type(kind.get_type()));
        assert_eq!(MaterialKind::from_type(Some(kind.get_type())), kind);
    }
    assert_eq!(MaterialKind::Diffuse.get_type(), "diffuse");
    assert_eq!(MaterialKind::Mirror.get_type(), "mirror");
    assert_eq!(MaterialKind::Dielectric.get_type(), "dielectric");
}

#[test]
fn each_kind_has_its_contributions() {
    assert_eq!(
        MaterialKind::Diffuse.contributions(),
        Shading { direct: true, reflection: false, refraction: false }
    );
    assert_eq!(
        MaterialKind::Mirror.contributions(),
        Shading { direct: true, reflection: true, refraction: false }
    );
    assert_eq!(
        MaterialKind::Dielectric.contributions(),
        Shading { direct: false, reflection: true, refraction: true }
    );
}

#[test]
fn materials_are_numbered_from_one() {
    assert_eq!(material_index(0, 3), None);
    assert_eq!(material_index(1, 3), Some(0));
    assert_eq!(material_index(3, 3), Some(2));
    assert_eq!(material_index(4, 3), None);
    assert_eq!(material_index(1, 0), None);
    assert_eq!(material_index(usize::MAX, usize::MAX), Some(usize::MAX - 1));
}
