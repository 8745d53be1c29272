use raytracer::dataforms::{same_text, DataField, SingleOrVec};

fn field(data: Vec<u32>, tag: &str) -> DataField<u32> {
    DataField { _data: data, _type: tag.to_string(), _ply_file: String::new() }
}

#[test]
fn a_list_in_xyz_order_is_left_alone() {
    let mut f = field(vec![1, 2, 3, 4, 5, 6, 7], "xyz");
    assert!(!f.normalize_to_xyz());
    assert_eq!(f._data, vec![1, 2, 3, 4, 5, 6, 7]);
    assert_eq!(f._type, "xyz");
}

#[test]
fn each_layout_is_brought_to_xyz() {
    let cases: [(&str, [u32; 6]); 6] = [
        ("xzy", [10, 30, 20, 40, 60, 50]),
        ("yxz", [20, 10, 30, 50, 40, 60]),
        ("yzx", [30, 10, 20, 60, 40, 50]),
        ("zxy", [20, 30, 10, 50, 60, 40]),
        ("zyx", [30, 20, 10, 60, 50, 40]),
        ("no such layout", [10, 20, 30, 40, 50, 60]),
    ];
    for (tag, expected) in cases {
        let mut f = field(vec![10, 20, 30, 40, 50, 60], tag);
        assert!(f.normalize_to_xyz(), "{tag}");
        assert_eq!(f._data, expected.to_vec(), "{tag}");
        assert_eq!(f._type, "xyz", "{tag}");
    }
}

#[test]
fn what_is_left_after_the_last_whole_triple_is_dropped() {
    let mut f = field(vec![1, 2, 3, 4, 5], "zyx");
    assert!(f.normalize_to_xyz());
    assert_eq!(f._data, vec![3, 2, 1]);
    let mut g = field(vec![1, 2], "zyx");
    assert!(g.normalize_to_xyz());
    assert!(g._data.is_empty());
}

#[test]
fn normalizing_twice_changes_nothing_the_second_time() {
    let mut f = field(vec![1, 2, 3, 4, 5, 6], "yzx");
    f._ply_file = "bunny.ply".to_string();
    assert!(f.normalize_to_xyz());
    let once = f._data.clone();
    assert!(!f.normalize_to_xyz());
    assert_eq!(f._data, once);
    assert_eq!(f._ply_file, "bunny.ply");
}

#[test]
fn the_dummy_goes_in_front() {
    let mut f = field(vec![7, 8, 9], "xyz");
    f.insert_dummy_at_the_beginning(0);
    assert_eq!(f._data, vec![0, 7, 8, 9]);
    assert_eq!(*f.index(1), 7);
    assert_eq!(*f.index(0), 0);
    assert_eq!(f._type, "xyz");
    let mut empty = field(vec![], "xyz");
    empty.insert_dummy_at_the_beginning(5);
    assert_eq!(empty._data, vec![5]);
}

#[test]
fn a_default_field_is_empty() {
    let f: DataField<u32> = DataField::default();
    assert!(f._data.is_empty());
    assert!(f._type.is_empty());
    assert!(f._ply_file.is_empty());
}

#[test]
fn all_gives_none_one_or_every_item() {
    let none: SingleOrVec<u32> = SingleOrVec::Empty;
    assert_eq!(none.all(), Vec::<u32>::new());
    assert_eq!(SingleOrVec::Single(4u32).all(), vec![4]);
    assert_eq!(SingleOrVec::Multiple(vec![3u32, 1, 2]).all(), vec![3, 1, 2]);
    assert_eq!(SingleOrVec::Multiple(Vec::<u32>::new()).all(), Vec::<u32>::new());
    let text = SingleOrVec::Single("a".to_string());
    assert_eq!(text.all(), vec!["a".to_string()]);
}

#[test]
fn the_default_of_a_field_holds_nothing() {
    let d: SingleOrVec<u32> = SingleOrVec::default();
    assert!(matches!(d, SingleOrVec::Empty));
    assert!(d.all().is_empty());
}

#[test]
fn texts_are_the_same_when_their_characters_are() {
    assert!(same_text("xyz", "xyz"));
    assert!(same_text("", ""));
    assert!(!same_text("xyz", "xzy"));
    assert!(!same_text("xyz", "xyz "));
    assert!(!same_text("Xyz", "xyz"));
}
