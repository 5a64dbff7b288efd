use fury_tracer::json_deserialized::MeshJSON;
use fury_tracer::json_structs::{DataField, FaceType, SingleOrVec};

fn field_of(data: Vec<u32>, ty: &str) -> DataField<u32> {
    DataField { _data: data, _type: ty.to_string(), _ply_file: String::new() }
}

#[test]
fn single_or_vec_views() {
    let e: SingleOrVec<u32> = SingleOrVec::default();
    assert_eq!(e.len(), 0);
    assert!(e.is_empty());
    assert_eq!(e.as_slice(), &[] as &[u32]);
    let s = SingleOrVec::Single(5u32);
    assert_eq!(s.len(), 1);
    assert!(!s.is_empty());
    assert_eq!(s.all(), vec![5]);
    assert_eq!(s.all_ref(), vec![&5]);
    let m = SingleOrVec::Multiple(vec![1u32, 2, 3]);
    assert_eq!(m.len(), 3);
    assert_eq!(m.as_slice(), &[1, 2, 3]);
    assert_eq!(m.iter().copied().collect::<Vec<u32>>(), vec![1, 2, 3]);
    let empty_multiple: SingleOrVec<u32> = SingleOrVec::Multiple(vec![]);
    assert!(empty_multiple.is_empty());
}

#[test]
fn single_or_vec_push_grows_at_the_end() {
    let mut v: SingleOrVec<u32> = SingleOrVec::Empty;
    v.push(1);
    assert!(matches!(v, SingleOrVec::Single(1)));
    v.push(2);
    assert_eq!(v.all(), vec![1, 2]);
    v.push(3);
    assert_eq!(v.all(), vec![1, 2, 3]);
    assert_eq!(v.len(), 3);
}

#[test]
fn single_or_vec_mutation() {
    let mut v = SingleOrVec::Multiple(vec![1u32, 2, 3]);
    for x in v.all_mut() {
        *x *= 10;
    }
    assert_eq!(v.all(), vec![10, 20, 30]);
    for x in v.iter_mut() {
        *x += 1;
    }
    assert_eq!(v.all(), vec![11, 21, 31]);
    v.as_mut_slice()[0] = 0;
    assert_eq!(v.all(), vec![0, 21, 31]);
    let mut s = SingleOrVec::Single(4u32);
    s.as_mut_slice()[0] = 9;
    assert_eq!(s.all(), vec![9]);
    let mut e: SingleOrVec<u32> = SingleOrVec::Empty;
    assert!(e.as_mut_slice().is_empty());
    assert!(e.all_mut().is_empty());
}

#[test]
fn face_triangles() {
    let f: FaceType = DataField { _data: vec![1, 2, 3, 4, 5, 6, 7], _type: "triangle".to_string(), _ply_file: String::new() };
    assert_eq!(f.len_tris(), 2);
    assert!(!f.is_empty());
    assert_eq!(f.get_tri_indices(0), [1, 2, 3]);
    assert_eq!(f.get_tri_indices(1), [4, 5, 6]);
    let empty: FaceType = DataField::default();
    assert!(empty.is_empty());
    assert_eq!(empty.len_tris(), 0);
}


fn points(data: Vec<[u32; 3]>, ty: &str) -> DataField<[u32; 3]> {
    DataField { _data: data, _type: ty.to_string(), _ply_file: "p.ply".to_string() }
}

#[test]
fn normalize_layouts() {
    let mut d = points(vec![[1, 2, 3], [4, 5, 6]], "xyz");
    assert!(!d.normalize_to_xyz());
    assert_eq!(d._data, vec![[1, 2, 3], [4, 5, 6]]);

    // each point stored as (y, z, x)
    let mut d = points(vec![[20, 30, 10], [21, 31, 11]], "yzx");
    assert!(d.normalize_to_xyz());
    assert_eq!(d._data, vec![[10, 20, 30], [11, 21, 31]]);
    assert_eq!(d._type, "xyz");
    assert_eq!(d._ply_file, "p.ply");
    assert!(!d.normalize_to_xyz());

    // a single point keeps its place: (3, 2, 1) stored as z y x is (1, 2, 3)
    let mut one = points(vec![[3, 2, 1]], "zyx");
    assert!(one.normalize_to_xyz());
    assert_eq!(one._data, vec![[1, 2, 3]]);

    let cases = [
        ("xzy", [1, 3, 2]),
        ("yxz", [2, 1, 3]),
        ("zxy", [2, 3, 1]),
        ("zyx", [3, 2, 1]),
        ("abc", [1, 2, 3]),
    ];
    for (ty, expect) in cases {
        let mut d = points(vec![[1, 2, 3], [1, 2, 3]], ty);
        assert!(d.normalize_to_xyz());
        assert_eq!(d._data, vec![expect, expect], "layout {}", ty);
        assert_eq!(d._type, "xyz");
    }
}

#[test]
fn uv_pairs_by_index() {
    let t = field_of(vec![1, 2, 3, 4, 5], "uv");
    assert_eq!(t.len_uv(), 2);
    assert_eq!(t.get_uv_coords(0), [1, 2]);
    assert_eq!(t.get_uv_coords(1), [3, 4]);
    assert_eq!(field_of(vec![], "uv").len_uv(), 0);
}

#[test]
fn single_or_vec_variants() {
    let mut v: SingleOrVec<u32> = SingleOrVec::default();
    assert!(matches!(v, SingleOrVec::Empty));
    v.push(1);
    assert!(matches!(v, SingleOrVec::Single(1)));
    v.push(2);
    assert!(matches!(&v, SingleOrVec::Multiple(xs) if xs == &vec![1, 2]));
    v.push(3);
    assert!(matches!(&v, SingleOrVec::Multiple(xs) if xs == &vec![1, 2, 3]));
    let mut s = SingleOrVec::Single(7u32);
    s.as_mut_slice()[0] = 8;
    assert!(matches!(s, SingleOrVec::Single(8)));
    for x in s.iter_mut() {
        *x += 1;
    }
    assert!(matches!(s, SingleOrVec::Single(9)));
    let mut one_list = SingleOrVec::Multiple(vec![5u32]);
    for x in one_list.all_mut() {
        *x = 6;
    }
    assert!(matches!(&one_list, SingleOrVec::Multiple(xs) if xs == &vec![6]));
}

#[test]
fn all_mut_writes_land_in_place() {
    let mut v = SingleOrVec::Multiple(vec![1u32, 2, 3, 4]);
    {
        let refs = v.all_mut();
        *refs.into_iter().nth(2).unwrap() = 30;
    }
    assert_eq!(v.all(), vec![1, 2, 30, 4]);
}

#[test]
fn mesh_defaults() {
    let m = MeshJSON::default();
    assert_eq!(m._id, 0);
    assert_eq!(m.material_idx, 0);
    assert_eq!(m._shading_mode, "flat");
    assert!(m.faces.is_empty());
}
