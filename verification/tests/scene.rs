use fury_tracer::brdf::{find_brdf, BrdfIds, BrdfKind};
use fury_tracer::image::{encoding_for_extension, image_load_order, ImageEncoding};
use fury_tracer::json_parser::{material_kind, MaterialKind};
use fury_tracer::json_structs::{DataField, Face};
use fury_tracer::json_structs::SingleOrVec;
use fury_tracer::light::{setup_env_lights, EnvironmentMap, HemisphereSampling, SphericalDirectionalLight};
use fury_tracer::scene::{
    build_uv, first_index_of, initial_uv_coords, resolve_all_mesh_instances, shifted_face_indices,
    MeshInstanceRef,
};
use fury_tracer::text::{eq_ignore_ascii_case, is_whitespace};

fn tex(data: Vec<f64>) -> Option<DataField<f64>> {
    Some(DataField { _data: data, _type: "uv".to_string(), _ply_file: String::new() })
}

#[test]
fn uv_building() {
    let out = build_uv(5, &tex(vec![0.1, 0.2, 0.3, 0.4]), &[Some([0.5, 0.6])]);
    assert_eq!(out, vec![Some([0.1, 0.2]), Some([0.3, 0.4]), Some([0.5, 0.6]), None, None]);
    let none = build_uv::<f64>(3, &None, &[Some([0.5, 0.6])]);
    assert_eq!(none, vec![None, None, None]);
    let odd = build_uv(2, &tex(vec![0.1, 0.2, 0.3]), &[]);
    assert_eq!(odd, vec![Some([0.1, 0.2]), None]);
}


#[test]
fn initial_uv() {
    assert_eq!(initial_uv_coords(&tex(vec![1.0, 2.0]), 3), vec![Some([1.0, 2.0]), None, None]);
    assert_eq!(initial_uv_coords(&tex(vec![1.0, 2.0, 3.0, 4.0]), 1), vec![Some([1.0, 2.0]), Some([3.0, 4.0])]);
    assert_eq!(initial_uv_coords::<f64>(&None, 2), vec![None, None]);
}

#[test]
fn ply_faces_are_flattened_and_shifted() {
    let faces = vec![Face { vertex_indices: vec![0, 1, 2] }, Face { vertex_indices: vec![2, 3, 0] }];
    assert_eq!(shifted_face_indices(&faces, 10), vec![10, 11, 12, 12, 13, 10]);
    assert_eq!(shifted_face_indices(&faces, 0), vec![0, 1, 2, 2, 3, 0]);
    assert_eq!(shifted_face_indices(&vec![], 3), Vec::<usize>::new());
}

#[test]
fn first_index() {
    assert_eq!(first_index_of(&[4, 7, 7, 1], 7), Some(1));
    assert_eq!(first_index_of(&[4, 7], 9), None);
    assert_eq!(first_index_of(&[], 9), None);
}

fn inst(id: usize, base: usize) -> MeshInstanceRef {
    MeshInstanceRef { _id: id, base_mesh_id: base, base_mesh: None }
}

#[test]
fn mesh_instances_resolve_to_meshes_and_instances() {
    // meshes with ids 1 and 2; instance 10 draws mesh 2; instance 11 refers to instance 10.
    let mut insts = vec![inst(10, 2), inst(11, 10)];
    let links = resolve_all_mesh_instances(&mut insts, &vec![1, 2]).unwrap();
    assert_eq!(insts[0].base_mesh, Some(1));
    assert_eq!(insts[1].base_mesh, Some(1));
    assert_eq!(links, vec![None, Some(0)]);
}

#[test]
fn mesh_instance_referring_forward_is_unresolved() {
    // instance 10 refers to instance 11, which is resolved only later.
    let mut insts = vec![inst(10, 11), inst(11, 1)];
    assert_eq!(resolve_all_mesh_instances(&mut insts, &vec![1]), Err(11));
    let mut missing = vec![inst(10, 5)];
    assert_eq!(resolve_all_mesh_instances(&mut missing, &vec![1]), Err(5));
}

#[test]
fn load_order_is_stable_sort_by_id() {
    assert_eq!(image_load_order(&[3, 1, 2, 1]), vec![1, 3, 2, 0]);
    assert_eq!(image_load_order(&[]), Vec::<usize>::new());
    assert_eq!(image_load_order(&[5, 5, 5]), vec![0, 1, 2]);
}

#[test]
fn encodings() {
    assert_eq!(encoding_for_extension("png"), Some(ImageEncoding::LowDynamicRange));
    assert_eq!(encoding_for_extension("jpg"), Some(ImageEncoding::LowDynamicRange));
    assert_eq!(encoding_for_extension("jpeg"), Some(ImageEncoding::LowDynamicRange));
    assert_eq!(encoding_for_extension("exr"), Some(ImageEncoding::HighDynamicRange));
    assert_eq!(encoding_for_extension("hdr"), Some(ImageEncoding::HighDynamicRange));
    assert_eq!(encoding_for_extension("PNG"), None);
    assert_eq!(encoding_for_extension("bmp"), None);
}

#[test]
fn material_kinds() {
    assert_eq!(material_kind(None), MaterialKind::Diffuse);
    assert_eq!(material_kind(Some("diffuse")), MaterialKind::Diffuse);
    assert_eq!(material_kind(Some("mirror")), MaterialKind::Mirror);
    assert_eq!(material_kind(Some("dielectric")), MaterialKind::Dielectric);
    assert_eq!(material_kind(Some("conductor")), MaterialKind::Conductor);
    assert_eq!(material_kind(Some("Mirror")), MaterialKind::Diffuse);
    assert_eq!(material_kind(Some("glass")), MaterialKind::Diffuse);
}

fn env_light(sampler: &str, image_id: usize) -> SphericalDirectionalLight {
    SphericalDirectionalLight {
        _id: 1,
        _type: EnvironmentMap::default(),
        image_id,
        sampler: sampler.to_string(),
        image_idx: 0,
    }
}

#[test]
fn environment_light_setup_and_sampling() {
    let mut l = env_light("Uniform", 3);
    l.setup();
    assert_eq!(l.image_idx(), 2);
    assert_eq!(l._type, EnvironmentMap::LatLong);
    assert_eq!(l.direction_sampling(), HemisphereSampling::Uniform);
    assert_eq!(l.radiance_weighting(), HemisphereSampling::Uniform);
    let c = env_light("COSINE", 1);
    assert_eq!(c.direction_sampling(), HemisphereSampling::Cosine);
    assert_eq!(c.radiance_weighting(), HemisphereSampling::Cosine);
    let other = env_light("stratified", 1);
    assert_eq!(other.direction_sampling(), HemisphereSampling::Cosine);
    assert_eq!(other.radiance_weighting(), HemisphereSampling::Uniform);
}

#[test]
fn environment_lights_set_up_in_place() {
    let mut ls = SingleOrVec::Multiple(vec![env_light("cosine", 1), env_light("uniform", 4)]);
    setup_env_lights(&mut ls);
    let idx: Vec<usize> = ls.as_slice().iter().map(|l| l.image_idx()).collect();
    assert_eq!(idx, vec![0, 3]);
    assert_eq!(ls.as_slice()[1].sampler, "uniform");
    assert!(matches!(ls, SingleOrVec::Multiple(_)));
    let mut one = SingleOrVec::Single(env_light("cosine", 2));
    setup_env_lights(&mut one);
    assert!(matches!(&one, SingleOrVec::Single(l) if l.image_idx == 1));
    let mut none: SingleOrVec<SphericalDirectionalLight> = SingleOrVec::Empty;
    setup_env_lights(&mut none);
    assert!(none.is_empty());
}

#[test]
fn brdf_lookup_searches_models_in_order() {
    let ids = BrdfIds {
        original_phong: vec![2],
        modified_phong: vec![1, 5],
        original_blinn_phong: vec![1],
        modified_blinn_phong: vec![],
        torrance_sparrow: vec![7, 7],
    };
    assert_eq!(find_brdf(&ids, 1), Some((BrdfKind::ModifiedPhong, 0)));
    assert_eq!(find_brdf(&ids, 5), Some((BrdfKind::ModifiedPhong, 1)));
    assert_eq!(find_brdf(&ids, 2), Some((BrdfKind::OriginalPhong, 0)));
    assert_eq!(find_brdf(&ids, 7), Some((BrdfKind::TorranceSparrow, 0)));
    assert_eq!(find_brdf(&ids, 9), None);
}

#[test]
fn text_helpers() {
    assert!(eq_ignore_ascii_case("Smooth", "smooth"));
    assert!(!eq_ignore_ascii_case("smoothe", "smooth"));
    assert!(!eq_ignore_ascii_case("smöoth", "smooth"));
    for c in [' ', '\t', '\n', '\u{a0}', '\u{3000}', 'a', '1', '\u{200b}'] {
        assert_eq!(is_whitespace(c), c.is_whitespace(), "char {:?}", c);
    }
}
