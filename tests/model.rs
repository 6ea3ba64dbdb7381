use guidestone::cache::{ModelCache, NamedTexture};
use guidestone::geo::ImportError;
use guidestone::math::Vector;
use guidestone::model::{Material, Mesh, Model, Node, Texture, Vertex};
use guidestone::patch::{apply_patch, patch, patch_vector, patches_for, Patch};
use guidestone::surface::{build_model, merge_surfaces, Surface};

fn vertex(k: u32) -> Vertex {
    Vertex { pos: [k, k + 1, k + 2], normal: [0, 0, k], uv: [k, 0] }
}

fn tri(node: u32, texture: Option<&[u8]>, double_sided: bool, base: u32) -> Surface {
    Surface {
        node,
        texture: texture.map(|t| t.to_vec()),
        self_illum: false,
        double_sided,
        alpha: false,
        team_colour: false,
        vertices: vec![vertex(base), vertex(base + 1), vertex(base + 2)],
    }
}

fn node() -> Node {
    Node { parent: None, transform: [0; 16] }
}

#[test]
fn three_equal_surfaces_merge_into_one_mesh() {
    let tris = vec![
        tri(0, Some(b"hull"), false, 0),
        tri(0, Some(b"hull"), false, 10),
        tri(0, Some(b"hull"), false, 20),
        tri(0, Some(b"hull"), true, 30),
    ];
    let merged = merge_surfaces(&tris);
    assert_eq!(merged.len(), 2);
    let model = build_model(&merged, vec![node()]);
    assert_eq!(model.meshes.len(), 2);
    assert_eq!(model.meshes[0], Mesh { first_vertex: 0, num_vertices: 9, material: 0, node: 0 });
    assert_eq!(model.meshes[1], Mesh { first_vertex: 9, num_vertices: 3, material: 0, node: 0 });
    assert_eq!(model.materials.len(), 1);
    assert_eq!(model.vertices.len(), 12);
    assert_eq!(model.vertices[3].pos, [10, 11, 12]);
}

#[test]
fn merge_orders_by_key_and_keeps_input_order_within_a_key() {
    let tris = vec![
        tri(1, None, false, 0),
        tri(0, Some(b"b"), false, 10),
        tri(0, Some(b"a"), false, 20),
        tri(0, None, false, 30),
        tri(1, None, false, 40),
    ];
    let merged = merge_surfaces(&tris);
    let keys: Vec<(u32, Option<Vec<u8>>)> = merged.iter().map(|s| (s.node, s.texture.clone())).collect();
    assert_eq!(
        keys,
        vec![(0, None), (0, Some(b"a".to_vec())), (0, Some(b"b".to_vec())), (1, None)]
    );
    assert_eq!(merged[3].vertices.len(), 6);
    assert_eq!(merged[3].vertices[0].pos, [0, 1, 2]);
    assert_eq!(merged[3].vertices[3].pos, [40, 41, 42]);
}

#[test]
fn merge_of_nothing_is_nothing() {
    assert!(merge_surfaces(&Vec::new()).is_empty());
}

#[test]
fn materials_are_shared_by_texture_name() {
    let surfaces = vec![tri(0, Some(b"a"), false, 0), tri(1, None, false, 3), tri(2, Some(b"a"), true, 6)];
    let model = build_model(&surfaces, vec![node(), node(), node()]);
    assert_eq!(model.materials, vec![Material { texture: Some(b"a".to_vec()) }, Material { texture: None }]);
    let mats: Vec<u32> = model.meshes.iter().map(|m| m.material).collect();
    assert_eq!(mats, vec![0, 1, 0]);
    let firsts: Vec<u32> = model.meshes.iter().map(|m| m.first_vertex).collect();
    assert_eq!(firsts, vec![0, 3, 6]);
}

fn uv_patch(old_uv: [u32; 2]) -> Patch {
    Patch {
        triangle: 1,
        vertex: 2,
        pos: None,
        old_pos: None,
        normal: None,
        old_normal: None,
        uv: Some([7, 8]),
        old_uv: Some(old_uv),
    }
}

#[test]
fn patch_applies_even_when_old_value_differs() {
    let mut tris = vec![tri(0, None, false, 0), tri(0, None, false, 10)];
    assert_eq!(apply_patch(&mut tris, &uv_patch([99, 99])), Ok(false));
    assert_eq!(tris[1].vertices[2].uv, [7, 8]);
    assert_eq!(tris[1].vertices[2].pos, [12, 13, 14]);
    assert_eq!(tris[0].vertices[2].uv, [2, 0]);
}

#[test]
fn patch_reports_matching_old_value() {
    let mut tris = vec![tri(0, None, false, 0), tri(0, None, false, 10)];
    assert_eq!(apply_patch(&mut tris, &uv_patch([12, 0])), Ok(true));
    assert_eq!(tris[1].vertices[2].uv, [7, 8]);
}

#[test]
fn patch_outside_the_model_is_an_error() {
    let mut tris = vec![tri(0, None, false, 0)];
    assert_eq!(apply_patch(&mut tris, &uv_patch([0, 0])), Err(ImportError::BadIndex));
}

#[test]
fn patch_table_is_keyed_by_path() {
    assert_eq!(patches_for(b"r1/resourcecollector/rl0/lod0/resourcecollector.peo").len(), 2);
    let ms = patches_for(b"r1/mothership/rl0/lod0/mothership.peo");
    assert_eq!(ms.len(), 3);
    assert_eq!(ms[1].uv, Some([1.0f32.to_bits(), 0.875f32.to_bits()]));
    assert_eq!(ms[1].old_uv, Some([1.0f32.to_bits(), 0.9962938f32.to_bits()]));
    assert!(patches_for(b"r1/other.peo").is_empty());
    let mut tris = vec![tri(0, None, false, 0)];
    assert_eq!(patch(b"r1/other.peo", &mut tris), Ok(vec![]));
}

#[test]
fn patch_set_on_a_model_too_small_fails() {
    let mut tris = vec![tri(0, None, false, 0)];
    assert_eq!(
        patch(b"r1/mothership/rl0/lod0/mothership.peo", &mut tris),
        Err(ImportError::BadIndex)
    );
}

fn texture(v: u8) -> Texture {
    Texture { size: Vector::<u32, 2>::new(1, 1), rgba: vec![[v, v, v, 255]] }
}

fn one_material_model(name: &[u8], first: u32) -> Model {
    Model {
        vertices: vec![vertex(first), vertex(first + 1), vertex(first + 2)],
        materials: vec![Material { texture: Some(name.to_vec()) }],
        nodes: vec![node()],
        meshes: vec![Mesh { first_vertex: 0, num_vertices: 3, material: 0, node: 0 }],
    }
}

#[test]
fn empty_cache_holds_only_white() {
    let cache = ModelCache::new_empty();
    assert_eq!(cache.textures.len(), 1);
    assert_eq!(cache.textures[0].rgba, vec![[255, 255, 255, 255]]);
    assert_eq!(cache.textures[0].size.0, [1, 1]);
    assert!(cache.materials.is_empty() && cache.models.is_empty() && cache.vertices.is_empty());
}

#[test]
fn push_two_models_rebases_indices() {
    let mut cache = ModelCache::new_empty();
    let a = cache.push(one_material_model(b"a", 0), vec![NamedTexture { name: b"a".to_vec(), texture: texture(1) }]);
    let b = cache.push(one_material_model(b"b", 10), vec![NamedTexture { name: b"b".to_vec(), texture: texture(2) }]);
    assert_eq!((a, b), (Some(0), Some(1)));
    assert_eq!(cache.materials.len(), 2);
    assert_eq!(cache.textures.len(), 3);
    assert_eq!(cache.materials[0].texture, 1);
    assert_eq!(cache.materials[1].texture, 2);
    assert_eq!(cache.textures[2].rgba, vec![[2, 2, 2, 255]]);
    let m0 = cache.models[0].meshes[0];
    let m1 = cache.models[1].meshes[0];
    assert_eq!(m0, Mesh { first_vertex: 0, num_vertices: 3, material: 0, node: 0 });
    assert_eq!(m1, Mesh { first_vertex: 3, num_vertices: 3, material: 1, node: 0 });
    assert!(m0.first_vertex + m0.num_vertices <= m1.first_vertex);
    assert_eq!(cache.vertices.len(), 6);
    assert_eq!(cache.vertices[3].pos, [10, 11, 12]);
}

#[test]
fn push_with_unknown_texture_falls_back_to_white() {
    let mut cache = ModelCache::new_empty();
    cache.push(one_material_model(b"missing", 0), vec![NamedTexture { name: b"other".to_vec(), texture: texture(1) }]);
    assert_eq!(cache.materials[0].texture, 0);
    let untextured = Model {
        vertices: vec![],
        materials: vec![Material { texture: None }],
        nodes: vec![],
        meshes: vec![],
    };
    cache.push(untextured, vec![]);
    assert_eq!(cache.materials[1].texture, 0);
}

#[test]
fn batch_cache_shares_materials_across_models() {
    let models = vec![one_material_model(b"a", 0), one_material_model(b"a", 10), one_material_model(b"c", 20)];
    let textures = vec![
        NamedTexture { name: b"c".to_vec(), texture: texture(3) },
        NamedTexture { name: b"a".to_vec(), texture: texture(1) },
    ];
    let cache = ModelCache::new(models, textures).unwrap();
    assert_eq!(cache.textures.len(), 3);
    assert_eq!(cache.materials.len(), 2);
    assert_eq!(cache.materials[0].texture, 2);
    assert_eq!(cache.materials[1].texture, 1);
    let mats: Vec<u32> = cache.models.iter().map(|m| m.meshes[0].material).collect();
    assert_eq!(mats, vec![0, 0, 1]);
    let firsts: Vec<u32> = cache.models.iter().map(|m| m.meshes[0].first_vertex).collect();
    assert_eq!(firsts, vec![0, 3, 6]);
}

#[test]
fn batch_cache_refuses_a_mesh_without_material() {
    let mut m = one_material_model(b"a", 0);
    m.meshes[0].material = 5;
    assert!(ModelCache::new(vec![m], vec![]).is_none());
}

#[test]
fn patch_vector_replaces_given_components() {
    let mut v = Vector([1u32, 2, 3]);
    let ok = patch_vector(&mut v, &Vector([Some((1, 10)), None, Some((9, 30))]));
    assert!(!ok);
    assert_eq!(v.0, [10, 2, 30]);
    let mut w = Vector([1u32, 2]);
    assert!(patch_vector(&mut w, &Vector([None, Some((2, 5))])));
    assert_eq!(w.0, [1, 5]);
}

#[test]
fn key_order_compares_field_by_field() {
    let a = tri(0, Some(b"ab"), false, 0);
    let b = tri(0, Some(b"b"), false, 0);
    let c = tri(0, Some(b"abc"), false, 0);
    let none = tri(0, None, true, 0);
    assert!(a.sorts_before(&b) && !b.sorts_before(&a));
    assert!(a.sorts_before(&c));
    assert!(none.sorts_before(&a));
    assert!(tri(0, None, false, 0).sorts_before(&none));
    assert!(tri(0, Some(b"z"), true, 0).sorts_before(&tri(1, None, false, 0)));
    assert!(!a.sorts_before(&a) && a.can_merge(&tri(0, Some(b"ab"), false, 9)));
    assert!(!a.can_merge(&tri(0, Some(b"ab"), true, 0)));
}
