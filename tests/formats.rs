use guidestone::big::{BigFile, HwFs};
use guidestone::cache::ModelCache;
use guidestone::cipher::{encrypt_name, NAME_SEED};
use guidestone::engine::ticks_due;
use guidestone::geo::{parse_geo, ImportError, MaterialFlags, DOUBLE_SIDED, SMOOTHING};
use guidestone::import::folder;
use guidestone::importer::ImportModels;
use guidestone::input::{Button, Response};
use guidestone::lif::decode_lif;
use guidestone::math::{Matrix, Vector};
use guidestone::read::{get_cstr, get_i32, get_u16, get_u32, FromRead, ReadError};
use guidestone::texlist::{find_texture, parse_texture_list, to_lower, TextureFlags, TEAM_COLOUR};

fn u32s(d: &mut Vec<u8>, vs: &[u32]) {
    for v in vs {
        d.extend_from_slice(&v.to_le_bytes());
    }
}

fn archive(entries: &[(&[u8], Vec<u8>)]) -> Vec<u8> {
    let mut d = b"RBF1.23".to_vec();
    d.extend_from_slice(&(entries.len() as i32).to_le_bytes());
    d.extend_from_slice(&0i32.to_le_bytes());
    let mut offset = 15 + 32 * entries.len();
    let mut tail = Vec::new();
    for (name, payload) in entries {
        d.extend_from_slice(&0u64.to_le_bytes());
        d.extend_from_slice(&(name.len() as u16).to_le_bytes());
        d.extend_from_slice(&[0, 0]);
        u32s(&mut d, &[payload.len() as u32, payload.len() as u32, offset as u32, 0]);
        d.extend_from_slice(&[0, 0, 0, 0]);
        tail.extend_from_slice(&encrypt_name(name, NAME_SEED));
        tail.push(0);
        tail.extend_from_slice(payload);
        offset += name.len() + 1 + payload.len();
    }
    d.extend_from_slice(&tail);
    d
}

fn texture_list(names: &[(&[u8], u32, u32)]) -> Vec<u8> {
    let mut d = b"Event13\0".to_vec();
    u32s(&mut d, &[0x104, names.len() as u32, 0, 0, 0]);
    let mut strings = Vec::new();
    for (name, flags, shared) in names {
        u32s(&mut d, &[strings.len() as u32, 1, 1, *flags, 0, 0, 0, *shared]);
        strings.extend_from_slice(name);
        strings.push(0);
    }
    d.extend_from_slice(&strings);
    d
}

/// One object with one flat-shaded triangle whose material names `texture`.
fn geometry(texture: &[u8], mother: u32) -> Vec<u8> {
    let mut d = b"RMF99ba\0".to_vec();
    u32s(&mut d, &[0x402, 0, 0, 0, 1, 0, 180, 180, 1]);
    d.extend_from_slice(&[0; 24]);
    assert_eq!(d.len(), 68);
    u32s(&mut d, &[0, 0, 3, 1, 0, 1, 212, 260, 276, mother, 0, 0]);
    let matrix: Vec<u32> = (0..16).map(|k| 1000 + k).collect();
    u32s(&mut d, &matrix);
    assert_eq!(d.len(), 180);
    u32s(&mut d, &[0, 0, 0, 0, 0, if texture.is_empty() { 0 } else { 316 }]);
    d.extend_from_slice(&0u16.to_le_bytes());
    d.extend_from_slice(&[0; 6]);
    for k in 0..3u32 {
        u32s(&mut d, &[10 * k, 10 * k + 1, 10 * k + 2, 0]);
    }
    u32s(&mut d, &[7, 8, 9, 0]);
    u32s(&mut d, &[0]);
    for v in [0u16, 1, 2, 0] {
        d.extend_from_slice(&v.to_le_bytes());
    }
    u32s(&mut d, &[100, 101, 102, 103, 104, 105, 0]);
    assert_eq!(d.len(), 316);
    d.extend_from_slice(texture);
    d.push(0);
    d
}

fn lif(paletted: bool) -> Vec<u8> {
    let mut d = b"Willy 7\0".to_vec();
    u32s(&mut d, &[0x104, if paletted { 2 } else { 0 }, 2, 1, 0, 0, 48, 56, 0, 0]);
    if paletted {
        d.extend_from_slice(&[1, 0, 0, 0, 0, 0, 0, 0]);
        let mut palette = vec![0u8; 1024];
        palette[0..4].copy_from_slice(&[1, 2, 3, 4]);
        palette[4..8].copy_from_slice(&[5, 6, 7, 8]);
        d.extend_from_slice(&palette);
    } else {
        d.extend_from_slice(&[9, 9, 9, 9, 8, 8, 8, 8]);
    }
    d
}

#[test]
fn little_endian_reads() {
    let d = [0x01u8, 0x02, 0x03, 0x84, 0x00];
    assert_eq!(get_u16(&d, 0), Ok(0x0201));
    assert_eq!(get_u32(&d, 0), Ok(0x8403_0201));
    assert_eq!(get_i32(&d, 0), Ok(0x8403_0201u32 as i32));
    assert_eq!(get_u32(&d, 2), Err(ReadError::UnexpectedEof));
    assert_eq!(get_cstr(&d, 1), Ok(vec![2, 3, 0x84]));
    assert_eq!(get_cstr(&d, 5), Err(ReadError::UnexpectedEof));
    assert_eq!(get_cstr(&[1, 2], 0), Err(ReadError::UnexpectedEof));
}

#[test]
fn geometry_decodes() {
    let g = parse_geo(&geometry(b"Hull", 68 + 112 * 3)).unwrap();
    assert_eq!(g.objects.len(), 1);
    let o = &g.objects[0];
    assert_eq!(o.vertices.len(), 3);
    assert_eq!(o.vertices[2].x, 20);
    assert_eq!(o.normals[0].x, 7);
    assert_eq!(o.polygons[0].v2, 2);
    assert_eq!(o.polygons[0].u1, 102);
    assert_eq!(o.mother, Some(3));
    assert_eq!(o.transform[15], 1015);
    assert_eq!(g.material_textures[0], Some(b"Hull".to_vec()));
}

#[test]
fn geometry_errors() {
    let mut bad = geometry(b"Hull", 0);
    bad[3] = b'X';
    assert_eq!(parse_geo(&bad).err(), Some(ImportError::BadMagic));
    let mut old = geometry(b"Hull", 0);
    old[8] = 0x01;
    assert_eq!(parse_geo(&old).err(), Some(ImportError::BadVersion));
    assert_eq!(parse_geo(&geometry(b"Hull", 5)).err(), Some(ImportError::BadParentLink));
    assert_eq!(parse_geo(&geometry(b"Hull", 0)[..300]).err(), Some(ImportError::UnexpectedEof));
}

#[test]
fn texture_list_resolves_shared_names() {
    let d = texture_list(&[(b"A\\Base", 0x0a, u32::MAX), (b"A\\Copy", 0x02, 0), (b"", 0, u32::MAX)]);
    let list = parse_texture_list(&d).unwrap();
    assert_eq!(list.len(), 2);
    assert_eq!(list[1].key, b"a\\copy".to_vec());
    assert_eq!(list[1].meta.name, b"A\\Base".to_vec());
    assert!(list[0].meta.alpha && list[0].meta.palette && !list[0].meta.team_colour);
    assert_eq!(find_texture(&list, b"a\\copy"), Some(1));
    assert_eq!(find_texture(&list, b"a\\none"), None);
}

#[test]
fn texture_list_refuses_bad_sharing() {
    let d = texture_list(&[(b"a", 0x02, u32::MAX), (b"b", 0x0a, 0)]);
    assert_eq!(parse_texture_list(&d).err(), Some(ImportError::BadSharedTexture));
    let d = texture_list(&[(b"a", 0, 7)]);
    assert_eq!(parse_texture_list(&d).err(), Some(ImportError::BadSharedTexture));
}

#[test]
fn paletted_texture_expands() {
    let t = decode_lif(&lif(true)).unwrap();
    assert_eq!(t.size.0, [2, 1]);
    assert_eq!(t.rgba, vec![[5, 6, 7, 8], [1, 2, 3, 4]]);
}

#[test]
fn raw_texture_is_copied() {
    let t = decode_lif(&lif(false)).unwrap();
    assert_eq!(t.rgba, vec![[9, 9, 9, 9], [8, 8, 8, 8]]);
    let mut bad = lif(false);
    bad[0] = b'w';
    assert_eq!(decode_lif(&bad).err(), Some(ImportError::BadMagic));
}

#[test]
fn folder_joins_with_backslashes() {
    assert_eq!(folder(b"R1/Ship\\ship.peo"), b"R1\\Ship".to_vec());
    assert_eq!(folder(b"ship.peo"), Vec::<u8>::new());
    assert_eq!(to_lower(b"AbZ\\9"), b"abz\\9".to_vec());
}

fn fs() -> HwFs {
    let big = archive(&[
        (b"textures.ll", texture_list(&[(b"R1\\Ship\\hull", 0x12, u32::MAX)])),
        (b"R1/Ship/ship.peo", geometry(b"Hull", 0)),
        (b"r1/ship/hull.lif", lif(true)),
    ]);
    HwFs(vec![BigFile::load(big).unwrap()])
}

#[test]
fn import_model_from_archive() {
    let fs = fs();
    let importer = ImportModels::new(&fs).unwrap();
    assert!(importer.merge_surfaces);
    let (model, stale) = importer.load_model(&fs, b"R1/Ship/ship.peo").unwrap();
    assert!(stale.is_empty());
    assert_eq!(model.nodes.len(), 1);
    assert_eq!(model.nodes[0].parent, None);
    assert_eq!(model.nodes[0].transform[0], 1000);
    assert_eq!(model.meshes.len(), 1);
    assert_eq!(model.meshes[0].num_vertices, 3);
    assert_eq!(model.materials[0].texture, Some(b"R1\\Ship\\hull".to_vec()));
    assert_eq!(model.vertices[1].pos, [10, 11, 12]);
    assert_eq!(model.vertices[1].normal, [7, 8, 9]);
    assert_eq!(model.vertices[1].uv, [102, 103]);
    assert_eq!(importer.load_model(&fs, b"r1/none.peo").err(), Some(ImportError::FileNotFound));
}

#[test]
fn unlisted_texture_fails_import() {
    let big = archive(&[
        (b"textures.ll", texture_list(&[(b"other", 0, u32::MAX)])),
        (b"ship.peo", geometry(b"Hull", 0)),
    ]);
    let fs = HwFs(vec![BigFile::load(big).unwrap()]);
    let importer = ImportModels::new(&fs).unwrap();
    assert_eq!(importer.load_model(&fs, b"ship.peo").err(), Some(ImportError::UnknownTexture));
}

#[test]
fn import_texture_from_archive() {
    let fs = fs();
    let importer = ImportModels::new(&fs).unwrap();
    let t = importer.load_texture(&fs, b"r1/ship/hull").unwrap();
    assert_eq!(t.rgba[0], [5, 6, 7, 8]);
    assert_eq!(importer.load_texture(&fs, b"r1/ship/none").err(), Some(ImportError::FileNotFound));
    let empty = HwFs(vec![]);
    assert_eq!(ImportModels::new(&empty).err(), Some(ImportError::FileNotFound));
}

#[test]
fn cache_load_fails_on_unopenable_texture() {
    let fs = fs();
    let importer = ImportModels::new(&fs).unwrap();
    let r = ModelCache::load(&importer, &fs, &vec![b"R1/Ship/ship.peo".to_vec()]);
    assert_eq!(r.err(), Some(ImportError::FileNotFound));
}

#[test]
fn vector_arithmetic() {
    let a = Vector([1, -2, 3]);
    let b = Vector([10, 20, -30]);
    assert_eq!(a.add(b).sub(b), a);
    assert_eq!(a.add(b).0, [11, 18, -27]);
    assert_eq!(a.neg().0, [-1, 2, -3]);
    assert_eq!(a.mul(3).0, [3, -6, 9]);
    assert_eq!(a.dot(b), 10 - 40 - 90);
    assert_eq!(a.length_squared(), 14);
    assert_eq!(Vector([i32::MAX, i32::MAX]).dot(Vector([i32::MAX, i32::MAX])), 2 * (i32::MAX as i128) * (i32::MAX as i128));
}

#[test]
fn cross_product_is_anticommutative() {
    let a = Vector([1, 2, 3]);
    let b = Vector([4, 5, 6]);
    assert_eq!(a.cross(b).0, [-3, 6, -3]);
    assert_eq!(a.cross(b), b.cross(a).neg());
    let x = Vector([i32::MIN, i32::MAX, 0]);
    let y = Vector([i32::MAX, i32::MIN, 1]);
    assert_eq!(x.cross(y), y.cross(x).neg());
}

#[test]
fn named_components_and_identity() {
    let v = Vector::<i32, 4>::new(1, 2, 3, 4).xyzw();
    assert_eq!((v.x, v.y, v.z, v.w), (1, 2, 3, 4));
    assert_eq!(Vector::<u8, 2>::new(5, 6).xy().y, 6);
    assert_eq!(Vector::<u8, 3>::new(5, 6, 7).xyz().z, 7);
    let m = Matrix::<i32, 3, 3>::identity();
    assert_eq!(m.0[0].0, [1, 0, 0]);
    assert_eq!(m.0[1].0, [0, 1, 0]);
    assert_eq!(m.0[2].0, [0, 0, 1]);
}

#[test]
fn right_button_grabs_the_mouse() {
    assert_eq!(Button::MouseRight.response(true), Some(Response::GrabMouse(true)));
    assert_eq!(Button::MouseRight.response(false), Some(Response::GrabMouse(false)));
    assert_eq!(Button::MouseLeft.response(true), None);
    assert_eq!(Button::MouseMiddle.response(true), None);
}

#[test]
fn ticks_catch_up() {
    assert_eq!(ticks_due(0), (0, 0));
    assert_eq!(ticks_due(62_499_999), (0, 0));
    assert_eq!(ticks_due(3 * 62_500_000 + 5), (3, 187_500_000));
    assert_eq!(ticks_due(u128::MAX).0, u32::MAX);
}

#[test]
fn flag_sets() {
    let m = MaterialFlags(SMOOTHING | 64);
    assert!(m.contains(MaterialFlags(SMOOTHING)));
    assert!(!m.contains(MaterialFlags(DOUBLE_SIDED)));
    let t = TextureFlags(0x12);
    assert!(t.intersects(TextureFlags(TEAM_COLOUR)));
    assert!(!t.contains(TextureFlags(TEAM_COLOUR)));
    assert!(TextureFlags(0x0a).contains(TextureFlags(0x02)));
}

#[test]
fn headers_decode() {
    let g = guidestone::geo::Header::from_read(&geometry(b"Hull", 0), 0).unwrap();
    assert_eq!((g.version, g.n_public_materials, g.o_local_material, g.n_polygon_objects), (0x402, 1, 180, 1));
    let l = guidestone::texlist::ListHeader::from_read(&texture_list(&[(b"a", 0, u32::MAX)]), 0).unwrap();
    assert_eq!((l.version, l.n_elements), (0x104, 1));
    let h = guidestone::lif::Header::from_read(&lif(true), 0).unwrap();
    assert_eq!((h.width, h.height, h.data, h.palette), (2, 1, 48, 56));
    assert_eq!(h.flags, guidestone::texlist::TextureFlags(2));
    assert!(guidestone::geo::Header::from_read(&[0u8; 67], 0).is_err());
}

#[test]
fn cache_load_of_untextured_model() {
    let big = archive(&[
        (b"textures.ll", texture_list(&[(b"x", 0, u32::MAX)])),
        (b"a/plain.peo", geometry(b"", 0)),
    ]);
    let fs = HwFs(vec![BigFile::load(big).unwrap()]);
    let importer = ImportModels::new(&fs).unwrap();
    let paths = vec![b"a/plain.peo".to_vec(), b"A/PLAIN.PEO".to_vec()];
    let (cache, stale) = ModelCache::load(&importer, &fs, &paths).unwrap();
    assert_eq!(stale, vec![Vec::<bool>::new(), Vec::new()]);
    assert_eq!(cache.models.len(), 2);
    assert_eq!(cache.textures.len(), 1);
    assert_eq!(cache.materials.len(), 1);
    assert_eq!(cache.materials[0].texture, 0);
    assert_eq!(cache.vertices.len(), 6);
    assert_eq!(cache.models[1].meshes[0].first_vertex, 3);
    assert_eq!(cache.models[1].meshes[0].material, 0);
}
