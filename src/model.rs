//! The data that the importer produces and the renderer consumes.
use vstd::prelude::*;

use crate::math::UVec2;

verus! {

/// One corner of a triangle. Each float is held as its IEEE-754 bit pattern,
/// so that the vertex buffer keeps the file's values bit for bit.
#[derive(Clone, Copy, Debug)]
pub struct Vertex {
    pub pos: [u32; 3],
    pub normal: [u32; 3],
    pub uv: [u32; 2],
}

/// A material refers to a texture: a name while a model is imported, an index
/// into the texture pool once it sits in a `ModelCache`.
#[derive(Clone, Debug, PartialEq, Eq)]
pub struct Material<T> {
    pub texture: T,
}

/// A scene-graph node: its parent (an index into the same node list) and its
/// local 4x4 transform, column-major, as float bit patterns.
#[derive(Clone, Copy, Debug)]
pub struct Node {
    pub parent: Option<u32>,
    pub transform: [u32; 16],
}

/// A run of `num_vertices` vertices, starting at `first_vertex`, drawn with
/// one material and attached to one node.
#[derive(Clone, Copy, Debug, PartialEq, Eq)]
pub struct Mesh {
    pub first_vertex: u32,
    pub num_vertices: u32,
    pub material: u32,
    pub node: u32,
}

/// An imported model. Materials name their texture (or none, for plain white).
pub struct Model {
    pub vertices: Vec<Vertex>,
    pub materials: Vec<Material<Option<Vec<u8>>>>,
    pub nodes: Vec<Node>,
    pub meshes: Vec<Mesh>,
}

/// A row-major RGBA8 image of `size[0] * size[1]` pixels.
pub struct Texture {
    pub size: UVec2,
    pub rgba: Vec<[u8; 4]>,
}

/// What a texture name refers to, seen from a specification.
pub open spec fn opt_bytes(o: Option<Vec<u8>>) -> Option<Seq<u8>> {
    match o {
        Some(v) => Some(v@),
        None => None,
    }
}

/// The texture names of a list of materials.
pub open spec fn material_names(ms: Seq<Material<Option<Vec<u8>>>>) -> Seq<Option<Seq<u8>>> {
    ms.map_values(|m: Material<Option<Vec<u8>>>| opt_bytes(m.texture))
}

/// Copies a byte string.
pub fn copy_bytes(s: &[u8]) -> (r: Vec<u8>)
    ensures
        r@ == s@,
{
    let mut r: Vec<u8> = Vec::new();
    let mut i: usize = 0;
    while i < s.len()
        invariant
            i <= s@.len(),
            r@ == s@.subrange(0, i as int),
        decreases s@.len() - i,
    {
        r.push(s[i]);
        i = i + 1;
        assert(r@ == s@.subrange(0, i as int));
    }
    assert(s@.subrange(0, s@.len() as int) == s@);
    r
}

/// Copies an optional byte string.
pub fn copy_opt_bytes(o: &Option<Vec<u8>>) -> (r: Option<Vec<u8>>)
    ensures
        opt_bytes(r) == opt_bytes(*o),
{
    match o {
        Some(v) => Some(copy_bytes(v.as_slice())),
        None => None,
    }
}

/// Compares two byte strings.
pub fn bytes_eq(a: &[u8], b: &[u8]) -> (r: bool)
    ensures
        r == (a@ == b@),
{
    if a.len() != b.len() {
        return false;
    }
    let mut i: usize = 0;
    while i < a.len()
        invariant
            a@.len() == b@.len(),
            i <= a@.len(),
            a@.subrange(0, i as int) == b@.subrange(0, i as int),
        decreases a@.len() - i,
    {
        if a[i] != b[i] {
            assert(a@[i as int] != b@[i as int]);
            return false;
        }
        i = i + 1;
        assert(a@.subrange(0, i as int) == a@.subrange(0, i - 1).push(a@[i - 1]));
        assert(b@.subrange(0, i as int) == b@.subrange(0, i - 1).push(b@[i - 1]));
    }
    assert(a@ == a@.subrange(0, i as int));
    assert(b@ == b@.subrange(0, i as int));
    true
}

/// Compares two optional byte strings.
pub fn opt_bytes_eq(a: &Option<Vec<u8>>, b: &Option<Vec<u8>>) -> (r: bool)
    ensures
        r == (opt_bytes(*a) == opt_bytes(*b)),
{
    match (a, b) {
        (Some(x), Some(y)) => bytes_eq(x.as_slice(), y.as_slice()),
        (None, None) => true,
        _ => false,
    }
}

} // verus!
