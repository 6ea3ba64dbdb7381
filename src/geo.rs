//! The geometry file format: a header, a material table and a list of polygon
//! objects, each with its own vertex, normal and polygon lists.
use vstd::prelude::*;

use crate::read::{
    FromRead, ReadError, cstr_at, decode_seq, fits, get_cstr, get_u16, get_u32, get_vec_at,
    le16, le32,
};

verus! {

/// Why a file could not be imported.
#[derive(Debug, Clone, Copy, PartialEq, Eq)]
pub enum ImportError {
    /// A read ran past the end of the file.
    UnexpectedEof,
    /// The file does not start with a recognised magic tag.
    BadMagic,
    /// The file's version is not the supported one.
    BadVersion,
    /// The public and local material tables do not start at the same offset.
    MaterialTableMismatch,
    /// A count overflows when added to another.
    CountOverflow,
    /// A parent link points before the first polygon object.
    BadParentLink,
    /// A polygon refers to a material, vertex or normal that does not exist.
    BadIndex,
    /// A texture is not in the texture list.
    UnknownTexture,
    /// A texture list entry is shared from an entry that does not match it.
    BadSharedTexture,
    /// The archive holds no file of the requested name.
    FileNotFound,
    /// The archive's table of contents is malformed.
    BadArchive,
    /// A model has more vertices or surfaces than a 32-bit index can address.
    TooLarge,
}

impl ImportError {
    /// Every decoding error is a short read.
    pub fn from_read(e: ReadError) -> (r: ImportError)
        ensures
            r == ImportError::UnexpectedEof,
    {
        ImportError::UnexpectedEof
    }
}

/// Size of the geometry header, where the polygon objects begin.
pub const HEADER_SIZE: u32 = 68;

/// Size of one polygon object record.
pub const OBJECT_SIZE: u32 = 112;

/// The only supported geometry version.
pub const GEO_VERSION: u32 = 0x402;

/// Material flag: per-vertex (smoothed) normals.
pub const SMOOTHING: u16 = 2;

/// Material flag: drawn from both sides.
pub const DOUBLE_SIDED: u16 = 8;

/// Material flag: self-illuminated.
pub const SELF_ILLUM: u16 = 64;

/// The fixed part of a geometry file after its magic tag (68 bytes with it).
#[derive(Clone, Copy, Debug, PartialEq, Eq)]
pub struct Header {
    pub version: u32,
    pub n_public_materials: u32,
    pub n_local_materials: u32,
    pub o_public_material: u32,
    pub o_local_material: u32,
    pub n_polygon_objects: u32,
}

impl FromRead for Header {
    open spec fn width() -> nat {
        68
    }

    open spec fn decode(d: Seq<u8>, p: int) -> Header {
        Header {
            version: le32(d, p + 8) as u32,
            n_public_materials: le32(d, p + 24) as u32,
            n_local_materials: le32(d, p + 28) as u32,
            o_public_material: le32(d, p + 32) as u32,
            o_local_material: le32(d, p + 36) as u32,
            n_polygon_objects: le32(d, p + 40) as u32,
        }
    }

    fn width_exec() -> (n: usize) {
        68
    }

    fn from_read(d: &[u8], p: usize) -> (r: Result<Header, ReadError>) {
        if p > d.len() || d.len() - p < 68 {
            return Err(ReadError::UnexpectedEof);
        }
        Ok(
            Header {
                version: get_u32(d, p + 8).unwrap(),
                n_public_materials: get_u32(d, p + 24).unwrap(),
                n_local_materials: get_u32(d, p + 28).unwrap(),
                o_public_material: get_u32(d, p + 32).unwrap(),
                o_local_material: get_u32(d, p + 36).unwrap(),
                n_polygon_objects: get_u32(d, p + 40).unwrap(),
            },
        )
    }
}

/// A point with the index of its normal (16 bytes).
#[derive(Clone, Copy, Debug, PartialEq, Eq)]
pub struct VertexEntry {
    pub x: u32,
    pub y: u32,
    pub z: u32,
    pub normal_index: u32,
}

impl FromRead for VertexEntry {
    open spec fn width() -> nat {
        16
    }

    open spec fn decode(d: Seq<u8>, p: int) -> VertexEntry {
        VertexEntry {
            x: le32(d, p) as u32,
            y: le32(d, p + 4) as u32,
            z: le32(d, p + 8) as u32,
            normal_index: le32(d, p + 12) as u32,
        }
    }

    fn width_exec() -> (n: usize) {
        16
    }

    fn from_read(d: &[u8], p: usize) -> (r: Result<VertexEntry, ReadError>) {
        if p > d.len() || d.len() - p < 16 {
            return Err(ReadError::UnexpectedEof);
        }
        let x = get_u32(d, p).unwrap();
        let y = get_u32(d, p + 4).unwrap();
        let z = get_u32(d, p + 8).unwrap();
        let normal_index = get_u32(d, p + 12).unwrap();
        Ok(VertexEntry { x, y, z, normal_index })
    }
}

/// A triangle: its face normal, three vertex indices, a material index and
/// three texture coordinates (40 bytes).
#[derive(Clone, Copy, Debug, PartialEq, Eq)]
pub struct PolyEntry {
    pub face_normal_index: u32,
    pub v0: u16,
    pub v1: u16,
    pub v2: u16,
    pub material_index: u16,
    pub u0: u32,
    pub w0: u32,
    pub u1: u32,
    pub w1: u32,
    pub u2: u32,
    pub w2: u32,
}

impl FromRead for PolyEntry {
    open spec fn width() -> nat {
        40
    }

    open spec fn decode(d: Seq<u8>, p: int) -> PolyEntry {
        PolyEntry {
            face_normal_index: le32(d, p) as u32,
            v0: le16(d, p + 4) as u16,
            v1: le16(d, p + 6) as u16,
            v2: le16(d, p + 8) as u16,
            material_index: le16(d, p + 10) as u16,
            u0: le32(d, p + 12) as u32,
            w0: le32(d, p + 16) as u32,
            u1: le32(d, p + 20) as u32,
            w1: le32(d, p + 24) as u32,
            u2: le32(d, p + 28) as u32,
            w2: le32(d, p + 32) as u32,
        }
    }

    fn width_exec() -> (n: usize) {
        40
    }

    fn from_read(d: &[u8], p: usize) -> (r: Result<PolyEntry, ReadError>) {
        if p > d.len() || d.len() - p < 40 {
            return Err(ReadError::UnexpectedEof);
        }
        Ok(
            PolyEntry {
                face_normal_index: get_u32(d, p).unwrap(),
                v0: get_u16(d, p + 4).unwrap(),
                v1: get_u16(d, p + 6).unwrap(),
                v2: get_u16(d, p + 8).unwrap(),
                material_index: get_u16(d, p + 10).unwrap(),
                u0: get_u32(d, p + 12).unwrap(),
                w0: get_u32(d, p + 16).unwrap(),
                u1: get_u32(d, p + 20).unwrap(),
                w1: get_u32(d, p + 24).unwrap(),
                u2: get_u32(d, p + 28).unwrap(),
                w2: get_u32(d, p + 32).unwrap(),
            },
        )
    }
}

/// A material record: the offset of its texture name (zero for none) and its
/// flags (32 bytes).
#[derive(Clone, Copy, Debug, PartialEq, Eq)]
pub struct MaterialEntry {
    pub texture: u32,
    pub flags: MaterialFlags,
}

impl FromRead for MaterialEntry {
    open spec fn width() -> nat {
        32
    }

    open spec fn decode(d: Seq<u8>, p: int) -> MaterialEntry {
        MaterialEntry {
            texture: le32(d, p + 20) as u32,
            flags: MaterialFlags(le16(d, p + 24) as u16),
        }
    }

    fn width_exec() -> (n: usize) {
        32
    }

    fn from_read(d: &[u8], p: usize) -> (r: Result<MaterialEntry, ReadError>) {
        if p > d.len() || d.len() - p < 32 {
            return Err(ReadError::UnexpectedEof);
        }
        Ok(
            MaterialEntry {
                texture: get_u32(d, p + 20).unwrap(),
                flags: MaterialFlags(get_u16(d, p + 24).unwrap()),
            },
        )
    }
}

/// The flags of a material.
#[derive(Clone, Copy, Debug, PartialEq, Eq)]
pub struct MaterialFlags(pub u16);

impl MaterialFlags {
    /// Whether every flag of `other` is set.
    pub fn contains(self, other: MaterialFlags) -> (r: bool)
        ensures
            r == (self.0 & other.0 == other.0),
    {
        self.0 & other.0 == other.0
    }
}

/// A polygon object: a node of the model with its own geometry.
pub struct PolygonObject {
    pub vertices: Vec<VertexEntry>,
    pub normals: Vec<VertexEntry>,
    pub polygons: Vec<PolyEntry>,
    pub mother: Option<u32>,
    pub transform: [u32; 16],
}

/// A decoded geometry file.
pub struct Geo {
    pub materials: Vec<MaterialEntry>,
    /// The texture name of each material, where its offset leads to one.
    pub material_textures: Vec<Option<Vec<u8>>>,
    pub objects: Vec<PolygonObject>,
}

/// The node index that a raw parent link (a byte offset into the object
/// array) stands for; zero means no parent.
pub open spec fn parent_of(raw: u32) -> Option<u32> {
    if raw == 0 {
        None
    } else {
        Some(((raw - HEADER_SIZE) / OBJECT_SIZE as int) as u32)
    }
}

/// The offset of polygon object `j`.
pub open spec fn object_base(j: int) -> int {
    HEADER_SIZE + OBJECT_SIZE * j
}

/// Whether the polygon object record at `b` decodes.
pub open spec fn object_ok(d: Seq<u8>, b: int) -> bool {
    &&& fits(d, b, OBJECT_SIZE as int)
    &&& le32(d, b + 12) + le32(d, b + 16) <= u32::MAX
    &&& fits(d, le32(d, b + 24), le32(d, b + 8) * 16)
    &&& fits(d, le32(d, b + 28), (le32(d, b + 12) + le32(d, b + 16)) * 16)
    &&& fits(d, le32(d, b + 32), le32(d, b + 20) * 40)
    &&& (le32(d, b + 36) == 0 || le32(d, b + 36) >= HEADER_SIZE)
}

/// `o` is what the polygon object record at `b` holds.
pub open spec fn object_at(d: Seq<u8>, b: int, o: PolygonObject) -> bool {
    &&& o.vertices@ == decode_seq::<VertexEntry>(d, le32(d, b + 24), le32(d, b + 8))
    &&& o.normals@ == decode_seq::<VertexEntry>(
        d,
        le32(d, b + 28),
        le32(d, b + 12) + le32(d, b + 16),
    )
    &&& o.polygons@ == decode_seq::<PolyEntry>(d, le32(d, b + 32), le32(d, b + 20))
    &&& o.mother == parent_of(le32(d, b + 36) as u32)
    &&& forall|k: int| 0 <= k < 16 ==> #[trigger] o.transform@[k] == le32(d, b + 48 + 4 * k)
}

/// Decodes the polygon object record at `b`.
pub fn parse_object(d: &[u8], b: usize) -> (r: Result<PolygonObject, ImportError>)
    ensures
        r is Ok <==> object_ok(d@, b as int),
        r is Ok ==> object_at(d@, b as int, r->Ok_0),
{
    if b > d.len() || d.len() - b < 112 {
        return Err(ImportError::UnexpectedEof);
    }
    let n_vertices = get_u32(d, b + 8).unwrap();
    let n_face = get_u32(d, b + 12).unwrap();
    let n_vertex_normals = get_u32(d, b + 16).unwrap();
    let n_polygons = get_u32(d, b + 20).unwrap();
    let p_vertices = get_u32(d, b + 24).unwrap();
    let p_normals = get_u32(d, b + 28).unwrap();
    let p_polygons = get_u32(d, b + 32).unwrap();
    let raw_mother = get_u32(d, b + 36).unwrap();
    if n_face > u32::MAX - n_vertex_normals {
        return Err(ImportError::CountOverflow);
    }
    let vertices = match get_vec_at::<VertexEntry>(d, p_vertices as usize, n_vertices) {
        Ok(v) => v,
        Err(e) => return Err(ImportError::from_read(e)),
    };
    let normals = match get_vec_at::<VertexEntry>(
        d,
        p_normals as usize,
        n_face + n_vertex_normals,
    ) {
        Ok(v) => v,
        Err(e) => return Err(ImportError::from_read(e)),
    };
    let polygons = match get_vec_at::<PolyEntry>(d, p_polygons as usize, n_polygons) {
        Ok(v) => v,
        Err(e) => return Err(ImportError::from_read(e)),
    };
    let mother = if raw_mother == 0 {
        None
    } else if raw_mother < HEADER_SIZE {
        return Err(ImportError::BadParentLink);
    } else {
        Some((raw_mother - HEADER_SIZE) / OBJECT_SIZE)
    };
    let mut transform = [0u32;16];
    let mut k: usize = 0;
    let len = d.len();
    while k < 16
        invariant
            k <= 16,
            d@.len() == len,
            b + 112 <= d@.len(),
            forall|q: int| 0 <= q < k ==> #[trigger] transform@[q] == le32(d@, b + 48 + 4 * q),
        decreases 16 - k,
    {
        transform[k] = get_u32(d, b + 48 + 4 * k).unwrap();
        k = k + 1;
    }
    Ok(PolygonObject { vertices, normals, polygons, mother, transform })
}

/// Whether the eight bytes at the start of `d` are `m`.
pub open spec fn starts_with(d: Seq<u8>, m: Seq<u8>) -> bool {
    m.len() <= d.len() && d.subrange(0, m.len() as int) == m
}

/// Tests whether `d` starts with `m`.
pub fn has_prefix(d: &[u8], m: &[u8]) -> (r: bool)
    ensures
        r == starts_with(d@, m@),
{
    if m.len() > d.len() {
        return false;
    }
    let mut i: usize = 0;
    while i < m.len()
        invariant
            i <= m@.len() <= d@.len(),
            d@.subrange(0, i as int) == m@.subrange(0, i as int),
        decreases m@.len() - i,
    {
        if d[i] != m[i] {
            assert(d@.subrange(0, m@.len() as int)[i as int] != m@[i as int]);
            return false;
        }
        i = i + 1;
        assert(d@.subrange(0, i as int) == d@.subrange(0, i - 1).push(d@[i - 1]));
        assert(m@.subrange(0, i as int) == m@.subrange(0, i - 1).push(m@[i - 1]));
    }
    assert(m@.subrange(0, i as int) == m@);
    true
}

/// The magic tag of 1997 geometry files.
pub open spec fn magic_97() -> Seq<u8> {
    seq![82u8, 77, 70, 57, 55, 98, 97, 0]
}

/// The magic tag of 1999 geometry files.
pub open spec fn magic_99() -> Seq<u8> {
    seq![82u8, 77, 70, 57, 57, 98, 97, 0]
}

/// The texture name that a material's offset leads to.
pub open spec fn texture_name_at(d: Seq<u8>, ptr: u32) -> Option<Seq<u8>> {
    if ptr == 0 {
        None
    } else {
        cstr_at(d, ptr as int)
    }
}

/// Whether a geometry file decodes.
pub open spec fn geo_ok(d: Seq<u8>) -> bool {
    &&& fits(d, 0, HEADER_SIZE as int)
    &&& (starts_with(d, magic_97()) || starts_with(d, magic_99()))
    &&& le32(d, 8) == GEO_VERSION
    &&& le32(d, 32) == le32(d, 36)
    &&& le32(d, 24) + le32(d, 28) <= u32::MAX
    &&& fits(d, le32(d, 36), (le32(d, 24) + le32(d, 28)) * 32)
    &&& forall|j: int| 0 <= j < le32(d, 40) ==> #[trigger] object_ok(d, object_base(j))
}

/// `g` is what the geometry file `d` holds.
pub open spec fn geo_at(d: Seq<u8>, g: Geo) -> bool {
    &&& g.materials@ == decode_seq::<MaterialEntry>(d, le32(d, 36), le32(d, 24) + le32(d, 28))
    &&& g.material_textures@.len() == g.materials@.len()
    &&& forall|k: int|
        0 <= k < g.materials@.len() ==> crate::model::opt_bytes(
            #[trigger] g.material_textures@[k],
        ) == texture_name_at(d, g.materials@[k].texture)
    &&& g.objects@.len() == le32(d, 40)
    &&& forall|j: int| 0 <= j < g.objects@.len() ==> object_at(d, object_base(j), #[trigger] g.objects@[j])
}

/// Decodes a geometry file.
pub fn parse_geo(d: &[u8]) -> (r: Result<Geo, ImportError>)
    ensures
        r is Ok <==> geo_ok(d@),
        r is Ok ==> geo_at(d@, r->Ok_0),
        fits(d@, 0, HEADER_SIZE as int) && !starts_with(d@, magic_97()) && !starts_with(d@, magic_99())
            ==> r == Err::<Geo, ImportError>(ImportError::BadMagic),
        fits(d@, 0, HEADER_SIZE as int) && (starts_with(d@, magic_97()) || starts_with(d@, magic_99()))
            && le32(d@, 8) != GEO_VERSION ==> r == Err::<Geo, ImportError>(ImportError::BadVersion),
{
    let header = match Header::from_read(d, 0) {
        Ok(h) => h,
        Err(e) => return Err(ImportError::from_read(e)),
    };
    let m97: [u8; 8] = [82u8, 77, 70, 57, 55, 98, 97, 0];
    let m99: [u8; 8] = [82u8, 77, 70, 57, 57, 98, 97, 0];
    assert(m97@ == magic_97());
    assert(m99@ == magic_99());
    if !has_prefix(d, m97.as_slice()) && !has_prefix(d, m99.as_slice()) {
        return Err(ImportError::BadMagic);
    }
    if header.version != GEO_VERSION {
        return Err(ImportError::BadVersion);
    }
    let n_public = header.n_public_materials;
    let n_local = header.n_local_materials;
    let o_public = header.o_public_material;
    let o_local = header.o_local_material;
    let n_objects = header.n_polygon_objects;
    if o_public != o_local {
        return Err(ImportError::MaterialTableMismatch);
    }
    if n_public > u32::MAX - n_local {
        return Err(ImportError::CountOverflow);
    }
    let materials = match get_vec_at::<MaterialEntry>(d, o_local as usize, n_public + n_local) {
        Ok(v) => v,
        Err(e) => return Err(ImportError::from_read(e)),
    };
    let mut material_textures: Vec<Option<Vec<u8>>> = Vec::new();
    let mut k: usize = 0;
    while k < materials.len()
        invariant
            k <= materials@.len(),
            fits(d@, 0, HEADER_SIZE as int),
            starts_with(d@, magic_97()) || starts_with(d@, magic_99()),
            le32(d@, 8) == GEO_VERSION,
            material_textures@.len() == k,
            forall|q: int|
                0 <= q < k ==> crate::model::opt_bytes(#[trigger] material_textures@[q])
                    == texture_name_at(d@, materials@[q].texture),
        decreases materials@.len() - k,
    {
        let ptr = materials[k].texture;
        let name = if ptr == 0 {
            None
        } else {
            match get_cstr(d, ptr as usize) {
                Ok(s) => Some(s),
                Err(_) => None,
            }
        };
        material_textures.push(name);
        k = k + 1;
    }
    let mut objects: Vec<PolygonObject> = Vec::new();
    let mut j: u32 = 0;
    while j < n_objects
        invariant
            j <= n_objects,
            n_objects == le32(d@, 40),
            fits(d@, 0, HEADER_SIZE as int),
            starts_with(d@, magic_97()) || starts_with(d@, magic_99()),
            le32(d@, 8) == GEO_VERSION,
            objects@.len() == j,
            forall|q: int| 0 <= q < j ==> #[trigger] object_ok(d@, object_base(q)),
            forall|q: int| 0 <= q < j ==> object_at(d@, object_base(q), #[trigger] objects@[q]),
        decreases n_objects - j,
    {
        let base: u64 = 68 + 112 * j as u64;
        if base > d.len() as u64 {
            assert(!object_ok(d@, object_base(j as int)));
            return Err(ImportError::UnexpectedEof);
        }
        match parse_object(d, base as usize) {
            Ok(o) => objects.push(o),
            Err(e) => {
                assert(base == object_base(j as int));
                assert(!object_ok(d@, object_base(j as int)));
                return Err(e);
            },
        }
        j = j + 1;
    }
    Ok(Geo { materials, material_textures, objects })
}

} // verus!
