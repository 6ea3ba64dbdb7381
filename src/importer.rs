//! The model importer: from archive paths to merged, patched models and to
//! decoded textures.
use vstd::prelude::*;

use crate::big::{HwFs, layered};
use crate::geo::{Geo, ImportError, geo_at, geo_ok, parse_geo};
use crate::import::{all_tris_ok, assemble, assembled, folder, folder_of, tri_pairs};
use crate::lif::{decode_lif, is_texture_of, lif_ok};
use crate::model::{Model, Node, Texture};
use crate::patch::{patch, patch_chain, patch_fits, patches_of};
use crate::surface::{
    Surface, build_model, is_merge_of, is_model_of, lemma_merge_counts, lemma_vertex_count_prefix,
    merge_surfaces, vertex_count,
};
use crate::texlist::{ListedTexture, ListedView, list_ok, listed, list_count, list_elements, list_names, listed_views, parse_texture_list};

verus! {

/// Imports models and textures from layered archives, with the texture list
/// read once.
pub struct ImportModels {
    pub texture_list: Vec<ListedTexture>,
    /// Whether surfaces that share a key are merged into one mesh.
    pub merge_surfaces: bool,
}

/// The name of the texture list in the archives.
pub open spec fn texture_list_path() -> Seq<u8> {
    seq![116u8, 101, 120, 116, 117, 114, 101, 115, 46, 108, 108]
}

/// The steps of an import from a decoded file `g`: `nodes` and `tris` its
/// nodes and triangles, `patched` the triangles after the patches of `path`
/// (with `stale` saying, patch by patch, whether the corner held the values
/// the patch expected), `surfaces` those merged (or not), and `m` the model
/// laid out from them.
pub open spec fn geo_steps(
    path: Seq<u8>,
    list: Seq<ListedView>,
    merge: bool,
    m: Model,
    stale: Seq<bool>,
    g: Geo,
    nodes: Seq<Node>,
    tris: Seq<Surface>,
    patched: Seq<Surface>,
    surfaces: Seq<Surface>,
) -> bool {
    &&& assembled(g, list, folder_of(path), nodes, tris)
    &&& patch_chain(tris, patched, patches_of(path), stale)
    &&& (if merge { is_merge_of(surfaces, patched) } else { surfaces == patched })
    &&& is_model_of(m, surfaces, nodes)
}

/// `m` is the model that the decoded file `g` at `path` gives.
pub open spec fn model_of_geo(
    g: Geo,
    path: Seq<u8>,
    list: Seq<ListedView>,
    merge: bool,
    m: Model,
    stale: Seq<bool>,
) -> bool {
    exists|nodes: Seq<Node>, tris: Seq<Surface>, patched: Seq<Surface>, surfaces: Seq<Surface>|
        #[trigger] geo_steps(path, list, merge, m, stale, g, nodes, tris, patched, surfaces)
}

/// The steps of an import of the geometry file `file`, decoded as `g`.
pub open spec fn import_steps(
    file: Seq<u8>,
    path: Seq<u8>,
    list: Seq<ListedView>,
    merge: bool,
    m: Model,
    stale: Seq<bool>,
    g: Geo,
    nodes: Seq<Node>,
    tris: Seq<Surface>,
    patched: Seq<Surface>,
    surfaces: Seq<Surface>,
) -> bool {
    geo_at(file, g) && geo_steps(path, list, merge, m, stale, g, nodes, tris, patched, surfaces)
}

/// `m` is the model that the geometry file `file` at `path` gives with the
/// texture list `list`.
pub open spec fn model_of_file(
    file: Seq<u8>,
    path: Seq<u8>,
    list: Seq<ListedView>,
    merge: bool,
    m: Model,
    stale: Seq<bool>,
) -> bool {
    exists|g: Geo, nodes: Seq<Node>, tris: Seq<Surface>, patched: Seq<Surface>, surfaces: Seq<Surface>|
        #[trigger] import_steps(file, path, list, merge, m, stale, g, nodes, tris, patched, surfaces)
}

/// Whether the decoded file `g` at `path` imports: every polygon makes a
/// triangle, every patch of the path lands on an existing corner, and the
/// triangles' vertices can be indexed in 32 bits.
pub open spec fn geo_imports(g: Geo, path: Seq<u8>, list: Seq<ListedView>) -> bool {
    &&& all_tris_ok(g, list, folder_of(path))
    &&& forall|i: int|
        0 <= i < patches_of(path).len() ==> (#[trigger] patches_of(path)[i]).triangle < tri_pairs(
            g.objects@,
        ).len() && patches_of(path)[i].vertex < 3
    &&& 3 * tri_pairs(g.objects@).len() <= u32::MAX
}

/// Whether the geometry file `file` at `path` imports: it decodes, and what it
/// decodes to imports.
pub open spec fn import_ok(file: Seq<u8>, path: Seq<u8>, list: Seq<ListedView>) -> bool {
    &&& geo_ok(file)
    &&& forall|g: Geo| #[trigger] geo_at(file, g) ==> geo_imports(g, path, list)
}

proof fn lemma_tri_pairs_same(o1: Seq<crate::geo::PolygonObject>, o2: Seq<crate::geo::PolygonObject>)
    requires
        o1.len() == o2.len(),
        forall|j: int| 0 <= j < o1.len() ==> (#[trigger] o1[j]).polygons@.len() == o2[j].polygons@.len(),
    ensures
        tri_pairs(o1) == tri_pairs(o2),
    decreases o1.len(),
{
    if o1.len() > 0 {
        let (d1, d2) = (o1.drop_last(), o2.drop_last());
        assert forall|j: int| 0 <= j < d1.len() implies (#[trigger] d1[j]).polygons@.len() == d2[j].polygons@.len() by {
            assert(d1[j] == o1[j] && d2[j] == o2[j]);
        }
        lemma_tri_pairs_same(d1, d2);
        assert(o1.last().polygons@.len() == o2.last().polygons@.len());
    }
}

/// Two decodings of one file agree on whether it imports.
proof fn lemma_geo_same(file: Seq<u8>, g1: Geo, g2: Geo, path: Seq<u8>, list: Seq<ListedView>)
    requires
        geo_at(file, g1),
        geo_at(file, g2),
    ensures
        geo_imports(g1, path, list) == geo_imports(g2, path, list),
{
    assert forall|j: int| 0 <= j < g1.objects@.len() implies {
        &&& (#[trigger] g1.objects@[j]).polygons@ == g2.objects@[j].polygons@
        &&& g1.objects@[j].vertices@ == g2.objects@[j].vertices@
        &&& g1.objects@[j].normals@ == g2.objects@[j].normals@
    } by {
        assert(crate::geo::object_at(file, crate::geo::object_base(j), g1.objects@[j]));
        assert(crate::geo::object_at(file, crate::geo::object_base(j), g2.objects@[j]));
    }
    lemma_tri_pairs_same(g1.objects@, g2.objects@);
    assert forall|k: int| 0 <= k < g1.material_textures@.len() implies crate::model::opt_bytes(
        #[trigger] g1.material_textures@[k],
    ) == crate::model::opt_bytes(g2.material_textures@[k]) by {
    }
    let pairs = tri_pairs(g1.objects@);
    assert forall|t: int| 0 <= t < pairs.len() implies crate::import::tri_ok(g1, list, folder_of(path), #[trigger] pairs[t].0, pairs[t].1)
        == crate::import::tri_ok(g2, list, folder_of(path), pairs[t].0, pairs[t].1) by {
        crate::import::lemma_tri_pairs_bounds(g1.objects@);
        let (j, p) = pairs[t];
        assert(g1.objects@[j].polygons@ == g2.objects@[j].polygons@);
        assert(g1.objects@[j].vertices@ == g2.objects@[j].vertices@);
        assert(g1.objects@[j].normals@ == g2.objects@[j].normals@);
        let pe = crate::import::poly(g1, j, p);
        assert(pe == crate::import::poly(g2, j, p));
        assert(g1.materials@ == g2.materials@);
        assert(g1.material_textures@.len() == g2.material_textures@.len());
        if (pe.material_index as int) < g1.material_textures@.len() {
            assert(crate::model::opt_bytes(g1.material_textures@[pe.material_index as int])
                == crate::model::opt_bytes(g2.material_textures@[pe.material_index as int]));
        }
        assert forall|i: int| 0 <= i < 3 implies #[trigger] crate::import::normal_index(g1, j, p, i)
            == crate::import::normal_index(g2, j, p, i) by {
        }
        assert forall|i: int| 0 <= i < 3 implies crate::import::normal_index(g1, j, p, i)
            == #[trigger] crate::import::normal_index(g2, j, p, i) by {
        }
        let fo = folder_of(path);
        let o1 = g1.objects@[j];
        let o2 = g2.objects@[j];
        assert((forall|i: int| 0 <= i < 3 ==> (#[trigger] crate::import::corner(pe, i) as int) < o1.vertices@.len())
            == (forall|i: int| 0 <= i < 3 ==> (#[trigger] crate::import::corner(pe, i) as int) < o2.vertices@.len()));
        assert((forall|i: int| 0 <= i < 3 ==> 0 <= #[trigger] crate::import::normal_index(g1, j, p, i) < o1.normals@.len())
            == (forall|i: int| 0 <= i < 3 ==> 0 <= #[trigger] crate::import::normal_index(g2, j, p, i) < o2.normals@.len()));
    }
}

proof fn lemma_three_each(s: Seq<Surface>)
    requires
        forall|t: int| 0 <= t < s.len() ==> (#[trigger] s[t]).vertices@.len() == 3,
    ensures
        vertex_count(s) == 3 * s.len(),
    decreases s.len(),
{
    if s.len() > 0 {
        let sd = s.drop_last();
        assert forall|t: int| 0 <= t < sd.len() implies (#[trigger] sd[t]).vertices@.len() == 3 by {
            assert(sd[t] == s[t]);
        }
        lemma_three_each(sd);
    }
}

/// Counts the vertices of a list of surfaces; `None` past `u32::MAX`.
fn count_vertices(s: &Vec<Surface>) -> (r: Option<u32>)
    ensures
        match r {
            Some(n) => n == vertex_count(s@),
            None => vertex_count(s@) > u32::MAX,
        },
{
    let mut total: u64 = 0;
    let mut i: usize = 0;
    while i < s.len()
        invariant
            i <= s@.len(),
            total == vertex_count(s@.take(i as int)),
            total <= u32::MAX,
        decreases s@.len() - i,
    {
        assert(s@.take(i + 1).drop_last() == s@.take(i as int));
        let l = s[i].vertices.len() as u64;
        if l > u32::MAX as u64 - total {
            proof {
                lemma_vertex_count_prefix(s@, i + 1);
            }
            return None;
        }
        total = total + l;
        i = i + 1;
    }
    assert(s@.take(i as int) == s@);
    Some(total as u32)
}

impl ImportModels {
    /// Reads the texture list from the archives.
    pub fn new(fs: &HwFs) -> (r: Result<ImportModels, ImportError>)
        ensures
            layered(fs.0@, texture_list_path()) == Ok::<Option<Seq<u8>>, ImportError>(None) ==> r
                == Err::<ImportModels, ImportError>(ImportError::FileNotFound),
            layered(fs.0@, texture_list_path()) matches Err(e) ==> r == Err::<ImportModels, ImportError>(e),
            layered(fs.0@, texture_list_path()) matches Ok(Some(f)) ==> (r is Ok <==> list_ok(f)),
            r is Ok ==> (layered(fs.0@, texture_list_path()) matches Ok(Some(f)) && listed_views(
                r->Ok_0.texture_list@,
            ) == listed(list_elements(f), list_names(f), list_count(f)) && r->Ok_0.merge_surfaces),
    {
        let path: Vec<u8> = vec![116u8, 101, 120, 116, 117, 114, 101, 115, 46, 108, 108];
        assert(path@ == texture_list_path());
        let file = match fs.open(path.as_slice()) {
            Ok(Some(f)) => f,
            Ok(None) => return Err(ImportError::FileNotFound),
            Err(e) => return Err(e),
        };
        match parse_texture_list(file.as_slice()) {
            Ok(texture_list) => Ok(ImportModels { texture_list, merge_surfaces: true }),
            Err(e) => Err(e),
        }
    }

    /// Makes the model of a decoded geometry file at `path`.
    fn build_from_geo(&self, geo: &Geo, path: &[u8]) -> (r: Result<(Model, Vec<bool>), ImportError>)
        requires
            geo.objects@.len() <= u32::MAX,
        ensures
            r is Ok <==> geo_imports(*geo, path@, listed_views(self.texture_list@)),
            r is Ok ==> model_of_geo(
                *geo,
                path@,
                listed_views(self.texture_list@),
                self.merge_surfaces,
                r->Ok_0.0,
                r->Ok_0.1@,
            ),
    {
        let ghost lv = listed_views(self.texture_list@);
        let ghost n_tris = tri_pairs(geo.objects@).len();
        let dir = folder(path);
        let (nodes, mut tris) = match assemble(geo, &self.texture_list, dir.as_slice()) {
            Ok(x) => x,
            Err(e) => return Err(e),
        };
        let ghost tris0 = tris@;
        assert forall|t: int| 0 <= t < tris0.len() implies (#[trigger] tris0[t]).vertices@.len() == 3 by {
        }
        let stale = match patch(path, &mut tris) {
            Ok(s) => s,
            Err(e) => {
                proof {
                    let w = choose|i: int|
                        0 <= i < patches_of(path@).len() && !patch_fits(tris0, #[trigger] patches_of(path@)[i]);
                    assert(!(patches_of(path@)[w].triangle < n_tris && patches_of(path@)[w].vertex < 3));
                }
                return Err(e);
            },
        };
        let ghost patched_v = tris@;
        assert forall|t: int| 0 <= t < patched_v.len() implies (#[trigger] patched_v[t]).vertices@.len() == 3 by {
            assert(tris0[t].vertices@.len() == 3);
        }
        proof {
            lemma_three_each(patched_v);
        }
        let surfaces = if self.merge_surfaces {
            merge_surfaces(&tris)
        } else {
            tris
        };
        proof {
            if self.merge_surfaces {
                lemma_merge_counts(surfaces@, patched_v);
            }
            assert(surfaces@.len() <= vertex_count(patched_v));
        }
        match count_vertices(&surfaces) {
            Some(_) => {},
            None => return Err(ImportError::TooLarge),
        }
        if surfaces.len() > u32::MAX as usize {
            return Err(ImportError::TooLarge);
        }
        let ghost nodes_v = nodes@;
        let model = build_model(&surfaces, nodes);
        assert(geo_steps(path@, lv, self.merge_surfaces, model, stale@, *geo, nodes_v, tris0, patched_v, surfaces@));
        Ok((model, stale))
    }

    /// Imports the model at `path`. Besides the model it gives, patch by
    /// patch, whether the patched corner held the values the patch expected.
    pub fn load_model(&self, fs: &HwFs, path: &[u8]) -> (r: Result<(Model, Vec<bool>), ImportError>)
        ensures
            layered(fs.0@, path@) == Ok::<Option<Seq<u8>>, ImportError>(None) ==> r == Err::<
                (Model, Vec<bool>),
                ImportError,
            >(ImportError::FileNotFound),
            layered(fs.0@, path@) matches Err(e) ==> r == Err::<(Model, Vec<bool>), ImportError>(e),
            layered(fs.0@, path@) matches Ok(Some(f)) ==> (r is Ok <==> import_ok(
                f,
                path@,
                listed_views(self.texture_list@),
            )),
            r is Ok ==> (layered(fs.0@, path@) matches Ok(Some(f)) && model_of_file(
                f,
                path@,
                listed_views(self.texture_list@),
                self.merge_surfaces,
                r->Ok_0.0,
                r->Ok_0.1@,
            )),
    {
        let file = match fs.open(path) {
            Ok(Some(f)) => f,
            Ok(None) => return Err(ImportError::FileNotFound),
            Err(e) => return Err(e),
        };
        let geo = match parse_geo(file.as_slice()) {
            Ok(g) => g,
            Err(e) => return Err(e),
        };
        let ghost lv = listed_views(self.texture_list@);
        let r = self.build_from_geo(&geo, path);
        proof {
            assert(geo_at(file@, geo));
            if r is Ok {
                assert forall|g: Geo| #[trigger] geo_at(file@, g) implies geo_imports(g, path@, lv) by {
                    lemma_geo_same(file@, geo, g, path@, lv);
                }
                let m = r->Ok_0.0;
                let st = r->Ok_0.1@;
                let (nodes, tris, patched, surfaces) = choose|
                    nodes: Seq<Node>,
                    tris: Seq<Surface>,
                    patched: Seq<Surface>,
                    surfaces: Seq<Surface>,
                | #[trigger] geo_steps(path@, lv, self.merge_surfaces, m, st, geo, nodes, tris, patched, surfaces);
                assert(import_steps(file@, path@, lv, self.merge_surfaces, m, st, geo, nodes, tris, patched, surfaces));
            }
        }
        r
    }

    /// Decodes the texture at `path` (without its `.lif` extension).
    pub fn load_texture(&self, fs: &HwFs, path: &[u8]) -> (r: Result<Texture, ImportError>)
        ensures
            layered(fs.0@, path@ + lif_extension()) == Ok::<Option<Seq<u8>>, ImportError>(None) ==> r
                == Err::<Texture, ImportError>(ImportError::FileNotFound),
            layered(fs.0@, path@ + lif_extension()) matches Err(e) ==> r == Err::<Texture, ImportError>(e),
            layered(fs.0@, path@ + lif_extension()) matches Ok(Some(f)) ==> (r is Ok <==> lif_ok(f)),
            r is Ok ==> (layered(fs.0@, path@ + lif_extension()) matches Ok(Some(f)) && is_texture_of(
                f,
                r->Ok_0,
            )),
    {
        let mut full = crate::model::copy_bytes(path);
        full.push(46u8);
        full.push(108u8);
        full.push(105u8);
        full.push(102u8);
        assert(full@ == path@ + lif_extension());
        let file = match fs.open(full.as_slice()) {
            Ok(Some(f)) => f,
            Ok(None) => return Err(ImportError::FileNotFound),
            Err(e) => return Err(e),
        };
        decode_lif(file.as_slice())
    }
}

/// The extension of texture files.
pub open spec fn lif_extension() -> Seq<u8> {
    seq![46u8, 108, 105, 102]
}

} // verus!
