//! The renderer-facing pool that models are merged into.
use vstd::prelude::*;

use crate::math::Vector;
use crate::model::{
    Material, Mesh, Model, Node, Texture, Vertex, bytes_eq, copy_opt_bytes, material_names, opt_bytes,
    opt_bytes_eq,
};
use crate::surface::dedup_names;
use crate::big::HwFs;
use crate::geo::ImportError;
use crate::importer::{ImportModels, import_ok, lif_extension, model_of_file};
use crate::big::layered;
use crate::lif::{is_texture_of, lif_ok};
use crate::texlist::listed_views;

verus! {

/// A model in the cache: its nodes, and its meshes with indices into the
/// cache's pools.
pub struct CachedModel {
    pub nodes: Vec<Node>,
    pub meshes: Vec<Mesh>,
}

/// Vertices, textures, materials and models of every model pushed so far.
/// Texture slot 0 always holds the plain white texture.
pub struct ModelCache {
    pub vertices: Vec<Vertex>,
    pub textures: Vec<Texture>,
    pub materials: Vec<Material<u32>>,
    pub models: Vec<CachedModel>,
}

/// A texture under its name.
pub struct NamedTexture {
    pub name: Vec<u8>,
    pub texture: Texture,
}

/// The slot of the plain white texture.
pub const DEFAULT_TEXTURE: u32 = 0;

/// The index of the first name in `names` equal to `n`, if any.
pub open spec fn first_index(names: Seq<Seq<u8>>, n: Seq<u8>) -> Option<int>
    decreases names.len(),
{
    if names.len() == 0 {
        None
    } else {
        match first_index(names.drop_last(), n) {
            Some(i) => Some(i),
            None => if names.last() == n {
                Some(names.len() - 1)
            } else {
                None
            },
        }
    }
}

/// The texture slot that a material naming `name` gets, where the named
/// textures `names` go to the slots from `base` on: the first texture of that
/// name, or the white texture where there is none.
pub open spec fn resolve(name: Option<Seq<u8>>, names: Seq<Seq<u8>>, base: int) -> int {
    match name {
        None => DEFAULT_TEXTURE as int,
        Some(n) => match first_index(names, n) {
            Some(i) => base + i,
            None => DEFAULT_TEXTURE as int,
        },
    }
}

/// The names of a list of named textures.
pub open spec fn texture_names(t: Seq<NamedTexture>) -> Seq<Seq<u8>> {
    t.map_values(|x: NamedTexture| x.name@)
}

/// `m` is `mesh` with its vertex range and material moved by the given bases.
pub open spec fn rebased(m: Mesh, mesh: Mesh, vbase: int, mbase: int) -> bool {
    &&& m.first_vertex == mesh.first_vertex + vbase
    &&& m.num_vertices == mesh.num_vertices
    &&& m.material == mesh.material + mbase
    &&& m.node == mesh.node
}

/// Whether every mesh of the model sits inside its vertex and material lists.
pub open spec fn model_wf(m: Model) -> bool {
    forall|i: int|
        0 <= i < m.meshes@.len() ==> (#[trigger] m.meshes@[i]).first_vertex + m.meshes@[i].num_vertices
            <= m.vertices@.len() && m.meshes@[i].material < m.materials@.len()
}

impl ModelCache {
    /// Whether every material's texture and every mesh's vertex range and
    /// material lie inside the cache's pools.
    pub open spec fn wf(&self) -> bool {
        &&& self.textures@.len() >= 1
        &&& self.textures@.len() <= u32::MAX
        &&& self.vertices@.len() <= u32::MAX
        &&& self.materials@.len() <= u32::MAX
        &&& self.models@.len() <= u32::MAX
        &&& forall|k: int| 0 <= k < self.materials@.len() ==> (#[trigger] self.materials@[k]).texture
            < self.textures@.len()
        &&& forall|j: int, i: int|
            0 <= j < self.models@.len() && 0 <= i < self.models@[j].meshes@.len() ==> {
                let m = #[trigger] self.models@[j].meshes@[i];
                &&& m.first_vertex + m.num_vertices <= self.vertices@.len()
                &&& m.material < self.materials@.len()
            }
    }

    /// An empty cache: the white texture and nothing else.
    pub fn new_empty() -> (r: ModelCache)
        ensures
            r.wf(),
            r.vertices@.len() == 0,
            r.materials@.len() == 0,
            r.models@.len() == 0,
            r.textures@.len() == 1,
            r.textures@[0].size.0@ == seq![1u32, 1],
            r.textures@[0].rgba@ == seq![[255u8, 255, 255, 255]],
    {
        let mut rgba: Vec<[u8; 4]> = Vec::new();
        rgba.push([255u8, 255, 255, 255]);
        let mut textures: Vec<Texture> = Vec::new();
        textures.push(Texture { size: Vector::<u32, 2>::new(1, 1), rgba });
        ModelCache { vertices: Vec::new(), textures, materials: Vec::new(), models: Vec::new() }
    }

    /// Merges a model, with the textures its materials name, into the cache.
    /// Gives the model's handle, or `None` (leaving the cache as it was) where
    /// an index would not fit in 32 bits.
    pub fn push(&mut self, model: Model, textures: Vec<NamedTexture>) -> (r: Option<u32>)
        requires
            old(self).wf(),
            model_wf(model),
        ensures
            final(self).wf(),
            r is None <==> (old(self).vertices@.len() + model.vertices@.len() > u32::MAX
                || old(self).materials@.len() + model.materials@.len() > u32::MAX
                || old(self).textures@.len() + textures@.len() > u32::MAX
                || old(self).models@.len() >= u32::MAX),
            r is None ==> *final(self) == *old(self),
            r is Some ==> {
                let base = old(self).textures@.len() as int;
                &&& r->Some_0 == old(self).models@.len()
                &&& final(self).vertices@ == old(self).vertices@ + model.vertices@
                &&& final(self).textures@ == old(self).textures@ + textures@.map_values(|t: NamedTexture| t.texture)
                &&& final(self).materials@.len() == old(self).materials@.len() + model.materials@.len()
                &&& forall|k: int| 0 <= k < old(self).materials@.len() ==> #[trigger] final(self).materials@[k] == old(self).materials@[k]
                &&& forall|k: int| 0 <= k < model.materials@.len() ==> final(self).materials@[old(self).materials@.len() + k].texture
                    == resolve(opt_bytes(#[trigger] model.materials@[k].texture), texture_names(textures@), base)
                &&& final(self).models@.len() == old(self).models@.len() + 1
                &&& forall|j: int| 0 <= j < old(self).models@.len() ==> #[trigger] final(self).models@[j] == old(self).models@[j]
                &&& final(self).models@.last().nodes@ == model.nodes@
                &&& final(self).models@.last().meshes@.len() == model.meshes@.len()
                &&& forall|i: int| 0 <= i < model.meshes@.len() ==> rebased(
                    #[trigger] final(self).models@.last().meshes@[i],
                    model.meshes@[i],
                    old(self).vertices@.len() as int,
                    old(self).materials@.len() as int,
                )
                &&& forall|i: int| 0 <= i < model.meshes@.len() ==> {
                    let m = #[trigger] final(self).models@.last().meshes@[i];
                    old(self).vertices@.len() <= m.first_vertex && m.first_vertex + m.num_vertices <= final(self).vertices@.len()
                }
            },
    {
        let vbase = self.vertices.len();
        let mbase = self.materials.len();
        let tbase = self.textures.len();
        if model.vertices.len() > u32::MAX as usize - vbase || model.materials.len() > u32::MAX as usize - mbase
            || textures.len() > u32::MAX as usize - tbase || self.models.len() >= u32::MAX as usize {
            return None;
        }
        let Model { vertices: mut mv, materials: mmats, nodes, meshes } = model;
        let mut mats: Vec<Material<u32>> = Vec::new();
        let mut k: usize = 0;
        while k < mmats.len()
            invariant
                k <= mmats@.len(),
                mmats@ == model.materials@,
                tbase == old(self).textures@.len(),
                tbase + textures@.len() <= u32::MAX,
                tbase >= 1,
                mats@.len() == k,
                forall|q: int| 0 <= q < k ==> (#[trigger] mats@[q]).texture == resolve(opt_bytes(mmats@[q].texture), texture_names(textures@), tbase as int),
                forall|q: int| 0 <= q < k ==> (#[trigger] mats@[q]).texture < tbase + textures@.len(),
            decreases mmats@.len() - k,
        {
            let t = match &mmats[k].texture {
                None => DEFAULT_TEXTURE,
                Some(name) => match find_named(&textures, name.as_slice()) {
                    Some(i) => (tbase + i) as u32,
                    None => DEFAULT_TEXTURE,
                },
            };
            mats.push(Material { texture: t });
            k = k + 1;
        }
        let mut cached: Vec<Mesh> = Vec::new();
        let mut i: usize = 0;
        while i < meshes.len()
            invariant
                i <= meshes@.len(),
                meshes@ == model.meshes@,
                model_wf(model),
                vbase == old(self).vertices@.len(),
                mbase == old(self).materials@.len(),
                vbase + model.vertices@.len() <= u32::MAX,
                mbase + model.materials@.len() <= u32::MAX,
                cached@.len() == i,
                forall|q: int| 0 <= q < i ==> rebased(#[trigger] cached@[q], meshes@[q], vbase as int, mbase as int),
            decreases meshes@.len() - i,
        {
            let m = meshes[i];
            cached.push(Mesh {
                first_vertex: m.first_vertex + vbase as u32,
                num_vertices: m.num_vertices,
                material: m.material + mbase as u32,
                node: m.node,
            });
            i = i + 1;
        }
        let ghost old_textures = textures@;
        let mut textures = textures;
        let mut texs: Vec<Texture> = Vec::new();
        while textures.len() > 0
            invariant
                texs@ + textures@.map_values(|t: NamedTexture| t.texture) == old_textures.map_values(
                    |t: NamedTexture| t.texture,
                ),
            decreases textures@.len(),
        {
            let ghost before = textures@;
            let nt = textures.remove(0);
            assert(before.map_values(|t: NamedTexture| t.texture) =~= seq![nt.texture]
                + textures@.map_values(|t: NamedTexture| t.texture));
            texs.push(nt.texture);
            assert(texs@ + textures@.map_values(|t: NamedTexture| t.texture) =~= old_textures.map_values(
                |t: NamedTexture| t.texture,
            ));
        }
        assert(texs@ =~= old_textures.map_values(|t: NamedTexture| t.texture));
        self.vertices.append(&mut mv);
        self.textures.append(&mut texs);
        self.materials.append(&mut mats);
        self.models.push(CachedModel { nodes, meshes: cached });
        Some(self.models.len() as u32 - 1)
    }
}

/// Finds the first texture named `name`.
fn find_named(t: &Vec<NamedTexture>, name: &[u8]) -> (r: Option<usize>)
    ensures
        match r {
            Some(i) => i < t@.len() && first_index(texture_names(t@), name@) == Some(i as int),
            None => first_index(texture_names(t@), name@) is None,
        },
{
    let mut i: usize = 0;
    while i < t.len()
        invariant
            i <= t@.len(),
            first_index(texture_names(t@.take(i as int)), name@) is None,
        decreases t@.len() - i,
    {
        assert(texture_names(t@.take(i + 1)).drop_last() == texture_names(t@.take(i as int)));
        if bytes_eq(t[i].name.as_slice(), name) {
            assert(texture_names(t@.take(i + 1)).last() == name@);
            assert(first_index(texture_names(t@.take(i + 1)), name@) == Some(i as int));
            assert(texture_names(t@).take(i + 1) =~= texture_names(t@.take(i + 1)));
            proof {
                lemma_first_index_prefix(texture_names(t@), i + 1, name@);
            }
            return Some(i);
        }
        i = i + 1;
    }
    assert(t@.take(i as int) == t@);
    None
}

proof fn lemma_first_index_prefix(names: Seq<Seq<u8>>, n: int, x: Seq<u8>)
    requires
        0 <= n <= names.len(),
        first_index(names.take(n), x) is Some,
    ensures
        first_index(names, x) == first_index(names.take(n), x),
    decreases names.len() - n,
{
    if n < names.len() {
        assert(names.take(n + 1).drop_last() == names.take(n));
        lemma_first_index_prefix(names, n + 1, x);
    } else {
        assert(names.take(n) == names);
    }
}

/// The material names of a list of models, one model after the other.
pub open spec fn all_material_names(models: Seq<Model>) -> Seq<Option<Seq<u8>>>
    decreases models.len(),
{
    if models.len() == 0 {
        seq![]
    } else {
        all_material_names(models.drop_last()) + material_names(models.last().materials@)
    }
}

/// The number of vertices of a list of models.
pub open spec fn model_vertex_count(models: Seq<Model>) -> int
    decreases models.len(),
{
    if models.len() == 0 {
        0
    } else {
        model_vertex_count(models.drop_last()) + models.last().vertices@.len()
    }
}

/// The vertices of a list of models, one model after the other.
pub open spec fn all_model_vertices(models: Seq<Model>) -> Seq<Vertex>
    decreases models.len(),
{
    if models.len() == 0 {
        seq![]
    } else {
        all_model_vertices(models.drop_last()) + models.last().vertices@
    }
}

/// Whether `t` is the 1x1 opaque white texture.
pub open spec fn is_white(t: Texture) -> bool {
    t.size.0@ == seq![1u32, 1] && t.rgba@ == seq![[255u8, 255, 255, 255]]
}

proof fn lemma_model_vertex_count_prefix(models: Seq<Model>, j: int)
    requires
        0 <= j < models.len(),
    ensures
        model_vertex_count(models.take(j)) + models[j].vertices@.len() == model_vertex_count(models.take(j + 1)),
        model_vertex_count(models.take(j + 1)) <= model_vertex_count(models),
    decreases models.len() - j,
{
    assert(models.take(j + 1).drop_last() == models.take(j));
    if j + 1 < models.len() {
        lemma_model_vertex_count_prefix(models, j + 1);
    } else {
        assert(models.take(j + 1) == models);
    }
}

proof fn lemma_first_index_bound(names: Seq<Seq<u8>>, n: Seq<u8>)
    ensures
        first_index(names, n) matches Some(i) ==> 0 <= i < names.len(),
    decreases names.len(),
{
    if names.len() > 0 {
        lemma_first_index_bound(names.drop_last(), n);
    }
}

/// The view of a list of optional names.
pub open spec fn names_view(v: Seq<Option<Vec<u8>>>) -> Seq<Option<Seq<u8>>> {
    v.map_values(|o: Option<Vec<u8>>| opt_bytes(o))
}

/// `c` merges `models` with the named textures `textures`: the white texture
/// and then `textures` in order; one material per distinct material name over
/// all models, in order of first use, each with the slot of its texture; the
/// models' vertices one after the other; and each model's meshes with their
/// vertex ranges moved past the models before it and their materials renamed
/// to the shared ones.
pub open spec fn is_cache_of(c: ModelCache, models: Seq<Model>, textures: Seq<NamedTexture>) -> bool {
    let names = dedup_names(all_material_names(models));
    &&& c.vertices@ == all_model_vertices(models)
    &&& is_white(c.textures@[0])
    &&& c.textures@.len() == textures.len() + 1
    &&& forall|k: int| 0 <= k < textures.len() ==> c.textures@[k + 1] == (#[trigger] textures[k]).texture
    &&& c.materials@.len() == names.len()
    &&& forall|k: int| 0 <= k < names.len() ==> (#[trigger] c.materials@[k]).texture == resolve(
        names[k],
        texture_names(textures),
        1,
    )
    &&& c.models@.len() == models.len()
    &&& forall|j: int| 0 <= j < models.len() ==> {
        let cm = #[trigger] c.models@[j];
        let m = models[j];
        &&& cm.nodes@ == m.nodes@
        &&& cm.meshes@.len() == m.meshes@.len()
        &&& forall|i: int| 0 <= i < m.meshes@.len() ==> {
            let x = #[trigger] cm.meshes@[i];
            let y = m.meshes@[i];
            &&& x.first_vertex == y.first_vertex + model_vertex_count(models.take(j))
            &&& x.num_vertices == y.num_vertices
            &&& x.node == y.node
            &&& x.material < names.len()
            &&& names[x.material as int] == material_names(m.materials@)[y.material as int]
        }
    }
}

/// `x` is `y` with its vertex range moved by `vbase` and its material renamed
/// from the model's list `mnames` to the shared list `names`.
pub open spec fn merged_mesh(
    x: Mesh,
    y: Mesh,
    vbase: int,
    names: Seq<Option<Seq<u8>>>,
    mnames: Seq<Option<Seq<u8>>>,
) -> bool {
    &&& x.first_vertex == y.first_vertex + vbase
    &&& x.num_vertices == y.num_vertices
    &&& x.node == y.node
    &&& x.material < names.len()
    &&& names[x.material as int] == mnames[y.material as int]
}

/// Whether two vertex ranges do not overlap.
pub open spec fn ranges_apart(x: Mesh, y: Mesh) -> bool {
    x.first_vertex + x.num_vertices <= y.first_vertex || y.first_vertex + y.num_vertices <= x.first_vertex
}

/// Whether the meshes of `m` lie inside its vertex list and pairwise do not
/// overlap.
pub open spec fn meshes_apart(m: Model) -> bool {
    &&& model_wf(m)
    &&& forall|a: int, b: int|
        0 <= a < b < m.meshes@.len() ==> ranges_apart(#[trigger] m.meshes@[a], #[trigger] m.meshes@[b])
}

proof fn lemma_model_vertex_count_mono(ms: Seq<Model>, a: int, b: int)
    requires
        0 <= a <= b <= ms.len(),
    ensures
        model_vertex_count(ms.take(a)) <= model_vertex_count(ms.take(b)),
    decreases b - a,
{
    if a < b {
        lemma_model_vertex_count_mono(ms, a, b - 1);
        lemma_model_vertex_count_prefix(ms, b - 1);
    }
}

proof fn lemma_all_model_vertices_len(ms: Seq<Model>)
    ensures
        all_model_vertices(ms).len() == model_vertex_count(ms),
    decreases ms.len(),
{
    if ms.len() > 0 {
        lemma_all_model_vertices_len(ms.drop_last());
    }
}

/// In a cache merged from models whose own meshes do not overlap, no two
/// meshes of any models overlap, and every mesh lies inside the vertex pool.
pub proof fn lemma_cache_ranges_apart(
    c: ModelCache,
    models: Seq<Model>,
    textures: Seq<NamedTexture>,
    j1: int,
    i1: int,
    j2: int,
    i2: int,
)
    requires
        is_cache_of(c, models, textures),
        forall|j: int| 0 <= j < models.len() ==> #[trigger] meshes_apart(models[j]),
        0 <= j1 < models.len(),
        0 <= j2 < models.len(),
        0 <= i1 < models[j1].meshes@.len(),
        0 <= i2 < models[j2].meshes@.len(),
        j1 != j2 || i1 != i2,
    ensures
        ranges_apart(c.models@[j1].meshes@[i1], c.models@[j2].meshes@[i2]),
        c.models@[j1].meshes@[i1].first_vertex + c.models@[j1].meshes@[i1].num_vertices <= c.vertices@.len(),
{
    let x = c.models@[j1].meshes@[i1];
    let y = c.models@[j2].meshes@[i2];
    let mx = models[j1].meshes@[i1];
    let my = models[j2].meshes@[i2];
    assert(meshes_apart(models[j1]) && meshes_apart(models[j2]));
    assert(model_wf(models[j1]) && model_wf(models[j2]));
    assert(mx.first_vertex + mx.num_vertices <= models[j1].vertices@.len());
    assert(my.first_vertex + my.num_vertices <= models[j2].vertices@.len());
    lemma_model_vertex_count_prefix(models, j1);
    lemma_model_vertex_count_prefix(models, j2);
    lemma_all_model_vertices_len(models);
    if j1 == j2 {
        if i1 < i2 {
            assert(ranges_apart(models[j1].meshes@[i1], models[j1].meshes@[i2]));
        } else {
            assert(ranges_apart(models[j1].meshes@[i2], models[j1].meshes@[i1]));
        }
    } else if j1 < j2 {
        lemma_model_vertex_count_mono(models, j1 + 1, j2);
    } else {
        lemma_model_vertex_count_mono(models, j2 + 1, j1);
    }
}

/// Whether models, with `n_textures` textures, can be merged at once: every
/// mesh names a material of its model, and every count and moved index fits in 32 bits.
pub open spec fn batch_ok(models: Seq<Model>, n_textures: int) -> bool {
    &&& n_textures < u32::MAX
    &&& models.len() < u32::MAX
    &&& all_material_names(models).len() < u32::MAX
    &&& forall|j: int| 0 <= j < models.len() ==> model_vertex_count(#[trigger] models.take(j + 1)) <= u32::MAX
    &&& forall|j: int, i: int|
        0 <= j < models.len() && 0 <= i < models[j].meshes@.len() ==> {
            let y = #[trigger] models[j].meshes@[i];
            &&& y.material < models[j].materials@.len()
            &&& y.first_vertex + model_vertex_count(models.take(j)) <= u32::MAX
        }
}

proof fn lemma_dedup_len(s: Seq<Option<Seq<u8>>>)
    ensures
        dedup_names(s).len() <= s.len(),
    decreases s.len(),
{
    if s.len() > 0 {
        lemma_dedup_len(s.drop_last());
    }
}

proof fn lemma_names_prefix(models: Seq<Model>, j: int)
    requires
        0 <= j <= models.len(),
    ensures
        all_material_names(models.take(j)).len() <= all_material_names(models).len(),
    decreases models.len() - j,
{
    if j < models.len() {
        lemma_names_prefix(models, j + 1);
        assert(models.take(j + 1).drop_last() == models.take(j));
    } else {
        assert(models.take(j) == models);
    }
}

impl ModelCache {
    /// Merges all models at once, sharing one material among all materials
    /// of the same name. `None` where a mesh names a material its model does
    /// not have, or an index would not fit in 32 bits.
    pub fn new(models: Vec<Model>, textures: Vec<NamedTexture>) -> (r: Option<ModelCache>)
        ensures
            batch_ok(models@, textures@.len() as int) ==> r is Some,
            r is Some ==> is_cache_of(r->Some_0, models@, textures@),
            r is Some && (forall|j: int| 0 <= j < models@.len() ==> #[trigger] model_wf(models@[j]))
                ==> r->Some_0.wf(),
    {
        let ghost ms = models@;
        let ghost ts = textures@;
        let mut cache = ModelCache::new_empty();
        if textures.len() >= u32::MAX as usize || models.len() >= u32::MAX as usize {
            return None;
        }
        let mut names: Vec<Option<Vec<u8>>> = Vec::new();
        let mut j: usize = 0;
        let n_models = models.len();
        let mut rest = models;
        assert(ms.skip(0) == ms);
        while j < n_models
            invariant
                n_models == ms.len(),
                j <= ms.len(),
                rest@ == ms.skip(j as int),
                models@ == ms,
                textures@ == ts,
                ts.len() < u32::MAX,
                names_view(names@) == dedup_names(all_material_names(ms.take(j as int))),
                cache.vertices@.len() == model_vertex_count(ms.take(j as int)),
                cache.vertices@ == all_model_vertices(ms.take(j as int)),
                cache.vertices@.len() <= u32::MAX,
                cache.textures@.len() == 1,
                is_white(cache.textures@[0]),
                ms.len() < u32::MAX,
                names@.len() <= u32::MAX,
                cache.models@.len() == j,
                forall|q: int| 0 <= q < j ==> {
                    let cm = #[trigger] cache.models@[q];
                    let m = ms[q];
                    &&& cm.nodes@ == m.nodes@
                    &&& cm.meshes@.len() == m.meshes@.len()
                    &&& forall|i: int| 0 <= i < m.meshes@.len() ==> {
                        let x = #[trigger] cm.meshes@[i];
                        let y = m.meshes@[i];
                        &&& x.first_vertex == y.first_vertex + model_vertex_count(ms.take(q))
                        &&& x.num_vertices == y.num_vertices
                        &&& x.node == y.node
                        &&& x.material < names@.len()
                        &&& names_view(names@)[x.material as int] == material_names(m.materials@)[y.material as int]
                    }
                },
            decreases ms.len() - j,
        {
            let model = rest.remove(0);
            assert(model == ms[j as int]);
            let ghost before = names_view(names@);
            let mut mats: Vec<u32> = Vec::new();
            let mut k: usize = 0;
            while k < model.materials.len()
                invariant
                    k <= model.materials@.len(),
                    models@ == ms,
                    textures@ == ts,
                    j < ms.len(),
                    model == ms[j as int],
                    mats@.len() == k,
                    names@.len() <= u32::MAX,
                    names_view(names@) == dedup_names(all_material_names(ms.take(j as int)) + material_names(model.materials@).take(k as int)),
                    before.len() <= names@.len(),
                    forall|q: int| 0 <= q < before.len() ==> names_view(names@)[q] == before[q],
                    forall|q: int| 0 <= q < k ==> (#[trigger] mats@[q]) < names@.len()
                        && names_view(names@)[mats@[q] as int] == material_names(model.materials@)[q],
                decreases model.materials@.len() - k,
            {
                let mat = &model.materials[k];
                let ghost prefix = all_material_names(ms.take(j as int)) + material_names(model.materials@).take(k as int);
                assert(prefix.push(material_names(model.materials@)[k as int]) =~= all_material_names(ms.take(j as int)) + material_names(model.materials@).take(k + 1));
                let mut n: usize = 0;
                while n < names.len() && !opt_bytes_eq(&names[n], &mat.texture)
                    invariant
                        n <= names@.len(),
                        forall|q: int| 0 <= q < n ==> names_view(names@)[q] != opt_bytes(mat.texture),
                    decreases names@.len() - n,
                {
                    n = n + 1;
                }
                let ghost x = opt_bytes(mat.texture);
                assert(material_names(model.materials@)[k as int] == x);
                assert(prefix.push(x).drop_last() == prefix);
                let ghost old_view = names_view(names@);
                if n == names.len() {
                    if names.len() >= u32::MAX as usize {
                        proof {
                            lemma_dedup_len(prefix);
                            lemma_names_prefix(ms, j + 1);
                            assert(ms.take(j + 1).drop_last() == ms.take(j as int));
                            assert(ms.take(j + 1).last() == ms[j as int]);
                            assert(prefix.len() < all_material_names(ms.take(j + 1)).len());
                            assert(!batch_ok(ms, ts.len() as int));
                        }
                        return None;
                    }
                    assert(!names_view(names@).contains(x));
                    names.push(copy_opt_bytes(&mat.texture));
                    assert(names_view(names@) =~= old_view.push(x));
                    assert(names_view(names@) == dedup_names(prefix.push(x)));
                } else {
                    assert(names_view(names@)[n as int] == x);
                    assert(names_view(names@).contains(x));
                    assert(names_view(names@) == dedup_names(prefix.push(x)));
                }
                assert(forall|q: int| 0 <= q < old_view.len() ==> names_view(names@)[q] == old_view[q]);
                mats.push(n as u32);
                assert(mats@[k as int] < names@.len() && names_view(names@)[mats@[k as int] as int] == material_names(model.materials@)[k as int]);
                k = k + 1;
            }
            assert(material_names(model.materials@).take(k as int) == material_names(model.materials@));
            assert(ms.take(j + 1).drop_last() == ms.take(j as int));
            assert(all_material_names(ms.take(j + 1)) == all_material_names(ms.take(j as int)) + material_names(model.materials@));
            let vbase = cache.vertices.len();
            if model.vertices.len() > u32::MAX as usize - vbase {
                assert(ms.take(j + 1).last() == ms[j as int]);
                assert(model_vertex_count(ms.take(j + 1)) > u32::MAX);
                assert(!batch_ok(ms, ts.len() as int));
                return None;
            }
            let Model { vertices: mut mv, materials: _, nodes, meshes } = model;
            let mut cached: Vec<Mesh> = Vec::new();
            let mut i: usize = 0;
            while i < meshes.len()
                invariant
                    i <= meshes@.len(),
                    models@ == ms,
                    textures@ == ts,
                    j < ms.len(),
                    meshes@ == ms[j as int].meshes@,
                    mats@.len() == ms[j as int].materials@.len(),
                    vbase == model_vertex_count(ms.take(j as int)),
                    vbase <= u32::MAX,
                    cached@.len() == i,
                    forall|q: int| 0 <= q < mats@.len() ==> (#[trigger] mats@[q]) < names@.len()
                        && names_view(names@)[mats@[q] as int] == material_names(ms[j as int].materials@)[q],
                    forall|q: int| 0 <= q < i ==> merged_mesh(
                        #[trigger] cached@[q],
                        meshes@[q],
                        vbase as int,
                        names_view(names@),
                        material_names(ms[j as int].materials@),
                    ),
                decreases meshes@.len() - i,
            {
                let m = meshes[i];
                if m.material as usize >= mats.len() || m.first_vertex > u32::MAX - vbase as u32 {
                    assert(ms[j as int].meshes@[i as int] == m);
                    assert(!batch_ok(ms, ts.len() as int));
                    return None;
                }
                let mi = mats[m.material as usize];
                assert(mi == mats@[m.material as int]);
                cached.push(Mesh {
                    first_vertex: m.first_vertex + vbase as u32,
                    num_vertices: m.num_vertices,
                    material: mi,
                    node: m.node,
                });
                assert(merged_mesh(cached@[i as int], meshes@[i as int], vbase as int, names_view(names@), material_names(ms[j as int].materials@)));
                i = i + 1;
            }
            let ghost before_v = cache.vertices@;
            cache.vertices.append(&mut mv);
            assert(ms.take(j + 1).drop_last() == ms.take(j as int));
            assert(ms.take(j + 1).last() == ms[j as int]);
            assert(cache.vertices@ == all_model_vertices(ms.take(j + 1)));
            cache.models.push(CachedModel { nodes, meshes: cached });
            j = j + 1;
        }
        assert(ms.take(j as int) == ms);
        let mut materials: Vec<Material<u32>> = Vec::new();
        let mut i: usize = 0;
        while i < names.len()
            invariant
                i <= names@.len(),
                textures@ == ts,
                ts.len() < u32::MAX,
                materials@.len() == i,
                forall|q: int| 0 <= q < i ==> (#[trigger] materials@[q]).texture == resolve(
                    names_view(names@)[q],
                    texture_names(ts),
                    1,
                ),
            decreases names@.len() - i,
        {
            let t = match &names[i] {
                None => DEFAULT_TEXTURE,
                Some(name) => match find_named(&textures, name.as_slice()) {
                    Some(p) => (p + 1) as u32,
                    None => DEFAULT_TEXTURE,
                },
            };
            materials.push(Material { texture: t });
            i = i + 1;
        }
        cache.materials = materials;
        let mut textures = textures;
        let mut pool: Vec<Texture> = Vec::new();
        let mut k: usize = 0;
        assert(ts.skip(0) == ts);
        while textures.len() > 0
            invariant
                k + textures@.len() == ts.len(),
                ts.len() < u32::MAX,
                textures@ == ts.skip(k as int),
                pool@.len() == k,
                forall|q: int| 0 <= q < k ==> pool@[q] == (#[trigger] ts[q]).texture,
            decreases textures@.len(),
        {
            let nt = textures.remove(0);
            assert(nt == ts[k as int]);
            assert(textures@ =~= ts.skip(k + 1));
            pool.push(nt.texture);
            k = k + 1;
        }
        let ghost before_t = cache.textures@;
        cache.textures.append(&mut pool);
        assert(cache.textures@[0] == before_t[0]);
        proof {
            lemma_first_index_bound(texture_names(ts), seq![]);
            assert forall|k: int| 0 <= k < cache.materials@.len() implies (#[trigger] cache.materials@[k]).texture
                < cache.textures@.len() by {
                match names_view(names@)[k] {
                    Some(n) => lemma_first_index_bound(texture_names(ts), n),
                    None => {},
                }
            }
            if forall|j: int| 0 <= j < ms.len() ==> #[trigger] model_wf(ms[j]) {
                assert forall|j: int, i: int|
                    0 <= j < cache.models@.len() && 0 <= i < cache.models@[j].meshes@.len() implies {
                        let m = #[trigger] cache.models@[j].meshes@[i];
                        &&& m.first_vertex + m.num_vertices <= cache.vertices@.len()
                        &&& m.material < cache.materials@.len()
                    } by {
                    assert(model_wf(ms[j]));
                    lemma_model_vertex_count_prefix(ms, j);
                    assert(ms[j].meshes@[i].first_vertex + ms[j].meshes@[i].num_vertices <= ms[j].vertices@.len());
                }
            }
        }
        Some(cache)
    }
}

/// Model `m` is what importing `path` gives, with `stale` what its patches
/// found.
pub open spec fn imported(importer: &ImportModels, fs: &HwFs, path: Seq<u8>, m: Model, stale: Seq<bool>) -> bool {
    layered(fs.0@, path) matches Ok(Some(f)) && model_of_file(
        f,
        path,
        listed_views(importer.texture_list@),
        importer.merge_surfaces,
        m,
        stale,
    )
}

/// `t` is what decoding the texture file of `name` gives.
pub open spec fn decoded(fs: &HwFs, name: Seq<u8>, t: Texture) -> bool {
    layered(fs.0@, name + lif_extension()) matches Ok(Some(f)) && is_texture_of(f, t)
}

/// The imported models `ms` (one per path, with what their patches found)
/// and the decoded textures `ts` (under the names the models use) merge into
/// `c`.
pub open spec fn loaded_from(
    importer: &ImportModels,
    fs: &HwFs,
    paths: Seq<Vec<u8>>,
    c: ModelCache,
    stale: Seq<Vec<bool>>,
    ms: Seq<Model>,
    ts: Seq<NamedTexture>,
) -> bool {
    &&& ms.len() == paths.len()
    &&& stale.len() == paths.len()
    &&& forall|i: int| 0 <= i < paths.len() ==> #[trigger] imported(importer, fs, paths[i]@, ms[i], stale[i]@)
    &&& forall|k: int| 0 <= k < ts.len() ==> #[trigger] decoded(fs, ts[k].name@, ts[k].texture)
    &&& texture_names(ts) == used_textures(ms)
    &&& is_cache_of(c, ms, ts)
}

/// The distinct texture names among `s`, in order of first appearance.
pub open spec fn texture_set(s: Seq<Option<Seq<u8>>>) -> Seq<Seq<u8>>
    decreases s.len(),
{
    if s.len() == 0 {
        seq![]
    } else {
        let d = texture_set(s.drop_last());
        match s.last() {
            Some(n) => if d.contains(n) {
                d
            } else {
                d.push(n)
            },
            None => d,
        }
    }
}

/// The distinct texture names that the materials of `models` use, each once,
/// in order of first use.
pub open spec fn used_textures(models: Seq<Model>) -> Seq<Seq<u8>> {
    texture_set(all_material_names(models))
}

/// `ms` and `stale` are what importing each of `paths` gives.
pub open spec fn imported_all(
    importer: &ImportModels,
    fs: &HwFs,
    paths: Seq<Vec<u8>>,
    ms: Seq<Model>,
    stale: Seq<Vec<bool>>,
) -> bool {
    &&& ms.len() == paths.len()
    &&& stale.len() == paths.len()
    &&& forall|i: int| 0 <= i < paths.len() ==> #[trigger] imported(importer, fs, paths[i]@, ms[i], stale[i]@)
}

/// Whether every path imports, and the models they give name only textures
/// that decode and can be merged.
pub open spec fn load_ok(importer: &ImportModels, fs: &HwFs, paths: Seq<Vec<u8>>) -> bool {
    &&& forall|i: int| 0 <= i < paths.len() ==> #[trigger] path_imports(importer, fs, paths[i]@)
    &&& forall|ms: Seq<Model>, stale: Seq<Vec<bool>>| #[trigger] imported_all(importer, fs, paths, ms, stale) ==> {
        &&& forall|k: int| 0 <= k < used_textures(ms).len() ==> #[trigger] texture_decodes(fs, used_textures(ms)[k])
        &&& batch_ok(ms, used_textures(ms).len() as int)
    }
}

/// Whether the model at `path` imports.
pub open spec fn path_imports(importer: &ImportModels, fs: &HwFs, path: Seq<u8>) -> bool {
    layered(fs.0@, path) matches Ok(Some(f)) && import_ok(f, path, listed_views(importer.texture_list@))
}

/// Whether the texture file of `name` decodes.
pub open spec fn texture_decodes(fs: &HwFs, name: Seq<u8>) -> bool {
    layered(fs.0@, name + lif_extension()) matches Ok(Some(f)) && lif_ok(f)
}

/// `c` is the cache of the models at `paths`.
pub open spec fn loaded(importer: &ImportModels, fs: &HwFs, paths: Seq<Vec<u8>>, c: ModelCache, stale: Seq<Vec<bool>>) -> bool {
    exists|ms: Seq<Model>, ts: Seq<NamedTexture>| #[trigger] loaded_from(importer, fs, paths, c, stale, ms, ts)
}

impl ModelCache {
    /// Imports the models at `paths`, decodes each texture they name once,
    /// and merges them. Besides the cache it gives, model by model, what the
    /// patches found (see `ImportModels::load_model`).
    pub fn load(importer: &ImportModels, fs: &HwFs, paths: &Vec<Vec<u8>>) -> (r: Result<
        (ModelCache, Vec<Vec<bool>>),
        ImportError,
    >)
        ensures
            load_ok(importer, fs, paths@) ==> r is Ok,
            (exists|i: int| 0 <= i < paths@.len() && !#[trigger] path_imports(importer, fs, paths@[i]@))
                ==> r is Err,
            r is Ok ==> loaded(importer, fs, paths@, r->Ok_0.0, r->Ok_0.1@),
    {
        let mut models: Vec<Model> = Vec::new();
        let mut stale: Vec<Vec<bool>> = Vec::new();
        let mut names: Vec<Vec<u8>> = Vec::new();
        let mut i: usize = 0;
        while i < paths.len()
            invariant
                i <= paths@.len(),
                models@.len() == i,
                stale@.len() == i,
                forall|q: int| 0 <= q < i ==> #[trigger] imported(importer, fs, paths@[q]@, models@[q], stale@[q]@),
                forall|q: int| 0 <= q < i ==> #[trigger] path_imports(importer, fs, paths@[q]@),
                names@.map_values(|v: Vec<u8>| v@) == used_textures(models@),
            decreases paths@.len() - i,
        {
            let (model, s) = match importer.load_model(fs, paths[i].as_slice()) {
                Ok(x) => x,
                Err(e) => {
                    assert(!path_imports(importer, fs, paths@[i as int]@));
                    return Err(e);
                },
            };
            assert(path_imports(importer, fs, paths@[i as int]@));
            let ghost before = models@;
            let mut k: usize = 0;
            while k < model.materials.len()
                invariant
                    k <= model.materials@.len(),
                    names@.map_values(|v: Vec<u8>| v@) == texture_set(
                        all_material_names(before) + material_names(model.materials@).take(k as int),
                    ),
                decreases model.materials@.len() - k,
            {
                let ghost prefix = all_material_names(before) + material_names(model.materials@).take(k as int);
                let ghost x = opt_bytes(model.materials@[k as int].texture);
                assert(prefix.push(x) =~= all_material_names(before) + material_names(model.materials@).take(k + 1));
                assert(prefix.push(x).drop_last() == prefix);
                let ghost old_view = names@.map_values(|v: Vec<u8>| v@);
                if let Some(t) = &model.materials[k].texture {
                    let mut n: usize = 0;
                    while n < names.len() && !bytes_eq(names[n].as_slice(), t.as_slice())
                        invariant
                            n <= names@.len(),
                            forall|q: int| 0 <= q < n ==> names@[q]@ != t@,
                        decreases names@.len() - n,
                    {
                        n = n + 1;
                    }
                    if n == names.len() {
                        assert(!old_view.contains(t@));
                        names.push(crate::model::copy_bytes(t.as_slice()));
                        assert(names@.map_values(|v: Vec<u8>| v@) =~= old_view.push(t@));
                    } else {
                        assert(old_view[n as int] == t@);
                    }
                }
                k = k + 1;
            }
            assert(material_names(model.materials@).take(k as int) == material_names(model.materials@));
            assert(imported(importer, fs, paths@[i as int]@, model, s@));
            models.push(model);
            stale.push(s);
            assert(models@.drop_last() == before);
            i = i + 1;
        }
        let ghost ms = models@;
        let ghost st = stale@;
        assert(imported_all(importer, fs, paths@, ms, st));
        let mut textures: Vec<NamedTexture> = Vec::new();
        let mut n: usize = 0;
        while n < names.len()
            invariant
                n <= names@.len(),
                textures@.len() == n,
                imported_all(importer, fs, paths@, ms, st),
                names@.map_values(|v: Vec<u8>| v@) == used_textures(ms),
                forall|k: int| 0 <= k < n ==> #[trigger] decoded(fs, textures@[k].name@, textures@[k].texture),
                forall|k: int| 0 <= k < n ==> textures@[k].name@ == (#[trigger] names@[k])@,
            decreases names@.len() - n,
        {
            assert(used_textures(ms)[n as int] == names@[n as int]@);
            let texture = match importer.load_texture(fs, names[n].as_slice()) {
                Ok(t) => t,
                Err(e) => {
                    assert(!texture_decodes(fs, used_textures(ms)[n as int]));
                    return Err(e);
                },
            };
            let nt = NamedTexture { name: crate::model::copy_bytes(names[n].as_slice()), texture };
            assert(decoded(fs, nt.name@, nt.texture));
            textures.push(nt);
            n = n + 1;
        }
        let ghost ts = textures@;
        assert(texture_names(ts) =~= used_textures(ms)) by {
            assert forall|k: int| 0 <= k < ts.len() implies texture_names(ts)[k] == used_textures(ms)[k] by {
                assert(ts[k].name@ == names@[k]@);
            }
        }
        match ModelCache::new(models, textures) {
            Some(c) => {
                assert(loaded_from(importer, fs, paths@, c, stale@, ms, ts));
                Ok((c, stale))
            },
            None => Err(ImportError::TooLarge),
        }
    }
}

} // verus!
