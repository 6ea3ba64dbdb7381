//! Turning a decoded geometry file into triangle surfaces and nodes.
use vstd::prelude::*;

use crate::geo::{
    DOUBLE_SIDED, Geo, ImportError, MaterialFlags, PolyEntry, SELF_ILLUM, SMOOTHING, VertexEntry,
};
use crate::model::{Node, Vertex, copy_bytes, opt_bytes};
use crate::surface::Surface;
use crate::texlist::{ListedTexture, ListedView, find_texture, last_match, listed_views, lower, to_lower};

verus! {

/// Whether a byte separates path components.
pub open spec fn is_sep(b: u8) -> bool {
    b == 47 || b == 92
}

/// The index of the last separator in `p`, if any.
pub open spec fn last_sep(p: Seq<u8>) -> Option<int>
    decreases p.len(),
{
    if p.len() == 0 {
        None
    } else if is_sep(p.last()) {
        Some(p.len() - 1)
    } else {
        last_sep(p.drop_last())
    }
}

/// The folder of a path: every component but the last, joined by backslashes.
pub open spec fn folder_of(p: Seq<u8>) -> Seq<u8> {
    match last_sep(p) {
        Some(i) => p.subrange(0, i).map_values(|b: u8| if is_sep(b) { 92u8 } else { b }),
        None => seq![],
    }
}

/// Computes the folder of a path.
pub fn folder(path: &[u8]) -> (r: Vec<u8>)
    ensures
        r@ == folder_of(path@),
{
    let mut i: usize = path.len();
    assert(path@.take(i as int) == path@);
    while i > 0 && !(path[i - 1] == 47 || path[i - 1] == 92)
        invariant
            i <= path@.len(),
            last_sep(path@) == last_sep(path@.take(i as int)),
        decreases i,
    {
        assert(path@.take(i as int).drop_last() == path@.take(i - 1));
        i = i - 1;
    }
    if i == 0 {
        return Vec::new();
    }
    let end = i - 1;
    let mut r: Vec<u8> = Vec::new();
    let mut k: usize = 0;
    while k < end
        invariant
            k <= end,
            end < path@.len(),
            r@ == path@.subrange(0, k as int).map_values(|b: u8| if is_sep(b) { 92u8 } else { b }),
        decreases end - k,
    {
        let b = path[k];
        r.push(if b == 47 || b == 92 { 92 } else { b });
        k = k + 1;
        assert(path@.subrange(0, k as int).map_values(|b: u8| if is_sep(b) { 92u8 } else { b })
            =~= path@.subrange(0, k - 1).map_values(|b: u8| if is_sep(b) { 92u8 } else { b }).push(
            if is_sep(b) { 92u8 } else { b }));
    }
    r
}

/// The key under which a material's texture is listed: its folder and name,
/// lower-cased.
pub open spec fn texture_key(folder: Seq<u8>, name: Seq<u8>) -> Seq<u8> {
    lower(folder + seq![92u8] + name)
}

/// The index of the vertex that corner `i` of `pe` uses.
pub open spec fn corner(pe: PolyEntry, i: int) -> u16 {
    if i == 0 {
        pe.v0
    } else if i == 1 {
        pe.v1
    } else {
        pe.v2
    }
}

/// The texture coordinate pair of corner `i` of `pe`.
pub open spec fn corner_uv(pe: PolyEntry, i: int) -> Seq<u32> {
    if i == 0 {
        seq![pe.u0, pe.w0]
    } else if i == 1 {
        seq![pe.u1, pe.w1]
    } else {
        seq![pe.u2, pe.w2]
    }
}

/// Polygon `p` of object `j`.
pub open spec fn poly(g: Geo, j: int, p: int) -> PolyEntry {
    g.objects@[j].polygons@[p]
}

/// The index of the normal that corner `i` of polygon `p` of object `j` uses:
/// the vertex's own on smoothed materials, else the face normal.
pub open spec fn normal_index(g: Geo, j: int, p: int, i: int) -> int {
    let pe = poly(g, j, p);
    if g.materials@[pe.material_index as int].flags.0 & SMOOTHING == SMOOTHING {
        g.objects@[j].vertices@[corner(pe, i) as int].normal_index as int
    } else {
        pe.face_normal_index as int
    }
}

/// Whether polygon `p` of object `j` can be made a triangle: its material and
/// vertex and normal indices exist, and its texture, if any, is listed.
pub open spec fn tri_ok(g: Geo, list: Seq<ListedView>, folder: Seq<u8>, j: int, p: int) -> bool {
    let pe = poly(g, j, p);
    let o = g.objects@[j];
    &&& (pe.material_index as int) < g.materials@.len()
    &&& (pe.material_index as int) < g.material_textures@.len()
    &&& forall|i: int| 0 <= i < 3 ==> (#[trigger] corner(pe, i) as int) < o.vertices@.len()
    &&& forall|i: int| 0 <= i < 3 ==> 0 <= #[trigger] normal_index(g, j, p, i) < o.normals@.len()
    &&& match opt_bytes(g.material_textures@[pe.material_index as int]) {
        Some(t) => last_match(list, texture_key(folder, t)) is Some,
        None => true,
    }
}

/// Whether `v` holds the position `e`, the normal `n` and the coordinates `uv`.
pub open spec fn vertex_is(v: Vertex, e: VertexEntry, n: VertexEntry, uv: Seq<u32>) -> bool {
    &&& v.pos@ == seq![e.x, e.y, e.z]
    &&& v.normal@ == seq![n.x, n.y, n.z]
    &&& v.uv@ == uv
}

/// Whether `s` is the triangle made of polygon `p` of object `j`.
pub open spec fn tri_is(
    s: Surface,
    g: Geo,
    list: Seq<ListedView>,
    folder: Seq<u8>,
    j: int,
    p: int,
) -> bool {
    let pe = poly(g, j, p);
    let o = g.objects@[j];
    let mat = g.materials@[pe.material_index as int];
    &&& s.node == j
    &&& s.self_illum == (mat.flags.0 & SELF_ILLUM == SELF_ILLUM)
    &&& s.double_sided == (mat.flags.0 & DOUBLE_SIDED == DOUBLE_SIDED)
    &&& match opt_bytes(g.material_textures@[pe.material_index as int]) {
        Some(t) => {
            let e = list[last_match(list, texture_key(folder, t))->Some_0];
            &&& opt_bytes(s.texture) == Some(e.1)
            &&& s.alpha == e.5
            &&& s.team_colour == e.6
        },
        None => s.texture is None && !s.alpha && !s.team_colour,
    }
    &&& s.vertices@.len() == 3
    &&& forall|i: int|
        0 <= i < 3 ==> vertex_is(
            #[trigger] s.vertices@[i],
            o.vertices@[corner(pe, i) as int],
            o.normals@[normal_index(g, j, p, i)],
            corner_uv(pe, i),
        )
}

/// Makes a triangle of polygon `p` of object `j`.
pub fn make_triangle(g: &Geo, list: &Vec<ListedTexture>, folder: &[u8], j: usize, p: usize) -> (r:
    Result<Surface, ImportError>)
    requires
        j < g.objects@.len(),
        j <= u32::MAX,
        p < g.objects@[j as int].polygons@.len(),
    ensures
        r is Ok <==> tri_ok(*g, listed_views(list@), folder@, j as int, p as int),
        r is Ok ==> tri_is(r->Ok_0, *g, listed_views(list@), folder@, j as int, p as int),
{
    let o = &g.objects[j];
    let pe = o.polygons[p];
    let m = pe.material_index as usize;
    if m >= g.materials.len() || m >= g.material_textures.len() {
        return Err(ImportError::BadIndex);
    }
    let flags = g.materials[m].flags;
    let smooth = flags.contains(MaterialFlags(SMOOTHING));
    let (texture, alpha, team_colour) = match &g.material_textures[m] {
        Some(t) => {
            let mut full = copy_bytes(folder);
            full.push(92u8);
            let mut k: usize = 0;
            while k < t.len()
                invariant
                    k <= t@.len(),
                    full@ == folder@ + seq![92u8] + t@.subrange(0, k as int),
                decreases t@.len() - k,
            {
                full.push(t[k]);
                k = k + 1;
                assert(t@.subrange(0, k as int) == t@.subrange(0, k - 1).push(t@[k - 1]));
            }
            assert(t@.subrange(0, k as int) == t@);
            let key = to_lower(full.as_slice());
            match find_texture(list, key.as_slice()) {
                Some(i) => {
                    let meta = &list[i].meta;
                    assert(listed_views(list@)[i as int] == list@[i as int].view());
                    assert(key@ == texture_key(folder@, t@));
                    (Some(copy_bytes(meta.name.as_slice())), meta.alpha, meta.team_colour)
                },
                None => return Err(ImportError::UnknownTexture),
            }
        },
        None => (None, false, false),
    };
    let mut vertices: Vec<Vertex> = Vec::new();
    let mut i: usize = 0;
    while i < 3
        invariant
            i <= 3,
            j < g.objects@.len(),
            p < g.objects@[j as int].polygons@.len(),
            *o == g.objects@[j as int],
            pe == poly(*g, j as int, p as int),
            m == pe.material_index,
            m < g.materials@.len(),
            smooth == (g.materials@[m as int].flags.0 & SMOOTHING == SMOOTHING),
            vertices@.len() == i,
            forall|q: int| 0 <= q < i ==> (#[trigger] corner(pe, q) as int) < o.vertices@.len(),
            forall|q: int| 0 <= q < i ==> 0 <= #[trigger] normal_index(*g, j as int, p as int, q) < o.normals@.len(),
            forall|q: int|
                0 <= q < i ==> vertex_is(
                    #[trigger] vertices@[q],
                    o.vertices@[corner(pe, q) as int],
                    o.normals@[normal_index(*g, j as int, p as int, q)],
                    corner_uv(pe, q),
                ),
        decreases 3 - i,
    {
        let vi = if i == 0 { pe.v0 } else if i == 1 { pe.v1 } else { pe.v2 };
        let (u, w) = if i == 0 { (pe.u0, pe.w0) } else if i == 1 { (pe.u1, pe.w1) } else { (pe.u2, pe.w2) };
        assert(vi == corner(pe, i as int));
        if vi as usize >= o.vertices.len() {
            return Err(ImportError::BadIndex);
        }
        let e = o.vertices[vi as usize];
        let ni = if smooth { e.normal_index } else { pe.face_normal_index };
        assert(ni == normal_index(*g, j as int, p as int, i as int));
        if ni as usize >= o.normals.len() {
            return Err(ImportError::BadIndex);
        }
        let n = o.normals[ni as usize];
        let v = Vertex { pos: [e.x, e.y, e.z], normal: [n.x, n.y, n.z], uv: [u, w] };
        assert(v.pos@ == seq![e.x, e.y, e.z]);
        assert(v.normal@ == seq![n.x, n.y, n.z]);
        assert(v.uv@ == corner_uv(pe, i as int));
        vertices.push(v);
        i = i + 1;
    }
    Ok(
        Surface {
            node: j as u32,
            texture,
            self_illum: flags.contains(MaterialFlags(SELF_ILLUM)),
            double_sided: flags.contains(MaterialFlags(DOUBLE_SIDED)),
            alpha,
            team_colour,
            vertices,
        },
    )
}

/// The (object, polygon) index pairs of a list of objects, in order.
pub open spec fn tri_pairs(objs: Seq<crate::geo::PolygonObject>) -> Seq<(int, int)>
    decreases objs.len(),
{
    if objs.len() == 0 {
        seq![]
    } else {
        tri_pairs(objs.drop_last()) + Seq::new(
            objs.last().polygons@.len(),
            |p: int| (objs.len() - 1, p),
        )
    }
}

/// Whether every polygon of `g` can be made a triangle.
pub open spec fn all_tris_ok(g: Geo, list: Seq<ListedView>, folder: Seq<u8>) -> bool {
    let pairs = tri_pairs(g.objects@);
    forall|t: int| 0 <= t < pairs.len() ==> tri_ok(g, list, folder, #[trigger] pairs[t].0, pairs[t].1)
}

/// `nodes` are the nodes of `g`'s objects and `tris` their triangles, object by
/// object and polygon by polygon.
pub open spec fn assembled(
    g: Geo,
    list: Seq<ListedView>,
    folder: Seq<u8>,
    nodes: Seq<Node>,
    tris: Seq<Surface>,
) -> bool {
    let pairs = tri_pairs(g.objects@);
    &&& nodes.len() == g.objects@.len()
    &&& forall|j: int|
        0 <= j < nodes.len() ==> (#[trigger] nodes[j]).parent == g.objects@[j].mother
            && nodes[j].transform == g.objects@[j].transform
    &&& tris.len() == pairs.len()
    &&& forall|t: int|
        0 <= t < tris.len() ==> tri_is(#[trigger] tris[t], g, list, folder, pairs[t].0, pairs[t].1)
}

pub(crate) proof fn lemma_tri_pairs_bounds(objs: Seq<crate::geo::PolygonObject>)
    ensures
        forall|t: int|
            0 <= t < tri_pairs(objs).len() ==> 0 <= #[trigger] tri_pairs(objs)[t].0 < objs.len()
                && 0 <= tri_pairs(objs)[t].1 < objs[tri_pairs(objs)[t].0].polygons@.len(),
    decreases objs.len(),
{
    if objs.len() > 0 {
        lemma_tri_pairs_bounds(objs.drop_last());
    }
}

/// The `t`-th pair of `tri_pairs(objs)`.
pub open spec fn pairs_at(objs: Seq<crate::geo::PolygonObject>, t: int) -> (int, int) {
    tri_pairs(objs)[t]
}

/// Polygon `pr.1` of object `pr.0` can be made a triangle, and `s` is it.
pub open spec fn tri_good(s: Surface, g: Geo, list: Seq<ListedView>, folder: Seq<u8>, pr: (int, int)) -> bool {
    tri_ok(g, list, folder, pr.0, pr.1) && tri_is(s, g, list, folder, pr.0, pr.1)
}

/// Makes the nodes and the triangles of every object of `g`.
pub fn assemble(g: &Geo, list: &Vec<ListedTexture>, folder: &[u8]) -> (r: Result<
    (Vec<Node>, Vec<Surface>),
    ImportError,
>)
    requires
        g.objects@.len() <= u32::MAX,
    ensures
        r is Ok <==> all_tris_ok(*g, listed_views(list@), folder@),
        r is Ok ==> assembled(*g, listed_views(list@), folder@, r->Ok_0.0@, r->Ok_0.1@),
{
    let ghost lv = listed_views(list@);
    let mut nodes: Vec<Node> = Vec::new();
    let mut tris: Vec<Surface> = Vec::new();
    let mut j: usize = 0;
    while j < g.objects.len()
        invariant
            j <= g.objects@.len() <= u32::MAX,
            lv == listed_views(list@),
            nodes@.len() == j,
            forall|q: int|
                0 <= q < j ==> (#[trigger] nodes@[q]).parent == g.objects@[q].mother
                    && nodes@[q].transform == g.objects@[q].transform,
            tris@.len() == tri_pairs(g.objects@.take(j as int)).len(),
            forall|t: int|
                0 <= t < tris@.len() ==> tri_good(#[trigger] tris@[t], *g, lv, folder@, tri_pairs(g.objects@.take(j as int))[t]),
        decreases g.objects@.len() - j,
    {
        let o = &g.objects[j];
        nodes.push(Node { parent: o.mother, transform: o.transform });
        let ghost before = tri_pairs(g.objects@.take(j as int));
        assert(g.objects@.take(j + 1).drop_last() == g.objects@.take(j as int));
        assert(g.objects@.take(j + 1).last() == g.objects@[j as int]);
        let mut p: usize = 0;
        while p < o.polygons.len()
            invariant
                j < g.objects@.len() <= u32::MAX,
                *o == g.objects@[j as int],
                p <= o.polygons@.len(),
                lv == listed_views(list@),
                before == tri_pairs(g.objects@.take(j as int)),
                tris@.len() == before.len() + p,
                forall|t: int| 0 <= t < before.len() ==> tri_good(#[trigger] tris@[t], *g, lv, folder@, before[t]),
                forall|t: int|
                    before.len() <= t < tris@.len() ==> tri_good(#[trigger] tris@[t], *g, lv, folder@, (j as int, t - before.len())),
            decreases o.polygons@.len() - p,
        {
            match make_triangle(g, list, folder, j, p) {
                Ok(s) => tris.push(s),
                Err(e) => {
                    proof {
                        let pairs = tri_pairs(g.objects@);
                        let t = before.len() + p;
                        lemma_tri_pairs_take(g.objects@, j as int);
                        assert(pairs[t] == (j as int, p as int));
                    }
                    assert(!tri_ok(*g, lv, folder@, pairs_at(g.objects@, before.len() + p).0, pairs_at(g.objects@, before.len() + p).1));
                    return Err(e);
                },
            }
            p = p + 1;
        }
        j = j + 1;
        assert forall|t: int| 0 <= t < tris@.len() implies tri_good(#[trigger] tris@[t], *g, lv, folder@, tri_pairs(g.objects@.take(j as int))[t]) by {
            if t >= before.len() {
                assert(tri_pairs(g.objects@.take(j as int))[t] == (j - 1, t - before.len()));
            } else {
                assert(tri_pairs(g.objects@.take(j as int))[t] == before[t]);
            }
        }
    }
    assert(g.objects@.take(j as int) == g.objects@);
    proof {
        lemma_tri_pairs_bounds(g.objects@);
    }
    assert forall|t: int| 0 <= t < tri_pairs(g.objects@).len() implies tri_ok(
        *g,
        lv,
        folder@,
        #[trigger] tri_pairs(g.objects@)[t].0,
        tri_pairs(g.objects@)[t].1,
    ) by {
        assert(tri_good(tris@[t], *g, lv, folder@, tri_pairs(g.objects@)[t]));
    }
    Ok((nodes, tris))
}

/// The pairs of the first `j` objects begin the pairs of all objects, and the
/// pairs of object `j` follow them.
proof fn lemma_tri_pairs_take(objs: Seq<crate::geo::PolygonObject>, j: int)
    requires
        0 <= j < objs.len(),
    ensures
        tri_pairs(objs.take(j)).len() + objs[j].polygons@.len() <= tri_pairs(objs).len(),
        forall|t: int|
            0 <= t < tri_pairs(objs.take(j)).len() ==> #[trigger] tri_pairs(objs)[t] == tri_pairs(
                objs.take(j),
            )[t],
        forall|p: int|
            0 <= p < objs[j].polygons@.len() ==> #[trigger] tri_pairs(objs)[tri_pairs(
                objs.take(j),
            ).len() + p] == (j, p),
    decreases objs.len(),
{
    if j == objs.len() - 1 {
        assert(objs.drop_last() == objs.take(j));
    } else {
        let sh = objs.drop_last();
        lemma_tri_pairs_take(sh, j);
        assert(sh.take(j) == objs.take(j));
        assert(sh[j] == objs[j]);
    }
}

} // verus!
