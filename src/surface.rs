//! Triangle surfaces, their sort key, the merge of surfaces that share a key,
//! and the emission of meshes and materials.
use vstd::prelude::*;

use crate::model::{
    Material, Mesh, Model, Node, Vertex, copy_opt_bytes, material_names, opt_bytes, opt_bytes_eq,
};

verus! {

/// A batch of triangles (three vertices each) that share one node, texture and
/// set of render flags.
pub struct Surface {
    pub node: u32,
    pub texture: Option<Vec<u8>>,
    pub self_illum: bool,
    pub double_sided: bool,
    pub alpha: bool,
    pub team_colour: bool,
    pub vertices: Vec<Vertex>,
}

/// The tuple that surfaces are sorted and merged by.
pub type SurfaceKey = (u32, Option<Seq<u8>>, bool, bool, bool, bool);

impl Surface {
    pub open spec fn key(&self) -> SurfaceKey {
        (
            self.node,
            opt_bytes(self.texture),
            self.self_illum,
            self.double_sided,
            self.alpha,
            self.team_colour,
        )
    }
}

/// Lexicographic order of byte strings (a proper prefix comes first).
pub open spec fn bytes_lt(a: Seq<u8>, b: Seq<u8>) -> bool
    decreases a.len(),
{
    if a.len() == 0 {
        b.len() > 0
    } else if b.len() == 0 {
        false
    } else if a[0] != b[0] {
        a[0] < b[0]
    } else {
        bytes_lt(a.drop_first(), b.drop_first())
    }
}

/// `None` comes before every name.
pub open spec fn opt_lt(a: Option<Seq<u8>>, b: Option<Seq<u8>>) -> bool {
    match (a, b) {
        (None, Some(_)) => true,
        (Some(x), Some(y)) => bytes_lt(x, y),
        _ => false,
    }
}

/// `false` comes before `true`.
pub open spec fn bool_lt(a: bool, b: bool) -> bool {
    !a && b
}

/// The order of surface keys: by node, then texture, then each flag in turn.
pub open spec fn key_lt(a: SurfaceKey, b: SurfaceKey) -> bool {
    if a.0 != b.0 {
        a.0 < b.0
    } else if a.1 != b.1 {
        opt_lt(a.1, b.1)
    } else if a.2 != b.2 {
        bool_lt(a.2, b.2)
    } else if a.3 != b.3 {
        bool_lt(a.3, b.3)
    } else if a.4 != b.4 {
        bool_lt(a.4, b.4)
    } else {
        bool_lt(a.5, b.5)
    }
}

proof fn lemma_bytes_lt_irreflexive(a: Seq<u8>)
    ensures
        !bytes_lt(a, a),
    decreases a.len(),
{
    if a.len() > 0 {
        lemma_bytes_lt_irreflexive(a.drop_first());
    }
}

proof fn lemma_bytes_lt_total(a: Seq<u8>, b: Seq<u8>)
    ensures
        a == b || bytes_lt(a, b) || bytes_lt(b, a),
    decreases a.len(),
{
    if a.len() == 0 && b.len() == 0 {
        assert(a =~= b);
    } else if a.len() > 0 && b.len() > 0 && a[0] == b[0] {
        let (ta, tb) = (a.drop_first(), b.drop_first());
        lemma_bytes_lt_total(ta, tb);
        if ta == tb {
            assert forall|i: int| 0 <= i < a.len() implies a[i] == b[i] by {
                if i > 0 {
                    assert(a[i] == ta[i - 1]);
                    assert(b[i] == tb[i - 1]);
                }
            }
            assert(a =~= b);
        }
    }
}

proof fn lemma_bytes_lt_asymmetric(a: Seq<u8>, b: Seq<u8>)
    ensures
        !(bytes_lt(a, b) && bytes_lt(b, a)),
    decreases a.len(),
{
    if a.len() > 0 && b.len() > 0 && a[0] == b[0] {
        lemma_bytes_lt_asymmetric(a.drop_first(), b.drop_first());
    }
}

proof fn lemma_bytes_lt_transitive(a: Seq<u8>, b: Seq<u8>, c: Seq<u8>)
    requires
        bytes_lt(a, b),
        bytes_lt(b, c),
    ensures
        bytes_lt(a, c),
    decreases a.len(),
{
    if a.len() > 0 && b.len() > 0 && c.len() > 0 && a[0] == b[0] && b[0] == c[0] {
        lemma_bytes_lt_transitive(a.drop_first(), b.drop_first(), c.drop_first());
    }
}

/// The key order is a strict total order.
pub proof fn lemma_key_lt_total(a: SurfaceKey, b: SurfaceKey)
    ensures
        a == b || key_lt(a, b) || key_lt(b, a),
        !(key_lt(a, b) && key_lt(b, a)),
        !key_lt(a, a),
{
    match (a.1, b.1) {
        (Some(x), Some(y)) => {
            lemma_bytes_lt_total(x, y);
            lemma_bytes_lt_asymmetric(x, y);
        },
        _ => {},
    }
    match a.1 {
        Some(x) => lemma_bytes_lt_irreflexive(x),
        None => {},
    }
}

/// The key order is transitive.
pub proof fn lemma_key_lt_transitive(a: SurfaceKey, b: SurfaceKey, c: SurfaceKey)
    requires
        key_lt(a, b),
        key_lt(b, c),
    ensures
        key_lt(a, c),
{
    lemma_key_lt_total(a, b);
    lemma_key_lt_total(b, c);
    lemma_key_lt_total(a, c);
    match (a.1, b.1, c.1) {
        (Some(x), Some(y), Some(z)) => {
            if bytes_lt(x, y) && bytes_lt(y, z) {
                lemma_bytes_lt_transitive(x, y, z);
            }
            lemma_bytes_lt_asymmetric(x, y);
            lemma_bytes_lt_asymmetric(y, z);
            lemma_bytes_lt_asymmetric(x, z);
            lemma_bytes_lt_total(x, z);
            if bytes_lt(z, x) && bytes_lt(x, y) {
                lemma_bytes_lt_transitive(z, x, y);
            }
            if bytes_lt(y, z) && bytes_lt(z, x) {
                lemma_bytes_lt_transitive(y, z, x);
            }
        },
        _ => {},
    }
}

/// Compares two byte strings in lexicographic order.
pub fn bytes_less(a: &[u8], b: &[u8]) -> (r: bool)
    ensures
        r == bytes_lt(a@, b@),
{
    let mut i: usize = 0;
    assert(a@.skip(0) == a@);
    assert(b@.skip(0) == b@);
    while i < a.len() && i < b.len()
        invariant
            i <= a@.len(),
            i <= b@.len(),
            a@.subrange(0, i as int) == b@.subrange(0, i as int),
            bytes_lt(a@, b@) == bytes_lt(a@.skip(i as int), b@.skip(i as int)),
        decreases a@.len() - i,
    {
        if a[i] != b[i] {
            return a[i] < b[i];
        }
        assert(a@.skip(i as int).drop_first() == a@.skip(i + 1));
        assert(b@.skip(i as int).drop_first() == b@.skip(i + 1));
        i = i + 1;
        assert(a@.subrange(0, i as int) == a@.subrange(0, i - 1).push(a@[i - 1]));
        assert(b@.subrange(0, i as int) == b@.subrange(0, i - 1).push(b@[i - 1]));
    }
    i < b.len()
}

/// Compares two optional names: `None` first.
pub fn opt_bytes_less(a: &Option<Vec<u8>>, b: &Option<Vec<u8>>) -> (r: bool)
    ensures
        r == opt_lt(opt_bytes(*a), opt_bytes(*b)),
{
    match (a, b) {
        (None, Some(_)) => true,
        (Some(x), Some(y)) => bytes_less(x.as_slice(), y.as_slice()),
        _ => false,
    }
}

impl Surface {
    /// Whether two surfaces share their key, and so may be merged.
    pub fn can_merge(&self, other: &Surface) -> (r: bool)
        ensures
            r == (self.key() == other.key()),
    {
        self.node == other.node && opt_bytes_eq(&self.texture, &other.texture) && self.self_illum
            == other.self_illum && self.double_sided == other.double_sided && self.alpha
            == other.alpha && self.team_colour == other.team_colour
    }

    /// Whether this surface sorts before `other`.
    pub fn sorts_before(&self, other: &Surface) -> (r: bool)
        ensures
            r == key_lt(self.key(), other.key()),
    {
        if self.node != other.node {
            return self.node < other.node;
        }
        if !opt_bytes_eq(&self.texture, &other.texture) {
            return opt_bytes_less(&self.texture, &other.texture);
        }
        if self.self_illum != other.self_illum {
            return !self.self_illum;
        }
        if self.double_sided != other.double_sided {
            return !self.double_sided;
        }
        if self.alpha != other.alpha {
            return !self.alpha;
        }
        !self.team_colour && other.team_colour
    }
}

/// The vertices of every surface of `s` whose key is `k`, in their order.
pub open spec fn group_vertices(s: Seq<Surface>, k: SurfaceKey) -> Seq<Vertex>
    decreases s.len(),
{
    if s.len() == 0 {
        seq![]
    } else {
        let prev = group_vertices(s.drop_last(), k);
        if s.last().key() == k {
            prev + s.last().vertices@
        } else {
            prev
        }
    }
}

/// Some surface of `r` has key `k`.
pub open spec fn key_in(r: Seq<Surface>, k: SurfaceKey) -> bool {
    exists|i: int| 0 <= i < r.len() && #[trigger] r[i].key() == k
}

/// `r` merges `s`: it holds one surface for each key that occurs in `s`, in
/// ascending key order, and that surface holds the vertices of all surfaces of
/// `s` with its key, in their order in `s`.
pub open spec fn is_merge_of(r: Seq<Surface>, s: Seq<Surface>) -> bool {
    &&& forall|i: int, j: int| 0 <= i < j < r.len() ==> key_lt(r[i].key(), r[j].key())
    &&& forall|t: int| 0 <= t < s.len() ==> #[trigger] key_in(r, s[t].key())
    &&& forall|i: int| 0 <= i < r.len() ==> #[trigger] key_in(s, r[i].key())
    &&& forall|i: int| 0 <= i < r.len() ==> r[i].vertices@ == group_vertices(s, r[i].key())
}

/// Appends a run of vertices.
pub fn append_vertices(dst: &mut Vec<Vertex>, src: &[Vertex])
    ensures
        final(dst)@ == old(dst)@ + src@,
{
    let mut i: usize = 0;
    while i < src.len()
        invariant
            i <= src@.len(),
            dst@ == old(dst)@ + src@.subrange(0, i as int),
        decreases src@.len() - i,
    {
        dst.push(src[i]);
        i = i + 1;
        assert(src@.subrange(0, i as int) == src@.subrange(0, i - 1).push(src@[i - 1]));
    }
    assert(src@.subrange(0, i as int) == src@);
}

/// Some index of `r` points at a surface of `s` with key `k`.
pub open spec fn has_key_at(r: Seq<usize>, s: Seq<Surface>, k: SurfaceKey) -> bool {
    exists|j: int| 0 <= j < r.len() && #[trigger] s[r[j] as int].key() == k
}

/// Every key of `s` is that of a surface that `r` points at.
pub open spec fn covers_keys(r: Seq<usize>, s: Seq<Surface>) -> bool {
    forall|u: int| 0 <= u < s.len() ==> #[trigger] has_key_at(r, s, s[u].key())
}

/// The indices of the first surface of each key, in ascending key order.
fn key_representatives(tris: &Vec<Surface>) -> (r: Vec<usize>)
    ensures
        forall|j: int| 0 <= j < r@.len() ==> r@[j] < tris@.len(),
        forall|i: int, j: int|
            0 <= i < j < r@.len() ==> key_lt(
                tris@[r@[i] as int].key(),
                tris@[r@[j] as int].key(),
            ),
        covers_keys(r@, tris@),
{
    let mut reps: Vec<usize> = Vec::new();
    let ghost mut at: Seq<int> = seq![];
    let mut t: usize = 0;
    while t < tris.len()
        invariant
            t <= tris@.len(),
            at.len() == t,
            forall|j: int| 0 <= j < reps@.len() ==> reps@[j] < tris@.len(),
            forall|i: int, j: int|
                0 <= i < j < reps@.len() ==> key_lt(
                    tris@[reps@[i] as int].key(),
                    tris@[reps@[j] as int].key(),
                ),
            forall|u: int|
                0 <= u < t ==> 0 <= #[trigger] at[u] < reps@.len() && tris@[reps@[at[u]] as int].key()
                    == tris@[u].key(),
        decreases tris@.len() - t,
    {
        let ghost kt = tris@[t as int].key();
        let mut j: usize = 0;
        while j < reps.len() && tris[reps[j]].sorts_before(&tris[t])
            invariant
                j <= reps@.len(),
                t < tris@.len(),
                kt == tris@[t as int].key(),
                forall|i: int| 0 <= i < reps@.len() ==> reps@[i] < tris@.len(),
                forall|i: int| 0 <= i < j ==> key_lt(tris@[reps@[i] as int].key(), kt),
            decreases reps@.len() - j,
        {
            j = j + 1;
        }
        if j < reps.len() && tris[reps[j]].can_merge(&tris[t]) {
            proof {
                at = at.push(j as int);
            }
        } else {
            let ghost old_reps = reps@;
            let ghost old_at = at;
            proof {
                if j < reps@.len() {
                    lemma_key_lt_total(tris@[reps@[j as int] as int].key(), kt);
                }
            }
            reps.insert(j, t);
            assert(reps@ == old_reps.insert(j as int, t));
            proof {
                at = old_at.map_values(|p: int| if p >= j { p + 1 } else { p }).push(j as int);
            }
            assert forall|u: int| 0 <= u < t + 1 implies 0 <= #[trigger] at[u] < reps@.len()
                && tris@[reps@[at[u]] as int].key() == tris@[u].key() by {
                if u < t {
                    if old_at[u] >= j {
                        assert(reps@[old_at[u] + 1] == old_reps[old_at[u]]);
                    } else {
                        assert(reps@[old_at[u]] == old_reps[old_at[u]]);
                    }
                }
            }
            assert forall|b: int| j < b < reps@.len() implies key_lt(
                kt,
                #[trigger] tris@[reps@[b] as int].key(),
            ) by {
                assert(reps@[b] == old_reps[b - 1]);
                if b - 1 > j {
                    lemma_key_lt_transitive(
                        kt,
                        tris@[old_reps[j as int] as int].key(),
                        tris@[old_reps[b - 1] as int].key(),
                    );
                }
            }
            assert forall|a: int, b: int| 0 <= a < b < reps@.len() implies key_lt(
                tris@[reps@[a] as int].key(),
                tris@[reps@[b] as int].key(),
            ) by {
                if b < j {
                } else if b == j {
                } else if a < j {
                    lemma_key_lt_transitive(
                        tris@[reps@[a] as int].key(),
                        kt,
                        tris@[reps@[b] as int].key(),
                    );
                } else if a == j {
                } else {
                    assert(reps@[a] == old_reps[a - 1]);
                    assert(reps@[b] == old_reps[b - 1]);
                }
            }
        }
        t = t + 1;
    }
    assert forall|u: int| 0 <= u < tris@.len() implies #[trigger] has_key_at(reps@, tris@, tris@[u].key()) by {
        assert(0 <= at[u] < reps@.len());
        assert(tris@[reps@[at[u]] as int].key() == tris@[u].key());
    }
    reps
}

/// Collects the vertices of every surface whose key equals `rep`'s.
fn gather_group(tris: &Vec<Surface>, rep: &Surface) -> (r: Vec<Vertex>)
    ensures
        r@ == group_vertices(tris@, rep.key()),
{
    let mut r: Vec<Vertex> = Vec::new();
    let mut u: usize = 0;
    while u < tris.len()
        invariant
            u <= tris@.len(),
            r@ == group_vertices(tris@.take(u as int), rep.key()),
        decreases tris@.len() - u,
    {
        assert(tris@.take(u + 1).drop_last() == tris@.take(u as int));
        if tris[u].can_merge(rep) {
            append_vertices(&mut r, tris[u].vertices.as_slice());
        }
        u = u + 1;
    }
    assert(tris@.take(u as int) == tris@);
    r
}

/// Merges all surfaces that share a key into one, ordered by key.
pub fn merge_surfaces(tris: &Vec<Surface>) -> (r: Vec<Surface>)
    ensures
        is_merge_of(r@, tris@),
{
    let reps = key_representatives(tris);
    let mut r: Vec<Surface> = Vec::new();
    let mut j: usize = 0;
    while j < reps.len()
        invariant
            j <= reps@.len(),
            r@.len() == j,
            forall|i: int| 0 <= i < reps@.len() ==> reps@[i] < tris@.len(),
            forall|i: int|
                0 <= i < j ==> r@[i].key() == tris@[reps@[i] as int].key()
                    && r@[i].vertices@ == group_vertices(tris@, r@[i].key()),
        decreases reps@.len() - j,
    {
        let rep = &tris[reps[j]];
        let vertices = gather_group(tris, rep);
        r.push(
            Surface {
                node: rep.node,
                texture: copy_opt_bytes(&rep.texture),
                self_illum: rep.self_illum,
                double_sided: rep.double_sided,
                alpha: rep.alpha,
                team_colour: rep.team_colour,
                vertices,
            },
        );
        j = j + 1;
    }
    assert forall|a: int, b: int| 0 <= a < b < r@.len() implies key_lt(
        #[trigger] r@[a].key(),
        #[trigger] r@[b].key(),
    ) by {
        assert(r@[a].key() == tris@[reps@[a] as int].key());
        assert(r@[b].key() == tris@[reps@[b] as int].key());
    }
    assert forall|i: int| 0 <= i < r@.len() implies #[trigger] key_in(tris@, r@[i].key()) by {
        assert(tris@[reps@[i] as int].key() == r@[i].key());
    }
    assert forall|t: int| 0 <= t < tris@.len() implies #[trigger] key_in(r@, tris@[t].key()) by {
        assert(has_key_at(reps@, tris@, tris@[t].key()));
        let w = choose|i: int|
            0 <= i < reps@.len() && #[trigger] tris@[reps@[i] as int].key() == tris@[t].key();
        assert(r@[w].key() == tris@[t].key());
    }
    r
}

/// The keys of a list of surfaces.
pub open spec fn keys_of(r: Seq<Surface>) -> Seq<SurfaceKey> {
    r.map_values(|x: Surface| x.key())
}

/// The number of vertices that the groups of the keys `ks` hold in `s`.
pub open spec fn group_count(s: Seq<Surface>, ks: Seq<SurfaceKey>) -> int
    decreases ks.len(),
{
    if ks.len() == 0 {
        0
    } else {
        group_count(s, ks.drop_last()) + group_vertices(s, ks.last()).len()
    }
}

/// Whether no key occurs twice in `ks`.
pub open spec fn distinct_keys(ks: Seq<SurfaceKey>) -> bool {
    forall|i: int, j: int| 0 <= i < j < ks.len() ==> ks[i] != ks[j]
}

proof fn lemma_group_count_empty(s: Seq<Surface>, ks: Seq<SurfaceKey>)
    requires
        s.len() == 0,
    ensures
        group_count(s, ks) == 0,
    decreases ks.len(),
{
    if ks.len() > 0 {
        lemma_group_count_empty(s, ks.drop_last());
    }
}

proof fn lemma_group_count_step(s: Seq<Surface>, ks: Seq<SurfaceKey>)
    requires
        s.len() > 0,
        distinct_keys(ks),
    ensures
        group_count(s, ks) == group_count(s.drop_last(), ks) + (if ks.contains(s.last().key()) {
            s.last().vertices@.len() as int
        } else {
            0
        }),
    decreases ks.len(),
{
    if ks.len() > 0 {
        let kd = ks.drop_last();
        assert(distinct_keys(kd));
        lemma_group_count_step(s, kd);
        if ks.contains(s.last().key()) {
            let w = choose|i: int| 0 <= i < ks.len() && ks[i] == s.last().key();
            if w < ks.len() - 1 {
                assert(kd[w] == s.last().key());
                assert(ks.last() != s.last().key());
            }
        }
        if kd.contains(s.last().key()) {
            let w = choose|i: int| 0 <= i < kd.len() && kd[i] == s.last().key();
            assert(ks[w] == s.last().key());
        }
    }
}

proof fn lemma_group_count_total(s: Seq<Surface>, ks: Seq<SurfaceKey>)
    requires
        distinct_keys(ks),
        forall|t: int| 0 <= t < s.len() ==> ks.contains(#[trigger] s[t].key()),
    ensures
        group_count(s, ks) == vertex_count(s),
    decreases s.len(),
{
    if s.len() == 0 {
        lemma_group_count_empty(s, ks);
    } else {
        let sd = s.drop_last();
        assert forall|t: int| 0 <= t < sd.len() implies ks.contains(#[trigger] sd[t].key()) by {
            assert(sd[t] == s[t]);
        }
        lemma_group_count_total(sd, ks);
        lemma_group_count_step(s, ks);
        assert(ks.contains(s[s.len() - 1].key()));
    }
}

proof fn lemma_vertex_count_groups(r: Seq<Surface>, s: Seq<Surface>)
    requires
        forall|i: int| 0 <= i < r.len() ==> (#[trigger] r[i]).vertices@ == group_vertices(s, r[i].key()),
    ensures
        vertex_count(r) == group_count(s, keys_of(r)),
    decreases r.len(),
{
    if r.len() > 0 {
        let rd = r.drop_last();
        assert forall|i: int| 0 <= i < rd.len() implies (#[trigger] rd[i]).vertices@ == group_vertices(s, rd[i].key()) by {
            assert(rd[i] == r[i]);
        }
        lemma_vertex_count_groups(rd, s);
        assert(keys_of(r).drop_last() == keys_of(rd));
        assert(keys_of(r).last() == r.last().key());
    }
}

proof fn lemma_group_holds(s: Seq<Surface>, t: int)
    requires
        0 <= t < s.len(),
    ensures
        group_vertices(s, s[t].key()).len() >= s[t].vertices@.len(),
    decreases s.len(),
{
    let k = s[t].key();
    if t < s.len() - 1 {
        lemma_group_holds(s.drop_last(), t);
        assert(s.drop_last()[t] == s[t]);
    }
}

proof fn lemma_len_le_count(r: Seq<Surface>)
    requires
        forall|i: int| 0 <= i < r.len() ==> (#[trigger] r[i]).vertices@.len() >= 1,
    ensures
        r.len() <= vertex_count(r),
    decreases r.len(),
{
    if r.len() > 0 {
        let rd = r.drop_last();
        assert forall|i: int| 0 <= i < rd.len() implies (#[trigger] rd[i]).vertices@.len() >= 1 by {
            assert(rd[i] == r[i]);
        }
        lemma_len_le_count(rd);
    }
}

/// Merging keeps every vertex: the merged surfaces hold as many vertices as
/// the surfaces they merge, and, where each of those holds one at least, are
/// no more in number than that count.
pub proof fn lemma_merge_counts(r: Seq<Surface>, s: Seq<Surface>)
    requires
        is_merge_of(r, s),
    ensures
        vertex_count(r) == vertex_count(s),
        (forall|t: int| 0 <= t < s.len() ==> (#[trigger] s[t]).vertices@.len() >= 1) ==> r.len()
            <= vertex_count(s),
{
    let ks = keys_of(r);
    assert forall|i: int, j: int| 0 <= i < j < ks.len() implies ks[i] != ks[j] by {
        lemma_key_lt_total(ks[i], ks[j]);
    }
    assert forall|t: int| 0 <= t < s.len() implies ks.contains(#[trigger] s[t].key()) by {
        assert(key_in(r, s[t].key()));
        let w = choose|i: int| 0 <= i < r.len() && #[trigger] r[i].key() == s[t].key();
        assert(ks[w] == s[t].key());
    }
    lemma_group_count_total(s, ks);
    lemma_vertex_count_groups(r, s);
    if forall|t: int| 0 <= t < s.len() ==> (#[trigger] s[t]).vertices@.len() >= 1 {
        assert forall|i: int| 0 <= i < r.len() implies (#[trigger] r[i]).vertices@.len() >= 1 by {
            assert(key_in(s, r[i].key()));
            let w = choose|t: int| 0 <= t < s.len() && #[trigger] s[t].key() == r[i].key();
            lemma_group_holds(s, w);
        }
        lemma_len_le_count(r);
    }
}

/// The distinct elements of `s`, in order of first appearance.
pub open spec fn dedup_names(s: Seq<Option<Seq<u8>>>) -> Seq<Option<Seq<u8>>>
    decreases s.len(),
{
    if s.len() == 0 {
        seq![]
    } else {
        let d = dedup_names(s.drop_last());
        if d.contains(s.last()) {
            d
        } else {
            d.push(s.last())
        }
    }
}

/// The texture names of a list of surfaces.
pub open spec fn surface_names(s: Seq<Surface>) -> Seq<Option<Seq<u8>>> {
    s.map_values(|x: Surface| opt_bytes(x.texture))
}

/// The number of vertices in a list of surfaces.
pub open spec fn vertex_count(s: Seq<Surface>) -> int
    decreases s.len(),
{
    if s.len() == 0 {
        0
    } else {
        vertex_count(s.drop_last()) + s.last().vertices@.len()
    }
}

/// The vertices of a list of surfaces, one surface after the other.
pub open spec fn all_vertices(s: Seq<Surface>) -> Seq<Vertex>
    decreases s.len(),
{
    if s.len() == 0 {
        seq![]
    } else {
        all_vertices(s.drop_last()) + s.last().vertices@
    }
}

pub(crate) proof fn lemma_vertex_count_prefix(s: Seq<Surface>, i: int)
    requires
        0 <= i <= s.len(),
    ensures
        0 <= vertex_count(s.take(i)) <= vertex_count(s),
        all_vertices(s.take(i)).len() == vertex_count(s.take(i)),
    decreases s.len() - i,
{
    if i < s.len() {
        lemma_vertex_count_prefix(s, i + 1);
        assert(s.take(i + 1).drop_last() == s.take(i));
    } else {
        assert(s.take(i) == s);
    }
    lemma_vertex_count_nonneg(s.take(i));
}

proof fn lemma_vertex_count_nonneg(s: Seq<Surface>)
    ensures
        vertex_count(s) >= 0,
        all_vertices(s).len() == vertex_count(s),
    decreases s.len(),
{
    if s.len() > 0 {
        lemma_vertex_count_nonneg(s.drop_last());
    }
}

/// `m` is the model built from `surfaces` and `nodes`: one mesh per surface,
/// in order, over consecutive vertex runs; one material per distinct texture
/// name, in order of first use.
pub open spec fn is_model_of(m: Model, surfaces: Seq<Surface>, nodes: Seq<Node>) -> bool {
    &&& m.nodes@ == nodes
    &&& m.vertices@ == all_vertices(surfaces)
    &&& material_names(m.materials@) == dedup_names(surface_names(surfaces))
    &&& m.meshes@.len() == surfaces.len()
    &&& forall|i: int|
        0 <= i < surfaces.len() ==> {
            let mesh = #[trigger] m.meshes@[i];
            &&& mesh.first_vertex == vertex_count(surfaces.take(i))
            &&& mesh.num_vertices == surfaces[i].vertices@.len()
            &&& mesh.node == surfaces[i].node
            &&& mesh.material < m.materials@.len()
            &&& material_names(m.materials@)[mesh.material as int] == opt_bytes(
                surfaces[i].texture,
            )
        }
}

/// Lays the surfaces out as meshes over one vertex list, and gives each
/// distinct texture name one material.
pub fn build_model(surfaces: &Vec<Surface>, nodes: Vec<Node>) -> (m: Model)
    requires
        vertex_count(surfaces@) <= u32::MAX,
        surfaces@.len() <= u32::MAX,
    ensures
        is_model_of(m, surfaces@, nodes@),
{
    let mut vertices: Vec<Vertex> = Vec::new();
    let mut materials: Vec<Material<Option<Vec<u8>>>> = Vec::new();
    let mut meshes: Vec<Mesh> = Vec::new();
    let mut i: usize = 0;
    while i < surfaces.len()
        invariant
            i <= surfaces@.len(),
            surfaces@.len() <= u32::MAX,
            vertex_count(surfaces@) <= u32::MAX,
            vertices@ == all_vertices(surfaces@.take(i as int)),
            material_names(materials@) == dedup_names(surface_names(surfaces@.take(i as int))),
            materials@.len() <= i,
            meshes@.len() == i,
            forall|k: int|
                0 <= k < i ==> {
                    let mesh = #[trigger] meshes@[k];
                    &&& mesh.first_vertex == vertex_count(surfaces@.take(k))
                    &&& mesh.num_vertices == surfaces@[k].vertices@.len()
                    &&& mesh.node == surfaces@[k].node
                    &&& mesh.material < materials@.len()
                    &&& material_names(materials@)[mesh.material as int] == opt_bytes(
                        surfaces@[k].texture,
                    )
                },
        decreases surfaces@.len() - i,
    {
        let s = &surfaces[i];
        proof {
            lemma_vertex_count_prefix(surfaces@, i as int);
            lemma_vertex_count_prefix(surfaces@, i + 1);
            assert(surfaces@.take(i + 1).drop_last() == surfaces@.take(i as int));
            assert(surface_names(surfaces@.take(i + 1)).drop_last() == surface_names(
                surfaces@.take(i as int),
            ));
        }
        let ghost names = material_names(materials@);
        let mut m: usize = 0;
        while m < materials.len() && !opt_bytes_eq(&materials[m].texture, &s.texture)
            invariant
                m <= materials@.len(),
                names == material_names(materials@),
                forall|q: int| 0 <= q < m ==> names[q] != opt_bytes(s.texture),
            decreases materials@.len() - m,
        {
            m = m + 1;
        }
        if m == materials.len() {
            assert(!names.contains(opt_bytes(s.texture)));
            materials.push(Material { texture: copy_opt_bytes(&s.texture) });
            assert(material_names(materials@) == names.push(opt_bytes(s.texture)));
        } else {
            assert(names[m as int] == opt_bytes(s.texture));
            assert(names.contains(opt_bytes(s.texture)));
        }
        meshes.push(
            Mesh {
                first_vertex: vertices.len() as u32,
                num_vertices: s.vertices.len() as u32,
                material: m as u32,
                node: s.node,
            },
        );
        append_vertices(&mut vertices, s.vertices.as_slice());
        i = i + 1;
    }
    assert(surfaces@.take(i as int) == surfaces@);
    Model { vertices, materials, nodes, meshes }
}

} // verus!
