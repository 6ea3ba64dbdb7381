//! Hand-made corrections for known faults in shipped models.
use vstd::prelude::*;

use crate::geo::ImportError;
use crate::math::Vector;
use crate::model::{Vertex, bytes_eq};
use crate::surface::Surface;

verus! {

/// A correction of one corner of one triangle. Each attribute that is given
/// replaces the corner's value; the expected previous value, where given, only
/// serves to notice that a patch has gone stale.
#[derive(Clone, Copy, Debug)]
pub struct Patch {
    pub triangle: u32,
    pub vertex: u8,
    pub pos: Option<[u32; 3]>,
    pub old_pos: Option<[u32; 3]>,
    pub normal: Option<[u32; 3]>,
    pub old_normal: Option<[u32; 3]>,
    pub uv: Option<[u32; 2]>,
    pub old_uv: Option<[u32; 2]>,
}

/// A corner after a patch: each given attribute replaced, the others kept.
pub open spec fn patched(v: Vertex, p: Patch) -> Vertex {
    Vertex {
        pos: match p.pos {
            Some(x) => x,
            None => v.pos,
        },
        normal: match p.normal {
            Some(x) => x,
            None => v.normal,
        },
        uv: match p.uv {
            Some(x) => x,
            None => v.uv,
        },
    }
}

/// Whether every expected previous value of `p` is the one `v` holds.
pub open spec fn as_expected(v: Vertex, p: Patch) -> bool {
    &&& (p.old_pos matches Some(x) ==> v.pos == x)
    &&& (p.old_normal matches Some(x) ==> v.normal == x)
    &&& (p.old_uv matches Some(x) ==> v.uv == x)
}

/// Whether a patch's corner exists among `tris`.
pub open spec fn patch_fits(tris: Seq<Surface>, p: Patch) -> bool {
    p.triangle < tris.len() && (p.vertex as int) < tris[p.triangle as int].vertices@.len()
}

/// `after` is `before` with the corner that `p` names patched.
pub open spec fn patched_tris(before: Seq<Surface>, after: Seq<Surface>, p: Patch) -> bool {
    let t = p.triangle as int;
    let s = before[t];
    let v = p.vertex as int;
    &&& after.len() == before.len()
    &&& forall|i: int| 0 <= i < before.len() && i != t ==> #[trigger] after[i] == before[i]
    &&& after[t].key() == s.key()
    &&& after[t].vertices@ == s.vertices@.update(v, patched(s.vertices@[v], p))
}

fn same3(a: [u32; 3], b: [u32; 3]) -> (r: bool)
    ensures
        r == (a == b),
{
    let r = a[0] == b[0] && a[1] == b[1] && a[2] == b[2];
    if r {
        assert(a =~= b);
    }
    r
}

fn same2(a: [u32; 2], b: [u32; 2]) -> (r: bool)
    ensures
        r == (a == b),
{
    let r = a[0] == b[0] && a[1] == b[1];
    if r {
        assert(a =~= b);
    }
    r
}

/// Applies one patch. The patch takes effect whether or not the corner held
/// the expected previous values; the result says whether it did.
pub fn apply_patch(tris: &mut Vec<Surface>, p: &Patch) -> (r: Result<bool, ImportError>)
    ensures
        r is Ok <==> patch_fits(old(tris)@, *p),
        r is Err ==> r->Err_0 == ImportError::BadIndex && final(tris)@ == old(tris)@,
        r is Ok ==> patched_tris(old(tris)@, final(tris)@, *p),
        r is Ok ==> r->Ok_0 == as_expected(
            old(tris)@[p.triangle as int].vertices@[p.vertex as int],
            *p,
        ),
{
    let t = p.triangle as usize;
    let k = p.vertex as usize;
    if t >= tris.len() || k >= tris[t].vertices.len() {
        return Err(ImportError::BadIndex);
    }
    let v = tris[t].vertices[k];
    let mut expected = true;
    if let Some(x) = p.old_pos {
        if !same3(v.pos, x) {
            expected = false;
        }
    }
    if let Some(x) = p.old_normal {
        if !same3(v.normal, x) {
            expected = false;
        }
    }
    if let Some(x) = p.old_uv {
        if !same2(v.uv, x) {
            expected = false;
        }
    }
    let nv = Vertex {
        pos: match p.pos {
            Some(x) => x,
            None => v.pos,
        },
        normal: match p.normal {
            Some(x) => x,
            None => v.normal,
        },
        uv: match p.uv {
            Some(x) => x,
            None => v.uv,
        },
    };
    let mut s = tris.remove(t);
    s.vertices.set(k, nv);
    tris.insert(t, s);
    assert(tris@ =~= old(tris)@.update(t as int, s));
    Ok(expected)
}

/// A patch that replaces the texture coordinates of one corner.
fn uv_patch(triangle: u32, vertex: u8, uv: [u32; 2], old_uv: [u32; 2]) -> (r: Patch)
    ensures
        r == (Patch {
            triangle,
            vertex,
            pos: None,
            old_pos: None,
            normal: None,
            old_normal: None,
            uv: Some(uv),
            old_uv: Some(old_uv),
        }),
{
    Patch {
        triangle,
        vertex,
        pos: None,
        old_pos: None,
        normal: None,
        old_normal: None,
        uv: Some(uv),
        old_uv: Some(old_uv),
    }
}

/// The path of the resource collector model.
pub open spec fn resource_collector_path() -> Seq<u8> {
    seq![114u8, 49, 47, 114, 101, 115, 111, 117, 114, 99, 101, 99, 111, 108, 108, 101, 99, 116, 111, 114, 47, 114, 108, 48, 47, 108, 111, 100, 48, 47, 114, 101, 115, 111, 117, 114, 99, 101, 99, 111, 108, 108, 101, 99, 116, 111, 114, 46, 112, 101, 111]
}

/// The path of the mothership model.
pub open spec fn mothership_path() -> Seq<u8> {
    seq![114u8, 49, 47, 109, 111, 116, 104, 101, 114, 115, 104, 105, 112, 47, 114, 108, 48, 47, 108, 111, 100, 48, 47, 109, 111, 116, 104, 101, 114, 115, 104, 105, 112, 46, 112, 101, 111]
}

/// The patches of a model path, in the order they apply.
pub open spec fn patches_of(path: Seq<u8>) -> Seq<Patch> {
    if path == resource_collector_path() {
        seq![
            uv_patch_spec(177, 2, [0x3e80_0000, 0x3f7f_fffc], [0x3efe_979a, 0x3f7f_fffc]),
            uv_patch_spec(179, 2, [0x3e80_0000, 0x3f7f_fffc], [0x3efe_979a, 0x3f7f_fffc]),
        ]
    } else if path == mothership_path() {
        seq![
            uv_patch_spec(415, 0, [0x3f41_863e, 0x3f60_8e3a], [0x3f41_863e, 0x3f7c_8e3a]),
            uv_patch_spec(415, 2, [0x3f80_0000, 0x3f60_0000], [0x3f80_0000, 0x3f7f_0d1c]),
            uv_patch_spec(419, 2, [0x3f80_0000, 0x3f80_0000], [0x3f80_0000, 0x3f80_7972]),
        ]
    } else {
        seq![]
    }
}

/// A patch of the texture coordinates of one corner.
pub open spec fn uv_patch_spec(triangle: u32, vertex: u8, uv: [u32; 2], old_uv: [u32; 2]) -> Patch {
    Patch {
        triangle,
        vertex,
        pos: None,
        old_pos: None,
        normal: None,
        old_normal: None,
        uv: Some(uv),
        old_uv: Some(old_uv),
    }
}

/// The patches that apply to the model at `path`.
pub fn patches_for(path: &[u8]) -> (r: Vec<Patch>)
    ensures
        r@ == patches_of(path@),
{
    let rc: Vec<u8> = vec![114u8, 49, 47, 114, 101, 115, 111, 117, 114, 99, 101, 99, 111, 108, 108, 101, 99, 116, 111, 114, 47, 114, 108, 48, 47, 108, 111, 100, 48, 47, 114, 101, 115, 111, 117, 114, 99, 101, 99, 111, 108, 108, 101, 99, 116, 111, 114, 46, 112, 101, 111];
    let ms: Vec<u8> = vec![114u8, 49, 47, 109, 111, 116, 104, 101, 114, 115, 104, 105, 112, 47, 114, 108, 48, 47, 108, 111, 100, 48, 47, 109, 111, 116, 104, 101, 114, 115, 104, 105, 112, 46, 112, 101, 111];
    assert(rc@ == resource_collector_path());
    assert(ms@ == mothership_path());
    if bytes_eq(path, rc.as_slice()) {
        vec![
            uv_patch(177, 2, [0x3e80_0000, 0x3f7f_fffc], [0x3efe_979a, 0x3f7f_fffc]),
            uv_patch(179, 2, [0x3e80_0000, 0x3f7f_fffc], [0x3efe_979a, 0x3f7f_fffc]),
        ]
    } else if bytes_eq(path, ms.as_slice()) {
        vec![
            uv_patch(415, 0, [0x3f41_863e, 0x3f60_8e3a], [0x3f41_863e, 0x3f7c_8e3a]),
            uv_patch(415, 2, [0x3f80_0000, 0x3f60_0000], [0x3f80_0000, 0x3f7f_0d1c]),
            uv_patch(419, 2, [0x3f80_0000, 0x3f80_0000], [0x3f80_0000, 0x3f80_7972]),
        ]
    } else {
        Vec::new()
    }
}

/// `states` runs from the triangles before the first patch to those after the
/// last: each patch of `ps` takes one state to the next, and `expected[i]`
/// says whether patch `i` found the values it expected.
pub open spec fn patch_steps(states: Seq<Seq<Surface>>, ps: Seq<Patch>, expected: Seq<bool>) -> bool {
    &&& states.len() == ps.len() + 1
    &&& expected.len() == ps.len()
    &&& forall|i: int|
        0 <= i < ps.len() ==> patched_tris(#[trigger] states[i], states[i + 1], ps[i])
            && expected[i] == as_expected(states[i][ps[i].triangle as int].vertices@[ps[i].vertex as int], ps[i])
}

/// `after` is `before` with the patches `ps` applied one after the other.
pub open spec fn patch_chain(
    before: Seq<Surface>,
    after: Seq<Surface>,
    ps: Seq<Patch>,
    expected: Seq<bool>,
) -> bool {
    exists|states: Seq<Seq<Surface>>|
        #[trigger] patch_steps(states, ps, expected) && states[0] == before && states.last() == after
}

/// Whether `a` and `b` have the same triangles with the same corner counts.
pub open spec fn same_shape(a: Seq<Surface>, b: Seq<Surface>) -> bool {
    a.len() == b.len() && forall|t: int| 0 <= t < a.len() ==> (#[trigger] a[t]).vertices@.len() == b[t].vertices@.len()
}

/// Applies the patches that the model at `path` has. Every patch takes effect;
/// the result says, patch by patch, whether the corner held the values that
/// the patch expected.
pub fn patch(path: &[u8], tris: &mut Vec<Surface>) -> (r: Result<Vec<bool>, ImportError>)
    ensures
        r is Ok <==> forall|i: int|
            0 <= i < patches_of(path@).len() ==> patch_fits(old(tris)@, #[trigger] patches_of(path@)[i]),
        r is Ok ==> patch_chain(old(tris)@, final(tris)@, patches_of(path@), r->Ok_0@),
        r is Ok ==> same_shape(old(tris)@, final(tris)@),
        r is Ok ==> forall|t: int| 0 <= t < old(tris)@.len() ==> (#[trigger] final(tris)@[t]).key() == old(tris)@[t].key(),
{
    let ps = patches_for(path);
    let mut expected: Vec<bool> = Vec::new();
    let ghost mut states: Seq<Seq<Surface>> = seq![tris@];
    let mut i: usize = 0;
    while i < ps.len()
        invariant
            ps@ == patches_of(path@),
            i <= ps@.len(),
            same_shape(old(tris)@, tris@),
            forall|t: int| 0 <= t < old(tris)@.len() ==> (#[trigger] tris@[t]).key() == old(tris)@[t].key(),
            expected@.len() == i,
            forall|q: int| 0 <= q < i ==> patch_fits(old(tris)@, #[trigger] ps@[q]),
            patch_steps(states, ps@.take(i as int), expected@),
            states[0] == old(tris)@,
            states.last() == tris@,
        decreases ps@.len() - i,
    {
        let ghost mid = tris@;
        match apply_patch(tris, &ps[i]) {
            Ok(e) => {
                expected.push(e);
            },
            Err(e) => {
                assert(!patch_fits(old(tris)@, ps@[i as int]));
                return Err(e);
            },
        }
        proof {
            let ss = states.push(tris@);
            assert(ps@.take(i + 1).drop_last() == ps@.take(i as int));
            assert forall|q: int| 0 <= q < i + 1 implies patched_tris(#[trigger] ss[q], ss[q + 1], ps@.take(i + 1)[q])
                && expected@[q] == as_expected(ss[q][ps@.take(i + 1)[q].triangle as int].vertices@[ps@.take(i + 1)[q].vertex as int], ps@.take(i + 1)[q]) by {
                if q < i {
                    assert(ss[q] == states[q]);
                    assert(ss[q + 1] == states[q + 1]);
                    assert(patched_tris(states[q], states[q + 1], ps@.take(i as int)[q]));
                }
            }
            states = ss;
        }
        i = i + 1;
    }
    assert(ps@.take(i as int) == ps@);
    assert(patch_steps(states, ps@, expected@));
    Ok(expected)
}

/// Component `i` after a per-component patch: the new value where the patch
/// gives one, else the old.
pub open spec fn patched_component(old: u32, p: Option<(u32, u32)>) -> u32 {
    match p {
        Some((_, new)) => new,
        None => old,
    }
}

/// Whether a per-component patch found the value it expected.
pub open spec fn component_as_expected(old: u32, p: Option<(u32, u32)>) -> bool {
    match p {
        Some((expected, _)) => old == expected,
        None => true,
    }
}

/// Patches a vector component by component: each component with an
/// `(expected, new)` pair takes the new value whatever it held. The result
/// says whether every such component held its expected value.
pub fn patch_vector<const N: usize>(target: &mut Vector<u32, N>, patch: &Vector<Option<(u32, u32)>, N>) -> (r: bool)
    ensures
        forall|i: int| 0 <= i < N ==> #[trigger] final(target).0@[i] == patched_component(old(target).0@[i], patch.0@[i]),
        r == forall|i: int| 0 <= i < N ==> #[trigger] component_as_expected(old(target).0@[i], patch.0@[i]),
{
    let mut out = target.0;
    let mut ok = true;
    let mut i: usize = 0;
    while i < N
        invariant
            i <= N,
            forall|q: int| 0 <= q < i ==> #[trigger] out@[q] == patched_component(old(target).0@[q], patch.0@[q]),
            forall|q: int| i <= q < N ==> #[trigger] out@[q] == old(target).0@[q],
            ok == forall|q: int| 0 <= q < i ==> #[trigger] component_as_expected(old(target).0@[q], patch.0@[q]),
            *target == *old(target),
        decreases N - i,
    {
        let cur = out[i];
        let mut this_ok = true;
        if let Some((expected, new)) = patch.0[i] {
            this_ok = cur == expected;
            out[i] = new;
        }
        assert(this_ok == component_as_expected(old(target).0@[i as int], patch.0@[i as int]));
        let ghost prev_ok = ok;
        ok = ok && this_ok;
        assert(ok == forall|q: int| 0 <= q < i + 1 ==> #[trigger] component_as_expected(old(target).0@[q], patch.0@[q])) by {
            if !this_ok {
                assert(!component_as_expected(old(target).0@[i as int], patch.0@[i as int]));
            }
            if !prev_ok {
                let w = choose|q: int| 0 <= q < i && !#[trigger] component_as_expected(old(target).0@[q], patch.0@[q]);
                assert(!component_as_expected(old(target).0@[w], patch.0@[w]));
            }
        }
        i = i + 1;
    }
    *target = Vector(out);
    ok
}

} // verus!
