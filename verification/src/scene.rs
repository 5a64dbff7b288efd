//! Scene assembly steps that work on indices: per-vertex texture coordinates,
//! face indices read from PLY files, and the base meshes of mesh instances.

use vstd::prelude::*;

use crate::json_structs::{DataField, Face};

verus! {

/// Whether `o` is the texture coordinate pair `d[2i], d[2i + 1]`.
pub open spec fn is_pair_at<T>(o: Option<[T; 2]>, d: Seq<T>, i: int) -> bool {
    &&& o is Some
    &&& o->0[0] == d[2 * i]
    &&& o->0[1] == d[2 * i + 1]
}

/// The `(u, v)` pairs of a flattened list of texture coordinates; an odd
/// trailing value is dropped.
fn uv_pairs<T: Copy>(d: &Vec<T>) -> (r: Vec<Option<[T; 2]>>)
    ensures
        r@.len() == d@.len() / 2,
        forall|i: int| 0 <= i < r@.len() ==> is_pair_at(#[trigger] r@[i], d@, i),
{
    let len = d.len();
    let n = len / 2;
    let mut out: Vec<Option<[T; 2]>> = Vec::new();
    let mut k: usize = 0;
    while k < n
        invariant
            n == d@.len() / 2,
            len == d@.len(),
            k <= n,
            out@.len() == k,
            forall|i: int| 0 <= i < k ==> is_pair_at(#[trigger] out@[i], d@, i),
        decreases n - k,
    {
        out.push(Some([d[2 * k], d[2 * k + 1]]));
        k += 1;
    }
    out
}

/// Appends `None` to `v` until it holds `n` entries.
fn pad_with_none<T: Copy>(v: &mut Vec<Option<[T; 2]>>, n: usize)
    ensures
        final(v)@.len() == if old(v)@.len() < n {
            n as int
        } else {
            old(v)@.len() as int
        },
        forall|i: int| 0 <= i < old(v)@.len() ==> #[trigger] final(v)@[i] == old(v)@[i],
        forall|i: int| old(v)@.len() <= i < final(v)@.len() ==> (#[trigger] final(v)@[i]) is None,
{
    let ghost start = v@;
    while v.len() < n
        invariant
            start.len() <= v@.len(),
            start.len() < n ==> v@.len() <= n,
            start.len() >= n ==> v@ == start,
            forall|i: int| 0 <= i < start.len() ==> #[trigger] v@[i] == start[i],
            forall|i: int| start.len() <= i < v@.len() ==> (#[trigger] v@[i]) is None,
        decreases n - v@.len(),
    {
        v.push(None);
    }
}

/// The per-vertex texture coordinates before any PLY file is read: the pairs
/// of the scene's texture coordinates, then `None` up to `n_verts` entries.
pub fn initial_uv_coords<T: Copy>(tex_coords: &Option<DataField<T>>, n_verts: usize) -> (r: Vec<
    Option<[T; 2]>,
>)
    ensures
        match tex_coords {
            Some(tc) => {
                &&& r@.len() == if tc._data@.len() / 2 < n_verts {
                    n_verts as int
                } else {
                    (tc._data@.len() / 2) as int
                }
                &&& forall|i: int|
                    0 <= i < tc._data@.len() / 2 ==> is_pair_at(#[trigger] r@[i], tc._data@, i)
                &&& forall|i: int| tc._data@.len() / 2 <= i < r@.len() ==> (#[trigger] r@[i]) is None
            },
            None => r@.len() == n_verts && forall|i: int| 0 <= i < r@.len() ==> (#[trigger] r@[i]) is None,
        },
{
    let mut out = match tex_coords {
        Some(tc) => uv_pairs(&tc._data),
        None => Vec::new(),
    };
    pad_with_none(&mut out, n_verts);
    out
}

/// Per-vertex texture coordinates: the pairs of the scene's texture
/// coordinates, then those read from PLY files, then `None` up to `n_verts`
/// entries; all `None` when the scene gives no texture coordinates.
pub fn build_uv<T: Copy>(
    n_verts: usize,
    tex_coords: &Option<DataField<T>>,
    ply_uv_coords: &[Option<[T; 2]>],
) -> (r: Vec<Option<[T; 2]>>)
    requires
        match tex_coords {
            Some(tc) => tc._data@.len() / 2 + ply_uv_coords@.len() <= n_verts,
            None => true,
        },
    ensures
        r@.len() == n_verts,
        match tex_coords {
            Some(tc) => {
                &&& forall|i: int|
                    0 <= i < tc._data@.len() / 2 ==> is_pair_at(#[trigger] r@[i], tc._data@, i)
                &&& forall|i: int|
                    0 <= i < ply_uv_coords@.len() ==> #[trigger] r@[tc._data@.len() / 2 + i]
                        == ply_uv_coords@[i]
                &&& forall|i: int|
                    tc._data@.len() / 2 + ply_uv_coords@.len() <= i < n_verts ==> (
                    #[trigger] r@[i]) is None
            },
            None => forall|i: int| 0 <= i < n_verts ==> (#[trigger] r@[i]) is None,
        },
{
    match tex_coords {
        Some(tc) => {
            let mut out = uv_pairs(&tc._data);
            let ghost pairs = out@;
            let mut k: usize = 0;
            while k < ply_uv_coords.len()
                invariant
                    k <= ply_uv_coords@.len(),
                    out@.len() == pairs.len() + k,
                    forall|i: int| 0 <= i < pairs.len() ==> #[trigger] out@[i] == pairs[i],
                    forall|i: int| 0 <= i < k ==> #[trigger] out@[pairs.len() + i] == ply_uv_coords@[i],
                decreases ply_uv_coords@.len() - k,
            {
                out.push(ply_uv_coords[k]);
                k += 1;
            }
            let ghost filled = out@;
            pad_with_none(&mut out, n_verts);
            assert forall|i: int| 0 <= i < ply_uv_coords@.len() implies #[trigger] out@[pairs.len() + i]
                == ply_uv_coords@[i] by {
                assert(out@[pairs.len() + i] == filled[pairs.len() + i]);
            }
            out
        },
        None => {
            let mut out: Vec<Option<[T; 2]>> = Vec::new();
            pad_with_none(&mut out, n_verts);
            out
        },
    }
}

/// The vertex indices of all faces, in order.
pub open spec fn flat_indices(faces: Seq<Face>) -> Seq<usize>
    decreases faces.len(),
{
    if faces.len() == 0 {
        seq![]
    } else {
        flat_indices(faces.drop_last()) + faces.last().vertex_indices@
    }
}

/// Every vertex index of every face stays within `usize` when `offset` is added.
pub open spec fn offset_fits(faces: Seq<Face>, offset: usize) -> bool {
    forall|i: int, j: int|
        0 <= i < faces.len() && 0 <= j < faces[i].vertex_indices@.len() ==> #[trigger] faces[i].vertex_indices@[j]
            + offset <= usize::MAX
}

/// The vertex indices of all faces of a PLY mesh, in order, shifted by
/// `offset` (the number of vertices that precede the mesh's own).
pub fn shifted_face_indices(faces: &Vec<Face>, offset: usize) -> (r: Vec<usize>)
    requires
        offset_fits(faces@, offset),
    ensures
        r@ == flat_indices(faces@).map_values(|x: usize| (x + offset) as usize),
{
    let mut out: Vec<usize> = Vec::new();
    let mut f: usize = 0;
    assert(faces@.take(0) =~= Seq::<Face>::empty());
    while f < faces.len()
        invariant
            f <= faces@.len(),
            offset_fits(faces@, offset),
            out@ == flat_indices(faces@.take(f as int)).map_values(|x: usize| (x + offset) as usize),
        decreases faces@.len() - f,
    {
        let idx = &faces[f].vertex_indices;
        let ghost before = out@;
        let mut j: usize = 0;
        while j < idx.len()
            invariant
                idx@ == faces@[f as int].vertex_indices@,
                f < faces@.len(),
                offset_fits(faces@, offset),
                j <= idx@.len(),
                out@ == before + idx@.take(j as int).map_values(|x: usize| (x + offset) as usize),
            decreases idx@.len() - j,
        {
            assert(faces@[f as int].vertex_indices@[j as int] + offset <= usize::MAX);
            out.push(idx[j] + offset);
            j += 1;
            assert(idx@.take(j as int).map_values(|x: usize| (x + offset) as usize) =~= idx@.take(
                j - 1,
            ).map_values(|x: usize| (x + offset) as usize).push((idx@[j - 1] + offset) as usize));
        }
        proof {
            let pre = faces@.take(f as int);
            let post = faces@.take(f + 1);
            assert(post.drop_last() =~= pre);
            assert(idx@.take(j as int) =~= idx@);
            assert(flat_indices(post) == flat_indices(pre) + idx@);
            assert(flat_indices(post).map_values(|x: usize| (x + offset) as usize) =~= flat_indices(
                pre,
            ).map_values(|x: usize| (x + offset) as usize) + idx@.map_values(
                |x: usize| (x + offset) as usize,
            ));
        }
        f += 1;
    }
    assert(faces@.take(faces@.len() as int) =~= faces@);
    out
}

/// Position of the first occurrence of `x` in `s`, or -1.
pub open spec fn first_pos(s: Seq<usize>, x: usize) -> int
    decreases s.len(),
{
    if s.len() == 0 {
        -1
    } else if s[0] == x {
        0
    } else {
        let r = first_pos(s.drop_first(), x);
        if r < 0 {
            -1
        } else {
            r + 1
        }
    }
}

/// `first_pos` is -1 or the least position holding `x`.
pub proof fn lemma_first_pos(s: Seq<usize>, x: usize)
    ensures
        -1 <= first_pos(s, x) < s.len(),
        first_pos(s, x) >= 0 ==> s[first_pos(s, x)] == x,
        forall|j: int|
            0 <= j < s.len() && (first_pos(s, x) < 0 || j < first_pos(s, x)) ==> #[trigger] s[j] != x,
    decreases s.len(),
{
    if s.len() > 0 && s[0] != x {
        lemma_first_pos(s.drop_first(), x);
        assert forall|j: int|
            0 <= j < s.len() && (first_pos(s, x) < 0 || j < first_pos(s, x)) implies #[trigger] s[j]
            != x by {
            if j > 0 {
                assert(s[j] == s.drop_first()[j - 1]);
            }
        }
    }
}

/// Position of the first occurrence of `x` in `s`.
pub fn first_index_of(s: &[usize], x: usize) -> (r: Option<usize>)
    ensures
        match r {
            Some(i) => i as int == first_pos(s@, x),
            None => first_pos(s@, x) < 0,
        },
{
    proof {
        lemma_first_pos(s@, x);
    }
    let mut i: usize = 0;
    while i < s.len()
        invariant
            i <= s@.len(),
            forall|j: int| 0 <= j < i ==> s@[j] != x,
            -1 <= first_pos(s@, x) < s@.len(),
            first_pos(s@, x) >= 0 ==> s@[first_pos(s@, x)] == x,
            forall|j: int|
                0 <= j < s@.len() && (first_pos(s@, x) < 0 || j < first_pos(s@, x)) ==> #[trigger] s@[j]
                    != x,
        decreases s@.len() - i,
    {
        if s[i] == x {
            return Some(i);
        }
        i += 1;
    }
    None
}

/// A mesh instance as its base mesh is resolved: its id, the id it names as
/// its base, and the position of the mesh it draws, once known.
#[derive(Clone, Copy, Debug)]
pub struct MeshInstanceRef {
    pub _id: usize,
    pub base_mesh_id: usize,
    pub base_mesh: Option<usize>,
}

/// Position of the first instance other than `i` whose id is the base id of
/// instance `i`, or -1.
pub open spec fn other_instance(insts: Seq<MeshInstanceRef>, i: int) -> int {
    let ids = insts.map_values(|m: MeshInstanceRef| m._id);
    let before = first_pos(ids.take(i), insts[i].base_mesh_id);
    let after = first_pos(ids.skip(i + 1), insts[i].base_mesh_id);
    if before >= 0 {
        before
    } else if after >= 0 {
        i + 1 + after
    } else {
        -1
    }
}

/// The base mesh instance `i` gets, given the current bases: the first mesh
/// with its base id; else the current base of the first other instance with
/// that id; else its own current base.
pub open spec fn next_base(
    bases: Seq<Option<usize>>,
    insts: Seq<MeshInstanceRef>,
    mesh_ids: Seq<usize>,
    i: int,
) -> Option<usize> {
    let m = first_pos(mesh_ids, insts[i].base_mesh_id);
    let j = other_instance(insts, i);
    if m >= 0 {
        Some(m as usize)
    } else if j >= 0 {
        bases[j]
    } else {
        bases[i]
    }
}

/// The bases after instances `0..k` have been resolved in order.
pub open spec fn bases_after(insts: Seq<MeshInstanceRef>, mesh_ids: Seq<usize>, k: int) -> Seq<
    Option<usize>,
>
    decreases k,
{
    if k <= 0 {
        insts.map_values(|m: MeshInstanceRef| m.base_mesh)
    } else {
        let b = bases_after(insts, mesh_ids, k - 1);
        b.update(k - 1, next_base(b, insts, mesh_ids, k - 1))
    }
}

/// The instance whose transformation instance `i` composes with its own:
/// the other instance it refers to, when no mesh has its base id.
pub open spec fn composed_with(insts: Seq<MeshInstanceRef>, mesh_ids: Seq<usize>, i: int) -> Option<
    usize,
> {
    if first_pos(mesh_ids, insts[i].base_mesh_id) < 0 && other_instance(insts, i) >= 0 {
        Some(other_instance(insts, i) as usize)
    } else {
        None
    }
}

/// Instance `i` ends up with a base mesh.
pub open spec fn resolves(insts: Seq<MeshInstanceRef>, mesh_ids: Seq<usize>, i: int) -> bool {
    next_base(bases_after(insts, mesh_ids, i), insts, mesh_ids, i) is Some
}

proof fn lemma_bases_after_len(insts: Seq<MeshInstanceRef>, mesh_ids: Seq<usize>, k: int)
    requires
        k <= insts.len(),
    ensures
        bases_after(insts, mesh_ids, k).len() == insts.len(),
    decreases k,
{
    if k > 0 {
        lemma_bases_after_len(insts, mesh_ids, k - 1);
        let b = bases_after(insts, mesh_ids, k - 1);
        assert(b.update(k - 1, next_base(b, insts, mesh_ids, k - 1)).len() == b.len());
    } else {
        assert(insts.map_values(|m: MeshInstanceRef| m.base_mesh).len() == insts.len());
    }
}

/// Once instance `i` is resolved, later steps leave its base as it is.
proof fn lemma_bases_after_stable(insts: Seq<MeshInstanceRef>, mesh_ids: Seq<usize>, i: int, k: int)
    requires
        0 <= i < k <= insts.len(),
    ensures
        bases_after(insts, mesh_ids, k)[i] == next_base(bases_after(insts, mesh_ids, i), insts, mesh_ids, i),
    decreases k,
{
    lemma_bases_after_len(insts, mesh_ids, k - 1);
    if k - 1 > i {
        lemma_bases_after_stable(insts, mesh_ids, i, k - 1);
    }
}

/// An instance whose base id is the id of a mesh draws the first mesh with
/// that id, wherever that mesh stands among the meshes (the first one too),
/// and so is resolved.
pub proof fn law_instance_of_declared_mesh(insts: Seq<MeshInstanceRef>, mesh_ids: Seq<usize>, i: int, p: int)
    requires
        0 <= i < insts.len(),
        0 <= p < mesh_ids.len(),
        mesh_ids[p] == insts[i].base_mesh_id,
        forall|j: int| 0 <= j < p ==> (#[trigger] mesh_ids[j]) != insts[i].base_mesh_id,
    ensures
        resolves(insts, mesh_ids, i),
        bases_after(insts, mesh_ids, insts.len() as int)[i] == Some(p as usize),
{
    let id = insts[i].base_mesh_id;
    lemma_first_pos(mesh_ids, id);
    assert(first_pos(mesh_ids, id) == p) by {
        let q = first_pos(mesh_ids, id);
        if q < 0 || q > p {
            assert(mesh_ids[p] != id);
        } else if q < p {
            assert(mesh_ids[q] == id);
        }
    }
    lemma_bases_after_stable(insts, mesh_ids, i, insts.len() as int);
}

/// An instance is left without a base only when no mesh has its base id.
pub proof fn law_unresolved_names_no_mesh(insts: Seq<MeshInstanceRef>, mesh_ids: Seq<usize>, i: int)
    requires
        0 <= i < insts.len(),
        !resolves(insts, mesh_ids, i),
    ensures
        !mesh_ids.contains(insts[i].base_mesh_id),
{
    if mesh_ids.contains(insts[i].base_mesh_id) {
        let id = insts[i].base_mesh_id;
        lemma_first_pos(mesh_ids, id);
        let j = choose|j: int| 0 <= j < mesh_ids.len() && mesh_ids[j] == id;
        assert(mesh_ids[j] == id);
        let p = first_pos(mesh_ids, id);
        law_instance_of_declared_mesh(insts, mesh_ids, i, p);
    }
}

/// Finds the first instance other than `i` whose id is `id`.
fn find_other_instance(insts: &Vec<MeshInstanceRef>, i: usize, id: usize) -> (r: Option<usize>)
    requires
        i < insts@.len(),
        id == insts@[i as int].base_mesh_id,
    ensures
        match r {
            Some(j) => j as int == other_instance(insts@, i as int) && j < insts@.len() && j != i,
            None => other_instance(insts@, i as int) < 0,
        },
{
    let ghost ids = insts@.map_values(|m: MeshInstanceRef| m._id);
    proof {
        lemma_first_pos(ids.take(i as int), id);
        lemma_first_pos(ids.skip(i + 1), id);
    }
    let mut j: usize = 0;
    while j < insts.len()
        invariant
            i < insts@.len(),
            id == insts@[i as int].base_mesh_id,
            ids == insts@.map_values(|m: MeshInstanceRef| m._id),
            j <= insts@.len(),
            forall|k: int| 0 <= k < j && k != i ==> #[trigger] insts@[k]._id != id,
            -1 <= first_pos(ids.take(i as int), id) < i,
            -1 <= first_pos(ids.skip(i + 1), id) < ids.len() - i - 1,
            first_pos(ids.take(i as int), id) >= 0 ==> ids.take(i as int)[first_pos(
                ids.take(i as int),
                id,
            )] == id,
            first_pos(ids.skip(i + 1), id) >= 0 ==> ids.skip(i + 1)[first_pos(ids.skip(i + 1), id)]
                == id,
            forall|k: int|
                0 <= k < i && (first_pos(ids.take(i as int), id) < 0 || k < first_pos(
                    ids.take(i as int),
                    id,
                )) ==> #[trigger] ids.take(i as int)[k] != id,
            forall|k: int|
                0 <= k < ids.len() - i - 1 && (first_pos(ids.skip(i + 1), id) < 0 || k < first_pos(
                    ids.skip(i + 1),
                    id,
                )) ==> #[trigger] ids.skip(i + 1)[k] != id,
        decreases insts@.len() - j,
    {
        if j != i && insts[j]._id == id {
            proof {
                if j < i {
                    assert(ids.take(i as int)[j as int] == id);
                } else {
                    assert(ids.skip(i + 1)[j - i - 1] == id);
                    assert forall|k: int| 0 <= k < i implies #[trigger] ids.take(i as int)[k] != id by {
                        assert(ids.take(i as int)[k] == insts@[k]._id);
                    }
                }
            }
            return Some(j);
        }
        j += 1;
    }
    proof {
        assert forall|k: int| 0 <= k < i implies #[trigger] ids.take(i as int)[k] != id by {
            assert(ids.take(i as int)[k] == insts@[k]._id);
        }
        assert forall|k: int| 0 <= k < ids.len() - i - 1 implies #[trigger] ids.skip(i + 1)[k] != id by {
            assert(ids.skip(i + 1)[k] == insts@[i + 1 + k]._id);
        }
    }
    None
}

/// Resolves the base mesh of every mesh instance, in order. An instance draws
/// the first mesh whose id is its base id; failing that, it takes the current
/// base of the first other instance with that id, whose transformation it then
/// composes with its own. Returns, for each instance, the instance it composes
/// with, or the base id of the first instance left without a base mesh.
pub fn resolve_all_mesh_instances(
    mesh_instances: &mut Vec<MeshInstanceRef>,
    mesh_ids: &Vec<usize>,
) -> (r: Result<Vec<Option<usize>>, usize>)
    ensures
        final(mesh_instances)@.len() == old(mesh_instances)@.len(),
        r is Ok ==> forall|i: int, p: int|
            0 <= i < old(mesh_instances)@.len() && 0 <= p < mesh_ids@.len() && #[trigger] mesh_ids@[p]
                == old(mesh_instances)@[i].base_mesh_id && (forall|j: int|
                0 <= j < p ==> mesh_ids@[j] != old(mesh_instances)@[i].base_mesh_id) ==> (
            #[trigger] final(mesh_instances)@[i]).base_mesh == Some(p as usize),
        forall|i: int|
            0 <= i < old(mesh_instances)@.len() ==> #[trigger] final(mesh_instances)@[i]._id == old(
                mesh_instances,
            )@[i]._id && final(mesh_instances)@[i].base_mesh_id == old(mesh_instances)@[i].base_mesh_id,
        match r {
            Ok(links) => {
                &&& forall|i: int|
                    0 <= i < old(mesh_instances)@.len() ==> #[trigger] resolves(
                        old(mesh_instances)@,
                        mesh_ids@,
                        i,
                    )
                &&& final(mesh_instances)@.map_values(|m: MeshInstanceRef| m.base_mesh) == bases_after(
                    old(mesh_instances)@,
                    mesh_ids@,
                    old(mesh_instances)@.len() as int,
                )
                &&& links@.len() == old(mesh_instances)@.len()
                &&& forall|i: int|
                    0 <= i < links@.len() ==> #[trigger] links@[i] == composed_with(
                        old(mesh_instances)@,
                        mesh_ids@,
                        i,
                    )
            },
            Err(id) => !mesh_ids@.contains(id) && exists|i: int|
                0 <= i < old(mesh_instances)@.len() && !resolves(old(mesh_instances)@, mesh_ids@, i)
                    && (forall|k: int| 0 <= k < i ==> resolves(old(mesh_instances)@, mesh_ids@, k))
                    && id == old(mesh_instances)@[i].base_mesh_id,
        },
{
    let ghost orig = mesh_instances@;
    let n = mesh_instances.len();
    let mut links: Vec<Option<usize>> = Vec::new();
    let mut i: usize = 0;
    assert(mesh_instances@.map_values(|m: MeshInstanceRef| m.base_mesh) =~= bases_after(
        orig,
        mesh_ids@,
        0,
    ));
    while i < n
        invariant
            orig == old(mesh_instances)@,
            n == orig.len(),
            i <= n,
            mesh_instances@.len() == n,
            forall|k: int|
                0 <= k < n ==> #[trigger] mesh_instances@[k]._id == orig[k]._id
                    && mesh_instances@[k].base_mesh_id == orig[k].base_mesh_id,
            mesh_instances@.map_values(|m: MeshInstanceRef| m.base_mesh) == bases_after(
                orig,
                mesh_ids@,
                i as int,
            ),
            links@.len() == i,
            forall|k: int| 0 <= k < i ==> #[trigger] links@[k] == composed_with(orig, mesh_ids@, k),
            forall|k: int| 0 <= k < i ==> #[trigger] resolves(orig, mesh_ids@, k),
        decreases n - i,
    {
        let ghost bases = bases_after(orig, mesh_ids@, i as int);
        proof {
            lemma_bases_after_len(orig, mesh_ids@, i as int);
        }
        let ghost cur = mesh_instances@;
        let base_id = mesh_instances[i].base_mesh_id;
        assert(cur.map_values(|m: MeshInstanceRef| m._id) =~= orig.map_values(
            |m: MeshInstanceRef| m._id,
        ));
        let found_mesh = first_index_of(mesh_ids.as_slice(), base_id);
        let other = find_other_instance(mesh_instances, i, base_id);
        assert(other_instance(cur, i as int) == other_instance(orig, i as int));
        let new_base = match found_mesh {
            Some(m) => Some(m),
            None => match other {
                Some(j) => {
                    assert(bases[j as int] == cur[j as int].base_mesh);
                    mesh_instances[j].base_mesh
                },
                None => {
                    assert(bases[i as int] == cur[i as int].base_mesh);
                    mesh_instances[i].base_mesh
                },
            },
        };
        let link = match found_mesh {
            Some(_) => None,
            None => other,
        };
        assert(new_base == next_base(bases, orig, mesh_ids@, i as int));
        if new_base.is_none() {
            assert(!resolves(orig, mesh_ids@, i as int));
            proof {
                law_unresolved_names_no_mesh(orig, mesh_ids@, i as int);
            }
            return Err(base_id);
        }
        let mut entry = mesh_instances[i];
        entry.base_mesh = new_base;
        mesh_instances.set(i, entry);
        links.push(link);
        assert(mesh_instances@.map_values(|m: MeshInstanceRef| m.base_mesh) =~= bases.update(
            i as int,
            new_base,
        ));
        i += 1;
    }
    assert forall|k: int| 0 <= k < n implies #[trigger] mesh_instances@[k]._id == orig[k]._id
        && mesh_instances@[k].base_mesh_id == orig[k].base_mesh_id by {
        let e = mesh_instances@[k];
        assert(e._id == orig[k]._id);
        assert(e.base_mesh_id == orig[k].base_mesh_id);
    }
    assert forall|k: int, p: int|
        0 <= k < n && 0 <= p < mesh_ids@.len() && #[trigger] mesh_ids@[p] == orig[k].base_mesh_id && (forall|j: int|
            0 <= j < p ==> mesh_ids@[j] != orig[k].base_mesh_id) implies (#[trigger] mesh_instances@[k]).base_mesh
        == Some(p as usize) by {
        law_instance_of_declared_mesh(orig, mesh_ids@, k, p);
        assert(mesh_instances@.map_values(|m: MeshInstanceRef| m.base_mesh)[k] == mesh_instances@[k].base_mesh);
    }
    Ok(links)
}

} // verus!
