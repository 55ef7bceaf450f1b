//! Scene geometry: vertices, meshes, drawables, and the merge of all
//! drawables' meshes into one flat vertex buffer and one flat index buffer,
//! with index values rewritten by a running vertex-count offset.

use crate::texture::RenderKey;
use crate::uniform::Mat4;
use vstd::prelude::*;

verus! {

/// One vertex in the fixed pipeline layout: position, color, texture
/// coordinate. Each component is stored as the raw bit pattern of a 32-bit
/// IEEE-754 float; the renderer never interprets the numeric value, it only
/// moves the words into device buffers.
#[derive(Clone, Copy, Debug, PartialEq)]
pub struct Vertex {
    pub position: [u32; 3],
    pub color: [u32; 3],
    pub tex_coord: [u32; 2],
}

/// A mesh as handed over by the scene: its vertices, indices into those
/// vertices, and whether the mesh should be rendered at all.
#[derive(Clone, Debug, PartialEq)]
pub struct Mesh {
    pub vertices: Vec<Vertex>,
    pub indices: Vec<u32>,
    pub rendered: bool,
}

/// Every index of the mesh points at one of its own vertices.
pub open spec fn mesh_wf(m: Mesh) -> bool {
    forall|i: int| 0 <= i < m.indices@.len() ==> (m.indices@[i] as int) < m.vertices@.len()
}

/// One drawable handed over by the scene for a frame: a mesh, its model
/// matrix (as raw float bit words, computed by the embedding from the
/// object's transform), and an optional texture identity.
#[derive(Clone, Debug, PartialEq)]
pub struct Drawable {
    pub mesh: Mesh,
    pub model: Mat4,
    pub texture: Option<u64>,
}

/// The render key a drawable is batched by.
pub open spec fn drawable_key(d: Drawable) -> RenderKey {
    match d.texture {
        Some(id) => RenderKey::Textured(id),
        None => RenderKey::Untextured,
    }
}

/// Computes a drawable's render key.
pub fn key_of(d: &Drawable) -> (k: RenderKey)
    ensures
        k == drawable_key(*d),
{
    match d.texture {
        Some(id) => RenderKey::Textured(id),
        None => RenderKey::Untextured,
    }
}

/// The meshes of a drawable list, in list order.
pub open spec fn meshes_of(ds: Seq<Drawable>) -> Seq<Mesh> {
    Seq::new(ds.len(), |i: int| ds[i].mesh)
}

/// The texture identities the drawables reference, in list order, with
/// repetitions; untextured drawables contribute nothing.
pub open spec fn texture_ids(ds: Seq<Drawable>) -> Seq<u64>
    decreases ds.len(),
{
    if ds.len() == 0 {
        Seq::empty()
    } else {
        texture_ids(ds.drop_last()) + match ds.last().texture {
            Some(id) => seq![id],
            None => Seq::<u64>::empty(),
        }
    }
}

/// Collects the texture identities the drawables reference.
pub fn collect_texture_ids(ds: &Vec<Drawable>) -> (ids: Vec<u64>)
    ensures
        ids@ == texture_ids(ds@),
{
    let mut ids: Vec<u64> = Vec::new();
    let mut i: usize = 0;
    proof {
        assert(ds@.take(0) =~= Seq::<Drawable>::empty());
        assert(ids@ =~= texture_ids(ds@.take(0)));
    }
    while i < ds.len()
        invariant
            i <= ds@.len(),
            ids@ == texture_ids(ds@.take(i as int)),
        decreases ds@.len() - i,
    {
        proof {
            assert(ds@.take(i + 1).drop_last() =~= ds@.take(i as int));
            assert(ds@.take(i + 1).last() == ds@[i as int]);
        }
        match ds[i].texture {
            Some(id) => {
                ids.push(id);
                proof {
                    assert(ids@ =~= texture_ids(ds@.take(i + 1)));
                }
            },
            None => {
                proof {
                    assert(ids@ =~= texture_ids(ds@.take(i + 1)));
                }
            },
        }
        i = i + 1;
    }
    proof {
        assert(ds@.take(ds@.len() as int) =~= ds@);
    }
    ids
}

/// Number of vertices contributed by the first `k` meshes; the vertex buffer
/// offset at which mesh `k` begins.
pub open spec fn vertex_offset(ms: Seq<Mesh>, k: int) -> int
    decreases k,
{
    if k <= 0 {
        0
    } else {
        vertex_offset(ms, k - 1) + ms[k - 1].vertices@.len()
    }
}

/// Number of indices contributed by the first `k` meshes; the index buffer
/// offset at which mesh `k` begins.
pub open spec fn index_offset(ms: Seq<Mesh>, k: int) -> int
    decreases k,
{
    if k <= 0 {
        0
    } else {
        index_offset(ms, k - 1) + ms[k - 1].indices@.len()
    }
}

/// The merged vertex buffer of the first `k` meshes.
pub open spec fn merged_vertices_upto(ms: Seq<Mesh>, k: int) -> Seq<Vertex>
    decreases k,
{
    if k <= 0 {
        Seq::empty()
    } else {
        merged_vertices_upto(ms, k - 1) + ms[k - 1].vertices@
    }
}

/// The merged index buffer of the first `k` meshes: mesh `k - 1`'s indices,
/// each shifted by the number of vertices that earlier meshes contributed.
pub open spec fn merged_indices_upto(ms: Seq<Mesh>, k: int) -> Seq<u32>
    decreases k,
{
    if k <= 0 {
        Seq::empty()
    } else {
        merged_indices_upto(ms, k - 1) + ms[k - 1].indices@.map(
            |j: int, v: u32| (v + vertex_offset(ms, k - 1)) as u32,
        )
    }
}

/// The complete merged vertex buffer.
pub open spec fn merged_vertices(ms: Seq<Mesh>) -> Seq<Vertex> {
    merged_vertices_upto(ms, ms.len() as int)
}

/// The complete merged index buffer.
pub open spec fn merged_indices(ms: Seq<Mesh>) -> Seq<u32> {
    merged_indices_upto(ms, ms.len() as int)
}

/// Vertex offsets are nonnegative and grow with `k`.
pub proof fn lemma_vertex_offset_mono(ms: Seq<Mesh>, a: int, b: int)
    requires
        0 <= a <= b,
    ensures
        0 <= vertex_offset(ms, a) <= vertex_offset(ms, b),
    decreases b,
{
    if b > 0 {
        if a == b {
            lemma_vertex_offset_mono(ms, a - 1, b - 1);
        } else {
            lemma_vertex_offset_mono(ms, a, b - 1);
        }
    }
}

/// Index offsets are nonnegative and grow with `k`.
pub proof fn lemma_index_offset_mono(ms: Seq<Mesh>, a: int, b: int)
    requires
        0 <= a <= b,
    ensures
        0 <= index_offset(ms, a) <= index_offset(ms, b),
    decreases b,
{
    if b > 0 && a < b {
        lemma_index_offset_mono(ms, a, b - 1);
    } else if b > 0 && a == b {
        lemma_index_offset_mono(ms, a - 1, b - 1);
    }
}

/// The merged buffers of the first `k` meshes have exactly the prefix-sum
/// lengths.
pub proof fn lemma_merged_lengths(ms: Seq<Mesh>, k: int)
    requires
        k <= ms.len(),
    ensures
        merged_vertices_upto(ms, k).len() == vertex_offset(ms, k),
        merged_indices_upto(ms, k).len() == index_offset(ms, k),
    decreases k,
{
    if k > 0 {
        lemma_merged_lengths(ms, k - 1);
    }
}

/// Concatenates all drawables' mesh vertices into one buffer and all their
/// indices into another, rewriting each index by the running vertex count so
/// that it stays valid in the merged vertex buffer.
pub fn merge_meshes(ds: &Vec<Drawable>) -> (r: (Vec<Vertex>, Vec<u32>))
    requires
        forall|k: int| 0 <= k < ds@.len() ==> mesh_wf(#[trigger] meshes_of(ds@)[k]),
        vertex_offset(meshes_of(ds@), ds@.len() as int) <= u32::MAX,
        index_offset(meshes_of(ds@), ds@.len() as int) <= usize::MAX,
    ensures
        r.0@ == merged_vertices(meshes_of(ds@)),
        r.1@ == merged_indices(meshes_of(ds@)),
{
    let ghost ms = meshes_of(ds@);
    let mut vtx: Vec<Vertex> = Vec::new();
    let mut idx: Vec<u32> = Vec::new();
    let mut base: u32 = 0;
    let mut k: usize = 0;
    while k < ds.len()
        invariant
            ms == meshes_of(ds@),
            forall|k2: int| 0 <= k2 < ms.len() ==> mesh_wf(#[trigger] ms[k2]),
            vertex_offset(ms, ms.len() as int) <= u32::MAX,
            index_offset(ms, ms.len() as int) <= usize::MAX,
            k <= ms.len(),
            base == vertex_offset(ms, k as int),
            vtx@ == merged_vertices_upto(ms, k as int),
            idx@ == merged_indices_upto(ms, k as int),
        decreases ms.len() - k,
    {
        proof {
            assert(ms[k as int] == ds@[k as int].mesh);
        }
        let nv = ds[k].mesh.vertices.len();
        let ni = ds[k].mesh.indices.len();
        let mut j: usize = 0;
        while j < nv
            invariant
                ms == meshes_of(ds@),
                k < ms.len(),
                nv == ms[k as int].vertices@.len(),
                j <= nv,
                vtx@ == merged_vertices_upto(ms, k as int) + ms[k as int].vertices@.take(j as int),
            decreases nv - j,
        {
            proof {
                assert(ms[k as int] == ds@[k as int].mesh);
            }
            let v = ds[k].mesh.vertices[j];
            vtx.push(v);
            proof {
                assert(ms[k as int].vertices@.take(j + 1) =~= ms[k as int].vertices@.take(
                    j as int,
                ).push(ms[k as int].vertices@[j as int]));
            }
            j = j + 1;
        }
        proof {
            assert(ms[k as int].vertices@.take(nv as int) =~= ms[k as int].vertices@);
            assert(vtx@ == merged_vertices_upto(ms, k + 1));
        }
        let ghost f = |jj: int, v: u32| (v + vertex_offset(ms, k as int)) as u32;
        let mut j: usize = 0;
        while j < ni
            invariant
                ms == meshes_of(ds@),
                forall|k2: int| 0 <= k2 < ms.len() ==> mesh_wf(#[trigger] ms[k2]),
                vertex_offset(ms, ms.len() as int) <= u32::MAX,
                k < ms.len(),
                ni == ms[k as int].indices@.len(),
                j <= ni,
                base == vertex_offset(ms, k as int),
                f == (|jj: int, v: u32| (v + vertex_offset(ms, k as int)) as u32),
                idx@ == merged_indices_upto(ms, k as int) + ms[k as int].indices@.take(
                    j as int,
                ).map(f),
            decreases ni - j,
        {
            proof {
                assert(mesh_wf(ms[k as int]));
                assert((ms[k as int].indices@[j as int] as int) < ms[k as int].vertices@.len());
                lemma_vertex_offset_mono(ms, k + 1, ms.len() as int);
                assert(vertex_offset(ms, k as int) + ms[k as int].vertices@.len() == vertex_offset(
                    ms,
                    k + 1,
                ));
            }
            proof {
                assert(ms[k as int] == ds@[k as int].mesh);
            }
            let shifted: u32 = base + ds[k].mesh.indices[j];
            idx.push(shifted);
            proof {
                assert(ms[k as int].indices@.take(j + 1).map(f) =~= ms[k as int].indices@.take(
                    j as int,
                ).map(f).push(f(j as int, ms[k as int].indices@[j as int])));
            }
            j = j + 1;
        }
        proof {
            assert(ms[k as int].indices@.take(ni as int) =~= ms[k as int].indices@);
            assert(ms[k as int].indices@.map(f) =~= ms[k as int].indices@.map(
                |jj: int, v: u32| (v + vertex_offset(ms, k as int)) as u32,
            ));
            assert(idx@ == merged_indices_upto(ms, k + 1));
            lemma_vertex_offset_mono(ms, k + 1, ms.len() as int);
        }
        base = base + (nv as u32);
        k = k + 1;
    }
    (vtx, idx)
}

/// Vertex layout of the merged buffer: vertex `j` of mesh `k` sits at
/// position `vertex_offset(ms, k) + j`.
pub proof fn lemma_merged_vertex_layout(ms: Seq<Mesh>, k: int, j: int)
    requires
        0 <= k < ms.len(),
        0 <= j < ms[k].vertices@.len(),
    ensures
        merged_vertices(ms)[vertex_offset(ms, k) + j] == ms[k].vertices@[j],
{
    lemma_merged_vertex_layout_upto(ms, ms.len() as int, k, j);
}

proof fn lemma_merged_vertex_layout_upto(ms: Seq<Mesh>, kk: int, k: int, j: int)
    requires
        0 <= k < kk <= ms.len(),
        0 <= j < ms[k].vertices@.len(),
    ensures
        merged_vertices_upto(ms, kk)[vertex_offset(ms, k) + j] == ms[k].vertices@[j],
    decreases kk,
{
    lemma_merged_lengths(ms, kk - 1);
    lemma_vertex_offset_mono(ms, 0, k);
    if kk == k + 1 {
    } else {
        lemma_merged_vertex_layout_upto(ms, kk - 1, k, j);
        lemma_vertex_offset_mono(ms, k + 1, kk - 1);
    }
}

/// Index layout of the merged buffer: index `j` of mesh `k` sits at position
/// `index_offset(ms, k) + j` and its value is shifted by `vertex_offset(ms, k)`,
/// the number of vertices all earlier meshes contributed.
pub proof fn lemma_merged_index_layout(ms: Seq<Mesh>, k: int, j: int)
    requires
        0 <= k < ms.len(),
        0 <= j < ms[k].indices@.len(),
        forall|k2: int| 0 <= k2 < ms.len() ==> mesh_wf(#[trigger] ms[k2]),
        vertex_offset(ms, ms.len() as int) <= u32::MAX,
    ensures
        merged_indices(ms)[index_offset(ms, k) + j] == ms[k].indices@[j] + vertex_offset(ms, k),
{
    lemma_merged_index_layout_upto(ms, ms.len() as int, k, j);
    assert(mesh_wf(ms[k]));
    lemma_vertex_offset_mono(ms, 0, k);
    lemma_vertex_offset_mono(ms, k + 1, ms.len() as int);
}

proof fn lemma_merged_index_layout_upto(ms: Seq<Mesh>, kk: int, k: int, j: int)
    requires
        0 <= k < kk <= ms.len(),
        0 <= j < ms[k].indices@.len(),
    ensures
        merged_indices_upto(ms, kk)[index_offset(ms, k) + j] == (ms[k].indices@[j] + vertex_offset(
            ms,
            k,
        )) as u32,
    decreases kk,
{
    lemma_merged_lengths(ms, kk - 1);
    lemma_index_offset_mono(ms, 0, k);
    if kk == k + 1 {
    } else {
        lemma_merged_index_layout_upto(ms, kk - 1, k, j);
        lemma_index_offset_mono(ms, k + 1, kk - 1);
    }
}

/// Every value in the merged index buffer falls within the merged vertex
/// buffer: it is at least zero and below the total vertex count.
pub proof fn lemma_merged_indices_in_range(ms: Seq<Mesh>)
    requires
        forall|k: int| 0 <= k < ms.len() ==> mesh_wf(#[trigger] ms[k]),
        vertex_offset(ms, ms.len() as int) <= u32::MAX,
    ensures
        forall|t: int|
            0 <= t < merged_indices(ms).len() ==> (#[trigger] merged_indices(ms)[t] as int)
                < vertex_offset(ms, ms.len() as int),
{
    lemma_merged_indices_in_range_upto(ms, ms.len() as int);
}

proof fn lemma_merged_indices_in_range_upto(ms: Seq<Mesh>, kk: int)
    requires
        0 <= kk <= ms.len(),
        forall|k: int| 0 <= k < ms.len() ==> mesh_wf(#[trigger] ms[k]),
        vertex_offset(ms, ms.len() as int) <= u32::MAX,
    ensures
        forall|t: int|
            0 <= t < merged_indices_upto(ms, kk).len() ==> (#[trigger] merged_indices_upto(
                ms,
                kk,
            )[t] as int) < vertex_offset(ms, kk),
    decreases kk,
{
    if kk > 0 {
        lemma_merged_indices_in_range_upto(ms, kk - 1);
        lemma_merged_lengths(ms, kk - 1);
        lemma_vertex_offset_mono(ms, kk - 1, kk);
        lemma_vertex_offset_mono(ms, kk, ms.len() as int);
        assert(mesh_wf(ms[kk - 1]));
        assert forall|t: int| 0 <= t < merged_indices_upto(ms, kk).len() implies (
        #[trigger] merged_indices_upto(ms, kk)[t] as int) < vertex_offset(ms, kk) by {
            let prev = merged_indices_upto(ms, kk - 1);
            if t < prev.len() {
                assert(merged_indices_upto(ms, kk)[t] == prev[t]);
            } else {
                let j = t - prev.len();
                let v = ms[kk - 1].indices@[j];
                assert((v as int) < ms[kk - 1].vertices@.len());
                assert(v + vertex_offset(ms, kk - 1) < vertex_offset(ms, kk));
                assert(merged_indices_upto(ms, kk)[t] == (v + vertex_offset(ms, kk - 1)) as u32);
            }
        }
    }
}


/// Byte stride of one vertex in the pipeline's vertex buffer.
pub const VERTEX_STRIDE_BYTES: u32 = 32;

/// Byte offset of the position attribute inside a vertex.
pub const VERTEX_POSITION_OFFSET: u32 = 0;

/// Byte offset of the color attribute inside a vertex.
pub const VERTEX_COLOR_OFFSET: u32 = 12;

/// Byte offset of the texture-coordinate attribute inside a vertex.
pub const VERTEX_TEX_COORD_OFFSET: u32 = 24;

/// Serializes one vertex into its 32-byte wire form: three position words
/// at offset 0, three color words at offset 12, two texture-coordinate
/// words at offset 24, all little-endian — the layout the pipeline's
/// vertex-attribute description declares.
pub fn vertex_to_bytes(v: &Vertex) -> (out: Vec<u8>)
    ensures
        out@.len() == VERTEX_STRIDE_BYTES,
        forall|w: int, b: int|
            0 <= w < 3 && 0 <= b < 4 ==> #[trigger] out@[VERTEX_POSITION_OFFSET + 4 * w + b]
                == crate::bytes::le_byte(v.position@[w], b),
        forall|w: int, b: int|
            0 <= w < 3 && 0 <= b < 4 ==> #[trigger] out@[VERTEX_COLOR_OFFSET + 4 * w + b]
                == crate::bytes::le_byte(v.color@[w], b),
        forall|w: int, b: int|
            0 <= w < 2 && 0 <= b < 4 ==> #[trigger] out@[VERTEX_TEX_COORD_OFFSET + 4 * w + b]
                == crate::bytes::le_byte(v.tex_coord@[w], b),
{
    let mut out: Vec<u8> = Vec::new();
    crate::bytes::push_word_le(&mut out, v.position[0]);
    crate::bytes::push_word_le(&mut out, v.position[1]);
    crate::bytes::push_word_le(&mut out, v.position[2]);
    crate::bytes::push_word_le(&mut out, v.color[0]);
    crate::bytes::push_word_le(&mut out, v.color[1]);
    crate::bytes::push_word_le(&mut out, v.color[2]);
    crate::bytes::push_word_le(&mut out, v.tex_coord[0]);
    crate::bytes::push_word_le(&mut out, v.tex_coord[1]);
    out
}

} // verus!
