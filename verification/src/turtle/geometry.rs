//! Line and mesh geometry buffers, and their concatenation.
use vstd::prelude::*;

verus! {

/// Polylines: `segments` holds `(first index, index count)` pairs into `indices`,
/// which index `vertices` (and `colours`, one per vertex)
#[derive(Clone)]
pub struct LineGeometry<V> {
    pub vertices: Vec<V>,
    pub colours: Vec<V>,
    pub indices: Vec<u32>,
    pub segments: Vec<(u32, u32)>,
}

/// Indexed triangles with per-vertex normals, colours, texture coordinates and
/// tangents
#[derive(Clone)]
pub struct MeshGeometry<V, U> {
    pub vertices: Vec<V>,
    pub normals: Vec<V>,
    pub colours: Vec<V>,
    pub indices: Vec<u32>,
    pub uvs: Vec<U>,
    pub tangents: Vec<V>,
}

/// Vertices of the first `n` line geometries
pub open spec fn line_vertex_total<V>(geos: Seq<&LineGeometry<V>>, n: int) -> nat
    decreases n,
{
    if n <= 0 {
        0
    } else {
        line_vertex_total(geos, n - 1) + geos[n - 1].vertices@.len()
    }
}

/// Indices of the first `n` line geometries
pub open spec fn line_index_total<V>(geos: Seq<&LineGeometry<V>>, n: int) -> nat
    decreases n,
{
    if n <= 0 {
        0
    } else {
        line_index_total(geos, n - 1) + geos[n - 1].indices@.len()
    }
}

/// `indices` shifted by `offset`
pub open spec fn shifted(indices: Seq<u32>, offset: u32) -> Seq<u32> {
    indices.map_values(|i: u32| (i + offset) as u32)
}

/// `segments` with their first index shifted by `offset`
pub open spec fn shifted_segments(segments: Seq<(u32, u32)>, offset: u32) -> Seq<(u32, u32)> {
    segments.map_values(|s: (u32, u32)| ((s.0 + offset) as u32, s.1))
}

/// The first `n` line geometries concatenated: vertices and colours one after the
/// other, each geometry's indices shifted by the vertices before it, and its segments
/// by the indices before it (offsets taken modulo 2^32, as `u32`)
pub open spec fn combined_lines<V>(geos: Seq<&LineGeometry<V>>, n: int) -> (Seq<V>, Seq<V>, Seq<u32>, Seq<(u32, u32)>)
    decreases n,
{
    if n <= 0 {
        (Seq::empty(), Seq::empty(), Seq::empty(), Seq::empty())
    } else {
        let prev = combined_lines(geos, n - 1);
        let g = geos[n - 1];
        (
            prev.0 + g.vertices@,
            prev.1 + g.colours@,
            prev.2 + shifted(g.indices@, line_vertex_total(geos, n - 1) as u32),
            prev.3 + shifted_segments(g.segments@, line_index_total(geos, n - 1) as u32),
        )
    }
}

/// Shifting `g`'s indices by `vertex_offset` and its segment starts by `index_offset`
/// stays within `u32`
pub open spec fn line_fits<V>(g: &LineGeometry<V>, vertex_offset: u32, index_offset: u32) -> bool {
    &&& forall|j: int| 0 <= j < g.indices@.len() ==> #[trigger] g.indices@[j] + vertex_offset <= u32::MAX
    &&& forall|j: int| 0 <= j < g.segments@.len() ==> #[trigger] g.segments@[j].0 + index_offset <= u32::MAX
}

/// No shifted index or segment start passes `u32::MAX`
pub open spec fn lines_fit<V>(geos: Seq<&LineGeometry<V>>) -> bool {
    forall|k: int| 0 <= k < geos.len() ==> line_fits(
        #[trigger] geos[k],
        line_vertex_total(geos, k) as u32,
        line_index_total(geos, k) as u32,
    )
}

/// Appends every item of `items` to `out`, in order
fn extend_copied<T: Copy>(out: &mut Vec<T>, items: &Vec<T>)
    ensures
        final(out)@ == old(out)@ + items@,
{
    let n = items.len();
    let mut j: usize = 0;
    while j < n
        invariant
            n == items@.len(),
            j <= n,
            out@ == old(out)@ + items@.subrange(0, j as int),
        decreases n - j,
    {
        out.push(items[j]);
        j = j + 1;
        assert(out@ =~= old(out)@ + items@.subrange(0, j as int));
    }
    assert(items@.subrange(0, n as int) =~= items@);
}

/// Appends `indices`, each shifted by `offset`
fn extend_shifted(out: &mut Vec<u32>, indices: &Vec<u32>, offset: u32)
    requires
        forall|j: int| 0 <= j < indices@.len() ==> indices@[j] + offset <= u32::MAX,
    ensures
        final(out)@ == old(out)@ + shifted(indices@, offset),
{
    let n = indices.len();
    let mut j: usize = 0;
    while j < n
        invariant
            n == indices@.len(),
            j <= n,
            forall|k: int| 0 <= k < indices@.len() ==> indices@[k] + offset <= u32::MAX,
            out@ == old(out)@ + shifted(indices@.subrange(0, j as int), offset),
        decreases n - j,
    {
        out.push(indices[j] + offset);
        j = j + 1;
        assert(out@ =~= old(out)@ + shifted(indices@.subrange(0, j as int), offset));
    }
    assert(indices@.subrange(0, n as int) =~= indices@);
}

/// Appends `segments`, each start shifted by `offset`
fn extend_shifted_segments(out: &mut Vec<(u32, u32)>, segments: &Vec<(u32, u32)>, offset: u32)
    requires
        forall|j: int| 0 <= j < segments@.len() ==> segments@[j].0 + offset <= u32::MAX,
    ensures
        final(out)@ == old(out)@ + shifted_segments(segments@, offset),
{
    let n = segments.len();
    let mut j: usize = 0;
    while j < n
        invariant
            n == segments@.len(),
            j <= n,
            forall|k: int| 0 <= k < segments@.len() ==> segments@[k].0 + offset <= u32::MAX,
            out@ == old(out)@ + shifted_segments(segments@.subrange(0, j as int), offset),
        decreases n - j,
    {
        let (start, count) = segments[j];
        out.push((start + offset, count));
        j = j + 1;
        assert(out@ =~= old(out)@ + shifted_segments(segments@.subrange(0, j as int), offset));
    }
    assert(segments@.subrange(0, n as int) =~= segments@);
}

/// Combine multiple line geometries into one, adjusting indices
pub fn combine_line_geometries<V: Copy>(geos: &[&LineGeometry<V>]) -> (r: LineGeometry<V>)
    requires
        lines_fit(geos@),
    ensures
        (r.vertices@, r.colours@, r.indices@, r.segments@) == combined_lines(geos@, geos@.len() as int),
{
    let mut vertices: Vec<V> = Vec::new();
    let mut colours: Vec<V> = Vec::new();
    let mut indices: Vec<u32> = Vec::new();
    let mut segments: Vec<(u32, u32)> = Vec::new();

    let n = geos.len();
    let mut k: usize = 0;
    while k < n
        invariant
            n == geos@.len(),
            k <= n,
            lines_fit(geos@),
            vertices@.len() == line_vertex_total(geos@, k as int),
            indices@.len() == line_index_total(geos@, k as int),
            (vertices@, colours@, indices@, segments@) == combined_lines(geos@, k as int),
        decreases n - k,
    {
        let geo = geos[k];
        assert(line_fits(geos@[k as int], line_vertex_total(geos@, k as int) as u32, line_index_total(geos@, k as int) as u32));
        let vertex_offset = vertices.len() as u32;
        let index_offset = indices.len() as u32;

        extend_copied(&mut vertices, &geo.vertices);
        extend_copied(&mut colours, &geo.colours);
        extend_shifted(&mut indices, &geo.indices, vertex_offset);
        extend_shifted_segments(&mut segments, &geo.segments, index_offset);
        proof {
            assert(shifted(geo.indices@, vertex_offset).len() == geo.indices@.len());
        }
        k = k + 1;
    }

    LineGeometry { vertices, colours, indices, segments }
}


/// Vertices of the first `n` mesh geometries
pub open spec fn mesh_vertex_total<V, U>(geos: Seq<&MeshGeometry<V, U>>, n: int) -> nat
    decreases n,
{
    if n <= 0 {
        0
    } else {
        mesh_vertex_total(geos, n - 1) + geos[n - 1].vertices@.len()
    }
}

/// The first `n` mesh geometries concatenated: every per-vertex buffer one after the
/// other, each geometry's indices shifted by the vertices before it (modulo 2^32)
pub open spec fn combined_meshes<V, U>(geos: Seq<&MeshGeometry<V, U>>, n: int) -> (Seq<V>, Seq<V>, Seq<V>, Seq<u32>, Seq<U>, Seq<V>)
    decreases n,
{
    if n <= 0 {
        (Seq::empty(), Seq::empty(), Seq::empty(), Seq::empty(), Seq::empty(), Seq::empty())
    } else {
        let prev = combined_meshes(geos, n - 1);
        let g = geos[n - 1];
        (
            prev.0 + g.vertices@,
            prev.1 + g.normals@,
            prev.2 + g.colours@,
            prev.3 + shifted(g.indices@, mesh_vertex_total(geos, n - 1) as u32),
            prev.4 + g.uvs@,
            prev.5 + g.tangents@,
        )
    }
}

/// Shifting `g`'s indices by `vertex_offset` stays within `u32`
pub open spec fn mesh_fits<V, U>(g: &MeshGeometry<V, U>, vertex_offset: u32) -> bool {
    forall|j: int| 0 <= j < g.indices@.len() ==> #[trigger] g.indices@[j] + vertex_offset <= u32::MAX
}

/// No shifted index passes `u32::MAX`
pub open spec fn meshes_fit<V, U>(geos: Seq<&MeshGeometry<V, U>>) -> bool {
    forall|k: int| 0 <= k < geos.len() ==> mesh_fits(#[trigger] geos[k], mesh_vertex_total(geos, k) as u32)
}

/// Combine multiple mesh geometries into one, adjusting indices
pub fn combine_mesh_geometries<V: Copy, U: Copy>(geos: &[&MeshGeometry<V, U>]) -> (r: MeshGeometry<V, U>)
    requires
        meshes_fit(geos@),
    ensures
        (r.vertices@, r.normals@, r.colours@, r.indices@, r.uvs@, r.tangents@) == combined_meshes(geos@, geos@.len() as int),
{
    let mut vertices: Vec<V> = Vec::new();
    let mut normals: Vec<V> = Vec::new();
    let mut colours: Vec<V> = Vec::new();
    let mut indices: Vec<u32> = Vec::new();
    let mut uvs: Vec<U> = Vec::new();
    let mut tangents: Vec<V> = Vec::new();

    let n = geos.len();
    let mut k: usize = 0;
    while k < n
        invariant
            n == geos@.len(),
            k <= n,
            meshes_fit(geos@),
            vertices@.len() == mesh_vertex_total(geos@, k as int),
            (vertices@, normals@, colours@, indices@, uvs@, tangents@) == combined_meshes(geos@, k as int),
        decreases n - k,
    {
        let geo = geos[k];
        assert(mesh_fits(geos@[k as int], mesh_vertex_total(geos@, k as int) as u32));
        let vertex_offset = vertices.len() as u32;

        extend_copied(&mut vertices, &geo.vertices);
        extend_copied(&mut normals, &geo.normals);
        extend_copied(&mut colours, &geo.colours);
        extend_shifted(&mut indices, &geo.indices, vertex_offset);
        extend_copied(&mut uvs, &geo.uvs);
        extend_copied(&mut tangents, &geo.tangents);
        k = k + 1;
    }

    MeshGeometry { vertices, normals, colours, indices, uvs, tangents }
}

// ── Laws ──

/// Combining a single line geometry gives it back unchanged.
pub proof fn lemma_combine_lines_single<V>(g: &LineGeometry<V>)
    ensures
        combined_lines(seq![g], 1) == (g.vertices@, g.colours@, g.indices@, g.segments@),
{
    let geos = seq![g];
    assert(geos[0] == g);
    assert(combined_lines(geos, 0) == (Seq::<V>::empty(), Seq::<V>::empty(), Seq::<u32>::empty(), Seq::<(u32, u32)>::empty()));
    assert(line_vertex_total(geos, 0) == 0);
    assert(line_index_total(geos, 0) == 0);
    assert(shifted(g.indices@, 0) =~= g.indices@);
    assert(shifted_segments(g.segments@, 0) =~= g.segments@);
    assert(Seq::<V>::empty() + g.vertices@ =~= g.vertices@);
    assert(Seq::<V>::empty() + g.colours@ =~= g.colours@);
    assert(Seq::<u32>::empty() + g.indices@ =~= g.indices@);
    assert(Seq::<(u32, u32)>::empty() + g.segments@ =~= g.segments@);
    let c = combined_lines(geos, 1);
    assert(c.0 == Seq::<V>::empty() + g.vertices@);
    assert(c.2 == Seq::<u32>::empty() + shifted(g.indices@, 0));
}

/// Segments of the first `n` line geometries
pub open spec fn line_segment_total<V>(geos: Seq<&LineGeometry<V>>, n: int) -> nat
    decreases n,
{
    if n <= 0 {
        0
    } else {
        line_segment_total(geos, n - 1) + geos[n - 1].segments@.len()
    }
}

proof fn lemma_line_totals_grow<V>(geos: Seq<&LineGeometry<V>>, a: int, b: int)
    requires
        0 <= a <= b,
    ensures
        line_vertex_total(geos, a) <= line_vertex_total(geos, b),
        line_index_total(geos, a) <= line_index_total(geos, b),
        line_segment_total(geos, a) <= line_segment_total(geos, b),
    decreases b,
{
    if a < b {
        lemma_line_totals_grow(geos, a, b - 1);
    }
}

/// Combining line geometries places each part after all the parts before it: the
/// combined buffers are as long as the parts together, part `k`'s vertices follow the
/// vertices of parts `0..k`, each of its indices is shifted by the number of those
/// vertices, and each of its segments starts later by the number of indices of parts
/// `0..k`, keeping its length. (The offsets are the totals of every earlier part; the
/// law needs the totals to fit in `u32`, where the offsets are exact.)
pub proof fn lemma_combined_lines_place_each_part<V>(geos: Seq<&LineGeometry<V>>, n: int)
    requires
        0 <= n <= geos.len(),
        line_vertex_total(geos, n) <= u32::MAX,
        line_index_total(geos, n) <= u32::MAX,
    ensures
        ({
            let c = combined_lines(geos, n);
            &&& c.0.len() == line_vertex_total(geos, n)
            &&& c.2.len() == line_index_total(geos, n)
            &&& c.3.len() == line_segment_total(geos, n)
            &&& forall|k: int, j: int| 0 <= k < n && 0 <= j < geos[k].vertices@.len()
                ==> c.0[line_vertex_total(geos, k) + j] == #[trigger] geos[k].vertices@[j]
            &&& forall|k: int, j: int| 0 <= k < n && 0 <= j < geos[k].indices@.len()
                ==> c.2[line_index_total(geos, k) + j] == (#[trigger] geos[k].indices@[j] + line_vertex_total(geos, k)) as u32
            &&& forall|k: int, j: int| 0 <= k < n && 0 <= j < geos[k].segments@.len()
                ==> c.3[line_segment_total(geos, k) + j] == (
                    (#[trigger] geos[k].segments@[j].0 + line_index_total(geos, k)) as u32,
                    geos[k].segments@[j].1,
                )
        }),
    decreases n,
{
    if n > 0 {
        lemma_line_totals_grow(geos, n - 1, n);
        lemma_combined_lines_place_each_part(geos, n - 1);
        let prev = combined_lines(geos, n - 1);
        let c = combined_lines(geos, n);
        let g = geos[n - 1];
        let vo = line_vertex_total(geos, n - 1);
        let io = line_index_total(geos, n - 1);
        assert forall|k: int, j: int| 0 <= k < n && 0 <= j < geos[k].vertices@.len()
            implies c.0[line_vertex_total(geos, k) + j] == #[trigger] geos[k].vertices@[j] by {
            if k < n - 1 {
                lemma_line_totals_grow(geos, k + 1, n - 1);
                assert(c.0[line_vertex_total(geos, k) + j] == prev.0[line_vertex_total(geos, k) + j]);
            }
        }
        assert forall|k: int, j: int| 0 <= k < n && 0 <= j < geos[k].indices@.len()
            implies c.2[line_index_total(geos, k) + j] == (#[trigger] geos[k].indices@[j] + line_vertex_total(geos, k)) as u32 by {
            if k < n - 1 {
                lemma_line_totals_grow(geos, k + 1, n - 1);
                assert(c.2[line_index_total(geos, k) + j] == prev.2[line_index_total(geos, k) + j]);
            } else {
                assert(c.2[io + j] == shifted(g.indices@, vo as u32)[j]);
            }
        }
        assert forall|k: int, j: int| 0 <= k < n && 0 <= j < geos[k].segments@.len()
            implies c.3[line_segment_total(geos, k) + j] == (
                (#[trigger] geos[k].segments@[j].0 + line_index_total(geos, k)) as u32,
                geos[k].segments@[j].1,
            ) by {
            if k < n - 1 {
                lemma_line_totals_grow(geos, k + 1, n - 1);
                assert(c.3[line_segment_total(geos, k) + j] == prev.3[line_segment_total(geos, k) + j]);
            } else {
                assert(c.3[line_segment_total(geos, n - 1) + j] == shifted_segments(g.segments@, io as u32)[j]);
            }
        }
    }
}

/// Combining meshes places each part after all the parts before it: part `k`'s
/// vertices follow the vertices of parts `0..k`, and each of its indices is shifted by
/// the number of those vertices (the law needs the vertex total to fit in `u32`).
pub proof fn lemma_combined_meshes_place_each_part<V, U>(geos: Seq<&MeshGeometry<V, U>>, n: int)
    requires
        0 <= n <= geos.len(),
        mesh_vertex_total(geos, n) <= u32::MAX,
    ensures
        ({
            let c = combined_meshes(geos, n);
            &&& c.0.len() == mesh_vertex_total(geos, n)
            &&& c.3.len() == mesh_index_total(geos, n)
            &&& forall|k: int, j: int| 0 <= k < n && 0 <= j < geos[k].vertices@.len()
                ==> c.0[mesh_vertex_total(geos, k) + j] == #[trigger] geos[k].vertices@[j]
            &&& forall|k: int, j: int| 0 <= k < n && 0 <= j < geos[k].indices@.len()
                ==> c.3[mesh_index_total(geos, k) + j] == (#[trigger] geos[k].indices@[j] + mesh_vertex_total(geos, k)) as u32
        }),
    decreases n,
{
    lemma_combined_mesh_len(geos, n);
    if n > 0 {
        lemma_mesh_totals_grow(geos, n - 1, n);
        lemma_combined_meshes_place_each_part(geos, n - 1);
        lemma_combined_mesh_len(geos, n - 1);
        let prev = combined_meshes(geos, n - 1);
        let c = combined_meshes(geos, n);
        let g = geos[n - 1];
        let vo = mesh_vertex_total(geos, n - 1);
        let io = mesh_index_total(geos, n - 1);
        assert forall|k: int, j: int| 0 <= k < n && 0 <= j < geos[k].vertices@.len()
            implies c.0[mesh_vertex_total(geos, k) + j] == #[trigger] geos[k].vertices@[j] by {
            if k < n - 1 {
                lemma_mesh_totals_grow(geos, k + 1, n - 1);
                assert(c.0[mesh_vertex_total(geos, k) + j] == prev.0[mesh_vertex_total(geos, k) + j]);
            }
        }
        assert forall|k: int, j: int| 0 <= k < n && 0 <= j < geos[k].indices@.len()
            implies c.3[mesh_index_total(geos, k) + j] == (#[trigger] geos[k].indices@[j] + mesh_vertex_total(geos, k)) as u32 by {
            if k < n - 1 {
                lemma_mesh_totals_grow(geos, k + 1, n - 1);
                assert(c.3[mesh_index_total(geos, k) + j] == prev.3[mesh_index_total(geos, k) + j]);
            } else {
                assert(c.3[io + j] == shifted(g.indices@, vo as u32)[j]);
            }
        }
    }
}

proof fn lemma_mesh_totals_grow<V, U>(geos: Seq<&MeshGeometry<V, U>>, a: int, b: int)
    requires
        0 <= a <= b,
    ensures
        mesh_vertex_total(geos, a) <= mesh_vertex_total(geos, b),
        mesh_index_total(geos, a) <= mesh_index_total(geos, b),
    decreases b,
{
    if a < b {
        lemma_mesh_totals_grow(geos, a, b - 1);
    }
}

/// Every index refers to a vertex of its own geometry
pub open spec fn mesh_indices_valid<V, U>(g: &MeshGeometry<V, U>) -> bool {
    forall|j: int| 0 <= j < g.indices@.len() ==> #[trigger] g.indices@[j] < g.vertices@.len()
}

proof fn lemma_combined_mesh_len<V, U>(geos: Seq<&MeshGeometry<V, U>>, n: int)
    requires
        0 <= n <= geos.len(),
    ensures
        combined_meshes(geos, n).0.len() == mesh_vertex_total(geos, n),
        combined_meshes(geos, n).3.len() == mesh_index_total(geos, n),
    decreases n,
{
    if n > 0 {
        lemma_combined_mesh_len(geos, n - 1);
    }
}

/// Indices of the first `n` mesh geometries
pub open spec fn mesh_index_total<V, U>(geos: Seq<&MeshGeometry<V, U>>, n: int) -> nat
    decreases n,
{
    if n <= 0 {
        0
    } else {
        mesh_index_total(geos, n - 1) + geos[n - 1].indices@.len()
    }
}

/// Combining meshes keeps every index pointing into its own geometry's vertices: an
/// index that came from the `k`-th geometry lies within that geometry's vertex range
/// in the combined buffer. So when every part indexes only its own vertices and the
/// combined vertex count fits in `u32`, every combined index names a combined vertex.
pub proof fn lemma_combine_mesh_indices_valid<V, U>(geos: Seq<&MeshGeometry<V, U>>, n: int)
    requires
        0 <= n <= geos.len(),
        forall|k: int| 0 <= k < geos.len() ==> mesh_indices_valid(#[trigger] geos[k]),
        mesh_vertex_total(geos, n) <= u32::MAX,
    ensures
        forall|j: int| 0 <= j < combined_meshes(geos, n).3.len() ==>
            #[trigger] combined_meshes(geos, n).3[j] < combined_meshes(geos, n).0.len(),
    decreases n,
{
    lemma_combined_mesh_len(geos, n);
    if n > 0 {
        lemma_mesh_totals_grow(geos, n - 1, n);
        lemma_combine_mesh_indices_valid(geos, n - 1);
        lemma_combined_mesh_len(geos, n - 1);
        let prev = combined_meshes(geos, n - 1);
        let g = geos[n - 1];
        let off = mesh_vertex_total(geos, n - 1);
        assert(mesh_indices_valid(g));
        let all = combined_meshes(geos, n).3;
        assert forall|j: int| 0 <= j < all.len() implies #[trigger] all[j] < combined_meshes(geos, n).0.len() by {
            if j < prev.3.len() {
                assert(all[j] == prev.3[j]);
            } else {
                let jj = j - prev.3.len();
                assert(all[j] == shifted(g.indices@, off as u32)[jj]);
                assert(g.indices@[jj] < g.vertices@.len());
            }
        }
    }
}

// ── Index patterns of generated shapes ──

/// The `j`-th index of a cylinder of `segments` quads whose vertices start at `base`:
/// vertex `base + 2 i` on the base ring and `base + 2 i + 1` on the tip ring, quad `i`
/// joining ring positions `i` and `i + 1` (wrapping round) as two triangles
pub open spec fn cylinder_index(base: u32, segments: u32, j: int) -> u32 {
    let i = j / 6;
    let next = (i + 1) % (segments as int);
    let b0 = base + i * 2;
    let t0 = base + i * 2 + 1;
    let b1 = base + next * 2;
    let t1 = base + next * 2 + 1;
    let r = j % 6;
    (if r == 0 {
        b0
    } else if r == 1 || r == 4 {
        t0
    } else if r == 2 || r == 3 {
        b1
    } else {
        t1
    }) as u32
}

/// Triangle indices of a cylinder mesh with `segments` sides
pub fn cylinder_indices(base: u32, segments: u32) -> (r: Vec<u32>)
    requires
        base + 2 * segments <= u32::MAX + 1,
    ensures
        r@.len() == 6 * segments,
        forall|j: int| 0 <= j < r@.len() ==> #[trigger] r@[j] == cylinder_index(base, segments, j),
{
    let mut indices: Vec<u32> = Vec::new();
    let mut i: u32 = 0;
    while i < segments
        invariant
            base + 2 * segments <= u32::MAX + 1,
            i <= segments,
            indices@.len() == 6 * i,
            forall|j: int| 0 <= j < indices@.len() ==> #[trigger] indices@[j] == cylinder_index(base, segments, j),
        decreases segments - i,
    {
        let next = (i + 1) % segments;
        let b0 = base + i * 2;
        let t0 = base + i * 2 + 1;
        let b1 = base + next * 2;
        let t1 = base + next * 2 + 1;
        let ghost start = indices@.len() as int;

        // Triangle 1
        indices.push(b0);
        indices.push(t0);
        indices.push(b1);

        // Triangle 2
        indices.push(b1);
        indices.push(t0);
        indices.push(t1);

        proof {
            assert forall|j: int| start <= j < start + 6 implies #[trigger] indices@[j] == cylinder_index(base, segments, j) by {
                assert(j / 6 == i as int) by (nonlinear_arith)
                    requires
                        start == 6 * i,
                        start <= j < start + 6,
                ;
                assert(j % 6 == j - start) by (nonlinear_arith)
                    requires
                        start == 6 * i,
                        start <= j < start + 6,
                ;
            }
        }
        i = i + 1;
    }
    indices
}

/// Every index of a cylinder with `segments >= 1` sides names one of its `2 * segments`
/// vertices.
pub proof fn lemma_cylinder_indices_in_range(base: u32, segments: u32, j: int)
    requires
        1 <= segments,
        0 <= j < 6 * segments,
        base + 2 * segments <= u32::MAX + 1,
    ensures
        base <= cylinder_index(base, segments, j) < base + 2 * segments,
{
    let i = j / 6;
    assert(0 <= i < segments) by (nonlinear_arith)
        requires
            0 <= j < 6 * segments,
            i == j / 6,
    ;
    let next = (i + 1) % (segments as int);
    assert(0 <= next < segments);
}

/// Triangle indices of a double-sided leaf quad whose eight vertices start at `base`:
/// the front face (vertices `base..base + 4`) and the back face (`base + 4..base + 8`)
/// wound the other way
pub fn leaf_indices(base: u32) -> (r: [u32; 12])
    requires
        base + 7 <= u32::MAX,
    ensures
        r@ == seq![
            base, (base + 2) as u32, (base + 1) as u32,
            (base + 1) as u32, (base + 2) as u32, (base + 3) as u32,
            (base + 4) as u32, (base + 5) as u32, (base + 6) as u32,
            (base + 5) as u32, (base + 7) as u32, (base + 6) as u32,
        ],
{
    let r = [
        // Front face triangles
        base,
        base + 2,
        base + 1,
        base + 1,
        base + 2,
        base + 3,
        // Back face triangles
        base + 4,
        base + 5,
        base + 6,
        base + 5,
        base + 7,
        base + 6,
    ];
    assert(r@ =~= seq![
            base, (base + 2) as u32, (base + 1) as u32,
            (base + 1) as u32, (base + 2) as u32, (base + 3) as u32,
            (base + 4) as u32, (base + 5) as u32, (base + 6) as u32,
            (base + 5) as u32, (base + 7) as u32, (base + 6) as u32,
        ]);
    r
}

} // verus!
