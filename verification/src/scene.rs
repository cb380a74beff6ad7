use std::collections::HashMap;
use vstd::prelude::*;

verus! {

broadcast use vstd::std_specs::hash::group_hash_axioms;

/// A triangle, given by the indices of its three vertices.
pub type Triangle = [u32; 3];

/// A triangle mesh: vertex positions of type `V` and triangles indexing into them.
pub struct Geometry<V> {
    /// The vertex positions.
    pub positions: Vec<V>,

    /// The triangles, each referencing three entries of `positions`.
    pub triangles: Vec<Triangle>,
}

/// A single instantiated geometry.
#[derive(Clone)]
pub struct Instance<M> {
    /// The index of the instantiated geometry in the scene.
    pub geometry_index: usize,

    /// The transformation of the geometry into the global coordinate system.
    pub transform: M,
}

/// A scene is the overall loaded geometry data: geometries and their instances.
pub struct Scene<V, M> {
    geometries: Vec<Geometry<V>>,
    instances: Vec<Instance<M>>,
}

/// Counts of the vertices and triangles of a scene.
pub struct SceneStats {
    /// The number of geometries.
    pub num_geometries: usize,

    /// The number of instances.
    pub num_instances: usize,

    /// The number of vertices over all geometries, each geometry counted once.
    pub num_unique_vertices: usize,

    /// The number of triangles over all geometries, each geometry counted once.
    pub num_unique_triangles: usize,

    /// The number of vertices over all instances.
    pub num_vertices: usize,

    /// The number of triangles over all instances.
    pub num_triangles: usize,
}

/// The number of vertices of the first `n` geometries.
pub open spec fn sum_geometry_vertices<V>(geometries: Seq<Geometry<V>>, n: int) -> int
    decreases n,
{
    if n <= 0 {
        0
    } else {
        sum_geometry_vertices(geometries, n - 1) + geometries[n - 1].positions@.len()
    }
}

/// The number of triangles of the first `n` geometries.
pub open spec fn sum_geometry_triangles<V>(geometries: Seq<Geometry<V>>, n: int) -> int
    decreases n,
{
    if n <= 0 {
        0
    } else {
        sum_geometry_triangles(geometries, n - 1) + geometries[n - 1].triangles@.len()
    }
}

/// The number of vertices of the geometries of the first `n` instances.
pub open spec fn sum_instance_vertices<V, M>(
    geometries: Seq<Geometry<V>>,
    instances: Seq<Instance<M>>,
    n: int,
) -> int
    decreases n,
{
    if n <= 0 {
        0
    } else {
        sum_instance_vertices(geometries, instances, n - 1)
            + geometries[instances[n - 1].geometry_index as int].positions@.len()
    }
}

/// The number of triangles of the geometries of the first `n` instances.
pub open spec fn sum_instance_triangles<V, M>(
    geometries: Seq<Geometry<V>>,
    instances: Seq<Instance<M>>,
    n: int,
) -> int
    decreases n,
{
    if n <= 0 {
        0
    } else {
        sum_instance_triangles(geometries, instances, n - 1)
            + geometries[instances[n - 1].geometry_index as int].triangles@.len()
    }
}

/// The counts over the first `m` geometries only read those.
proof fn lemma_geometry_sums_prefix<V>(a: Seq<Geometry<V>>, b: Seq<Geometry<V>>, m: int)
    requires
        0 <= m <= a.len(),
    ensures
        sum_geometry_vertices(a + b, m) == sum_geometry_vertices(a, m),
        sum_geometry_triangles(a + b, m) == sum_geometry_triangles(a, m),
    decreases m,
{
    if m > 0 {
        lemma_geometry_sums_prefix(a, b, m - 1);
        assert((a + b)[m - 1] == a[m - 1]);
    }
}

/// The counts over the first `m` instances only read those.
proof fn lemma_instance_sums_prefix<V, M>(
    gs: Seq<Geometry<V>>,
    c: Seq<Instance<M>>,
    d: Seq<Instance<M>>,
    m: int,
)
    requires
        0 <= m <= c.len(),
    ensures
        sum_instance_vertices(gs, c + d, m) == sum_instance_vertices(gs, c, m),
        sum_instance_triangles(gs, c + d, m) == sum_instance_triangles(gs, c, m),
    decreases m,
{
    if m > 0 {
        lemma_instance_sums_prefix(gs, c, d, m - 1);
        assert((c + d)[m - 1] == c[m - 1]);
    }
}

/// The counts over two lists of geometries, or of instances, one after the other are the sums of
/// the counts over each list; one geometry counts its own vertices and triangles, and one
/// instance those of the geometry it references.
pub proof fn lemma_scene_counts_additive<V, M>(
    a: Seq<Geometry<V>>,
    b: Seq<Geometry<V>>,
    gs: Seq<Geometry<V>>,
    c: Seq<Instance<M>>,
    d: Seq<Instance<M>>,
    g: Geometry<V>,
    inst: Instance<M>,
)
    ensures
        sum_geometry_vertices(a + b, (a + b).len() as int) == sum_geometry_vertices(a, a.len() as int)
            + sum_geometry_vertices(b, b.len() as int),
        sum_geometry_triangles(a + b, (a + b).len() as int) == sum_geometry_triangles(
            a,
            a.len() as int,
        ) + sum_geometry_triangles(b, b.len() as int),
        sum_instance_vertices(gs, c + d, (c + d).len() as int) == sum_instance_vertices(
            gs,
            c,
            c.len() as int,
        ) + sum_instance_vertices(gs, d, d.len() as int),
        sum_instance_triangles(gs, c + d, (c + d).len() as int) == sum_instance_triangles(
            gs,
            c,
            c.len() as int,
        ) + sum_instance_triangles(gs, d, d.len() as int),
        sum_geometry_vertices(seq![g], 1) == g.positions@.len(),
        sum_geometry_triangles(seq![g], 1) == g.triangles@.len(),
        sum_instance_vertices(gs, seq![inst], 1) == gs[inst.geometry_index as int].positions@.len(),
        sum_instance_triangles(gs, seq![inst], 1) == gs[inst.geometry_index as int].triangles@.len(),
{
    lemma_sums_concat(a, b, gs, c, d, b.len() as int, d.len() as int);
    let sg = seq![g];
    let si = seq![inst];
    assert(sg[0] == g);
    assert(si[0] == inst);
    assert(sum_geometry_vertices(sg, 1) == sum_geometry_vertices(sg, 0) + sg[0].positions@.len());
    assert(sum_geometry_triangles(sg, 1) == sum_geometry_triangles(sg, 0) + sg[0].triangles@.len());
    assert(sum_instance_vertices(gs, si, 1) == sum_instance_vertices(gs, si, 0)
        + gs[si[0].geometry_index as int].positions@.len());
    assert(sum_instance_triangles(gs, si, 1) == sum_instance_triangles(gs, si, 0)
        + gs[si[0].geometry_index as int].triangles@.len());
}

/// The counts over a list followed by the first `k` entries of another.
proof fn lemma_sums_concat<V, M>(
    a: Seq<Geometry<V>>,
    b: Seq<Geometry<V>>,
    gs: Seq<Geometry<V>>,
    c: Seq<Instance<M>>,
    d: Seq<Instance<M>>,
    k: int,
    l: int,
)
    requires
        0 <= k <= b.len(),
        0 <= l <= d.len(),
    ensures
        sum_geometry_vertices(a + b, a.len() + k) == sum_geometry_vertices(a, a.len() as int)
            + sum_geometry_vertices(b, k),
        sum_geometry_triangles(a + b, a.len() + k) == sum_geometry_triangles(a, a.len() as int)
            + sum_geometry_triangles(b, k),
        sum_instance_vertices(gs, c + d, c.len() + l) == sum_instance_vertices(gs, c, c.len() as int)
            + sum_instance_vertices(gs, d, l),
        sum_instance_triangles(gs, c + d, c.len() + l) == sum_instance_triangles(
            gs,
            c,
            c.len() as int,
        ) + sum_instance_triangles(gs, d, l),
    decreases k + l,
{
    if k > 0 {
        lemma_sums_concat(a, b, gs, c, d, k - 1, l);
        assert((a + b)[a.len() + k - 1] == b[k - 1]);
    } else if l > 0 {
        lemma_sums_concat(a, b, gs, c, d, k, l - 1);
        assert((c + d)[c.len() + l - 1] == d[l - 1]);
    } else {
        lemma_geometry_sums_prefix(a, b, a.len() as int);
        lemma_instance_sums_prefix(gs, c, d, c.len() as int);
    }
}

/// In a scene with exactly one instance per geometry, in order, the instantiated counts are the
/// unique counts.
pub proof fn lemma_one_instance_per_geometry<V, M>(gs: Seq<Geometry<V>>, is: Seq<Instance<M>>, n: int)
    requires
        0 <= n <= gs.len(),
        is.len() == gs.len(),
        forall|i: int| 0 <= i < is.len() ==> (#[trigger] is[i]).geometry_index == i,
    ensures
        sum_instance_vertices(gs, is, n) == sum_geometry_vertices(gs, n),
        sum_instance_triangles(gs, is, n) == sum_geometry_triangles(gs, n),
    decreases n,
{
    if n > 0 {
        lemma_one_instance_per_geometry(gs, is, n - 1);
        assert(is[n - 1].geometry_index == n - 1);
    }
}

/// Each instance references an existing geometry.
pub open spec fn instances_valid<V, M>(geometries: Seq<Geometry<V>>, instances: Seq<Instance<M>>) -> bool {
    forall|i: int| 0 <= i < instances.len() ==> (#[trigger] instances[i]).geometry_index < geometries.len()
}

/// The vertex and triangle counts only grow with the number of geometries or instances counted.
proof fn lemma_sums_monotone<V, M>(
    geometries: Seq<Geometry<V>>,
    instances: Seq<Instance<M>>,
    i: int,
    j: int,
)
    requires
        0 <= i <= j,
    ensures
        sum_geometry_vertices(geometries, i) <= sum_geometry_vertices(geometries, j),
        sum_geometry_triangles(geometries, i) <= sum_geometry_triangles(geometries, j),
        sum_instance_vertices(geometries, instances, i) <= sum_instance_vertices(geometries, instances, j),
        sum_instance_triangles(geometries, instances, i) <= sum_instance_triangles(geometries, instances, j),
    decreases j - i,
{
    if i < j {
        lemma_sums_monotone(geometries, instances, i, j - 1);
    }
}

impl<V, M> Scene<V, M> {
    /// Every instance references one of the geometries of the scene.
    #[verifier::type_invariant]
    spec fn instances_reference_geometries(&self) -> bool {
        instances_valid(self.geometries@, self.instances@)
    }

    /// The geometries of the scene.
    pub closed spec fn geometries_view(&self) -> Seq<Geometry<V>> {
        self.geometries@
    }

    /// The instances of the scene.
    pub closed spec fn instances_view(&self) -> Seq<Instance<M>> {
        self.instances@
    }

    /// Returns an empty scene. Should only be used for debugging.
    pub fn empty() -> (r: Self)
        ensures
            r.geometries_view() == Seq::<Geometry<V>>::empty(),
            r.instances_view() == Seq::<Instance<M>>::empty(),
    {
        Self { geometries: Vec::new(), instances: Vec::new() }
    }

    /// Returns the geometries of the scene.
    pub fn get_geometries(&self) -> (r: &[Geometry<V>])
        ensures
            r@ == self.geometries_view(),
            instances_valid(self.geometries_view(), self.instances_view()),
    {
        proof {
            use_type_invariant(self);
        }
        self.geometries.as_slice()
    }

    /// Returns the instances of the scene, i.e., instantiated geometries. Each of them references
    /// one of the geometries of the scene.
    pub fn get_instances(&self) -> (r: &[Instance<M>])
        ensures
            r@ == self.instances_view(),
            instances_valid(self.geometries_view(), self.instances_view()),
    {
        proof {
            use_type_invariant(self);
        }
        self.instances.as_slice()
    }

    /// Computes the vertex and triangle counts of the scene, each geometry counted once and
    /// once per instance.
    pub fn compute_scene_stats(&self) -> (r: SceneStats)
        requires
            sum_geometry_vertices(self.geometries_view(), self.geometries_view().len() as int) <= usize::MAX,
            sum_geometry_triangles(self.geometries_view(), self.geometries_view().len() as int) <= usize::MAX,
            sum_instance_vertices(self.geometries_view(), self.instances_view(), self.instances_view().len() as int)
                <= usize::MAX,
            sum_instance_triangles(self.geometries_view(), self.instances_view(), self.instances_view().len() as int)
                <= usize::MAX,
        ensures
            r.num_geometries == self.geometries_view().len(),
            r.num_instances == self.instances_view().len(),
            r.num_unique_vertices == sum_geometry_vertices(self.geometries_view(), self.geometries_view().len() as int),
            r.num_unique_triangles == sum_geometry_triangles(self.geometries_view(), self.geometries_view().len() as int),
            r.num_vertices == sum_instance_vertices(self.geometries_view(), self.instances_view(), self.instances_view().len() as int),
            r.num_triangles == sum_instance_triangles(self.geometries_view(), self.instances_view(), self.instances_view().len() as int),
    {
        let ghost gs = self.geometries@;
        let ghost is = self.instances@;
        let mut num_vertices = 0usize;
        let mut num_triangles = 0usize;

        let mut num_unique_vertices = 0usize;
        let mut num_unique_triangles = 0usize;

        let geometries = self.get_geometries();
        let instances = self.get_instances();

        let mut i: usize = 0;
        while i < geometries.len()
            invariant
                geometries@ == gs,
                0 <= i <= gs.len(),
                num_unique_vertices == sum_geometry_vertices(gs, i as int),
                num_unique_triangles == sum_geometry_triangles(gs, i as int),
                sum_geometry_vertices(gs, gs.len() as int) <= usize::MAX,
                sum_geometry_triangles(gs, gs.len() as int) <= usize::MAX,
            decreases gs.len() - i,
        {
            proof {
                lemma_sums_monotone(gs, is, i + 1, gs.len() as int);
            }
            num_unique_vertices += geometries[i].positions.len();
            num_unique_triangles += geometries[i].triangles.len();
            i += 1;
        }

        let mut j: usize = 0;
        while j < instances.len()
            invariant
                geometries@ == gs,
                instances@ == is,
                instances_valid(gs, is),
                0 <= j <= is.len(),
                num_vertices == sum_instance_vertices(gs, is, j as int),
                num_triangles == sum_instance_triangles(gs, is, j as int),
                sum_instance_vertices(gs, is, is.len() as int) <= usize::MAX,
                sum_instance_triangles(gs, is, is.len() as int) <= usize::MAX,
            decreases is.len() - j,
        {
            proof {
                lemma_sums_monotone(gs, is, j + 1, is.len() as int);
            }
            let geo = &geometries[instances[j].geometry_index];
            num_vertices += geo.positions.len();
            num_triangles += geo.triangles.len();
            j += 1;
        }

        SceneStats {
            num_geometries: geometries.len(),
            num_instances: instances.len(),
            num_unique_vertices,
            num_unique_triangles,
            num_vertices,
            num_triangles,
        }
    }
}

/// A mesh as read from CAD data: the vertex positions, whether its primitives are triangles,
/// and its vertex indices, if it has any.
pub struct MeshData<V> {
    /// The vertex positions of the mesh.
    pub positions: Vec<V>,
    /// True if the primitives of the mesh are triangles.
    pub is_triangles: bool,
    /// The vertex indices of the primitives, three per triangle.
    pub indices: Option<Vec<u32>>,
}

/// True if the mesh holds indexed triangles, the only kind of mesh that is taken over.
pub open spec fn mesh_supported<V>(mesh: MeshData<V>) -> bool {
    mesh.is_triangles && mesh.indices is Some
}

/// The indices of the mesh, or none.
pub open spec fn mesh_indices<V>(mesh: MeshData<V>) -> Seq<u32> {
    match mesh.indices {
        Some(v) => v@,
        None => seq![],
    }
}

/// Moving every index of a complete triangle of the mesh by `offset` stays within 32 bits.
pub open spec fn mesh_offset_fits<V>(mesh: MeshData<V>, offset: int) -> bool {
    let idx = mesh_indices(mesh);
    forall|j: int| 0 <= j < 3 * (idx.len() / 3) ==> #[trigger] idx[j] + offset <= u32::MAX
}

/// `tris` are the complete triangles of the index list `idx`, each index moved by `offset`;
/// trailing indices that do not complete a triangle are dropped.
pub open spec fn offset_triangles(tris: Seq<Triangle>, idx: Seq<u32>, offset: int) -> bool {
    &&& tris.len() == idx.len() / 3
    &&& forall|k: int, c: int|
        0 <= k < tris.len() && 0 <= c < 3 ==> #[trigger] tris[k][c] == idx[3 * k + c] + offset
}

/// Extends the given positions and triangles by the given CAD mesh. Only indexed triangle meshes
/// are taken over; any other mesh is skipped.
///
/// # Arguments
/// * `dst_positions` - Mutable reference for storing the parsed positions
/// * `dst_triangles` - Mutable reference for storing the parsed triangles
/// * `mesh` - The CAD-mesh that is transformed into a geometry.
pub fn extend_mesh<V: Copy>(
    dst_positions: &mut Vec<V>,
    dst_triangles: &mut Vec<Triangle>,
    mesh: &MeshData<V>,
)
    requires
        mesh_supported(*mesh) ==> mesh_offset_fits(*mesh, (old(dst_positions)@.len() as u32) as int),
    ensures
        mesh_supported(*mesh) ==> {
            &&& final(dst_positions)@ == old(dst_positions)@ + mesh.positions@
            &&& final(dst_triangles)@.len() >= old(dst_triangles)@.len()
            &&& final(dst_triangles)@.subrange(0, old(dst_triangles)@.len() as int)
                == old(dst_triangles)@
            &&& offset_triangles(
                final(dst_triangles)@.subrange(
                    old(dst_triangles)@.len() as int,
                    final(dst_triangles)@.len() as int,
                ),
                mesh_indices(*mesh),
                (old(dst_positions)@.len() as u32) as int,
            )
        },
        !mesh_supported(*mesh) ==> final(dst_positions)@ == old(dst_positions)@
            && final(dst_triangles)@ == old(dst_triangles)@,
{
    if !mesh.is_triangles {
        return;
    }
    let indices = match &mesh.indices {
        Some(indices) => indices,
        None => {
            return;
        },
    };
    let ghost old_tris = dst_triangles@;
    let ghost idx = indices@;
    let index_offset = dst_positions.len() as u32;
    let len = indices.len();
    let n = len / 3;
    let mut k: usize = 0;
    while k < n
        invariant
            len == idx.len(),
            n == idx.len() / 3,
            idx == indices@,
            k <= n,
            mesh_offset_fits(*mesh, index_offset as int),
            mesh_indices(*mesh) == idx,
            dst_triangles@.len() == old_tris.len() + k,
            dst_triangles@.subrange(0, old_tris.len() as int) == old_tris,
            forall|q: int, c: int|
                0 <= q < k && 0 <= c < 3 ==> #[trigger] dst_triangles@[old_tris.len() + q][c]
                    == idx[3 * q + c] + index_offset,
        decreases n - k,
    {
        assert(3 * k + 2 < 3 * (idx.len() / 3));
        assert(idx[3 * k as int] + index_offset <= u32::MAX);
        assert(idx[3 * k + 1] + index_offset <= u32::MAX);
        assert(idx[3 * k + 2] + index_offset <= u32::MAX);
        let j = 3 * k;
        let a = indices[j] + index_offset;
        let b = indices[j + 1] + index_offset;
        let c = indices[j + 2] + index_offset;
        let t: Triangle = [a, b, c];
        dst_triangles.push(t);
        k += 1;
    }
    let ghost old_pos = dst_positions@;
    let mut i: usize = 0;
    while i < mesh.positions.len()
        invariant
            i <= mesh.positions@.len(),
            dst_positions@ == old_pos + mesh.positions@.subrange(0, i as int),
        decreases mesh.positions@.len() - i,
    {
        dst_positions.push(mesh.positions[i]);
        i += 1;
    }
    proof {
        assert(mesh.positions@.subrange(0, mesh.positions@.len() as int) == mesh.positions@);
        let new_tris = dst_triangles@.subrange(old_tris.len() as int, dst_triangles@.len() as int);
        assert forall|q: int, c: int| 0 <= q < new_tris.len() && 0 <= c < 3 implies #[trigger] new_tris[q][c]
            == idx[3 * q + c] + index_offset by {
            assert(new_tris[q] == dst_triangles@[old_tris.len() + q]);
        }
    }
}

/// A shape as read from CAD data: its identifier and the meshes of its parts.
pub struct ShapeData<V> {
    /// The identifier of the shape; instances of one shape share it.
    pub id: u64,
    /// The meshes of the parts of the shape.
    pub parts: Vec<MeshData<V>>,
}

/// The number of vertices taken over from the first `n` parts.
pub open spec fn parts_vertices<V>(parts: Seq<MeshData<V>>, n: int) -> int
    decreases n,
{
    if n <= 0 {
        0
    } else {
        parts_vertices(parts, n - 1) + if mesh_supported(parts[n - 1]) {
            parts[n - 1].positions@.len() as int
        } else {
            0
        }
    }
}

/// The number of triangles taken over from the first `n` parts.
pub open spec fn parts_triangles<V>(parts: Seq<MeshData<V>>, n: int) -> int
    decreases n,
{
    if n <= 0 {
        0
    } else {
        parts_triangles(parts, n - 1) + if mesh_supported(parts[n - 1]) {
            mesh_indices(parts[n - 1]).len() / 3
        } else {
            0
        }
    }
}

/// The vertex offset of the part `p` in the geometry, as the 32-bit value its indices move by.
pub open spec fn part_offset32<V>(parts: Seq<MeshData<V>>, p: int) -> int {
    (parts_vertices(parts, p) as u32) as int
}

/// The triangle indices of every part fit into 32 bits once moved by the part's vertex offset.
pub open spec fn parts_offsets_fit<V>(parts: Seq<MeshData<V>>) -> bool {
    forall|p: int|
        0 <= p < parts.len() && mesh_supported(#[trigger] parts[p]) ==> mesh_offset_fits(
            parts[p],
            part_offset32(parts, p),
        )
}

/// The geometry holds the positions and triangles of the first `n` parts: the supported parts
/// one after another, the triangle indices of each moved by the number of vertices before it.
pub open spec fn geometry_of_parts<V>(g: Geometry<V>, parts: Seq<MeshData<V>>, n: int) -> bool {
    &&& g.positions@.len() == parts_vertices(parts, n)
    &&& g.triangles@.len() == parts_triangles(parts, n)
    &&& forall|p: int, i: int|
        0 <= p < n && mesh_supported(parts[p]) && 0 <= i < parts[p].positions@.len()
            ==> #[trigger] g.positions@[parts_vertices(parts, p) + i] == parts[p].positions@[i]
    &&& forall|p: int, k: int|
        0 <= p < n && mesh_supported(parts[p]) && 0 <= k < mesh_indices(parts[p]).len() / 3
            ==> triangle_moved(
            #[trigger] g.triangles@[parts_triangles(parts, p) + k],
            mesh_indices(parts[p]),
            k,
            part_offset32(parts, p),
        )
}

/// The triangle `t` holds the indices of the `k`-th triangle of `idx`, moved by `offset`.
pub open spec fn triangle_moved(t: Triangle, idx: Seq<u32>, k: int, offset: int) -> bool {
    forall|c: int| 0 <= c < 3 ==> #[trigger] t[c] == idx[3 * k + c] + offset
}

/// The vertex and triangle counts of the parts only grow with the number of parts counted.
proof fn lemma_parts_counts_monotone<V>(parts: Seq<MeshData<V>>, i: int, j: int)
    requires
        0 <= i <= j,
    ensures
        0 <= parts_vertices(parts, i) <= parts_vertices(parts, j),
        0 <= parts_triangles(parts, i) <= parts_triangles(parts, j),
    decreases j - i,
{
    if i < j {
        lemma_parts_counts_monotone(parts, i, j - 1);
    } else {
        lemma_parts_counts_nonnegative(parts, i);
    }
}

/// The vertex and triangle counts of the parts are not negative.
proof fn lemma_parts_counts_nonnegative<V>(parts: Seq<MeshData<V>>, n: int)
    ensures
        0 <= parts_vertices(parts, n),
        0 <= parts_triangles(parts, n),
    decreases n,
{
    if n > 0 {
        lemma_parts_counts_nonnegative(parts, n - 1);
    }
}

/// Creates a geometry object from the given shape: the positions and triangles of its parts.
///
/// # Arguments
/// * `shape` - The shape whose data are transformed into a geometry object.
pub fn create_geometry_from_shape<V: Copy>(shape: &ShapeData<V>) -> (g: Geometry<V>)
    requires
        parts_offsets_fit(shape.parts@),
    ensures
        geometry_of_parts(g, shape.parts@, shape.parts@.len() as int),
{
    let ghost parts = shape.parts@;
    let mut positions: Vec<V> = Vec::new();
    let mut triangles: Vec<Triangle> = Vec::new();
    let mut p: usize = 0;
    while p < shape.parts.len()
        invariant
            parts == shape.parts@,
            p <= parts.len(),
            parts_offsets_fit(parts),
            geometry_of_parts(Geometry { positions, triangles }, parts, p as int),
        decreases parts.len() - p,
    {
        let ghost old_pos = positions@;
        let ghost old_tris = triangles@;
        proof {
            lemma_parts_counts_monotone(parts, p as int, p as int);
        }
        extend_mesh(&mut positions, &mut triangles, &shape.parts[p]);
        proof {
            let q = p as int;
            let g = Geometry { positions, triangles };
            assert(parts_vertices(parts, q + 1) == parts_vertices(parts, q) + if mesh_supported(
                parts[q],
            ) {
                parts[q].positions@.len() as int
            } else {
                0
            });
            assert forall|r: int, i: int|
                0 <= r < q + 1 && mesh_supported(parts[r]) && 0 <= i < parts[r].positions@.len()
                    implies #[trigger] g.positions@[parts_vertices(parts, r) + i]
                    == parts[r].positions@[i] by {
                if r < q {
                    lemma_parts_counts_monotone(parts, r + 1, q);
                    lemma_parts_counts_monotone(parts, 0, r);
                    assert(parts_vertices(parts, r + 1) == parts_vertices(parts, r)
                        + parts[r].positions@.len());
                    assert(old_pos.len() == parts_vertices(parts, q));
                    assert(g.positions@[parts_vertices(parts, r) + i] == old_pos[parts_vertices(
                        parts,
                        r,
                    ) + i]);
                } else {
                    assert(g.positions@[parts_vertices(parts, r) + i] == parts[r].positions@[i]);
                }
            }
            assert forall|r: int, k: int|
                0 <= r < q + 1 && mesh_supported(parts[r]) && 0 <= k < mesh_indices(parts[r]).len()
                    / 3 implies triangle_moved(
                #[trigger] g.triangles@[parts_triangles(parts, r) + k],
                mesh_indices(parts[r]),
                k,
                part_offset32(parts, r),
            ) by {
                if r < q {
                    lemma_parts_counts_monotone(parts, r + 1, q);
                    lemma_parts_counts_monotone(parts, 0, r);
                    assert(parts_triangles(parts, r + 1) == parts_triangles(parts, r)
                        + mesh_indices(parts[r]).len() / 3);
                    assert(old_tris.len() == parts_triangles(parts, q));
                    assert(g.triangles@[parts_triangles(parts, r) + k] == old_tris[parts_triangles(
                        parts,
                        r,
                    ) + k]);
                } else {
                    let new_tris = g.triangles@.subrange(
                        old_tris.len() as int,
                        g.triangles@.len() as int,
                    );
                    assert(g.triangles@[parts_triangles(parts, r) + k] == new_tris[k]);
                    assert forall|c: int| 0 <= c < 3 implies #[trigger] new_tris[k][c]
                        == mesh_indices(parts[r])[3 * k + c] + part_offset32(parts, r) by {}
                }
            }
        }
        p += 1;
    }
    Geometry { positions, triangles }
}

/// True if one of the shapes has the given id.
pub open spec fn has_id<V>(f: Seq<ShapeData<V>>, id: u64) -> bool {
    exists|i: int| 0 <= i < f.len() && (#[trigger] f[i]).id == id
}

/// The position of the shape with the given id among shapes with distinct ids.
pub open spec fn id_position<V>(f: Seq<ShapeData<V>>, id: u64) -> int {
    choose|i: int| 0 <= i < f.len() && (#[trigger] f[i]).id == id
}

/// No two of the shapes share an id.
pub open spec fn ids_distinct<V>(f: Seq<ShapeData<V>>) -> bool {
    forall|i: int, j: int| 0 <= i < j < f.len() ==> (#[trigger] f[i]).id != (#[trigger] f[j]).id
}

/// The shapes `f` after the shape `shape` has been seen: unchanged if a shape with its id was
/// seen before, else with `shape` appended.
pub open spec fn shapes_after<V>(f: Seq<ShapeData<V>>, shape: ShapeData<V>) -> Seq<ShapeData<V>> {
    if has_id(f, shape.id) {
        f
    } else {
        f.push(shape)
    }
}

/// The geometries and the shape-to-geometry map hold, for each of the shapes `f` (with distinct
/// ids) in order, its geometry and its index.
pub open spec fn geometries_match<V>(
    geometries: Seq<Geometry<V>>,
    map: Map<u64, usize>,
    f: Seq<ShapeData<V>>,
) -> bool {
    &&& ids_distinct(f)
    &&& geometries.len() == f.len()
    &&& forall|i: int|
        0 <= i < f.len() ==> geometry_of_parts(
            #[trigger] geometries[i],
            f[i].parts@,
            f[i].parts@.len() as int,
        )
    &&& forall|id: u64| #[trigger] map.contains_key(id) <==> has_id(f, id)
    &&& forall|i: int| 0 <= i < f.len() ==> map[(#[trigger] f[i]).id] == i
}

/// The position of an id among shapes with distinct ids is the one index holding it.
proof fn lemma_id_position<V>(f: Seq<ShapeData<V>>, i: int)
    requires
        ids_distinct(f),
        0 <= i < f.len(),
    ensures
        id_position(f, f[i].id) == i,
{
    let j = id_position(f, f[i].id);
    assert(0 <= j < f.len() && f[j].id == f[i].id);
}

/// The state that is built while traversing the structure of the CAD data.
struct GlobalTraversalState<V, M> {
    geometries: Vec<Geometry<V>>,
    instances: Vec<Instance<M>>,
    shape_geo_map: HashMap<u64, usize>,
}

/// Returns the geometry index for the given shape. If the shape has not been yet processed,
/// a corresponding geometry object will be created and registered in the shape/geo map.
///
/// # Arguments
/// * `global_state` - The global state that contains the geometries and the shape/geo map.
/// * `shape` - The shape to process.
/// * `f` - The shapes seen so far, one per id.
fn get_geo_index<V: Copy, M>(
    global_state: &mut GlobalTraversalState<V, M>,
    shape: &ShapeData<V>,
    Ghost(f): Ghost<Seq<ShapeData<V>>>,
) -> (r: usize)
    requires
        geometries_match(old(global_state).geometries@, old(global_state).shape_geo_map@, f),
        !has_id(f, shape.id) ==> parts_offsets_fit(shape.parts@),
    ensures
        geometries_match(
            final(global_state).geometries@,
            final(global_state).shape_geo_map@,
            shapes_after(f, *shape),
        ),
        r == id_position(shapes_after(f, *shape), shape.id),
        r < shapes_after(f, *shape).len(),
        final(global_state).instances@ == old(global_state).instances@,
{
    let shape_id = shape.id;

    // check if the shape has already been processed
    match global_state.shape_geo_map.get(&shape_id) {
        Some(geo_index) => {
            proof {
                let i = choose|i: int| 0 <= i < f.len() && (#[trigger] f[i]).id == shape_id;
                lemma_id_position(f, i);
            }
            return *geo_index;
        },
        None => {},
    }

    // create geometry from the shape and retrieve geometry index
    let geo = create_geometry_from_shape(shape);
    let geometry_index = global_state.geometries.len();
    global_state.geometries.push(geo);

    // add entry to the shape/geo map
    global_state.shape_geo_map.insert(shape_id, geometry_index);

    proof {
        let f2 = f.push(*shape);
        let gs = global_state.geometries@;
        let map = global_state.shape_geo_map@;
        assert(ids_distinct(f2)) by {
            assert forall|i: int, j: int| 0 <= i < j < f2.len() implies (#[trigger] f2[i]).id
                != (#[trigger] f2[j]).id by {
                if j == f.len() {
                    assert(f2[i] == f[i]);
                    assert(!(0 <= i < f.len() && f[i].id == shape_id));
                } else {
                    assert(f2[i] == f[i] && f2[j] == f[j]);
                }
            }
        }
        assert forall|i: int| 0 <= i < f2.len() implies geometry_of_parts(
            #[trigger] gs[i],
            f2[i].parts@,
            f2[i].parts@.len() as int,
        ) by {
            if i < f.len() {
                assert(gs[i] == old(global_state).geometries@[i]);
                assert(f2[i] == f[i]);
            }
        }
        assert forall|id: u64| #[trigger] map.contains_key(id) <==> has_id(f2, id) by {
            if has_id(f, id) {
                let i = choose|i: int| 0 <= i < f.len() && (#[trigger] f[i]).id == id;
                assert(f2[i] == f[i]);
            }
            if id == shape_id {
                assert(f2[f.len() as int].id == id);
            }
            if has_id(f2, id) && id != shape_id {
                let i = choose|i: int| 0 <= i < f2.len() && (#[trigger] f2[i]).id == id;
                assert(f2[i] == f[i]);
            }
        }
        assert forall|i: int| 0 <= i < f2.len() implies map[(#[trigger] f2[i]).id] == i by {
            if i < f.len() {
                assert(f2[i] == f[i]);
                assert(f[i].id != shape_id);
            }
        }
        lemma_id_position(f2, f.len() as int);
    }
    geometry_index
}

/// A node of the structure of CAD data: its optional transformation, the shapes instantiated at
/// the node, and the child nodes.
pub struct NodeData<V, M> {
    /// The transformation of the node relative to its parent.
    pub transform: Option<M>,
    /// The shapes instantiated at the node.
    pub shapes: Vec<ShapeData<V>>,
    /// The child nodes.
    pub children: Vec<NodeData<V, M>>,
}

/// The product of two transformations, as computed by `combine`.
pub open spec fn product<M, F: Fn(&M, &M) -> M>(combine: F, a: M, b: M) -> M {
    choose|r: M| call_ensures(combine, (&a, &b), r)
}

/// `combine` can be called on any two transformations and gives one result for them.
pub open spec fn combine_deterministic<M, F: Fn(&M, &M) -> M>(combine: F) -> bool {
    &&& forall|a: M, b: M| #[trigger] call_requires(combine, (&a, &b))
    &&& forall|a: M, b: M, r1: M, r2: M|
        #[trigger] call_ensures(combine, (&a, &b), r1) && #[trigger] call_ensures(combine, (&a, &b), r2)
            ==> r1 == r2
}

/// The accumulated transformation of a node below a parent with the transformation `t`.
pub open spec fn node_transform<V, M, F: Fn(&M, &M) -> M>(node: NodeData<V, M>, t: M, combine: F) -> M {
    match node.transform {
        Some(m) => product(combine, t, m),
        None => t,
    }
}

/// The shape instances of the subtree of `node` below a parent with the transformation `t`, in
/// the order of traversal: the shapes of the node, then those of each child in turn.
pub open spec fn node_occurrences<V, M, F: Fn(&M, &M) -> M>(node: NodeData<V, M>, t: M, combine: F) -> Seq<
    (ShapeData<V>, M),
>
    decreases node,
{
    let t2 = node_transform(node, t, combine);
    node.shapes@.map_values(|s: ShapeData<V>| (s, t2)) + children_occurrences(
        node.children@,
        t2,
        combine,
    )
}

/// The shape instances of the subtrees of the given nodes, one after another.
pub open spec fn children_occurrences<V, M, F: Fn(&M, &M) -> M>(
    children: Seq<NodeData<V, M>>,
    t: M,
    combine: F,
) -> Seq<(ShapeData<V>, M)>
    decreases children,
{
    if children.len() == 0 {
        seq![]
    } else {
        children_occurrences(children.subrange(0, children.len() - 1), t, combine) + node_occurrences(
            children[children.len() - 1],
            t,
            combine,
        )
    }
}

/// The shapes of the given instances in the order of the first instance of each id.
pub open spec fn first_shapes<V, M>(occ: Seq<(ShapeData<V>, M)>) -> Seq<ShapeData<V>>
    decreases occ.len(),
{
    if occ.len() == 0 {
        seq![]
    } else {
        shapes_after(first_shapes(occ.drop_last()), occ.last().0)
    }
}

/// The instance `p` is the first one of its shape id.
pub open spec fn first_occurrence<V, M>(occ: Seq<(ShapeData<V>, M)>, p: int) -> bool {
    forall|j: int| 0 <= j < p ==> (#[trigger] occ[j]).0.id != occ[p].0.id
}

/// The triangle indices of the first instance of each shape fit into 32 bits once moved.
pub open spec fn shapes_fit<V, M>(occ: Seq<(ShapeData<V>, M)>) -> bool {
    forall|p: int|
        0 <= p < occ.len() && #[trigger] first_occurrence(occ, p) ==> parts_offsets_fit(
            occ[p].0.parts@,
        )
}

/// Each instance references the geometry of its shape and carries the transformation of its
/// occurrence.
pub open spec fn instances_match<V, M>(
    instances: Seq<Instance<M>>,
    occ: Seq<(ShapeData<V>, M)>,
    f: Seq<ShapeData<V>>,
) -> bool {
    &&& instances.len() == occ.len()
    &&& forall|k: int|
        0 <= k < occ.len() ==> (#[trigger] instances[k]).geometry_index == id_position(
            f,
            occ[k].0.id,
        ) && instances[k].transform == occ[k].1
}

/// The geometries and instances are those built from the given shape instances: one geometry
/// per shape id, in the order of first instance, and one instance per shape instance.
pub open spec fn scene_built_from<V, M>(
    geometries: Seq<Geometry<V>>,
    instances: Seq<Instance<M>>,
    occ: Seq<(ShapeData<V>, M)>,
) -> bool {
    let f = first_shapes(occ);
    &&& geometries.len() == f.len()
    &&& forall|i: int|
        0 <= i < f.len() ==> geometry_of_parts(
            #[trigger] geometries[i],
            f[i].parts@,
            f[i].parts@.len() as int,
        )
    &&& instances_match(instances, occ, f)
}

/// The state matches the shape instances processed so far.
spec fn state_matches<V, M>(st: GlobalTraversalState<V, M>, occ: Seq<(ShapeData<V>, M)>) -> bool {
    &&& geometries_match(st.geometries@, st.shape_geo_map@, first_shapes(occ))
    &&& instances_match(st.instances@, occ, first_shapes(occ))
}

/// A shape id has been seen among the first shapes exactly if an instance carries it.
proof fn lemma_first_shapes<V, M>(occ: Seq<(ShapeData<V>, M)>)
    ensures
        forall|x: u64|
            #[trigger] has_id(first_shapes(occ), x) <==> exists|j: int|
                0 <= j < occ.len() && (#[trigger] occ[j]).0.id == x,
        first_shapes(occ).len() <= occ.len(),
    decreases occ.len(),
{
    if occ.len() > 0 {
        let d = occ.drop_last();
        lemma_first_shapes(d);
        let f = first_shapes(d);
        let f2 = first_shapes(occ);
        assert forall|x: u64| #[trigger] has_id(f2, x) <==> exists|j: int|
            0 <= j < occ.len() && (#[trigger] occ[j]).0.id == x by {
            if has_id(f2, x) {
                let i = choose|i: int| 0 <= i < f2.len() && (#[trigger] f2[i]).id == x;
                if i < f.len() {
                    assert(f2[i] == f[i]);
                    assert(has_id(f, x));
                    let j = choose|j: int| 0 <= j < d.len() && (#[trigger] d[j]).0.id == x;
                    assert(occ[j] == d[j]);
                } else {
                    assert(occ[occ.len() - 1].0.id == x);
                }
            }
            if exists|j: int| 0 <= j < occ.len() && (#[trigger] occ[j]).0.id == x {
                let j = choose|j: int| 0 <= j < occ.len() && (#[trigger] occ[j]).0.id == x;
                if j < d.len() {
                    assert(d[j] == occ[j]);
                    assert(has_id(f, x));
                    let i = choose|i: int| 0 <= i < f.len() && (#[trigger] f[i]).id == x;
                    if !has_id(f, occ.last().0.id) {
                        assert(f2[i] == f[i]);
                    }
                } else if has_id(f, x) {
                    let i = choose|i: int| 0 <= i < f.len() && (#[trigger] f[i]).id == x;
                    if !has_id(f, occ.last().0.id) {
                        assert(f2[i] == f[i]);
                    }
                } else {
                    assert(f2[f.len() as int].id == x);
                }
            }
        }
    }
}

/// Shapes that fit stay fitting on a prefix of the instances.
proof fn lemma_shapes_fit_prefix<V, M>(a: Seq<(ShapeData<V>, M)>, b: Seq<(ShapeData<V>, M)>)
    requires
        shapes_fit(b),
        a.is_prefix_of(b),
    ensures
        shapes_fit(a),
{
    assert forall|p: int| 0 <= p < a.len() && #[trigger] first_occurrence(a, p) implies parts_offsets_fit(
        a[p].0.parts@,
    ) by {
        assert(a[p] == b[p]);
        assert forall|j: int| 0 <= j < p implies (#[trigger] b[j]).0.id != b[p].0.id by {
            assert(a[j] == b[j]);
        }
        assert(first_occurrence(b, p));
    }
}

/// The instances of the first children come before those of the further ones.
proof fn lemma_children_occurrences_prefix<V, M, F: Fn(&M, &M) -> M>(
    children: Seq<NodeData<V, M>>,
    j: int,
    t: M,
    combine: F,
)
    requires
        0 <= j <= children.len(),
    ensures
        children_occurrences(children.subrange(0, j), t, combine).is_prefix_of(
            children_occurrences(children, t, combine),
        ),
    decreases children.len() - j,
{
    if j < children.len() {
        lemma_children_occurrences_prefix(children, j + 1, t, combine);
        let c = children.subrange(0, j + 1);
        assert(c.subrange(0, c.len() - 1) == children.subrange(0, j));
        let a = children_occurrences(children.subrange(0, j), t, combine);
        let b = children_occurrences(c, t, combine);
        let z = children_occurrences(children, t, combine);
        assert(b == a + node_occurrences(c[c.len() - 1], t, combine));
        assert(b.subrange(0, a.len() as int) == a);
        assert(z.subrange(0, a.len() as int) == z.subrange(0, b.len() as int).subrange(
            0,
            a.len() as int,
        ));
    } else {
        assert(children.subrange(0, j) == children);
    }
}

/// After one more shape instance, the positions of the shapes seen before stay.
proof fn lemma_instances_step<V, M>(
    instances: Seq<Instance<M>>,
    occ: Seq<(ShapeData<V>, M)>,
    x: (ShapeData<V>, M),
    gi: usize,
)
    requires
        instances_match(instances, occ, first_shapes(occ)),
        ids_distinct(first_shapes(occ.push(x))),
        ids_distinct(first_shapes(occ)),
        gi == id_position(first_shapes(occ.push(x)), x.0.id),
    ensures
        instances_match(
            instances.push(Instance { geometry_index: gi, transform: x.1 }),
            occ.push(x),
            first_shapes(occ.push(x)),
        ),
{
    let o2 = occ.push(x);
    let f = first_shapes(occ);
    let f2 = first_shapes(o2);
    assert(o2.drop_last() == occ);
    let i2 = instances.push(Instance { geometry_index: gi, transform: x.1 });
    lemma_first_shapes(occ);
    assert forall|k: int| 0 <= k < o2.len() implies (#[trigger] i2[k]).geometry_index
        == id_position(f2, o2[k].0.id) && i2[k].transform == o2[k].1 by {
        if k < occ.len() {
            assert(o2[k] == occ[k]);
            assert(i2[k] == instances[k]);
            assert(has_id(f, occ[k].0.id));
            let i = id_position(f, occ[k].0.id);
            assert(0 <= i < f.len() && f[i].id == occ[k].0.id);
            assert(f2[i] == f[i]);
            lemma_id_position(f2, i);
        }
    }
}

/// Every instance of a scene built from shape instances references one of its geometries.
pub proof fn lemma_built_scene_instances_valid<V, M>(
    geometries: Seq<Geometry<V>>,
    instances: Seq<Instance<M>>,
    occ: Seq<(ShapeData<V>, M)>,
)
    requires
        scene_built_from(geometries, instances, occ),
    ensures
        instances_valid(geometries, instances),
{
    let f = first_shapes(occ);
    lemma_first_shapes(occ);
    assert forall|k: int| 0 <= k < instances.len() implies (#[trigger] instances[k]).geometry_index
        < geometries.len() by {
        assert(occ[k].0.id == occ[k].0.id);
        assert(has_id(f, occ[k].0.id));
    }
}

/// The first shapes of the instances carry distinct ids.
proof fn lemma_first_shapes_distinct<V, M>(occ: Seq<(ShapeData<V>, M)>)
    ensures
        ids_distinct(first_shapes(occ)),
    decreases occ.len(),
{
    if occ.len() > 0 {
        let d = occ.drop_last();
        lemma_first_shapes_distinct(d);
        let f = first_shapes(d);
        let x = occ.last().0;
        if !has_id(f, x.id) {
            let f2 = f.push(x);
            assert forall|i: int, j: int| 0 <= i < j < f2.len() implies (#[trigger] f2[i]).id
                != (#[trigger] f2[j]).id by {
                assert(f2[i] == f[i]);
                if j < f.len() {
                    assert(f2[j] == f[j]);
                } else {
                    assert(!(0 <= i < f.len() && f[i].id == x.id));
                }
            }
        }
    }
}

/// Two instances of a scene built from shape instances share their geometry exactly if their
/// shapes have the same id.
pub proof fn lemma_built_scene_shares_geometries<V, M>(
    geometries: Seq<Geometry<V>>,
    instances: Seq<Instance<M>>,
    occ: Seq<(ShapeData<V>, M)>,
    k1: int,
    k2: int,
)
    requires
        scene_built_from(geometries, instances, occ),
        0 <= k1 < occ.len(),
        0 <= k2 < occ.len(),
    ensures
        instances[k1].geometry_index == instances[k2].geometry_index <==> occ[k1].0.id
            == occ[k2].0.id,
{
    let f = first_shapes(occ);
    lemma_first_shapes(occ);
    lemma_first_shapes_distinct(occ);
    assert(occ[k1].0.id == occ[k1].0.id);
    assert(occ[k2].0.id == occ[k2].0.id);
    assert(has_id(f, occ[k1].0.id));
    assert(has_id(f, occ[k2].0.id));
    let i1 = id_position(f, occ[k1].0.id);
    let i2 = id_position(f, occ[k2].0.id);
    assert(f[i1].id == occ[k1].0.id);
    assert(f[i2].id == occ[k2].0.id);
    assert(instances[k1].geometry_index == i1);
    assert(instances[k2].geometry_index == i2);
}

/// A transformation that `combine` gives for two transformations is their product.
proof fn lemma_product<M, F: Fn(&M, &M) -> M>(combine: F, a: M, b: M, r: M)
    requires
        combine_deterministic(combine),
        call_ensures(combine, (&a, &b), r),
    ensures
        product(combine, a, b) == r,
{
    let q = product(combine, a, b);
    assert(call_ensures(combine, (&a, &b), q));
}

/// The transformation that a node applies below a parent with the transformation `t`: `combine`
/// of the parent's transformation (on the left) and the node's own transformation (on the
/// right), or the parent's transformation where the node has none.
pub open spec fn applies_transform<V, M, F: Fn(&M, &M) -> M>(
    node: NodeData<V, M>,
    t: M,
    combine: F,
    r: M,
) -> bool {
    match node.transform {
        Some(m) => call_ensures(combine, (&t, &m), r),
        None => r == t,
    }
}

/// The position among the instances of the `k`-th shape of the root's child `c`: after the
/// root's own shapes and the instances below the children before `c`.
pub open spec fn child_shape_index<V, M, F: Fn(&M, &M) -> M>(
    root: NodeData<V, M>,
    x: M,
    combine: F,
    c: int,
    k: int,
) -> int {
    root.shapes@.len() + children_occurrences(root.children@.subrange(0, c), x, combine).len() + k
}

/// The instance at `child_shape_index(root, x, combine, c, k)` exists, is the `k`-th shape of
/// the root's child `c` and carries the transformation `y`.
pub open spec fn child_instance_carries<V, M, F: Fn(&M, &M) -> M>(
    instances: Seq<Instance<M>>,
    root: NodeData<V, M>,
    identity: M,
    combine: F,
    x: M,
    c: int,
    y: M,
    k: int,
) -> bool {
    let p = child_shape_index(root, x, combine, c, k);
    &&& 0 <= p < instances.len()
    &&& instances[p].transform == y
    &&& node_occurrences(root, identity, combine)[p].0 == root.children@[c].shapes@[k]
}

/// The instances of a scene built from a CAD tree carry the accumulated transformations, each
/// node's transformation multiplied from the right onto that of its parent: the shapes of the
/// root carry `x`, the root's transformation applied to `identity`, and the `k`-th shape of the
/// root's child `c` carries `y`, the child's transformation applied to `x`.
pub proof fn lemma_scene_instance_transforms<V, M, F: Fn(&M, &M) -> M>(
    geometries: Seq<Geometry<V>>,
    instances: Seq<Instance<M>>,
    root: NodeData<V, M>,
    identity: M,
    combine: F,
    x: M,
    c: int,
    y: M,
)
    requires
        combine_deterministic(combine),
        scene_built_from(geometries, instances, node_occurrences(root, identity, combine)),
        applies_transform(root, identity, combine, x),
        0 <= c < root.children@.len(),
        applies_transform(root.children@[c], x, combine, y),
    ensures
        forall|k: int|
            0 <= k < root.shapes@.len() ==> (#[trigger] instances[k]).transform == x
                && node_occurrences(root, identity, combine)[k].0 == root.shapes@[k],
        forall|k: int|
            0 <= k < root.children@[c].shapes@.len() ==> #[trigger] child_instance_carries(
                instances,
                root,
                identity,
                combine,
                x,
                c,
                y,
                k,
            ),
{
    let occ = node_occurrences(root, identity, combine);
    assert forall|k: int| 0 <= k < root.shapes@.len() implies (#[trigger] instances[k]).transform == x
        && occ[k].0 == root.shapes@[k] by {
        lemma_root_occurrence(root, identity, combine, x, k);
        assert(instances[k].transform == occ[k].1);
    }
    assert forall|k: int| 0 <= k < root.children@[c].shapes@.len() implies #[trigger] child_instance_carries(
        instances,
        root,
        identity,
        combine,
        x,
        c,
        y,
        k,
    ) by {
        lemma_child_occurrence(root, identity, combine, x, c, y, k);
        let p = child_shape_index(root, x, combine, c, k);
        assert(0 <= p < occ.len());
        assert(instances[p].transform == occ[p].1);
    }
}

/// The `k`-th shape instance of the tree is the `k`-th shape of the root, with `x`.
proof fn lemma_root_occurrence<V, M, F: Fn(&M, &M) -> M>(
    root: NodeData<V, M>,
    identity: M,
    combine: F,
    x: M,
    k: int,
)
    requires
        combine_deterministic(combine),
        applies_transform(root, identity, combine, x),
        0 <= k < root.shapes@.len(),
    ensures
        k < node_occurrences(root, identity, combine).len(),
        node_occurrences(root, identity, combine)[k] == (root.shapes@[k], x),
{
    if let Some(m) = root.transform {
        lemma_product(combine, identity, m, x);
    }
    assert(node_transform(root, identity, combine) == x);
    let own = root.shapes@.map_values(|s: ShapeData<V>| (s, x));
    let occ = node_occurrences(root, identity, combine);
    assert(occ == own + children_occurrences(root.children@, x, combine));
    assert(occ[k] == own[k]);
}

/// The shape instance at `child_shape_index(root, x, combine, c, k)` is the `k`-th shape of the
/// root's child `c`, with `y`.
proof fn lemma_child_occurrence<V, M, F: Fn(&M, &M) -> M>(
    root: NodeData<V, M>,
    identity: M,
    combine: F,
    x: M,
    c: int,
    y: M,
    k: int,
)
    requires
        combine_deterministic(combine),
        applies_transform(root, identity, combine, x),
        0 <= c < root.children@.len(),
        applies_transform(root.children@[c], x, combine, y),
        0 <= k < root.children@[c].shapes@.len(),
    ensures
        child_shape_index(root, x, combine, c, k) < node_occurrences(root, identity, combine).len(),
        node_occurrences(root, identity, combine)[child_shape_index(root, x, combine, c, k)] == (
            root.children@[c].shapes@[k],
            y,
        ),
{
    let occ = node_occurrences(root, identity, combine);
    if let Some(m) = root.transform {
        lemma_product(combine, identity, m, x);
    }
    assert(node_transform(root, identity, combine) == x);
    let own = root.shapes@.map_values(|s: ShapeData<V>| (s, x));
    let rest = children_occurrences(root.children@, x, combine);
    assert(occ == own + rest);
    let child = root.children@[c];
    if let Some(m) = child.transform {
        lemma_product(combine, x, m, y);
    }
    assert(node_transform(child, x, combine) == y);
    let pre = children_occurrences(root.children@.subrange(0, c), x, combine);
    let cs = root.children@.subrange(0, c + 1);
    assert(cs.subrange(0, cs.len() - 1) == root.children@.subrange(0, c));
    assert(cs[cs.len() - 1] == child);
    let upto = children_occurrences(cs, x, combine);
    assert(upto == pre + node_occurrences(child, x, combine));
    lemma_children_occurrences_prefix(root.children@, c + 1, x, combine);
    let cocc = node_occurrences(child, x, combine);
    let cown = child.shapes@.map_values(|s: ShapeData<V>| (s, y));
    assert(cocc == cown + children_occurrences(child.children@, y, combine));
    let p = root.shapes@.len() + pre.len() + k;
    assert(child_shape_index(root, x, combine, c, k) == p);
    assert(upto[pre.len() + k] == cocc[k]);
    assert(cocc[k] == cown[k]);
    assert(rest.subrange(0, upto.len() as int) == upto);
    assert(rest[pre.len() + k] == upto[pre.len() + k]);
    assert(occ[p] == rest[pre.len() + k]);
}

impl<V: Copy, M: Copy> Scene<V, M> {
    /// Creates a new scene from the structure of CAD data: one geometry per shape and one
    /// instance per occurrence of a shape, with the accumulated transformation of its node.
    ///
    /// # Arguments
    /// * `root` - The root node of the CAD data.
    /// * `identity` - The identity transformation.
    /// * `combine` - Multiplies two transformations.
    pub fn new_from_cad<F: Fn(&M, &M) -> M>(root: &NodeData<V, M>, identity: M, combine: F) -> (r: Self)
        requires
            combine_deterministic(combine),
            shapes_fit(node_occurrences(*root, identity, combine)),
        ensures
            scene_built_from(
                r.geometries_view(),
                r.instances_view(),
                node_occurrences(*root, identity, combine),
            ),
    {
        let mut global_state = GlobalTraversalState {
            geometries: Vec::new(),
            instances: Vec::new(),
            shape_geo_map: HashMap::new(),
        };
        let ghost empty = Seq::<(ShapeData<V>, M)>::empty();
        proof {
            assert(empty + node_occurrences(*root, identity, combine) == node_occurrences(
                *root,
                identity,
                combine,
            ));
        }
        Self::create_data(root, &mut global_state, identity, &combine, Ghost(empty));
        proof {
            assert(empty + node_occurrences(*root, identity, combine) == node_occurrences(
                *root,
                identity,
                combine,
            ));
        }
        proof {
            lemma_built_scene_instances_valid(
                global_state.geometries@,
                global_state.instances@,
                node_occurrences(*root, identity, combine),
            );
        }
        Self { geometries: global_state.geometries, instances: global_state.instances }
    }

    /// Creates all geometries and instances by traversing over the structure.
    ///
    /// # Arguments
    /// * `node` - The currently visited node.
    /// * `global_state` - Reference onto the global traversal state.
    /// * `transform` - The accumulated transformation matrix.
    /// * `combine` - Multiplies two transformations.
    /// * `occ` - The shape instances processed before the node.
    fn create_data<F: Fn(&M, &M) -> M>(
        node: &NodeData<V, M>,
        global_state: &mut GlobalTraversalState<V, M>,
        transform: M,
        combine: &F,
        Ghost(occ): Ghost<Seq<(ShapeData<V>, M)>>,
    )
        requires
            combine_deterministic(*combine),
            state_matches(*old(global_state), occ),
            shapes_fit(occ + node_occurrences(*node, transform, *combine)),
        ensures
            state_matches(*final(global_state), occ + node_occurrences(*node, transform, *combine)),
        decreases node,
    {
        let ghost total = occ + node_occurrences(*node, transform, *combine);
        // update the transformation matrix
        let transform2 = match &node.transform {
            Some(t) => combine(&transform, t),
            None => transform,
        };
        proof {
            if node.transform is Some {
                let m = node.transform->0;
                assert(call_ensures(*combine, (&transform, &m), transform2));
                assert(transform2 == product(*combine, transform, m));
            }
        }
        let ghost t2 = transform2;
        let ghost own = node.shapes@.map_values(|s: ShapeData<V>| (s, t2));
        assert(node_occurrences(*node, transform, *combine) == own + children_occurrences(
            node.children@,
            t2,
            *combine,
        ));
        let ghost mut cur = occ;

        // register all shape instances
        let mut i: usize = 0;
        while i < node.shapes.len()
            invariant
                i <= node.shapes@.len(),
                own == node.shapes@.map_values(|s: ShapeData<V>| (s, t2)),
                t2 == transform2,
                total == occ + own + children_occurrences(node.children@, t2, *combine),
                cur == occ + own.subrange(0, i as int),
                shapes_fit(total),
                state_matches(*global_state, cur),
            decreases node.shapes@.len() - i,
        {
            let shape = &node.shapes[i];
            let ghost x = (*shape, t2);
            proof {
                assert(own[i as int] == x);
                assert(cur.push(x) == occ + own.subrange(0, i + 1));
                assert(cur.push(x) == total.subrange(0, cur.len() + 1 as int));
                lemma_shapes_fit_prefix(cur.push(x), total);
                lemma_first_shapes(cur);
                if !has_id(first_shapes(cur), shape.id) {
                    let p = cur.len() as int;
                    assert forall|j: int| 0 <= j < p implies (#[trigger] cur.push(x)[j]).0.id
                        != cur.push(x)[p].0.id by {
                        assert(cur.push(x)[j] == cur[j]);
                    }
                    assert(first_occurrence(cur.push(x), p));
                }
                assert(cur.push(x).drop_last() == cur);
            }
            let geometry_index = get_geo_index(global_state, shape, Ghost(first_shapes(cur)));
            proof {
                lemma_instances_step(global_state.instances@, cur, x, geometry_index);
            }
            global_state.instances.push(Instance { geometry_index, transform: transform2 });
            proof {
                cur = cur.push(x);
            }
            i += 1;
        }
        proof {
            assert(own.subrange(0, own.len() as int) == own);
        }

        // visit children and register their geometry
        let ghost base = occ + own;
        let mut j: usize = 0;
        while j < node.children.len()
            invariant
                j <= node.children@.len(),
                t2 == transform2,
                combine_deterministic(*combine),
                total == base + children_occurrences(node.children@, t2, *combine),
                cur == base + children_occurrences(node.children@.subrange(0, j as int), t2, *combine),
                shapes_fit(total),
                state_matches(*global_state, cur),
            decreases node.children@.len() - j,
        {
            let child = &node.children[j];
            let ghost c = node.children@.subrange(0, j + 1);
            proof {
                assert(c.subrange(0, c.len() - 1) == node.children@.subrange(0, j as int));
                assert(c[c.len() - 1] == *child);
                let next = children_occurrences(c, t2, *combine);
                assert(next == children_occurrences(node.children@.subrange(0, j as int), t2, *combine)
                    + node_occurrences(*child, t2, *combine));
                lemma_children_occurrences_prefix(node.children@, j + 1, t2, *combine);
                assert(cur + node_occurrences(*child, t2, *combine) == base + next);
                let z = children_occurrences(node.children@, t2, *combine);
                assert((base + next).is_prefix_of(total)) by {
                    assert(z.subrange(0, next.len() as int) == next);
                    assert(total.subrange(0, (base + next).len() as int) == base + next);
                }
                lemma_shapes_fit_prefix(base + next, total);
            }
            Self::create_data(child, global_state, transform2, combine, Ghost(cur));
            proof {
                cur = base + children_occurrences(c, t2, *combine);
            }
            j += 1;
        }
        proof {
            assert(node.children@.subrange(0, node.children@.len() as int) == node.children@);
            assert(total == base + children_occurrences(node.children@, t2, *combine));
        }
    }
}

} // verus!
