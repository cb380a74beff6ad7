use core::ops::Range;
use vstd::prelude::*;

use crate::scene::{instances_valid, sum_instance_triangles, Geometry, Instance, Scene};
use crate::spatial::{
    chunk_has_triangles, distinct_ids, local_id_of, nonempty_pages, page_assembled_from,
    page_chunks, page_is_empty, pages_assemblable, position_of, triangle_remapped, triangles_before,
    vertices_before, Chunk, GeometrySlice, Page, PageReference, PageReferences,
};

verus! {

/// The geometry instantiated by the instance `i` of a scene.
pub open spec fn instance_geometry<V, M>(
    geometries: Seq<Geometry<V>>,
    instances: Seq<Instance<M>>,
    i: int,
) -> Geometry<V> {
    geometries[instances[i].geometry_index as int]
}

/// The indices of the first `n` instances whose geometry has at least one triangle, in order.
pub open spec fn instances_with_triangles<V, M>(
    geometries: Seq<Geometry<V>>,
    instances: Seq<Instance<M>>,
    n: int,
) -> Seq<int>
    decreases n,
{
    if n <= 0 {
        seq![]
    } else if instance_geometry(geometries, instances, n - 1).triangles@.len() == 0 {
        instances_with_triangles(geometries, instances, n - 1)
    } else {
        instances_with_triangles(geometries, instances, n - 1).push(n - 1)
    }
}

/// The page `page` holds the instance `i` of a scene alone: its vertices transformed with the
/// transformation of the instance, the triangles of its geometry, local object id 0 for every
/// triangle, and the local object id 0 mapped to the instance's index.
pub open spec fn page_of_instance<V, M, F: Fn(&M, &V) -> V>(
    page: Page<V>,
    geometries: Seq<Geometry<V>>,
    instances: Seq<Instance<M>>,
    i: int,
    transform: F,
) -> bool {
    let geo = instance_geometry(geometries, instances, i);
    &&& page.num_vertices == geo.positions@.len()
    &&& page.positions@.len() == geo.positions@.len()
    &&& forall|v: int|
        0 <= v < geo.positions@.len() ==> call_ensures(
            transform,
            (&instances[i].transform, &geo.positions@[v]),
            #[trigger] page.positions@[v],
        )
    &&& page.triangles@ == geo.triangles@
    &&& page.local_object_ids@ == Seq::new(geo.triangles@.len(), |t: int| 0u8)
    &&& page.object_id_map@[0] == i as u32
    &&& forall|l: int| 1 <= l < 256 ==> #[trigger] page.object_id_map@[l] == 0
}

/// Creates pages, where each page is a single object: one page per instance with at least one
/// triangle, in the order of the instances.
///
/// # Arguments
/// * `scene` - The scene to create the pages for.
/// * `transform` - Transforms a vertex with the transformation of its instance.
pub fn compute_sorting<V, M: Copy, F: Fn(&M, &V) -> V>(scene: &Scene<V, M>, transform: F) -> (pages:
    Vec<Page<V>>)
    requires
        forall|m: M, v: V| call_requires(transform, (&m, &v)),
    ensures
        pages@.len() == instances_with_triangles(
            scene.geometries_view(),
            scene.instances_view(),
            scene.instances_view().len() as int,
        ).len(),
        forall|k: int|
            0 <= k < pages@.len() ==> page_of_instance(
                #[trigger] pages@[k],
                scene.geometries_view(),
                scene.instances_view(),
                instances_with_triangles(
                    scene.geometries_view(),
                    scene.instances_view(),
                    scene.instances_view().len() as int,
                )[k],
                transform,
            ),
{
    // every instance of the scene references one of its geometries
    let _ = scene.get_instances();
    let page_references = create_simple_pages(scene);
    let ghost gs = scene.geometries_view();
    let ghost is = scene.instances_view();
    let ghost cs = page_references.chunks_view();
    let ghost ps = page_references.pages_view();
    proof {
        assert forall|p: int| 0 <= p < ps.len() implies page_chunks(cs, #[trigger] ps[p]) == seq![
            cs[p],
        ] by {
            assert(page_chunks(cs, ps[p]) =~= seq![cs[p]]);
        }
        lemma_simple_pages_assemblable(cs, ps);
        lemma_simple_nonempty_pages(gs, is, cs, ps, is.len() as int);
    }
    let pages = page_references.create_pages(transform);
    proof {
        let ne = nonempty_pages(cs, ps, ps.len() as int);
        let ni = instances_with_triangles(gs, is, is.len() as int);
        assert forall|k: int| 0 <= k < pages@.len() implies page_of_instance(
            #[trigger] pages@[k],
            gs,
            is,
            ni[k],
            transform,
        ) by {
            let i = ni[k];
            assert(ne[k] == ps[i]);
            lemma_single_chunk_page(pages@[k], cs[i], transform);
        }
    }

    pages
}

/// The page assembled from a single chunk that spans its whole geometry holds that geometry alone.
proof fn lemma_single_chunk_page<'a, V, M, F: Fn(&M, &V) -> V>(
    page: Page<V>,
    c: Chunk<'a, V, M>,
    transform: F,
)
    requires
        c.geo_slice.vertex_range.start == 0,
        c.geo_slice.vertex_range.end == c.geo_slice.geometry.positions@.len(),
        c.geo_slice.triangle_range.start == 0,
        c.geo_slice.triangle_range.end == c.geo_slice.geometry.triangles@.len(),
        page_assembled_from(page, seq![c], transform),
    ensures
        page.num_vertices == c.geo_slice.geometry.positions@.len(),
        page.positions@.len() == c.geo_slice.geometry.positions@.len(),
        forall|v: int|
            0 <= v < c.geo_slice.geometry.positions@.len() ==> call_ensures(
                transform,
                (&c.transform, &c.geo_slice.geometry.positions@[v]),
                #[trigger] page.positions@[v],
            ),
        page.triangles@ == c.geo_slice.geometry.triangles@,
        page.local_object_ids@ == Seq::new(c.geo_slice.geometry.triangles@.len(), |t: int| 0u8),
        page.object_id_map@[0] == c.id,
        forall|l: int| 1 <= l < 256 ==> #[trigger] page.object_id_map@[l] == 0,
{
    let pcs = seq![c];
    let geo = c.geo_slice.geometry;
    assert(pcs[0] == c);
    assert(vertices_before(pcs, 0) == 0);
    assert(vertices_before(pcs, 1) == geo.positions@.len());
    assert(triangles_before(pcs, 0) == 0);
    assert(triangles_before(pcs, 1) == geo.triangles@.len());
    assert(c.geo_slice.vertices_view() =~= geo.positions@);
    assert(c.geo_slice.triangles_view() =~= geo.triangles@);
    assert forall|v: int| 0 <= v < geo.positions@.len() implies call_ensures(
        transform,
        (&c.transform, &geo.positions@[v]),
        #[trigger] page.positions@[v],
    ) by {
        assert(page.positions@[vertices_before(pcs, 0) + v] == page.positions@[v]);
    }
    assert forall|t: int| 0 <= t < geo.triangles@.len() implies #[trigger] page.triangles@[t]
        == geo.triangles@[t] by {
        assert(page.triangles@[triangles_before(pcs, 0) + t] == page.triangles@[t]);
        assert(triangle_remapped(page.triangles@[t], geo.triangles@[t], 0, 0));
        assert(page.triangles@[t][0] == geo.triangles@[t][0]);
        assert(page.triangles@[t][1] == geo.triangles@[t][1]);
        assert(page.triangles@[t][2] == geo.triangles@[t][2]);
        assert(page.triangles@[t]@ =~= geo.triangles@[t]@);
    }
    assert(page.triangles@ =~= geo.triangles@);
    let d1 = distinct_ids(pcs, 1);
    assert(distinct_ids(pcs, 0) == Seq::<u32>::empty());
    assert(d1 == seq![c.id]);
    assert(position_of(d1, c.id) == 0) by {
        let p = position_of(d1, c.id);
        assert(d1[0] == c.id);
    }
    assert(local_id_of(pcs, 0) == 0);
    assert forall|t: int| 0 <= t < geo.triangles@.len() implies #[trigger] page.local_object_ids@[t]
        == 0u8 by {
        assert(page.local_object_ids@[triangles_before(pcs, 0) + t] == page.local_object_ids@[t]);
    }
    assert(page.local_object_ids@ =~= Seq::new(geo.triangles@.len(), |t: int| 0u8));
}

/// Each simple page consists of one chunk which spans the whole instantiated geometry, and so
/// can always be assembled.
proof fn lemma_simple_pages_assemblable<'a, V, M>(cs: Seq<Chunk<'a, V, M>>, ps: Seq<PageReference>)
    requires
        ps.len() == cs.len(),
        forall|p: int|
            0 <= p < ps.len() ==> (#[trigger] ps[p]).chunks.start == p && ps[p].chunks.end == p + 1,
        forall|p: int|
            0 <= p < ps.len() ==> page_chunks(cs, #[trigger] ps[p]) == seq![cs[p]],
        forall|p: int|
            0 <= p < cs.len() ==> {
                &&& (#[trigger] cs[p]).geo_slice.vertex_range.start == 0
                &&& cs[p].geo_slice.vertex_range.end == cs[p].geo_slice.geometry.positions@.len()
                &&& cs[p].geo_slice.triangle_range.start == 0
                &&& cs[p].geo_slice.triangle_range.end == cs[p].geo_slice.geometry.triangles@.len()
            },
    ensures
        pages_assemblable(cs, ps),
{
    assert forall|p: int| 0 <= p < ps.len() implies {
        &&& crate::spatial::page_range_valid(cs, #[trigger] ps[p])
        &&& !page_is_empty(cs, ps[p]) ==> crate::spatial::page_assemblable(page_chunks(cs, ps[p]))
    } by {
        let pcs = seq![cs[p]];
        assert(pcs[0] == cs[p]);
        assert(distinct_ids(pcs, 0) == Seq::<u32>::empty());
        assert(vertices_before(pcs, 0) == 0);
        assert forall|j: int, i: int|
            0 <= j < pcs.len() && 0 <= i < pcs[j].geo_slice.num_triangles() implies crate::spatial::triangle_remappable(
            #[trigger] pcs[j].geo_slice.triangles_view()[i],
            crate::spatial::chunk_start32(pcs[j]),
            crate::spatial::chunk_offset32(pcs, j),
        ) by {
            assert(j == 0);
            let t = pcs[j].geo_slice.triangles_view()[i];
            assert(crate::spatial::chunk_start32(pcs[j]) == 0);
            assert(crate::spatial::chunk_offset32(pcs, j) == 0);
            assert forall|c: int| 0 <= c < 3 implies 0 <= #[trigger] t[c] && t[c] - 0 + 0
                <= u32::MAX by {
            }
        }
    }
}

/// The non-empty simple pages are those of the instances with triangles.
proof fn lemma_simple_nonempty_pages<'a, V, M>(
    gs: Seq<Geometry<V>>,
    is: Seq<Instance<M>>,
    cs: Seq<Chunk<'a, V, M>>,
    ps: Seq<PageReference>,
    n: int,
)
    requires
        0 <= n <= is.len(),
        ps.len() == cs.len(),
        cs.len() == is.len(),
        instances_valid(gs, is),
        forall|p: int|
            0 <= p < ps.len() ==> (#[trigger] ps[p]).chunks.start == p && ps[p].chunks.end == p + 1,
        forall|p: int|
            0 <= p < cs.len() ==> {
                &&& (#[trigger] cs[p]).geo_slice.triangle_range.start == 0
                &&& *cs[p].geo_slice.geometry == instance_geometry(gs, is, p)
                &&& cs[p].geo_slice.triangle_range.end == cs[p].geo_slice.geometry.triangles@.len()
            },
    ensures
        nonempty_pages(cs, ps, n).len() == instances_with_triangles(gs, is, n).len(),
        forall|k: int|
            0 <= k < nonempty_pages(cs, ps, n).len() ==> 0 <= #[trigger] instances_with_triangles(
                gs,
                is,
                n,
            )[k] < n,
        forall|k: int|
            0 <= k < nonempty_pages(cs, ps, n).len() ==> #[trigger] nonempty_pages(cs, ps, n)[k]
                == ps[instances_with_triangles(gs, is, n)[k]],
    decreases n,
{
    if n > 0 {
        lemma_simple_nonempty_pages(gs, is, cs, ps, n - 1);
        let p = n - 1;
        assert(page_is_empty(cs, ps[p]) <==> instance_geometry(gs, is, p).triangles@.len() == 0) by {
            if instance_geometry(gs, is, p).triangles@.len() != 0 {
                assert(chunk_has_triangles(cs[p]));
            }
        }
        let prev_pages = nonempty_pages(cs, ps, n - 1);
        let prev_insts = instances_with_triangles(gs, is, n - 1);
        let ne = nonempty_pages(cs, ps, n);
        let ni = instances_with_triangles(gs, is, n);
        assert forall|k: int| 0 <= k < ne.len() implies 0 <= #[trigger] ni[k] < n && ne[k] == ps[ni[k]] by {
            if k < prev_pages.len() {
                assert(ne[k] == prev_pages[k]);
                assert(ni[k] == prev_insts[k]);
                assert(prev_pages[k] == ps[prev_insts[k]]);
            } else {
                assert(ne[k] == ps[p]);
                assert(ni[k] == p);
            }
        }
    } else {
        assert(nonempty_pages(cs, ps, n) == Seq::<PageReference>::empty());
    }
}

/// Creates and returns simple page references by turning each instance into a single page.
///
/// # Arguments
/// * `scene` - The scene whose instances are turned into pages.
fn create_simple_pages<'a, V, M: Copy>(scene: &'a Scene<V, M>) -> (r: PageReferences<'a, V, M>)
    ensures
        r.chunks_view().len() == scene.instances_view().len(),
        r.pages_view().len() == scene.instances_view().len(),
        forall|p: int|
            0 <= p < r.pages_view().len() ==> (#[trigger] r.pages_view()[p]).chunks.start == p
                && r.pages_view()[p].chunks.end == p + 1,
        chunks_span_instances(r.chunks_view(), scene.geometries_view(), scene.instances_view()),
{
    let chunks = create_simple_chunks(scene);
    let num_chunks = chunks.len();
    let mut pages: Vec<PageReference> = Vec::new();
    let mut index: usize = 0;
    while index < num_chunks
        invariant
            0 <= index <= num_chunks,
            pages@.len() == index,
            forall|p: int|
                0 <= p < index ==> (#[trigger] pages@[p]).chunks.start == p && pages@[p].chunks.end
                    == p + 1,
        decreases num_chunks - index,
    {
        pages.push(PageReference { chunks: Range { start: index, end: index + 1 } });
        index += 1;
    }

    PageReferences::new(chunks, pages)
}

/// The chunk `p` spans the whole geometry of the instance `p`, carries its transformation and has
/// the object id `p`.
pub open spec fn chunks_span_instances<'a, V, M>(
    cs: Seq<Chunk<'a, V, M>>,
    gs: Seq<Geometry<V>>,
    is: Seq<Instance<M>>,
) -> bool {
    &&& cs.len() == is.len()
    &&& forall|p: int|
        0 <= p < cs.len() ==> {
            &&& *(#[trigger] cs[p]).geo_slice.geometry == instance_geometry(gs, is, p)
            &&& cs[p].geo_slice.vertex_range.start == 0
            &&& cs[p].geo_slice.vertex_range.end == cs[p].geo_slice.geometry.positions@.len()
            &&& cs[p].geo_slice.triangle_range.start == 0
            &&& cs[p].geo_slice.triangle_range.end == cs[p].geo_slice.geometry.triangles@.len()
            &&& cs[p].transform == is[p].transform
            &&& cs[p].id == p as u32
        }
}

/// Creates simple chunks by turning each instance into a single chunk.
///
/// # Arguments
/// * `scene` - The instance of the scene are turned into chunks.
fn create_simple_chunks<'a, V, M: Copy>(scene: &'a Scene<V, M>) -> (chunks: Vec<Chunk<'a, V, M>>)
    ensures
        chunks_span_instances(chunks@, scene.geometries_view(), scene.instances_view()),
{
    let instances = scene.get_instances();
    let geometries = scene.get_geometries();

    let mut chunks: Vec<Chunk<'a, V, M>> = Vec::new();
    let mut instance_index: usize = 0;
    while instance_index < instances.len()
        invariant
            instances@ == scene.instances_view(),
            geometries@ == scene.geometries_view(),
            instances_valid(geometries@, instances@),
            0 <= instance_index <= instances@.len(),
            chunks@.len() == instance_index,
            forall|p: int|
                0 <= p < instance_index ==> {
                    &&& *(#[trigger] chunks@[p]).geo_slice.geometry == instance_geometry(
                        geometries@,
                        instances@,
                        p,
                    )
                    &&& chunks@[p].geo_slice.vertex_range.start == 0
                    &&& chunks@[p].geo_slice.vertex_range.end
                        == chunks@[p].geo_slice.geometry.positions@.len()
                    &&& chunks@[p].geo_slice.triangle_range.start == 0
                    &&& chunks@[p].geo_slice.triangle_range.end
                        == chunks@[p].geo_slice.geometry.triangles@.len()
                    &&& chunks@[p].transform == instances@[p].transform
                    &&& chunks@[p].id == p as u32
                },
        decreases instances@.len() - instance_index,
    {
        let instance = &instances[instance_index];
        assert(instances@[instance_index as int].geometry_index < geometries@.len());
        let geometry = &geometries[instance.geometry_index];
        let id = instance_index as u32;
        let transform = instance.transform;

        let vertex_range = Range { start: 0, end: geometry.positions.len() };

        let triangle_range = Range { start: 0, end: geometry.triangles.len() };

        let geo_slice = GeometrySlice { geometry, vertex_range, triangle_range };

        chunks.push(Chunk { geo_slice, id, transform });
        instance_index += 1;
    }

    chunks
}

/// The number of triangles of the first `m` pages.
pub open spec fn pages_triangles<V>(pages: Seq<Page<V>>, m: int) -> int
    decreases m,
{
    if m <= 0 {
        0
    } else {
        pages_triangles(pages, m - 1) + pages[m - 1].triangles@.len()
    }
}

/// The number of triangles of the geometries of the instances `idx[0..m]`.
spec fn indexed_triangles<V, M>(
    geometries: Seq<Geometry<V>>,
    instances: Seq<Instance<M>>,
    idx: Seq<int>,
    m: int,
) -> int
    decreases m,
{
    if m <= 0 {
        0
    } else {
        indexed_triangles(geometries, instances, idx, m - 1) + instance_geometry(
            geometries,
            instances,
            idx[m - 1],
        ).triangles@.len()
    }
}

/// Appending an index leaves the count over the earlier indices unchanged.
proof fn lemma_indexed_triangles_push<V, M>(
    geometries: Seq<Geometry<V>>,
    instances: Seq<Instance<M>>,
    idx: Seq<int>,
    x: int,
    m: int,
)
    requires
        0 <= m <= idx.len(),
    ensures
        indexed_triangles(geometries, instances, idx.push(x), m) == indexed_triangles(
            geometries,
            instances,
            idx,
            m,
        ),
    decreases m,
{
    if m > 0 {
        lemma_indexed_triangles_push(geometries, instances, idx, x, m - 1);
        assert(idx.push(x)[m - 1] == idx[m - 1]);
    }
}

/// The instances with triangles hold all triangles of the instances.
proof fn lemma_instances_with_triangles_count<V, M>(
    geometries: Seq<Geometry<V>>,
    instances: Seq<Instance<M>>,
    n: int,
)
    requires
        0 <= n,
    ensures
        indexed_triangles(
            geometries,
            instances,
            instances_with_triangles(geometries, instances, n),
            instances_with_triangles(geometries, instances, n).len() as int,
        ) == sum_instance_triangles(geometries, instances, n),
    decreases n,
{
    if n > 0 {
        lemma_instances_with_triangles_count(geometries, instances, n - 1);
        let w = instances_with_triangles(geometries, instances, n - 1);
        if instance_geometry(geometries, instances, n - 1).triangles@.len() != 0 {
            lemma_indexed_triangles_push(geometries, instances, w, n - 1, w.len() as int);
            assert(w.push(n - 1)[w.len() as int] == n - 1);
        }
    }
}

/// The pages of the simple sorting hold exactly the triangles of all instances of the scene:
/// their total equals the instantiated triangle count of the scene statistics.
pub proof fn lemma_sorting_keeps_triangle_count<V, M, F: Fn(&M, &V) -> V>(
    pages: Seq<Page<V>>,
    geometries: Seq<Geometry<V>>,
    instances: Seq<Instance<M>>,
    transform: F,
)
    requires
        pages.len() == instances_with_triangles(geometries, instances, instances.len() as int).len(),
        forall|k: int|
            0 <= k < pages.len() ==> page_of_instance(
                #[trigger] pages[k],
                geometries,
                instances,
                instances_with_triangles(geometries, instances, instances.len() as int)[k],
                transform,
            ),
    ensures
        pages_triangles(pages, pages.len() as int) == sum_instance_triangles(
            geometries,
            instances,
            instances.len() as int,
        ),
{
    let w = instances_with_triangles(geometries, instances, instances.len() as int);
    assert forall|m: int| 0 <= m <= pages.len() implies #[trigger] pages_triangles(pages, m)
        == indexed_triangles(geometries, instances, w, m) by {
        lemma_pages_triangles_prefix(pages, geometries, instances, w, transform, m);
    }
    lemma_instances_with_triangles_count(geometries, instances, instances.len() as int);
}

/// The triangle count of the first `m` pages is that of their instances.
proof fn lemma_pages_triangles_prefix<V, M, F: Fn(&M, &V) -> V>(
    pages: Seq<Page<V>>,
    geometries: Seq<Geometry<V>>,
    instances: Seq<Instance<M>>,
    w: Seq<int>,
    transform: F,
    m: int,
)
    requires
        0 <= m <= pages.len(),
        pages.len() == w.len(),
        forall|k: int|
            0 <= k < pages.len() ==> page_of_instance(
                #[trigger] pages[k],
                geometries,
                instances,
                w[k],
                transform,
            ),
    ensures
        pages_triangles(pages, m) == indexed_triangles(geometries, instances, w, m),
    decreases m,
{
    if m > 0 {
        lemma_pages_triangles_prefix(pages, geometries, instances, w, transform, m - 1);
        assert(page_of_instance(pages[m - 1], geometries, instances, w[m - 1], transform));
    }
}

} // verus!
