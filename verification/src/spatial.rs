use core::ops::Range;
use std::collections::HashMap;
use vstd::prelude::*;
use vstd::slice::slice_subrange;
use vstd::std_specs::hash::spec_hash_map_iter;
use vstd::std_specs::iter::IteratorSpec;

use crate::scene::{Geometry, Triangle};

verus! {

broadcast use vstd::std_specs::hash::group_hash_axioms;

/// The object-id map maps local 8-bit object ids to global 32-bit object ids.
pub type ObjectIdMap = [u32; 256];

/// A slice of geometry, i.e., a only a part of the geometry is being referenced.
pub struct GeometrySlice<'a, V> {
    /// Reference to the geometry where the chunk comes from
    pub geometry: &'a Geometry<V>,

    /// The range of vertices
    pub vertex_range: Range<usize>,

    /// The triangle range for this chunk
    pub triangle_range: Range<usize>,
}

impl<'a, V> GeometrySlice<'a, V> {
    /// The vertex range lies within the vertices of the geometry.
    pub open spec fn vertex_range_valid(&self) -> bool {
        self.vertex_range.start <= self.vertex_range.end <= self.geometry.positions@.len()
    }

    /// The triangle range lies within the triangles of the geometry.
    pub open spec fn triangle_range_valid(&self) -> bool {
        self.triangle_range.start <= self.triangle_range.end <= self.geometry.triangles@.len()
    }

    /// Both ranges lie within the geometry.
    pub open spec fn wf(&self) -> bool {
        self.vertex_range_valid() && self.triangle_range_valid()
    }

    /// The vertices referenced by the slice.
    pub open spec fn vertices_view(&self) -> Seq<V> {
        self.geometry.positions@.subrange(
            self.vertex_range.start as int,
            self.vertex_range.end as int,
        )
    }

    /// The triangles referenced by the slice.
    pub open spec fn triangles_view(&self) -> Seq<Triangle> {
        self.geometry.triangles@.subrange(
            self.triangle_range.start as int,
            self.triangle_range.end as int,
        )
    }

    /// The number of vertices of the slice.
    pub open spec fn num_vertices(&self) -> int {
        self.vertex_range.end - self.vertex_range.start
    }

    /// The number of triangles of the slice.
    pub open spec fn num_triangles(&self) -> int {
        self.triangle_range.end - self.triangle_range.start
    }

    /// Returns the slice of vertices associated to the geometry slice.
    pub fn get_vertices(&self) -> (r: &[V])
        requires
            self.vertex_range_valid(),
        ensures
            r@ == self.vertices_view(),
    {
        let positions = &self.geometry.positions;
        slice_subrange(positions.as_slice(), self.vertex_range.start, self.vertex_range.end)
    }

    /// Returns the slice of triangles associated to the geometry slice.
    pub fn get_triangles(&self) -> (r: &[Triangle])
        requires
            self.triangle_range_valid(),
        ensures
            r@ == self.triangles_view(),
    {
        let triangles = &self.geometry.triangles;
        slice_subrange(triangles.as_slice(), self.triangle_range.start, self.triangle_range.end)
    }
}

/// An instantiated chunk of geometry belonging to an object.
pub struct Chunk<'a, V, M> {
    /// The slice of geometry that belongs to the chunk
    pub geo_slice: GeometrySlice<'a, V>,

    /// The transformation of the chunk into global coordinate system
    pub transform: M,

    /// The id of the object that the chunk belongs to.
    pub id: u32,
}

/// A reference page is a spatially sorted composition of chunks of geometry.
/// A page reference is only defined through reference and does not own the geometry data.
pub struct PageReference {
    /// The sorted list of chunks that define the page
    pub chunks: Range<usize>,
}

/// A list of spatially sorted pages.
pub struct PageReferences<'a, V, M> {
    /// All the chunks of the spatial sorting, sorted in a certain order
    chunks: Vec<Chunk<'a, V, M>>,

    /// The list of pages.
    pages: Vec<PageReference>,
}

/// A single assembled page: the vertices of its chunks in global coordinates, its triangles with
/// page-local vertex indices, and the local object id of each triangle.
pub struct Page<V> {
    /// The number of vertices of the page.
    pub num_vertices: usize,

    /// The object-id map that maps from the local object ids to the global object ids.
    /// The index of the array is the local object id and the value is the global object id.
    pub object_id_map: ObjectIdMap,

    /// The list of local object ids for each triangle that are mapped via the object id map to
    /// the global object ids
    pub local_object_ids: Vec<u8>,

    /// The positions of the page in the global coordinate system.
    pub positions: Vec<V>,

    /// The list of triangles
    pub triangles: Vec<Triangle>,
}

// ------------------------------------------------------------------------------------------
// Specification of the page assembly
// ------------------------------------------------------------------------------------------

/// True if the chunk references at least one triangle.
pub open spec fn chunk_has_triangles<'a, V, M>(c: Chunk<'a, V, M>) -> bool {
    c.geo_slice.triangle_range.start < c.geo_slice.triangle_range.end
}

/// The chunk range of a page reference lies within the given chunks.
pub open spec fn page_range_valid<'a, V, M>(cs: Seq<Chunk<'a, V, M>>, p: PageReference) -> bool {
    p.chunks.start <= p.chunks.end <= cs.len()
}

/// The chunks of the given page reference.
pub open spec fn page_chunks<'a, V, M>(cs: Seq<Chunk<'a, V, M>>, p: PageReference) -> Seq<
    Chunk<'a, V, M>,
> {
    cs.subrange(p.chunks.start as int, p.chunks.end as int)
}

/// A page is empty if none of its chunks references a triangle.
pub open spec fn page_is_empty<'a, V, M>(cs: Seq<Chunk<'a, V, M>>, p: PageReference) -> bool {
    forall|k: int| p.chunks.start <= k < p.chunks.end ==> !chunk_has_triangles(#[trigger] cs[k])
}

/// The distinct object ids of the first `n` chunks in the order of their first occurrence.
pub open spec fn distinct_ids<'a, V, M>(pcs: Seq<Chunk<'a, V, M>>, n: int) -> Seq<u32>
    decreases n,
{
    if n <= 0 {
        seq![]
    } else {
        let d = distinct_ids(pcs, n - 1);
        if d.contains(pcs[n - 1].id) {
            d
        } else {
            d.push(pcs[n - 1].id)
        }
    }
}

/// The position of `x` in the duplicate-free sequence `d`.
pub open spec fn position_of(d: Seq<u32>, x: u32) -> int {
    choose|i: int| 0 <= i < d.len() && d[i] == x
}

/// The local object id assigned to the chunk `j` of a page: the position of its object id among
/// the distinct object ids of the chunks `0..=j`.
pub open spec fn local_id_of<'a, V, M>(pcs: Seq<Chunk<'a, V, M>>, j: int) -> int {
    position_of(distinct_ids(pcs, j + 1), pcs[j].id)
}

/// The number of vertices of the first `n` chunks.
pub open spec fn vertices_before<'a, V, M>(pcs: Seq<Chunk<'a, V, M>>, n: int) -> int
    decreases n,
{
    if n <= 0 {
        0
    } else {
        vertices_before(pcs, n - 1) + pcs[n - 1].geo_slice.num_vertices()
    }
}

/// The number of triangles of the first `n` chunks.
pub open spec fn triangles_before<'a, V, M>(pcs: Seq<Chunk<'a, V, M>>, n: int) -> int
    decreases n,
{
    if n <= 0 {
        0
    } else {
        triangles_before(pcs, n - 1) + pcs[n - 1].geo_slice.num_triangles()
    }
}

/// The object-id map of a page whose distinct object ids are `d`.
pub open spec fn object_id_map_of(d: Seq<u32>, l: int) -> u32 {
    if 0 <= l < d.len() {
        d[l]
    } else {
        0
    }
}

/// The start of the vertex range of a chunk as the 32-bit value that its triangle indices are
/// moved from.
pub open spec fn chunk_start32<'a, V, M>(c: Chunk<'a, V, M>) -> int {
    (c.geo_slice.vertex_range.start as u32) as int
}

/// The number of vertices before the chunk `j` of a page, as the 32-bit value that its triangle
/// indices are moved to.
pub open spec fn chunk_offset32<'a, V, M>(pcs: Seq<Chunk<'a, V, M>>, j: int) -> int {
    (vertices_before(pcs, j) as u32) as int
}

/// The conditions under which the chunks of a page can be assembled: all ranges are valid, fewer
/// than 256 distinct object ids precede each chunk, and moving the triangle indices of each chunk
/// to the page neither drops below zero nor leaves 32 bits.
pub open spec fn page_assemblable<'a, V, M>(pcs: Seq<Chunk<'a, V, M>>) -> bool {
    &&& forall|j: int| 0 <= j < pcs.len() ==> (#[trigger] pcs[j]).geo_slice.wf()
    &&& forall|j: int| 0 <= j < pcs.len() ==> #[trigger] distinct_ids(pcs, j).len() < 256
    &&& forall|j: int, i: int|
        0 <= j < pcs.len() && 0 <= i < pcs[j].geo_slice.num_triangles() ==> triangle_remappable(
            #[trigger] pcs[j].geo_slice.triangles_view()[i],
            chunk_start32(pcs[j]),
            chunk_offset32(pcs, j),
        )
}

/// Each index of the triangle `t` lies at or above `start`, and moving it from `start` to
/// `offset` keeps it within 32 bits.
pub open spec fn triangle_remappable(t: Triangle, start: int, offset: int) -> bool {
    forall|c: int| 0 <= c < 3 ==> start <= #[trigger] t[c] && t[c] - start + offset <= u32::MAX
}

/// The triangle `r` is the triangle `t` with its indices moved from `start` to `offset`.
pub open spec fn triangle_remapped(r: Triangle, t: Triangle, start: int, offset: int) -> bool {
    forall|c: int| 0 <= c < 3 ==> #[trigger] r[c] == t[c] - start + offset
}

/// The page `page` is the assembly of the chunks `pcs` with the vertex transformation `transform`:
/// the transformed vertices and the re-indexed triangles of the chunks one after another, one
/// local object id per triangle (that of its chunk), and the map from local to global ids.
pub open spec fn page_assembled_from<'a, V, M, F: Fn(&M, &V) -> V>(
    page: Page<V>,
    pcs: Seq<Chunk<'a, V, M>>,
    transform: F,
) -> bool {
    let n = pcs.len() as int;
    let d = distinct_ids(pcs, n);
    &&& page.num_vertices == vertices_before(pcs, n)
    &&& page.positions@.len() == vertices_before(pcs, n)
    &&& forall|j: int, i: int|
        0 <= j < n && 0 <= i < pcs[j].geo_slice.num_vertices() ==> call_ensures(
            transform,
            (&pcs[j].transform, &pcs[j].geo_slice.vertices_view()[i]),
            #[trigger] page.positions@[vertices_before(pcs, j) + i],
        )
    &&& page.triangles@.len() == triangles_before(pcs, n)
    &&& forall|j: int, i: int|
        0 <= j < n && 0 <= i < pcs[j].geo_slice.num_triangles() ==> triangle_remapped(
            #[trigger] page.triangles@[triangles_before(pcs, j) + i],
            pcs[j].geo_slice.triangles_view()[i],
            chunk_start32(pcs[j]),
            chunk_offset32(pcs, j),
        )
    &&& page.local_object_ids@.len() == triangles_before(pcs, n)
    &&& forall|j: int, i: int|
        0 <= j < n && 0 <= i < pcs[j].geo_slice.num_triangles()
            ==> #[trigger] page.local_object_ids@[triangles_before(pcs, j) + i] == local_id_of(pcs, j)
    &&& forall|l: int| 0 <= l < 256 ==> #[trigger] page.object_id_map@[l] == object_id_map_of(d, l)
}

// ------------------------------------------------------------------------------------------
// Mapping global object ids to local ones
// ------------------------------------------------------------------------------------------

/// The local ids of the map are distinct and the map holds fewer than 257 entries.
pub open spec fn local_id_map_wf(m: Map<u32, u8>) -> bool {
    forall|g1: u32, g2: u32|
        #![trigger m[g1], m[g2]]
        m.contains_key(g1) && m.contains_key(g2) && g1 != g2 ==> m[g1] != m[g2]
}

/// The map assigns the local id `i` to the `i`-th entry of `d`, and nothing else.
pub open spec fn local_id_map_matches(m: Map<u32, u8>, d: Seq<u32>) -> bool {
    &&& d.no_duplicates()
    &&& d.len() <= 256
    &&& m.dom() == d.to_set()
    &&& forall|i: int| 0 <= i < d.len() ==> #[trigger] m[d[i]] == i
}

/// Returns a local id for the given global id: the one already assigned to it, or else the next
/// free one, which is then recorded in the map.
///
/// # Arguments
/// * `map` - The map from global to local ids.
/// * `global_id` - The global id that gets mapped to the local one.
fn get_local_id(map: &mut HashMap<u32, u8>, global_id: u32) -> (r: u8)
    requires
        old(map)@.len() < 256,
    ensures
        old(map)@.contains_key(global_id) ==> r == old(map)@[global_id] && final(map)@ == old(map)@,
        !old(map)@.contains_key(global_id) ==> r == old(map)@.len() && final(map)@ == old(map)@.insert(
            global_id,
            r,
        ),
{
    let potential_new_local_id = map.len();
    let local_id = map.entry(global_id).or_insert(potential_new_local_id as u8);

    *local_id
}

/// Returns the object id map of the given map from global to local ids, i.e., the reverse map.
/// Entries that no global id maps to are 0.
///
/// # Arguments
/// * `map` - The map from global to local ids.
fn create_object_id_map(map: &HashMap<u32, u8>) -> (r: ObjectIdMap)
    requires
        local_id_map_wf(map@),
    ensures
        forall|g: u32| map@.contains_key(g) ==> #[trigger] r@[map@[g] as int] == g,
        forall|l: int|
            0 <= l < 256 && !(exists|g: u32| map@.contains_key(g) && map@[g] == l) ==> #[trigger] r@[l] == 0,
{
    let mut object_id_map: ObjectIdMap = [0u32; 256];
    let ghost entries = spec_hash_map_iter(map).remaining();
    assert(forall|k: int|
        #![trigger entries[k]]
        0 <= k < entries.len() ==> map@.contains_key(*entries[k].0) && map@[*entries[k].0]
            == *entries[k].1);
    for entry in it: map.iter()
        invariant
            local_id_map_wf(map@),
            it.seq() == entries,
            forall|k: int|
                #![trigger entries[k]]
                0 <= k < entries.len() ==> map@.contains_key(*entries[k].0) && map@[*entries[k].0]
                    == *entries[k].1,
            forall|k: int|
                #![trigger entries[k]]
                0 <= k < it.index() ==> object_id_map@[*entries[k].1 as int] == *entries[k].0,
            forall|l: int|
                0 <= l < 256 && !(exists|k: int| 0 <= k < it.index() && *entries[k].1 == l)
                    ==> #[trigger] object_id_map@[l] == 0,
    {
        let (global_id, local_id) = entry;
        let ghost idx = it.index();
        proof {
            assert(entries[idx] == entry);
            assert forall|k: int| 0 <= k < idx && *entries[k].1 == *local_id implies *entries[k].0
                == *global_id by {
                assert(map@[*entries[k].0] == map@[*entries[idx].0]);
            }
        }
        object_id_map[*local_id as usize] = *global_id;
    }
    proof {
        assert forall|g: u32| map@.contains_key(g) implies #[trigger] object_id_map@[map@[g] as int]
            == g by {
            assert(entries.contains((&g, &map@[g])));
            let k = choose|k: int| 0 <= k < entries.len() && entries[k] == (&g, &map@[g]);
            assert(entries[k] == (&g, &map@[g]));
        }
        assert forall|l: int|
            0 <= l < 256 && !(exists|g: u32| map@.contains_key(g) && map@[g] == l) implies #[trigger] object_id_map@[l] == 0 by {
            if exists|k: int| 0 <= k < entries.len() && *entries[k].1 == l {
                let k = choose|k: int| 0 <= k < entries.len() && *entries[k].1 == l;
                assert(entries[k] == entries[k]);
                assert(map@.contains_key(*entries[k].0) && map@[*entries[k].0] == l);
            }
        }
    }

    object_id_map
}

/// The page references among the first `n` ones of `ps` whose pages are not empty, in order.
pub open spec fn nonempty_pages<'a, V, M>(
    cs: Seq<Chunk<'a, V, M>>,
    ps: Seq<PageReference>,
    n: int,
) -> Seq<PageReference>
    decreases n,
{
    if n <= 0 {
        seq![]
    } else if page_is_empty(cs, ps[n - 1]) {
        nonempty_pages(cs, ps, n - 1)
    } else {
        nonempty_pages(cs, ps, n - 1).push(ps[n - 1])
    }
}

/// All page references lie within the chunks, and each non-empty page can be assembled.
pub open spec fn pages_assemblable<'a, V, M>(cs: Seq<Chunk<'a, V, M>>, ps: Seq<PageReference>) -> bool {
    forall|p: int|
        0 <= p < ps.len() ==> {
            &&& page_range_valid(cs, #[trigger] ps[p])
            &&& !page_is_empty(cs, ps[p]) ==> page_assemblable(page_chunks(cs, ps[p]))
        }
}

// ------------------------------------------------------------------------------------------
// Lemmas about the page assembly
// ------------------------------------------------------------------------------------------

/// The distinct ids hold no id twice, and each of them is the id of one of the chunks counted.
proof fn lemma_distinct_ids_no_duplicates<'a, V, M>(pcs: Seq<Chunk<'a, V, M>>, n: int)
    ensures
        distinct_ids(pcs, n).no_duplicates(),
        forall|i: int|
            0 <= i < distinct_ids(pcs, n).len() ==> exists|k: int|
                0 <= k < n && pcs[k].id == #[trigger] distinct_ids(pcs, n)[i],
    decreases n,
{
    if n > 0 {
        lemma_distinct_ids_no_duplicates(pcs, n - 1);
        let d = distinct_ids(pcs, n - 1);
        if !d.contains(pcs[n - 1].id) {
            let d2 = d.push(pcs[n - 1].id);
            assert forall|i: int| 0 <= i < d2.len() implies exists|k: int|
                0 <= k < n && pcs[k].id == #[trigger] d2[i] by {
                if i == d.len() {
                    assert(pcs[n - 1].id == d2[i]);
                } else {
                    assert(d2[i] == d[i]);
                }
            }
        }
    }
}

/// The position of an entry of a duplicate-free sequence is its index.
proof fn lemma_position_of(d: Seq<u32>, i: int)
    requires
        d.no_duplicates(),
        0 <= i < d.len(),
    ensures
        position_of(d, d[i]) == i,
{
    let p = position_of(d, d[i]);
    assert(0 <= p < d.len() && d[p] == d[i]);
}

/// The vertex and triangle offsets of the chunks are not negative.
proof fn lemma_offsets_nonnegative<'a, V, M>(pcs: Seq<Chunk<'a, V, M>>, i: int)
    requires
        0 <= i <= pcs.len(),
        forall|k: int| 0 <= k < pcs.len() ==> (#[trigger] pcs[k]).geo_slice.wf(),
    ensures
        0 <= vertices_before(pcs, i),
        0 <= triangles_before(pcs, i),
    decreases i,
{
    if i > 0 {
        lemma_offsets_nonnegative(pcs, i - 1);
        assert(pcs[i - 1].geo_slice.wf());
    }
}

/// The vertex and triangle offsets only grow with the number of chunks counted.
proof fn lemma_offsets_monotone<'a, V, M>(pcs: Seq<Chunk<'a, V, M>>, i: int, j: int)
    requires
        0 <= i <= j <= pcs.len(),
        forall|k: int| 0 <= k < pcs.len() ==> (#[trigger] pcs[k]).geo_slice.wf(),
    ensures
        vertices_before(pcs, i) <= vertices_before(pcs, j),
        triangles_before(pcs, i) <= triangles_before(pcs, j),
        0 <= vertices_before(pcs, i),
        0 <= triangles_before(pcs, i),
    decreases j - i,
{
    lemma_offsets_nonnegative(pcs, i);
    if i < j {
        lemma_offsets_monotone(pcs, i, j - 1);
        assert(pcs[j - 1].geo_slice.wf());
    }
}

/// Assigning the local id of the chunk `j` keeps the map in step with the distinct ids.
proof fn lemma_local_id_step<'a, V, M>(
    pcs: Seq<Chunk<'a, V, M>>,
    j: int,
    m: Map<u32, u8>,
    m2: Map<u32, u8>,
    r: u8,
)
    requires
        0 <= j < pcs.len(),
        distinct_ids(pcs, j).len() < 256,
        local_id_map_matches(m, distinct_ids(pcs, j)),
        m.contains_key(pcs[j].id) ==> r == m[pcs[j].id] && m2 == m,
        !m.contains_key(pcs[j].id) ==> r == m.len() && m2 == m.insert(pcs[j].id, r),
    ensures
        local_id_map_matches(m2, distinct_ids(pcs, j + 1)),
        r == local_id_of(pcs, j),
{
    let d = distinct_ids(pcs, j);
    let id = pcs[j].id;
    lemma_distinct_ids_no_duplicates(pcs, j + 1);
    d.unique_seq_to_set();
    if d.contains(id) {
        let i = choose|i: int| 0 <= i < d.len() && d[i] == id;
        lemma_position_of(d, i);
        assert(m.dom().contains(id));
    } else {
        assert(!m.dom().contains(id));
        let d2 = d.push(id);
        d.lemma_push_to_set_commute(id);
        assert(m2.dom() =~= d2.to_set());
        assert(m.len() == d.len());
        assert forall|i: int| 0 <= i < d2.len() implies #[trigger] m2[d2[i]] == i by {
            if i < d.len() {
                assert(d2[i] == d[i]);
                assert(d.contains(d[i]));
            }
        }
        lemma_position_of(d2, d.len() as int);
    }
}

/// The object-id map of a map in step with the distinct ids `d`.
proof fn lemma_object_id_map(m: Map<u32, u8>, d: Seq<u32>, r: Seq<u32>)
    requires
        local_id_map_matches(m, d),
        r.len() == 256,
        forall|g: u32| m.contains_key(g) ==> #[trigger] r[m[g] as int] == g,
        forall|l: int|
            0 <= l < 256 && !(exists|g: u32| m.contains_key(g) && m[g] == l) ==> #[trigger] r[l] == 0,
    ensures
        forall|l: int| 0 <= l < 256 ==> #[trigger] r[l] == object_id_map_of(d, l),
{
    assert forall|l: int| 0 <= l < 256 implies #[trigger] r[l] == object_id_map_of(d, l) by {
        if l < d.len() {
            assert(d.to_set().contains(d[l]));
            assert(m[d[l]] == l);
        } else {
            if exists|g: u32| m.contains_key(g) && m[g] == l {
                let g = choose|g: u32| m.contains_key(g) && m[g] == l;
                assert(d.to_set().contains(g));
                let i = choose|i: int| 0 <= i < d.len() && d[i] == g;
                assert(m[d[i]] == i);
            }
        }
    }
}

/// A map matching a duplicate-free sequence assigns distinct local ids and has its length.
proof fn lemma_local_id_map_wf(m: Map<u32, u8>, d: Seq<u32>)
    requires
        local_id_map_matches(m, d),
    ensures
        local_id_map_wf(m),
        m.len() == d.len(),
{
    d.unique_seq_to_set();
    assert forall|g1: u32, g2: u32|
        m.contains_key(g1) && m.contains_key(g2) && g1 != g2 implies #[trigger] m[g1] != #[trigger] m[g2] by {
        assert(d.to_set().contains(g1));
        assert(d.to_set().contains(g2));
        let i1 = choose|i: int| 0 <= i < d.len() && d[i] == g1;
        let i2 = choose|i: int| 0 <= i < d.len() && d[i] == g2;
        assert(m[d[i1]] == i1);
        assert(m[d[i2]] == i2);
    }
}

// ------------------------------------------------------------------------------------------
// Page references
// ------------------------------------------------------------------------------------------

impl PageReference {
    /// Returns true if the page reference is empty and false otherwise.
    ///
    /// # Arguments
    /// * `page_references` - The page references object to which this page reference belongs to.
    pub fn is_empty<'a, V, M>(&self, page_references: &PageReferences<'a, V, M>) -> (r: bool)
        requires
            page_range_valid(page_references.chunks_view(), *self),
        ensures
            r == page_is_empty(page_references.chunks_view(), *self),
    {
        let chunks = &page_references.chunks;
        let mut k = self.chunks.start;
        while k < self.chunks.end
            invariant
                chunks@ == page_references.chunks_view(),
                self.chunks.start <= k <= self.chunks.end <= chunks@.len(),
                forall|kk: int| self.chunks.start <= kk < k ==> !chunk_has_triangles(#[trigger] chunks@[kk]),
            decreases self.chunks.end - k,
        {
            let range = &chunks[k].geo_slice.triangle_range;
            if range.start < range.end {
                assert(chunk_has_triangles(page_references.chunks_view()[k as int]));
                return false;
            }
            k += 1;
        }

        true
    }
}

impl<'a, V, M> PageReferences<'a, V, M> {
    /// The chunks of the spatial sorting.
    pub closed spec fn chunks_view(&self) -> Seq<Chunk<'a, V, M>> {
        self.chunks@
    }

    /// The page references.
    pub closed spec fn pages_view(&self) -> Seq<PageReference> {
        self.pages@
    }

    /// Creates a new page references object based on the given data.
    pub fn new(chunks: Vec<Chunk<'a, V, M>>, pages: Vec<PageReference>) -> (r: Self)
        ensures
            r.chunks_view() == chunks@,
            r.pages_view() == pages@,
    {
        Self { chunks, pages }
    }

    /// Returns the chunks of the spatial sorting.
    pub fn get_chunks(&self) -> (r: &[Chunk<'a, V, M>])
        ensures
            r@ == self.chunks_view(),
    {
        self.chunks.as_slice()
    }

    /// Returns the page references.
    pub fn get_pages(&self) -> (r: &[PageReference])
        ensures
            r@ == self.pages_view(),
    {
        self.pages.as_slice()
    }

    /// Assembles the page of the given page reference.
    fn create_page<F: Fn(&M, &V) -> V>(&self, page_ref: &PageReference, transform: &F) -> (page: Page<V>)
        requires
            page_range_valid(self.chunks@, *page_ref),
            page_assemblable(page_chunks(self.chunks@, *page_ref)),
            forall|m: M, v: V| call_requires(*transform, (&m, &v)),
        ensures
            page_assembled_from(page, page_chunks(self.chunks@, *page_ref), *transform),
    {
        let ghost pcs = page_chunks(self.chunks@, *page_ref);
        let ghost start = page_ref.chunks.start as int;
        let ghost n = pcs.len() as int;
        proof {
            lemma_offsets_monotone(pcs, n, n);
        }

        let mut positions_raw: Vec<V> = Vec::new();
        let mut triangles: Vec<Triangle> = Vec::new();
        let mut local_object_ids: Vec<u8> = Vec::new();
        let mut global_to_local_ids: HashMap<u32, u8> = HashMap::new();

        proof {
            assert(Seq::<u32>::empty().to_set() =~= Set::<u32>::empty());
            assert(global_to_local_ids@.dom() =~= Set::<u32>::empty());
        }

        // iterate over the chunks of the current page reference
        let mut k = page_ref.chunks.start;
        while k < page_ref.chunks.end
            invariant
                pcs == page_chunks(self.chunks@, *page_ref),
                page_range_valid(self.chunks@, *page_ref),
                page_assemblable(pcs),
                forall|m: M, v: V| call_requires(*transform, (&m, &v)),
                start == page_ref.chunks.start,
                n == pcs.len(),
                page_ref.chunks.start <= k <= page_ref.chunks.end,
                positions_raw@.len() == vertices_before(pcs, k - start),
                forall|j: int, i: int|
                    0 <= j < k - start && 0 <= i < pcs[j].geo_slice.num_vertices() ==> call_ensures(
                        *transform,
                        (&pcs[j].transform, &pcs[j].geo_slice.vertices_view()[i]),
                        #[trigger] positions_raw@[vertices_before(pcs, j) + i],
                    ),
                triangles@.len() == triangles_before(pcs, k - start),
                forall|j: int, i: int|
                    0 <= j < k - start && 0 <= i < pcs[j].geo_slice.num_triangles() ==> triangle_remapped(
                        #[trigger] triangles@[triangles_before(pcs, j) + i],
                        pcs[j].geo_slice.triangles_view()[i],
                        chunk_start32(pcs[j]),
                        chunk_offset32(pcs, j),
                    ),
                local_object_ids@.len() == triangles_before(pcs, k - start),
                forall|j: int, i: int|
                    0 <= j < k - start && 0 <= i < pcs[j].geo_slice.num_triangles()
                        ==> #[trigger] local_object_ids@[triangles_before(pcs, j) + i]
                        == local_id_of(pcs, j),
                local_id_map_matches(global_to_local_ids@, distinct_ids(pcs, k - start)),
            decreases page_ref.chunks.end - k,
        {
            let ghost j = k - start;
            let chunk = &self.chunks[k];
            assert(pcs[j] == *chunk);
            assert(chunk.geo_slice.wf());
            proof {
                lemma_offsets_monotone(pcs, j, n);
                lemma_offsets_monotone(pcs, j + 1, n);
                lemma_local_id_map_wf(global_to_local_ids@, distinct_ids(pcs, j));
            }

            let vertex_offset = positions_raw.len() as u32;
            let ghost old_map = global_to_local_ids@;
            let local_id = get_local_id(&mut global_to_local_ids, chunk.id);
            proof {
                lemma_local_id_step(pcs, j, old_map, global_to_local_ids@, local_id);
            }

            // append transformed positions to the resulting positions vector
            let in_positions = chunk.geo_slice.get_vertices();
            let ghost prev_positions = positions_raw@;
            let mut i: usize = 0;
            while i < in_positions.len()
                invariant
                    n == pcs.len(),
                    0 <= j < n,
                    in_positions@ == pcs[j].geo_slice.vertices_view(),
                    in_positions@.len() == pcs[j].geo_slice.num_vertices(),
                    *chunk == pcs[j],
                    forall|m: M, v: V| call_requires(*transform, (&m, &v)),
                    0 <= i <= in_positions@.len(),
                    positions_raw@.len() == prev_positions.len() + i,
                    positions_raw@.subrange(0, prev_positions.len() as int) == prev_positions,
                    forall|ii: int|
                        0 <= ii < i ==> call_ensures(
                            *transform,
                            (&chunk.transform, &in_positions@[ii]),
                            #[trigger] positions_raw@[prev_positions.len() + ii],
                        ),
                decreases in_positions@.len() - i,
            {
                let p = transform(&chunk.transform, &in_positions[i]);
                positions_raw.push(p);
                proof {
                    assert(positions_raw@.subrange(0, prev_positions.len() as int)
                        =~= prev_positions);
                }
                i += 1;
            }
            proof {
                assert forall|jj: int, ii: int|
                    0 <= jj < j + 1 && 0 <= ii < pcs[jj].geo_slice.num_vertices() implies call_ensures(
                        *transform,
                        (&pcs[jj].transform, &pcs[jj].geo_slice.vertices_view()[ii]),
                        #[trigger] positions_raw@[vertices_before(pcs, jj) + ii],
                    ) by {
                    if jj < j {
                        lemma_offsets_monotone(pcs, jj + 1, j);
                        lemma_offsets_nonnegative(pcs, jj);
                        assert(pcs[jj].geo_slice.wf());
                        let idx = vertices_before(pcs, jj) + ii;
                        assert(idx < prev_positions.len());
                        assert(positions_raw@.subrange(0, prev_positions.len() as int)[idx]
                            == positions_raw@[idx]);
                    }
                }
            }

            // append triangles to the page, together with the local object id of each
            let chunk_vertex_offset = chunk.geo_slice.vertex_range.start as u32;
            let in_triangles = chunk.geo_slice.get_triangles();
            let ghost prev_triangles = triangles@;
            let ghost prev_ids = local_object_ids@;
            let mut i: usize = 0;
            while i < in_triangles.len()
                invariant
                    local_id == local_id_of(pcs, j),
                    prev_ids.len() == prev_triangles.len(),
                    local_object_ids@.len() == prev_ids.len() + i,
                    local_object_ids@.subrange(0, prev_ids.len() as int) == prev_ids,
                    forall|ii: int|
                        0 <= ii < i ==> #[trigger] local_object_ids@[prev_ids.len() + ii] == local_id,
                    n == pcs.len(),
                    in_triangles@ == pcs[j].geo_slice.triangles_view(),
                    in_triangles@.len() == pcs[j].geo_slice.num_triangles(),
                    *chunk == pcs[j],
                    page_assemblable(pcs),
                    0 <= j < n,
                    chunk_vertex_offset == chunk_start32(pcs[j]),
                    vertex_offset == chunk_offset32(pcs, j),
                    0 <= i <= in_triangles@.len(),
                    triangles@.len() == prev_triangles.len() + i,
                    triangles@.subrange(0, prev_triangles.len() as int) == prev_triangles,
                    forall|ii: int|
                        0 <= ii < i ==> triangle_remapped(
                            #[trigger] triangles@[prev_triangles.len() + ii],
                            in_triangles@[ii],
                            chunk_vertex_offset as int,
                            vertex_offset as int,
                        ),
                decreases in_triangles@.len() - i,
            {
                let t = in_triangles[i];
                assert(triangle_remappable(
                    pcs[j].geo_slice.triangles_view()[i as int],
                    chunk_start32(pcs[j]),
                    chunk_offset32(pcs, j),
                ));
                assert(t[0] >= chunk_vertex_offset && t[1] >= chunk_vertex_offset && t[2]
                    >= chunk_vertex_offset);
                let r: Triangle = [
                    t[0] - chunk_vertex_offset + vertex_offset,
                    t[1] - chunk_vertex_offset + vertex_offset,
                    t[2] - chunk_vertex_offset + vertex_offset,
                ];
                triangles.push(r);
                local_object_ids.push(local_id);
                proof {
                    assert(triangles@.subrange(0, prev_triangles.len() as int) =~= prev_triangles);
                    assert(local_object_ids@.subrange(0, prev_ids.len() as int) =~= prev_ids);
                    assert(triangle_remapped(r, t, chunk_vertex_offset as int, vertex_offset as int));
                }
                i += 1;
            }
            proof {
                assert forall|jj: int, ii: int|
                    0 <= jj < j + 1 && 0 <= ii < pcs[jj].geo_slice.num_triangles() implies triangle_remapped(
                        #[trigger] triangles@[triangles_before(pcs, jj) + ii],
                        pcs[jj].geo_slice.triangles_view()[ii],
                        chunk_start32(pcs[jj]),
                        chunk_offset32(pcs, jj),
                    ) by {
                    if jj < j {
                        lemma_offsets_monotone(pcs, jj + 1, j);
                        lemma_offsets_nonnegative(pcs, jj);
                        assert(pcs[jj].geo_slice.wf());
                        let idx = triangles_before(pcs, jj) + ii;
                        assert(idx < prev_triangles.len());
                        assert(triangles@.subrange(0, prev_triangles.len() as int)[idx]
                            == triangles@[idx]);
                    }
                }
                assert forall|jj: int, ii: int|
                    0 <= jj < j + 1 && 0 <= ii < pcs[jj].geo_slice.num_triangles()
                        implies #[trigger] local_object_ids@[triangles_before(pcs, jj) + ii]
                        == local_id_of(pcs, jj) by {
                    if jj < j {
                        lemma_offsets_monotone(pcs, jj + 1, j);
                        lemma_offsets_nonnegative(pcs, jj);
                        assert(pcs[jj].geo_slice.wf());
                        let idx = triangles_before(pcs, jj) + ii;
                        assert(idx < prev_ids.len());
                        assert(local_object_ids@.subrange(0, prev_ids.len() as int)[idx]
                            == local_object_ids@[idx]);
                    } else {
                        assert(triangles_before(pcs, jj) == prev_ids.len());
                    }
                }
            }

            k += 1;
        }

        let num_vertices = positions_raw.len();

        // create the reverse map, i.e., local id -> global id
        proof {
            lemma_local_id_map_wf(global_to_local_ids@, distinct_ids(pcs, n));
        }
        let object_id_map = create_object_id_map(&global_to_local_ids);
        proof {
            lemma_object_id_map(global_to_local_ids@, distinct_ids(pcs, n), object_id_map@);
        }

        Page {
            num_vertices,
            object_id_map,
            local_object_ids,
            positions: positions_raw,
            triangles,
        }
    }

    /// Creates and returns the pages based on the page references: for each non-empty page
    /// reference, in order, the assembly of its chunks, with each vertex transformed by
    /// `transform` with the transformation of its chunk, and each triangle carrying the local
    /// object id of its chunk.
    ///
    /// # Arguments
    /// * `transform` - Transforms a vertex with the transformation of its chunk.
    pub fn create_pages<F: Fn(&M, &V) -> V>(&self, transform: F) -> (pages: Vec<Page<V>>)
        requires
            pages_assemblable(self.chunks_view(), self.pages_view()),
            forall|m: M, v: V| call_requires(transform, (&m, &v)),
        ensures
            pages@.len() == nonempty_pages(
                self.chunks_view(),
                self.pages_view(),
                self.pages_view().len() as int,
            ).len(),
            forall|i: int|
                0 <= i < pages@.len() ==> page_assembled_from(
                    #[trigger] pages@[i],
                    page_chunks(
                        self.chunks_view(),
                        nonempty_pages(
                            self.chunks_view(),
                            self.pages_view(),
                            self.pages_view().len() as int,
                        )[i],
                    ),
                    transform,
                ),
    {
        let ghost cs = self.chunks@;
        let ghost ps = self.pages@;
        let mut pages: Vec<Page<V>> = Vec::new();
        let mut p: usize = 0;
        while p < self.pages.len()
            invariant
                cs == self.chunks@,
                ps == self.pages@,
                pages_assemblable(cs, ps),
                forall|m: M, v: V| call_requires(transform, (&m, &v)),
                0 <= p <= ps.len(),
                pages@.len() == nonempty_pages(cs, ps, p as int).len(),
                forall|i: int|
                    0 <= i < pages@.len() ==> page_assembled_from(
                        #[trigger] pages@[i],
                        page_chunks(cs, nonempty_pages(cs, ps, p as int)[i]),
                        transform,
                    ),
            decreases ps.len() - p,
        {
            let page_ref = &self.pages[p];
            assert(page_range_valid(cs, ps[p as int]));
            if !page_ref.is_empty(self) {
                let page = self.create_page(page_ref, &transform);
                pages.push(page);
            }
            proof {
                assert(nonempty_pages(cs, ps, p + 1) == if page_is_empty(cs, ps[p as int]) {
                    nonempty_pages(cs, ps, p as int)
                } else {
                    nonempty_pages(cs, ps, p as int).push(ps[p as int])
                });
            }
            p += 1;
        }

        pages
    }
}

// ------------------------------------------------------------------------------------------
// Laws of the page assembly
// ------------------------------------------------------------------------------------------

/// The distinct ids of fewer chunks are a prefix of those of more chunks, and each chunk adds
/// at most one id.
proof fn lemma_distinct_ids_prefix<'a, V, M>(pcs: Seq<Chunk<'a, V, M>>, j: int, n: int)
    requires
        0 <= j <= n,
    ensures
        distinct_ids(pcs, j).len() <= distinct_ids(pcs, n).len() <= distinct_ids(pcs, j).len() + (n - j),
        distinct_ids(pcs, n).subrange(0, distinct_ids(pcs, j).len() as int) == distinct_ids(pcs, j),
    decreases n - j,
{
    if j < n {
        lemma_distinct_ids_prefix(pcs, j, n - 1);
        let dj = distinct_ids(pcs, j);
        let dp = distinct_ids(pcs, n - 1);
        let dn = distinct_ids(pcs, n);
        assert(dn.subrange(0, dj.len() as int) =~= dp.subrange(0, dj.len() as int));
    } else {
        assert(distinct_ids(pcs, n).subrange(0, distinct_ids(pcs, n).len() as int) =~= distinct_ids(
            pcs,
            n,
        ));
    }
}

/// The local id of the chunk `j` is below the number of distinct ids of the page, and the
/// distinct id at that position is the object id of the chunk.
proof fn lemma_local_id_of<'a, V, M>(pcs: Seq<Chunk<'a, V, M>>, j: int)
    requires
        0 <= j < pcs.len(),
    ensures
        0 <= local_id_of(pcs, j) < distinct_ids(pcs, pcs.len() as int).len(),
        distinct_ids(pcs, pcs.len() as int)[local_id_of(pcs, j)] == pcs[j].id,
{
    let d = distinct_ids(pcs, j + 1);
    let dn = distinct_ids(pcs, pcs.len() as int);
    lemma_distinct_ids_no_duplicates(pcs, j + 1);
    lemma_distinct_ids_prefix(pcs, j + 1, pcs.len() as int);
    assert(d.contains(pcs[j].id)) by {
        let dp = distinct_ids(pcs, j);
        if !dp.contains(pcs[j].id) {
            assert(d[dp.len() as int] == pcs[j].id);
        }
    }
    let i = choose|i: int| 0 <= i < d.len() && d[i] == pcs[j].id;
    lemma_position_of(d, i);
    assert(dn.subrange(0, d.len() as int)[i] == dn[i]);
}

/// The object-id map of an assembled page maps the local id of each chunk back to the chunk's
/// global object id. The page holds one local object id per triangle, and the local id of each
/// triangle maps back to the global object id of the chunk that the triangle comes from.
pub proof fn lemma_page_object_ids<'a, V, M, F: Fn(&M, &V) -> V>(
    page: Page<V>,
    pcs: Seq<Chunk<'a, V, M>>,
    transform: F,
)
    requires
        page_assemblable(pcs),
        page_assembled_from(page, pcs, transform),
    ensures
        forall|j: int|
            0 <= j < pcs.len() ==> 0 <= #[trigger] local_id_of(pcs, j) < 256
                && page.object_id_map@[local_id_of(pcs, j)] == pcs[j].id,
        page.local_object_ids@.len() == page.triangles@.len(),
        forall|j: int, i: int|
            0 <= j < pcs.len() && 0 <= i < pcs[j].geo_slice.num_triangles() ==> page.object_id_map@[
            #[trigger] page.local_object_ids@[triangles_before(pcs, j) + i] as int] == pcs[j].id,
        forall|k: int|
            0 <= k < page.local_object_ids@.len() ==> exists|j: int|
                0 <= j < pcs.len() && page.object_id_map@[#[trigger] page.local_object_ids@[k] as int]
                    == pcs[j].id,
{
    let n = pcs.len() as int;
    let dn = distinct_ids(pcs, n);
    if n > 0 {
        assert(distinct_ids(pcs, n - 1).len() < 256);
        lemma_distinct_ids_prefix(pcs, n - 1, n);
    }
    assert forall|j: int| 0 <= j < n implies 0 <= #[trigger] local_id_of(pcs, j) < 256
        && page.object_id_map@[local_id_of(pcs, j)] == pcs[j].id by {
        lemma_local_id_of(pcs, j);
    }
    assert forall|j: int, i: int|
        0 <= j < n && 0 <= i < pcs[j].geo_slice.num_triangles() implies page.object_id_map@[
        #[trigger] page.local_object_ids@[triangles_before(pcs, j) + i] as int] == pcs[j].id by {
        lemma_local_id_of(pcs, j);
    }
    assert forall|k: int| 0 <= k < page.local_object_ids@.len() implies exists|j: int|
        0 <= j < n && page.object_id_map@[#[trigger] page.local_object_ids@[k] as int] == pcs[j].id by {
        let j = lemma_locate_triangle(pcs, n, k);
        let i = k - triangles_before(pcs, j);
        assert(page.local_object_ids@[triangles_before(pcs, j) + i] == page.local_object_ids@[k]);
        lemma_local_id_of(pcs, j);
    }
}

/// Every triangle index lies within the vertex range of its chunk, the vertex ranges start within
/// 32 bits, and the page holds at most `u32::MAX` vertices.
pub open spec fn triangles_within_vertex_ranges<'a, V, M>(pcs: Seq<Chunk<'a, V, M>>) -> bool {
    &&& vertices_before(pcs, pcs.len() as int) <= u32::MAX
    &&& forall|j: int| 0 <= j < pcs.len() ==> (#[trigger] pcs[j]).geo_slice.vertex_range.start <= u32::MAX
    &&& forall|j: int, i: int|
        0 <= j < pcs.len() && 0 <= i < pcs[j].geo_slice.num_triangles() ==> triangle_below(
            #[trigger] pcs[j].geo_slice.triangles_view()[i],
            pcs[j].geo_slice.vertex_range.end as int,
        )
}

/// Each index of the triangle `t` lies below `end`.
pub open spec fn triangle_below(t: Triangle, end: int) -> bool {
    forall|c: int| 0 <= c < 3 ==> #[trigger] t[c] < end
}

/// Each triangle of the page belongs to one chunk: the one whose triangles precede it.
proof fn lemma_locate_triangle<'a, V, M>(pcs: Seq<Chunk<'a, V, M>>, n: int, k: int) -> (j: int)
    requires
        0 <= n <= pcs.len(),
        0 <= k < triangles_before(pcs, n),
        forall|q: int| 0 <= q < pcs.len() ==> (#[trigger] pcs[q]).geo_slice.wf(),
    ensures
        0 <= j < n,
        triangles_before(pcs, j) <= k < triangles_before(pcs, j + 1),
    decreases n,
{
    lemma_offsets_nonnegative(pcs, n - 1);
    if k >= triangles_before(pcs, n - 1) {
        n - 1
    } else {
        lemma_locate_triangle(pcs, n - 1, k)
    }
}

/// If the triangles of each chunk index only the chunk's own vertices, the triangles of the
/// assembled page index only the page's vertices.
pub proof fn lemma_page_triangles_index_page_vertices<'a, V, M, F: Fn(&M, &V) -> V>(
    page: Page<V>,
    pcs: Seq<Chunk<'a, V, M>>,
    transform: F,
)
    requires
        page_assemblable(pcs),
        triangles_within_vertex_ranges(pcs),
        page_assembled_from(page, pcs, transform),
    ensures
        forall|k: int, c: int|
            0 <= k < page.triangles@.len() && 0 <= c < 3 ==> #[trigger] page.triangles@[k][c]
                < page.num_vertices,
{
    let n = pcs.len() as int;
    assert forall|k: int, c: int| 0 <= k < page.triangles@.len() && 0 <= c < 3 implies #[trigger] page.triangles@[k][c]
        < page.num_vertices by {
        let j = lemma_locate_triangle(pcs, n, k);
        let i = k - triangles_before(pcs, j);
        let t = pcs[j].geo_slice.triangles_view()[i];
        assert(pcs[j].geo_slice.wf());
        lemma_offsets_monotone(pcs, j, n);
        lemma_offsets_monotone(pcs, j + 1, n);
        assert(page.triangles@[triangles_before(pcs, j) + i] == page.triangles@[k]);
        assert(triangle_remapped(page.triangles@[k], t, chunk_start32(pcs[j]), chunk_offset32(pcs, j)));
        assert(chunk_start32(pcs[j]) == pcs[j].geo_slice.vertex_range.start);
        assert(chunk_offset32(pcs, j) == vertices_before(pcs, j));
        assert(t[c] < pcs[j].geo_slice.vertex_range.end);
    }
}

} // verus!
