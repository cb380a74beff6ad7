use pixel_contrib::scene::Geometry;
use pixel_contrib::spatial::{Chunk, GeometrySlice, PageReference, PageReferences};

fn geometry() -> Geometry<i64> {
    Geometry {
        positions: vec![0, 1, 2, 3, 4, 5],
        triangles: vec![[0, 1, 2], [1, 2, 3], [3, 4, 5], [2, 3, 4]],
    }
}

#[test]
fn geometry_slice_getters() {
    let g = geometry();
    let s = GeometrySlice {
        geometry: &g,
        vertex_range: 1..4,
        triangle_range: 1..3,
    };
    assert_eq!(s.get_vertices(), &[1, 2, 3]);
    assert_eq!(s.get_triangles(), &[[1, 2, 3], [3, 4, 5]]);
}

#[test]
fn pages_assemble_their_chunks() {
    let g = geometry();
    let chunks = vec![
        Chunk {
            geo_slice: GeometrySlice {
                geometry: &g,
                vertex_range: 0..3,
                triangle_range: 0..1,
            },
            transform: 100i64,
            id: 42,
        },
        Chunk {
            geo_slice: GeometrySlice {
                geometry: &g,
                vertex_range: 3..6,
                triangle_range: 2..3,
            },
            transform: 200,
            id: 7,
        },
        Chunk {
            geo_slice: GeometrySlice {
                geometry: &g,
                vertex_range: 1..5,
                triangle_range: 1..2,
            },
            transform: 300,
            id: 42,
        },
        Chunk {
            geo_slice: GeometrySlice {
                geometry: &g,
                vertex_range: 0..0,
                triangle_range: 0..0,
            },
            transform: 0,
            id: 3,
        },
    ];
    let pages = vec![
        PageReference { chunks: 0..3 },
        PageReference { chunks: 3..4 },
        PageReference { chunks: 1..2 },
    ];
    let refs = PageReferences::new(chunks, pages);
    let result = refs.create_pages(|m: &i64, v: &i64| v + m);

    // the page of the chunk without triangles is left out
    assert_eq!(result.len(), 2);

    let p = &result[0];
    assert_eq!(p.num_vertices, 10);
    assert_eq!(
        p.positions,
        vec![100, 101, 102, 203, 204, 205, 301, 302, 303, 304]
    );
    // triangle indices are moved from the chunk's vertex range to the page
    assert_eq!(p.triangles, vec![[0, 1, 2], [3, 4, 5], [6, 7, 8]]);
    // one local object id per triangle, that of the chunk the triangle comes from
    assert_eq!(p.local_object_ids, vec![0, 1, 0]);
    assert_eq!(p.object_id_map[0], 42);
    assert_eq!(p.object_id_map[1], 7);
    assert!(p.object_id_map[2..].iter().all(|id| *id == 0));
    // every triangle indexes a vertex of the page
    assert!(p
        .triangles
        .iter()
        .all(|t| t.iter().all(|i| (*i as usize) < p.num_vertices)));

    let q = &result[1];
    assert_eq!(q.num_vertices, 3);
    assert_eq!(q.positions, vec![203, 204, 205]);
    assert_eq!(q.triangles, vec![[0, 1, 2]]);
    assert_eq!(q.local_object_ids, vec![0]);
    assert_eq!(q.object_id_map[0], 7);
}

#[test]
fn page_reference_emptiness() {
    let g = geometry();
    let chunks = vec![
        Chunk {
            geo_slice: GeometrySlice {
                geometry: &g,
                vertex_range: 0..0,
                triangle_range: 2..2,
            },
            transform: 0i64,
            id: 1,
        },
        Chunk {
            geo_slice: GeometrySlice {
                geometry: &g,
                vertex_range: 0..3,
                triangle_range: 0..1,
            },
            transform: 0,
            id: 2,
        },
    ];
    let refs = PageReferences::new(chunks, Vec::new());
    assert!(PageReference { chunks: 0..1 }.is_empty(&refs));
    assert!(!PageReference { chunks: 0..2 }.is_empty(&refs));
    assert!(PageReference { chunks: 1..1 }.is_empty(&refs));
}

#[test]
fn each_triangle_gets_the_local_id_of_its_chunk() {
    let g = Geometry {
        positions: vec![0i64, 1, 2],
        triangles: vec![[0, 1, 2]],
    };
    let chunk = |id: u32| Chunk {
        geo_slice: GeometrySlice {
            geometry: &g,
            vertex_range: 0..3,
            triangle_range: 0..1,
        },
        transform: 0i64,
        id,
    };
    let refs = PageReferences::new(vec![chunk(10), chunk(20)], vec![PageReference { chunks: 0..2 }]);
    let pages = refs.create_pages(|m: &i64, v: &i64| v + m);
    assert_eq!(pages.len(), 1);
    let p = &pages[0];
    assert_eq!(p.num_vertices, 6);
    assert_eq!(p.triangles, vec![[0, 1, 2], [3, 4, 5]]);
    assert_eq!(p.local_object_ids, vec![0, 1]);
    assert_eq!(p.object_id_map[0], 10);
    assert_eq!(p.object_id_map[1], 20);
    for (t, local) in p.local_object_ids.iter().enumerate() {
        assert_eq!(p.object_id_map[*local as usize], [10, 20][t]);
    }
}
