use pixel_contrib::scene::{
    create_geometry_from_shape, extend_mesh, Geometry, MeshData, NodeData, Scene, ShapeData,
};
use pixel_contrib::simple::compute_sorting;

fn mesh(positions: Vec<i64>, indices: Option<Vec<u32>>) -> MeshData<i64> {
    MeshData {
        positions,
        is_triangles: true,
        indices,
    }
}

fn shape_a() -> ShapeData<i64> {
    ShapeData {
        id: 7,
        parts: vec![mesh(vec![10, 11, 12], Some(vec![0, 1, 2]))],
    }
}

fn shape_b() -> ShapeData<i64> {
    ShapeData {
        id: 9,
        parts: vec![mesh(vec![20, 21, 22, 23], Some(vec![0, 1, 2, 2, 3, 0, 1]))],
    }
}

fn example_root() -> NodeData<i64, i64> {
    NodeData {
        transform: Some(1),
        shapes: vec![shape_a()],
        children: vec![
            NodeData {
                transform: Some(10),
                shapes: vec![shape_a(), shape_b()],
                children: Vec::new(),
            },
            NodeData {
                transform: None,
                shapes: vec![shape_b()],
                children: Vec::new(),
            },
        ],
    }
}

fn example_scene() -> Scene<i64, i64> {
    Scene::new_from_cad(&example_root(), 0, |a: &i64, b: &i64| a + b)
}

#[test]
fn extend_mesh_appends_with_offset() {
    let mut positions = vec![1i64, 2];
    let mut triangles: Vec<[u32; 3]> = vec![[0, 1, 1]];
    extend_mesh(
        &mut positions,
        &mut triangles,
        &mesh(vec![5, 6, 7], Some(vec![0, 1, 2, 2, 1])),
    );
    assert_eq!(positions, vec![1, 2, 5, 6, 7]);
    assert_eq!(triangles, vec![[0, 1, 1], [2, 3, 4]]);
}

#[test]
fn extend_mesh_skips_unsupported_meshes() {
    let mut positions = vec![1i64];
    let mut triangles: Vec<[u32; 3]> = Vec::new();
    extend_mesh(&mut positions, &mut triangles, &mesh(vec![5, 6, 7], None));
    assert_eq!(positions, vec![1]);
    assert!(triangles.is_empty());

    let lines = MeshData {
        positions: vec![5i64, 6],
        is_triangles: false,
        indices: Some(vec![0, 1]),
    };
    extend_mesh(&mut positions, &mut triangles, &lines);
    assert_eq!(positions, vec![1]);
    assert!(triangles.is_empty());
}

#[test]
fn geometry_from_shape_concatenates_parts() {
    let shape = ShapeData {
        id: 1,
        parts: vec![
            mesh(vec![1, 2, 3], Some(vec![0, 1, 2])),
            mesh(vec![4, 5], None),
            mesh(vec![6, 7], Some(vec![0, 1, 1])),
        ],
    };
    let g: Geometry<i64> = create_geometry_from_shape(&shape);
    assert_eq!(g.positions, vec![1, 2, 3, 6, 7]);
    assert_eq!(g.triangles, vec![[0, 1, 2], [3, 4, 4]]);
}

#[test]
fn scene_from_cad_shares_geometries() {
    let scene = example_scene();
    let geometries = scene.get_geometries();
    assert_eq!(geometries.len(), 2);
    assert_eq!(geometries[0].positions, vec![10, 11, 12]);
    assert_eq!(geometries[0].triangles, vec![[0, 1, 2]]);
    assert_eq!(geometries[1].positions, vec![20, 21, 22, 23]);
    assert_eq!(geometries[1].triangles, vec![[0, 1, 2], [2, 3, 0]]);

    let instances: Vec<(usize, i64)> = scene
        .get_instances()
        .iter()
        .map(|i| (i.geometry_index, i.transform))
        .collect();
    assert_eq!(instances, vec![(0, 1), (0, 11), (1, 11), (1, 1)]);
    // every instance references a geometry, shared exactly between instances of one shape
    assert!(instances.iter().all(|(g, _)| *g < geometries.len()));
}

#[test]
fn scene_stats_count_unique_and_instantiated() {
    let stats = example_scene().compute_scene_stats();
    assert_eq!(stats.num_geometries, 2);
    assert_eq!(stats.num_instances, 4);
    assert_eq!(stats.num_unique_vertices, 7);
    assert_eq!(stats.num_unique_triangles, 3);
    assert_eq!(stats.num_vertices, 14);
    assert_eq!(stats.num_triangles, 6);

    let empty: Scene<i64, i64> = Scene::empty();
    let stats = empty.compute_scene_stats();
    assert_eq!(stats.num_geometries, 0);
    assert_eq!(stats.num_instances, 0);
    assert_eq!(stats.num_triangles, 0);
}

#[test]
fn simple_sorting_makes_one_page_per_instance() {
    let scene = example_scene();
    let pages = compute_sorting(&scene, |m: &i64, v: &i64| v + m);
    assert_eq!(pages.len(), 4);

    assert_eq!(pages[0].positions, vec![11, 12, 13]);
    assert_eq!(pages[1].positions, vec![21, 22, 23]);
    assert_eq!(pages[2].positions, vec![31, 32, 33, 34]);
    assert_eq!(pages[3].positions, vec![21, 22, 23, 24]);
    assert_eq!(pages[2].triangles, vec![[0, 1, 2], [2, 3, 0]]);
    assert_eq!(pages[2].num_vertices, 4);
    assert_eq!(pages[2].local_object_ids, vec![0, 0]);

    // the pages hold all instantiated triangles of the scene
    let total: usize = pages.iter().map(|p| p.triangles.len()).sum();
    assert_eq!(total, scene.compute_scene_stats().num_triangles);

    for (k, page) in pages.iter().enumerate() {
        assert_eq!(page.object_id_map[0], k as u32);
        assert!(page.object_id_map[1..].iter().all(|id| *id == 0));
    }
}

#[test]
fn simple_sorting_skips_instances_without_triangles() {
    let root = NodeData {
        transform: None,
        shapes: vec![
            ShapeData {
                id: 1,
                parts: vec![mesh(vec![1, 2], Some(vec![0, 1]))],
            },
            shape_a(),
        ],
        children: Vec::new(),
    };
    let scene = Scene::new_from_cad(&root, 0i64, |a: &i64, b: &i64| a + b);
    let pages = compute_sorting(&scene, |m: &i64, v: &i64| v + m);
    assert_eq!(pages.len(), 1);
    assert_eq!(pages[0].object_id_map[0], 1);
    assert_eq!(pages[0].positions, vec![10, 11, 12]);
    let total: usize = pages.iter().map(|p| p.triangles.len()).sum();
    assert_eq!(total, scene.compute_scene_stats().num_triangles);
}
