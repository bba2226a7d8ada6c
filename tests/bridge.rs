use glam::Vec3;
use meshtools::mesh::{Face, Mesh, VertWeight, VertexGroup};
use meshtools::ring::sort_vertex_group_radial;
use meshtools::tools::generate_vertex_bridge;

const ONE: u32 = 0x3f80_0000;

fn ring(indices: &[u32]) -> VertexGroup {
    indices.iter().map(|i| VertWeight::new(*i, ONE)).collect()
}

fn edge_mesh(vertices: Vec<Vec3>) -> Mesh<Vec3> {
    let group = ring(&(0..vertices.len() as u32).collect::<Vec<u32>>());
    Mesh { vertices, faces: Vec::new(), vertex_groups: vec![("edge_right".to_string(), group)] }
}

/// For each position of the first ring and each edge of the second, whether
/// the first ring's vertex is strictly nearer the edge's start than its end.
fn nearer_table(a: &Mesh<Vec3>, ga: &VertexGroup, b: &Mesh<Vec3>, gb: &VertexGroup) -> Vec<Vec<bool>> {
    ga.iter()
        .map(|p| {
            let v = a.vertices[p.vert_index as usize];
            (0..gb.len() - 1)
                .map(|j| {
                    let here = b.vertices[gb[j].vert_index as usize];
                    let next = b.vertices[gb[j + 1].vert_index as usize];
                    v.distance_squared(here) < v.distance_squared(next)
                })
                .collect()
        })
        .collect()
}

fn bridge(mesh1: &Mesh<Vec3>, mesh2: &Mesh<Vec3>) -> Mesh<Vec3> {
    let name = "edge_right".to_string();
    let g1 = mesh1.group(&name).unwrap();
    let g2 = mesh2.group(&name).unwrap();
    let table = nearer_table(mesh1, g1, mesh2, g2);
    generate_vertex_bridge(mesh1, mesh2, g1, g2, &table)
}

#[test]
fn test_bridge_simple() {
    let mesh1 = edge_mesh((0..7).map(|i| Vec3::new(0.1 * i as f32, 0.0, 0.0)).collect());
    let mesh2 = edge_mesh((0..7).map(|i| Vec3::new(0.1 * i as f32, 0.0, 1.0)).collect());
    let b = bridge(&mesh1, &mesh2);
    assert_eq!(b.vertices.len(), 14);
    assert_eq!(b.vertices[0], mesh1.vertices[0]);
    assert_eq!(b.vertices[7], mesh2.vertices[0]);
    assert_eq!(b.faces.len(), 12);
    assert!(b.faces.iter().all(|f| f.0 < 14 && f.1 < 14 && f.2 < 14));
    assert!(b.vertex_groups.is_empty());
}

#[test]
fn test_bridge_triangle_1() {
    let mesh1 = edge_mesh(vec![
        Vec3::new(0.0, 0.0, 0.0),
        Vec3::new(1.0, 0.0, 0.0),
        Vec3::new(2.0, 0.0, 0.0),
    ]);
    let mesh2 = edge_mesh(vec![
        Vec3::new(0.0, 0.0, 1.0),
        Vec3::new(1.0, 0.0, 1.0),
        Vec3::new(2.0, 0.0, 1.0),
    ]);
    let b = bridge(&mesh1, &mesh2);
    // Vertex 1 is nearer vertex 4 than vertex 5, so the first ring advances
    // and is used up; a fan on vertex 2 then closes the second ring.
    assert_eq!(b.faces, vec![Face(0, 1, 3), Face(1, 2, 3), Face(2, 4, 3), Face(2, 5, 4)]);
}

#[test]
fn bridge_advances_second_ring_then_first() {
    let mesh1 = edge_mesh(vec![
        Vec3::new(0.0, 0.0, 0.0),
        Vec3::new(2.0, 0.0, 0.0),
        Vec3::new(4.0, 0.0, 0.0),
    ]);
    let mesh2 = edge_mesh(vec![
        Vec3::new(0.0, 0.0, 1.0),
        Vec3::new(1.0, 0.0, 1.0),
        Vec3::new(2.0, 0.0, 1.0),
        Vec3::new(3.0, 0.0, 1.0),
        Vec3::new(4.0, 0.0, 1.0),
    ]);
    let b = bridge(&mesh1, &mesh2);
    assert_eq!(b.vertices.len(), 8);
    assert_eq!(
        b.faces,
        vec![
            Face(0, 4, 3),
            Face(0, 1, 4),
            Face(1, 2, 4),
            Face(2, 5, 4),
            Face(2, 6, 5),
            Face(2, 7, 6),
        ]
    );
    assert_eq!(b.faces.len(), 3 + 5 - 2);
}

#[test]
fn bridge_of_unequal_rings_has_ruled_surface_count() {
    let mesh1 = edge_mesh((0..4).map(|i| Vec3::new(i as f32, 0.0, 0.0)).collect());
    let mesh2 = edge_mesh((0..9).map(|i| Vec3::new(0.4 * i as f32, 0.0, 1.0)).collect());
    let b = bridge(&mesh1, &mesh2);
    assert_eq!(b.faces.len(), 4 + 9 - 2);
    assert!(b.faces.iter().all(|f| f.0 < 13 && f.1 < 13 && f.2 < 13));
}

#[test]
fn radial_sort_orders_by_falling_key_and_closes_loop() {
    let keys = vec![30, 10, 50, 20, 40];
    let mut group = ring(&[0, 1, 2, 3, 4]);
    sort_vertex_group_radial(&keys, &mut group);
    let order: Vec<u32> = group.iter().map(|w| w.vert_index).collect();
    assert_eq!(order, vec![2, 4, 0, 3, 1, 2]);
    assert_eq!(group.first(), group.last());
}

#[test]
fn radial_sort_keeps_order_of_equal_keys() {
    let keys = vec![5, 5, 9, 5];
    let mut group = vec![VertWeight::new(3, 1), VertWeight::new(0, 2), VertWeight::new(2, 3), VertWeight::new(1, 4)];
    sort_vertex_group_radial(&keys, &mut group);
    let order: Vec<u32> = group.iter().map(|w| w.vert_index).collect();
    assert_eq!(order, vec![2, 3, 0, 1, 2]);
    assert_eq!(group[0].weight_bits, 3);
}

#[test]
fn radial_sort_of_single_entry_repeats_it() {
    let keys = vec![7];
    let mut group = ring(&[0]);
    sort_vertex_group_radial(&keys, &mut group);
    assert_eq!(group, ring(&[0, 0]));
}
