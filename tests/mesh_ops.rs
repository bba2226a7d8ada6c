use glam::Vec3;
use meshtools::mesh::{offset_vert_group, Face, Mesh, VertWeight};

const ONE: u32 = 0x3f80_0000;

fn line_mesh() -> Mesh<Vec3> {
    Mesh {
        vertices: vec![
            Vec3::new(0.0, 0.0, 0.0),
            Vec3::new(1.0, 0.0, 0.0),
            Vec3::new(2.0, 0.0, 0.0),
        ],
        faces: vec![Face(0, 1, 2)],
        vertex_groups: Vec::new(),
    }
}

/// Nearness of every vertex to every other, as welding at `distance` sees it.
fn near_table(vertices: &[Vec3], distance: f32) -> Vec<Vec<bool>> {
    vertices
        .iter()
        .map(|a| {
            vertices
                .iter()
                .map(|b| (*a - *b).length_squared() < distance * distance)
                .collect()
        })
        .collect()
}

#[test]
fn extend_empty_mesh() {
    let mut blank_mesh: Mesh<Vec3> = Mesh::default();
    let test_mesh = line_mesh();
    assert!(blank_mesh.extend(&test_mesh) == 0);
    assert!(blank_mesh.faces == vec![Face(0, 1, 2)]);
}

#[test]
fn extend_mesh() {
    let mut original_mesh = line_mesh();
    let test_mesh = line_mesh();
    assert!(original_mesh.extend(&test_mesh) == 3);
    assert!(original_mesh.faces == vec![Face(0, 1, 2), Face(3, 4, 5)]);
    assert!(original_mesh.vertices.len() == 6);
}

#[test]
fn extend_returns_count_and_shifts_faces() {
    let mut a = line_mesh();
    a.vertices.push(Vec3::new(5.0, 5.0, 5.0));
    let mut b = line_mesh();
    b.faces.push(Face(2, 0, 1));
    let n = a.extend(&b);
    assert_eq!(n, 4);
    assert_eq!(a.vertices.len(), 7);
    assert_eq!(a.faces, vec![Face(0, 1, 2), Face(4, 5, 6), Face(6, 4, 5)]);
    assert_eq!(a.vertices[4], Vec3::new(0.0, 0.0, 0.0));
    assert_eq!(a.vertices[6], Vec3::new(2.0, 0.0, 0.0));
}

#[test]
fn extend_with_empty_mesh_changes_nothing() {
    let mut a = line_mesh();
    a.vertex_groups.push(("edge".to_string(), vec![VertWeight::new(1, ONE)]));
    let empty: Mesh<Vec3> = Mesh::default();
    let n = a.extend(&empty);
    assert_eq!(n, 3);
    assert_eq!(a.vertices, line_mesh().vertices);
    assert_eq!(a.faces, vec![Face(0, 1, 2)]);
    assert_eq!(a.vertex_groups.len(), 1);
    assert_eq!(a.vertex_groups[0].1, vec![VertWeight::new(1, ONE)]);
}

#[test]
fn extend_merges_groups_by_name() {
    let mut a = line_mesh();
    a.vertex_groups.push(("edge_left".to_string(), vec![VertWeight::new(0, ONE)]));
    let mut b = line_mesh();
    b.vertex_groups.push(("edge_left".to_string(), vec![VertWeight::new(2, 7)]));
    b.vertex_groups.push(("edge_right".to_string(), vec![VertWeight::new(1, ONE)]));
    assert_eq!(a.extend(&b), 3);
    let left = a.group(&"edge_left".to_string()).unwrap();
    assert_eq!(left, &vec![VertWeight::new(0, ONE), VertWeight::new(5, 7)]);
    let right = a.group(&"edge_right".to_string()).unwrap();
    assert_eq!(right, &vec![VertWeight::new(4, ONE)]);
    assert!(a.group(&"middle".to_string()).is_none());
}

#[test]
fn offset_group_moves_indices_and_keeps_weights() {
    let g = vec![VertWeight::new(0, ONE), VertWeight::new(3, 9)];
    let moved = offset_vert_group(&g, 10);
    assert_eq!(moved, vec![VertWeight::new(10, ONE), VertWeight::new(13, 9)]);
}

#[test]
fn vert_weight_new_keeps_fields() {
    let w = VertWeight::new(4, 1.0f32.to_bits());
    assert_eq!(w.vert_index, 4);
    assert_eq!(f32::from_bits(w.weight_bits), 1.0);
}

#[test]
fn weld_removes_exact_duplicates() {
    let p = Vec3::new(1.0, 2.0, 3.0);
    let mesh = Mesh {
        vertices: vec![p, p, p],
        faces: vec![Face(0, 1, 2)],
        vertex_groups: vec![("g".to_string(), vec![VertWeight::new(0, ONE)])],
    };
    let welded = mesh.merge_by_distance(&near_table(&mesh.vertices, 0.01));
    assert_eq!(welded.vertices, vec![p]);
    assert!(welded.faces.is_empty());
    assert!(welded.vertex_groups.is_empty());
}

#[test]
fn weld_remaps_faces_through_first_kept_vertex() {
    let vertices = vec![
        Vec3::new(0.0, 0.0, 0.0),
        Vec3::new(1.0, 0.0, 0.0),
        Vec3::new(0.001, 0.0, 0.0),
        Vec3::new(0.0, 1.0, 0.0),
        Vec3::new(1.0, 0.0005, 0.0),
    ];
    let mesh = Mesh {
        vertices: vertices.clone(),
        faces: vec![Face(2, 1, 3), Face(0, 4, 3), Face(0, 2, 1)],
        vertex_groups: Vec::new(),
    };
    let welded = mesh.merge_by_distance(&near_table(&vertices, 0.01));
    assert_eq!(welded.vertices, vec![vertices[0], vertices[1], vertices[3]]);
    assert_eq!(welded.faces, vec![Face(0, 1, 2), Face(0, 1, 2)]);
}

#[test]
fn weld_drops_face_whose_first_and_last_corner_meet() {
    let vertices = vec![
        Vec3::new(0.0, 0.0, 0.0),
        Vec3::new(1.0, 0.0, 0.0),
        Vec3::new(0.0, 0.0, 0.001),
    ];
    let mesh = Mesh {
        vertices: vertices.clone(),
        faces: vec![Face(0, 1, 2)],
        vertex_groups: Vec::new(),
    };
    let welded = mesh.merge_by_distance(&near_table(&vertices, 0.01));
    assert_eq!(welded.vertices.len(), 2);
    assert!(welded.faces.is_empty());
}

#[test]
fn weld_zero_distance_keeps_everything() {
    let mesh = line_mesh();
    let welded = mesh.merge_by_distance(&near_table(&mesh.vertices, 0.0));
    assert_eq!(welded.vertices, mesh.vertices);
    assert_eq!(welded.faces, mesh.faces);
}

#[test]
fn weld_larger_distance_keeps_no_more_vertices() {
    let vertices = vec![
        Vec3::new(0.0, 0.0, 0.0),
        Vec3::new(0.3, 0.0, 0.0),
        Vec3::new(5.0, 0.0, 0.0),
        Vec3::new(5.2, 0.0, 0.0),
        Vec3::new(9.0, 0.0, 0.0),
    ];
    let mesh = Mesh { vertices: vertices.clone(), faces: Vec::new(), vertex_groups: Vec::new() };
    let mut last = usize::MAX;
    for d in [0.1f32, 0.25, 0.5, 1.0] {
        let kept = mesh.merge_by_distance(&near_table(&vertices, d)).vertices.len();
        assert!(kept <= last);
        last = kept;
    }
    assert_eq!(last, 3);
}
