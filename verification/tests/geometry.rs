use comp3931::turtle::geometry::{
    combine_line_geometries, combine_mesh_geometries, cylinder_indices, leaf_indices, LineGeometry,
    MeshGeometry,
};
use comp3931::turtle::path::TurtlePath;
use glam::{vec3, Vec3};

/// The line geometry of a turtle that starts at the origin and travels `distance`
/// along +X
fn travelled(distance: f32) -> LineGeometry<Vec3> {
    let mut path = TurtlePath::new(Vec3::ZERO, Vec3::ONE);
    path.line_to(vec3(distance, 0.0, 0.0));
    path.line_geometry()
}

/// The mesh of a single double-sided leaf quad
fn leaf_mesh() -> MeshGeometry<Vec3, [f32; 2]> {
    let quad = [
        vec3(-0.25, 0.0, 0.0),
        vec3(0.25, 0.0, 0.0),
        vec3(-0.25, 1.0, 0.0),
        vec3(0.25, 1.0, 0.0),
    ];
    let mut vertices = quad.to_vec();
    vertices.extend(quad);
    MeshGeometry {
        vertices,
        normals: vec![Vec3::Z; 8],
        colours: vec![Vec3::ONE; 8],
        indices: leaf_indices(0).to_vec(),
        uvs: vec![[0.0, 0.0]; 8],
        tangents: vec![Vec3::X; 8],
    }
}

#[test]
fn fresh_path_has_no_line_segments() {
    let path = TurtlePath::new(Vec3::ZERO, Vec3::ONE);
    let geo = path.line_geometry();
    assert!(geo.segments.is_empty());
    assert!(geo.indices.is_empty());
}

#[test]
fn one_line_produces_one_segment() {
    let geo = travelled(1.0);
    assert_eq!(geo.segments.len(), 1);
    assert_eq!(geo.vertices.len(), 2);
    assert!((geo.vertices[1] - vec3(1.0, 0.0, 0.0)).length() < 1e-5);
}

#[test]
fn combine_line_geometries_merges_indices() {
    let geo1 = travelled(1.0);
    let geo2 = travelled(2.0);
    let combined = combine_line_geometries(&[&geo1, &geo2]);
    assert_eq!(combined.vertices.len(), 4); // 2 + 2
    assert_eq!(combined.segments.len(), 2);
}

#[test]
fn combine_line_geometries_offsets_indices_and_segments() {
    let geo1 = travelled(1.0);
    let geo2 = travelled(2.0);
    let combined = combine_line_geometries(&[&geo1, &geo2]);
    assert_eq!(combined.indices, vec![0, 1, 2, 3]);
    assert_eq!(combined.segments, vec![(0, 2), (2, 2)]);
    assert_eq!(combined.vertices[3], vec3(2.0, 0.0, 0.0));
}

#[test]
fn combine_single_line_geometry_is_unchanged() {
    let geo = travelled(3.0);
    let combined = combine_line_geometries(&[&geo]);
    assert_eq!(combined.vertices, geo.vertices);
    assert_eq!(combined.colours, geo.colours);
    assert_eq!(combined.indices, geo.indices);
    assert_eq!(combined.segments, geo.segments);
}

#[test]
fn combine_mesh_geometries_offsets_indices() {
    let geo1 = leaf_mesh();
    let geo2 = leaf_mesh();
    let combined = combine_mesh_geometries(&[&geo1, &geo2]);
    assert_eq!(combined.vertices.len(), 16);
    // Indices in second geo should be offset by 8
    assert!(combined.indices.iter().all(|&i| i < 16));
    assert!(combined.indices[12..].iter().all(|&i| i >= 8));
}

#[test]
fn combine_of_nothing_is_empty() {
    let lines: LineGeometry<Vec3> = combine_line_geometries(&[]);
    assert!(lines.vertices.is_empty() && lines.indices.is_empty() && lines.segments.is_empty());
    let mesh: MeshGeometry<Vec3, [f32; 2]> = combine_mesh_geometries(&[]);
    assert!(mesh.vertices.is_empty() && mesh.indices.is_empty());
}

#[test]
fn leaf_indices_wind_front_and_back() {
    assert_eq!(leaf_indices(10), [10, 12, 11, 11, 12, 13, 14, 15, 16, 15, 17, 16]);
}

#[test]
fn cylinder_of_eight_segments_has_48_indices() {
    let idx = cylinder_indices(0, 8);
    assert_eq!(idx.len(), 48);
    assert!(idx.iter().all(|&i| i < 16));
    // First quad joins ring positions 0 and 1; the last wraps back to position 0
    assert_eq!(&idx[..6], &[0, 1, 2, 2, 1, 3]);
    assert_eq!(&idx[42..], &[14, 15, 0, 0, 15, 1]);
}

#[test]
fn cylinder_indices_start_at_base() {
    let idx = cylinder_indices(100, 4);
    assert_eq!(idx.len(), 24);
    assert!(idx.iter().all(|&i| (100..108).contains(&i)));
}

#[test]
fn jump_back_restores_position_for_lines() {
    // travel(1); push; travel elsewhere; pop; travel(2) continues from (1, 0, 0)
    let mut path = TurtlePath::new(Vec3::ZERO, Vec3::ONE);
    path.line_to(vec3(1.0, 0.0, 0.0));
    let mark = path.last_entry();
    path.line_to(vec3(1.0, 0.0, -5.0));
    path.jump_back(mark);
    assert_eq!(path.pos(), vec3(1.0, 0.0, 0.0));
    path.line_to(vec3(3.0, 0.0, 0.0));
    let geo = path.line_geometry();
    assert_eq!(*geo.vertices.last().unwrap(), vec3(3.0, 0.0, 0.0));
    // The jump splits the path into two polylines: 0→1→(1,0,-5) and 1→3
    assert_eq!(geo.segments, vec![(0, 3), (3, 2)]);
    assert_eq!(geo.vertices[3], vec3(1.0, 0.0, 0.0));
}

#[test]
fn colour_change_applies_to_following_lines() {
    let red = vec3(1.0, 0.0, 0.0);
    let mut path = TurtlePath::new(Vec3::ZERO, Vec3::ONE);
    path.line_to(vec3(1.0, 0.0, 0.0));
    path.set_colour(red);
    path.line_to(vec3(2.0, 0.0, 0.0));
    assert_eq!(path.colour(), red);
    let geo = path.line_geometry();
    assert_eq!(geo.colours, vec![Vec3::ONE, Vec3::ONE, red]);
}

#[test]
fn reset_forgets_the_path() {
    let mut path = TurtlePath::new(Vec3::ZERO, Vec3::ONE);
    path.line_to(vec3(1.0, 0.0, 0.0));
    path.reset(vec3(5.0, 0.0, 0.0), Vec3::ZERO);
    assert_eq!(path.entry_count(), 1);
    assert_eq!(path.pos(), vec3(5.0, 0.0, 0.0));
    assert!(path.line_geometry().vertices.is_empty());
}

#[test]
fn cylinder_indices_reach_the_last_index() {
    let top = u32::MAX;
    let idx = cylinder_indices(top - 3, 2);
    assert_eq!(idx, vec![
        top - 3, top - 2, top - 1, top - 1, top - 2, top,
        top - 1, top, top - 3, top - 3, top, top - 2
    ]);
}

#[test]
fn line_geometry_has_a_colour_per_vertex() {
    let mut path = TurtlePath::new(Vec3::ZERO, Vec3::ONE);
    path.line_to(vec3(1.0, 0.0, 0.0));
    let mark = path.last_entry();
    path.set_colour(vec3(0.0, 1.0, 0.0));
    path.line_to(vec3(1.0, 2.0, 0.0));
    path.jump_back(mark);
    path.line_to(vec3(1.0, 0.0, 4.0));
    assert!(path.line_vertices_fit());
    let geo = path.line_geometry();
    assert_eq!(geo.colours.len(), geo.vertices.len());
    assert_eq!(geo.indices, (0..geo.vertices.len() as u32).collect::<Vec<_>>());
    assert_eq!(geo.segments, vec![(0, 3), (3, 2)]);
}
