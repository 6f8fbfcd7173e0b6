use gl_geometry::buffer::flatten_rows;
use gl_geometry::mesh::circle_indices;

#[test]
fn flatten_index_pairs() {
    assert_eq!(flatten_rows(&circle_indices(3)), vec![0, 1, 1, 2, 2, 0]);
}

#[test]
fn flatten_positions_keeps_component_order() {
    let rows: Vec<[f32; 3]> = vec![[2.0, 0.0, 0.0], [-2.0, 0.5, 1.5]];
    assert_eq!(flatten_rows(&rows), vec![2.0, 0.0, 0.0, -2.0, 0.5, 1.5]);
}

#[test]
fn flatten_colours_of_four_components() {
    let rows = vec![[1.0f32, 1.0, 0.0, 1.0]; 3];
    let flat = flatten_rows(&rows);
    assert_eq!(flat.len(), 12);
    assert_eq!(&flat[8..12], &[1.0, 1.0, 0.0, 1.0]);
}

#[test]
fn flatten_nothing_is_empty() {
    let rows: Vec<[u32; 2]> = Vec::new();
    assert!(flatten_rows(&rows).is_empty());
}
