use gl_geometry::mesh::{circle_indices, frame_sphere_indices, sphere_indices};

#[test]
fn circle_of_four_closes_the_loop() {
    assert_eq!(circle_indices(4), vec![[0, 1], [1, 2], [2, 3], [3, 0]]);
}

#[test]
fn circle_of_one_is_a_self_loop() {
    assert_eq!(circle_indices(1), vec![[0, 0]]);
}

#[test]
fn circle_of_none_is_empty() {
    assert!(circle_indices(0).is_empty());
}

#[test]
fn circle_of_twenty_four_stays_in_range() {
    let is = circle_indices(24);
    assert_eq!(is.len(), 24);
    assert_eq!(is[23], [23, 0]);
    assert!(is.iter().all(|e| e[0] < 24 && e[1] < 24));
}

#[test]
fn sphere_of_two_by_two_triangles() {
    // 3 rings of 3 vertices: 0 1 2 / 3 4 5 / 6 7 8
    assert_eq!(
        sphere_indices(2, 2),
        vec![
            [0, 3, 1],
            [1, 3, 4],
            [1, 4, 2],
            [2, 4, 5],
            [3, 6, 4],
            [4, 6, 7],
            [4, 7, 5],
            [5, 7, 8],
        ]
    );
}

#[test]
fn sphere_of_demo_size_stays_in_range() {
    let (slice, stack) = (24u32, 16u32);
    let is = sphere_indices(slice, stack);
    assert_eq!(is.len(), 2 * 24 * 16);
    let count = (slice + 1) * (stack + 1);
    assert!(is.iter().all(|t| t.iter().all(|&v| v < count)));
    assert_eq!(is[is.len() - 1], [count - 2 - 25 + 1, count - 2, count - 1]);
}

#[test]
fn sphere_without_bands_or_meridians_is_empty() {
    assert!(sphere_indices(24, 0).is_empty());
    assert!(sphere_indices(0, 16).is_empty());
    assert!(sphere_indices(u32::MAX - 1, 0).is_empty());
}

#[test]
fn frame_sphere_of_three_by_three_edges() {
    // north pole 0, ring 1 = 1 2 3, ring 2 = 4 5 6, south pole 7
    assert_eq!(
        frame_sphere_indices(3, 3),
        vec![
            [1, 2],
            [2, 3],
            [3, 1],
            [4, 5],
            [5, 6],
            [6, 4],
            [0, 1],
            [0, 2],
            [0, 3],
            [1, 4],
            [2, 5],
            [3, 6],
            [4, 7],
            [5, 7],
            [6, 7],
        ]
    );
}

#[test]
fn frame_sphere_of_two_bands_has_one_ring() {
    assert_eq!(
        frame_sphere_indices(4, 2),
        vec![
            [1, 2],
            [2, 3],
            [3, 4],
            [4, 1],
            [0, 1],
            [0, 2],
            [0, 3],
            [0, 4],
            [1, 5],
            [2, 5],
            [3, 5],
            [4, 5],
        ]
    );
}

#[test]
fn frame_sphere_of_one_band_leads_to_ring_one() {
    assert_eq!(frame_sphere_indices(3, 1), vec![[0, 1], [0, 2], [0, 3]]);
}

#[test]
fn frame_sphere_without_bands_is_empty() {
    assert!(frame_sphere_indices(24, 0).is_empty());
}

#[test]
fn frame_sphere_of_demo_size_stays_in_range() {
    let (slice, stack) = (24u32, 16u32);
    let is = frame_sphere_indices(slice, stack);
    assert_eq!(is.len(), (24 * 15 + 24 * 16) as usize);
    let count = 2 + slice * (stack - 1);
    assert!(is.iter().all(|e| e[0] < count && e[1] < count));
    assert_eq!(is[is.len() - 1], [count - 2, count - 1]);
}
