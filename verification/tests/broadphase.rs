use mirage::broadphase::candidate_pairs;

/// Axis-aligned box of a circle: (min_x, min_y, max_x, max_y).
fn circle_box(x: f32, y: f32, r: f32) -> (f32, f32, f32, f32) {
    (x - r, y - r, x + r, y + r)
}

fn overlaps(a: (f32, f32, f32, f32), b: (f32, f32, f32, f32)) -> bool {
    a.0 <= b.2 && a.2 >= b.0 && a.1 <= b.3 && a.3 >= b.1
}

fn table(boxes: &[(f32, f32, f32, f32)]) -> Vec<Vec<bool>> {
    boxes
        .iter()
        .map(|a| boxes.iter().map(|b| overlaps(*a, *b)).collect())
        .collect()
}

#[test]
fn only_overlapping_aabb_pairs_are_returned() {
    let boxes = vec![
        // Two close circles: boxes overlap.
        circle_box(0.0, 0.0, 1.0),
        circle_box(1.5, 0.0, 1.0),
        // A far-away circle: its box overlaps neither of the above.
        circle_box(100.0, 100.0, 1.0),
    ];

    let pairs = candidate_pairs(&table(&boxes));

    assert_eq!(pairs, vec![(0, 1)]);
}

#[test]
fn zero_or_one_body_returns_empty_without_panicking() {
    assert_eq!(candidate_pairs(&table(&[])), Vec::<(usize, usize)>::new());

    let one = vec![circle_box(0.0, 0.0, 1.0)];
    assert_eq!(candidate_pairs(&table(&one)), Vec::<(usize, usize)>::new());
}

#[test]
fn all_overlapping_pairs_come_in_row_major_order() {
    let boxes = vec![circle_box(0.0, 0.0, 2.0); 4];
    assert_eq!(
        candidate_pairs(&table(&boxes)),
        vec![(0, 1), (0, 2), (0, 3), (1, 2), (1, 3), (2, 3)]
    );
}

#[test]
fn only_the_upper_triangle_of_the_table_is_read() {
    // Entries on and below the diagonal are ignored: a body never pairs
    // with itself, and each pair is examined once, as (i, j) with i < j.
    let t = vec![
        vec![true, false, true],
        vec![true, true, false],
        vec![true, true, true],
    ];
    assert_eq!(candidate_pairs(&t), vec![(0, 2)]);
}

#[test]
fn touching_boxes_count_as_overlapping() {
    let boxes = vec![circle_box(0.0, 0.0, 1.0), circle_box(2.0, 0.0, 1.0), circle_box(4.5, 0.0, 1.0)];
    assert_eq!(candidate_pairs(&table(&boxes)), vec![(0, 1)]);
}
