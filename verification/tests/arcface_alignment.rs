use facecomp::{box_size_from_row, landmarks_from_row, LANDMARK_COUNT};

#[test]
fn landmarks_are_read_straight_out_of_the_detection_row() {
    // A YuNet row is [x, y, w, h, 5x(lm x, lm y), score]. Numbering the columns
    // makes the mapping self-evident: landmark i must come back as
    // (4 + 2i, 5 + 2i), with no permutation applied on the way out.
    let columns: Vec<f32> = (0..15).map(|i| i as f32).collect();

    let landmarks = landmarks_from_row(&columns).expect("landmarks are readable");

    assert_eq!(landmarks.len(), 5);
    for i in 0..5 {
        let got = landmarks[i];
        let expected = ((4 + 2 * i) as f32, (5 + 2 * i) as f32);
        assert_eq!(
            got,
            expected,
            "landmark {i} should be read from columns {} and {}",
            4 + 2 * i,
            5 + 2 * i
        );
    }
}

#[test]
fn a_row_without_the_score_column_still_holds_every_landmark() {
    let columns: Vec<f32> = (0..14).map(|i| i as f32 * 0.5).collect();
    let landmarks = landmarks_from_row(&columns).expect("14 columns reach the last landmark");
    assert_eq!(landmarks.len(), LANDMARK_COUNT);
    assert_eq!(landmarks[4], (6.0, 6.5));
}

#[test]
fn a_row_too_short_for_the_last_landmark_is_refused() {
    let columns: Vec<f32> = (0..13).map(|i| i as f32).collect();
    assert_eq!(landmarks_from_row(&columns), None);
    let empty: Vec<f32> = Vec::new();
    assert_eq!(landmarks_from_row(&empty), None);
}

#[test]
fn box_size_reads_width_and_height_columns() {
    let row: Vec<f32> = vec![10.0, 20.0, 33.5, 44.25, 1.0];
    assert_eq!(box_size_from_row(&row, 0.0), (33.5, 44.25));
    let short: Vec<f32> = vec![10.0, 20.0, 33.5];
    assert_eq!(box_size_from_row(&short, 0.0), (33.5, 0.0));
    let none: Vec<f32> = vec![];
    assert_eq!(box_size_from_row(&none, -1.0), (-1.0, -1.0));
}
