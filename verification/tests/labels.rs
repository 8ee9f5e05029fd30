use facecomp::confidence_label;

#[test]
fn each_band_starts_at_its_cutoff() {
    assert_eq!(confidence_label(100), "Almost certain");
    assert_eq!(confidence_label(95), "Almost certain");
    assert_eq!(confidence_label(94), "Very likely");
    assert_eq!(confidence_label(80), "Very likely");
    assert_eq!(confidence_label(79), "Likely");
    assert_eq!(confidence_label(55), "Likely");
    assert_eq!(confidence_label(54), "Even chance");
    assert_eq!(confidence_label(45), "Even chance");
    assert_eq!(confidence_label(44), "Unlikely");
    assert_eq!(confidence_label(20), "Unlikely");
    assert_eq!(confidence_label(19), "Very unlikely");
    assert_eq!(confidence_label(5), "Very unlikely");
    assert_eq!(confidence_label(4), "Almost no chance");
    assert_eq!(confidence_label(0), "Almost no chance");
    assert_eq!(confidence_label(-7), "Almost no chance");
}

#[test]
fn a_fractional_percentage_is_labelled_by_its_whole_part() {
    // 79.9% stays "Likely": it has not reached the 80 cutoff.
    assert_eq!(confidence_label(79.9f64.floor() as i64), "Likely");
    assert_eq!(confidence_label(29.3f64.floor() as i64), "Unlikely");
    assert_eq!(confidence_label(f64::NAN.floor() as i64), "Almost no chance");
}

#[test]
fn labels_never_weaken_as_the_percentage_rises() {
    let order = [
        "Almost no chance",
        "Very unlikely",
        "Unlikely",
        "Even chance",
        "Likely",
        "Very likely",
        "Almost certain",
    ];
    let rank = |label: &str| order.iter().position(|l| *l == label).unwrap();
    for p in -5..110 {
        assert!(rank(confidence_label(p)) <= rank(confidence_label(p + 1)));
    }
}
