use std::path::PathBuf;

use facecomp::{select_slaves, Photo};

fn photo(path: &str, canonical: Option<&str>) -> Photo {
    (PathBuf::from(path), canonical.map(PathBuf::from))
}

fn paths(candidates: &[Photo], kept: &[usize]) -> Vec<PathBuf> {
    kept.iter().map(|&i| candidates[i].0.clone()).collect()
}

#[test]
fn slaves_are_sorted_and_deduplicated() {
    let candidates = [
        photo("b.jpg", None),
        photo("a.jpg", None),
        photo("b.jpg", None),
        photo("c/d.jpg", None),
    ];
    let kept = select_slaves(&candidates, &[photo("m.jpg", None)]);
    assert_eq!(kept, vec![1, 0, 3]);
}

#[test]
fn a_glob_that_sweeps_up_the_master_loses_it() {
    let candidates = [photo("photos/m.jpg", None), photo("photos/x.jpg", None)];
    let kept = select_slaves(&candidates, &[photo("photos/m.jpg", None)]);
    assert_eq!(paths(&candidates, &kept), vec![PathBuf::from("photos/x.jpg")]);
}

#[test]
fn canonical_forms_decide_when_both_exist() {
    let masters = [photo("m.jpg", Some("/home/u/m.jpg"))];
    let candidates = [
        photo("./sub/../m.jpg", Some("/home/u/m.jpg")),
        photo("m.jpg", Some("/elsewhere/m.jpg")),
        photo("other.jpg", Some("/home/u/other.jpg")),
    ];
    let kept = select_slaves(&candidates, &masters);
    assert_eq!(kept, vec![1, 2]);
}

#[test]
fn any_of_several_masters_is_excluded() {
    let masters = [photo("m1.jpg", None), photo("m2.jpg", None)];
    let candidates = [photo("m2.jpg", None), photo("s.jpg", None), photo("m1.jpg", None)];
    assert_eq!(select_slaves(&candidates, &masters), vec![1]);
}

#[test]
fn paths_compare_by_component() {
    // `a//b.jpg` is the same path as `a/b.jpg`; the first given is kept.
    let candidates = [
        photo("a-b.jpg", None),
        photo("a//b.jpg", None),
        photo("a/b.jpg", None),
    ];
    let kept = select_slaves(&candidates, &[]);
    // By component, `a` sorts before `a-b.jpg`, although '-' is a smaller
    // byte than '/'.
    assert_eq!(kept, vec![1, 0]);
}

#[test]
fn nothing_to_select() {
    assert_eq!(select_slaves(&[], &[photo("m.jpg", None)]), Vec::<usize>::new());
    let only_master = [photo("m.jpg", None)];
    assert_eq!(select_slaves(&only_master, &only_master), Vec::<usize>::new());
}
