use cargo_all_features::chunk::{chunk_bounds, select_chunk};
use cargo_all_features::matrix::{
    combinations, contains_name, is_skipped, power_set_of, same_names, workspace_jobs,
    CrateFeatures, MatrixError,
};

fn strs(v: &[&str]) -> Vec<String> {
    v.iter().map(|s| s.to_string()).collect()
}

fn sets(v: &[&[&str]]) -> Vec<Vec<String>> {
    v.iter().map(|c| strs(c)).collect()
}

#[test]
fn two_features_give_four_combinations_in_order() {
    let m = combinations(&strs(&["a", "b"]), &Vec::new()).unwrap();
    assert_eq!(m, sets(&[&[], &["a"], &["b"], &["a", "b"]]));
}

#[test]
fn two_features_split_in_two_chunks() {
    let m = combinations(&strs(&["a", "b"]), &Vec::new()).unwrap();
    assert_eq!(select_chunk(&m, 1, 2), sets(&[&[], &["a"]]));
    assert_eq!(select_chunk(&m, 2, 2), sets(&[&["b"], &["a", "b"]]));
}

#[test]
fn three_features_give_eight_distinct_subsets() {
    let m = power_set_of(&strs(&["x", "y", "z"]));
    assert_eq!(
        m,
        sets(&[&[], &["x"], &["y"], &["x", "y"], &["z"], &["x", "z"], &["y", "z"], &["x", "y", "z"]])
    );
    for i in 0..m.len() {
        for j in 0..m.len() {
            if i != j {
                assert!(!same_names(&m[i], &m[j]));
            }
        }
    }
}

#[test]
fn no_features_give_the_empty_combination_only() {
    let m = combinations(&Vec::new(), &Vec::new()).unwrap();
    assert_eq!(m, sets(&[&[]]));
}

#[test]
fn skip_rule_removes_exactly_its_set() {
    let m = combinations(&strs(&["a", "b"]), &sets(&[&["b", "a"]])).unwrap();
    assert_eq!(m, sets(&[&[], &["a"], &["b"]]));
    let m = combinations(&strs(&["a", "b"]), &sets(&[&["a"]])).unwrap();
    assert_eq!(m, sets(&[&[], &["b"], &["a", "b"]]));
}

#[test]
fn mutually_exclusive_features_leave_a_non_empty_matrix() {
    let m = combinations(&strs(&["a", "b"]), &sets(&[&["a", "b"], &[]])).unwrap();
    assert_eq!(m, sets(&[&["a"], &["b"]]));
}

#[test]
fn skip_rule_with_undeclared_feature_is_refused() {
    match combinations(&strs(&["a"]), &sets(&[&["a", "nope"]])) {
        Err(MatrixError::UnknownFeature { name }) => assert_eq!(name, "nope"),
        Ok(_) => panic!("accepted an undeclared feature"),
    }
}

#[test]
fn name_lookups() {
    assert!(contains_name(&strs(&["a", "b"]), &"b".to_string()));
    assert!(!contains_name(&strs(&["a", "b"]), &"c".to_string()));
    assert!(same_names(&strs(&["a", "b"]), &strs(&["b", "a"])));
    assert!(!same_names(&strs(&["a", "b"]), &strs(&["a"])));
    assert!(is_skipped(&strs(&["b", "a"]), &sets(&[&["c"], &["a", "b"]])));
    assert!(!is_skipped(&strs(&["a"]), &sets(&[&["a", "b"]])));
}

fn krate(name: &str, features: &[&str], skip: &[&[&str]]) -> CrateFeatures {
    CrateFeatures {
        name: name.to_string(),
        features: strs(features),
        defaults: Vec::new(),
        skip: sets(skip),
    }
}

#[test]
fn workspace_matrix_follows_crate_order() {
    let crates = vec![krate("one", &["a"], &[]), krate("two", &["a"], &[&["a"]])];
    let jobs = workspace_jobs(&crates).unwrap();
    let got: Vec<(usize, Vec<String>)> = jobs.into_iter().map(|j| (j.krate, j.features)).collect();
    assert_eq!(got, vec![(0, strs(&[])), (0, strs(&["a"])), (1, strs(&[]))]);
}

#[test]
fn workspace_reports_the_first_bad_crate() {
    let crates = vec![
        krate("one", &["a"], &[]),
        krate("two", &["a"], &[&["b"]]),
        krate("three", &[], &[&["c"]]),
    ];
    let e = workspace_jobs(&crates).err().unwrap();
    assert_eq!(e.krate, 1);
    match e.error {
        MatrixError::UnknownFeature { name } => assert_eq!(name, "b"),
    }
}

#[test]
fn chunk_sizes_are_near_even() {
    assert_eq!(chunk_bounds(10, 1, 3), (0, 4));
    assert_eq!(chunk_bounds(10, 2, 3), (4, 7));
    assert_eq!(chunk_bounds(10, 3, 3), (7, 10));
}

#[test]
fn chunks_beyond_the_matrix_are_empty() {
    assert_eq!(chunk_bounds(2, 1, 3), (0, 1));
    assert_eq!(chunk_bounds(2, 2, 3), (1, 2));
    assert_eq!(chunk_bounds(2, 3, 3), (2, 2));
}

#[test]
fn chunks_rebuild_the_matrix() {
    let m = power_set_of(&strs(&["a", "b", "c"]));
    for chunks in 1..=10 {
        let mut joined = Vec::new();
        let mut sizes = Vec::new();
        for chunk in 1..=chunks {
            let part = select_chunk(&m, chunk, chunks);
            sizes.push(part.len());
            joined.extend(part);
        }
        assert_eq!(joined, m);
        let lo = *sizes.iter().min().unwrap();
        let hi = *sizes.iter().max().unwrap();
        assert!(hi - lo <= 1);
    }
}

#[test]
fn chunking_is_repeatable() {
    let m = power_set_of(&strs(&["a", "b", "c"]));
    assert_eq!(select_chunk(&m, 2, 3), select_chunk(&m, 2, 3));
    assert_eq!(chunk_bounds(8, 2, 3), chunk_bounds(8, 2, 3));
}
