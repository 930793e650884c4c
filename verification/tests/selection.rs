use splat_merge::select::{select_scale, select_voxel};

#[test]
fn denser_first_input_keeps_the_voxel() {
    // Four records of input 1 and two of input 2 share one voxel: the first
    // input wins the tie-free comparison and the second contributes nothing.
    let keys1 = vec![(0, 0, 0); 4];
    let keys2 = vec![(0, 0, 0); 2];
    let (kept1, kept2) = select_voxel(&keys1, &keys2);
    assert_eq!(kept1, vec![0, 1, 2, 3]);
    assert_eq!(kept2, Vec::<usize>::new());
}

#[test]
fn denser_second_input_keeps_the_voxel() {
    let keys1 = vec![(0, 0, 0)];
    let keys2 = vec![(0, 0, 0), (0, 0, 0)];
    let (kept1, kept2) = select_voxel(&keys1, &keys2);
    assert_eq!(kept1, Vec::<usize>::new());
    assert_eq!(kept2, vec![0, 1]);
}

#[test]
fn equal_density_favours_first_input() {
    let keys1 = vec![(5, -3, 2)];
    let keys2 = vec![(5, -3, 2)];
    let (kept1, kept2) = select_voxel(&keys1, &keys2);
    assert_eq!(kept1, vec![0]);
    assert_eq!(kept2, Vec::<usize>::new());
}

#[test]
fn absent_second_input_keeps_everything() {
    let keys1 = vec![(0, 0, 0), (1, 0, 0), (0, 0, 0), (2, 2, 2)];
    let keys2: Vec<(i32, i32, i32)> = Vec::new();
    let (kept1, kept2) = select_voxel(&keys1, &keys2);
    assert_eq!(kept1, vec![0, 1, 2, 3]);
    assert_eq!(kept2, Vec::<usize>::new());
}

#[test]
fn each_voxel_is_served_by_one_input_only() {
    // Voxel a: input 1 denser; voxel b: input 2 denser; voxel c: tie.
    let a = (0, 0, 0);
    let b = (1, 0, 0);
    let c = (2, 0, 0);
    let keys1 = vec![a, a, b, c];
    let keys2 = vec![a, b, b, c];
    let (kept1, kept2) = select_voxel(&keys1, &keys2);
    // Input 1 keeps its records in voxels a and c; input 2 keeps voxel b.
    assert_eq!(kept1, vec![0, 1, 3]);
    assert_eq!(kept2, vec![1, 2]);
    // No voxel receives kept records from both inputs.
    for &i in &kept1 {
        for &j in &kept2 {
            assert_ne!(keys1[i], keys2[j]);
        }
    }
}

#[test]
fn scale_partition_splits_small_and_large() {
    let small1 = vec![true, false, true, true];
    let small2 = vec![false, true, false];
    let (kept1, kept2) = select_scale(&small1, &small2);
    assert_eq!(kept1, vec![0, 2, 3]);
    assert_eq!(kept2, vec![0, 2]);
}

#[test]
fn same_input_on_both_sides_is_kept_exactly_once() {
    // With the same flags on both sides every record goes to exactly one
    // output group, so the sizes sum to the record count.
    let flags = vec![true, false, false, true, true, false];
    let (kept1, kept2) = select_scale(&flags, &flags);
    assert_eq!(kept1.len() + kept2.len(), flags.len());
    for i in 0..flags.len() {
        assert_eq!(kept1.contains(&i) ^ kept2.contains(&i), true);
    }
}

#[test]
fn empty_inputs_select_nothing() {
    let none: Vec<(i32, i32, i32)> = Vec::new();
    let (kept1, kept2) = select_voxel(&none, &none);
    assert_eq!(kept1, Vec::<usize>::new());
    assert_eq!(kept2, Vec::<usize>::new());
    let nob: Vec<bool> = Vec::new();
    let (kept1, kept2) = select_scale(&nob, &nob);
    assert_eq!(kept1, Vec::<usize>::new());
    assert_eq!(kept2, Vec::<usize>::new());
}
