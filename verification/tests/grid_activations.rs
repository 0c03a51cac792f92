use rho::grid_activations::{
    create_new_distribution, flat_index_to_grid_index, flatten, grid_index_to_flat_index,
    unflatten, GridActivations,
};
use rho::permutation::is_distribution;

fn grid(active: Vec<bool>, thresh: Vec<usize>, row_lengths: Vec<usize>) -> GridActivations {
    GridActivations::from_parts(active, thresh, row_lengths).unwrap()
}

fn normalized_density(seq: &GridActivations) -> f32 {
    if seq.get_total_num_steps() == 0 {
        return 0.0;
    }
    seq.num_active_steps() as f32 / seq.get_total_num_steps() as f32
}

#[test]
fn can_create_new_distribution() {
    assert_eq!(create_new_distribution(5).len(), 5);
}

#[test]
fn test_set_activations_for_new_density() {
    let mut seq = grid(
        vec![false, false, false, false, false],
        vec![0, 1, 2, 4, 3],
        vec![1, 2, 2],
    );

    seq.set_activations_for_new_density(0);
    assert_eq!(seq.active_steps(), vec![false, false, false, false, false]);

    seq.set_activations_for_new_density(4);
    assert_eq!(seq.active_steps(), vec![true, true, true, false, true]);

    seq.set_activations_for_new_density(5);
    assert_eq!(seq.active_steps(), vec![true, true, true, true, true]);
}

#[test]
fn test_num_active_steps() {
    let seq = grid(
        vec![false, true, false, false, true],
        vec![0, 1, 2, 4, 3],
        vec![1, 2, 2],
    );

    assert_eq!(seq.num_active_steps(), 2);
    let seq = grid(
        vec![false, true, false, true, true],
        vec![0, 1, 2, 4, 3],
        vec![1, 2, 2],
    );
    assert_eq!(seq.num_active_steps(), 3);
}

#[test]
fn test_change_step() {
    let mut seq = grid(
        vec![false, false, false, false, false],
        vec![0, 1, 2, 3, 4],
        vec![1, 2, 2],
    );

    let density: usize = 1;

    // smallest density only has one active step
    seq.set_activations_for_new_density(density);
    assert_eq!(seq.active_steps(), vec![true, false, false, false, false]);

    // now set step 4 to active
    seq.change_step_update_thresholds(4, true);

    // step 4 gets the threshold 1 and two steps are on
    assert_eq!(seq.active_steps(), vec![true, false, false, false, true]);
    assert_eq!(seq.thresholds(), vec![0, 4, 2, 3, 1]);

    // turn off step 0
    seq.change_step_update_thresholds(0, false);
    assert_eq!(seq.active_steps(), vec![false, false, false, false, true]);
    // its threshold is exchanged with that of the step at the border
    assert_eq!(seq.thresholds(), vec![1, 4, 2, 3, 0]);
}

#[test]
fn test_create_new_distribution_given_active_steps() {
    let mut seq = grid(
        vec![false, true, false, false, true],
        vec![0, 1, 2, 3, 4],
        vec![1, 2, 2],
    );

    seq.create_new_distribution_given_active_steps();

    assert!(seq.thresholds()[0] >= 2);
    assert!(seq.thresholds()[1] < 2);
    assert!(seq.thresholds()[4] < 2);
}

#[test]
fn test_flatten_grid_into_single_row() {
    let rows = vec![vec![1], vec![2, 3], vec![4, 5, 6]];
    let result = flatten(rows);
    assert_eq!(result, vec![1, 2, 3, 4, 5, 6]);
}

#[test]
fn unflatten_rows_into_grid() {
    let flat: Vec<usize> = vec![1, 2, 3, 4, 5, 6];
    let row_lengths: Vec<usize> = vec![1, 2, 3];
    let grid = unflatten(&flat, &row_lengths);

    let expected = vec![vec![1], vec![2, 3], vec![4, 5, 6]];

    assert_eq!(grid, expected);
}

#[test]
fn test_index_conversions() {
    let row_lengths: Vec<usize> = vec![1, 2, 3];
    {
        let flat_index = 5;
        let result = flat_index_to_grid_index(flat_index, &row_lengths);
        assert_eq!(result, (2, 2));
        assert_eq!(grid_index_to_flat_index(result, &row_lengths), flat_index);
    }
    {
        let flat_index = 0;
        let result = flat_index_to_grid_index(flat_index, &row_lengths);
        assert_eq!(result, (0, 0));
        assert_eq!(grid_index_to_flat_index(result, &row_lengths), flat_index);
    }
    {
        let flat_index = 1;
        let result = flat_index_to_grid_index(flat_index, &row_lengths);
        assert_eq!(result, (1, 0));
        assert_eq!(grid_index_to_flat_index(result, &row_lengths), flat_index);
    }
    {
        let row_lengths: Vec<usize> = vec![0, 0, 1];

        let flat_index: usize = 0;
        let result = flat_index_to_grid_index(flat_index, &row_lengths);

        assert_eq!(result, (2, 0));
        assert_eq!(grid_index_to_flat_index(result, &row_lengths), flat_index);
    }
}

#[test]
fn test_append_steps() {
    let mut seq = grid(
        vec![true, true, true, true, true, true],
        vec![0, 1, 2, 3, 4, 5],
        vec![1, 2, 3],
    );

    // insert a step at end of second row
    seq.append_steps(1, 3);

    let expected_active = vec![true, true, true, false, true, true, true];
    assert_eq!(seq.active_steps(), expected_active);

    let expected_thresh: Vec<usize> = vec![0, 1, 2, 6, 3, 4, 5];
    assert_eq!(seq.thresholds(), expected_thresh);

    let expected_row_lengths: Vec<usize> = std::vec![1, 3, 3];
    assert_eq!(seq.row_lengths(), expected_row_lengths);

    assert_eq!(seq.get_row_length(2), 3);
    assert_eq!(seq.get_row(2), vec![true, true, true]);

    assert_eq!(normalized_density(&seq), 6.0 / 7.0);
}

#[test]
fn test_append_steps_edge_cases() {
    let mut seq = grid(vec![], vec![], vec![0, 0, 0]);

    // insert a step at end of second row
    seq.append_steps(1, 1);
    let expected_active = vec![false];
    assert_eq!(seq.active_steps(), expected_active);
    assert_eq!(normalized_density(&seq), 0.0);
}

#[test]
fn test_remove_steps() {
    let mut seq = grid(
        vec![true, true, true, false, false, false],
        vec![0, 1, 2, 3, 4, 5],
        vec![1, 2, 3],
    );

    // remove the second element of the second row, the third in the flat list
    seq.remove_steps(1, 1);

    let expected_active = vec![true, true, false, false, false];
    assert_eq!(seq.active_steps(), expected_active);

    let expected_thresh: Vec<usize> = vec![0, 1, 2, 3, 4];
    assert_eq!(seq.thresholds(), expected_thresh);

    let expected_row_lengths: Vec<usize> = vec![1, 1, 3];
    assert_eq!(seq.row_lengths(), expected_row_lengths);

    assert_eq!(normalized_density(&seq), 2.0 / 5.0);
}

#[test]
fn new_grid_is_all_off_with_a_permutation() {
    let seq = GridActivations::new(4, 4);
    assert_eq!(seq.get_total_num_steps(), 16);
    assert_eq!(seq.num_rows(), 4);
    assert_eq!(seq.row_lengths(), vec![4, 4, 4, 4]);
    assert_eq!(seq.active_steps(), vec![false; 16]);
    assert_eq!(seq.num_active_steps(), 0);
    assert!(is_distribution(&seq.thresholds()));
}

#[test]
fn new_distribution_is_a_shuffled_permutation() {
    let v = create_new_distribution(200);
    assert_eq!(v.len(), 200);
    assert!(is_distribution(&v));
    let ascending: Vec<usize> = (0..200).collect();
    assert_ne!(v, ascending);
    let mut sorted = v.clone();
    sorted.sort();
    assert_eq!(sorted, ascending);
}

#[test]
fn new_distribution_of_nothing_is_empty() {
    assert_eq!(create_new_distribution(0), Vec::<usize>::new());
    assert_eq!(create_new_distribution(1), vec![0]);
}

#[test]
fn is_distribution_tells_permutations() {
    assert!(is_distribution(&vec![]));
    assert!(is_distribution(&vec![0]));
    assert!(is_distribution(&vec![2, 0, 1]));
    assert!(!is_distribution(&vec![1]));
    assert!(!is_distribution(&vec![0, 0]));
    assert!(!is_distribution(&vec![0, 1, 3]));
    assert!(!is_distribution(&vec![2, 1, 2]));
}

#[test]
fn from_parts_refuses_what_does_not_fit() {
    // thresholds that are no permutation
    assert!(GridActivations::from_parts(vec![false, false], vec![0, 0], vec![2]).is_none());
    assert!(GridActivations::from_parts(vec![false, false], vec![1, 2], vec![2]).is_none());
    // fewer thresholds than steps
    assert!(GridActivations::from_parts(vec![false, false], vec![0], vec![2]).is_none());
    // rows that hold more or fewer steps than there are
    assert!(GridActivations::from_parts(vec![false, false], vec![0, 1], vec![3]).is_none());
    assert!(GridActivations::from_parts(vec![false, false], vec![0, 1], vec![1]).is_none());
    assert!(GridActivations::from_parts(vec![false, false], vec![0, 1], vec![usize::MAX, 3]).is_none());
    // what fits
    let seq = GridActivations::from_parts(vec![true, false], vec![1, 0], vec![0, 2, 0]).unwrap();
    assert_eq!(seq.active_steps(), vec![true, false]);
    assert_eq!(seq.thresholds(), vec![1, 0]);
    assert_eq!(seq.row_lengths(), vec![0, 2, 0]);
}

#[test]
fn index_conversions_are_inverses_on_every_step() {
    let layouts: Vec<Vec<usize>> = vec![
        vec![1, 2, 3],
        vec![0, 0, 1],
        vec![3, 0, 0, 2, 0],
        vec![0, 4],
        vec![5],
    ];
    for row_lengths in layouts {
        let total: usize = row_lengths.iter().sum();
        for flat in 0..total {
            let (row, step) = flat_index_to_grid_index(flat, &row_lengths);
            assert!(row < row_lengths.len());
            assert!(step < row_lengths[row]);
            assert_eq!(grid_index_to_flat_index((row, step), &row_lengths), flat);
        }
        for row in 0..row_lengths.len() {
            for step in 0..row_lengths[row] {
                let flat = grid_index_to_flat_index((row, step), &row_lengths);
                assert_eq!(flat_index_to_grid_index(flat, &row_lengths), (row, step));
            }
        }
    }
}

#[test]
fn flat_index_one_past_the_end_is_allowed() {
    let row_lengths: Vec<usize> = vec![1, 2, 3];
    assert_eq!(grid_index_to_flat_index((3, 0), &row_lengths), 6);
    assert_eq!(grid_index_to_flat_index((2, 3), &row_lengths), 6);
    assert_eq!(grid_index_to_flat_index((1, 0), &row_lengths), 1);
}

#[test]
fn flatten_and_unflatten_with_empty_rows() {
    assert_eq!(flatten(vec![]), Vec::<usize>::new());
    assert_eq!(flatten(vec![vec![], vec![7], vec![]]), vec![7]);
    let grid = unflatten(&vec![7, 8], &vec![0, 2, 0]);
    assert_eq!(grid, vec![vec![], vec![7, 8], vec![]]);
    assert_eq!(flatten(grid), vec![7, 8]);
}

#[test]
fn change_step_leaves_every_other_step_alone() {
    let mut seq = grid(
        vec![true, false, true, false, false, true],
        vec![2, 5, 0, 3, 4, 1],
        vec![2, 4],
    );
    for index in 0..6 {
        for on in [true, false] {
            let before = seq.active_steps();
            let changed = seq.change_step_update_thresholds(index, on);
            let after = seq.active_steps();
            assert_eq!(changed, before[index] != on);
            assert_eq!(after[index], on);
            for k in 0..6 {
                if k != index {
                    assert_eq!(after[k], before[k]);
                }
            }
            assert!(is_distribution(&seq.thresholds()));
            let count = seq.num_active_steps();
            let thresh = seq.thresholds();
            for k in 0..6 {
                assert_eq!(after[k], thresh[k] < count);
            }
        }
    }
}

#[test]
fn change_step_to_the_value_it_has_changes_nothing() {
    let mut seq = grid(vec![true, false, false], vec![0, 2, 1], vec![3]);
    assert!(!seq.change_step_update_thresholds(0, true));
    assert!(!seq.change_step_update_thresholds(1, false));
    assert_eq!(seq.active_steps(), vec![true, false, false]);
    assert_eq!(seq.thresholds(), vec![0, 2, 1]);
}

#[test]
fn set_and_get_go_by_row_and_step() {
    let mut seq = grid(
        vec![false, false, false, false, false, false],
        vec![0, 1, 2, 3, 4, 5],
        vec![1, 2, 3],
    );
    seq.set(2, 1, true);
    assert_eq!(seq.active_steps(), vec![false, false, false, false, true, false]);
    assert_eq!(seq.thresholds(), vec![4, 1, 2, 3, 0, 5]);
    assert!(seq.get(2, 1));
    assert!(!seq.get(2, 0));
    assert!(!seq.get(0, 0));
    assert_eq!(seq.get_row(2), vec![false, true, false]);
    assert_eq!(seq.get_row(0), vec![false]);
    assert_eq!(seq.row_length(1), 2);
    assert_eq!(seq.get_row_length(0), 1);
}

#[test]
fn rewrite_at_the_density_it_has_changes_nothing() {
    let mut seq = grid(
        vec![false, false, false, false, false],
        vec![3, 0, 4, 1, 2],
        vec![2, 3],
    );
    for density in 0..=5 {
        seq.set_activations_for_new_density(density);
        assert_eq!(seq.num_active_steps(), density);
        let active = seq.active_steps();
        let thresh = seq.thresholds();
        seq.set_activations_for_new_density(seq.num_active_steps());
        assert_eq!(seq.active_steps(), active);
        assert_eq!(seq.thresholds(), thresh);
    }
    seq.set_activations_for_new_density(9);
    assert_eq!(seq.active_steps(), vec![true; 5]);
    assert_eq!(seq.num_active_steps(), 5);
}

#[test]
fn rewrite_discards_a_pattern_made_by_hand() {
    let mut seq = grid(
        vec![false, true, false, false, true],
        vec![0, 1, 2, 3, 4],
        vec![1, 2, 2],
    );
    seq.set_activations_for_new_density(2);
    assert_eq!(seq.active_steps(), vec![true, true, false, false, false]);
}

#[test]
fn set_density_steps_keeps_a_pattern_of_that_density() {
    let mut seq = grid(
        vec![false, true, false, false, true],
        vec![0, 1, 2, 3, 4],
        vec![1, 2, 2],
    );
    seq.set_density_steps(2);
    assert_eq!(seq.active_steps(), vec![false, true, false, false, true]);
    seq.set_density_steps(3);
    assert_eq!(seq.active_steps(), vec![true, true, true, false, false]);
    seq.set_density_steps(0);
    assert_eq!(seq.active_steps(), vec![false; 5]);
}

#[test]
fn redistribute_keeps_the_pattern() {
    let mut seq = grid(
        vec![false, true, false, false, true],
        vec![0, 1, 2, 3, 4],
        vec![1, 2, 2],
    );
    seq.redistribute(vec![2, 0, 4, 3, 1], vec![4, 2, 0, 1, 3]);
    assert_eq!(seq.active_steps(), vec![false, true, false, false, true]);
    // step 4 comes on first and takes the threshold 0 from step 1; then step
    // 1 comes on and keeps the threshold 1 that it got in exchange
    assert_eq!(seq.thresholds(), vec![2, 1, 4, 3, 0]);
    assert_eq!(seq.row_lengths(), vec![1, 2, 2]);
}

#[test]
fn new_distribution_given_active_steps_keeps_the_pattern() {
    let pattern = vec![true, false, false, true, true, false, true, false];
    let mut seq = grid(pattern.clone(), vec![0, 4, 5, 1, 2, 6, 3, 7], vec![4, 4]);
    for _ in 0..20 {
        seq.create_new_distribution_given_active_steps();
        assert_eq!(seq.active_steps(), pattern);
        let thresh = seq.thresholds();
        assert!(is_distribution(&thresh));
        for k in 0..8 {
            assert_eq!(pattern[k], thresh[k] < 4);
        }
    }
}

#[test]
fn insert_steps_puts_thresholds_in_as_given() {
    let mut seq = grid(vec![true, false, true], vec![1, 2, 0], vec![1, 2]);
    seq.insert_steps(0, vec![4, 3]);
    assert_eq!(seq.active_steps(), vec![true, false, false, false, true]);
    assert_eq!(seq.thresholds(), vec![1, 4, 3, 2, 0]);
    assert_eq!(seq.row_lengths(), vec![3, 2]);
}

#[test]
fn append_steps_ranks_new_steps_last() {
    let mut seq = grid(vec![true, false, true], vec![1, 2, 0], vec![1, 2]);
    seq.append_steps(1, 6);
    assert_eq!(seq.row_lengths(), vec![1, 6]);
    assert_eq!(seq.active_steps(), vec![true, false, true, false, false, false, false]);
    let thresh = seq.thresholds();
    assert_eq!(thresh[0..3].to_vec(), vec![1, 2, 0]);
    let mut inserted = thresh[3..7].to_vec();
    inserted.sort();
    assert_eq!(inserted, vec![3, 4, 5, 6]);
    assert!(is_distribution(&thresh));
    // a row keeps its length and everything else where it is asked for the length it has
    seq.append_steps(0, 1);
    assert_eq!(seq.thresholds(), thresh);
}

#[test]
fn remove_steps_renumbers_by_rank() {
    let mut seq = grid(
        vec![true, false, true, false, false, true],
        vec![2, 5, 0, 3, 4, 1],
        vec![2, 4],
    );
    // the steps with the thresholds 3, 4 and 1 leave
    seq.remove_steps(1, 1);
    assert_eq!(seq.row_lengths(), vec![2, 1]);
    assert_eq!(seq.active_steps(), vec![true, false, true]);
    assert_eq!(seq.thresholds(), vec![1, 2, 0]);
    assert_eq!(seq.num_active_steps(), 2);
    // a whole row can go
    seq.remove_steps(0, 0);
    assert_eq!(seq.row_lengths(), vec![0, 1]);
    assert_eq!(seq.active_steps(), vec![true]);
    assert_eq!(seq.thresholds(), vec![0]);
}

#[test]
fn set_row_length_grows_and_shrinks() {
    let mut seq = grid(
        vec![true, true, true, false, false, false],
        vec![0, 1, 2, 3, 4, 5],
        vec![1, 2, 3],
    );
    seq.set_row_length(1, 2);
    assert_eq!(seq.thresholds(), vec![0, 1, 2, 3, 4, 5]);
    seq.set_row_length(1, 3);
    assert_eq!(seq.row_lengths(), vec![1, 3, 3]);
    assert_eq!(seq.thresholds(), vec![0, 1, 2, 6, 3, 4, 5]);
    seq.set_row_length(2, 1);
    assert_eq!(seq.row_lengths(), vec![1, 3, 1]);
    assert_eq!(seq.active_steps(), vec![true, true, true, false, false]);
    assert_eq!(seq.thresholds(), vec![0, 1, 2, 4, 3]);
    assert!(is_distribution(&seq.thresholds()));
}

#[test]
fn row_activations_have_one_entry_per_row_slot() {
    let seq = grid(vec![true, false, true], vec![0, 2, 1], vec![1, 0, 2]);
    let rows = seq.get_row_activations();
    assert_eq!(rows[0], vec![true]);
    assert_eq!(rows[1], Vec::<bool>::new());
    assert_eq!(rows[2], vec![false, true]);
    assert_eq!(rows[3], Vec::<bool>::new());
}
