use utilify::editor::{apply_move, plan_moves, validate_permutation, Move, MAX_RANGE};

fn simulate(n: usize, moves: &[Move]) -> Vec<usize> {
    let mut cur: Vec<usize> = (0..n).collect();
    for m in moves {
        assert!(m.range_length <= MAX_RANGE, "range too large: {m:?}");
        assert!(m.range_start + m.range_length <= n && m.insert_before <= n, "out of bounds: {m:?}");
        apply_move(&mut cur, m);
    }
    cur
}

#[test]
fn identity_needs_no_moves() {
    assert!(plan_moves(&[0, 1, 2, 3]).is_empty());
}

#[test]
fn move_to_top_is_one_call() {
    let target = vec![3, 0, 1, 2];
    let moves = plan_moves(&target);
    assert_eq!(moves, vec![Move { range_start: 3, insert_before: 0, range_length: 1 }]);
    assert_eq!(simulate(4, &moves), target);
}

#[test]
fn move_one_to_bottom_is_one_small_call() {
    let n = 600;
    let mut target: Vec<usize> = (1..n).collect();
    target.push(0);
    let moves = plan_moves(&target);
    assert_eq!(moves, vec![Move { range_start: 0, insert_before: n, range_length: 1 }]);
    assert_eq!(simulate(n, &moves), target);
}

#[test]
fn move_block_to_bottom_is_one_call() {
    let target = vec![0, 3, 4, 1, 2];
    let moves = plan_moves(&target);
    assert_eq!(moves.len(), 1);
    assert_eq!(simulate(5, &moves), target);
}

#[test]
fn large_blocks_are_chunked() {
    let n = 450;
    let target: Vec<usize> = (225..n).chain(0..225).collect();
    let moves = plan_moves(&target);
    assert!(moves.iter().all(|m| m.range_length <= MAX_RANGE));
    assert_eq!(simulate(n, &moves), target);
}

#[test]
fn arbitrary_permutations_are_reproduced() {
    let mut cases: Vec<Vec<usize>> = vec![
        vec![2, 0, 1],
        vec![4, 3, 2, 1, 0],
        vec![1, 0, 3, 2, 5, 4],
        vec![5, 1, 4, 0, 3, 2, 6],
    ];
    let mut v: Vec<usize> = (0..300).collect();
    let mut seed = 12345u64;
    for k in (1..v.len()).rev() {
        seed = seed.wrapping_mul(6364136223846793005).wrapping_add(1442695040888963407);
        let r = (seed >> 33) as usize % (k + 1);
        v.swap(k, r);
    }
    cases.push(v);
    for target in cases {
        let moves = plan_moves(&target);
        assert_eq!(simulate(target.len(), &moves), target, "target {target:?}");
    }
}

#[test]
fn rejects_bad_permutations() {
    assert!(validate_permutation(&[0, 0, 1], 3).is_err());
    assert!(validate_permutation(&[0, 1], 3).is_err());
    assert!(validate_permutation(&[0, 1, 2], 3).is_ok());
}

#[test]
fn a_stale_view_and_a_broken_order_get_their_own_messages() {
    assert_eq!(
        validate_permutation(&[0, 1], 3).unwrap_err().message(),
        "The playlist changed since it was loaded. Reload and try again."
    );
    assert_eq!(
        validate_permutation(&[0, 3, 1], 3).unwrap_err().message(),
        "Invalid order: not a permutation of the playlist."
    );
}

#[test]
fn a_move_after_the_range_counts_positions_before_removal() {
    let mut cur: Vec<usize> = (0..5).collect();
    apply_move(&mut cur, &Move { range_start: 0, insert_before: 3, range_length: 2 });
    assert_eq!(cur, vec![2, 0, 1, 3, 4]);
    let mut cur: Vec<usize> = (0..5).collect();
    apply_move(&mut cur, &Move { range_start: 3, insert_before: 1, range_length: 2 });
    assert_eq!(cur, vec![0, 3, 4, 1, 2]);
}

#[test]
fn one_block_past_its_neighbour_is_one_call_moving_the_smaller_side() {
    // The block 4..9 goes before 2..4: the two in between are fewer.
    let target = vec![0, 1, 4, 5, 6, 7, 8, 2, 3, 9];
    assert_eq!(plan_moves(&target), vec![Move { range_start: 2, insert_before: 9, range_length: 2 }]);
    // The block 7..9 goes before 2..7: the block is smaller.
    let target = vec![0, 1, 7, 8, 2, 3, 4, 5, 6, 9];
    assert_eq!(plan_moves(&target), vec![Move { range_start: 7, insert_before: 2, range_length: 2 }]);
}
