use cgol::{next_state, Cell, Universe};

fn grid(width: u32, height: u32, alive: &[(u32, u32, u8)]) -> Universe {
    let mut u = Universe::new(width, height);
    let n = (width * height) as usize;
    let mut flags = vec![false; n];
    let mut hues = vec![0u8; n];
    for &(row, col, hue) in alive {
        let i = (row * width + col) as usize;
        flags[i] = true;
        hues[i] = hue;
    }
    u.randomize(&flags, &hues);
    u
}

fn alive_cells(u: &Universe) -> Vec<(u32, u32, u8)> {
    let mut out = Vec::new();
    for row in 0..u.height() {
        for col in 0..u.width() {
            if let Cell::Alive { hue } = u.read_cell(row, col) {
                out.push((row, col, hue));
            }
        }
    }
    out
}

fn step_with(u: &mut Universe, birth_hue: u8) {
    let inputs = u.mix_inputs();
    let mixed: Vec<u8> = inputs
        .iter()
        .map(|h| if h.is_empty() { 0 } else { birth_hue })
        .collect();
    u.tick(&mixed);
}

#[test]
fn neighbor_count_never_exceeds_eight() {
    let mut all = Vec::new();
    for row in 0..3 {
        for col in 0..3 {
            all.push((row, col, 7u8));
        }
    }
    let u = grid(3, 3, &all);
    let mut hues = Vec::new();
    for row in 0..3 {
        for col in 0..3 {
            let count = u.count_neighbors_and_get_hues(row, col, &mut hues);
            assert_eq!(count, 8);
            assert_eq!(hues, vec![7u8; 8]);
        }
    }
    let empty = grid(3, 3, &[]);
    assert_eq!(empty.count_neighbors_and_get_hues(1, 1, &mut hues), 0);
    assert!(hues.is_empty());
}

#[test]
fn single_cell_grid_neighbours_itself() {
    let u = grid(1, 1, &[(0, 0, 42)]);
    let mut hues = Vec::new();
    assert_eq!(u.count_neighbors_and_get_hues(0, 0, &mut hues), 8);
    assert_eq!(hues, vec![42u8; 8]);
}

#[test]
fn corner_wraps_to_opposite_corner() {
    let u = grid(5, 4, &[(3, 4, 200)]);
    let mut hues = Vec::new();
    assert_eq!(u.count_neighbors_and_get_hues(0, 0, &mut hues), 1);
    assert_eq!(hues, vec![200u8]);
}

#[test]
fn survey_lists_hues_in_fixed_order() {
    // Neighbours of (2, 2): NW (1,1), N (1,2), NE (1,3), W (2,1), E (2,3),
    // SW (3,1), S (3,2), SE (3,3).
    let u = grid(
        5,
        5,
        &[(3, 3, 8), (1, 1, 1), (2, 3, 5), (1, 3, 3), (3, 2, 7), (2, 2, 99)],
    );
    let mut hues = vec![250u8, 251];
    assert_eq!(u.count_neighbors_and_get_hues(2, 2, &mut hues), 5);
    assert_eq!(hues, vec![1u8, 3, 5, 7, 8]);
}

#[test]
fn alive_dies_below_and_above_threshold() {
    for hue in [0u8, 1, 128, 255] {
        for count in [0u8, 1, 4, 5, 6, 7, 8] {
            assert_eq!(next_state(Cell::Alive { hue }, count, 17), Cell::Dead);
        }
    }
}

#[test]
fn survival_keeps_hue_exactly() {
    for hue in [0u8, 1, 128, 255] {
        for count in [2u8, 3] {
            assert_eq!(next_state(Cell::Alive { hue }, count, hue.wrapping_add(9)), Cell::Alive { hue });
        }
    }
}

#[test]
fn birth_needs_exactly_three() {
    for count in [0u8, 1, 2, 4, 5, 6, 7, 8] {
        assert_eq!(next_state(Cell::Dead, count, 64), Cell::Dead);
    }
    assert_eq!(next_state(Cell::Dead, 3, 64), Cell::Alive { hue: 64 });
}

#[test]
fn stable_block_keeps_hues() {
    let mut u = grid(4, 4, &[(1, 1, 10), (1, 2, 20), (2, 1, 30), (2, 2, 40)]);
    assert!(u.mix_inputs().iter().all(|h| h.is_empty()));
    u.tick(&vec![0u8; 16]);
    assert_eq!(
        alive_cells(&u),
        vec![(1, 1, 10), (1, 2, 20), (2, 1, 30), (2, 2, 40)]
    );
}

#[test]
fn block_counts_from_previous_generation() {
    let mut u = grid(6, 6, &[(2, 2, 1), (2, 3, 2), (3, 2, 3), (3, 3, 4)]);
    let mut hues = Vec::new();
    assert_eq!(u.count_neighbors_and_get_hues(2, 2, &mut hues), 3);
    assert_eq!(hues, vec![2u8, 3, 4]);
    step_with(&mut u, 250);
    assert_eq!(alive_cells(&u), vec![(2, 2, 1), (2, 3, 2), (3, 2, 3), (3, 3, 4)]);
}

#[test]
fn blinker_uses_only_previous_generation() {
    // An in-place update would kill (2, 1) before (2, 2) is judged.
    let mut u = grid(5, 5, &[(2, 1, 11), (2, 2, 22), (2, 3, 33)]);
    let inputs = u.mix_inputs();
    assert_eq!(inputs.len(), 25);
    assert_eq!(inputs[1 * 5 + 2], vec![11u8, 22, 33]);
    assert_eq!(inputs[3 * 5 + 2], vec![11u8, 22, 33]);
    for (i, h) in inputs.iter().enumerate() {
        if i != 7 && i != 17 {
            assert!(h.is_empty());
        }
    }
    let mut mixed = vec![0u8; 25];
    mixed[7] = 90;
    mixed[17] = 91;
    u.tick(&mixed);
    assert_eq!(alive_cells(&u), vec![(1, 2, 90), (2, 2, 22), (3, 2, 91)]);
}

#[test]
fn isolated_cell_dies() {
    for hue in [0u8, 99, 255] {
        let mut u = grid(5, 5, &[(2, 2, hue)]);
        step_with(&mut u, 1);
        assert!(alive_cells(&u).is_empty());
    }
    let mut corner = grid(4, 4, &[(0, 0, 5)]);
    step_with(&mut corner, 1);
    assert!(alive_cells(&corner).is_empty());
}

#[test]
fn injection_wraps_around_corner() {
    for n in [3u32, 5, 7] {
        let mut u = Universe::new(n, n);
        u.set_alive_block(0, 0, 1, 99);
        for row in 0..n {
            for col in 0..n {
                let inside = (row == n - 1 || row <= 1) && (col == n - 1 || col <= 1);
                let want = if inside { Cell::Alive { hue: 99 } } else { Cell::Dead };
                assert_eq!(u.read_cell(row, col), want);
            }
        }
    }
}

#[test]
fn injection_with_negative_centre_and_large_half() {
    let mut u = Universe::new(6, 4);
    u.set_alive_block(-1, 7, 0, 12);
    assert_eq!(alive_cells(&u), vec![(3, 1, 12)]);
    let mut v = Universe::new(3, 2);
    v.set_alive_block(10, -10, 5, 3);
    assert_eq!(alive_cells(&v).len(), 6);
    let mut w = Universe::new(3, 3);
    w.set_alive_block(1, 1, -1, 3);
    assert!(alive_cells(&w).is_empty());
}

#[test]
fn injection_overwrites_without_rule() {
    let mut u = grid(5, 5, &[(2, 2, 1), (0, 4, 2)]);
    u.set_alive_block(2, 2, 0, 77);
    assert_eq!(alive_cells(&u), vec![(0, 4, 2), (2, 2, 77)]);
}

#[test]
fn new_clamps_zero_dimensions() {
    let u = Universe::new(0, 0);
    assert_eq!((u.width(), u.height()), (1, 1));
    assert_eq!(u.read_cell(0, 0), Cell::Dead);
    let v = Universe::new(4, 0);
    assert_eq!((v.width(), v.height()), (4, 1));
}

#[test]
fn randomize_follows_draws() {
    let mut u = Universe::new(3, 2);
    u.randomize(
        &vec![true, false, true, false, false, true],
        &vec![5, 6, 7, 8, 9, 10],
    );
    assert_eq!(alive_cells(&u), vec![(0, 0, 5), (0, 2, 7), (1, 2, 10)]);
}

#[test]
fn index_is_row_major() {
    let u = Universe::new(7, 3);
    assert_eq!(u.index(0, 0), 0);
    assert_eq!(u.index(1, 0), 7);
    assert_eq!(u.index(2, 6), 20);
}
