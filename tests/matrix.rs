use macro_pad::matrix::{Change, KeyState, Matrix, GRID_SIZE};

fn grid_with(cells: &[(usize, usize)]) -> [[bool; 4]; 4] {
    let mut g = [[false; 4]; 4];
    for &(y, x) in cells {
        g[y][x] = true;
    }
    g
}

fn drain_all(m: &mut Matrix<(), ()>) -> Vec<Change> {
    let mut out = Vec::new();
    let mut changes = m.changes();
    while let Some(c) = changes.next() {
        out.push(c);
    }
    out
}

#[test]
fn debounce_table() {
    assert_eq!(KeyState::Released.next(false), KeyState::Released);
    assert_eq!(KeyState::Released.next(true), KeyState::Pressing);
    assert_eq!(KeyState::Pressing.next(false), KeyState::Releasing);
    assert_eq!(KeyState::Pressing.next(true), KeyState::Pressed);
    assert_eq!(KeyState::Pressed.next(false), KeyState::Releasing);
    assert_eq!(KeyState::Pressed.next(true), KeyState::Pressed);
    assert_eq!(KeyState::Releasing.next(false), KeyState::Released);
    assert_eq!(KeyState::Releasing.next(true), KeyState::Pressing);
}

#[test]
fn new_matrix_is_released_and_quiet() {
    let mut m = Matrix::new([(); 4], [(); 4]);
    assert_eq!(*m.get_state(), [[KeyState::Released; 4]; 4]);
    assert!(drain_all(&mut m).is_empty());
}

#[test]
fn single_cell_follows_table() {
    let readings = [false, false, true, true, true, false, false];
    let expected = [
        KeyState::Released,
        KeyState::Released,
        KeyState::Pressing,
        KeyState::Pressed,
        KeyState::Pressed,
        KeyState::Releasing,
        KeyState::Released,
    ];
    let mut m = Matrix::new([(); 4], [(); 4]);
    let mut flagged_steps = Vec::new();
    for (step, &closed) in readings.iter().enumerate() {
        let g = if closed { grid_with(&[(1, 3)]) } else { grid_with(&[]) };
        m.apply_scan(&g);
        assert_eq!(m.get_state()[1][3], expected[step]);
        let changes = drain_all(&mut m);
        if !changes.is_empty() {
            assert_eq!(
                changes,
                vec![Change { matrix_y: 1, matrix_x: 3, new_state: expected[step] }]
            );
            flagged_steps.push(step + 1);
        }
    }
    // Pressing -> Pressed on step 4 is a change of state, so it is flagged too
    assert_eq!(flagged_steps, vec![3, 4, 6, 7]);
}

#[test]
fn cell_two_zero_over_four_scans() {
    let readings = [true, true, true, false];
    let expected = [KeyState::Pressing, KeyState::Pressed, KeyState::Pressed, KeyState::Releasing];
    let mut m = Matrix::new([(); 4], [(); 4]);
    let mut flagged_scans = Vec::new();
    for (scan, &closed) in readings.iter().enumerate() {
        let g = if closed { grid_with(&[(2, 0)]) } else { grid_with(&[]) };
        m.apply_scan(&g);
        assert_eq!(m.get_state()[2][0], expected[scan]);
        let changes = drain_all(&mut m);
        if !changes.is_empty() {
            assert_eq!(
                changes,
                vec![Change { matrix_y: 2, matrix_x: 0, new_state: expected[scan] }]
            );
            flagged_scans.push(scan + 1);
        }
    }
    assert_eq!(flagged_scans, vec![1, 2, 4]);
}

#[test]
fn second_drain_is_empty() {
    let mut m = Matrix::new([(); 4], [(); 4]);
    m.apply_scan(&grid_with(&[(0, 0), (3, 3)]));
    assert_eq!(drain_all(&mut m).len(), 2);
    assert!(drain_all(&mut m).is_empty());
    let mut changes = m.changes();
    assert_eq!(changes.next(), None);
    assert_eq!(changes.next(), None);
}

#[test]
fn drain_method_matches_cursor() {
    let mut m = Matrix::new([(); 4], [(); 4]);
    m.apply_scan(&grid_with(&[(0, 2), (1, 0), (3, 1)]));
    let out = m.drain();
    assert_eq!(
        out,
        vec![
            Change { matrix_y: 0, matrix_x: 2, new_state: KeyState::Pressing },
            Change { matrix_y: 1, matrix_x: 0, new_state: KeyState::Pressing },
            Change { matrix_y: 3, matrix_x: 1, new_state: KeyState::Pressing },
        ]
    );
    assert!(m.drain().is_empty());
}

#[test]
fn changes_come_in_row_major_order() {
    let mut m = Matrix::new([(); 4], [(); 4]);
    let all: Vec<(usize, usize)> =
        (0..GRID_SIZE).flat_map(|y| (0..GRID_SIZE).map(move |x| (y, x))).collect();
    m.apply_scan(&grid_with(&[(3, 0), (0, 3), (1, 1), (2, 2), (0, 0), (1, 2), (3, 3)]));
    let out = drain_all(&mut m);
    assert_eq!(out.len(), 7);
    for w in out.windows(2) {
        assert!(w[0].matrix_y * 4 + w[0].matrix_x < w[1].matrix_y * 4 + w[1].matrix_x);
    }
    // a full grid is drained in order too, including cells after a row end
    m.apply_scan(&grid_with(&all));
    let out = drain_all(&mut m);
    let positions: Vec<(usize, usize)> = out.iter().map(|c| (c.matrix_y, c.matrix_x)).collect();
    assert_eq!(positions, all);
}

#[test]
fn partly_consumed_drain_keeps_the_rest() {
    let mut m = Matrix::new([(); 4], [(); 4]);
    m.apply_scan(&grid_with(&[(0, 1), (2, 3)]));
    {
        let mut changes = m.changes();
        assert_eq!(
            changes.next(),
            Some(Change { matrix_y: 0, matrix_x: 1, new_state: KeyState::Pressing })
        );
    }
    assert_eq!(
        drain_all(&mut m),
        vec![Change { matrix_y: 2, matrix_x: 3, new_state: KeyState::Pressing }]
    );
}

#[test]
fn scan_column_touches_only_its_column() {
    let mut m = Matrix::new([(); 4], [(); 4]);
    m.scan_column(1, &[true, false, true, false]);
    let s = *m.get_state();
    for y in 0..4 {
        for x in 0..4 {
            let expect = if y == 1 && (x == 0 || x == 2) {
                KeyState::Pressing
            } else {
                KeyState::Released
            };
            assert_eq!(s[y][x], expect);
        }
    }
    assert_eq!(drain_all(&mut m).len(), 2);
}

#[test]
fn no_change_sets_no_flag() {
    let mut m = Matrix::new([(); 4], [(); 4]);
    m.apply_scan(&grid_with(&[(0, 0)]));
    m.apply_scan(&grid_with(&[(0, 0)]));
    drain_all(&mut m);
    m.apply_scan(&grid_with(&[(0, 0)]));
    assert_eq!(m.get_state()[0][0], KeyState::Pressed);
    assert!(drain_all(&mut m).is_empty());
}

#[test]
fn bounce_returns_to_opposite_transient() {
    let mut m = Matrix::new([(); 4], [(); 4]);
    m.apply_scan(&grid_with(&[(3, 2)]));
    m.apply_scan(&grid_with(&[]));
    assert_eq!(m.get_state()[3][2], KeyState::Releasing);
    m.apply_scan(&grid_with(&[(3, 2)]));
    assert_eq!(m.get_state()[3][2], KeyState::Pressing);
    let out = drain_all(&mut m);
    assert_eq!(out, vec![Change { matrix_y: 3, matrix_x: 2, new_state: KeyState::Pressing }]);
}

#[test]
fn pins_are_kept() {
    let mut m = Matrix::new([1u8, 2, 3, 4], [5u8, 6, 7, 8]);
    assert_eq!(*m.rows(), [1, 2, 3, 4]);
    m.columns_mut()[2] = 9;
    assert_eq!(*m.columns_mut(), [5, 6, 9, 8]);
}
