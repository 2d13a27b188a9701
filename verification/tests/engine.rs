//! Grid behavior: creation, point and bulk access, the error conditions,
//! neighbor counting at boundaries, and the hex serialization.

use conway::errors::EngineError;
use conway::slice::Slice;

#[test]
fn new_grid_is_all_dead_hex_zeros() {
    assert_eq!(Slice::new(1).to_hex_string(), "0");
    assert_eq!(Slice::new(2).to_hex_string(), "0");
    assert_eq!(Slice::new(3).to_hex_string(), "000");
    assert_eq!(Slice::new(4).to_hex_string(), "0000 ");
    assert_eq!(Slice::new(8).to_hex_string(), "0000 0000 0000 0000 ");
    // 13 * 13 = 169 cells: 42 complete groups plus one partial group give 43
    // digits, with a space after every fourth digit.
    let s = Slice::new(13).to_hex_string();
    assert_eq!(s.len(), 43 + 10);
    for (i, c) in s.chars().enumerate() {
        if i % 5 == 4 {
            assert_eq!(c, ' ');
        } else {
            assert_eq!(c, '0');
        }
    }
}

#[test]
fn hex_string_is_canonical_on_odd_sizes() {
    // Every cell is encoded, including those past the last complete group
    // of four, so grids differing in any one cell serialize differently.
    let mut a = Slice::new(1);
    let b = Slice::new(1);
    a.set_cell(0, 0, true).unwrap();
    assert_eq!(a.to_hex_string(), "1");
    assert_ne!(a.to_hex_string(), b.to_hex_string());

    let mut c = Slice::new(13);
    let d = Slice::new(13);
    c.set_cell(12, 12, true).unwrap();
    assert_ne!(c.to_hex_string(), d.to_hex_string());
    c.set_cell(12, 12, false).unwrap();
    assert_eq!(c.to_hex_string(), d.to_hex_string());
}

#[test]
fn degenerate_empty_grid() {
    let g = Slice::new(0);
    assert_eq!(g.get_size(), 0);
    assert_eq!(g.to_hex_string(), "");
}

#[test]
fn hex_packs_low_bit_first() {
    let mut g = Slice::new(4);
    let cells = vec![
        true, true, false, false, // 1 + 2 = 3
        false, true, false, true, // 2 + 8 = 10
        true, false, false, true, // 1 + 8 = 9
        false, false, true, true, // 4 + 8 = 12
    ];
    g.set_cells(cells).unwrap();
    assert_eq!(g.to_hex_string(), "3a9c ");
}

#[test]
fn set_cells_rejects_wrong_length() {
    let mut g = Slice::new(3);
    assert_eq!(g.set_cells(vec![true; 8]), Err(EngineError::InvalidInput));
    assert_eq!(g.set_cells(vec![true; 10]), Err(EngineError::InvalidInput));
    assert_eq!(g.set_cells(vec![true; 9]), Ok(()));
    assert_eq!(g.get(1, 1), Ok(true));
}

#[test]
fn point_access_rejects_out_of_range() {
    let mut g = Slice::new(3);
    assert_eq!(g.get(3, 0), Err(EngineError::IndexOutOfRange));
    assert_eq!(g.get(0, 3), Err(EngineError::IndexOutOfRange));
    assert_eq!(g.set_cell(3, 0, true), Err(EngineError::IndexOutOfRange));
    assert_eq!(g.set_cell(0, 3, true), Err(EngineError::IndexOutOfRange));
    // A coordinate pair whose flat index is in range must still be rejected.
    assert_eq!(g.get(0, 5), Err(EngineError::IndexOutOfRange));
    assert_eq!(g.set_cell(2, 2, true), Ok(()));
    assert_eq!(g.get(2, 2), Ok(true));
    assert_eq!(g.get(2, 1), Ok(false));
}

#[test]
fn corner_cell_counts_at_most_three_neighbors() {
    let mut g = Slice::new(3);
    g.set_cells(vec![true; 9]).unwrap();
    // The corner at row 0, col 0 is flat index 0: three neighbors on the
    // grid, never eight, even with every cell live.
    assert_eq!(g.count_live_neighbors(0), 3);
    // An edge cell has five; the center has the full eight.
    assert_eq!(g.count_live_neighbors(1), 5);
    assert_eq!(g.count_live_neighbors(4), 8);
}

#[test]
fn blinker_oscillates() {
    // A vertical bar of three live cells flips to a horizontal bar and back.
    let mut g = Slice::new(5);
    g.set_cell(1, 2, true).unwrap();
    g.set_cell(2, 2, true).unwrap();
    g.set_cell(3, 2, true).unwrap();
    let start = g.to_hex_string();
    g.next_generation_naive();
    assert_eq!(g.get(2, 1), Ok(true));
    assert_eq!(g.get(2, 2), Ok(true));
    assert_eq!(g.get(2, 3), Ok(true));
    assert_eq!(g.get(1, 2), Ok(false));
    g.next_generation_naive();
    assert_eq!(g.to_hex_string(), start);
}

#[test]
fn algorithms_agree_on_handcrafted_patterns() {
    let patterns: Vec<(usize, Vec<(usize, usize)>)> = vec![
        (1, vec![(0, 0)]),
        (2, vec![(0, 0), (0, 1), (1, 0)]),
        (3, vec![(0, 0), (1, 1), (2, 2)]),
        (5, vec![(1, 2), (2, 2), (3, 2), (0, 0), (4, 4)]),
        (6, vec![(2, 2), (2, 3), (3, 2), (3, 3)]),
    ];
    for (n, live) in patterns {
        let mut a = Slice::new(n);
        for (r, c) in live {
            a.set_cell(r, c, true).unwrap();
        }
        let mut b = a.clone();
        for _ in 0..4 {
            a.next_generation_naive();
            b.next_generation_naive_optimized();
            assert_eq!(a.to_hex_string(), b.to_hex_string());
        }
    }
}

#[test]
fn algorithms_agree_on_randomized_grids() {
    for n in [1usize, 2, 3, 4, 7, 12] {
        for _ in 0..3 {
            let mut a = Slice::new(n);
            a.randomize();
            let mut b = a.clone();
            assert_eq!(a.to_hex_string(), b.to_hex_string());
            for _ in 0..3 {
                a.next_generation_naive();
                b.next_generation_naive_optimized();
                assert_eq!(a.to_hex_string(), b.to_hex_string());
            }
        }
    }
}

#[test]
fn randomize_keeps_the_shape() {
    let mut g = Slice::new(6);
    g.randomize();
    assert_eq!(g.get_size(), 6);
    assert_eq!(g.to_hex_string().len(), 9 + 2);
    for r in 0..6 {
        for c in 0..6 {
            assert!(g.get(r, c).is_ok());
        }
    }
}
