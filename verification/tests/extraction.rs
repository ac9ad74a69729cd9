use roomnet::grid::get_letters_in_ascii_grid;

fn grid(rows: &[&str]) -> Vec<Vec<char>> {
    rows.iter().map(|r| r.chars().collect()).collect()
}

#[test]
fn extractor_ignores_structural_glyphs() {
    // A grid of nothing but borders and spaces yields no letters, whatever
    // window is asked for.
    let g = grid(&["+--+", "|  |", "+--+"]);
    assert_eq!(get_letters_in_ascii_grid(&g, 0, 0, 4, 3), Vec::new());
    assert_eq!(get_letters_in_ascii_grid(&g, 1, 1, 2, 1), Vec::new());
    assert_eq!(get_letters_in_ascii_grid(&g, 0, 0, 0, 0), Vec::new());
    assert_eq!(get_letters_in_ascii_grid(&g, 2, 0, 2, 3), Vec::new());
}

#[test]
fn extractor_single_letter_local_coordinates() {
    // Exactly one letter in the window: one triple, at its offset within the
    // window, not within the grid.
    let g = grid(&["+---+", "| z |", "+---+"]);
    let letters = get_letters_in_ascii_grid(&g, 1, 1, 3, 1);
    assert_eq!(letters, vec![(1, 0, 'z')]);
    let whole = get_letters_in_ascii_grid(&g, 0, 0, 5, 3);
    assert_eq!(whole, vec![(2, 1, 'z')]);
}

#[test]
fn extractor_row_major_order() {
    let g = grid(&["ab", "cd"]);
    assert_eq!(
        get_letters_in_ascii_grid(&g, 0, 0, 2, 2),
        vec![(0, 0, 'a'), (1, 0, 'b'), (0, 1, 'c'), (1, 1, 'd')]
    );
}

#[test]
fn extractor_window_clips_to_request() {
    let g = grid(&["xxxx", "xyzx", "xxxx"]);
    assert_eq!(
        get_letters_in_ascii_grid(&g, 1, 1, 2, 1),
        vec![(0, 0, 'y'), (1, 0, 'z')]
    );
}
