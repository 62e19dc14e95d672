use life_engine::rle::{decode_rle_into_centered, parse_rle_header_xy, RleError};

fn decode(text: &str, width: usize, height: usize) -> Result<Vec<u8>, RleError> {
    let bytes: Vec<u8> = text.as_bytes().to_vec();
    let mut grid = vec![9u8; width * height];
    decode_rle_into_centered(&bytes, &mut grid, width, height).map(|()| grid)
}

fn live_cells(grid: &[u8], width: usize) -> Vec<(usize, usize)> {
    grid.iter()
        .enumerate()
        .filter(|&(_, &c)| c == 1)
        .map(|(i, _)| (i % width, i / width))
        .collect()
}

#[test]
fn parses_a_typical_header() {
    let header: Vec<u8> = b"x = 398, y = 405, rule = B3/S23".to_vec();
    assert_eq!(parse_rle_header_xy(&header), Some((398, 405)));
}

#[test]
fn rejects_headers_without_numbers() {
    let header: Vec<u8> = b"x = , y = 3".to_vec();
    assert_eq!(parse_rle_header_xy(&header), None);
    let header: Vec<u8> = b"y = 3 = x".to_vec();
    assert_eq!(parse_rle_header_xy(&header), None);
}

#[test]
fn decodes_a_centered_glider() {
    let text = "#C a glider\nx = 3, y = 3, rule = B3/S23\nbob$2bo$3o!\n";
    let grid = decode(text, 9, 9).unwrap();
    // the 3x3 box is centered: its top-left corner lands on (3, 3)
    let mut expected = vec![(4, 3), (5, 4), (3, 5), (4, 5), (5, 5)];
    expected.sort();
    let mut got = live_cells(&grid, 9);
    got.sort();
    assert_eq!(got, expected);
}

#[test]
fn run_counts_expand() {
    let text = "x = 5, y = 1\n5o!";
    let grid = decode(text, 5, 3).unwrap();
    let mut got = live_cells(&grid, 5);
    got.sort();
    assert_eq!(got, vec![(0, 1), (1, 1), (2, 1), (3, 1), (4, 1)]);
}

#[test]
fn bang_ends_the_pattern() {
    let text = "x = 2, y = 2\noo!oo";
    let grid = decode(text, 2, 2).unwrap();
    assert_eq!(live_cells(&grid, 2).len(), 2);
}

#[test]
fn missing_header_is_reported_and_grid_cleared() {
    let mut grid = vec![9u8; 16];
    let text: Vec<u8> = b"#C only comments\nbob$2bo$3o!".to_vec();
    let r = decode_rle_into_centered(&text, &mut grid, 4, 4);
    assert_eq!(r, Err(RleError::MissingHeader));
    assert!(grid.iter().all(|&c| c == 0));
}

#[test]
fn unparsable_header_is_reported() {
    assert_eq!(decode("x = y = \noo!", 4, 4), Err(RleError::InvalidHeader));
}

#[test]
fn oversized_patterns_are_reported() {
    assert_eq!(
        decode("x = 10, y = 10\noo!", 5, 5),
        Err(RleError::PatternTooLarge)
    );
}
