use car_server::grid::{parse_ascii_to_binary, parse_binary_to_ascii, Grid, LoadError};

const MAP: &[u8] =
    b"#..#######\n#..#..#..#\n#..#..#..#\n#..#.....#\n#..#.....#\n#..####..#\n#........#\n##########\n";

#[test]
fn parse_reference_maze() {
    let tiles = parse_ascii_to_binary(MAP, 8, 10).unwrap();
    assert_eq!(tiles.len(), 8);
    for row in &tiles {
        assert_eq!(row.len(), 10);
    }
    assert_eq!(tiles[0][0], 0);
    assert_eq!(tiles[0][1], 1);
    assert_eq!(tiles[0][2], 1);
    assert_eq!(tiles[0][3], 0);
    assert_eq!(tiles[6][8], 1);
    assert_eq!(tiles[7][9], 0);
}

#[test]
fn render_round_trip_reproduces_map() {
    let tiles = parse_ascii_to_binary(MAP, 8, 10).unwrap();
    let rendered = parse_binary_to_ascii(&tiles);
    assert_eq!(rendered, MAP.to_vec());
}

#[test]
fn render_small_grid_exactly() {
    let tiles = vec![vec![1, 0], vec![0, 1]];
    let rendered = parse_binary_to_ascii(&tiles);
    assert_eq!(rendered, b".#\n#.\n".to_vec());
}

#[test]
fn parse_rejects_bad_character() {
    assert_eq!(parse_ascii_to_binary(b".x\n..\n", 2, 2), Err(LoadError));
}

#[test]
fn parse_rejects_short_row() {
    assert_eq!(parse_ascii_to_binary(b".\n..\n", 2, 2), Err(LoadError));
}

#[test]
fn parse_rejects_wrong_line_count() {
    assert_eq!(parse_ascii_to_binary(b"..\n..\n..\n", 2, 2), Err(LoadError));
    assert_eq!(parse_ascii_to_binary(b"..\n", 2, 2), Err(LoadError));
}

#[test]
fn parse_rejects_missing_newline() {
    assert_eq!(parse_ascii_to_binary(b"..\n..", 2, 2), Err(LoadError));
}

#[test]
fn parse_accepts_empty_rejects_garbage() {
    assert!(parse_ascii_to_binary(b"..\n..\n", 2, 2).is_ok());
    assert_eq!(parse_ascii_to_binary(b"", 1, 1), Err(LoadError));
}

#[test]
fn grid_load_and_walkable() {
    let grid = Grid::load(MAP, 8, 10).unwrap();
    assert!(!grid.walkable(0, 0));
    assert!(grid.walkable(1, 0));
    assert!(grid.walkable(8, 6));
    assert!(!grid.walkable(9, 7));
    assert!(!grid.walkable(-1, 0));
    assert!(!grid.walkable(10, 0));
    assert_eq!(grid.render(), MAP.to_vec());
}
