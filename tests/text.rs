use packed_grid::{CodecError, Position};

#[test]
fn parse_sixteen_tiles() {
    let p = Position::from_string("16 8 8 4\n4 2 0 0\n2 0 0 0\n0 0 2 0\n").unwrap();
    assert_eq!(
        p.to_list().unwrap(),
        [16, 8, 8, 4, 4, 2, 0, 0, 2, 0, 0, 0, 0, 0, 2, 0]
    );
}

#[test]
fn parse_accepts_any_whitespace_and_plus() {
    let p = Position::from_string("  +2\t0 0 0\r\n0 0 0 0 0 0 0 0 0 0 0\u{a0}131072  ").unwrap();
    assert_eq!(
        p.to_list().unwrap(),
        [2, 0, 0, 0, 0, 0, 0, 0, 0, 0, 0, 0, 0, 0, 0, 131072]
    );
}

#[test]
fn parse_three_tokens_is_malformed() {
    assert_eq!(Position::from_string("2 2 2"), Err(CodecError::MalformedInput));
    assert_eq!(Position::from_string(""), Err(CodecError::MalformedInput));
}

#[test]
fn parse_seventeen_tokens_is_malformed() {
    let s = "0 0 0 0 0 0 0 0 0 0 0 0 0 0 0 0 0";
    assert_eq!(Position::from_string(s), Err(CodecError::MalformedInput));
}

#[test]
fn parse_bad_number_is_malformed() {
    assert_eq!(
        Position::from_string("0 0 x 0 0 0 0 0 0 0 0 0 0 0 0 0"),
        Err(CodecError::MalformedInput)
    );
    assert_eq!(
        Position::from_string("0 -2 0 0 0 0 0 0 0 0 0 0 0 0 0 0"),
        Err(CodecError::MalformedInput)
    );
    assert_eq!(
        Position::from_string("4294967296 0 0 0 0 0 0 0 0 0 0 0 0 0 0 0"),
        Err(CodecError::MalformedInput)
    );
    assert_eq!(
        Position::from_string("+ 0 0 0 0 0 0 0 0 0 0 0 0 0 0 0"),
        Err(CodecError::MalformedInput)
    );
}

#[test]
fn parse_invalid_tile_reports_index() {
    assert_eq!(
        Position::from_string("0 0 0 0 0 3 0 0 0 0 0 0 0 0 0 0"),
        Err(CodecError::InvalidTile { index: 5, value: 3 })
    );
    assert_eq!(
        Position::from_string("0 0 6"),
        Err(CodecError::InvalidTile { index: 2, value: 6 })
    );
}

#[test]
fn print_sample() {
    let p = Position::from_list([16, 8, 8, 4, 4, 2, 0, 0, 2, 0, 0, 0, 0, 0, 2, 0]).unwrap();
    assert_eq!(p.to_string(), "16 8 8 4\n 4 2 0 0\n 2 0 0 0\n 0 0 2 0\n");
}

#[test]
fn print_wide_columns() {
    let p = Position::from_list([
        131072, 2, 0, 0, 0, 1024, 0, 0, 4, 0, 0, 0, 0, 0, 0, 65536,
    ])
    .unwrap();
    assert_eq!(
        p.to_string(),
        "131072    2 0     0\n     0 1024 0     0\n     4    0 0     0\n     0    0 0 65536\n"
    );
    assert_eq!(Position::empty().to_string(), "0 0 0 0\n0 0 0 0\n0 0 0 0\n0 0 0 0\n");
}

#[test]
fn print_then_parse_round_trip() {
    let g = [2, 4, 8, 16, 32, 64, 128, 256, 512, 1024, 2048, 4096, 8192, 0, 0, 2];
    let p = Position::from_list(g).unwrap();
    assert_eq!(Position::from_string(&p.to_string()), Ok(p));
}
