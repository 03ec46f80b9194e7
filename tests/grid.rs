use packed_grid::{CodecError, Position};

const SAMPLE: [u32; 16] = [16, 8, 8, 4, 4, 2, 0, 0, 2, 0, 0, 0, 0, 0, 2, 0];

#[test]
fn sample_packs_to_fixed_bytes() {
    let p = Position::from_list(SAMPLE).unwrap();
    let expected: [u8; 16] = [4, 3, 3, 2, 2, 1, 0, 0, 1, 0, 0, 0, 0, 0, 1, 0];
    for row in 0..4 {
        for col in 0..4 {
            assert_eq!(p.exponent_at(row, col), expected[row * 4 + col]);
        }
    }
    assert_eq!(p.0, 0x0000_0102_0203_0304);
    assert_eq!(p.1, 0x0001_0000_0000_0001);
}

#[test]
fn sample_rotated_once_clockwise() {
    let p = Position::from_list(SAMPLE).unwrap();
    let r = p.rotate(1);
    assert_eq!(
        r.to_list().unwrap(),
        [0, 2, 4, 16, 0, 0, 2, 8, 2, 0, 0, 8, 0, 0, 0, 4]
    );
}

#[test]
fn sample_rotated_twice_and_thrice() {
    let p = Position::from_list(SAMPLE).unwrap();
    assert_eq!(
        p.rotate(2).to_list().unwrap(),
        [0, 2, 0, 0, 0, 0, 0, 2, 0, 0, 2, 4, 4, 8, 8, 16]
    );
    assert_eq!(
        p.rotate(3).to_list().unwrap(),
        [4, 0, 0, 0, 8, 0, 0, 2, 8, 2, 0, 0, 16, 4, 2, 0]
    );
}

#[test]
fn rotation_group_laws() {
    let p = Position::from_list(SAMPLE).unwrap();
    assert_eq!(p.rotate(0), p);
    assert_eq!(p.rotate(4), p);
    assert_eq!(p.rotate(-1), p.rotate(3));
    assert_eq!(p.rotate(7), p.rotate(3));
    assert_eq!(p.rotate(-6), p.rotate(2));
    assert_eq!(p.rotate(1).rotate(1), p.rotate(2));
    assert_eq!(p.rotate(1).rotate(1).rotate(1).rotate(1), p);
    assert_eq!(p.rotate(i64::MIN), p);
}

#[test]
fn rotation_keeps_bytes() {
    let p = Position(0x1211_0f0e_0d0c_0b0a, 0xff00_0102_0304_0506);
    let mut before: Vec<u8> = Vec::new();
    for row in 0..4 {
        for col in 0..4 {
            before.push(p.exponent_at(row, col));
        }
    }
    before.sort();
    for n in -5..6 {
        let r = p.rotate(n);
        let mut after: Vec<u8> = Vec::new();
        for row in 0..4 {
            for col in 0..4 {
                after.push(r.exponent_at(row, col));
            }
        }
        after.sort();
        assert_eq!(after, before);
    }
}

#[test]
fn round_trip_sample() {
    let p = Position::from_list(SAMPLE).unwrap();
    assert_eq!(p.to_list().unwrap(), SAMPLE);
    let big = [
        131072, 65536, 2048, 2, 0, 4, 8, 16, 32, 64, 128, 256, 512, 1024, 4096, 8192,
    ];
    assert_eq!(Position::from_list(big).unwrap().to_list().unwrap(), big);
}

#[test]
fn all_zero_grid() {
    let p = Position::from_list([0; 16]).unwrap();
    assert_eq!(p, Position(0, 0));
    assert_eq!(p, Position::empty());
    assert_eq!(Position(0, 0).to_list().unwrap(), [0u32; 16]);
}

#[test]
fn pack_rejects_three() {
    let mut g = SAMPLE;
    g[6] = 3;
    assert_eq!(
        Position::from_list(g),
        Err(CodecError::InvalidTile { index: 6, value: 3 })
    );
}

#[test]
fn pack_reports_first_invalid_cell() {
    let mut g = [0u32; 16];
    g[9] = 262144;
    g[12] = 5;
    assert_eq!(
        Position::from_list(g),
        Err(CodecError::InvalidTile { index: 9, value: 262144 })
    );
}

#[test]
fn unpack_rejects_large_exponent() {
    let p = Position(0, 0x0000_0000_0012_0000);
    assert_eq!(
        p.to_list(),
        Err(CodecError::InvalidExponent { index: 10, exponent: 18 })
    );
    assert_eq!(
        p.validate_position(),
        Err(CodecError::InvalidExponent { index: 10, exponent: 18 })
    );
}

#[test]
fn validate_accepts_packed_grid() {
    assert_eq!(Position::from_list(SAMPLE).unwrap().validate_position(), Ok(()));
    assert_eq!(
        Position(0xff, 0).validate_position(),
        Err(CodecError::InvalidExponent { index: 0, exponent: 255 })
    );
}

#[test]
fn set_and_read_cells() {
    let mut p = Position::empty();
    p.set_tile(2, 3, 1024);
    p.set_exponent(0, 1, 5);
    assert_eq!(p.exponent_at(2, 3), 10);
    assert_eq!(p.tile_at(2, 3), 1024);
    assert_eq!(p.tile_at(0, 1), 32);
    p.set_exponent(2, 3, 1);
    assert_eq!(p.tile_at(2, 3), 2);
    assert_eq!(p.exponent_at(0, 1), 5);
    assert_eq!(p.exponent_at(3, 3), 0);
}
