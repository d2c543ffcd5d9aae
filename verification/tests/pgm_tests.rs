//! The raster importer: round trips, comments, and every failure kind.

use terrain_sim::fixed::SCALE;
use terrain_sim::pgm::{decode_pgm, encode_pgm, PgmError};
use terrain_sim::terrain::Terrain;

fn bytes(s: &str) -> Vec<u8> {
    s.as_bytes().to_vec()
}

#[test]
fn round_trip_known_grid_unit_scaling() {
    // Encode a known 3x2 grid, import it with scaling 1.0 (one SCALE unit
    // per intensity step): the heights reproduce the samples exactly.
    let grid: Vec<i64> = vec![0, 1, 2, 10, 20, 30];
    let mut text = String::from("P2\n3 2\n255\n");
    for (i, v) in grid.iter().enumerate() {
        if i > 0 {
            text.push(' ');
        }
        text.push_str(&format!("{}", v));
    }
    text.push('\n');
    let t = Terrain::from_pgm(bytes(&text), SCALE).unwrap();
    assert_eq!(t.dimensions(), (3, 2));
    let buf = t.export_height_buffer();
    let expected: Vec<i64> = grid.iter().map(|v| v * SCALE).collect();
    assert_eq!(buf, expected);
}

#[test]
fn encoder_and_importer_are_inverse() {
    let samples: Vec<u16> = vec![0, 7, 65535, 1, 200, 199, 42, 9, 10, 11, 12, 13];
    let data = encode_pgm(4, 3, 65535, &samples);
    let t = Terrain::from_pgm(data, SCALE).unwrap();
    assert_eq!(t.dimensions(), (4, 3));
    let expected: Vec<i64> = samples.iter().map(|v| *v as i64 * SCALE).collect();
    assert_eq!(t.export_height_buffer(), expected);
}

#[test]
fn encoder_output_decodes_at_any_scaling() {
    let samples: Vec<u16> = vec![3, 1, 4, 1];
    let data = encode_pgm(2, 2, 9, &samples);
    let t = decode_pgm(&data, -2 * SCALE).unwrap();
    let expected: Vec<i64> = samples.iter().map(|v| *v as i64 * -2 * SCALE).collect();
    assert_eq!(t.export_height_buffer(), expected);
}

#[test]
fn round_trip_larger_grid() {
    let w = 7usize;
    let h = 5usize;
    let mut text = format!("P2\n{} {}\n999\n", w, h);
    let mut expected: Vec<i64> = Vec::new();
    for i in 0..(w * h) {
        let v = (i * 13 % 999) as i64;
        expected.push(v * SCALE);
        text.push_str(&format!("{}\n", v));
    }
    let t = Terrain::from_pgm(bytes(&text), SCALE).unwrap();
    assert_eq!(t.dimensions(), (w, h));
    assert_eq!(t.export_height_buffer(), expected);
}

#[test]
fn scaling_multiplies_each_sample() {
    let t = Terrain::from_pgm(bytes("P2 2 1 10\n3 7"), SCALE / 2).unwrap();
    assert_eq!(t.export_height_buffer(), vec![1_500_000, 3_500_000]);
}

#[test]
fn negative_scaling_flips_heights() {
    let t = Terrain::from_pgm(bytes("P2 2 1 10\n3 7"), -SCALE).unwrap();
    assert_eq!(t.export_height_buffer(), vec![-3_000_000, -7_000_000]);
}

#[test]
fn comments_count_as_whitespace() {
    let text = "P2 # plain raster\n# a full comment line\n2 2 # shape\n255\n1 2\n3 4 # tail\n";
    let t = Terrain::from_pgm(bytes(text), SCALE).unwrap();
    assert_eq!(t.dimensions(), (2, 2));
    assert_eq!(t.export_height_buffer(), vec![SCALE, 2 * SCALE, 3 * SCALE, 4 * SCALE]);
}

#[test]
fn short_row_is_a_decode_failure() {
    // The header declares 3x2 but the last row holds two samples.
    let text = "P2\n3 2\n255\n0 1 2\n10 20\n";
    assert!(Terrain::from_pgm(bytes(text), SCALE).is_none());
    assert!(matches!(decode_pgm(&bytes(text), SCALE), Err(PgmError::MissingSamples)));
}

#[test]
fn extra_samples_are_a_decode_failure() {
    let text = "P2\n2 2\n255\n1 2 3 4 5\n";
    assert!(matches!(decode_pgm(&bytes(text), SCALE), Err(PgmError::TrailingData)));
}

#[test]
fn missing_marker_is_a_decode_failure() {
    assert!(matches!(decode_pgm(&bytes("2 2 255 1 2 3 4"), SCALE), Err(PgmError::BadMagic)));
    assert!(matches!(decode_pgm(&bytes("P5 2 2 255 1 2 3 4"), SCALE), Err(PgmError::BadMagic)));
    assert!(matches!(decode_pgm(&bytes(""), SCALE), Err(PgmError::BadMagic)));
}

#[test]
fn incomplete_header_is_a_decode_failure() {
    assert!(matches!(decode_pgm(&bytes("P2 2 2"), SCALE), Err(PgmError::BadHeader)));
    assert!(matches!(decode_pgm(&bytes("P2"), SCALE), Err(PgmError::BadHeader)));
}

#[test]
fn zero_dimension_is_a_decode_failure() {
    assert!(matches!(decode_pgm(&bytes("P2 0 2 255"), SCALE), Err(PgmError::BadHeader)));
    assert!(matches!(decode_pgm(&bytes("P2 2 0 255"), SCALE), Err(PgmError::BadHeader)));
    assert!(matches!(decode_pgm(&bytes("P2 2 2 0"), SCALE), Err(PgmError::BadHeader)));
}

#[test]
fn non_numeric_token_is_a_decode_failure() {
    assert!(matches!(decode_pgm(&bytes("P2 two 2 255 1 2"), SCALE), Err(PgmError::NonNumeric)));
    assert!(matches!(decode_pgm(&bytes("P2 2 2 255 1 2 x 4"), SCALE), Err(PgmError::NonNumeric)));
    assert!(matches!(decode_pgm(&bytes("P2 2 1 255 -1 2"), SCALE), Err(PgmError::NonNumeric)));
}

#[test]
fn non_ascii_bytes_are_a_decode_failure() {
    let mut data = bytes("P2 1 1 255 ");
    data.push(0xC3);
    data.push(0x28);
    assert!(matches!(decode_pgm(&data, SCALE), Err(PgmError::BadEncoding)));
}

#[test]
fn invalid_utf8_inside_a_comment_is_a_decode_failure() {
    let mut data = bytes("P2 #");
    data.push(0xFF);
    data.extend_from_slice(b"\n1 1 1 0");
    assert!(matches!(decode_pgm(&data, SCALE), Err(PgmError::BadEncoding)));
    assert!(Terrain::from_pgm(data, SCALE).is_none());
}

#[test]
fn non_ascii_comment_text_is_a_decode_failure() {
    // The importer takes ASCII text only, so even well-formed UTF-8 outside
    // ASCII fails, comments included.
    let mut data = bytes("P2 # caf");
    data.push(0xC3);
    data.push(0xA9);
    data.extend_from_slice(b"\n1 1 1 0");
    assert!(matches!(decode_pgm(&data, SCALE), Err(PgmError::BadEncoding)));
}

#[test]
fn sample_over_maximum_is_a_decode_failure() {
    assert!(matches!(decode_pgm(&bytes("P2 2 1 9\n3 10"), SCALE), Err(PgmError::SampleOutOfRange)));
}

#[test]
fn oversized_header_values_are_a_decode_failure() {
    assert!(matches!(decode_pgm(&bytes("P2 4294967296 1 255 1"), SCALE), Err(PgmError::BadHeader)));
    assert!(matches!(decode_pgm(&bytes("P2 1 1 65536 1"), SCALE), Err(PgmError::BadHeader)));
}

#[test]
fn failure_never_builds_a_terrain() {
    assert!(Terrain::from_pgm(bytes("P2 3 2 255 0 1 2 10 20"), SCALE).is_none());
    assert!(Terrain::from_pgm(bytes("nonsense"), SCALE).is_none());
}

#[test]
fn error_messages_name_each_failure() {
    let errors = [
        PgmError::BadMagic,
        PgmError::BadHeader,
        PgmError::NonNumeric,
        PgmError::SampleOutOfRange,
        PgmError::MissingSamples,
        PgmError::TrailingData,
        PgmError::BadEncoding,
    ];
    for e in errors {
        assert!(!e.message().is_empty());
    }
    for i in 0..errors.len() {
        for j in 0..errors.len() {
            if i != j {
                assert_ne!(errors[i].message(), errors[j].message());
            }
        }
    }
}
