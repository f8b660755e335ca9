use embroidery_engine::design::{Color, ExportStitchType, UnitDesign, UnitStitch};
use embroidery_engine::dst::{
    balanced_ternary, decode_body, decode_3byte, encode_3byte, encode_move, export_dst, write_body, MoveType,
    HEADER_SIZE,
};
use embroidery_engine::pec::{encode_pec_axis, encode_pec_stitch, nearest_pec_color, write_pec_block};
use embroidery_engine::pes::{export_pes, write_s16_le, write_u16_le};

fn st(x: i32, y: i32, t: ExportStitchType) -> UnitStitch {
    UnitStitch::new(x, y, t)
}

/// Positions in 0.1 mm: (0,0), (1mm,0), (2mm,0), (2mm,1mm).
fn simple_design() -> UnitDesign {
    UnitDesign::new(
        "test".to_string(),
        vec![
            st(0, 0, ExportStitchType::Normal),
            st(10, 0, ExportStitchType::Normal),
            st(20, 0, ExportStitchType::Normal),
            st(20, 10, ExportStitchType::Normal),
        ],
        vec![Color::new(255, 0, 0, 255)],
    )
}

fn decode_all(bytes: &[u8]) -> Vec<(i32, i32, MoveType)> {
    bytes.chunks(3).map(|c| decode_3byte(c[0], c[1], c[2])).collect()
}

#[test]
fn test_dst_header_size() {
    let design = simple_design();
    let data = export_dst(&design).unwrap();
    assert!(data.len() >= HEADER_SIZE);
    assert_eq!(&data[..2], b"LA");
}

#[test]
fn test_dst_header_label() {
    let design = simple_design();
    let data = export_dst(&design).unwrap();
    let header = String::from_utf8_lossy(&data[..HEADER_SIZE]);
    assert!(header.starts_with("LA:test"));
}

#[test]
fn test_dst_body_starts_after_header() {
    let design = simple_design();
    let data = export_dst(&design).unwrap();
    assert!(data.len() > HEADER_SIZE);
    let body_len = data.len() - HEADER_SIZE;
    assert_eq!(body_len % 3, 0, "Body length {} is not a multiple of 3", body_len);
}

#[test]
fn test_ternary_encode_decode_zero() {
    let mut buf = Vec::new();
    encode_3byte(0, 0, MoveType::Stitch, &mut buf);
    let (dx, dy, _) = decode_3byte(buf[0], buf[1], buf[2]);
    assert_eq!(dx, 0);
    assert_eq!(dy, 0);
}

#[test]
fn test_ternary_encode_decode_positive() {
    for val in [1, 3, 9, 27, 81, 121, 42, 100] {
        let mut buf = Vec::new();
        encode_3byte(val, val, MoveType::Stitch, &mut buf);
        let (dx, dy, _) = decode_3byte(buf[0], buf[1], buf[2]);
        assert_eq!(dx, val, "X encode/decode mismatch for {val}");
        assert_eq!(dy, val, "Y encode/decode mismatch for {val}");
    }
}

#[test]
fn test_ternary_encode_decode_negative() {
    for val in [-1, -3, -9, -27, -81, -121, -42, -100] {
        let mut buf = Vec::new();
        encode_3byte(val, val, MoveType::Stitch, &mut buf);
        let (dx, dy, _) = decode_3byte(buf[0], buf[1], buf[2]);
        assert_eq!(dx, val, "X encode/decode mismatch for {val}");
        assert_eq!(dy, val, "Y encode/decode mismatch for {val}");
    }
}

#[test]
fn test_ternary_encode_decode_mixed() {
    let mut buf = Vec::new();
    encode_3byte(50, -30, MoveType::Jump, &mut buf);
    let (dx, dy, _) = decode_3byte(buf[0], buf[1], buf[2]);
    assert_eq!(dx, 50);
    assert_eq!(dy, -30);
}

#[test]
fn test_large_move_splitting() {
    let mut buf = Vec::new();
    encode_move(200, 150, MoveType::Stitch, &mut buf);
    assert!(buf.len() > 3, "Large move should produce multiple commands");
    assert_eq!(buf.len() % 3, 0);
    let mut total_dx = 0;
    let mut total_dy = 0;
    for chunk in buf.chunks(3) {
        let (dx, dy, _) = decode_3byte(chunk[0], chunk[1], chunk[2]);
        total_dx += dx;
        total_dy += dy;
    }
    assert_eq!(total_dx, 200);
    assert_eq!(total_dy, 150);
}

#[test]
fn test_dst_end_marker() {
    let design = simple_design();
    let data = export_dst(&design).unwrap();
    let body = &data[HEADER_SIZE..];
    let end = &body[body.len() - 3..];
    assert_eq!(end, &[0x00, 0x00, 0xF3]);
}

#[test]
fn test_dst_color_change() {
    let design = UnitDesign::new(
        "colors".to_string(),
        vec![
            st(0, 0, ExportStitchType::Normal),
            st(10, 0, ExportStitchType::Normal),
            st(10, 0, ExportStitchType::ColorChange),
            st(20, 0, ExportStitchType::Normal),
        ],
        vec![Color::new(255, 0, 0, 255), Color::new(0, 0, 255, 255)],
    );
    let data = export_dst(&design).unwrap();
    assert!(data.len() > HEADER_SIZE);
}

#[test]
fn test_dst_empty_design() {
    let design = UnitDesign::new("empty".to_string(), vec![], vec![]);
    let data = export_dst(&design).unwrap();
    assert!(data.len() >= HEADER_SIZE + 3);
}

#[test]
fn test_nearest_pec_color_black() {
    let idx = nearest_pec_color(0, 0, 0);
    assert_eq!(idx, 20);
}

#[test]
fn test_nearest_pec_color_white() {
    let idx = nearest_pec_color(255, 255, 255);
    assert_eq!(idx, 29);
}

#[test]
fn test_nearest_pec_color_red() {
    let idx = nearest_pec_color(255, 0, 0);
    assert_eq!(idx, 5);
}

#[test]
fn test_pec_block_not_empty() {
    let design = UnitDesign::new(
        "test".to_string(),
        vec![st(0, 0, ExportStitchType::Normal), st(10, 0, ExportStitchType::Normal)],
        vec![Color::new(255, 0, 0, 255)],
    );
    let pec = write_pec_block(&design);
    assert!(!pec.is_empty());
    assert_eq!(&pec[..3], b"LA:");
}

#[test]
fn test_pec_stitch_encoding_small() {
    let mut data = Vec::new();
    encode_pec_stitch(5, -3, false, &mut data);
    assert_eq!(data.len(), 2);
}

#[test]
fn test_pec_stitch_encoding_large() {
    let mut data = Vec::new();
    encode_pec_stitch(500, -200, false, &mut data);
    assert_eq!(data.len(), 4);
}

#[test]
fn test_pec_end_marker() {
    let design = UnitDesign::new(
        "test".to_string(),
        vec![st(0, 0, ExportStitchType::Normal)],
        vec![Color::new(0, 0, 0, 255)],
    );
    let pec = write_pec_block(&design);
    assert_eq!(*pec.last().unwrap(), 0xFF);
}

#[test]
fn test_pes_header_magic() {
    let design = simple_design();
    let data = export_pes(&design).unwrap();
    assert_eq!(&data[..8], b"#PES0001");
}

#[test]
fn test_pes_pec_offset_valid() {
    let design = simple_design();
    let data = export_pes(&design).unwrap();
    let offset = data[8] as u32
        | (data[9] as u32) << 8
        | (data[10] as u32) << 16
        | (data[11] as u32) << 24;
    assert!(
        (offset as usize) < data.len(),
        "PEC offset {offset} should be within file length {}",
        data.len()
    );
    let pec_start = offset as usize;
    assert_eq!(&data[pec_start..pec_start + 3], b"LA:", "PEC block should start with LA:");
}

#[test]
fn test_pes_not_empty() {
    let design = simple_design();
    let data = export_pes(&design).unwrap();
    assert!(data.len() > 12, "PES file should have content beyond header");
}

#[test]
fn test_pes_with_color_changes() {
    let design = UnitDesign::new(
        "multi".to_string(),
        vec![
            st(0, 0, ExportStitchType::Normal),
            st(10, 0, ExportStitchType::Normal),
            st(10, 0, ExportStitchType::ColorChange),
            st(20, 0, ExportStitchType::Normal),
            st(30, 0, ExportStitchType::Normal),
        ],
        vec![Color::new(255, 0, 0, 255), Color::new(0, 0, 255, 255)],
    );
    let data = export_pes(&design).unwrap();
    assert_eq!(&data[..8], b"#PES0001");
}

#[test]
fn test_pes_empty_design() {
    let design = UnitDesign::new("empty".to_string(), vec![], vec![]);
    let data = export_pes(&design).unwrap();
    assert_eq!(&data[..8], b"#PES0001");
}

#[test]
fn test_pes_pec_has_end_marker() {
    let design = simple_design();
    let data = export_pes(&design).unwrap();
    assert_eq!(*data.last().unwrap(), 0xFF);
}

#[test]
fn test_pes_rejects_stitch_count_overflow() {
    let count = u16::MAX as usize + 1;
    // 0.01 mm steps, rounded to 0.1 mm units, keep coordinates small.
    let stitches: Vec<UnitStitch> = (0..count)
        .map(|i| st(((i as f64) * 0.1).round() as i32, 0, ExportStitchType::Normal))
        .collect();
    let design = UnitDesign::new("overflow".to_string(), stitches, vec![Color::new(0, 0, 0, 255)]);
    let result = export_pes(&design);
    assert!(result.is_err());
    assert!(result.unwrap_err().contains("65535"));
}

#[test]
fn test_pes_rejects_coordinate_overflow() {
    let design = UnitDesign::new(
        "huge".to_string(),
        vec![st(0, 0, ExportStitchType::Normal), st(40000, 0, ExportStitchType::Normal)],
        vec![Color::new(0, 0, 0, 255)],
    );
    let result = export_pes(&design);
    assert!(result.is_err());
    assert!(result.unwrap_err().contains("coordinate range"));
}

// ---- further cases ----

#[test]
fn balanced_ternary_digits_of_known_values() {
    assert_eq!(balanced_ternary(0), [0, 0, 0, 0, 0]);
    assert_eq!(balanced_ternary(2), [-1, 1, 0, 0, 0]);
    assert_eq!(balanced_ternary(121), [1, 1, 1, 1, 1]);
    assert_eq!(balanced_ternary(-121), [-1, -1, -1, -1, -1]);
    assert_eq!(balanced_ternary(50), [-1, -1, 0, -1, 1]);
}

#[test]
fn encode_3byte_exact_bytes() {
    let mut buf = Vec::new();
    encode_3byte(1, 1, MoveType::Stitch, &mut buf);
    assert_eq!(buf, vec![0x84, 0x00, 0x03]);
    let mut buf = Vec::new();
    encode_3byte(0, 0, MoveType::Jump, &mut buf);
    assert_eq!(buf, vec![0x00, 0x00, 0x83]);
    let mut buf = Vec::new();
    encode_3byte(81, -81, MoveType::ColorChange, &mut buf);
    assert_eq!(buf, vec![0x00, 0x00, 0xC3 | 0x10 | 0x04]);
}

#[test]
fn record_round_trip_all_deltas_and_types() {
    for t in [MoveType::Stitch, MoveType::Jump, MoveType::ColorChange] {
        for dx in -121..=121 {
            for dy in [-121, -40, -1, 0, 1, 13, 121] {
                let mut buf = Vec::new();
                encode_3byte(dx, dy, t, &mut buf);
                assert_eq!(decode_3byte(buf[0], buf[1], buf[2]), (dx, dy, t));
            }
        }
    }
}

#[test]
fn encode_move_chunks_are_jumps_then_type() {
    let mut buf = Vec::new();
    encode_move(-300, 10, MoveType::Stitch, &mut buf);
    let recs = decode_all(&buf);
    assert_eq!(recs.len(), 3);
    assert_eq!(recs[0], (-121, 10, MoveType::Jump));
    assert_eq!(recs[1], (-121, 0, MoveType::Jump));
    assert_eq!(recs[2], (-58, 0, MoveType::Stitch));
}

#[test]
fn dst_trim_expands_to_three_jumps() {
    let design = UnitDesign::new(
        "t".to_string(),
        vec![st(5, 5, ExportStitchType::Trim)],
        vec![],
    );
    let mut body = Vec::new();
    write_body(&design, &mut body);
    let recs = decode_all(&body);
    assert_eq!(recs.len(), 5);
    assert_eq!(recs[0], (1, 1, MoveType::Jump));
    assert_eq!(recs[1], (-2, -2, MoveType::Jump));
    assert_eq!(recs[2], (1, 1, MoveType::Jump));
    assert_eq!(recs[3], (5, 5, MoveType::Jump));
    assert_eq!(&body[12..], &[0x00, 0x00, 0xF3]);
}

#[test]
fn dst_end_not_doubled() {
    let design = UnitDesign::new(
        "e".to_string(),
        vec![st(0, 0, ExportStitchType::Normal), st(0, 0, ExportStitchType::End)],
        vec![],
    );
    let mut body = Vec::new();
    write_body(&design, &mut body);
    assert_eq!(body.len(), 6);
    assert_eq!(&body[3..], &[0x00, 0x00, 0xF3]);
}

#[test]
fn dst_round_trip_scenario() {
    // (0,0) N -> (10mm,0) N -> (10mm,0) Trim -> (30mm,0) ColorChange -> End
    let design = UnitDesign::new(
        "roundtrip".to_string(),
        vec![
            st(0, 0, ExportStitchType::Normal),
            st(100, 0, ExportStitchType::Normal),
            st(100, 0, ExportStitchType::Trim),
            st(300, 0, ExportStitchType::ColorChange),
            st(300, 0, ExportStitchType::End),
        ],
        vec![Color::new(255, 0, 0, 255), Color::new(0, 0, 255, 255)],
    );
    let data = export_dst(&design).unwrap();
    assert_eq!(&data[..20], b"LA:roundtrip       \r");
    let header = String::from_utf8_lossy(&data[..HEADER_SIZE]).to_string();
    assert!(header.contains("ST:0000005\rCO:001\r+X:00300\r-X:00000\r+Y:00000\r-Y:00000\r"));
    assert!(header.contains("AX:+    0\rAY:+    0\rMX:+    0\rMY:+    0\rPD:******\r"));
    assert_eq!(data.len() % 3, HEADER_SIZE % 3);
    assert_eq!(&data[data.len() - 3..], &[0x00, 0x00, 0xF3]);
    let recs = decode_all(&data[HEADER_SIZE..data.len() - 3]);
    let sx: i32 = recs.iter().map(|r| r.0).sum();
    let sy: i32 = recs.iter().map(|r| r.1).sum();
    assert_eq!((sx, sy), (300, 0));
    assert_eq!(recs.iter().filter(|r| r.2 == MoveType::ColorChange).count(), 1);
}

#[test]
fn dst_header_negative_extents_and_long_name() {
    let design = UnitDesign::new(
        "abcdefghijklmnopqrstuvwxyz".to_string(),
        vec![st(-12, -345, ExportStitchType::Normal), st(7, 20, ExportStitchType::Normal)],
        vec![],
    );
    let data = export_dst(&design).unwrap();
    let header = String::from_utf8_lossy(&data[..HEADER_SIZE]).to_string();
    assert!(header.starts_with("LA:abcdefghijklmnop\rST:0000002\rCO:000\r"));
    assert!(header.contains("+X:00007\r-X:00012\r+Y:00020\r-Y:00345\r"));
    assert!(header[..].ends_with(' '));
    assert_eq!(data.len(), HEADER_SIZE + 21 + 3);
}

#[test]
fn dst_header_negative_maximum_keeps_sign() {
    let design = UnitDesign::new(
        "n".to_string(),
        vec![st(-12, -5, ExportStitchType::Normal)],
        vec![],
    );
    let data = export_dst(&design).unwrap();
    let header = String::from_utf8_lossy(&data[..HEADER_SIZE]).to_string();
    assert!(header.contains("+X:-0012\r-X:00012\r+Y:-0005\r-Y:00005\r"));
}

#[test]
fn pec_axis_exact_bytes() {
    let mut v = Vec::new();
    encode_pec_axis(-3, false, &mut v);
    assert_eq!(v, vec![125]);
    let mut v = Vec::new();
    encode_pec_axis(63, false, &mut v);
    assert_eq!(v, vec![63]);
    let mut v = Vec::new();
    encode_pec_axis(64, false, &mut v);
    assert_eq!(v, vec![0x80, 0x40]);
    let mut v = Vec::new();
    encode_pec_axis(500, true, &mut v);
    assert_eq!(v, vec![0x91, 0xF4]);
    let mut v = Vec::new();
    encode_pec_axis(-200, false, &mut v);
    assert_eq!(v, vec![0x8F, 0x38]);
    let mut v = Vec::new();
    encode_pec_axis(5000, false, &mut v);
    assert_eq!(v, vec![0x87, 0xFF]);
    let mut v = Vec::new();
    encode_pec_axis(-5000, false, &mut v);
    assert_eq!(v, vec![0x88, 0x00]);
    let mut v = Vec::new();
    encode_pec_axis(0, true, &mut v);
    assert_eq!(v, vec![0x90, 0x00]);
}

#[test]
fn pec_block_layout() {
    let design = UnitDesign::new(
        "abc".to_string(),
        vec![
            st(10, 0, ExportStitchType::Normal),
            st(10, 0, ExportStitchType::ColorChange),
            st(10, 5, ExportStitchType::Jump),
        ],
        vec![Color::new(255, 255, 255, 255)],
    );
    let pec = write_pec_block(&design);
    assert_eq!(&pec[..20], b"LA:abc             \r");
    assert_eq!(&pec[20..32], &[0x20; 12]);
    assert_eq!(pec[32], 1);
    assert_eq!(pec[33], 29);
    assert_eq!(pec[34], 20);
    assert!(pec[35..463].iter().all(|b| *b == 0x20));
    assert_eq!(&pec[463..], &[10, 0, 0xFE, 0xB0, 0x90, 0x00, 0x90, 0x05, 0xFF]);
}

#[test]
fn pes_layout_exact_fields() {
    let design = simple_design();
    let data = export_pes(&design).unwrap();
    assert_eq!(&data[12..18], &[1, 0, 1, 0, 1, 0]);
    // extents (0, 0, 20, 10) twice
    assert_eq!(&data[18..26], &[0, 0, 0, 0, 20, 0, 10, 0]);
    assert_eq!(&data[26..34], &[0, 0, 0, 0, 20, 0, 10, 0]);
    let mut affine = Vec::new();
    for f in [1.0f32, 0.0, 0.0, 1.0, 0.0, 0.0] {
        affine.extend_from_slice(&f.to_le_bytes());
    }
    assert_eq!(&data[34..58], &affine[..]);
    // one color slot, (block 0, red = 5), four stitches
    assert_eq!(&data[58..66], &[1, 0, 0, 0, 5, 0, 4, 0]);
    assert_eq!(&data[66..82], &[0, 0, 0, 0, 10, 0, 0, 0, 20, 0, 0, 0, 20, 0, 10, 0]);
    let offset = u32::from_le_bytes([data[8], data[9], data[10], data[11]]);
    assert_eq!(offset, 82);
}

#[test]
fn pes_no_colors_writes_black() {
    let design = UnitDesign::new("k".to_string(), vec![st(-1, -2, ExportStitchType::Normal)], vec![]);
    let data = export_pes(&design).unwrap();
    assert_eq!(&data[18..26], &[0xFF, 0xFF, 0xFE, 0xFF, 0xFF, 0xFF, 0xFE, 0xFF]);
    assert_eq!(&data[58..68], &[1, 0, 0, 0, 20, 0, 1, 0, 0xFF, 0xFF]);
}

#[test]
fn pes_overflow_scenario_exact_message() {
    let stitches: Vec<UnitStitch> = (0..65_537).map(|i| st(i % 3, 0, ExportStitchType::Normal)).collect();
    let design = UnitDesign::new("big".to_string(), stitches, vec![]);
    let err = export_pes(&design).unwrap_err();
    assert_eq!(err, "PES format supports at most 65535 stitches, design has 65537");
}

#[test]
fn pes_accepts_the_largest_count() {
    let stitches: Vec<UnitStitch> = (0..65_535).map(|_| st(0, 0, ExportStitchType::Normal)).collect();
    let design = UnitDesign::new("max".to_string(), stitches, vec![]);
    assert!(export_pes(&design).is_ok());
}

#[test]
fn pes_coordinate_message_in_millimeters() {
    let design = UnitDesign::new(
        "huge".to_string(),
        vec![st(-5, 0, ExportStitchType::Normal), st(40000, 32767, ExportStitchType::Normal)],
        vec![],
    );
    assert_eq!(
        export_pes(&design).unwrap_err(),
        "PES format coordinate range is +/-3276.7mm, design extents are (-0.5, 0.0) to (4000.0, 3276.7)"
    );
    let edge = UnitDesign::new(
        "edge".to_string(),
        vec![st(-32767, 32767, ExportStitchType::Normal)],
        vec![],
    );
    assert!(export_pes(&edge).is_ok());
}

#[test]
fn little_endian_writers() {
    let mut v = Vec::new();
    write_u16_le(&mut v, 0x1234);
    write_s16_le(&mut v, -2);
    assert_eq!(v, vec![0x34, 0x12, 0xFE, 0xFF]);
}

#[test]
fn nearest_pec_color_ties_pick_lowest() {
    // (0,0,0) is both entry 0 (reserved) and entry 20; 20 is the first valid one.
    assert_eq!(nearest_pec_color(1, 1, 1), 20);
    assert_eq!(nearest_pec_color(14, 31, 124), 1);
    assert_eq!(nearest_pec_color(255, 200, 200), 64);
    assert_eq!(nearest_pec_color(255, 255, 0), 13);
}

#[test]
fn decode_body_reads_whole_records() {
    let design = UnitDesign::new(
        "d".to_string(),
        vec![st(-5, 130, ExportStitchType::Jump), st(-5, 130, ExportStitchType::ColorChange)],
        vec![],
    );
    let mut body = Vec::new();
    write_body(&design, &mut body);
    body.push(0x00);
    let recs = decode_body(&body);
    assert_eq!(
        recs,
        vec![
            (-5, 121, MoveType::Jump),
            (0, 9, MoveType::Jump),
            (0, 0, MoveType::ColorChange),
            (0, 0, MoveType::ColorChange),
        ]
    );
}

#[test]
fn design_extents_and_color_changes() {
    let empty = UnitDesign::new("e".to_string(), vec![], vec![]);
    assert_eq!(empty.extents(), (0, 0, 0, 0));
    assert_eq!(empty.color_change_count(), 0);
    let design = UnitDesign::new(
        "x".to_string(),
        vec![
            st(3, -4, ExportStitchType::Normal),
            st(-7, 9, ExportStitchType::ColorChange),
            st(1, 1, ExportStitchType::ColorChange),
        ],
        vec![],
    );
    assert_eq!(design.extents(), (-7, -4, 3, 9));
    assert_eq!(design.color_change_count(), 2);
}
