use skyrim_formats::lip::{
    decode_bytes, parse_header, timing_fields, unrle, LipError, FPS, HEADER_SIZE,
    MAX_DECODED_BYTES, PHONEME_SLOT_BASE, SLOTS_PER_FRAME,
};

fn fixture() -> Vec<u8> {
    let mut bytes = Vec::new();
    bytes.extend_from_slice(&1_u32.to_le_bytes());
    bytes.extend_from_slice(&(132_u32 * 2 + 28).to_le_bytes());
    bytes.extend_from_slice(&13_u32.to_le_bytes());
    bytes.extend_from_slice(&2_u16.to_le_bytes());
    bytes.extend_from_slice(&3_u16.to_le_bytes());
    bytes.extend_from_slice(&(-9_i32).to_le_bytes());
    bytes.extend_from_slice(&16_u16.to_le_bytes());
    bytes.extend_from_slice(&111_u16.to_le_bytes());
    let mut raw = vec![0_u8; 39 * 4];
    raw[6 * 4..7 * 4].copy_from_slice(&0.75_f32.to_le_bytes());
    raw[7 * 4..8 * 4].copy_from_slice(&0.25_f32.to_le_bytes());
    bytes.extend_from_slice(&rle(&raw));
    bytes
}

fn rle(raw: &[u8]) -> Vec<u8> {
    let mut out = Vec::new();
    let mut index = 0;
    while index < raw.len() {
        if raw[index] == 0 {
            let start = index;
            while index < raw.len() && raw[index] == 0 {
                index += 1;
            }
            let mut count = index - start;
            while count > 0 {
                let run = count.min(u16::MAX as usize);
                out.push(0);
                out.extend_from_slice(&(run as u16).to_le_bytes());
                count -= run;
            }
        } else {
            out.push(raw[index]);
            index += 1;
        }
    }
    out
}

fn seconds(frames: Option<i128>) -> Option<f32> {
    frames.map(|t| t as f32 / FPS as f32)
}

#[test]
fn decodes_grid_and_viseme_channels() {
    let lip = decode_bytes(&fixture()).unwrap();
    assert_eq!(lip.grid.len(), 2);
    assert_eq!(f32::from_bits(lip.visemes()[0][0]), 0.75);
    assert_eq!(f32::from_bits(lip.visemes()[0][1]), 0.25);
    assert_eq!(seconds(lip.frame_time(0)), Some(-0.3));
}

#[test]
fn repairs_one_byte_timing_header_shift() {
    let standard = fixture();
    let mut shifted = standard[..14].to_vec();
    shifted.push(0);
    shifted.extend_from_slice(&standard[14..]);
    let lip = decode_bytes(&shifted).unwrap();
    assert_eq!(lip.timing_first, Some(-9));
    assert_eq!(lip.payload_offset, HEADER_SIZE + 1);
}

#[test]
fn rejects_truncated_zero_run() {
    let mut bytes = fixture()[..HEADER_SIZE].to_vec();
    bytes.extend_from_slice(&[0, 1]);
    assert!(decode_bytes(&bytes).is_err());
}

#[test]
fn ambiguous_timing_does_not_prevent_curve_decode() {
    let mut bytes = fixture();
    bytes[20..22].copy_from_slice(&0_u16.to_le_bytes());
    let lip = decode_bytes(&bytes).unwrap();
    assert_eq!(lip.timing_first, None);
    assert_eq!(lip.grid.len(), 2);
}

#[test]
fn fixture_header_fields_are_read_little_endian() {
    let header = parse_header(&fixture()).unwrap();
    assert_eq!(header.version, 1);
    assert_eq!(header.gridsize, 292);
    assert_eq!(header.num_curves, 13);
    assert_eq!(header.frames, 2);
    assert_eq!(header.const14, 3);
    assert_eq!(header.first, -9);
    assert_eq!(header.const20, 16);
    assert_eq!(header.u22, 111);
    assert_eq!(parse_header(&fixture()[..23]), Err(LipError::TruncatedHeader));
}

#[test]
fn fixture_grid_layout_places_values_before_the_phoneme_slot() {
    let lip = decode_bytes(&fixture()).unwrap();
    assert_eq!(lip.payload_offset, HEADER_SIZE);
    assert_eq!(lip.payload_float_count, 39);
    assert_eq!(lip.timing_first, Some(-9));
    // 39 values end just before slot 6 of the second row, so they start at
    // slot 0 of the first row.
    assert_eq!(f32::from_bits(lip.grid[0][PHONEME_SLOT_BASE]), 0.75);
    assert_eq!(f32::from_bits(lip.grid[0][PHONEME_SLOT_BASE + 1]), 0.25);
    for row in &lip.grid {
        assert_eq!(row.len(), SLOTS_PER_FRAME);
    }
    let nonzero: usize = lip.grid.iter().flatten().filter(|bits| **bits != 0).count();
    assert_eq!(nonzero, 2);
    assert_eq!(lip.visemes().len(), 2);
    assert_eq!(lip.frame_time(10), Some(1));
}

#[test]
fn short_file_is_too_short() {
    assert_eq!(decode_bytes(&fixture()[..HEADER_SIZE - 1]).unwrap_err(), LipError::TooShort);
    assert_eq!(decode_bytes(&[]).unwrap_err(), LipError::TooShort);
}

#[test]
fn header_without_payload_has_no_plausible_payload() {
    assert_eq!(
        decode_bytes(&fixture()[..HEADER_SIZE]).unwrap_err(),
        LipError::NoPlausiblePayload
    );
}

#[test]
fn implausible_values_are_skipped() {
    // Neither value has a zero byte, so the stream copies its bytes as is.
    let mut bytes = fixture()[..HEADER_SIZE].to_vec();
    bytes.extend_from_slice(&std::f32::consts::PI.to_le_bytes());
    assert_eq!(decode_bytes(&bytes).unwrap_err(), LipError::NoPlausiblePayload);
    let mut bytes = fixture()[..HEADER_SIZE].to_vec();
    bytes.extend_from_slice(&0x7fc0_1234_u32.to_le_bytes());
    assert_eq!(decode_bytes(&bytes).unwrap_err(), LipError::NoPlausiblePayload);
}

#[test]
fn stray_bytes_before_the_payload_are_skipped() {
    // Three stray bytes, then one plausible value: offset 24 decodes to 7
    // bytes, offsets 25 and 26 to 6 and 5, offset 27 to the value.
    let mut bytes = fixture()[..HEADER_SIZE].to_vec();
    bytes.extend_from_slice(&[0x41, 0x42, 0x43]);
    bytes.extend_from_slice(&1.2345_f32.to_le_bytes());
    let lip = decode_bytes(&bytes).unwrap();
    assert_eq!(lip.payload_offset, HEADER_SIZE + 3);
    assert_eq!(lip.payload_float_count, 1);
    assert_eq!(lip.grid.len(), 1);
    assert_eq!(f32::from_bits(lip.grid[0][5]), 1.2345);
}

#[test]
fn unrle_expands_zero_runs_and_copies_other_bytes() {
    assert_eq!(unrle(&[7, 0, 3, 0, 9]).unwrap(), vec![7, 0, 0, 0, 9]);
    assert_eq!(unrle(&[]).unwrap(), Vec::<u8>::new());
    assert_eq!(unrle(&[0, 0, 1]).unwrap().len(), 256);
}

#[test]
fn unrle_errors() {
    assert_eq!(unrle(&[0, 1]).unwrap_err(), LipError::TruncatedZeroRun);
    assert_eq!(unrle(&[0, 0, 0]).unwrap_err(), LipError::EmptyZeroRun);
    let mut big = Vec::new();
    for _ in 0..(MAX_DECODED_BYTES / 0xffff + 1) {
        big.extend_from_slice(&[0, 0xff, 0xff]);
    }
    assert_eq!(unrle(&big).unwrap_err(), LipError::PayloadTooLarge);
}

#[test]
fn unrle_round_trips_the_encoder() {
    let raw: Vec<u8> = (0..2000u32).map(|i| if i % 7 < 3 { 0 } else { (i % 251) as u8 }).collect();
    assert_eq!(unrle(&rle(&raw)).unwrap(), raw);
}

#[test]
fn timing_fields_follow_the_reliable_header() {
    let bytes = fixture();
    let header = parse_header(&bytes).unwrap();
    assert_eq!(timing_fields(&bytes, header), (Some(-9), HEADER_SIZE));
    let mut ambiguous = bytes.clone();
    ambiguous[16..20].copy_from_slice(&(-121_i32).to_le_bytes());
    let header = parse_header(&ambiguous).unwrap();
    assert_eq!(timing_fields(&ambiguous, header), (None, HEADER_SIZE));
}

#[test]
fn stray_byte_law_on_fixture() {
    for stray in [0_u8, 7, 16, 255] {
        let standard = fixture();
        let mut shifted = standard[..14].to_vec();
        shifted.push(stray);
        shifted.extend_from_slice(&standard[14..]);
        let header = parse_header(&shifted).unwrap();
        assert_eq!(timing_fields(&shifted, header), (Some(-9), HEADER_SIZE + 1));
    }
}

#[test]
fn curves_ignore_other_header_bytes_law_on_fixture() {
    let base = decode_bytes(&fixture()).unwrap();
    let mut changed = fixture();
    for i in [0usize, 5, 9, 14, 16, 20, 23] {
        changed[i] ^= 0x5a;
    }
    let other = decode_bytes(&changed).unwrap();
    assert_eq!(base.grid, other.grid);
    assert_eq!(base.payload_offset, other.payload_offset);
    assert_eq!(base.payload_float_count, other.payload_float_count);
}

#[test]
fn plausibility_bits_match_the_float_range() {
    for value in [
        -2.0_f32, 2.0, -0.0, 0.0, 1.999, -2.0000002, 2.0000002, 3.0, f32::INFINITY,
        f32::NEG_INFINITY, f32::NAN, -f32::NAN, f32::MIN_POSITIVE, 1e-40,
    ] {
        let bits = value.to_bits();
        let by_bits = bits % 0x8000_0000 <= 0x4000_0000;
        assert_eq!(by_bits, (-2.0..=2.0).contains(&value), "{value}");
    }
}

#[test]
fn unrle_inverts_the_encoder() {
    let mut long_run = vec![5_u8];
    long_run.extend(std::iter::repeat(0_u8).take(65535 + 65535 + 7));
    long_run.push(9);
    long_run.extend(std::iter::repeat(0_u8).take(3));
    let cases: Vec<Vec<u8>> = vec![
        vec![],
        vec![0],
        vec![1, 2, 3],
        vec![0, 0, 4, 0, 5, 0, 0, 0],
        long_run,
    ];
    for raw in cases {
        let encoded = rle(&raw);
        assert_eq!(unrle(&encoded).unwrap(), raw);
    }
    // The long case needs three packets for its first run.
    assert_eq!(rle(&[0_u8; 65536]), vec![0, 0xff, 0xff, 0, 1, 0]);
}
