use argos::error::FileFormat;
use argos::png::{chunk_crc, IDAT, IEND, IHDR, PNG_SIGNATURE};
use argos::validation::{
    ChunkOrderError, DqtError, Finding, JpegStructuralValidator, MarkerOrderError, PngStructuralValidator,
    RenderingValidator, ValidationContext, ValidationStage,
};
use argos::validation::{stitch_boundary, StitchBoundary};

fn create_minimal_jpeg() -> Vec<u8> {
    vec![
        0xFF, 0xD8, 0xFF, 0xE0, 0x00, 0x10, 0x4A, 0x46, 0x49, 0x46, 0x00, 0x01, 0x01, 0x00, 0x00, 0x01, 0x00,
        0x01, 0x00, 0x00, 0xFF, 0xDB, 0x00, 0x43, 0x00, 0x08, 0x06, 0x06, 0x07, 0x06, 0x05, 0x08, 0x07, 0x07,
        0x07, 0x09, 0x09, 0x08, 0x0A, 0x0C, 0x14, 0x0D, 0x0C, 0x0B, 0x0B, 0x0C, 0x19, 0x12, 0x13, 0x0F, 0x14,
        0x1D, 0x1A, 0x1F, 0x1E, 0x1D, 0x1A, 0x1C, 0x1C, 0x20, 0x24, 0x2E, 0x27, 0x20, 0x22, 0x2C, 0x23, 0x1C,
        0x1C, 0x28, 0x37, 0x29, 0x2C, 0x30, 0x31, 0x34, 0x34, 0x34, 0x1F, 0x27, 0x39, 0x3D, 0x38, 0x32, 0x3C,
        0x2E, 0x33, 0x34, 0x32, 0xFF, 0xC0, 0x00, 0x0B, 0x08, 0x00, 0x01, 0x00, 0x01, 0x01, 0x01, 0x11, 0x00,
        0xFF, 0xC4, 0x00, 0x1F, 0x00, 0x00, 0x01, 0x05, 0x01, 0x01, 0x01, 0x01, 0x01, 0x01, 0x00, 0x00, 0x00,
        0x00, 0x00, 0x00, 0x00, 0x00, 0x01, 0x02, 0x03, 0x04, 0x05, 0x06, 0x07, 0x08, 0x09, 0x0A, 0x0B, 0xFF,
        0xC4, 0x00, 0xB5, 0x10, 0x00, 0x02, 0x01, 0x03, 0x03, 0x02, 0x04, 0x03, 0x05, 0x05, 0x04, 0x04, 0x00,
        0x00, 0x01, 0x7D, 0x01, 0x02, 0x03, 0x00, 0x04, 0x11, 0x05, 0x12, 0x21, 0x31, 0x41, 0x06, 0x13, 0x51,
        0x61, 0x07, 0x22, 0x71, 0x14, 0x32, 0x81, 0x91, 0xA1, 0x08, 0x23, 0x42, 0xB1, 0xC1, 0x15, 0x52, 0xD1,
        0xF0, 0x24, 0x33, 0x62, 0x72, 0x82, 0x09, 0x0A, 0x16, 0x17, 0x18, 0x19, 0x1A, 0x25, 0x26, 0x27, 0x28,
        0x29, 0x2A, 0x34, 0x35, 0x36, 0x37, 0x38, 0x39, 0x3A, 0x43, 0x44, 0x45, 0x46, 0x47, 0x48, 0x49, 0x4A,
        0x53, 0x54, 0x55, 0x56, 0x57, 0x58, 0x59, 0x5A, 0x63, 0x64, 0x65, 0x66, 0x67, 0x68, 0x69, 0x6A, 0x73,
        0x74, 0x75, 0x76, 0x77, 0x78, 0x79, 0x7A, 0x83, 0x84, 0x85, 0x86, 0x87, 0x88, 0x89, 0x8A, 0x92, 0x93,
        0x94, 0x95, 0x96, 0x97, 0x98, 0x99, 0x9A, 0xA2, 0xA3, 0xA4, 0xA5, 0xA6, 0xA7, 0xA8, 0xA9, 0xAA, 0xB2,
        0xB3, 0xB4, 0xB5, 0xB6, 0xB7, 0xB8, 0xB9, 0xBA, 0xC2, 0xC3, 0xC4, 0xC5, 0xC6, 0xC7, 0xC8, 0xC9, 0xCA,
        0xD2, 0xD3, 0xD4, 0xD5, 0xD6, 0xD7, 0xD8, 0xD9, 0xDA, 0xE1, 0xE2, 0xE3, 0xE4, 0xE5, 0xE6, 0xE7, 0xE8,
        0xE9, 0xEA, 0xF1, 0xF2, 0xF3, 0xF4, 0xF5, 0xF6, 0xF7, 0xF8, 0xF9, 0xFA, 0xFF, 0xDA, 0x00, 0x08, 0x01,
        0x01, 0x00, 0x00, 0x3F, 0x00, 0xFB, 0xD5, 0xDB, 0x20, 0xA8, 0xF1, 0xD3, 0xFC, 0xBF, 0xFF, 0xD9,
    ]
}

fn create_garbage(size: usize, seed: u8) -> Vec<u8> {
    let mut data = Vec::with_capacity(size);
    let mut state = seed as u32;
    for _ in 0..size {
        state = state.wrapping_mul(1103515245).wrapping_add(12345);
        data.push((state >> 16) as u8);
    }
    data
}

fn create_valid_png() -> Vec<u8> {
    let mut data = Vec::new();
    data.extend_from_slice(&PNG_SIGNATURE);
    let ihdr_data = [0x00, 0x00, 0x00, 0x01, 0x00, 0x00, 0x00, 0x01, 0x08, 0x00, 0x00, 0x00, 0x00];
    data.extend_from_slice(&13u32.to_be_bytes());
    data.extend_from_slice(&IHDR);
    data.extend_from_slice(&ihdr_data);
    data.extend_from_slice(&chunk_crc(&IHDR, &ihdr_data).to_be_bytes());
    let idat_data = [0x78, 0x9C, 0x63, 0x60, 0x00, 0x00, 0x00, 0x02, 0x00, 0x01];
    data.extend_from_slice(&(idat_data.len() as u32).to_be_bytes());
    data.extend_from_slice(&IDAT);
    data.extend_from_slice(&idat_data);
    data.extend_from_slice(&chunk_crc(&IDAT, &idat_data).to_be_bytes());
    data.extend_from_slice(&0u32.to_be_bytes());
    data.extend_from_slice(&IEND);
    data.extend_from_slice(&chunk_crc(&IEND, &[]).to_be_bytes());
    data
}

fn jpeg_ctx() -> ValidationContext {
    ValidationContext { format: FileFormat::Jpeg, ..Default::default() }
}

#[test]
fn test_jpeg_structural_validator_valid() {
    let validator = JpegStructuralValidator::new();
    let jpeg = create_minimal_jpeg();
    let result = validator.validate(&jpeg, &jpeg_ctx());
    assert!(result.passed, "Valid JPEG should pass structural validation: {:?}", result.details);
    assert!(result.confidence_pct > 50, "Confidence should be reasonable");
}

#[test]
fn test_jpeg_structural_validator_invalid() {
    let validator = JpegStructuralValidator::new();
    let garbage = create_garbage(1000, 42);
    let result = validator.validate(&garbage, &jpeg_ctx());
    assert!(!result.passed, "Random data should fail structural validation");
}

#[test]
fn test_jpeg_marker_extraction() {
    let data = vec![0xFF, 0xD8, 0xFF, 0xE0, 0x00, 0x10, 0xFF, 0xDB, 0x00, 0x43];
    let markers = JpegStructuralValidator::extract_markers(&data);
    assert_eq!(markers.len(), 3);
    assert_eq!(markers[0], (0, 0xD8));
    assert_eq!(markers[1], (2, 0xE0));
    assert_eq!(markers[2], (6, 0xDB));
}

#[test]
fn marker_order_errors_name_what_is_wrong() {
    assert_eq!(JpegStructuralValidator::validate_marker_order(&[]), Err(MarkerOrderError::NoMarkers));
    assert_eq!(
        JpegStructuralValidator::validate_marker_order(&[(0, 0xE0)]),
        Err(MarkerOrderError::FirstNotSoi(0xE0))
    );
    assert_eq!(
        JpegStructuralValidator::validate_marker_order(&[(0, 0xD8), (2, 0xDA)]),
        Err(MarkerOrderError::SosBeforeSof)
    );
    assert_eq!(
        JpegStructuralValidator::validate_marker_order(&[(0, 0xD8), (2, 0xDB), (10, 0xC0), (20, 0xDA), (30, 0xC2)]),
        Err(MarkerOrderError::SofAfterSos(30))
    );
    assert_eq!(
        JpegStructuralValidator::validate_marker_order(&[(0, 0xD8), (2, 0xDB), (10, 0xC0), (20, 0xDA)]),
        Ok(())
    );
    assert_eq!(
        JpegStructuralValidator::validate_marker_order(&[(0, 0xD8), (10, 0xC0), (20, 0xDA)]),
        Err(MarkerOrderError::NoDqt)
    );
}

#[test]
fn dqt_tables_are_counted_and_checked() {
    let jpeg = create_minimal_jpeg();
    assert_eq!(JpegStructuralValidator::validate_dqt(&jpeg), Ok(vec![0]));
    let mut bad = jpeg.clone();
    bad[24] = 0x05;
    assert_eq!(JpegStructuralValidator::validate_dqt(&bad), Err(DqtError::InvalidTableId(5)));
}

#[test]
fn jpeg_stage_does_not_apply_to_png() {
    let validator = JpegStructuralValidator::new();
    let ctx = ValidationContext { format: FileFormat::Png, ..Default::default() };
    let result = validator.validate(&create_minimal_jpeg(), &ctx);
    assert!(result.passed);
    assert!(result.details.contains(&Finding::NotApplicable(FileFormat::Jpeg)));
    assert_eq!(validator.name(), "jpeg_structural");
    assert!(validator.is_required());
}

#[test]
fn png_chunks_are_listed_by_name() {
    let names = PngStructuralValidator::validate_chunks(&create_valid_png()).expect("valid order");
    assert_eq!(names, vec!["IHDR".to_string(), "IDAT".to_string(), "IEND".to_string()]);
}

#[test]
fn png_chunk_order_errors() {
    assert_eq!(PngStructuralValidator::validate_chunks(&[0x89, 0x50]), Err(ChunkOrderError::TooShort));
    assert_eq!(PngStructuralValidator::validate_chunks(&[0u8; 16]), Err(ChunkOrderError::BadSignature));
    let mut only_header = create_valid_png();
    only_header.truncate(33);
    assert_eq!(PngStructuralValidator::validate_chunks(&only_header), Err(ChunkOrderError::NoIdat));
}

#[test]
fn png_structural_stage_passes_a_valid_png() {
    let validator = PngStructuralValidator::new();
    let ctx = ValidationContext { format: FileFormat::Png, ..Default::default() };
    let result = validator.validate(&create_valid_png(), &ctx);
    assert!(result.passed);
    assert_eq!(validator.name(), "png_structural");
}

#[test]
fn test_rendering_validator_valid_jpeg() {
    let validator = RenderingValidator::new();
    let jpeg = create_minimal_jpeg();
    let result = validator.validate(&jpeg, &jpeg_ctx());
    println!(
        "RenderingValidator JPEG: passed={}, confidence={}, details={:?}",
        result.passed, result.confidence_pct, result.details
    );
}

#[test]
fn test_rendering_validator_invalid_data() {
    let validator = RenderingValidator::new();
    let garbage = create_garbage(1000, 42);
    let result = validator.validate(&garbage, &jpeg_ctx());
    assert!(!result.passed, "Random data should fail rendering validation");
}

#[test]
fn rendering_decodes_a_small_png_and_reports_its_size() {
    let validator = RenderingValidator::new();
    let ctx = ValidationContext { format: FileFormat::Png, ..Default::default() };
    let result = validator.validate(&create_valid_png(), &ctx);
    assert!(result.passed, "{:?}", result.details);
    assert!(result.details.contains(&Finding::Decoded(true, 1, 1)));
}

#[test]
fn rendering_refuses_oversized_input_before_decoding() {
    let validator = RenderingValidator::with_limits(100, 10);
    let result = validator.validate(&create_minimal_jpeg(), &jpeg_ctx());
    assert!(!result.passed);
    assert!(result.details.contains(&Finding::TooLargeToRender(create_minimal_jpeg().len(), 10)));
}

#[test]
fn decode_verdicts_follow_the_dimension_limit() {
    let validator = RenderingValidator::with_limits(100, 1000);
    let ok = validator.judge_decoded(Ok((100, 1)), false);
    assert!(ok.passed);
    assert_eq!(ok.confidence_pct, 98);
    assert_eq!(ok.details, vec![Finding::Decoded(false, 100, 1)]);
    let wide = validator.judge_decoded(Ok((101, 1)), true);
    assert!(!wide.passed);
    assert_eq!(wide.details, vec![Finding::DimensionsTooLarge(101, 1, 100)]);
    let flat = validator.judge_decoded(Ok((0, 5)), true);
    assert_eq!(flat.details, vec![Finding::ZeroDimensions]);
    let broken = validator.judge_decoded(Err("bad huffman code".to_string()), false);
    assert!(!broken.passed);
    assert_eq!(broken.details, vec![Finding::DecodeFailed(false, "bad huffman code".to_string())]);
}

#[test]
fn the_bytes_at_a_join_tell_a_wrong_stitch_point() {
    assert_eq!(stitch_boundary(&[0x12], &[0xFF, 0xC4, 0x00]), StitchBoundary::WrongStitchPoint(0xC4));
    assert_eq!(stitch_boundary(&[0xFF], &[0xFF, 0xD3]), StitchBoundary::InvalidSequence(0xFF));
    assert_eq!(stitch_boundary(&[0x12, 0xFF], &[0x34]), StitchBoundary::InvalidSequence(0x34));
    assert_eq!(stitch_boundary(&[0x12, 0xFF], &[0x00, 0x34]), StitchBoundary::Clean);
    assert_eq!(stitch_boundary(&[0x12, 0xFF], &[0xD5]), StitchBoundary::Clean);
    assert_eq!(stitch_boundary(&[], &[]), StitchBoundary::Clean);
}

#[test]
fn marker_order_faults_read_as_sentences() {
    assert_eq!(MarkerOrderError::NoMarkers.message(), "No markers found");
    assert_eq!(MarkerOrderError::FirstNotSoi(0x00).message(), "First marker is 0x00, expected SOI (0xD8)");
    assert_eq!(MarkerOrderError::FirstNotSoi(0xE1).message(), "First marker is 0xE1, expected SOI (0xD8)");
    assert_eq!(MarkerOrderError::SofAfterSos(0x1a).message(), "SOF marker at offset 0x1a after SOS");
    assert_eq!(MarkerOrderError::SofAfterSos(0).message(), "SOF marker at offset 0x0 after SOS");
    assert_eq!(MarkerOrderError::NoDqt.message(), "No DQT marker found");
}

#[test]
fn dqt_and_chunk_faults_read_as_sentences() {
    assert_eq!(DqtError::BeyondData(0x2f0).message(), "DQT at offset 0x2f0 extends beyond data");
    assert_eq!(DqtError::InvalidTableId(7).message(), "Invalid DQT table ID: 7");
    assert_eq!(DqtError::Truncated.message(), "DQT table truncated");
    assert_eq!(ChunkOrderError::IhdrLength(12).message(), "IHDR length 12 != 13");
    assert_eq!(ChunkOrderError::IhdrNotFirst.message(), "IHDR must be first chunk");
    assert_eq!(ChunkOrderError::NoIdat.message(), "No IDAT chunk found");
}

#[test]
fn findings_read_as_sentences() {
    assert_eq!(Finding::NotApplicable(FileFormat::Png).message(), "Not a PNG, skipping PNG validation");
    assert_eq!(
        Finding::InvalidMarkerSequence(MarkerOrderError::NoSos).message(),
        "Invalid marker sequence: No SOS marker found"
    );
    assert_eq!(
        Finding::DqtFailed(DqtError::InvalidTableId(4)).message(),
        "DQT validation failed: Invalid DQT table ID: 4"
    );
    assert_eq!(Finding::DqtTables(2).message(), "Found 2 valid DQT table(s)");
    assert_eq!(Finding::PngStructureValid(3).message(), "Valid PNG structure with 3 chunks");
    assert_eq!(
        Finding::TooLargeToRender(60000000, 52428800).message(),
        "File too large for rendering validation: 60000000 > 52428800 bytes"
    );
    assert_eq!(Finding::DecodeFailed(true, "bad".to_string()).message(), "PNG decode failed: bad");
    assert_eq!(Finding::DecodeFailed(false, "bad".to_string()).message(), "JPEG decode failed: bad");
    assert_eq!(Finding::DimensionsTooLarge(70000, 2, 65535).message(), "Image dimensions 70000x2 exceed maximum 65535");
    assert_eq!(Finding::Decoded(true, 1, 1).message(), "Successfully decoded 1x1 PNG image");
    assert_eq!(Finding::Decoded(false, 640, 480).message(), "Successfully decoded 640x480 image");
}
