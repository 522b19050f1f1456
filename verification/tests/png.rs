use argos::png::parser::{ChunkType, IhdrData, PngParser, PngStructure};
use argos::png::validator::{PngValidationResult, PngValidator};
use argos::png::{
    chunk_crc, crc32, is_ancillary_chunk, is_critical_chunk, is_safe_to_copy, IDAT, IEND, IHDR, PLTE,
    PNG_SIGNATURE,
};

fn create_valid_png() -> Vec<u8> {
    let mut data = Vec::new();
    data.extend_from_slice(&PNG_SIGNATURE);
    let ihdr_data = [0x00, 0x00, 0x00, 0x10, 0x00, 0x00, 0x00, 0x10, 0x08, 0x02, 0x00, 0x00, 0x00];
    data.extend_from_slice(&(ihdr_data.len() as u32).to_be_bytes());
    data.extend_from_slice(&IHDR);
    data.extend_from_slice(&ihdr_data);
    data.extend_from_slice(&chunk_crc(&IHDR, &ihdr_data).to_be_bytes());
    let idat_data = [0x08, 0xD7, 0x63, 0x60, 0x00, 0x00, 0x00, 0x01, 0x00, 0x01];
    data.extend_from_slice(&(idat_data.len() as u32).to_be_bytes());
    data.extend_from_slice(&IDAT);
    data.extend_from_slice(&idat_data);
    data.extend_from_slice(&chunk_crc(&IDAT, &idat_data).to_be_bytes());
    data.extend_from_slice(&0u32.to_be_bytes());
    data.extend_from_slice(&IEND);
    data.extend_from_slice(&chunk_crc(&IEND, &[]).to_be_bytes());
    data
}

#[test]
fn test_png_signature() {
    assert_eq!(PNG_SIGNATURE, [0x89, 0x50, 0x4E, 0x47, 0x0D, 0x0A, 0x1A, 0x0A]);
}

#[test]
fn test_chunk_type_constants() {
    assert_eq!(&IHDR, b"IHDR");
    assert_eq!(&IDAT, b"IDAT");
    assert_eq!(&IEND, b"IEND");
    assert_eq!(&PLTE, b"PLTE");
}

#[test]
fn test_crc32_empty() {
    assert_eq!(crc32(&[]), 0x00000000);
}

#[test]
fn mod_test_crc32_known_values() {
    assert_eq!(crc32(b"123456789"), 0xCBF43926);
}

#[test]
fn png_test_crc32_known_values() {
    assert_eq!(crc32(b"123456789"), 0xCBF43926);
}

#[test]
fn crc32_of_other_known_inputs() {
    assert_eq!(crc32(b"a"), 0xE8B7BE43);
    assert_eq!(crc32(b"IEND"), 0xAE426082);
}

#[test]
fn test_chunk_crc() {
    let ihdr_data = [0x00, 0x00, 0x00, 0x01, 0x00, 0x00, 0x00, 0x01, 0x08, 0x02, 0x00, 0x00, 0x00];
    let crc = chunk_crc(&IHDR, &ihdr_data);
    assert_ne!(crc, 0);
}

#[test]
fn chunk_crc_covers_type_then_data() {
    let data = [1u8, 2, 3];
    let mut joined = IDAT.to_vec();
    joined.extend_from_slice(&data);
    assert_eq!(chunk_crc(&IDAT, &data), crc32(&joined));
    assert_eq!(chunk_crc(&IEND, &[]), 0xAE426082);
}

#[test]
fn test_is_critical_chunk() {
    assert!(is_critical_chunk(b"IHDR"));
    assert!(is_critical_chunk(b"IDAT"));
    assert!(is_critical_chunk(b"IEND"));
    assert!(is_critical_chunk(b"PLTE"));
    assert!(!is_critical_chunk(b"tEXt"));
    assert!(!is_critical_chunk(b"gAMA"));
}

#[test]
fn test_is_ancillary_chunk() {
    assert!(!is_ancillary_chunk(b"IHDR"));
    assert!(is_ancillary_chunk(b"tEXt"));
    assert!(is_ancillary_chunk(b"gAMA"));
    assert!(is_ancillary_chunk(b"sRGB"));
}

#[test]
fn test_is_safe_to_copy() {
    assert!(is_safe_to_copy(b"tEXt"));
    assert!(!is_safe_to_copy(b"cHRM"));
}

#[test]
fn parser_test_parse_minimal_png() {
    let data = create_valid_png();
    let parser = PngParser::new();
    let structure = parser.parse(&data).unwrap();

    assert_eq!(structure.chunks.len(), 3);
    assert!(structure.ihdr.is_some());
    let ihdr = structure.ihdr.unwrap();
    assert_eq!(ihdr.width, 16);
    assert_eq!(ihdr.height, 16);
    assert_eq!(ihdr.bit_depth, 8);
    assert_eq!(ihdr.color_type, 2);
    assert_eq!(structure.idat_offsets.len(), 1);
    assert!(structure.corruption_point.is_none());
    assert_eq!(structure.invalid_crc_count, 0);
}

#[test]
fn png_test_parse_minimal_png() {
    let data = create_valid_png();
    let structure = PngParser::new().parse(&data).unwrap();
    assert_eq!(structure.chunks.len(), 3);
    assert!(structure.ihdr.is_some());
    assert_eq!(structure.invalid_crc_count, 0);
}

#[test]
fn test_parse_invalid_signature() {
    let parser = PngParser::new();
    let data = vec![0x00; 100];
    assert!(parser.parse(&data).is_err());
}

#[test]
fn test_parse_too_short() {
    let parser = PngParser::new();
    let data = PNG_SIGNATURE.to_vec();
    assert!(parser.parse(&data).is_err());
}

fn valid_ihdr() -> IhdrData {
    IhdrData { width: 100, height: 100, bit_depth: 8, color_type: 2, compression: 0, filter: 0, interlace: 0 }
}

#[test]
fn parser_test_ihdr_validation() {
    let valid = valid_ihdr();
    assert!(valid.is_valid());
    let invalid_width = IhdrData { width: 0, ..valid };
    assert!(!invalid_width.is_valid());
    let invalid_bit_depth = IhdrData { bit_depth: 5, ..valid };
    assert!(!invalid_bit_depth.is_valid());
    let invalid_compression = IhdrData { compression: 1, ..valid };
    assert!(!invalid_compression.is_valid());
}

#[test]
fn png_test_ihdr_validation() {
    let valid = valid_ihdr();
    assert!(valid.is_valid());
    assert!(!IhdrData { width: 0, ..valid }.is_valid());
    assert!(!IhdrData { bit_depth: 5, ..valid }.is_valid());
}

#[test]
fn ihdr_is_read_from_its_thirteen_bytes() {
    let bytes = [0x00, 0x00, 0x01, 0x00, 0x00, 0x00, 0x00, 0x80, 0x10, 0x06, 0x00, 0x00, 0x01];
    let ihdr = IhdrData::from_bytes(&bytes).unwrap();
    assert_eq!(ihdr.width, 256);
    assert_eq!(ihdr.height, 128);
    assert_eq!(ihdr.bit_depth, 16);
    assert_eq!(ihdr.color_type, 6);
    assert_eq!(ihdr.interlace, 1);
    assert!(ihdr.is_valid());
    assert!(IhdrData::from_bytes(&bytes[..12]).is_none());
}

#[test]
fn parser_test_chunk_type_roundtrip() {
    let types = [ChunkType::Ihdr, ChunkType::Idat, ChunkType::Iend, ChunkType::Plte, ChunkType::Other(*b"xxxx")];
    for chunk_type in types {
        let bytes = chunk_type.to_bytes();
        let parsed = ChunkType::from_bytes(&bytes);
        assert_eq!(chunk_type, parsed);
    }
}

#[test]
fn png_test_chunk_type_roundtrip() {
    for ct in [ChunkType::Ihdr, ChunkType::Idat, ChunkType::Iend, ChunkType::Plte] {
        assert_eq!(ct, ChunkType::from_bytes(&ct.to_bytes()));
    }
}

#[test]
fn test_crc_validation() {
    let mut data = create_valid_png();
    let parser = PngParser::new();
    let structure = parser.parse(&data).unwrap();
    assert_eq!(structure.invalid_crc_count, 0);

    data[16] ^= 0xFF;
    let corrupted = parser.parse(&data).unwrap();
    assert!(corrupted.invalid_crc_count > 0);
}

#[test]
fn chunk_offsets_follow_the_layout_of_a_chunk() {
    let data = create_valid_png();
    let structure = PngParser::new().parse(&data).unwrap();
    let ihdr = &structure.chunks[0];
    assert_eq!(ihdr.offset, 8);
    assert_eq!(ihdr.data_offset(), 16);
    assert_eq!(ihdr.crc_offset(), 29);
    assert_eq!(ihdr.total_size(), 25);
    let payload = PngParser::new().extract_chunk_data(&data, ihdr).unwrap();
    assert_eq!(payload, &data[16..29]);
}

#[test]
fn validator_test_validate_valid_png() {
    let data = create_valid_png();
    let validator = PngValidator::new();
    let result = validator.validate(&data);
    assert!(matches!(result, PngValidationResult::Valid(_)));
}

#[test]
fn png_test_validate_valid_png() {
    let data = create_valid_png();
    let result = PngValidator::new().validate(&data);
    assert!(matches!(result, PngValidationResult::Valid(_)));
}

#[test]
fn validator_test_validate_invalid_header() {
    let data = vec![0x00; 100];
    let validator = PngValidator::new();
    let result = validator.validate(&data);
    assert!(matches!(result, PngValidationResult::InvalidHeader));
}

#[test]
fn png_test_validate_invalid_header() {
    let data = vec![0x00; 100];
    let result = PngValidator::new().validate(&data);
    assert!(matches!(result, PngValidationResult::InvalidHeader));
}

#[test]
fn validator_test_validate_truncated() {
    let mut data = create_valid_png();
    data.truncate(data.len() - 12);
    let validator = PngValidator::new();
    let result = validator.validate(&data);
    assert!(matches!(result, PngValidationResult::Truncated { .. }));
}

#[test]
fn png_test_validate_truncated() {
    let mut data = create_valid_png();
    data.truncate(data.len() - 12);
    let result = PngValidator::new().validate(&data);
    assert!(matches!(result, PngValidationResult::Truncated { .. }));
}

#[test]
fn test_validate_crc_error() {
    let mut data = create_valid_png();
    data[16] ^= 0xFF;
    let validator = PngValidator::new();
    let result = validator.validate(&data);
    assert!(matches!(result, PngValidationResult::RecoverableCrcErrors { .. }));
}

#[test]
fn test_result_is_usable() {
    let valid = PngValidationResult::Valid(PngStructure::default());
    assert!(valid.is_usable());

    let recoverable = PngValidationResult::RecoverableCrcErrors { structure: PngStructure::default(), errors: vec![] };
    assert!(recoverable.is_usable());

    let invalid = PngValidationResult::InvalidHeader;
    assert!(!invalid.is_usable());
}

#[test]
fn test_repair_crc_value() {
    let mut data = create_valid_png();
    let validator = PngValidator::new();
    let parser = PngParser::new();

    let structure = parser.parse(&data).unwrap();
    let ihdr_chunk = structure.chunks.iter().find(|c| matches!(c.chunk_type, ChunkType::Ihdr)).unwrap();
    let crc_offset = ihdr_chunk.crc_offset() as usize;
    data[crc_offset] ^= 0xFF;

    let corrupted = parser.parse(&data).unwrap();
    assert!(corrupted.invalid_crc_count > 0);

    let ihdr_chunk_corrupted = corrupted.chunks.iter().find(|c| matches!(c.chunk_type, ChunkType::Ihdr)).unwrap();
    assert!(validator.repair_crc_value(&mut data, ihdr_chunk_corrupted));

    let repaired = parser.parse(&data).unwrap();
    assert_eq!(repaired.invalid_crc_count, 0);
}

#[test]
fn a_single_flipped_data_byte_is_found_and_restored() {
    let original = create_valid_png();
    let mut data = original.clone();
    data[20] ^= 0x40;
    let parser = PngParser::new();
    let corrupted = parser.parse(&data).unwrap();
    let ihdr = corrupted.chunks[0].clone();
    assert!(!ihdr.crc_valid);
    let fixed = PngValidator::new().attempt_crc_repair(&mut data, &ihdr, 1);
    assert_eq!(fixed, Some(4));
    assert_eq!(data, original);
}

#[test]
fn reported_chunks_follow_on_without_gaps() {
    let data = create_valid_png();
    let s = PngParser::new().parse(&data).unwrap();
    assert!(s.chunks.len() >= 3);
    let mut at: u64 = 8;
    for c in &s.chunks {
        assert_eq!(c.offset, at);
        let o = c.offset as usize;
        assert_eq!(u32::from_be_bytes([data[o], data[o + 1], data[o + 2], data[o + 3]]), c.length);
        assert_eq!(&data[o + 4..o + 8], &c.chunk_type_bytes);
        at = c.offset + 12 + c.length as u64;
        assert!(at as usize <= data.len());
    }
    assert_eq!(at as usize, data.len());
}
