use argos::jpeg::huffman::{HuffmanDecoder, HuffmanTable};
use argos::jpeg::parser::{JpegMarker, JpegParser, MarkerType};
use argos::jpeg::restart::{RestartMarkerInfo, RestartMarkerScanner};
use argos::jpeg::boundary::find_boundary;
use argos::jpeg::resync;
use argos::jpeg::validator::{JpegValidator, ValidationResult};
use argos::jpeg::{
    is_app_marker, is_restart_marker, is_sof_marker, is_standalone_marker, quick_validate_header,
    restart_marker_index, APP0, APP1, DHT, DQT, EOI, RST0, RST7, SOF0, SOF2, SOI, SOS,
};

fn create_valid_jpeg() -> Vec<u8> {
    vec![
        0xFF, 0xD8, 0xFF, 0xE0, 0x00, 0x10, 0x4A, 0x46, 0x49, 0x46, 0x00, 0x01, 0x01, 0x00, 0x00,
        0x01, 0x00, 0x01, 0x00, 0x00, 0xFF, 0xDB, 0x00, 0x43, 0x00,
    ]
    .into_iter()
    .chain(vec![0x10; 64])
    .chain(vec![
        0xFF, 0xC0, 0x00, 0x0B, 0x08, 0x00, 0x10, 0x00, 0x10, 0x01, 0x01, 0x11, 0x00, 0xFF, 0xC4,
        0x00, 0x1F, 0x00,
    ])
    .chain(vec![0x00; 28])
    .chain(vec![0xFF, 0xDA, 0x00, 0x08, 0x01, 0x01, 0x00, 0x00, 0x3F, 0x00])
    .chain(vec![0x00; 10])
    .chain(vec![0xFF, 0xD9])
    .collect()
}

fn create_minimal_jpeg() -> Vec<u8> {
    vec![
        0xFF, 0xD8, 0xFF, 0xE0, 0x00, 0x10, 0x4A, 0x46, 0x49, 0x46, 0x00, 0x01, 0x01, 0x00, 0x00,
        0x01, 0x00, 0x01, 0x00, 0x00, 0xFF, 0xDB, 0x00, 0x43,
    ]
    .into_iter()
    .chain(vec![0x00; 64])
    .chain(vec![0x01])
    .chain(vec![
        0xFF, 0xC0, 0x00, 0x0B, 0x08, 0x00, 0x64, 0x00, 0xC8, 0x01, 0x01, 0x11, 0x00, 0xFF, 0xC4,
        0x00, 0x1F,
    ])
    .chain(vec![0x00; 28])
    .chain(vec![0x01])
    .chain(vec![
        0xFF, 0xDA, 0x00, 0x08, 0x01, 0x01, 0x00, 0x00, 0x3F, 0x00, 0x00, 0x00, 0xFF, 0xD9,
    ])
    .collect()
}

#[test]
fn mod_test_restart_marker_detection() {
    assert!(is_restart_marker(RST0));
    assert!(is_restart_marker(RST7));
    assert!(is_restart_marker(0xD4));
    assert!(!is_restart_marker(0xD8));
    assert!(!is_restart_marker(0xDA));
}

#[test]
fn jpeg_test_restart_marker_detection() {
    assert!(is_restart_marker(RST0));
    assert!(is_restart_marker(RST7));
    assert!(!is_restart_marker(0xD8));
}

#[test]
fn test_sof_marker_detection() {
    assert!(is_sof_marker(SOF0));
    assert!(is_sof_marker(SOF2));
    assert!(is_sof_marker(0xC9));
    assert!(!is_sof_marker(0xDA));
    assert!(!is_sof_marker(0xDB));
}

#[test]
fn test_app_marker_detection() {
    assert!(is_app_marker(APP0));
    assert!(is_app_marker(APP1));
    assert!(is_app_marker(0xEF));
    assert!(!is_app_marker(0xDF));
    assert!(!is_app_marker(0xF0));
}

#[test]
fn test_standalone_marker_detection() {
    assert!(is_standalone_marker(0xD8));
    assert!(is_standalone_marker(0xD9));
    assert!(is_standalone_marker(RST0));
    assert!(is_standalone_marker(RST7));
    assert!(!is_standalone_marker(SOS));
    assert!(!is_standalone_marker(DQT));
}

#[test]
fn test_restart_marker_index() {
    assert_eq!(restart_marker_index(RST0), Some(0));
    assert_eq!(restart_marker_index(RST7), Some(7));
    assert_eq!(restart_marker_index(0xD4), Some(4));
    assert_eq!(restart_marker_index(0xDA), None);
}

#[test]
fn test_marker_constants() {
    assert_eq!(SOI, [0xFF, 0xD8]);
    assert_eq!(EOI, [0xFF, 0xD9]);
    assert_eq!(SOS, 0xDA);
    assert_eq!(DQT, 0xDB);
    assert_eq!(DHT, 0xC4);
    assert_eq!(SOF0, 0xC0);
    assert_eq!(SOF2, 0xC2);
}

#[test]
fn jpeg_test_validate_valid_jpeg() {
    let result = resync::JpegValidator::new().validate(&create_valid_jpeg());
    assert!(result.is_valid());
}

#[test]
fn jpeg_test_validate_truncated() {
    let mut data = create_valid_jpeg();
    data.truncate(data.len() - 10);
    assert!(matches!(
        resync::JpegValidator::new().validate(&data),
        resync::ValidationResult::Truncated { .. }
    ));
}

#[test]
fn jpeg_test_validate_invalid_header() {
    assert!(matches!(
        resync::JpegValidator::new().validate(&[0x00; 4]),
        resync::ValidationResult::InvalidHeader
    ));
}

#[test]
fn resync_parser_reads_a_whole_stream_like_the_strict_one() {
    let data = create_valid_jpeg();
    let s = resync::JpegParser::new().parse(&data).unwrap();
    let strict = JpegParser::new().parse(&data).unwrap();
    assert_eq!(s.markers, strict.markers);
    assert_eq!(s.valid_end_offset, data.len() as u64);
    assert_eq!((s.image_width, s.image_height), (16, 16));
    assert_eq!(s.skipped_segments, 0);
    assert_eq!(s.corruption_point, None);
    assert!(!s.is_truncated);
    assert!(s.has_valid_content);
}

#[test]
fn resync_parser_steps_over_a_damaged_segment() {
    // SOI, a COM whose length runs past the buffer, filler, then DQT and EOI.
    let mut data = vec![0xFF, 0xD8, 0xFF, 0xFE, 0xFF, 0xF0, 0x11, 0x22];
    data.extend_from_slice(&[0xFF, 0xDB, 0x00, 0x04, 0x00, 0x00, 0xFF, 0xD9]);
    let s = resync::JpegParser::new().parse(&data).unwrap();
    assert_eq!(s.skipped_segments, 1);
    assert_eq!(s.corruption_point, Some(2));
    let kinds: Vec<MarkerType> = s.markers.iter().map(|m| m.marker_type).collect();
    assert_eq!(kinds, vec![MarkerType::Soi, MarkerType::Dqt, MarkerType::Eoi]);
    assert_eq!(s.markers[1].offset, 8);
    assert_eq!(s.valid_end_offset, 16);
    assert!(!s.is_truncated);
    assert!(s.has_valid_content);
    // The strict parser stops at the damage instead.
    let strict = JpegParser::new().parse(&data).unwrap();
    assert_eq!(strict.corruption_point, Some(2));
    assert_eq!(strict.markers.len(), 1);
    // With an EOI reached, the damage makes the stream corrupted there.
    assert!(matches!(
        resync::JpegValidator::new().validate(&data),
        resync::ValidationResult::CorruptedAt { offset: 2, .. }
    ));
}

#[test]
fn resync_parser_marks_a_stream_without_eoi_as_truncated() {
    let data = vec![0xFF, 0xD8, 0xFF, 0xDB, 0x00, 0x04, 0x00, 0x00, 0x12, 0x34];
    let s = resync::JpegParser::new().parse(&data).unwrap();
    assert!(s.is_truncated);
    assert_eq!(s.valid_end_offset, 9);
    assert!(s.has_valid_content);
    let bare = resync::JpegParser::new().parse(&[0xFF, 0xD8, 0x00, 0x00]).unwrap();
    assert!(bare.is_truncated);
    assert!(!bare.has_valid_content);
    assert!(resync::JpegParser::new().parse(&[0xFF, 0xD8, 0xFF]).is_err());
}

#[test]
fn jpeg_test_marker_type_roundtrip() {
    for byte in 0u8..=255 {
        assert_eq!(MarkerType::from_byte(byte).to_byte(), byte);
    }
}

#[test]
fn test_restart_scanner() {
    let scanner = RestartMarkerScanner::new();
    let data = vec![
        0xFF, 0xD0, 0x00, 0x00, 0xFF, 0xD1, 0x00, 0x00, 0xFF, 0xD2, 0x00, 0x00,
    ];
    let markers = scanner.scan(&data);
    assert_eq!(markers.len(), 3);
    assert!(scanner.validate_sequence(&markers));
}

#[test]
fn test_quick_validate_header_valid() {
    let valid = [0xFF, 0xD8, 0xFF, 0xE0];
    assert!(quick_validate_header(&valid));

    let exif = [0xFF, 0xD8, 0xFF, 0xE1];
    assert!(quick_validate_header(&exif));

    let dqt = [0xFF, 0xD8, 0xFF, 0xDB];
    assert!(quick_validate_header(&dqt));
}

#[test]
fn test_quick_validate_header_invalid() {
    assert!(!quick_validate_header(&[0x00, 0x00, 0x00, 0x00]));
    assert!(!quick_validate_header(&[0xFF, 0xD8, 0xFF, 0x00]));
    assert!(!quick_validate_header(&[0xFF, 0xD8, 0x00, 0xE0]));
    assert!(!quick_validate_header(&[0xFF, 0xD8]));
}

#[test]
fn test_scan_no_markers() {
    let scanner = RestartMarkerScanner::new();
    let data = vec![0x00, 0x11, 0x22, 0x33, 0x44, 0x55];
    let markers = scanner.scan(&data);
    assert!(markers.is_empty());
}

#[test]
fn test_scan_single_marker() {
    let scanner = RestartMarkerScanner::new();
    let data = vec![0x00, 0x11, 0xFF, 0xD0, 0x22, 0x33];
    let markers = scanner.scan(&data);
    assert_eq!(markers.len(), 1);
    assert_eq!(markers[0].offset, 2);
    assert_eq!(markers[0].rst_number, 0);
}

#[test]
fn test_scan_multiple_markers() {
    let scanner = RestartMarkerScanner::new();
    let data = vec![
        0xFF, 0xD0, 0x00, 0x00, 0xFF, 0xD1, 0x00, 0x00, 0xFF, 0xD2, 0x00, 0x00,
    ];
    let markers = scanner.scan(&data);
    assert_eq!(markers.len(), 3);
    assert_eq!(markers[0].rst_number, 0);
    assert_eq!(markers[1].rst_number, 1);
    assert_eq!(markers[2].rst_number, 2);
}

#[test]
fn test_scan_ignores_stuffed_zeros() {
    let scanner = RestartMarkerScanner::new();
    let data = vec![0xFF, 0x00, 0xFF, 0xD0, 0x00];
    let markers = scanner.scan(&data);
    assert_eq!(markers.len(), 1);
    assert_eq!(markers[0].offset, 2);
}

#[test]
fn test_scan_stops_at_eoi() {
    let scanner = RestartMarkerScanner::new();
    let data = vec![0xFF, 0xD0, 0xFF, 0xD9, 0xFF, 0xD1];
    let markers = scanner.scan(&data);
    assert_eq!(markers.len(), 1);
    assert_eq!(markers[0].rst_number, 0);
}

fn markers(numbers: &[u8]) -> Vec<RestartMarkerInfo> {
    numbers
        .iter()
        .enumerate()
        .map(|(i, &rst_number)| RestartMarkerInfo { offset: i * 10, rst_number })
        .collect()
}

#[test]
fn test_validate_sequence_valid() {
    let scanner = RestartMarkerScanner::new();
    assert!(scanner.validate_sequence(&markers(&[0, 1, 2, 3])));
}

#[test]
fn test_validate_sequence_wraps() {
    let scanner = RestartMarkerScanner::new();
    assert!(scanner.validate_sequence(&markers(&[6, 7, 0, 1])));
}

#[test]
fn test_validate_sequence_invalid() {
    let scanner = RestartMarkerScanner::new();
    assert!(!scanner.validate_sequence(&markers(&[0, 1, 5])));
}

#[test]
fn test_count_markers() {
    let scanner = RestartMarkerScanner::new();
    let data = vec![0xFF, 0xD0, 0x00, 0xFF, 0xD1, 0x00, 0xFF, 0xD2, 0x00];
    assert_eq!(scanner.count_markers(&data), 3);
}

#[test]
fn test_find_first() {
    let scanner = RestartMarkerScanner::new();
    let data = vec![0x00, 0x11, 0xFF, 0xD5, 0x22];
    let first = scanner.find_first(&data);
    assert!(first.is_some());
    let marker = first.unwrap();
    assert_eq!(marker.offset, 2);
    assert_eq!(marker.rst_number, 5);
}

#[test]
fn restart_sequence_can_be_extended_by_the_next_marker_only() {
    let scanner = RestartMarkerScanner::new();
    let existing = markers(&[6, 7]);
    assert!(scanner.would_maintain_sequence(&existing, RestartMarkerInfo { offset: 30, rst_number: 0 }));
    assert!(!scanner.would_maintain_sequence(&existing, RestartMarkerInfo { offset: 30, rst_number: 1 }));
    assert!(scanner.would_maintain_sequence(&[], RestartMarkerInfo { offset: 0, rst_number: 4 }));
}

#[test]
fn test_huffman_table_creation() {
    let data = [2, 0, 0, 0, 0, 0, 0, 0, 0, 0, 0, 0, 0, 0, 0, 0, 0x00, 0x01];
    let table = HuffmanTable::from_dht_data(&data).unwrap();

    let (sym, len) = table.decode(0x00000000, 8).unwrap();
    assert_eq!(sym, 0x00);
    assert_eq!(len, 1);

    let (sym, len) = table.decode(0x80000000, 8).unwrap();
    assert_eq!(sym, 0x01);
    assert_eq!(len, 1);
}

#[test]
fn huffman_table_rejects_counts_that_overrun_the_data() {
    let data = [3, 0, 0, 0, 0, 0, 0, 0, 0, 0, 0, 0, 0, 0, 0, 0, 0x00, 0x01];
    assert!(HuffmanTable::from_dht_data(&data).is_none());
    assert!(HuffmanTable::from_dht_data(&[1, 2, 3]).is_none());
}

#[test]
fn test_huffman_decoder_creation() {
    let decoder = HuffmanDecoder::new();
    for class in 0..2u8 {
        for id in 0..4usize {
            assert!(!decoder.has_table(class, id));
        }
    }
}

#[test]
fn test_dc_predictor_reset() {
    let mut decoder = HuffmanDecoder::new();
    decoder.reset_dc_predictors();
    for component in 0..4 {
        assert_eq!(decoder.get_dc_pred(component), 0);
    }
}

#[test]
fn test_parse_minimal_jpeg() {
    let data = create_minimal_jpeg();
    let parser = JpegParser::new();
    let structure = parser.parse(&data).unwrap();

    assert_eq!(structure.image_width, 200);
    assert_eq!(structure.image_height, 100);
    assert!(structure.sos_offset.is_some());
    assert!(!structure.is_progressive);
    assert!(structure.corruption_point.is_none());
}

#[test]
fn test_parse_invalid_data() {
    let parser = JpegParser::new();
    assert!(parser.parse(&[0xFF]).is_err());
    assert!(parser.parse(&[0x00, 0x00, 0x00, 0x00]).is_err());
}

#[test]
fn parser_test_marker_type_roundtrip() {
    for byte in 0u8..=255 {
        let marker_type = MarkerType::from_byte(byte);
        assert_eq!(marker_type.to_byte(), byte);
    }
}

#[test]
fn test_marker_total_size() {
    let standalone = JpegMarker { marker_type: MarkerType::Soi, offset: 0, length: 0 };
    assert_eq!(standalone.total_size(), 2);

    let with_payload = JpegMarker { marker_type: MarkerType::App(0), offset: 2, length: 16 };
    assert_eq!(with_payload.total_size(), 18);
}

#[test]
fn test_truncated_jpeg_detection() {
    let mut data = create_minimal_jpeg();
    data.truncate(data.len() / 2);

    let parser = JpegParser::new();
    let structure = parser.parse(&data).unwrap();
    assert!(
        structure.corruption_point.is_some()
            || structure
                .markers
                .last()
                .map(|m| !matches!(m.marker_type, MarkerType::Eoi))
                .unwrap_or(true)
    );
}

#[test]
fn validator_test_validate_valid_jpeg() {
    let data = create_valid_jpeg();
    let validator = JpegValidator::new();
    let result = validator.validate(&data);
    assert!(result.is_valid(), "Expected valid JPEG: {:?}", result);
}

#[test]
fn test_validate_truncated_jpeg() {
    let mut data = create_valid_jpeg();
    data.truncate(data.len() - 10);
    let validator = JpegValidator::new();
    let result = validator.validate(&data);
    assert!(matches!(result, ValidationResult::Truncated { .. }));
}

#[test]
fn jpeg_validator_rejects_a_buffer_without_soi() {
    let data = vec![0x00, 0x00, 0x00, 0x00];
    let validator = JpegValidator::new();
    let result = validator.validate(&data);
    assert!(matches!(result, ValidationResult::InvalidHeader));
}

#[test]
fn test_corruption_offset() {
    let validator = JpegValidator::new();
    let valid = create_valid_jpeg();
    assert!(validator.validate(&valid).corruption_offset().is_none());
    let invalid = vec![0x00, 0x00, 0x00, 0x00];
    assert_eq!(validator.validate(&invalid).corruption_offset(), Some(0));
}

#[test]
fn test_validation_result_structure() {
    let data = create_valid_jpeg();
    let validator = JpegValidator::new();
    let result = validator.validate(&data);
    let structure = result.structure().unwrap();
    assert!(structure.image_width > 0);
    assert!(structure.image_height > 0);
}

#[test]
fn a_second_soi_after_a_scan_is_reported_as_corruption() {
    let mut data = create_valid_jpeg();
    let eoi = data.len() - 2;
    data.splice(eoi..eoi, [0xFF, 0xD8]);
    let result = JpegValidator::new().validate(&data);
    assert!(matches!(result, ValidationResult::CorruptedAt { .. }));
}

use argos::jpeg::huffman::dc_boundary_difference;
use argos::jpeg::restart::restart_gap;

#[test]
fn restart_gap_measures_the_cycle_distance() {
    let one = |n| vec![RestartMarkerInfo { offset: 0, rst_number: n }];
    assert_eq!(restart_gap(&one(3), &one(4)), Some(0));
    assert_eq!(restart_gap(&one(7), &one(0)), Some(0));
    assert_eq!(restart_gap(&one(3), &one(6)), Some(2));
    assert_eq!(restart_gap(&one(0), &one(5)), Some(4));
    assert_eq!(restart_gap(&one(0), &one(7)), Some(2));
    assert_eq!(restart_gap(&[], &one(1)), None);
}

#[test]
fn dc_difference_compares_up_to_eight_values_across_the_join() {
    let head = [100, 101, 102, 103, 104];
    let tail = [104, 105, 106, 107, 108];
    assert_eq!(dc_boundary_difference(&head, &tail), Some((20, 5)));
    assert_eq!(dc_boundary_difference(&[], &[1, 2, 3]), None);
    assert_eq!(dc_boundary_difference(&[1, 2, 3], &[]), None);
    let long: Vec<i16> = (0..20).collect();
    assert_eq!(dc_boundary_difference(&long, &long), Some((8 * 12, 8)));
    assert_eq!(dc_boundary_difference(&[-500], &[500]), Some((1000, 1)));
}

#[test]
fn a_whole_stream_ends_at_its_eoi_whatever_follows() {
    let mut data = create_valid_jpeg();
    let end = data.len();
    data.extend_from_slice(&[0xAB; 10]);
    assert_eq!(find_boundary(&data, None, true, true, 8192, 1 << 20), Some(end));
    assert_eq!(find_boundary(&data[..3], None, true, true, 8192, 1 << 20), None);
}

#[test]
fn without_a_whole_stream_the_eoi_markers_and_entropy_drop_decide() {
    let data = [0x00, 0x11, 0xFF, 0xD9, 0x22, 0xFF, 0xD9];
    assert_eq!(find_boundary(&data, None, true, false, 2, 100), Some(4));
    assert_eq!(find_boundary(&data, None, true, true, 2, 100), None);
    assert_eq!(find_boundary(&data, None, false, false, 2, 100), None);
    assert_eq!(find_boundary(&data, Some(3), true, false, 2, 100), Some(4));
    assert_eq!(find_boundary(&data, Some(5), true, false, 2, 100), Some(7));
    assert_eq!(find_boundary(&data, Some(3), true, true, 2, 100), Some(3));
    assert_eq!(find_boundary(&data, None, true, false, 2, 3), None);
}

#[test]
fn a_dc_decoding_that_overflows_is_reported_by_the_checked_variant() {
    // One DC code, `0`, for category 15: fifteen zero bits fall in the
    // negative half of that category, whose arithmetic overflows i16.
    let mut table = vec![1u8];
    table.extend_from_slice(&[0u8; 15]);
    table.push(15);
    let mut decoder = HuffmanDecoder::new();
    assert!(decoder.load_table(0, 0, &table));
    assert_eq!(decoder.try_validate_and_extract_dc(&[0x00, 0x00, 0x00, 0x00], 1, 1), None);
    // Category 0 codes no difference, and the decoding goes through.
    let mut zero = vec![1u8];
    zero.extend_from_slice(&[0u8; 15]);
    zero.push(0);
    let mut decoder = HuffmanDecoder::new();
    assert!(decoder.load_table(0, 0, &zero));
    assert_eq!(decoder.try_validate_and_extract_dc(&[0x00, 0x00, 0x00, 0x00], 1, 1), Some(Ok(vec![0])));
}

fn assert_markers_stand_in_order(data: &[u8], markers: &[JpegMarker]) {
    for (k, m) in markers.iter().enumerate() {
        let at = m.offset as usize;
        assert_eq!(data[at], 0xFF);
        assert_eq!(data[at + 1], m.marker_type.to_byte());
        if k > 0 {
            assert!(markers[k - 1].offset < m.offset);
        }
    }
}

#[test]
fn reported_markers_stand_where_they_say() {
    let data = create_valid_jpeg();
    let s = JpegParser::new().parse(&data).unwrap();
    assert!(s.markers.len() >= 4);
    assert_markers_stand_in_order(&data, &s.markers);
}

#[test]
fn resynced_markers_stand_where_they_say_past_damage() {
    let mut data = vec![0xFF, 0xD8, 0xFF, 0xE0, 0xFF, 0xFF, 0x12, 0x34];
    data.extend_from_slice(&[0xFF, 0xDB, 0x00, 0x04, 0x00, 0x01]);
    data.extend_from_slice(&[0xFF, 0xD9]);
    let s = resync::JpegParser::new().parse(&data).unwrap();
    assert!(s.skipped_segments >= 1);
    assert_markers_stand_in_order(&data, &s.markers);
    assert_eq!(s.markers.last().unwrap().marker_type, MarkerType::Eoi);
}

#[test]
fn dc_extraction_gives_no_more_values_than_it_may_read() {
    let mut zero = vec![1u8];
    zero.extend_from_slice(&[0u8; 15]);
    zero.push(0);
    let mut decoder = HuffmanDecoder::new();
    assert!(decoder.load_table(0, 0, &zero));
    assert!(decoder.load_table(0, 1, &zero));
    let data = [0x00u8; 16];
    let v = decoder.validate_and_extract_dc(&data, 2, 3).unwrap();
    assert!(!v.is_empty());
    assert!(v.len() <= 3 * 2);
    let w = decoder.extract_dc_coefficients(&data, 1, 2);
    assert!(!w.is_empty());
    assert!(w.len() <= 2);
}
