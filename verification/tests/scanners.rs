use argos::scanners::{FileScanner, SignatureScanner};
use argos::types::FileType;

#[test]
fn test_extension() {
    assert_eq!(FileType::Jpeg.extension(), "jpg");
    assert_eq!(FileType::Png.extension(), "png");
    assert_eq!(FileType::Unknown.extension(), "bin");
}

#[test]
fn test_footer_size() {
    assert_eq!(FileType::Jpeg.footer_size(), 2);
    assert_eq!(FileType::Png.footer_size(), 8);
    assert_eq!(FileType::Unknown.footer_size(), 0);
}

#[test]
fn test_header_bytes() {
    assert_eq!(FileType::Jpeg.header_bytes(), &[0xFF, 0xD8, 0xFF]);
    assert_eq!(FileType::Png.header_bytes().len(), 8);
}

#[test]
fn test_display() {
    assert_eq!(FileType::Jpeg.name(), "JPEG");
    assert_eq!(FileType::Png.name(), "PNG");
}

#[test]
fn unknown_type_has_no_signatures() {
    assert!(FileType::Unknown.header_bytes().is_empty());
    assert!(FileType::Unknown.footer_bytes().is_empty());
    assert_eq!(FileType::Png.footer_bytes(), &[0x49, 0x45, 0x4E, 0x44, 0xAE, 0x42, 0x60, 0x82]);
}

#[test]
fn jpeg_scan_headers_single_match() {
    let scanner = SignatureScanner::jpeg();
    let buffer: Vec<u8> =
        [&[0x00, 0x11, 0x22, 0x33, 0x44][..], &[0xFF, 0xD8, 0xFF][..], &[0xE0, 0x00, 0x10][..], &[0xAA, 0xBB, 0xCC][..]]
            .concat();
    let headers = scanner.scan_headers(&buffer);
    assert_eq!(headers, vec![5]);
}

#[test]
fn jpeg_scan_footers_single_match() {
    let scanner = SignatureScanner::jpeg();
    let buffer: Vec<u8> = [&[0x00, 0x11, 0x22, 0x33][..], &[0xFF, 0xD9][..], &[0xAA, 0xBB, 0xCC][..]].concat();
    let footers = scanner.scan_footers(&buffer);
    assert_eq!(footers, vec![4]);
}

#[test]
fn jpeg_scan_multiple_files() {
    let scanner = SignatureScanner::jpeg();
    let buffer: Vec<u8> = [
        &[0x00, 0x00][..],
        &[0xFF, 0xD8, 0xFF][..],
        &[0xE0, 0x00, 0x10, 0x4A, 0x46][..],
        &[0xFF, 0xD9][..],
        &[0x00, 0x00, 0x00][..],
        &[0xFF, 0xD8, 0xFF][..],
        &[0xE1, 0x00, 0x08][..],
        &[0xFF, 0xD9][..],
        &[0x00][..],
    ]
    .concat();
    let headers = scanner.scan_headers(&buffer);
    let footers = scanner.scan_footers(&buffer);
    assert_eq!(headers, vec![2, 15]);
    assert_eq!(footers, vec![10, 21]);
}

#[test]
fn jpeg_scan_no_matches() {
    let scanner = SignatureScanner::jpeg();
    let buffer = vec![0x00, 0x11, 0x22, 0x33, 0x44, 0x55, 0x66, 0x77];
    assert!(scanner.scan_headers(&buffer).is_empty());
    assert!(scanner.scan_footers(&buffer).is_empty());
}

#[test]
fn jpeg_scan_empty_buffer() {
    let scanner = SignatureScanner::jpeg();
    assert!(scanner.scan_headers(&[]).is_empty());
    assert!(scanner.scan_footers(&[]).is_empty());
}

#[test]
fn jpeg_file_type() {
    let scanner = SignatureScanner::jpeg();
    assert_eq!(scanner.file_type(), FileType::Jpeg);
}

#[test]
fn png_scan_headers_single_match() {
    let scanner = SignatureScanner::png();
    let buffer: Vec<u8> =
        [&[0x00, 0x11, 0x22][..], &[0x89, 0x50, 0x4E, 0x47, 0x0D, 0x0A, 0x1A, 0x0A][..], &[0x00, 0x00, 0x00, 0x0D][..]]
            .concat();
    assert_eq!(scanner.scan_headers(&buffer), vec![3]);
}

#[test]
fn png_scan_footers_single_match() {
    let scanner = SignatureScanner::png();
    let buffer: Vec<u8> =
        [&[0x00, 0x00, 0x00, 0x00][..], &[0x49, 0x45, 0x4E, 0x44, 0xAE, 0x42, 0x60, 0x82][..], &[0xAA, 0xBB][..]]
            .concat();
    assert_eq!(scanner.scan_footers(&buffer), vec![4]);
}

#[test]
fn png_scan_multiple_files() {
    let scanner = SignatureScanner::png();
    let buffer: Vec<u8> = [
        &[0x00][..],
        &[0x89, 0x50, 0x4E, 0x47, 0x0D, 0x0A, 0x1A, 0x0A][..],
        &[0x00, 0x00, 0x00, 0x00][..],
        &[0x49, 0x45, 0x4E, 0x44, 0xAE, 0x42, 0x60, 0x82][..],
        &[0x00, 0x00][..],
        &[0x89, 0x50, 0x4E, 0x47, 0x0D, 0x0A, 0x1A, 0x0A][..],
        &[0x00, 0x00, 0x00, 0x00][..],
        &[0x49, 0x45, 0x4E, 0x44, 0xAE, 0x42, 0x60, 0x82][..],
    ]
    .concat();
    assert_eq!(scanner.scan_headers(&buffer), vec![1, 23]);
    assert_eq!(scanner.scan_footers(&buffer), vec![13, 35]);
}

#[test]
fn png_scan_no_matches() {
    let scanner = SignatureScanner::png();
    let buffer = vec![0x00, 0x11, 0x22, 0x33, 0x44, 0x55, 0x66, 0x77];
    assert!(scanner.scan_headers(&buffer).is_empty());
    assert!(scanner.scan_footers(&buffer).is_empty());
}

#[test]
fn png_scan_empty_buffer() {
    let scanner = SignatureScanner::png();
    assert!(scanner.scan_headers(&[]).is_empty());
    assert!(scanner.scan_footers(&[]).is_empty());
}

#[test]
fn png_file_type() {
    let scanner = SignatureScanner::png();
    assert_eq!(scanner.file_type(), FileType::Png);
}

#[test]
fn jpeg_partial_header_not_matched() {
    let scanner = SignatureScanner::jpeg();
    assert!(scanner.scan_headers(&[0xFF, 0xD8, 0x00, 0x00]).is_empty());
}

#[test]
fn png_partial_header_not_matched() {
    let scanner = SignatureScanner::png();
    assert!(scanner.scan_headers(&[0x89, 0x50, 0x4E, 0x47, 0x0D, 0x0A]).is_empty());
}

#[test]
fn scanners_are_send_sync() {
    fn assert_send_sync<T: Send + Sync>() {}
    assert_send_sync::<SignatureScanner>();
}

#[test]
fn overlapping_occurrences_are_counted_once() {
    let scanner = SignatureScanner::jpeg();
    let buffer = [0xFF, 0xD8, 0xFF, 0xD8, 0xFF, 0xD9, 0xD9];
    assert_eq!(scanner.scan_headers(&buffer), vec![0]);
    assert_eq!(scanner.scan_footers(&buffer), vec![4]);
}

#[test]
fn the_trait_reports_what_the_scanner_does() {
    fn through_trait(s: &dyn FileScanner, buffer: &[u8]) -> (Vec<usize>, Vec<usize>, FileType) {
        (s.scan_headers(buffer), s.scan_footers(buffer), s.file_type())
    }
    let buffer = [0x00, 0xFF, 0xD8, 0xFF, 0x00, 0xFF, 0xD9];
    let (h, f, t) = through_trait(&SignatureScanner::jpeg(), &buffer);
    assert_eq!(h, vec![1]);
    assert_eq!(f, vec![5]);
    assert_eq!(t, FileType::Jpeg);
}
