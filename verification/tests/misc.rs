use argos::carving::{classification_skip_reason, CarveDecision, SkipReason, ValidationNote};
use argos::confidence::Confidence;
use argos::error::{ErrorSeverity, FileFormat};
use argos::matching::MatchEvidence;
use argos::ports::{
    AcceptAll, ArtifactSink, Capture, Classifier, DeviceClass, Digest, PixelImage, RunState, Unit,
};
use argos::recovery::{Format, Stage, Timestamps, UnknownFormat};
use argos::statistics::ImageClassification;

#[test]
fn carving_test_carve_decision_variants() {
    let extract = CarveDecision::Extract;
    let partial = CarveDecision::ExtractPartial;
    assert_ne!(extract, partial);
}

#[test]
fn smart_test_carve_decision_variants() {
    let extract = CarveDecision::Extract;
    let partial = CarveDecision::ExtractPartial;
    let skip = CarveDecision::Skip(SkipReason::Thumbnail);
    let bgc = CarveDecision::AttemptBgc;

    assert_ne!(extract, partial);
    assert_ne!(skip, bgc);
}

#[test]
fn test_skip_reason_variants() {
    let reasons = vec![
        SkipReason::Thumbnail,
        SkipReason::ArtificialGraphic,
        SkipReason::Encrypted,
        SkipReason::TooSmall,
        SkipReason::InvalidStructure,
        SkipReason::Duplicate,
    ];
    assert_eq!(reasons.len(), 6);
}

/// The smart carver's default configuration filters statistically and
/// filters graphics.
fn default_filter(c: ImageClassification) -> Option<SkipReason> {
    classification_skip_reason(c, true, true)
}

#[test]
fn carving_test_filter_by_classification() {
    assert!(default_filter(ImageClassification::NaturalPhoto).is_none());
    assert!(default_filter(ImageClassification::ArtificialGraphic).is_some());
    assert!(default_filter(ImageClassification::Encrypted).is_some());
}

#[test]
fn smart_test_filter_by_classification() {
    assert!(default_filter(ImageClassification::NaturalPhoto).is_none());
    assert!(default_filter(ImageClassification::ArtificialGraphic).is_some());
    assert!(default_filter(ImageClassification::Encrypted).is_some());
}

#[test]
fn classification_decides_what_is_skipped() {
    assert_eq!(classification_skip_reason(ImageClassification::NaturalPhoto, true, true), None);
    assert_eq!(
        classification_skip_reason(ImageClassification::ArtificialGraphic, true, true),
        Some(SkipReason::ArtificialGraphic)
    );
    assert_eq!(classification_skip_reason(ImageClassification::ArtificialGraphic, true, false), None);
    assert_eq!(classification_skip_reason(ImageClassification::Encrypted, true, true), Some(SkipReason::Encrypted));
    assert_eq!(classification_skip_reason(ImageClassification::TooSmall, true, false), Some(SkipReason::TooSmall));
    assert_eq!(classification_skip_reason(ImageClassification::Corrupted, true, true), None);
    assert_eq!(classification_skip_reason(ImageClassification::Encrypted, false, true), None);
}

#[test]
fn only_a_natural_photo_is_a_photo() {
    assert!(ImageClassification::NaturalPhoto.is_photo());
    for c in [
        ImageClassification::ArtificialGraphic,
        ImageClassification::Corrupted,
        ImageClassification::Encrypted,
        ImageClassification::TooSmall,
    ] {
        assert!(!c.is_photo());
    }
}

#[test]
fn notes_and_evidence_are_plain_values() {
    assert_eq!(ValidationNote::CorruptionAt(7), ValidationNote::CorruptionAt(7));
    assert_ne!(ValidationNote::CrcErrors(1), ValidationNote::CrcErrors(2));
    let evidence = MatchEvidence::default();
    assert!(!evidence.format_match && evidence.structure_valid.is_none());
}

#[test]
fn formats_round_trip_through_their_names() {
    for f in [Format::Jpeg, Format::Png] {
        assert_eq!(Format::parse(f.name()), Ok(f));
    }
    assert_eq!(Format::Jpeg.extension(), "jpg");
    assert_eq!(Format::Png.extension(), "png");
    assert_eq!(Format::parse("gif"), Err(UnknownFormat));
    assert_eq!(UnknownFormat.message(), "not an image format this tool recovers");
}

#[test]
fn stages_and_tiers_have_report_names() {
    assert_eq!(Stage::Carve.name(), "carve");
    assert_eq!(Stage::Manifest.name(), "manifest");
    assert_eq!(Confidence::FsMetadata.name(), "fs-metadata");
    assert_eq!(Confidence::Grafted.rank(), 0);
    assert!(Confidence::Grafted < Confidence::PartialOrThumbnail);
    assert_eq!(DeviceClass::ImageFile.name(), "image file");
}

#[test]
fn file_formats_and_severities() {
    assert_eq!(FileFormat::Jpeg.name(), "JPEG");
    assert_eq!(FileFormat::Unknown.name(), "Unknown");
    assert!(ErrorSeverity::Recoverable.is_recoverable());
    assert!(ErrorSeverity::FileLevel.is_recoverable());
    assert!(!ErrorSeverity::Retryable.is_recoverable());
    assert!(!ErrorSeverity::Fatal.is_recoverable());
}

#[test]
fn a_digest_prints_as_lowercase_hex() {
    let mut bytes = [0u8; 32];
    bytes[0] = 0xAB;
    bytes[31] = 0x01;
    let d = Digest::new(bytes);
    let hex = d.to_hex();
    assert_eq!(hex.len(), 64);
    assert!(hex.starts_with("ab00"));
    assert!(hex.ends_with("0001"));
    assert_eq!(d.as_bytes(), &bytes);
}

#[test]
fn a_pixel_image_reports_its_shape() {
    let image = PixelImage::new(2, 3, vec![0u8; 24]);
    assert_eq!(image.width(), 2);
    assert_eq!(image.height(), 3);
    assert_eq!(image.pixel_count(), 6);
    assert_eq!(image.rgba().len(), 24);
}

#[test]
fn accept_all_scores_nothing_and_keeps_everything() {
    let mut classifier = AcceptAll::new();
    assert!(classifier.model().is_none());
    let images = vec![PixelImage::new(1, 1, vec![0; 4]), PixelImage::new(1, 1, vec![9; 4])];
    let scores = classifier.score_batch(&images).expect("infallible");
    assert_eq!(scores, vec![None, None]);
}

#[test]
fn run_states_and_units() {
    assert!(RunState::Cancelled.is_terminal());
    assert!(RunState::Finished.is_terminal());
    assert!(!RunState::Paused.is_terminal());
    assert!(!RunState::Running.is_terminal());
    assert!(Unit::Bytes.supports_percentage());
    assert!(!Unit::Steps.supports_percentage());
}

#[test]
fn empty_metadata_is_recognised() {
    assert!(Capture::default().is_empty());
    let camera = Capture { make: Some("Canon".to_string()), ..Capture::default() };
    assert!(!camera.is_empty());
    assert!(Timestamps::default().is_empty());
    let t = Timestamps { created: Some(std::time::SystemTime::UNIX_EPOCH), modified: None };
    assert!(!t.is_empty());
}

use argos::carving::{apply_gap_carving, jpeg_carve_plan, png_carve_plan, CarvePlan};
use argos::jpeg::resync;
use argos::png::validator::PngValidator;

#[test]
fn a_png_that_is_not_a_png_is_skipped_and_an_unvalidated_one_kept_whole() {
    let garbage = vec![0u8; 100];
    let verdict = PngValidator::new().validate(&garbage);
    let plan = png_carve_plan(100, Some(&verdict));
    assert_eq!(plan.decision, CarveDecision::Skip(SkipReason::InvalidStructure));
    assert!(plan.notes.is_empty());

    let plan = png_carve_plan(100, None);
    assert_eq!(plan, CarvePlan { decision: CarveDecision::Extract, size: 100, notes: vec![] });
}

#[test]
fn a_jpeg_plan_follows_parse_then_validation() {
    let not_parsed = jpeg_carve_plan(50, None, true, None, true);
    assert_eq!(not_parsed.decision, CarveDecision::Skip(SkipReason::InvalidStructure));
    assert_eq!(not_parsed.notes, vec![ValidationNote::ParseFailed]);

    let parser = resync::JpegParser::new();
    let validator = resync::JpegValidator::new();

    let bare = [0xFF, 0xD8, 0x00, 0x00];
    let s = parser.parse(&bare).unwrap();
    let empty = jpeg_carve_plan(4, Some(&s), true, None, true);
    assert_eq!(
        empty,
        CarvePlan {
            decision: CarveDecision::Skip(SkipReason::InvalidStructure),
            size: 3,
            notes: vec![ValidationNote::Truncated],
        }
    );

    let cut = [0xFF, 0xD8, 0xFF, 0xDB, 0x00, 0x04, 0x00, 0x00, 0x12, 0x34];
    let s = parser.parse(&cut).unwrap();
    let verdict = validator.validate(&cut);
    let partial = jpeg_carve_plan(10, Some(&s), true, Some(&verdict), true);
    assert_eq!(
        partial,
        CarvePlan {
            decision: CarveDecision::ExtractPartial,
            size: 9,
            notes: vec![ValidationNote::Truncated, ValidationNote::Truncated],
        }
    );

    let mut damaged = vec![0xFF, 0xD8, 0xFF, 0xFE, 0xFF, 0xF0, 0x11, 0x22];
    damaged.extend_from_slice(&[0xFF, 0xDB, 0x00, 0x04, 0x00, 0x00, 0xFF, 0xD9]);
    let s = parser.parse(&damaged).unwrap();
    let verdict = validator.validate(&damaged);
    let gap = jpeg_carve_plan(16, Some(&s), true, Some(&verdict), true);
    assert_eq!(
        gap,
        CarvePlan { decision: CarveDecision::AttemptBgc, size: 16, notes: vec![ValidationNote::CorruptionAt(2)] }
    );
    let no_gap = jpeg_carve_plan(16, Some(&s), true, Some(&verdict), false);
    assert_eq!(no_gap.decision, CarveDecision::ExtractPartial);

    let unvalidated = jpeg_carve_plan(16, Some(&s), true, None, true);
    assert_eq!(unvalidated, CarvePlan { decision: CarveDecision::Extract, size: 16, notes: vec![] });
}

#[test]
fn gap_carving_outcomes_settle_the_plan() {
    let plan = CarvePlan {
        decision: CarveDecision::AttemptBgc,
        size: 10,
        notes: vec![ValidationNote::CorruptionAt(4)],
    };
    let many = apply_gap_carving(plan.clone(), (3, 9000), None);
    assert_eq!(many.decision, CarveDecision::Extract);
    assert_eq!(many.size, 9000);
    assert_eq!(many.notes, vec![ValidationNote::CorruptionAt(4), ValidationNote::BgcSuccessful]);

    let joined = apply_gap_carving(plan.clone(), (1, 5), Some((true, 8192)));
    assert_eq!(joined.decision, CarveDecision::Extract);
    assert_eq!(joined.size, 8192);
    assert_eq!(joined.notes.last(), Some(&ValidationNote::BgcSuccessful));

    for answer in [None, Some((false, 1))] {
        let failed = apply_gap_carving(plan.clone(), (1, 5), answer);
        assert_eq!(failed.decision, CarveDecision::ExtractPartial);
        assert_eq!(failed.size, 10);
        assert_eq!(failed.notes, vec![ValidationNote::CorruptionAt(4), ValidationNote::BgcFailed]);
    }
}

use argos::matching::pair_evidence;

#[test]
fn pairing_evidence_stops_at_the_first_failed_check() {
    let mismatch = pair_evidence(0, FileFormat::Jpeg, None, 5000, FileFormat::Png, 100, 1_000_000);
    assert_eq!(mismatch, MatchEvidence::default());

    let backwards = pair_evidence(5000, FileFormat::Jpeg, None, 1000, FileFormat::Jpeg, 100, 1_000_000);
    assert!(backwards.format_match && !backwards.distance_reasonable && !backwards.stats_consistent);

    let too_close = pair_evidence(0, FileFormat::Jpeg, None, 50, FileFormat::Jpeg, 100, 1_000_000);
    assert!(!too_close.distance_reasonable);

    let typical = pair_evidence(0, FileFormat::Jpeg, None, 400_000, FileFormat::Jpeg, 100, 100_000_000);
    assert!(typical.distance_reasonable && typical.size_in_expected_range && typical.stats_consistent);

    let tiny = pair_evidence(0, FileFormat::Jpeg, None, 40_000, FileFormat::Jpeg, 100, 100_000_000);
    assert!(tiny.distance_reasonable && !tiny.size_in_expected_range);

    let ranged = pair_evidence(1000, FileFormat::Png, Some((100, 500)), 1400, FileFormat::Png, 100, 1_000_000);
    assert!(ranged.size_in_expected_range);
    let out_of_range = pair_evidence(1000, FileFormat::Png, Some((100, 200)), 1400, FileFormat::Png, 100, 1_000_000);
    assert!(!out_of_range.size_in_expected_range);
}

use argos::carving::{find_eoi, orphan_tails_in};
use argos::statistics::to_grayscale;

#[test]
fn test_find_eoi() {
    let data = [0x00, 0x11, 0x22, 0x33, 0x44, 0xFF, 0xD9, 0x00];
    assert_eq!(find_eoi(&data), Some(5));

    let no_eoi = [0x00, 0xFF, 0xD8, 0x00, 0x00];
    assert_eq!(find_eoi(&no_eoi), None);

    let eoi_start = [0xFF, 0xD9, 0x00, 0x00];
    assert_eq!(find_eoi(&eoi_start), Some(0));
    assert_eq!(find_eoi(&[0xFF]), None);
}

#[test]
fn an_eoi_without_its_soi_marks_an_orphan_tail() {
    let mut window = vec![0u8; 10_000];
    window[9000] = 0xFF;
    window[9001] = 0xD9;
    let tails = orphan_tails_in(&window, 4096, 4096);
    assert_eq!(tails, vec![(4096, 4096 + 9002 - 4096)]);

    window[100] = 0xFF;
    window[101] = 0xD8;
    assert!(orphan_tails_in(&window, 4096, 4096).is_empty());

    let offset_inside = orphan_tails_in(&[0x00, 0xFF, 0xD9], 5000, 4096);
    assert!(offset_inside.is_empty(), "the tail would start at 8192, after its own end");
}

#[test]
fn grayscale_weights_the_channels() {
    assert_eq!(to_grayscale(&[255, 255, 255, 0, 0, 0], 3), vec![255, 0]);
    assert_eq!(to_grayscale(&[100, 0, 0, 9, 0, 100, 0, 9, 1], 4), vec![29, 58]);
    assert_eq!(to_grayscale(&[5, 6, 7], 1), vec![5, 6, 7]);
    assert_eq!(to_grayscale(&[10, 20, 30, 40], 3), vec![18]);
}

#[test]
fn the_greedy_assignment_uses_each_header_and_footer_once() {
    let edges = [(0, 0), (0, 1), (1, 0), (1, 1), (2, 1)];
    assert_eq!(argos::matching::greedy_assignment(&edges, 3, 2), vec![0, 3]);
    assert_eq!(argos::matching::greedy_assignment(&[], 0, 0), Vec::<usize>::new());
    assert_eq!(argos::matching::greedy_assignment(&[(2, 0), (1, 0), (1, 1)], 3, 2), vec![0, 2]);
}

/// A sink that keeps what it is handed in memory.
#[derive(Default)]
struct Collect {
    stored: Vec<(u64, Vec<u8>)>,
    omitted: Vec<String>,
}

impl ArtifactSink for Collect {
    type Error = std::io::Error;

    fn accept<R: std::io::Read + ?Sized>(
        &mut self,
        artifact: &argos::ports::Artifact<'_>,
        bytes: &mut R,
    ) -> Result<(), Self::Error> {
        let mut buf = Vec::new();
        bytes.read_to_end(&mut buf)?;
        self.stored.push((artifact.length, buf));
        Ok(())
    }

    fn omit(&mut self, _artifact: &argos::ports::Artifact<'_>, reason: &str) -> Result<(), Self::Error> {
        self.omitted.push(reason.to_string());
        Ok(())
    }
}

#[test]
fn an_artifact_sink_receives_the_bytes_and_the_default_preview_is_ignored() {
    let extents: [argos::geometry::ByteRange; 0] = [];
    let capture = Capture::default();
    let artifact = argos::ports::Artifact {
        format: Format::Jpeg,
        stage: Stage::Carve,
        confidence: Confidence::ContiguousCarve,
        extents: &extents,
        length: 3,
        expected_length: None,
        sha256: Digest::new([0; 32]),
        timestamps: Timestamps::default(),
        recovered_name: None,
        source_object: None,
        parent: None,
        pixels: None,
        capture: &capture,
    };
    let mut sink = Collect::default();
    let data = [1u8, 2, 3];
    sink.accept(&artifact, &mut &data[..]).unwrap();
    sink.omit(&artifact, "triaged away").unwrap();
    let image = PixelImage::new(1, 1, vec![0, 0, 0, 255]);
    sink.preview(&Digest::new([0; 32]), &image).unwrap();
    assert_eq!(sink.stored, vec![(3, vec![1, 2, 3])]);
    assert_eq!(sink.omitted, vec!["triaged away".to_string()]);
}

#[test]
fn a_size_near_the_expected_range_runs_from_half_the_least_to_twice_the_most() {
    assert!(argos::matching::near_expected_size(500, 1000, 2000));
    assert!(!argos::matching::near_expected_size(499, 1000, 2000));
    assert!(argos::matching::near_expected_size(4000, 1000, 2000));
    assert!(!argos::matching::near_expected_size(4001, 1000, 2000));
    assert!(argos::matching::near_expected_size(u64::MAX, 0, u64::MAX));
    assert_eq!(argos::matching::typical_file_size(FileFormat::Png), 200_000);
}
