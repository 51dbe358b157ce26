use journal::category::{classify, FileCategory};

#[test]
fn classify_ignores_case() {
    assert_eq!(classify("JPG"), FileCategory::Photo);
    assert_eq!(classify("jpg"), FileCategory::Photo);
    assert_eq!(classify("JpEg"), FileCategory::Photo);
    assert_eq!(classify("MP3"), FileCategory::Audio);
    assert_eq!(classify("Flac"), FileCategory::Audio);
}

#[test]
fn classify_every_supported_extension() {
    for e in ["jpg", "jpeg", "png", "tiff", "tif"] {
        assert_eq!(classify(e), FileCategory::Photo);
    }
    for e in ["mp3", "m4a", "flac", "wav"] {
        assert_eq!(classify(e), FileCategory::Audio);
    }
}

#[test]
fn classify_everything_else_is_unclassified() {
    assert_eq!(classify("txt"), FileCategory::Unclassified);
    assert_eq!(classify(""), FileCategory::Unclassified);
    assert_eq!(classify("jpgx"), FileCategory::Unclassified);
    assert_eq!(classify("jp"), FileCategory::Unclassified);
    assert_eq!(classify("mp4"), FileCategory::Unclassified);
}
