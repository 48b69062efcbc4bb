use timsrust::{
    FrameWindowSplittingStrategy, PrecursorBackend, PrecursorReader, PrecursorReaderError,
    QuadWindowExpansionStrategy,
};
use timsrust::precursor_reader::select_backend;

fn split() -> Option<FrameWindowSplittingStrategy> {
    Some(FrameWindowSplittingStrategy::Window(QuadWindowExpansionStrategy::Even(2)))
}

#[test]
fn columnar_extension_without_config() {
    assert!(matches!(select_backend(Some("parquet"), None), Ok(PrecursorBackend::MiniTdf)));
}

#[test]
fn columnar_extension_with_config_is_refused() {
    assert_eq!(
        select_backend(Some("parquet"), split()).unwrap_err(),
        PrecursorReaderError::UnsupportedInput
    );
}

#[test]
fn relational_extension_takes_any_config() {
    assert!(matches!(select_backend(Some("tdf"), None), Ok(PrecursorBackend::Tdf(None))));
    assert!(matches!(
        select_backend(Some("tdf"), split()),
        Ok(PrecursorBackend::Tdf(Some(FrameWindowSplittingStrategy::Window(
            QuadWindowExpansionStrategy::Even(2)
        ))))
    ));
}

#[test]
fn other_extensions_are_refused() {
    assert_eq!(select_backend(Some("txt"), None).unwrap_err(), PrecursorReaderError::UnsupportedInput);
    assert_eq!(select_backend(Some("TDF"), None).unwrap_err(), PrecursorReaderError::UnsupportedInput);
    assert_eq!(select_backend(None, None).unwrap_err(), PrecursorReaderError::UnsupportedInput);
}

#[test]
fn reader_indexes_loaded_precursors() {
    let reader = PrecursorReader::new(Some("tdf"), None, |b| {
        assert!(matches!(b, PrecursorBackend::Tdf(None)));
        Ok(vec![10u32, 20, 30])
    })
    .unwrap();
    assert_eq!(reader.len(), 3);
    assert_eq!(reader.get(0), Some(10));
    assert_eq!(reader.get(2), Some(30));
    assert_eq!(reader.get(3), None);
    assert!(matches!(reader.backend(), PrecursorBackend::Tdf(None)));
}

#[test]
fn reader_names_failing_columnar_backend() {
    let r = PrecursorReader::<u32>::new(Some("parquet"), None, |_| Err("broken".to_string()));
    assert_eq!(
        r.err(),
        Some(PrecursorReaderError::MiniTDFPrecursorReaderError("broken".to_string()))
    );
}

#[test]
fn reader_names_failing_relational_backend() {
    let r = PrecursorReader::<u32>::new(Some("tdf"), split(), |_| Err("no table".to_string()));
    assert_eq!(
        r.err(),
        Some(PrecursorReaderError::TDFPrecursorReaderError("no table".to_string()))
    );
}

#[test]
fn reader_refuses_unsupported_input() {
    let r = PrecursorReader::<u32>::new(Some("parquet"), split(), |_| Ok(vec![1]));
    assert_eq!(r.err(), Some(PrecursorReaderError::UnsupportedInput));
}
