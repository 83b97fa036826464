use aggbook::sources::{SourceId, SourceIdParseError, NUM_SOURCES};

#[test]
fn test_display() {
    assert_eq!(SourceId::Bitstamp.to_string(), "bitstamp");
    assert_eq!(SourceId::Binance.to_string(), "binance");
}

#[test]
fn test_from_str_success() {
    assert_eq!("bitstamp".parse::<SourceId>().unwrap(), SourceId::Bitstamp);
    assert_eq!("Bitstamp".parse::<SourceId>().unwrap(), SourceId::Bitstamp);
    assert_eq!("BINANCE".parse::<SourceId>().unwrap(), SourceId::Binance);
}

#[test]
fn test_from_str_failure() {
    let result = "kraken".parse::<SourceId>();
    assert!(result.is_err());
    assert_eq!(result.unwrap_err().to_string(), "Invalid source ID: 'kraken'");
}

#[test]
fn test_from_source_id_to_usize() {
    let bitstamp_index: usize = SourceId::Bitstamp.into();
    let binance_index: usize = SourceId::Binance.into();
    assert_eq!(bitstamp_index, 0);
    assert_eq!(binance_index, 1);
}

#[test]
fn test_default() {
    let default_source = SourceId::default();
    assert_eq!(default_source, SourceId::Bitstamp);
}

#[test]
fn names_parse_back_to_their_source() {
    for s in [SourceId::Bitstamp, SourceId::Binance] {
        assert_eq!(SourceId::from_str(&s.to_string()).unwrap(), s);
        assert!(s.index() < NUM_SOURCES);
    }
}

#[test]
fn parse_ignores_case_letter_by_letter() {
    assert_eq!(SourceId::from_str("bInAnCe").unwrap(), SourceId::Binance);
    assert_eq!(SourceId::from_str("BITSTAMP").unwrap(), SourceId::Bitstamp);
}

#[test]
fn parse_rejects_near_names() {
    for text in ["", "binanc", "binancee", " binance", "bit stamp"] {
        let err: SourceIdParseError = SourceId::from_str(text).unwrap_err();
        assert_eq!(err.0, text);
        assert_eq!(err.to_string(), format!("Invalid source ID: '{}'", text));
    }
}
