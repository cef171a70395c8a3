//! Ids of outside catalogues.
use chronoscope_core::external_ids::{
    ExternalStringIdError, GeoNamesId, GettyTgnId, NrhpReferenceNumber, OhmId, OsmElementType,
    OsmId, PleiadesPlaceId, WikidataEntityId, WikidataIdParseError, WikidataPropertyId,
};

#[test]
fn wikidata_entity_id_parse_rejects_p_prefix() {
    assert!(WikidataEntityId::parse("P571").is_err(), "P-prefixed value is not a QID");
}

#[test]
fn wikidata_entity_id_parse_rejects_letter_in_digits() {
    assert!(WikidataEntityId::parse("Q1a3").is_err());
}

#[test]
fn wikidata_entity_id_parse_rejects_q_only() {
    assert!(WikidataEntityId::parse("Q").is_err(), "Q alone is not a QID");
}

#[test]
fn wikidata_entity_id_parse_rejects_empty() {
    assert!(WikidataEntityId::parse("").is_err(), "empty is not a QID");
}

#[test]
fn wikidata_entity_id_parse_rejects_u64_overflow() {
    // u64::MAX is 18446744073709551615; append a digit to overflow.
    assert!(
        WikidataEntityId::parse("Q184467440737095516150").is_err(),
        "value past u64::MAX must be rejected"
    );
}

#[test]
fn wikidata_entity_id_new_displays_canonical_string() {
    assert_eq!(WikidataEntityId::new(12345).to_string(), "Q12345");
}

#[test]
fn wikidata_entity_id_parse_preserves_numeric_part() {
    let id = WikidataEntityId::parse("Q12345").unwrap();
    assert_eq!(id.get(), 12345);
}

#[test]
fn wikidata_property_id_parse_accepts_p_rejects_q() {
    assert!(WikidataPropertyId::parse("P571").is_ok());
    assert!(WikidataPropertyId::parse("Q571").is_err(), "Q-prefixed value is not a PID");
}

#[test]
fn wikidata_parse_errors_say_what_was_found() {
    assert_eq!(WikidataEntityId::parse(""), Err(WikidataIdParseError::Empty));
    assert_eq!(
        WikidataEntityId::parse("P571"),
        Err(WikidataIdParseError::WrongPrefix { expected: 'Q', found: "P571".to_string() })
    );
    assert_eq!(
        WikidataEntityId::parse("Q"),
        Err(WikidataIdParseError::MissingDigits { expected: 'Q', found: "Q".to_string() })
    );
    assert_eq!(
        WikidataPropertyId::parse("P1a3"),
        Err(WikidataIdParseError::NonDigitTail { expected: 'P', found: "P1a3".to_string() })
    );
    assert_eq!(
        WikidataEntityId::parse("Q18446744073709551616"),
        Err(WikidataIdParseError::Overflow { found: "Q18446744073709551616".to_string() })
    );
    assert_eq!(WikidataEntityId::parse("Q18446744073709551615").unwrap().get(), u64::MAX);
}

#[test]
fn wikidata_ids_read_back_from_their_text() {
    for n in [0u64, 1, 9, 10, 1448, u64::MAX] {
        let q = WikidataEntityId::new(n);
        assert_eq!(WikidataEntityId::parse(&q.to_string()), Ok(q));
        let p = WikidataPropertyId::new(n);
        assert_eq!(WikidataPropertyId::parse(&p.to_string()), Ok(p));
    }
    // Leading zeros are accepted and dropped.
    assert_eq!(WikidataEntityId::parse("Q007").unwrap().to_string(), "Q7");
}

#[test]
fn numeric_ids_are_written_in_decimal() {
    assert_eq!(OsmId::new(5013364).to_string(), "5013364");
    assert_eq!(OhmId::new(0).to_string(), "0");
    assert_eq!(GeoNamesId::new(u64::MAX).to_string(), "18446744073709551615");
    assert_eq!(GettyTgnId::new(7000874).get(), 7000874);
    assert_eq!(PleiadesPlaceId::new(423025).get(), 423025);
}

#[test]
fn osm_element_types_read_back_from_their_segment() {
    for kind in [OsmElementType::Node, OsmElementType::Way, OsmElementType::Relation] {
        assert_eq!(OsmElementType::from_segment(kind.segment()), Some(kind));
    }
    assert_eq!(OsmElementType::Node.segment(), "node");
    assert_eq!(OsmElementType::from_segment("Node"), None);
    assert_eq!(OsmElementType::from_segment("user"), None);
}

#[test]
fn nrhp_reference_number_must_not_be_empty() {
    assert_eq!(
        NrhpReferenceNumber::parse(String::new()),
        Err(ExternalStringIdError::Empty)
    );
    let number = NrhpReferenceNumber::parse("66000905".to_string()).unwrap();
    assert_eq!(number.as_str(), "66000905");
}
