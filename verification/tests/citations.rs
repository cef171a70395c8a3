//! Citations, book numbers, and references to outside catalogues.
use chronoscope_core::external_ids::{
    GeoNamesId, GettyTgnId, OhmId, OsmElementType, OsmId, PleiadesPlaceId, WikidataEntityId,
};
use chronoscope_core::facts::citations::{
    validate_isbn13, CitationError, Excerpt, ExcerptError, ExternalSource, FactualCitation, Isbn, IsbnError,
    Justification, WikimediaCategoryName, EXCERPT_MAX_LEN,
};
use chronoscope_core::facts::ids::ValidatedStringError;
use chronoscope_core::facts::reference::ExternalReference;
use chronoscope_core::facts::web::{Language, LanguageTag, WebUrl};

#[test]
fn excerpt_rejects_empty() {
    assert_eq!(Excerpt::new(""), Err(ExcerptError::Empty));
}

#[test]
fn excerpt_rejects_oversized() {
    let big = "x".repeat(EXCERPT_MAX_LEN + 1);
    assert!(matches!(
        Excerpt::new(&big),
        Err(ExcerptError::TooLong { .. })
    ));
}

#[test]
fn isbn_accepts_valid_isbn10() {
    // "Design Patterns" by GoF - 0-201-63361-2
    let isbn = Isbn::parse("0-201-63361-2").unwrap();
    assert_eq!(isbn.as_str(), "0201633612");
}

#[test]
fn isbn_accepts_isbn10_with_x_check_digit() {
    // Well-known ISBN-10 ending in X: 0-8044-2957-X ("Zen and the
    // Art of Motorcycle Maintenance").
    let isbn = Isbn::parse("0-8044-2957-X").unwrap();
    assert_eq!(isbn.as_str(), "080442957X");
}

#[test]
fn isbn_accepts_valid_isbn13() {
    // 978-0-13-468599-1 - "The C++ Programming Language" 4th ed.
    let isbn = Isbn::parse("978-0-13-468599-1").unwrap();
    assert_eq!(isbn.as_str(), "9780134685991");
}

#[test]
fn isbn_rejects_bad_check_digit() {
    // Flip last digit of a valid ISBN-13.
    assert_eq!(
        Isbn::parse("978-0-13-468599-2"),
        Err(IsbnError::BadCheckDigit)
    );
}

#[test]
fn isbn_rejects_wrong_length() {
    assert!(matches!(
        Isbn::parse("12345"),
        Err(IsbnError::WrongLength { len: 5 })
    ));
}

#[test]
fn isbn_rejects_non_digit() {
    // Non-digit in body (not the X-allowed final position).
    assert_eq!(Isbn::parse("0-20a-63361-2"), Err(IsbnError::NonDigit));
}

#[test]
fn isbn_finds_every_wrong_digit() {
    for valid in ["9780134685991", "0201633612"] {
        assert!(Isbn::parse(valid).is_ok());
        for at in 0..valid.len() {
            for digit in '0'..='9' {
                let mut chars: Vec<char> = valid.chars().collect();
                let was = std::mem::replace(&mut chars[at], digit);
                let changed: String = chars.into_iter().collect();
                if was == digit {
                    assert!(Isbn::parse(&changed).is_ok());
                } else {
                    assert_eq!(Isbn::parse(&changed), Err(IsbnError::BadCheckDigit), "{changed}");
                }
            }
        }
    }
    assert_eq!(Isbn::parse("020163361X"), Err(IsbnError::BadCheckDigit));
    let chars: Vec<char> = "9780134685991".chars().collect();
    assert_eq!(validate_isbn13(&chars), Ok(()));
    let chars: Vec<char> = "9780134685992".chars().collect();
    assert_eq!(validate_isbn13(&chars), Err(IsbnError::BadCheckDigit));
    let chars: Vec<char> = "97801346859X1".chars().collect();
    assert_eq!(validate_isbn13(&chars), Err(IsbnError::NonDigit));
}

#[test]
fn justification_rejects_whitespace_only() {
    assert!(matches!(
        Justification::new("   "),
        Err(ValidatedStringError::TooShort { .. })
    ));
}

#[test]
fn justification_rejects_too_short() {
    assert!(matches!(
        Justification::new("short"),
        Err(ValidatedStringError::TooShort { .. })
    ));
}

#[test]
fn factual_citation_rejects_empty_excerpts() {
    let url = ExternalSource::Url {
        url: WebUrl::parse("https://example.com/").unwrap(),
        published: None,
    };
    assert_eq!(
        FactualCitation::new(url, Vec::new()),
        Err(CitationError::ExcerptRequired)
    );
}

#[test]
fn external_reference_from_url_recognizes_pleiades() {
    let url = WebUrl::parse("https://pleiades.stoa.org/places/423025").unwrap();
    assert_eq!(
        ExternalReference::from_url(&url),
        ExternalReference::Pleiades {
            place_id: PleiadesPlaceId::new(423025),
        }
    );
}

#[test]
fn external_reference_from_url_recognizes_wikipedia_with_language() {
    let url = WebUrl::parse("https://en.wikipedia.org/wiki/Pantheon").unwrap();
    match ExternalReference::from_url(&url) {
        ExternalReference::Wikipedia { language, title } => {
            assert_eq!(language.as_str(), "en");
            assert_eq!(title, "Pantheon");
        }
        other => panic!("expected Wikipedia variant, got {other:?}"),
    }
}

#[test]
fn external_reference_from_url_decodes_wikipedia_title() {
    let url = WebUrl::parse("https://en.wikipedia.org/wiki/Empire_State_Building").unwrap();
    match ExternalReference::from_url(&url) {
        ExternalReference::Wikipedia { title, .. } => {
            assert_eq!(title, "Empire State Building");
        }
        other => panic!("expected Wikipedia variant, got {other:?}"),
    }
}

#[test]
fn external_reference_from_url_recognizes_wikidata_qid() {
    let url = WebUrl::parse("https://www.wikidata.org/wiki/Q243").unwrap();
    assert_eq!(
        ExternalReference::from_url(&url),
        ExternalReference::Wikidata {
            qid: WikidataEntityId::parse("Q243").unwrap(),
        }
    );
}

#[test]
fn external_reference_from_url_recognizes_osm_way() {
    // way 5013364 is the Eiffel Tower in OpenStreetMap.
    let url = WebUrl::parse("https://www.openstreetmap.org/way/5013364").unwrap();
    assert_eq!(
        ExternalReference::from_url(&url),
        ExternalReference::OpenStreetMap {
            element_type: OsmElementType::Way,
            id: OsmId::new(5013364),
        }
    );
}

#[test]
fn external_reference_from_url_recognizes_commons_category() {
    let url = WebUrl::parse("https://commons.wikimedia.org/wiki/Category:Pantheon_(Rome)").unwrap();
    match ExternalReference::from_url(&url) {
        ExternalReference::WikimediaCommonsCategory { category } => {
            assert_eq!(category.as_str(), "Pantheon (Rome)");
        }
        other => panic!("expected category variant, got {other:?}"),
    }
}

#[test]
fn external_reference_from_url_routes_commons_file_to_unmodeled() {
    let url = WebUrl::parse("https://commons.wikimedia.org/wiki/File:Pantheon.jpg").unwrap();
    assert!(matches!(
        ExternalReference::from_url(&url),
        ExternalReference::UnmodeledUrl(_)
    ));
}

#[test]
fn external_reference_from_url_falls_through_to_unmodeled() {
    let url = WebUrl::parse("https://example.com/some/path").unwrap();
    match ExternalReference::from_url(&url) {
        ExternalReference::UnmodeledUrl(u) => assert_eq!(u, url),
        other => panic!("expected UnmodeledUrl, got {other:?}"),
    }
}

#[test]
fn external_reference_from_url_rejects_bare_wikipedia_org() {
    let url = WebUrl::parse("https://wikipedia.org/").unwrap();
    assert!(matches!(
        ExternalReference::from_url(&url),
        ExternalReference::UnmodeledUrl(_)
    ));
}

#[test]
fn external_reference_from_url_rejects_wikidata_property_page() {
    // P571 is a property id, not a QID. Must fall through.
    let url = WebUrl::parse("https://www.wikidata.org/wiki/Property:P571").unwrap();
    assert!(matches!(
        ExternalReference::from_url(&url),
        ExternalReference::UnmodeledUrl(_)
    ));
}

#[test]
fn external_reference_from_url_rejects_wikidata_garbage_qid() {
    // QIDs must be Q followed by digits; reject Q-prefixed garbage.
    let url = WebUrl::parse("https://www.wikidata.org/wiki/Qfoo").unwrap();
    assert!(matches!(
        ExternalReference::from_url(&url),
        ExternalReference::UnmodeledUrl(_)
    ));
}

#[test]
fn external_reference_from_url_rejects_wikidata_without_wiki_segment() {
    // Bare /Q243 (no /wiki/ or /entity/ prefix) - defensive reject.
    let url = WebUrl::parse("https://www.wikidata.org/Q243").unwrap();
    assert!(matches!(
        ExternalReference::from_url(&url),
        ExternalReference::UnmodeledUrl(_)
    ));
}

#[test]
fn external_reference_from_url_rejects_osm_unknown_element_type() {
    // Only node/way/relation are valid; reject other prefixes.
    let url = WebUrl::parse("https://www.openstreetmap.org/user/foo").unwrap();
    assert!(matches!(
        ExternalReference::from_url(&url),
        ExternalReference::UnmodeledUrl(_)
    ));
}

#[test]
fn external_reference_from_url_rejects_osm_non_numeric_id() {
    let url = WebUrl::parse("https://www.openstreetmap.org/way/notanumber").unwrap();
    assert!(matches!(
        ExternalReference::from_url(&url),
        ExternalReference::UnmodeledUrl(_)
    ));
}

#[test]
fn external_reference_from_url_rejects_geonames_non_numeric_id() {
    let url = WebUrl::parse("https://www.geonames.org/about.html").unwrap();
    assert!(matches!(
        ExternalReference::from_url(&url),
        ExternalReference::UnmodeledUrl(_)
    ));
}

#[test]
fn external_reference_from_url_rejects_getty_without_tgn_segment() {
    // vocab.getty.edu hosts other vocabularies (AAT, ULAN, etc.).
    // Only /tgn/ is modeled.
    let url = WebUrl::parse("https://vocab.getty.edu/aat/300004979").unwrap();
    assert!(matches!(
        ExternalReference::from_url(&url),
        ExternalReference::UnmodeledUrl(_)
    ));
}

#[test]
fn external_reference_from_url_rejects_pleiades_non_places_path() {
    // Pleiades also has /people/, /sites/, etc.
    let url = WebUrl::parse("https://pleiades.stoa.org/help/").unwrap();
    assert!(matches!(
        ExternalReference::from_url(&url),
        ExternalReference::UnmodeledUrl(_)
    ));
}

fn reference(text: &str) -> ExternalReference {
    ExternalReference::from_url(&WebUrl::parse(text).unwrap())
}

#[test]
fn references_are_recognized_by_host_and_path() {
    assert_eq!(
        reference("https://wikidata.org/entity/Q243"),
        ExternalReference::Wikidata { qid: WikidataEntityId::new(243) }
    );
    assert_eq!(
        reference("https://www.openhistoricalmap.org/node/12"),
        ExternalReference::OpenHistoricalMap {
            element_type: OsmElementType::Node,
            id: OhmId::new(12),
        }
    );
    assert_eq!(
        reference("https://openstreetmap.org/relation/9"),
        ExternalReference::OpenStreetMap {
            element_type: OsmElementType::Relation,
            id: OsmId::new(9),
        }
    );
    assert_eq!(
        reference("https://www.geonames.org/3169070/roma.html"),
        ExternalReference::GeoNames { id: GeoNamesId::new(3169070) }
    );
    assert_eq!(
        reference("https://vocab.getty.edu/tgn/7000874"),
        ExternalReference::GettyTgn { id: GettyTgnId::new(7000874) }
    );
    assert_eq!(
        reference("https://pleiades.stoa.org/places/423025/"),
        ExternalReference::Pleiades { place_id: PleiadesPlaceId::new(423025) }
    );
}

#[test]
fn wikipedia_titles_are_percent_decoded() {
    match reference("https://fr.wikipedia.org/wiki/Panth%C3%A9on_(Paris)") {
        ExternalReference::Wikipedia { language, title } => {
            assert_eq!(language.as_str(), "fr");
            assert_eq!(title, "Panth\u{e9}on (Paris)");
        }
        other => panic!("expected Wikipedia variant, got {other:?}"),
    }
}

#[test]
fn references_compare_by_what_they_say() {
    let a = reference("https://www.wikidata.org/wiki/Q243");
    let b = reference("https://wikidata.org/entity/Q243");
    let c = reference("https://wikidata.org/entity/Q244");
    assert!(a.same(&b));
    assert!(!a.same(&c));
    let u = reference("https://example.com/a");
    assert!(u.same(&reference("https://example.com/a")));
    assert!(!u.same(&reference("https://example.com/b")));
}

#[test]
fn urls_are_normalized_by_the_parser() {
    let url = WebUrl::parse("HTTPS://Example.COM/a//b/").unwrap();
    assert_eq!(url.as_str(), "https://example.com/a//b/");
    assert_eq!(url.host(), Some("example.com"));
    assert_eq!(url.named_segments(), vec!["a".to_string(), "b".to_string()]);
    assert!(WebUrl::parse("not a url").is_none());
    assert!(WebUrl::parse("mailto:a@example.com").unwrap().host().is_none());
}

#[test]
fn language_tags_are_checked() {
    assert_eq!(Language::parse("en-US").unwrap().as_str(), "en-US");
    for casing in ["en-us", "EN-US", "eN-uS"] {
        assert_eq!(Language::parse(casing).unwrap().as_str(), "en-US");
    }
    assert_eq!(Language::parse("ZH-HANS-cn").unwrap().as_str(), "zh-Hans-CN");
    assert!(Language::parse("").is_none());
    // A tag as it was written keeps its casing.
    assert_eq!(LanguageTag::parse("EN-us").unwrap().as_str(), "EN-us");
    assert!(LanguageTag::parse("not a tag").is_none());
    assert!(Language::parse("not a tag").is_none());
    assert!(Language::parse("en").unwrap().same(&Language::parse("en").unwrap()));
}

#[test]
fn excerpts_keep_their_text() {
    let e = Excerpt::new("page 42 of the gazette").unwrap();
    assert_eq!(e.as_str(), "page 42 of the gazette");
    let full = "x".repeat(EXCERPT_MAX_LEN);
    assert_eq!(Excerpt::new(&full).unwrap().as_str(), full);
    assert_eq!(
        Excerpt::new(&"x".repeat(EXCERPT_MAX_LEN + 1)),
        Err(ExcerptError::TooLong { len: EXCERPT_MAX_LEN + 1, max: EXCERPT_MAX_LEN })
    );
}

#[test]
fn justifications_store_the_trimmed_form() {
    let j = Justification::new("   Confirmed by archive cross-reference.   ").unwrap();
    assert_eq!(j.as_str(), "Confirmed by archive cross-reference.");
    assert_eq!(Justification::new(j.as_str()).unwrap().as_str(), j.as_str());
    // White space is what Unicode says it is: the ideographic space and the next-line
    // character are, the zero-width space is not.
    let j = Justification::new("\u{3000}\u{85}\u{2009}seen in person\u{1680}\u{205f}").unwrap();
    assert_eq!(j.as_str(), "seen in person");
    let j = Justification::new("\u{200b}seen in person\u{180e}").unwrap();
    assert_eq!(j.as_str(), "\u{200b}seen in person\u{180e}");
    assert_eq!(
        Justification::new("short"),
        Err(ValidatedStringError::TooShort { len: 5, min: 10 })
    );
}

#[test]
fn category_names_must_not_be_empty() {
    assert!(WikimediaCategoryName::new("").is_err());
    assert_eq!(WikimediaCategoryName::new("Rome").unwrap().as_str(), "Rome");
}

#[test]
fn book_numbers_read_back() {
    for text in ["0-201-63361-2", "0-8044-2957-X", "978-0-13-468599-1", "0 8044 2957 X"] {
        let isbn = Isbn::parse(text).unwrap();
        assert_eq!(Isbn::parse(isbn.as_str()).unwrap().as_str(), isbn.as_str());
    }
    assert_eq!(Isbn::parse("0-201-63361-3"), Err(IsbnError::BadCheckDigit));
    assert_eq!(Isbn::parse("97801346859 9X"), Err(IsbnError::NonDigit));
}

#[test]
fn book_numbers_are_counted_in_characters() {
    assert_eq!(Isbn::parse("ä1234"), Err(IsbnError::WrongLength { len: 5 }));
    assert_eq!(Isbn::parse("ä123456789"), Err(IsbnError::NonDigit));
}

#[test]
fn text_errors_say_what_is_wrong() {
    assert_eq!(
        IsbnError::WrongLength { len: 5 }.to_string(),
        "ISBN must be 10 or 13 digits, got 5"
    );
    assert_eq!(
        IsbnError::NonDigit.to_string(),
        "ISBN must be all digits (with optional final X on ISBN-10)"
    );
    assert_eq!(IsbnError::BadCheckDigit.to_string(), "ISBN check digit does not match");
    assert_eq!(ExcerptError::Empty.to_string(), "excerpt must not be empty");
    assert_eq!(
        ExcerptError::TooLong { len: 10_001, max: 10_000 }.to_string(),
        "excerpt too long: 10001 chars (max 10000)"
    );
}

#[test]
fn citation_errors_say_what_is_wrong() {
    assert_eq!(
        CitationError::ExcerptRequired.to_string(),
        "factual citation requires at least one excerpt"
    );
    let url = ExternalSource::Url {
        url: WebUrl::parse("https://example.com/").unwrap(),
        published: None,
    };
    let citation =
        FactualCitation::new(url, vec![Excerpt::new("a quote").unwrap()]).unwrap();
    assert_eq!(citation.excerpts().len(), 1);
    assert_eq!(citation.excerpts().first().as_str(), "a quote");
    assert!(matches!(citation.source(), ExternalSource::Url { .. }));
}
