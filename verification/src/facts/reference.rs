//! References to entities in external knowledge systems.
//!
//! An [`ExternalReference`] names a destination for entity lookups, while an
//! [`ExternalSource`](super::citations::ExternalSource) names the origin of a
//! specific claim.
use vstd::prelude::*;
use vstd::string::*;

use crate::external_ids::{
    law_wikidata_round_trip, wikidata_number, GeoNamesId, GettyTgnId, NrhpReferenceNumber, OhmId, OsmElementType, OsmId,
    PleiadesPlaceId, WikidataEntityId,
};
use crate::facts::citations::WikimediaCategoryName;
use crate::facts::web::{
    is_language_tag, language_tag, law_named_segments_are_kept, nonempty_segments, percent_decode, percent_decoded, texts,
    LanguageTag, Parts, WebUrl,
};
use crate::text::{
    all_digits, decimal_digits, decimal_value, ends_with, has_char, is_digit,
    lemma_decimal_not_negative, lemma_decimal_round_trip, parse_u64, replace_char, same_text,
    starts_with, strip_prefix, strip_suffix, unsigned_number,
};

verus! {

/// A typed reference to an entity in an external knowledge system.
#[derive(Debug, Clone, PartialEq, Eq, Hash)]
pub enum ExternalReference {
    /// Wikidata entity (e.g. `Q243`).
    Wikidata {
        /// The Wikidata QID.
        qid: WikidataEntityId,
    },
    /// `OpenStreetMap` element.
    OpenStreetMap {
        /// Whether the element is a node, way, or relation.
        element_type: OsmElementType,
        /// The OSM element id.
        id: OsmId,
    },
    /// `OpenHistoricalMap` element; the data model is that of OSM.
    OpenHistoricalMap {
        /// Whether the element is a node, way, or relation.
        element_type: OsmElementType,
        /// The OHM element id.
        id: OhmId,
    },
    /// Wikipedia article in a specific language edition.
    Wikipedia {
        /// Language tag matching the `*.wikipedia.org` subdomain.
        language: LanguageTag,
        /// The article title (URL-decoded, no `_` substitutions).
        title: String,
    },
    /// `GeoNames` feature.
    GeoNames {
        /// The GeoNames feature id.
        id: GeoNamesId,
    },
    /// Getty Thesaurus of Geographic Names entry.
    GettyTgn {
        /// The TGN entry id.
        id: GettyTgnId,
    },
    /// Pleiades gazetteer entry for an ancient place.
    Pleiades {
        /// The Pleiades place id.
        place_id: PleiadesPlaceId,
    },
    /// United States National Register of Historic Places entry.
    Nrhp {
        /// The NRHP reference number.
        reference_number: NrhpReferenceNumber,
    },
    /// Wikimedia Commons category page. File pages (`File:...`) are not
    /// modeled here.
    WikimediaCommonsCategory {
        /// The category title without the `Category:` prefix.
        category: WikimediaCategoryName,
    },
    /// Generic fallback for a URL that [`ExternalReference::from_url`] does not
    /// recognize.
    UnmodeledUrl(WebUrl),
}

/// What a reference says.
#[verifier::ext_equal]
pub enum Reference {
    /// Entity `Q` and this number.
    Wikidata { qid: u64 },
    /// OSM element.
    OpenStreetMap { element_type: OsmElementType, id: u64 },
    /// OHM element.
    OpenHistoricalMap { element_type: OsmElementType, id: u64 },
    /// Article of a language edition.
    Wikipedia { language: Seq<char>, title: Seq<char> },
    /// GeoNames feature.
    GeoNames { id: u64 },
    /// Getty TGN entry.
    GettyTgn { id: u64 },
    /// Pleiades place.
    Pleiades { place_id: u64 },
    /// NRHP entry.
    Nrhp { reference_number: Seq<char> },
    /// Commons category.
    WikimediaCommonsCategory { category: Seq<char> },
    /// Normal form of an address.
    UnmodeledUrl { text: Seq<char> },
}

impl View for ExternalReference {
    type V = Reference;

    open spec fn view(&self) -> Reference {
        match *self {
            ExternalReference::Wikidata { qid } => Reference::Wikidata { qid: qid.number() },
            ExternalReference::OpenStreetMap { element_type, id } => Reference::OpenStreetMap {
                element_type,
                id: id.number(),
            },
            ExternalReference::OpenHistoricalMap {
                element_type,
                id,
            } => Reference::OpenHistoricalMap { element_type, id: id.number() },
            ExternalReference::Wikipedia { language, title } => Reference::Wikipedia {
                language: language@,
                title: title@,
            },
            ExternalReference::GeoNames { id } => Reference::GeoNames { id: id.number() },
            ExternalReference::GettyTgn { id } => Reference::GettyTgn { id: id.number() },
            ExternalReference::Pleiades { place_id } => Reference::Pleiades {
                place_id: place_id.number(),
            },
            ExternalReference::Nrhp { reference_number } => Reference::Nrhp {
                reference_number: reference_number@,
            },
            ExternalReference::WikimediaCommonsCategory {
                category,
            } => Reference::WikimediaCommonsCategory { category: category@ },
            ExternalReference::UnmodeledUrl(url) => Reference::UnmodeledUrl { text: url@.0 },
        }
    }
}

// --- Reading addresses ---

/// The number a segment stands for, where it is one and fits.
pub open spec fn segment_number(s: Seq<char>) -> Option<u64> {
    match unsigned_number(s) {
        Some(n) => if n <= u64::MAX {
            Some(n as u64)
        } else {
            None
        },
        None => None,
    }
}

/// The OSM element type a segment names.
pub open spec fn segment_element(s: Seq<char>) -> Option<OsmElementType> {
    if s == "node"@ {
        Some(OsmElementType::Node)
    } else if s == "way"@ {
        Some(OsmElementType::Way)
    } else if s == "relation"@ {
        Some(OsmElementType::Relation)
    } else {
        None
    }
}

/// The text with spaces for underscores.
pub open spec fn spaced(s: Seq<char>) -> Seq<char> {
    s.map_values(
        |c: char|
            if c == '_' {
                ' '
            } else {
                c
            },
    )
}

/// The host without a leading `www.`.
pub open spec fn canonical_host(host: Seq<char>) -> Seq<char> {
    if starts_with(host, "www."@) {
        host.skip("www."@.len() as int)
    } else {
        host
    }
}

/// What the host names before `.wikipedia.org`.
pub open spec fn wikipedia_edition(host: Seq<char>) -> Option<Seq<char>> {
    if ends_with(host, ".wikipedia.org"@) {
        Some(host.take(host.len() - ".wikipedia.org"@.len()))
    } else {
        None
    }
}

/// The article a Wikipedia address names.
pub open spec fn wikipedia_article(
    host: Seq<char>,
    segments: Seq<Seq<char>>,
    decoded: Option<Seq<char>>,
    edition_is_tag: bool,
) -> Option<Reference> {
    match (wikipedia_edition(host), decoded) {
        (Some(language), Some(title)) => if !language.contains('.') && edition_is_tag
            && segments.len() >= 2 && segments[0] == "wiki"@ && title.len() > 0 {
            Some(Reference::Wikipedia { language, title: spaced(title) })
        } else {
            None
        },
        _ => None,
    }
}

/// The category a Commons page names.
pub open spec fn commons_category(decoded: Option<Seq<char>>) -> Option<Reference> {
    match decoded {
        Some(page) => if starts_with(page, "Category:"@) && page.len() > "Category:"@.len() {
            Some(
                Reference::WikimediaCommonsCategory {
                    category: spaced(page.skip("Category:"@.len() as int)),
                },
            )
        } else {
            None
        },
        None => None,
    }
}

/// The OSM element that two segments name.
pub open spec fn element_of(ty: Seq<char>, id: Seq<char>) -> Option<(OsmElementType, u64)> {
    match (segment_element(ty), segment_number(id)) {
        (Some(element_type), Some(id)) => Some((element_type, id)),
        _ => None,
    }
}

/// The reference that a host and the non-empty segments of a path name.
///
/// `decoded` is the second segment percent-decoded, and `edition_is_tag`
/// whether what stands before `.wikipedia.org` in the host is a language tag.
pub open spec fn recognized(
    host: Seq<char>,
    segments: Seq<Seq<char>>,
    decoded: Option<Seq<char>>,
    edition_is_tag: bool,
) -> Option<Reference> {
    let bare = canonical_host(host);
    if bare == "pleiades.stoa.org"@ && segments.len() >= 2 && segments[0] == "places"@ {
        match segment_number(segments[1]) {
            Some(place_id) => Some(Reference::Pleiades { place_id }),
            None => None,
        }
    } else if bare == "commons.wikimedia.org"@ && segments.len() >= 2 && segments[0] == "wiki"@ {
        commons_category(decoded)
    } else if bare == "wikidata.org"@ && segments.len() >= 2 && (segments[0] == "wiki"@
        || segments[0] == "entity"@) {
        match wikidata_number(segments[1], 'Q') {
            Some(n) => if n <= u64::MAX {
                Some(Reference::Wikidata { qid: n as u64 })
            } else {
                None
            },
            None => None,
        }
    } else if bare == "openstreetmap.org"@ && segments.len() >= 2 {
        match element_of(segments[0], segments[1]) {
            Some((element_type, id)) => Some(Reference::OpenStreetMap { element_type, id }),
            None => None,
        }
    } else if bare == "openhistoricalmap.org"@ && segments.len() >= 2 {
        match element_of(segments[0], segments[1]) {
            Some((element_type, id)) => Some(Reference::OpenHistoricalMap { element_type, id }),
            None => None,
        }
    } else if bare == "geonames.org"@ && segments.len() >= 1 {
        match segment_number(segments[0]) {
            Some(id) => Some(Reference::GeoNames { id }),
            None => None,
        }
    } else if bare == "vocab.getty.edu"@ && segments.len() >= 2 && segments[0] == "tgn"@ {
        match segment_number(segments[1]) {
            Some(id) => Some(Reference::GettyTgn { id }),
            None => None,
        }
    } else {
        wikipedia_article(host, segments, decoded, edition_is_tag)
    }
}

/// Whether what stands before `.wikipedia.org` in the host is a language tag.
pub open spec fn edition_tagged(host: Seq<char>) -> bool {
    match wikipedia_edition(host) {
        Some(language) => language_tag(language),
        None => false,
    }
}

/// The second segment percent-decoded, where there is one.
pub open spec fn page_decoded(segments: Seq<Seq<char>>) -> Option<Seq<char>> {
    if segments.len() >= 2 {
        percent_decoded(segments[1])
    } else {
        None
    }
}

/// The reference that the parts of an address name.
pub open spec fn recognized_url(parts: Parts) -> Option<Reference> {
    match parts.1 {
        Some(host) => {
            let segments = nonempty_segments(parts.2);
            recognized(host, segments, page_decoded(segments), edition_tagged(host))
        },
        None => None,
    }
}

/// The characters of an optional text.
pub open spec fn optional_text(text: Option<String>) -> Option<Seq<char>> {
    match text {
        Some(text) => Some(text@),
        None => None,
    }
}

/// What an optional reference says.
pub open spec fn optional_reference(reference: Option<ExternalReference>) -> Option<Reference> {
    match reference {
        Some(reference) => Some(reference@),
        None => None,
    }
}

/// The OSM element type a segment names.
fn parse_osm_element_type(segment: &str) -> (r: Option<OsmElementType>)
    ensures
        r == segment_element(segment@),
{
    if same_text(segment, "node") {
        Some(OsmElementType::Node)
    } else if same_text(segment, "way") {
        Some(OsmElementType::Way)
    } else if same_text(segment, "relation") {
        Some(OsmElementType::Relation)
    } else {
        None
    }
}

/// The article a Wikipedia address names.
fn parse_wikipedia(
    host: &str,
    segments: &[String],
    decoded: &Option<String>,
    edition_is_tag: bool,
) -> (r: Option<ExternalReference>)
    ensures
        optional_reference(r) == wikipedia_article(
            host@,
            texts(segments@),
            optional_text(*decoded),
            edition_is_tag,
        ),
{
    let language = match strip_suffix(host, ".wikipedia.org") {
        Some(language) => language,
        None => return None,
    };
    if has_char(language.as_str(), '.') || !edition_is_tag {
        return None;
    }
    if segments.len() < 2 || !same_text(segments[0].as_str(), "wiki") {
        return None;
    }
    match decoded {
        Some(title) => if title.as_str().is_empty() {
            None
        } else {
            Some(
                ExternalReference::Wikipedia {
                    language: LanguageTag::from_checked(language.as_str()),
                    title: replace_char(title.as_str(), '_', ' '),
                },
            )
        },
        None => None,
    }
}

/// The category a Commons page names.
fn parse_commons(decoded: &Option<String>) -> (r: Option<ExternalReference>)
    ensures
        optional_reference(r) == commons_category(optional_text(*decoded)),
{
    match decoded {
        Some(page) => match strip_prefix(page.as_str(), "Category:") {
            Some(name) => {
                let title = replace_char(name.as_str(), '_', ' ');
                match WikimediaCategoryName::new(title.as_str()) {
                    Ok(category) => Some(ExternalReference::WikimediaCommonsCategory { category }),
                    Err(_) => None,
                }
            },
            None => None,
        },
        None => None,
    }
}

/// The reference that a host and the non-empty segments of a path name.
///
/// `decoded` is the second segment percent-decoded, and `edition_is_tag`
/// whether what stands before `.wikipedia.org` in the host is a language tag.
pub fn reference_from_parts(
    host: &str,
    segments: &[String],
    decoded: &Option<String>,
    edition_is_tag: bool,
) -> (r: Option<ExternalReference>)
    ensures
        optional_reference(r) == recognized(
            host@,
            texts(segments@),
            optional_text(*decoded),
            edition_is_tag,
        ),
{
    let bare = match strip_prefix(host, "www.") {
        Some(rest) => rest,
        None => host.to_owned(),
    };
    let two = segments.len() >= 2;
    if same_text(bare.as_str(), "pleiades.stoa.org") && two && same_text(
        segments[0].as_str(),
        "places",
    ) {
        return match parse_u64(segments[1].as_str()) {
            Some(n) => Some(ExternalReference::Pleiades { place_id: PleiadesPlaceId::new(n) }),
            None => None,
        };
    }
    if same_text(bare.as_str(), "commons.wikimedia.org") && two && same_text(
        segments[0].as_str(),
        "wiki",
    ) {
        return parse_commons(decoded);
    }
    if same_text(bare.as_str(), "wikidata.org") && two && (same_text(segments[0].as_str(), "wiki")
        || same_text(segments[0].as_str(), "entity")) {
        return match WikidataEntityId::parse(segments[1].as_str()) {
            Ok(qid) => Some(ExternalReference::Wikidata { qid }),
            Err(_) => None,
        };
    }
    if same_text(bare.as_str(), "openstreetmap.org") && two {
        return match (
            parse_osm_element_type(segments[0].as_str()),
            parse_u64(segments[1].as_str()),
        ) {
            (Some(element_type), Some(n)) => Some(
                ExternalReference::OpenStreetMap { element_type, id: OsmId::new(n) },
            ),
            _ => None,
        };
    }
    if same_text(bare.as_str(), "openhistoricalmap.org") && two {
        return match (
            parse_osm_element_type(segments[0].as_str()),
            parse_u64(segments[1].as_str()),
        ) {
            (Some(element_type), Some(n)) => Some(
                ExternalReference::OpenHistoricalMap { element_type, id: OhmId::new(n) },
            ),
            _ => None,
        };
    }
    if same_text(bare.as_str(), "geonames.org") && segments.len() >= 1 {
        return match parse_u64(segments[0].as_str()) {
            Some(n) => Some(ExternalReference::GeoNames { id: GeoNamesId::new(n) }),
            None => None,
        };
    }
    if same_text(bare.as_str(), "vocab.getty.edu") && two && same_text(
        segments[0].as_str(),
        "tgn",
    ) {
        return match parse_u64(segments[1].as_str()) {
            Some(n) => Some(ExternalReference::GettyTgn { id: GettyTgnId::new(n) }),
            None => None,
        };
    }
    // Wikipedia is a wildcard-subdomain match, handled after the exact hosts.
    parse_wikipedia(host, segments, decoded, edition_is_tag)
}

/// The reference that an address names, where its host and path are known.
fn parse_recognized_url(url: &WebUrl) -> (r: Option<ExternalReference>)
    ensures
        optional_reference(r) == recognized_url(url@),
{
    let host = match url.host() {
        Some(host) => host,
        None => return None,
    };
    let segments = url.named_segments();
    let decoded = if segments.len() >= 2 {
        percent_decode(segments[1].as_str())
    } else {
        None
    };
    let edition_is_tag = match strip_suffix(host, ".wikipedia.org") {
        Some(language) => is_language_tag(language.as_str()),
        None => false,
    };
    reference_from_parts(host, segments.as_slice(), &decoded, edition_is_tag)
}

impl ExternalReference {
    /// Dispatch a URL to the structured variant matching its host and path
    /// shape. Falls through to [`ExternalReference::UnmodeledUrl`] whenever any
    /// expected component is missing or malformed.
    pub fn from_url(url: &WebUrl) -> (r: Self)
        ensures
            r@ == match recognized_url(url@) {
                Some(reference) => reference,
                None => Reference::UnmodeledUrl { text: url@.0 },
            },
    {
        match parse_recognized_url(url) {
            Some(reference) => reference,
            None => ExternalReference::UnmodeledUrl(url.duplicate()),
        }
    }

    /// Whether two references say the same.
    pub fn same(&self, other: &Self) -> (r: bool)
        ensures
            r == (self@ == other@),
    {
        match (self, other) {
            (
                ExternalReference::Wikidata { qid: a },
                ExternalReference::Wikidata { qid: b },
            ) => a.get() == b.get(),
            (
                ExternalReference::OpenStreetMap { element_type: s, id: a },
                ExternalReference::OpenStreetMap { element_type: t, id: b },
            ) => *s == *t && a.get() == b.get(),
            (
                ExternalReference::OpenHistoricalMap { element_type: s, id: a },
                ExternalReference::OpenHistoricalMap { element_type: t, id: b },
            ) => *s == *t && a.get() == b.get(),
            (
                ExternalReference::Wikipedia { language: s, title: a },
                ExternalReference::Wikipedia { language: t, title: b },
            ) => s.same(t) && same_text(a.as_str(), b.as_str()),
            (
                ExternalReference::GeoNames { id: a },
                ExternalReference::GeoNames { id: b },
            ) => a.get() == b.get(),
            (
                ExternalReference::GettyTgn { id: a },
                ExternalReference::GettyTgn { id: b },
            ) => a.get() == b.get(),
            (
                ExternalReference::Pleiades { place_id: a },
                ExternalReference::Pleiades { place_id: b },
            ) => a.get() == b.get(),
            (
                ExternalReference::Nrhp { reference_number: a },
                ExternalReference::Nrhp { reference_number: b },
            ) => same_text(a.as_str(), b.as_str()),
            (
                ExternalReference::WikimediaCommonsCategory { category: a },
                ExternalReference::WikimediaCommonsCategory { category: b },
            ) => same_text(a.as_str(), b.as_str()),
            (
                ExternalReference::UnmodeledUrl(a),
                ExternalReference::UnmodeledUrl(b),
            ) => a.same(b),
            _ => false,
        }
    }
}

// --- Reading addresses back ---

/// Whether the host is this one, with or without a leading `www.`.
pub open spec fn is_host(host: Seq<char>, name: Seq<char>) -> bool {
    host == name || host == "www."@ + name
}

/// The host without `www.` is this one exactly where the host is this one, with or
/// without it.
proof fn lemma_is_host(host: Seq<char>, name: Seq<char>)
    requires
        name.len() > 0,
        name[0] != 'w',
    ensures
        is_host(host, name) <==> canonical_host(host) == name,
{
    reveal_strlit("www.");
    if host == name && starts_with(host, "www."@) {
        assert(host.subrange(0, 4)[0] == 'w');
    }
    if host == "www."@ + name {
        assert(host.subrange(0, 4) =~= "www."@);
        assert(host.skip(4) =~= name);
    }
    if canonical_host(host) == name && starts_with(host, "www."@) {
        assert(host =~= "www."@ + name);
    }
}

/// The same of a host that itself starts with `w` but not with `www.`.
proof fn lemma_is_host_by_second(host: Seq<char>, name: Seq<char>)
    requires
        name.len() > 1,
        name[1] != 'w',
    ensures
        is_host(host, name) <==> canonical_host(host) == name,
{
    reveal_strlit("www.");
    if host == name && starts_with(host, "www."@) {
        assert(host.subrange(0, 4)[1] == 'w');
    }
    if host == "www."@ + name {
        assert(host.subrange(0, 4) =~= "www."@);
        assert(host.skip(4) =~= name);
    }
    if canonical_host(host) == name && starts_with(host, "www."@) {
        assert(host =~= "www."@ + name);
    }
}

/// Which host each of the known catalogues has.
proof fn lemma_known_hosts(host: Seq<char>)
    ensures
        is_host(host, "pleiades.stoa.org"@) <==> canonical_host(host) == "pleiades.stoa.org"@,
        is_host(host, "commons.wikimedia.org"@) <==> canonical_host(host)
            == "commons.wikimedia.org"@,
        is_host(host, "wikidata.org"@) <==> canonical_host(host) == "wikidata.org"@,
        is_host(host, "openstreetmap.org"@) <==> canonical_host(host) == "openstreetmap.org"@,
        is_host(host, "openhistoricalmap.org"@) <==> canonical_host(host)
            == "openhistoricalmap.org"@,
        is_host(host, "geonames.org"@) <==> canonical_host(host) == "geonames.org"@,
        is_host(host, "vocab.getty.edu"@) <==> canonical_host(host) == "vocab.getty.edu"@,
        "pleiades.stoa.org"@.len() == 17,
        "commons.wikimedia.org"@.len() == 21,
        "wikidata.org"@.len() == 12,
        "openstreetmap.org"@.len() == 17,
        "openhistoricalmap.org"@.len() == 21,
        "geonames.org"@.len() == 12,
        "vocab.getty.edu"@.len() == 15,
        "pleiades.stoa.org"@[0] == 'p',
        "commons.wikimedia.org"@[0] == 'c',
        "wikidata.org"@[0] == 'w',
        "openstreetmap.org"@[0] == 'o',
        "openhistoricalmap.org"@[0] == 'o',
        "geonames.org"@[0] == 'g',
        "vocab.getty.edu"@[0] == 'v',
{
    reveal_strlit("pleiades.stoa.org");
    reveal_strlit("commons.wikimedia.org");
    reveal_strlit("wikidata.org");
    reveal_strlit("openstreetmap.org");
    reveal_strlit("openhistoricalmap.org");
    reveal_strlit("geonames.org");
    reveal_strlit("vocab.getty.edu");
    lemma_is_host(host, "pleiades.stoa.org"@);
    lemma_is_host(host, "commons.wikimedia.org"@);
    lemma_is_host_by_second(host, "wikidata.org"@);
    lemma_is_host(host, "openstreetmap.org"@);
    lemma_is_host(host, "openhistoricalmap.org"@);
    lemma_is_host(host, "geonames.org"@);
    lemma_is_host(host, "vocab.getty.edu"@);
}

/// The digits of a number stand for it as a segment.
pub proof fn law_digits_are_a_segment_number(n: u64)
    ensures
        segment_number(decimal_digits(n as nat)) == Some(n),
{
    lemma_decimal_round_trip(n as nat);
    let d = decimal_digits(n as nat);
    assert(is_digit(d[0]));
}

/// Whether the segment is the name of the element type in addresses.
pub open spec fn names_element(segment: Seq<char>, element_type: OsmElementType) -> bool {
    match element_type {
        OsmElementType::Node => segment == "node"@,
        OsmElementType::Way => segment == "way"@,
        OsmElementType::Relation => segment == "relation"@,
    }
}

/// The segment that each element type writes is the one it is read from, and no other
/// is.
pub proof fn law_element_segment_reads_back(segment: Seq<char>, element_type: OsmElementType)
    ensures
        names_element(segment, element_type) <==> segment_element(segment) == Some(element_type),
        names_element(segment, element_type) <==> segment == element_type.segment_name(),
{
    reveal_strlit("node");
    reveal_strlit("way");
    reveal_strlit("relation");
    assert("node"@.len() == 4 && "way"@.len() == 3 && "relation"@.len() == 8);
}

/// Reading back the address of an OSM element gives that element.
pub proof fn law_osm_address_reads_back(
    host: Seq<char>,
    segments: Seq<Seq<char>>,
    decoded: Option<Seq<char>>,
    edition_is_tag: bool,
    element_type: OsmElementType,
    n: u64,
)
    requires
        is_host(host, "openstreetmap.org"@),
        segments.len() >= 2,
        names_element(segments[0], element_type),
        segments[1] == decimal_digits(n as nat),
    ensures
        recognized(host, segments, decoded, edition_is_tag) == Some(
            (Reference::OpenStreetMap { element_type, id: n }),
        ),
{
    lemma_known_hosts(host);
    law_element_segment_reads_back(segments[0], element_type);
    law_digits_are_a_segment_number(n);
}

/// Reading back the address of an OHM element gives that element.
pub proof fn law_ohm_address_reads_back(
    host: Seq<char>,
    segments: Seq<Seq<char>>,
    decoded: Option<Seq<char>>,
    edition_is_tag: bool,
    element_type: OsmElementType,
    n: u64,
)
    requires
        is_host(host, "openhistoricalmap.org"@),
        segments.len() >= 2,
        names_element(segments[0], element_type),
        segments[1] == decimal_digits(n as nat),
    ensures
        recognized(host, segments, decoded, edition_is_tag) == Some(
            (Reference::OpenHistoricalMap { element_type, id: n }),
        ),
{
    lemma_known_hosts(host);
    law_element_segment_reads_back(segments[0], element_type);
    law_digits_are_a_segment_number(n);
}

/// The addresses of two elements, of one map or of both, name the same only where map,
/// element type and number are the same.
pub proof fn law_element_addresses_differ(
    hosts: (Seq<char>, Seq<char>),
    segments: (Seq<Seq<char>>, Seq<Seq<char>>),
    decoded: (Option<Seq<char>>, Option<Seq<char>>),
    edition_is_tag: (bool, bool),
    historical: (bool, bool),
    element_types: (OsmElementType, OsmElementType),
    numbers: (u64, u64),
)
    requires
        historical.0 ==> is_host(hosts.0, "openhistoricalmap.org"@),
        !historical.0 ==> is_host(hosts.0, "openstreetmap.org"@),
        historical.1 ==> is_host(hosts.1, "openhistoricalmap.org"@),
        !historical.1 ==> is_host(hosts.1, "openstreetmap.org"@),
        segments.0.len() >= 2,
        segments.1.len() >= 2,
        names_element(segments.0[0], element_types.0),
        names_element(segments.1[0], element_types.1),
        segments.0[1] == decimal_digits(numbers.0 as nat),
        segments.1[1] == decimal_digits(numbers.1 as nat),
        recognized(hosts.0, segments.0, decoded.0, edition_is_tag.0) == recognized(
            hosts.1,
            segments.1,
            decoded.1,
            edition_is_tag.1,
        ),
    ensures
        historical.0 == historical.1,
        element_types.0 == element_types.1,
        numbers.0 == numbers.1,
{
    let (h, i) = hosts;
    let (s, t) = segments;
    if historical.0 {
        law_ohm_address_reads_back(
            h,
            s,
            decoded.0,
            edition_is_tag.0,
            element_types.0,
            numbers.0,
        );
    } else {
        law_osm_address_reads_back(
            h,
            s,
            decoded.0,
            edition_is_tag.0,
            element_types.0,
            numbers.0,
        );
    }
    if historical.1 {
        law_ohm_address_reads_back(
            i,
            t,
            decoded.1,
            edition_is_tag.1,
            element_types.1,
            numbers.1,
        );
    } else {
        law_osm_address_reads_back(
            i,
            t,
            decoded.1,
            edition_is_tag.1,
            element_types.1,
            numbers.1,
        );
    }
}

/// Reading back the address of a numbered catalogue entry gives that entry: a Pleiades
/// place, a Wikidata item under either of its paths, a GeoNames feature, a Getty TGN
/// entry.
pub proof fn law_catalogue_address_reads_back(
    host: Seq<char>,
    segments: Seq<Seq<char>>,
    decoded: Option<Seq<char>>,
    edition_is_tag: bool,
    n: u64,
)
    ensures
        is_host(host, "pleiades.stoa.org"@) && segments.len() >= 2 && segments[0] == "places"@
            && segments[1] == decimal_digits(n as nat) ==> recognized(
            host,
            segments,
            decoded,
            edition_is_tag,
        ) == Some((Reference::Pleiades { place_id: n })),
        is_host(host, "wikidata.org"@) && segments.len() >= 2 && (segments[0] == "wiki"@
            || segments[0] == "entity"@) && segments[1] == seq!['Q'] + decimal_digits(n as nat)
            ==> recognized(host, segments, decoded, edition_is_tag) == Some(
            (Reference::Wikidata { qid: n }),
        ),
        is_host(host, "geonames.org"@) && segments.len() >= 1 && segments[0] == decimal_digits(
            n as nat,
        ) ==> recognized(host, segments, decoded, edition_is_tag) == Some(
            (Reference::GeoNames { id: n }),
        ),
        is_host(host, "vocab.getty.edu"@) && segments.len() >= 2 && segments[0] == "tgn"@
            && segments[1] == decimal_digits(n as nat) ==> recognized(
            host,
            segments,
            decoded,
            edition_is_tag,
        ) == Some((Reference::GettyTgn { id: n })),
{
    lemma_known_hosts(host);
    law_digits_are_a_segment_number(n);
    law_wikidata_round_trip('Q', n);
}

/// A Commons page of a category names it, with spaces for underscores.
pub proof fn law_commons_address_reads_back(
    host: Seq<char>,
    segments: Seq<Seq<char>>,
    edition_is_tag: bool,
    name: Seq<char>,
)
    requires
        is_host(host, "commons.wikimedia.org"@),
        segments.len() >= 2,
        segments[0] == "wiki"@,
        name.len() > 0,
    ensures
        recognized(host, segments, Some("Category:"@ + name), edition_is_tag) matches Some(
            Reference::WikimediaCommonsCategory { category },
        ) && category.len() == name.len() && (forall|i: int|
            0 <= i < name.len() ==> #[trigger] category[i] == (if name[i] == '_' {
                ' '
            } else {
                name[i]
            })),
{
    lemma_known_hosts(host);
    let page = "Category:"@ + name;
    assert(page.subrange(0, "Category:"@.len() as int) =~= "Category:"@);
    assert(page.skip("Category:"@.len() as int) =~= name);
}

/// The address of an article of a Wikipedia edition names the edition and the article,
/// with spaces for underscores.
pub proof fn law_wikipedia_address_reads_back(
    language: Seq<char>,
    segments: Seq<Seq<char>>,
    page: Seq<char>,
)
    requires
        !language.contains('.'),
        segments.len() >= 2,
        segments[0] == "wiki"@,
        page.len() > 0,
    ensures
        recognized(language + ".wikipedia.org"@, segments, Some(page), true) matches Some(
            Reference::Wikipedia { language: edition, title },
        ) && edition == language && title.len() == page.len() && (forall|i: int|
            0 <= i < page.len() ==> #[trigger] title[i] == (if page[i] == '_' {
                ' '
            } else {
                page[i]
            })),
        recognized(language + ".wikipedia.org"@, segments, Some(page), false) is None,
{
    let host = language + ".wikipedia.org"@;
    lemma_wikipedia_host(language);
    assert(host.subrange(language.len() as int, host.len() as int) =~= ".wikipedia.org"@);
    assert(host.take(language.len() as int) =~= language);
}

/// The host of a Wikipedia edition is none of the known hosts.
proof fn lemma_wikipedia_host(language: Seq<char>)
    requires
        !language.contains('.'),
    ensures
        ({
            let bare = canonical_host(language + ".wikipedia.org"@);
            &&& bare != "pleiades.stoa.org"@
            &&& bare != "commons.wikimedia.org"@
            &&& bare != "wikidata.org"@
            &&& bare != "openstreetmap.org"@
            &&& bare != "openhistoricalmap.org"@
            &&& bare != "geonames.org"@
            &&& bare != "vocab.getty.edu"@
        }),
{
    reveal_strlit("www.");
    reveal_strlit(".wikipedia.org");
    reveal_strlit("pleiades.stoa.org");
    reveal_strlit("commons.wikimedia.org");
    reveal_strlit("wikidata.org");
    reveal_strlit("openstreetmap.org");
    reveal_strlit("openhistoricalmap.org");
    reveal_strlit("geonames.org");
    reveal_strlit("vocab.getty.edu");
    let host = language + ".wikipedia.org"@;
    let n = language.len() as int;
    let bare = canonical_host(host);
    if starts_with(host, "www."@) {
        let start = host.subrange(0, 4);
        assert(start[0] == host[0] && start[1] == host[1] && start[2] == host[2] && start[3]
            == host[3]);
        if n > 3 {
            assert(language[3] == '.');
            assert(language.contains('.'));
        }
        if n < 3 {
            assert(host[n] == '.');
        }
        assert(n == 3);
        assert(bare == host.skip(4));
        assert(bare.len() == 13);
        assert(bare[0] == host[4]);
        assert(bare[0] == 'w');
    } else {
        assert(bare == host);
        assert(host[n + 13] == 'g');
        assert(host[n + 9] == 'a');
        assert(host[n + 8] == 'i');
        assert(host[n + 5] == 'p');
        assert("pleiades.stoa.org"@[11] == 'o');
        assert("commons.wikimedia.org"@[12] == 'm');
        assert("openstreetmap.org"@[12] == 'p');
        assert("openhistoricalmap.org"@[16] == 'p');
        assert("vocab.getty.edu"@[14] == 'u');
    }
    assert("pleiades.stoa.org"@.len() == 17);
    assert("commons.wikimedia.org"@.len() == 21);
    assert("wikidata.org"@.len() == 12);
    assert("openstreetmap.org"@.len() == 17);
    assert("openhistoricalmap.org"@.len() == 21);
    assert("geonames.org"@.len() == 12);
    assert("vocab.getty.edu"@.len() == 15);
}

/// A reference that an address names says what the address says: the host is that of
/// the catalogue, the path is of its form, and number, name and title are those of the
/// path.
pub proof fn law_reference_says_what_the_address_says(
    host: Seq<char>,
    segments: Seq<Seq<char>>,
    decoded: Option<Seq<char>>,
    edition_is_tag: bool,
)
    ensures
        match recognized(host, segments, decoded, edition_is_tag) {
            None => true,
            Some(Reference::Pleiades { place_id }) => is_host(host, "pleiades.stoa.org"@)
                && segments.len() >= 2 && segments[0] == "places"@ && unsigned_number(segments[1])
                == Some(place_id as int),
            Some(Reference::Wikidata { qid }) => is_host(host, "wikidata.org"@) && segments.len()
                >= 2 && (segments[0] == "wiki"@ || segments[0] == "entity"@) && segments[1].len()
                > 1 && segments[1][0] == 'Q' && all_digits(segments[1].skip(1)) && decimal_value(
                segments[1].skip(1),
            ) == qid,
            Some(Reference::OpenStreetMap { element_type, id }) => is_host(
                host,
                "openstreetmap.org"@,
            ) && segments.len() >= 2 && names_element(segments[0], element_type)
                && unsigned_number(segments[1]) == Some(id as int),
            Some(Reference::OpenHistoricalMap { element_type, id }) => is_host(
                host,
                "openhistoricalmap.org"@,
            ) && segments.len() >= 2 && names_element(segments[0], element_type)
                && unsigned_number(segments[1]) == Some(id as int),
            Some(Reference::GeoNames { id }) => is_host(host, "geonames.org"@) && segments.len()
                >= 1 && unsigned_number(segments[0]) == Some(id as int),
            Some(Reference::GettyTgn { id }) => is_host(host, "vocab.getty.edu"@)
                && segments.len() >= 2 && segments[0] == "tgn"@ && unsigned_number(segments[1])
                == Some(id as int),
            Some(Reference::WikimediaCommonsCategory { category }) => is_host(
                host,
                "commons.wikimedia.org"@,
            ) && segments.len() >= 2 && segments[0] == "wiki"@ && decoded is Some
                && decoded->0.len() == "Category:"@.len() + category.len() && category.len() > 0
                && decoded->0.take("Category:"@.len() as int) == "Category:"@ && !category.contains(
                '_',
            ),
            Some(Reference::Wikipedia { language, title }) => host == language
                + ".wikipedia.org"@ && !language.contains('.') && edition_is_tag && segments.len()
                >= 2 && segments[0] == "wiki"@ && decoded is Some && decoded->0.len()
                == title.len() && title.len() > 0 && !title.contains('_'),
            Some(Reference::Nrhp { .. }) => false,
            Some(Reference::UnmodeledUrl { .. }) => false,
        },
{
    lemma_known_hosts(host);
    lemma_numbers_not_negative(segments);
    match recognized(host, segments, decoded, edition_is_tag) {
        Some(Reference::OpenStreetMap { element_type, .. }) => {
            law_element_segment_reads_back(segments[0], element_type);
        },
        Some(Reference::OpenHistoricalMap { element_type, .. }) => {
            law_element_segment_reads_back(segments[0], element_type);
        },
        Some(Reference::WikimediaCommonsCategory { category }) => {
            let page = decoded->0;
            assert(page.take("Category:"@.len() as int) =~= page.subrange(
                0,
                "Category:"@.len() as int,
            ));
            lemma_spaced(page.skip("Category:"@.len() as int));
        },
        Some(Reference::Wikipedia { language, title }) => {
            let n = host.len() - ".wikipedia.org"@.len();
            assert(host.subrange(n, host.len() as int) == ".wikipedia.org"@);
            assert(host =~= host.take(n) + host.subrange(n, host.len() as int));
            lemma_spaced(decoded->0);
        },
        _ => {},
    }
}

/// The numbers that the first two segments stand for are not negative.
proof fn lemma_numbers_not_negative(segments: Seq<Seq<char>>)
    ensures
        segments.len() > 0 ==> (unsigned_number(segments[0]) matches Some(n) ==> n >= 0),
        segments.len() > 1 ==> (unsigned_number(segments[1]) matches Some(n) ==> n >= 0),
        segments.len() > 1 ==> (wikidata_number(segments[1], 'Q') matches Some(n) ==> n >= 0),
{
    assert forall|k: int|
        0 <= k < segments.len() && all_digits(#[trigger] segments[k]) implies decimal_value(
        segments[k],
    ) >= 0 by {
        lemma_decimal_not_negative(segments[k]);
    }
    assert forall|k: int|
        0 <= k < segments.len() && all_digits((#[trigger] segments[k]).skip(1)) implies decimal_value(
        segments[k].skip(1),
    ) >= 0 by {
        lemma_decimal_not_negative(segments[k].skip(1));
    }
}

/// No underscore is left where spaces stand for them.
proof fn lemma_spaced(s: Seq<char>)
    ensures
        !spaced(s).contains('_'),
        spaced(s).len() == s.len(),
{
    let t = spaced(s);
    assert forall|i: int| 0 <= i < t.len() implies #[trigger] t[i] != '_' by {}
}

/// An address whose host and path are those of an OSM or OHM element names that
/// element, whatever empty segments its path ends with.
pub proof fn law_element_url_reads_back(
    text: Seq<char>,
    host: Seq<char>,
    name: Seq<char>,
    element_type: OsmElementType,
    n: u64,
)
    requires
        names_element(name, element_type),
    ensures
        is_host(host, "openstreetmap.org"@) ==> recognized_url(
            (text, Some(host), Some(seq![name, decimal_digits(n as nat)])),
        ) == Some((Reference::OpenStreetMap { element_type, id: n })),
        is_host(host, "openhistoricalmap.org"@) ==> recognized_url(
            (text, Some(host), Some(seq![name, decimal_digits(n as nat)])),
        ) == Some((Reference::OpenHistoricalMap { element_type, id: n })),
        recognized_url((text, None, Some(seq![name, decimal_digits(n as nat)]))) is None,
{
    let segments = seq![name, decimal_digits(n as nat)];
    law_named_segments_are_kept(segments.take(1), segments[1]);
    law_named_segments_are_kept(Seq::empty(), name);
    lemma_decimal_round_trip(n as nat);
    law_element_segment_reads_back(name, element_type);
    reveal_strlit("node");
    reveal_strlit("way");
    reveal_strlit("relation");
    assert(Seq::<Seq<char>>::empty().push(name) =~= segments.take(1));
    assert(segments.take(1).push(segments[1]) =~= segments);
    assert(nonempty_segments(Some(segments)) =~= segments);
    if is_host(host, "openstreetmap.org"@) {
        law_osm_address_reads_back(
            host,
            segments,
            page_decoded(segments),
            edition_tagged(host),
            element_type,
            n,
        );
    }
    if is_host(host, "openhistoricalmap.org"@) {
        law_ohm_address_reads_back(
            host,
            segments,
            page_decoded(segments),
            edition_tagged(host),
            element_type,
            n,
        );
    }
}

/// The address of an article names the edition of its host and the article of its
/// percent-decoded path, and the address of a category page on Commons that category.
pub proof fn law_page_url_reads_back(
    text: Seq<char>,
    host: Seq<char>,
    page: Seq<char>,
    decoded: Seq<char>,
    language: Seq<char>,
)
    requires
        page.len() > 0,
        percent_decoded(page) == Some(decoded),
    ensures
        host == language + ".wikipedia.org"@ && !language.contains('.') && language_tag(language)
            && decoded.len() > 0 ==> recognized_url(
            (text, Some(host), Some(seq!["wiki"@, page])),
        ) == Some((Reference::Wikipedia { language, title: spaced(decoded) })),
        host == language + ".wikipedia.org"@ && !language.contains('.') && !language_tag(language)
            ==> recognized_url((text, Some(host), Some(seq!["wiki"@, page]))) is None,
        is_host(host, "commons.wikimedia.org"@) && starts_with(decoded, "Category:"@)
            && decoded.len() > "Category:"@.len() ==> recognized_url(
            (text, Some(host), Some(seq!["wiki"@, page])),
        ) == Some(
            (Reference::WikimediaCommonsCategory {
                category: spaced(decoded.skip("Category:"@.len() as int)),
            }),
        ),
{
    let segments = seq!["wiki"@, page];
    reveal_strlit("wiki");
    law_named_segments_are_kept(Seq::empty(), "wiki"@);
    law_named_segments_are_kept(segments.take(1), page);
    assert(Seq::<Seq<char>>::empty().push("wiki"@) =~= segments.take(1));
    assert(segments.take(1).push(page) =~= segments);
    assert(nonempty_segments(Some(segments)) =~= segments);
    lemma_known_hosts(host);
    if host == language + ".wikipedia.org"@ && !language.contains('.') {
        lemma_wikipedia_host(language);
        assert(host.subrange(language.len() as int, host.len() as int) =~= ".wikipedia.org"@);
        assert(host.take(language.len() as int) =~= language);
    }
}

} // verus!
