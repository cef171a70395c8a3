//! Identifier types for external knowledge bases (`OpenStreetMap`,
//! `OpenHistoricalMap`, Wikidata, `GeoNames`, Getty TGN, Pleiades, NRHP).
//!
//! The Wikidata ids hold the numeric part of `Q<n>` / `P<n>`, so a malformed id
//! is unrepresentable; `NrhpReferenceNumber` stays a string because its leading
//! zeros and letter suffixes are part of its identity.
use vstd::prelude::*;
use vstd::string::*;

use crate::text::{
    all_digits, chars_of, decimal_digits, decimal_text, decimal_value, digits_from,
    lemma_decimal_round_trip, parse_digits, same_text,
};

verus! {

// --- Errors ---

/// Error of reading the string-shaped external id.
#[derive(Debug, Clone, Copy, PartialEq, Eq, Structural)]
pub enum ExternalStringIdError {
    /// The supplied string was empty.
    Empty,
}

/// Error returned when parsing a Wikidata id from its string form
/// (`<prefix><digits>`, e.g. `"Q12345"` / `"P1448"`).
#[derive(Debug, Clone, PartialEq, Eq)]
pub enum WikidataIdParseError {
    /// The input was empty.
    Empty,
    /// The first character was not the expected prefix.
    WrongPrefix { expected: char, found: String },
    /// The prefix was present but no digits followed it.
    MissingDigits { expected: char, found: String },
    /// A character after the prefix was not an ASCII digit.
    NonDigitTail { expected: char, found: String },
    /// The digits parsed but overflowed `u64`.
    Overflow { found: String },
}

// --- Numeric ids ---

/// `OpenStreetMap` element id. Combined with [`OsmElementType`] to
/// disambiguate node / way / relation references.
#[derive(Debug, Clone, Copy, PartialEq, Eq, PartialOrd, Ord, Hash, Structural)]
pub struct OsmId {
    inner: u64,
}

/// `OpenHistoricalMap` element id.
#[derive(Debug, Clone, Copy, PartialEq, Eq, PartialOrd, Ord, Hash, Structural)]
pub struct OhmId {
    inner: u64,
}

/// `GeoNames` geographical feature id.
#[derive(Debug, Clone, Copy, PartialEq, Eq, PartialOrd, Ord, Hash, Structural)]
pub struct GeoNamesId {
    inner: u64,
}

/// Getty Thesaurus of Geographic Names entry id.
#[derive(Debug, Clone, Copy, PartialEq, Eq, PartialOrd, Ord, Hash, Structural)]
pub struct GettyTgnId {
    inner: u64,
}

/// Pleiades gazetteer place id.
#[derive(Debug, Clone, Copy, PartialEq, Eq, PartialOrd, Ord, Hash, Structural)]
pub struct PleiadesPlaceId {
    inner: u64,
}

impl OsmId {
    /// The number of this id.
    pub closed spec fn number(self) -> u64 {
        self.inner
    }

    /// Wrap a raw external identifier.
    pub fn new(id: u64) -> (r: Self)
        ensures
            r.number() == id,
    {
        OsmId { inner: id }
    }

    /// The underlying integer.
    pub fn get(self) -> (r: u64)
        ensures
            r == self.number(),
    {
        self.inner
    }

    /// The id in decimal digits.
    pub fn to_string(&self) -> (r: String)
        ensures
            r@ == decimal_digits(self.number() as nat),
    {
        decimal_text(self.inner)
    }
}

impl OhmId {
    /// The number of this id.
    pub closed spec fn number(self) -> u64 {
        self.inner
    }

    /// Wrap a raw external identifier.
    pub fn new(id: u64) -> (r: Self)
        ensures
            r.number() == id,
    {
        OhmId { inner: id }
    }

    /// The underlying integer.
    pub fn get(self) -> (r: u64)
        ensures
            r == self.number(),
    {
        self.inner
    }

    /// The id in decimal digits.
    pub fn to_string(&self) -> (r: String)
        ensures
            r@ == decimal_digits(self.number() as nat),
    {
        decimal_text(self.inner)
    }
}

impl GeoNamesId {
    /// The number of this id.
    pub closed spec fn number(self) -> u64 {
        self.inner
    }

    /// Wrap a raw external identifier.
    pub fn new(id: u64) -> (r: Self)
        ensures
            r.number() == id,
    {
        GeoNamesId { inner: id }
    }

    /// The underlying integer.
    pub fn get(self) -> (r: u64)
        ensures
            r == self.number(),
    {
        self.inner
    }

    /// The id in decimal digits.
    pub fn to_string(&self) -> (r: String)
        ensures
            r@ == decimal_digits(self.number() as nat),
    {
        decimal_text(self.inner)
    }
}

impl GettyTgnId {
    /// The number of this id.
    pub closed spec fn number(self) -> u64 {
        self.inner
    }

    /// Wrap a raw external identifier.
    pub fn new(id: u64) -> (r: Self)
        ensures
            r.number() == id,
    {
        GettyTgnId { inner: id }
    }

    /// The underlying integer.
    pub fn get(self) -> (r: u64)
        ensures
            r == self.number(),
    {
        self.inner
    }

    /// The id in decimal digits.
    pub fn to_string(&self) -> (r: String)
        ensures
            r@ == decimal_digits(self.number() as nat),
    {
        decimal_text(self.inner)
    }
}

impl PleiadesPlaceId {
    /// The number of this id.
    pub closed spec fn number(self) -> u64 {
        self.inner
    }

    /// Wrap a raw external identifier.
    pub fn new(id: u64) -> (r: Self)
        ensures
            r.number() == id,
    {
        PleiadesPlaceId { inner: id }
    }

    /// The underlying integer.
    pub fn get(self) -> (r: u64)
        ensures
            r == self.number(),
    {
        self.inner
    }

    /// The id in decimal digits.
    pub fn to_string(&self) -> (r: String)
        ensures
            r@ == decimal_digits(self.number() as nat),
    {
        decimal_text(self.inner)
    }
}

// --- OSM element types ---

/// `OpenStreetMap` element types.
#[derive(Debug, Clone, Copy, PartialEq, Eq, PartialOrd, Ord, Hash, Structural)]
pub enum OsmElementType {
    Node,
    Way,
    Relation,
}

impl OsmElementType {
    /// The name of the element type in element URLs.
    pub open spec fn segment_name(self) -> Seq<char> {
        match self {
            OsmElementType::Node => "node"@,
            OsmElementType::Way => "way"@,
            OsmElementType::Relation => "relation"@,
        }
    }

    /// The URL path segment naming this element type, as used in OSM and OHM
    /// element URLs.
    pub fn segment(self) -> (r: &'static str)
        ensures
            r@ == self.segment_name(),
    {
        match self {
            OsmElementType::Node => "node",
            OsmElementType::Way => "way",
            OsmElementType::Relation => "relation",
        }
    }

    /// The element type a URL path segment names, the inverse of
    /// [`segment`](Self::segment); `None` for any other segment.
    pub fn from_segment(segment: &str) -> (r: Option<Self>)
        ensures
            r is Some ==> r->0.segment_name() == segment@,
            r is None ==> forall|t: OsmElementType| #[trigger] t.segment_name() != segment@,
    {
        if same_text(segment, "node") {
            Some(OsmElementType::Node)
        } else if same_text(segment, "way") {
            Some(OsmElementType::Way)
        } else if same_text(segment, "relation") {
            Some(OsmElementType::Relation)
        } else {
            None
        }
    }
}

/// Different element types have different segment names, so reading back a
/// written segment gives the element type that wrote it.
pub proof fn law_segment_round_trip(a: OsmElementType, b: OsmElementType)
    requires
        a.segment_name() == b.segment_name(),
    ensures
        a == b,
{
    reveal_strlit("node");
    reveal_strlit("way");
    reveal_strlit("relation");
    assert("node"@.len() == 4 && "way"@.len() == 3 && "relation"@.len() == 8);
}

// --- Wikidata ids ---

/// What the text of a Wikidata id with this prefix stands for.
pub open spec fn wikidata_number(s: Seq<char>, prefix: char) -> Option<int> {
    if s.len() > 1 && s[0] == prefix && all_digits(s.skip(1)) {
        Some(decimal_value(s.skip(1)))
    } else {
        None
    }
}

/// What parsing `s` with this prefix gives.
pub open spec fn wikidata_parse(
    s: Seq<char>,
    prefix: char,
    r: Result<u64, WikidataIdParseError>,
) -> bool {
    if s.len() == 0 {
        r matches Err(WikidataIdParseError::Empty)
    } else if s[0] != prefix {
        r matches Err(WikidataIdParseError::WrongPrefix { expected, found }) && expected == prefix
            && found@ == s
    } else if s.len() == 1 {
        r matches Err(WikidataIdParseError::MissingDigits { expected, found }) && expected == prefix
            && found@ == s
    } else if !all_digits(s.skip(1)) {
        r matches Err(WikidataIdParseError::NonDigitTail { expected, found }) && expected == prefix
            && found@ == s
    } else if decimal_value(s.skip(1)) > u64::MAX {
        r matches Err(WikidataIdParseError::Overflow { found }) && found@ == s
    } else {
        r matches Ok(n) && n == decimal_value(s.skip(1))
    }
}

/// Parser core shared by the two Wikidata id types: validate that `s` is
/// `<prefix><digits>` and return the numeric part.
fn parse_wikidata_id(s: &str, prefix: char) -> (r: Result<u64, WikidataIdParseError>)
    ensures
        wikidata_parse(s@, prefix, r),
{
    let all = chars_of(s);
    if all.len() == 0 {
        return Err(WikidataIdParseError::Empty);
    }
    if all[0] != prefix {
        return Err(WikidataIdParseError::WrongPrefix { expected: prefix, found: s.to_owned() });
    }
    if all.len() == 1 {
        return Err(WikidataIdParseError::MissingDigits { expected: prefix, found: s.to_owned() });
    }
    if !digits_from(all.as_slice(), 1) {
        return Err(WikidataIdParseError::NonDigitTail { expected: prefix, found: s.to_owned() });
    }
    match parse_digits(all.as_slice(), 1) {
        Some(n) => Ok(n),
        None => Err(WikidataIdParseError::Overflow { found: s.to_owned() }),
    }
}

/// The canonical text of a Wikidata id.
pub open spec fn wikidata_text(prefix: char, n: u64) -> Seq<char> {
    seq![prefix] + decimal_digits(n as nat)
}

/// Reading the canonical text of a Wikidata id gives its number back.
pub proof fn law_wikidata_round_trip(prefix: char, n: u64)
    ensures
        wikidata_number(wikidata_text(prefix, n), prefix) == Some(n as int),
        forall|r: Result<u64, WikidataIdParseError>| #[trigger]
            wikidata_parse(wikidata_text(prefix, n), prefix, r) ==> r == Ok::<
                u64,
                WikidataIdParseError,
            >(n),
{
    lemma_decimal_round_trip(n as nat);
    assert(wikidata_text(prefix, n).skip(1) =~= decimal_digits(n as nat));
}

/// The canonical text of an id with this prefix.
fn prefixed_text(prefix: char, n: u64) -> (r: String)
    ensures
        r@ == wikidata_text(prefix, n),
{
    let mut out = String::new();
    out.push(prefix);
    let digits = decimal_text(n);
    out.append(digits.as_str());
    assert(out@ =~= wikidata_text(prefix, n));
    out
}

/// Wikidata entity id (e.g. `"Q12345"`), stored as the numeric part.
#[derive(Debug, Clone, Copy, PartialEq, Eq, PartialOrd, Ord, Hash, Structural)]
pub struct WikidataEntityId {
    inner: u64,
}

impl WikidataEntityId {
    /// The numeric part.
    pub closed spec fn number(self) -> u64 {
        self.inner
    }

    /// Wrap an already-numeric entity id (the `n` in `Q<n>`).
    pub fn new(n: u64) -> (r: Self)
        ensures
            r.number() == n,
    {
        WikidataEntityId { inner: n }
    }

    /// Parse the canonical `Q<digits>` string form.
    pub fn parse(s: &str) -> (r: Result<Self, WikidataIdParseError>)
        ensures
            r is Ok <==> wikidata_number(s@, 'Q') is Some && wikidata_number(s@, 'Q')->0
                <= u64::MAX,
            wikidata_parse(
                s@,
                'Q',
                match r {
                    Ok(id) => Ok(id.number()),
                    Err(e) => Err(e),
                },
            ),
    {
        match parse_wikidata_id(s, 'Q') {
            Ok(inner) => Ok(WikidataEntityId { inner }),
            Err(e) => Err(e),
        }
    }

    /// The numeric part (the `n` in `Q<n>`).
    pub fn get(self) -> (r: u64)
        ensures
            r == self.number(),
    {
        self.inner
    }

    /// The canonical text, `Q` and the decimal digits.
    pub fn to_string(&self) -> (r: String)
        ensures
            r@ == wikidata_text('Q', self.number()),
    {
        prefixed_text('Q', self.inner)
    }
}

/// Wikidata property id (e.g. `"P12345"`), stored as the numeric part.
#[derive(Debug, Clone, Copy, PartialEq, Eq, PartialOrd, Ord, Hash, Structural)]
pub struct WikidataPropertyId {
    inner: u64,
}

impl WikidataPropertyId {
    /// The numeric part.
    pub closed spec fn number(self) -> u64 {
        self.inner
    }

    /// Wrap an already-numeric property id (the `n` in `P<n>`).
    pub fn new(n: u64) -> (r: Self)
        ensures
            r.number() == n,
    {
        WikidataPropertyId { inner: n }
    }

    /// Parse the canonical `P<digits>` string form.
    pub fn parse(s: &str) -> (r: Result<Self, WikidataIdParseError>)
        ensures
            r is Ok <==> wikidata_number(s@, 'P') is Some && wikidata_number(s@, 'P')->0
                <= u64::MAX,
            wikidata_parse(
                s@,
                'P',
                match r {
                    Ok(id) => Ok(id.number()),
                    Err(e) => Err(e),
                },
            ),
    {
        match parse_wikidata_id(s, 'P') {
            Ok(inner) => Ok(WikidataPropertyId { inner }),
            Err(e) => Err(e),
        }
    }

    /// The numeric part (the `n` in `P<n>`).
    pub fn get(self) -> (r: u64)
        ensures
            r == self.number(),
    {
        self.inner
    }

    /// The canonical text, `P` and the decimal digits.
    pub fn to_string(&self) -> (r: String)
        ensures
            r@ == wikidata_text('P', self.number()),
    {
        prefixed_text('P', self.inner)
    }
}

// --- NRHP reference number ---

/// US National Register of Historic Places reference number. Wrapped as a
/// string because the leading zeros are part of the identity and a letter
/// suffix is legitimate.
#[derive(Debug, PartialEq, Eq, PartialOrd, Ord, Hash)]
pub struct NrhpReferenceNumber {
    inner: String,
}

impl View for NrhpReferenceNumber {
    type V = Seq<char>;

    closed spec fn view(&self) -> Seq<char> {
        self.inner@
    }
}

impl Clone for NrhpReferenceNumber {
    fn clone(&self) -> (r: Self)
        ensures
            r == *self,
    {
        NrhpReferenceNumber { inner: self.inner.clone() }
    }
}

impl NrhpReferenceNumber {
    /// Wrap an in-process string.
    pub fn new(number: String) -> (r: Self)
        ensures
            r@ == number@,
    {
        NrhpReferenceNumber { inner: number }
    }

    /// Read a reference number from outside; the empty string is none.
    pub fn parse(number: String) -> (r: Result<Self, ExternalStringIdError>)
        ensures
            number@.len() == 0 ==> r == Err::<NrhpReferenceNumber, ExternalStringIdError>(
                ExternalStringIdError::Empty,
            ),
            number@.len() > 0 ==> r is Ok && r->Ok_0@ == number@,
    {
        if number.as_str().is_empty() {
            return Err(ExternalStringIdError::Empty);
        }
        Ok(NrhpReferenceNumber { inner: number })
    }

    /// The underlying string slice.
    pub fn as_str(&self) -> (r: &str)
        ensures
            r@ == self@,
    {
        self.inner.as_str()
    }
}

// --- TriggerEventId ---

/// Reference to an external event that triggered a transition, such as the
/// Wikidata event id `"Q362"`.
#[derive(Debug, Clone, PartialEq, Eq, Hash)]
pub struct TriggerEventId(pub String);

/// A Wikidata id is its prefix and any digits: one digit makes that number, and one more
/// ten times the number and the digit.
pub proof fn law_wikidata_number_by_digits(s: Seq<char>, prefix: char, c: char)
    requires
        '0' <= c <= '9',
    ensures
        wikidata_number(seq![prefix, c], prefix) == Some(c as int - '0' as int),
        (wikidata_number(s, prefix) matches Some(n) ==> wikidata_number(s.push(c), prefix) == Some(
            10 * n + (c as int - '0' as int),
        )),
{
    reveal_with_fuel(decimal_value, 2);
    let one = seq![prefix, c];
    assert(one.skip(1) =~= seq![c]);
    assert(seq![c].drop_last() =~= Seq::empty());
    if wikidata_number(s, prefix) is Some {
        let t = s.push(c);
        assert(t.skip(1) =~= s.skip(1).push(c));
        assert(s.skip(1).push(c).drop_last() =~= s.skip(1));
        assert forall|i: int| 0 <= i < t.skip(1).len() implies '0' <= #[trigger] t.skip(1)[i]
            <= '9' by {
            if i < s.skip(1).len() {
                assert(t.skip(1)[i] == s.skip(1)[i]);
            }
        }
    }
}

/// What a text is refused for as a Wikidata id, and when it is one.
pub proof fn law_wikidata_refused_for(
    s: Seq<char>,
    prefix: char,
    r: Result<u64, WikidataIdParseError>,
)
    requires
        wikidata_parse(s, prefix, r),
    ensures
        s.len() == 0 <==> r matches Err(WikidataIdParseError::Empty),
        s.len() > 0 && s[0] != prefix <==> (r matches Err(WikidataIdParseError::WrongPrefix {
            expected,
            found,
        }) && expected == prefix && found@ == s),
        s == seq![prefix] <==> (r matches Err(WikidataIdParseError::MissingDigits {
            expected,
            found,
        }) && expected == prefix && found@ == s),
        (s.len() > 1 && s[0] == prefix && exists|i: int|
            0 < i < s.len() && !('0' <= #[trigger] s[i] <= '9')) <==> (r matches Err(
            WikidataIdParseError::NonDigitTail { expected, found },
        ) && expected == prefix && found@ == s),
        r is Ok <==> (wikidata_number(s, prefix) matches Some(n) && n <= u64::MAX),
        (r matches Ok(n) ==> wikidata_number(s, prefix) == Some(n as int)),
        (r matches Err(WikidataIdParseError::Overflow { found }) ==> found@ == s
            && wikidata_number(s, prefix) is Some && wikidata_number(s, prefix)->0 > u64::MAX),
{
    if s.len() == 1 && s[0] == prefix {
        assert(s =~= seq![prefix]);
    }
    if s.len() > 1 {
        let tail = s.skip(1);
        assert forall|i: int| 0 < i < s.len() implies #[trigger] s[i] == tail[i - 1] by {}
        assert forall|i: int| 0 <= i < tail.len() implies #[trigger] tail[i] == s[i + 1] by {}
        if !all_digits(tail) {
            let i = choose|i: int| 0 <= i < tail.len() && !('0' <= #[trigger] tail[i] <= '9');
            assert(!('0' <= s[i + 1] <= '9'));
        }
    }
}

} // verus!
