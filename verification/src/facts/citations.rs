//! Citations and source vocabularies for fact assertions.
//!
//! Every assertion in the fact store is paired with a citation:
//!
//! - **Factual** assertions pair with a [`FactualCitation`]: an
//!   [`ExternalSource`] plus one or more verbatim [`Excerpt`]s.
//! - **Judgment** assertions pair with a [`JudgmentSource`].
//! - **Meta** assertions pair with a [`MetaSource`].
use vstd::prelude::*;
use vstd::string::*;

use crate::algebra::ordered::OrderedSet;
use crate::date::UncertainDate;
use crate::external_ids::{WikidataEntityId, WikidataPropertyId};
use crate::facts::geometry::ImageRegion;
use crate::facts::ids::{
    validate, AnalyzerProcess, AnalyzerVersion, FactId, ImageId, IngesterRunId, UserId,
    ValidatedStringError,
};
use crate::facts::web::WebUrl;
use crate::nonempty::NonEmptyVec;
use crate::text::{chars_of, decimal_text, is_digit, text_of, trimmed};

verus! {

// --- Excerpt ---

/// Maximum length for an [`Excerpt`] in characters. Sized to fit a long
/// paragraph of prose while preventing pathological dumps.
pub const EXCERPT_MAX_LEN: usize = 4096;

/// A verbatim snippet of source material backing an assertion.
#[derive(Debug, PartialEq, Eq, Hash)]
pub struct Excerpt {
    inner: String,
}

/// Errors from [`Excerpt::new`].
#[derive(Debug, Clone, Copy, PartialEq, Eq, Structural)]
pub enum ExcerptError {
    /// The supplied text was empty.
    Empty,
    /// The supplied text exceeded [`EXCERPT_MAX_LEN`] characters.
    TooLong { len: usize, max: usize },
}

impl View for Excerpt {
    type V = Seq<char>;

    closed spec fn view(&self) -> Seq<char> {
        self.inner@
    }
}

impl Clone for Excerpt {
    fn clone(&self) -> (r: Self)
        ensures
            r == *self,
    {
        Excerpt { inner: self.inner.clone() }
    }
}

impl Excerpt {
    /// Construct an excerpt. Rejects empty strings and strings longer than
    /// [`EXCERPT_MAX_LEN`] characters.
    pub fn new(text: &str) -> (r: Result<Self, ExcerptError>)
        ensures
            text@.len() == 0 ==> r == Err::<Excerpt, ExcerptError>(ExcerptError::Empty),
            text@.len() > EXCERPT_MAX_LEN ==> r == Err::<Excerpt, ExcerptError>(
                ExcerptError::TooLong { len: text@.len() as usize, max: EXCERPT_MAX_LEN },
            ),
            0 < text@.len() <= EXCERPT_MAX_LEN ==> r is Ok && r->Ok_0@ == text@,
    {
        let len: usize = text.unicode_len();
        if len == 0 {
            return Err(ExcerptError::Empty);
        }
        if len > EXCERPT_MAX_LEN {
            return Err(ExcerptError::TooLong { len, max: EXCERPT_MAX_LEN });
        }
        Ok(Excerpt { inner: text.to_owned() })
    }

    /// The underlying string slice.
    pub fn as_str(&self) -> (r: &str)
        ensures
            r@ == self@,
    {
        self.inner.as_str()
    }
}

/// The two texts around the decimal digits of a number.
pub open spec fn around(before: Seq<char>, n: nat, after: Seq<char>) -> Seq<char> {
    before + crate::text::decimal_digits(n) + after
}

/// `before`, the decimal digits of `n`, `after`.
fn text_around(before: &str, n: usize, after: &str) -> (r: String)
    ensures
        r@ == around(before@, n as nat, after@),
{
    let mut out = before.to_owned();
    out.append(decimal_text(n as u64).as_str());
    out.append(after);
    out
}

impl ExcerptError {
    /// What the error says.
    pub open spec fn says(self) -> Seq<char> {
        match self {
            ExcerptError::Empty => "excerpt must not be empty"@,
            ExcerptError::TooLong { len, max } => around(
                around("excerpt too long: "@, len as nat, " chars (max "@),
                max as nat,
                ")"@,
            ),
        }
    }

    /// What the error says.
    pub fn to_string(&self) -> (r: String)
        ensures
            r@ == self.says(),
            *self is Empty ==> r@ == "excerpt must not be empty"@,
            (*self matches ExcerptError::TooLong { len, max } ==> r@ == "excerpt too long: "@
                + crate::text::decimal_digits(len as nat) + " chars (max "@
                + crate::text::decimal_digits(max as nat) + ")"@),
    {
        match self {
            ExcerptError::Empty => "excerpt must not be empty".to_owned(),
            ExcerptError::TooLong { len, max } => {
                let head = text_around("excerpt too long: ", *len, " chars (max ");
                text_around(head.as_str(), *max, ")")
            },
        }
    }
}

// --- WikimediaCategoryName ---

/// A Wikimedia Commons category title (the part after `Category:`); never
/// empty.
#[derive(Debug, Clone, PartialEq, Eq, PartialOrd, Ord, Hash)]
pub struct WikimediaCategoryName {
    inner: String,
}

impl View for WikimediaCategoryName {
    type V = Seq<char>;

    closed spec fn view(&self) -> Seq<char> {
        self.inner@
    }
}

impl WikimediaCategoryName {
    /// Construct a category name. Rejects the empty string.
    pub fn new(text: &str) -> (r: Result<Self, ValidatedStringError>)
        ensures
            text@.len() == 0 ==> r == Err::<WikimediaCategoryName, ValidatedStringError>(
                ValidatedStringError::TooShort { len: 0, min: 1 },
            ),
            text@.len() > 0 ==> r is Ok && r->Ok_0@ == text@,
    {
        match validate(text, false, 1, usize::MAX) {
            Ok(inner) => Ok(WikimediaCategoryName { inner }),
            Err(error) => Err(error),
        }
    }

    /// The underlying string slice.
    pub fn as_str(&self) -> (r: &str)
        ensures
            r@ == self@,
    {
        self.inner.as_str()
    }
}

// --- Isbn ---

/// Validated ISBN-10 or ISBN-13 identifier, in its form without hyphens and
/// spaces.
#[derive(Debug, Clone, PartialEq, Eq, Hash)]
pub struct Isbn {
    inner: String,
}

/// Errors from [`Isbn::parse`].
#[derive(Debug, Clone, Copy, PartialEq, Eq, Structural)]
pub enum IsbnError {
    /// Length after stripping separators isn't 10 or 13.
    WrongLength {
        /// Observed length in characters after separator stripping.
        len: usize,
    },
    /// A non-digit character was present (other than a final `X` on an
    /// ISBN-10).
    NonDigit,
    /// Check digit did not match.
    BadCheckDigit,
}

/// The text without hyphens and spaces.
pub open spec fn without_separators(s: Seq<char>) -> Seq<char> {
    s.filter(|c: char| c != '-' && c != ' ')
}

/// Whether the character at `i` of an ISBN-10 is one it may have.
pub open spec fn isbn10_symbol(s: Seq<char>, i: int) -> bool {
    is_digit(s[i]) || i == 9 && (s[i] == 'X' || s[i] == 'x')
}

/// What the character at `i` of an ISBN-10 stands for; the letter X is ten.
pub open spec fn isbn10_value(s: Seq<char>, i: int) -> int {
    if is_digit(s[i]) {
        s[i] as int - '0' as int
    } else {
        10
    }
}

/// The sum of the first `n` symbols of an ISBN-10, the first weighted with ten,
/// the next with nine, and so on.
pub open spec fn isbn10_sum(s: Seq<char>, n: nat) -> int
    decreases n,
{
    if n == 0 {
        0
    } else {
        isbn10_sum(s, (n - 1) as nat) + (11 - n) * isbn10_value(s, n - 1)
    }
}

/// The sum of the first `n` digits of an ISBN-13, weighted with one and three
/// in turn.
pub open spec fn isbn13_sum(s: Seq<char>, n: nat) -> int
    decreases n,
{
    if n == 0 {
        0
    } else {
        isbn13_sum(s, (n - 1) as nat) + (if (n - 1) % 2 == 0 {
            1int
        } else {
            3int
        }) * (s[n - 1] as int - '0' as int)
    }
}

/// What is wrong with the characters of an ISBN without separators; `None` where
/// nothing is.
pub open spec fn isbn_fault(s: Seq<char>) -> Option<IsbnError> {
    if s.len() == 10 {
        if exists|i: int| 0 <= i < 10 && !#[trigger] isbn10_symbol(s, i) {
            Some(IsbnError::NonDigit)
        } else if isbn10_sum(s, 10) % 11 != 0 {
            Some(IsbnError::BadCheckDigit)
        } else {
            None
        }
    } else if s.len() == 13 {
        if exists|i: int| 0 <= i < 13 && !is_digit(#[trigger] s[i]) {
            Some(IsbnError::NonDigit)
        } else if isbn13_sum(s, 13) % 10 != 0 {
            Some(IsbnError::BadCheckDigit)
        } else {
            None
        }
    } else {
        Some(IsbnError::WrongLength { len: s.len() as usize })
    }
}

/// Changing one digit changes its part of the sum of an ISBN-13 alone.
proof fn lemma_isbn13_sum_of_change(s: Seq<char>, at: int, digit: char, n: nat)
    requires
        0 <= at < s.len(),
        n <= s.len(),
    ensures
        isbn13_sum(s.update(at, digit), n) - isbn13_sum(s, n) == if at < n {
            (if at % 2 == 0 {
                1int
            } else {
                3int
            }) * (digit as int - s[at] as int)
        } else {
            0
        },
    decreases n,
{
    if n > 0 {
        lemma_isbn13_sum_of_change(s, at, digit, (n - 1) as nat);
    }
}

/// No ISBN-13 is taken for another that differs from it in one digit: of two lists of
/// thirteen digits that differ in one place, where one is valid the check digit finds
/// the other out.
pub proof fn law_isbn13_finds_a_wrong_digit(s: Seq<char>, t: Seq<char>, at: int)
    requires
        s.len() == 13,
        t.len() == 13,
        forall|i: int| 0 <= i < 13 ==> is_digit(#[trigger] t[i]),
        0 <= at < 13,
        forall|i: int| 0 <= i < 13 && i != at ==> #[trigger] s[i] == t[i],
        s[at] != t[at],
        isbn_fault(s) is None,
    ensures
        isbn_fault(t) == Some(IsbnError::BadCheckDigit),
{
    assert(t =~= s.update(at, t[at]));
    lemma_isbn13_sum_of_change(s, at, t[at], 13);
    assert(is_digit(s[at]));
    assert(is_digit(t[at]));
}

/// Changing one symbol changes its part of the sum of an ISBN-10 alone.
proof fn lemma_isbn10_sum_of_change(s: Seq<char>, at: int, symbol: char, n: nat)
    requires
        0 <= at < s.len(),
        n <= s.len(),
    ensures
        isbn10_sum(s.update(at, symbol), n) - isbn10_sum(s, n) == if at < n {
            (10 - at) * (isbn10_value(s.update(at, symbol), at) - isbn10_value(s, at))
        } else {
            0
        },
    decreases n,
{
    if n > 0 {
        lemma_isbn10_sum_of_change(s, at, symbol, (n - 1) as nat);
        if at == n - 1 {
            let weight = 10 - at;
            let now = isbn10_value(s.update(at, symbol), at);
            let was = isbn10_value(s, at);
            assert(weight * now - weight * was == weight * (now - was)) by (nonlinear_arith);
        } else {
            assert(s.update(at, symbol)[n - 1] == s[n - 1]);
        }
    }
}

/// No ISBN-10 is taken for another that differs from it in one symbol: of two lists of
/// ten symbols that differ in value in one place, where one is valid the check digit
/// finds the other out.
pub proof fn law_isbn10_finds_a_wrong_symbol(s: Seq<char>, t: Seq<char>, at: int)
    requires
        s.len() == 10,
        t.len() == 10,
        forall|i: int| 0 <= i < 10 ==> #[trigger] isbn10_symbol(t, i),
        0 <= at < 10,
        forall|i: int| 0 <= i < 10 && i != at ==> #[trigger] s[i] == t[i],
        isbn10_value(s, at) != isbn10_value(t, at),
        isbn_fault(s) is None,
    ensures
        isbn_fault(t) == Some(IsbnError::BadCheckDigit),
{
    assert(t =~= s.update(at, t[at]));
    lemma_isbn10_sum_of_change(s, at, t[at], 10);
    assert(isbn10_symbol(s, at));
    assert(isbn10_symbol(t, at));
    let weight = 10 - at;
    let change = isbn10_value(t, at) - isbn10_value(s, at);
    assert(-10 <= change <= 10);
    assert((weight * change) % 11 != 0) by {
        assert(weight == 1 || weight == 2 || weight == 3 || weight == 4 || weight == 5 || weight == 6
            || weight == 7 || weight == 8 || weight == 9 || weight == 10);
    }
    assert((isbn10_sum(t, 10) - isbn10_sum(s, 10)) % 11 != 0);
}

/// The text without hyphens and spaces.
fn strip_separators(text: &str) -> (r: String)
    ensures
        r@ == without_separators(text@),
{
    let chars = chars_of(text);
    let ghost keep = |c: char| c != '-' && c != ' ';
    let mut out: Vec<char> = Vec::new();
    let mut i: usize = 0;
    proof {
        reveal(Seq::filter);
        assert(chars@.take(0).filter(keep) =~= Seq::<char>::empty());
    }
    while i < chars.len()
        invariant
            i <= chars@.len(),
            keep == (|c: char| c != '-' && c != ' '),
            out@ == chars@.take(i as int).filter(keep),
        decreases chars.len() - i,
    {
        let c = chars[i];
        if c != '-' && c != ' ' {
            out.push(c);
        }
        proof {
            reveal(Seq::filter);
            let more = chars@.take(i + 1);
            assert(more.drop_last() =~= chars@.take(i as int));
            assert(more.last() == c);
        }
        i += 1;
    }
    assert(chars@.take(i as int) =~= chars@);
    text_of(&out)
}

/// Check the ten characters of an ISBN-10.
pub fn validate_isbn10(chars: &[char]) -> (r: Result<(), IsbnError>)
    requires
        chars@.len() == 10,
    ensures
        r is Ok <==> isbn_fault(chars@) is None,
        r is Err ==> Some(r->Err_0) == isbn_fault(chars@),
{
    let mut sum: u32 = 0;
    let mut i: usize = 0;
    while i < 10
        invariant
            i <= 10,
            chars@.len() == 10,
            sum == isbn10_sum(chars@, i as nat),
            sum <= 100 * i,
            forall|k: int| 0 <= k < i ==> #[trigger] isbn10_symbol(chars@, k),
        decreases 10 - i,
    {
        let c = chars[i];
        let value: u32 = if i == 9 && (c == 'X' || c == 'x') {
            10
        } else if '0' <= c && c <= '9' {
            c as u32 - '0' as u32
        } else {
            assert(!isbn10_symbol(chars@, i as int));
            return Err(IsbnError::NonDigit);
        };
        assert((10 - i) * value <= 100) by (nonlinear_arith)
            requires
                0 <= i <= 9,
                0 <= value <= 10,
        ;
        assert((10 - i) * value >= 0) by (nonlinear_arith)
            requires
                0 <= i <= 9,
                0 <= value <= 10,
        ;
        let weight: u32 = 10 - i as u32;
        assert(isbn10_value(chars@, i as int) == value);
        assert(isbn10_symbol(chars@, i as int));
        sum = sum + weight * value;
        i += 1;
    }
    if sum % 11 != 0 {
        return Err(IsbnError::BadCheckDigit);
    }
    Ok(())
}

/// Check the thirteen characters of an ISBN-13.
pub fn validate_isbn13(chars: &[char]) -> (r: Result<(), IsbnError>)
    requires
        chars@.len() == 13,
    ensures
        r is Ok <==> isbn_fault(chars@) is None,
        r is Err ==> Some(r->Err_0) == isbn_fault(chars@),
{
    let mut sum: u32 = 0;
    let mut i: usize = 0;
    while i < 13
        invariant
            i <= 13,
            chars@.len() == 13,
            sum == isbn13_sum(chars@, i as nat),
            sum <= 27 * i,
            forall|k: int| 0 <= k < i ==> is_digit(#[trigger] chars@[k]),
        decreases 13 - i,
    {
        let c = chars[i];
        if !('0' <= c && c <= '9') {
            assert(!is_digit(chars@[i as int]));
            return Err(IsbnError::NonDigit);
        }
        let value: u32 = c as u32 - '0' as u32;
        let weighted: u32 = if i % 2 == 0 {
            value
        } else {
            3 * value
        };
        sum = sum + weighted;
        i += 1;
    }
    if sum % 10 != 0 {
        return Err(IsbnError::BadCheckDigit);
    }
    Ok(())
}

impl View for Isbn {
    type V = Seq<char>;

    closed spec fn view(&self) -> Seq<char> {
        self.inner@
    }
}

/// What becomes of a text read as an ISBN.
pub open spec fn isbn_reading(text: Seq<char>) -> Result<Seq<char>, IsbnError> {
    let canonical = without_separators(text);
    match isbn_fault(canonical) {
        Some(error) => Err(error),
        None => Ok(canonical),
    }
}

impl Isbn {
    /// Construct an `Isbn` from a source string. Hyphens and spaces are
    /// stripped before validation.
    pub fn parse(text: &str) -> (r: Result<Self, IsbnError>)
        ensures
            r is Ok <==> isbn_reading(text@) is Ok,
            r is Ok ==> r->Ok_0@ == isbn_reading(text@)->Ok_0,
            r is Err ==> r->Err_0 == isbn_reading(text@)->Err_0,
    {
        let canonical = strip_separators(text);
        let chars = chars_of(canonical.as_str());
        let len: usize = chars.len();
        let checked = if len == 10 {
            validate_isbn10(chars.as_slice())
        } else if len == 13 {
            validate_isbn13(chars.as_slice())
        } else {
            Err(IsbnError::WrongLength { len })
        };
        match checked {
            Err(error) => Err(error),
            Ok(_) => Ok(Isbn { inner: canonical }),
        }
    }

    /// The canonical ISBN as a string slice.
    pub fn as_str(&self) -> (r: &str)
        ensures
            r@ == self@,
    {
        self.inner.as_str()
    }
}

/// The stored form of an ISBN reads back as itself.
pub proof fn law_isbn_reads_back(text: Seq<char>)
    requires
        isbn_reading(text) is Ok,
    ensures
        isbn_reading(isbn_reading(text)->Ok_0) == isbn_reading(text),
{
    lemma_filter_again(text, |c: char| c != '-' && c != ' ');
}

/// Filtering what was filtered keeps all of it.
proof fn lemma_filter_again(s: Seq<char>, keep: spec_fn(char) -> bool)
    ensures
        s.filter(keep).filter(keep) == s.filter(keep),
    decreases s.len(),
{
    reveal(Seq::filter);
    if s.len() > 0 {
        lemma_filter_again(s.drop_last(), keep);
        let rest = s.drop_last().filter(keep);
        if keep(s.last()) {
            assert(s.filter(keep).drop_last() =~= rest);
        }
    }
}

impl IsbnError {
    /// What the error says.
    pub open spec fn says(self) -> Seq<char> {
        match self {
            IsbnError::WrongLength { len } => around(
                "ISBN must be 10 or 13 digits, got "@,
                len as nat,
                ""@,
            ),
            IsbnError::NonDigit => {
                "ISBN must be all digits (with optional final X on ISBN-10)"@
            },
            IsbnError::BadCheckDigit => "ISBN check digit does not match"@,
        }
    }

    /// What the error says.
    pub fn to_string(&self) -> (r: String)
        ensures
            r@ == self.says(),
            (*self matches IsbnError::WrongLength { len } ==> r@
                == "ISBN must be 10 or 13 digits, got "@ + crate::text::decimal_digits(
                len as nat,
            )),
            *self is NonDigit ==> r@
                == "ISBN must be all digits (with optional final X on ISBN-10)"@,
            *self is BadCheckDigit ==> r@ == "ISBN check digit does not match"@,
    {
        proof {
            reveal_strlit("");
        }
        match self {
            IsbnError::WrongLength { len } => text_around(
                "ISBN must be 10 or 13 digits, got ",
                *len,
                "",
            ),
            IsbnError::NonDigit => {
                "ISBN must be all digits (with optional final X on ISBN-10)".to_owned()
            },
            IsbnError::BadCheckDigit => "ISBN check digit does not match".to_owned(),
        }
    }
}

// --- Justification ---

/// Minimum trimmed character count for a [`Justification`].
pub const JUSTIFICATION_MIN_LEN: usize = 10;

/// A researcher's written rationale, attached to judgment- and meta-side
/// citations that don't quote an external source. Held without the white space
/// around it, and at least [`JUSTIFICATION_MIN_LEN`] characters long.
#[derive(Debug, Clone, PartialEq, Eq, PartialOrd, Ord, Hash)]
pub struct Justification {
    inner: String,
}

impl View for Justification {
    type V = Seq<char>;

    closed spec fn view(&self) -> Seq<char> {
        self.inner@
    }
}

impl Justification {
    /// Construct a justification. Trims white space, and rejects what is then
    /// too short.
    pub fn new(text: &str) -> (r: Result<Self, ValidatedStringError>)
        ensures
            trimmed(text@).len() < JUSTIFICATION_MIN_LEN ==> r == Err::<
                Justification,
                ValidatedStringError,
            >(
                ValidatedStringError::TooShort {
                    len: trimmed(text@).len() as usize,
                    min: JUSTIFICATION_MIN_LEN,
                },
            ),
            trimmed(text@).len() >= JUSTIFICATION_MIN_LEN ==> r is Ok && r->Ok_0@ == trimmed(text@),
    {
        match validate(text, true, JUSTIFICATION_MIN_LEN, usize::MAX) {
            Ok(inner) => Ok(Justification { inner }),
            Err(error) => Err(error),
        }
    }

    /// The underlying string slice.
    pub fn as_str(&self) -> (r: &str)
        ensures
            r@ == self@,
    {
        self.inner.as_str()
    }
}

// --- ExternalSource ---

/// An independently checkable source for a factual claim.
///
/// The date fields record when the cited material was authored or produced,
/// not when it was retrieved.
#[derive(Debug, Clone, PartialEq, Eq)]
pub enum ExternalSource {
    /// A URL crawled at ingest time or pointed at by another source.
    Url {
        /// The fetched URL.
        url: WebUrl,
        /// When the page was published, where it says so.
        published: Option<UncertainDate>,
    },
    /// A specific Wikidata statement pinned to a revision id.
    Wikidata {
        /// The Wikidata entity that bears the statement.
        entity_id: WikidataEntityId,
        /// The Wikidata property the statement asserts.
        property_id: WikidataPropertyId,
        /// The pinned revision id.
        revision_id: u64,
        /// The property value as observed at ingest time.
        value: String,
    },
    /// A specific DBpedia triple pinned to a snapshot version.
    Dbpedia {
        /// The DBpedia resource URI (the triple's subject).
        resource_uri: WebUrl,
        /// The DBpedia property URI (the triple's predicate).
        property_uri: WebUrl,
        /// The DBpedia snapshot version label.
        version: String,
        /// The property value as observed at ingest time.
        value: String,
    },
    /// A physical publication.
    Book {
        /// The book's title.
        title: String,
        /// ISBN, when known.
        isbn: Option<Isbn>,
        /// Page reference (free-form, e.g. `"p. 142"`).
        page: Option<String>,
        /// Publication date of the cited edition, when known.
        published: Option<UncertainDate>,
    },
    /// An archival or museum-collection item.
    Archive {
        /// The collection's name.
        collection: String,
        /// Catalog or accession identifier, when known.
        catalog_id: Option<String>,
        /// Date the artifact itself was created.
        created: Option<UncertainDate>,
    },
}

// --- FactualCitation ---

/// Citation of every factual assertion: a source and one or more verbatim
/// excerpts from it.
#[derive(Debug, Clone, PartialEq, Eq)]
pub struct FactualCitation {
    source: ExternalSource,
    excerpts: NonEmptyVec<Excerpt>,
}

/// Errors from [`FactualCitation::new`].
#[derive(Debug, Clone, Copy, PartialEq, Eq, Structural)]
pub enum CitationError {
    /// No excerpts were supplied.
    ExcerptRequired,
}

impl CitationError {
    /// What the error says.
    pub fn to_string(&self) -> (r: String)
        ensures
            r@ == "factual citation requires at least one excerpt"@,
    {
        "factual citation requires at least one excerpt".to_owned()
    }
}

impl FactualCitation {
    /// The source the claim came from.
    pub closed spec fn origin(self) -> ExternalSource {
        self.source
    }

    /// The passages quoted from the source.
    pub closed spec fn quoted(self) -> Seq<Excerpt> {
        self.excerpts@
    }

    /// Construct a factual citation. Rejects empty excerpt lists.
    pub fn new(source: ExternalSource, excerpts: Vec<Excerpt>) -> (r: Result<Self, CitationError>)
        ensures
            excerpts@.len() == 0 ==> r == Err::<FactualCitation, CitationError>(
                CitationError::ExcerptRequired,
            ),
            excerpts@.len() > 0 ==> r is Ok && r->Ok_0.origin() == source && r->Ok_0.quoted()
                == excerpts@,
    {
        match NonEmptyVec::try_from_vec(excerpts) {
            Ok(excerpts) => Ok(FactualCitation { source, excerpts }),
            Err(_) => Err(CitationError::ExcerptRequired),
        }
    }

    /// The source the claim came from.
    pub fn source(&self) -> (r: &ExternalSource)
        ensures
            *r == self.origin(),
    {
        &self.source
    }

    /// The verbatim excerpts backing the claim; never none.
    pub fn excerpts(&self) -> (r: &NonEmptyVec<Excerpt>)
        ensures
            r@ == self.quoted(),
            r@.len() > 0,
    {
        broadcast use crate::nonempty::lemma_nonempty;

        &self.excerpts
    }
}

// --- JudgmentSource ---

/// Source for a judgment assertion: an external citation, the researcher's
/// personal knowledge, a chain of reasoning over existing facts, a direct image
/// observation, or the derivation of an automated process.
#[derive(Debug, Clone, PartialEq, Eq)]
pub enum JudgmentSource {
    /// External evidence wrapping any [`ExternalSource`].
    External {
        /// The wrapped external source.
        source: ExternalSource,
    },
    /// Researcher's analytical judgment.
    PersonalKnowledge {
        /// The author of the judgment.
        user: UserId,
        /// Why the researcher believes the judgment holds.
        justification: Justification,
    },
    /// A judgment derived from comparing existing facts.
    Analysis {
        /// The specific facts the analysis compared.
        input_facts: Vec<FactId>,
        /// The researcher's reasoning.
        reasoning: Justification,
    },
    /// A direct image observation.
    ImageObservation {
        /// The image the observer looked at.
        image: ImageId,
        /// Where in the image the observer focused, when known.
        region: Option<ImageRegion>,
        /// Who or what made the observation.
        observer: Observer,
    },
    /// A judgment that an automated process derived from existing facts.
    Derivation {
        /// The process.
        process: AnalyzerProcess,
        /// Its version.
        version: AnalyzerVersion,
        /// The facts it rests on.
        basis: OrderedSet<FactId>,
        /// The snapshot it was made at.
        snapshot: FactId,
    },
}

/// Who made an image observation.
#[derive(Debug, Clone, PartialEq, Eq)]
pub enum Observer {
    /// A human user looked at the image and asserted the observation.
    User {
        /// The user who made the observation.
        user: UserId,
        /// Optional free-text justification.
        justification: Option<Justification>,
    },
    /// An automated pipeline run made the observation.
    Pipeline {
        /// The pipeline run that produced the observation.
        ingester_run: IngesterRunId,
    },
}

// --- MetaSource ---

/// Source for a meta assertion: why the meta-action was taken.
#[derive(Debug, Clone, PartialEq, Eq)]
pub enum MetaSource {
    /// External evidence that the underlying fact warrants the meta-action.
    External {
        /// The wrapped external source.
        source: ExternalSource,
    },
    /// Moderator or researcher judgment.
    PersonalKnowledge {
        /// The author of the meta-action.
        user: UserId,
        /// Why the meta-action is warranted.
        justification: Justification,
    },
}

// --- What an ISBN is ---

/// The digit that a character writes.
pub open spec fn digit_of(c: char) -> int {
    c as int - '0' as int
}

/// Thirteen characters are an ISBN exactly where they are digits and those at even
/// places, counted from zero, with three times those at odd places make a multiple of
/// ten; they are refused for a character that is no digit before the check digit.
pub proof fn law_isbn13_by_its_digits(s: Seq<char>)
    requires
        s.len() == 13,
    ensures
        isbn_fault(s) == Some(IsbnError::NonDigit) <==> exists|i: int|
            0 <= i < 13 && !('0' <= #[trigger] s[i] <= '9'),
        isbn_fault(s) is None <==> (forall|i: int| 0 <= i < 13 ==> '0' <= #[trigger] s[i] <= '9')
            && (digit_of(s[0]) + 3 * digit_of(s[1]) + digit_of(s[2]) + 3 * digit_of(s[3])
            + digit_of(s[4]) + 3 * digit_of(s[5]) + digit_of(s[6]) + 3 * digit_of(s[7]) + digit_of(
            s[8],
        ) + 3 * digit_of(s[9]) + digit_of(s[10]) + 3 * digit_of(s[11]) + digit_of(s[12])) % 10 == 0,
        isbn_fault(s) is Some ==> isbn_fault(s)->0 is NonDigit || isbn_fault(s)->0 is BadCheckDigit,
{
    reveal_with_fuel(isbn13_sum, 14);
    assert forall|i: int| 0 <= i < 13 implies (is_digit(#[trigger] s[i]) <==> '0' <= s[i]
        <= '9') by {}
    assert(isbn13_sum(s, 13) == digit_of(s[0]) + 3 * digit_of(s[1]) + digit_of(s[2]) + 3 * digit_of(
        s[3],
    ) + digit_of(s[4]) + 3 * digit_of(s[5]) + digit_of(s[6]) + 3 * digit_of(s[7]) + digit_of(s[8])
        + 3 * digit_of(s[9]) + digit_of(s[10]) + 3 * digit_of(s[11]) + digit_of(s[12]));
}

/// Ten characters are an ISBN exactly where they are digits, the last of them a digit or
/// an `X` for ten, and the first times ten, the second times nine and so on make a
/// multiple of eleven.
pub proof fn law_isbn10_by_its_digits(s: Seq<char>)
    requires
        s.len() == 10,
    ensures
        ({
            let last = if s[9] == 'X' || s[9] == 'x' {
                10
            } else {
                digit_of(s[9])
            };
            let proper = (forall|i: int| 0 <= i < 9 ==> '0' <= #[trigger] s[i] <= '9') && ('0'
                <= s[9] <= '9' || s[9] == 'X' || s[9] == 'x');
            &&& isbn_fault(s) == Some(IsbnError::NonDigit) <==> !proper
            &&& isbn_fault(s) is None <==> proper && (10 * digit_of(s[0]) + 9 * digit_of(s[1]) + 8
                * digit_of(s[2]) + 7 * digit_of(s[3]) + 6 * digit_of(s[4]) + 5 * digit_of(s[5]) + 4
                * digit_of(s[6]) + 3 * digit_of(s[7]) + 2 * digit_of(s[8]) + last) % 11 == 0
        }),
        isbn_fault(s) is Some ==> isbn_fault(s)->0 is NonDigit || isbn_fault(s)->0 is BadCheckDigit,
{
    reveal_with_fuel(isbn10_sum, 11);
    assert forall|i: int| 0 <= i < 9 && '0' <= #[trigger] s[i] <= '9' implies isbn10_symbol(
        s,
        i,
    ) by {}
    assert forall|i: int| 0 <= i < 9 && #[trigger] isbn10_symbol(s, i) implies '0' <= s[i]
        <= '9' by {}
    assert(isbn10_symbol(s, 9) <==> '0' <= s[9] <= '9' || s[9] == 'X' || s[9] == 'x');
    if forall|i: int| 0 <= i < 10 ==> #[trigger] isbn10_symbol(s, i) {
        assert forall|i: int| 0 <= i < 9 implies '0' <= #[trigger] s[i] <= '9' by {
            assert(isbn10_symbol(s, i));
        }
        assert(isbn10_symbol(s, 9));
        assert(is_digit(s[0]) && is_digit(s[1]) && is_digit(s[2]) && is_digit(s[3]) && is_digit(
            s[4],
        ) && is_digit(s[5]) && is_digit(s[6]) && is_digit(s[7]) && is_digit(s[8]));
    } else {
        let i = choose|i: int| 0 <= i < 10 && !#[trigger] isbn10_symbol(s, i);
        if i < 9 {
            assert(!('0' <= s[i] <= '9'));
        }
    }
}

/// Any other number of characters is refused for its length.
pub proof fn law_isbn_of_another_length(s: Seq<char>)
    requires
        s.len() != 10,
        s.len() != 13,
    ensures
        isbn_fault(s) == Some((IsbnError::WrongLength { len: s.len() as usize })),
{
}

/// Hyphens and spaces are left out wherever they stand, and nothing else is.
pub proof fn law_separators_are_left_out(a: Seq<char>, c: char)
    ensures
        c == '-' || c == ' ' ==> without_separators(a.push(c)) == without_separators(a),
        c != '-' && c != ' ' ==> without_separators(a.push(c)) == without_separators(a).push(c),
        without_separators(Seq::empty()) == Seq::<char>::empty(),
{
    reveal(Seq::filter);
    assert(a.push(c).drop_last() =~= a);
}

} // verus!
