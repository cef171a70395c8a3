//! Identifiers of facts, users, runs, processes and images, and texts with a
//! bounded length.
use vstd::prelude::*;
use vstd::string::*;

use crate::algebra::ordered::{Standing, TotalOrder};
use crate::text::{law_trim_is_idempotent, law_trim_shortens, same_text, trim, trimmed};

verus! {

/// The position of a fact in a store's fact list.
#[derive(Debug, Clone, Copy, PartialEq, Eq, PartialOrd, Ord, Hash, Structural)]
pub struct FactId(u64);

impl View for FactId {
    type V = u64;

    closed spec fn view(&self) -> u64 {
        self.0
    }
}

impl FactId {
    /// The id with this number.
    pub fn new(id: u64) -> (r: Self)
        ensures
            r@ == id,
    {
        FactId(id)
    }

    /// The number of this id.
    pub fn get(self) -> (r: u64)
        ensures
            r == self@,
    {
        self.0
    }
}

/// Every number is that of a fact id.
pub proof fn lemma_fact_id_of(n: u64) -> (id: FactId)
    ensures
        id@ == n,
{
    FactId(n)
}

/// Fact ids are known by their numbers.
pub broadcast proof fn lemma_fact_id(a: FactId, b: FactId)
    ensures
        #[trigger] a@ == #[trigger] b@ ==> a == b,
{
}

impl TotalOrder for FactId {
    open spec fn precedes(a: u64, b: u64) -> bool {
        a < b
    }

    proof fn irreflexive(a: u64) {
    }

    proof fn transitive(a: u64, b: u64, c: u64) {
    }

    proof fn total(a: u64, b: u64) {
    }

    proof fn clone_keeps_view(a: FactId, b: FactId) {
    }

    fn compare(&self, other: &Self) -> (r: Standing) {
        if self.0 < other.0 {
            Standing::Before
        } else if self.0 == other.0 {
            Standing::Same
        } else {
            Standing::After
        }
    }
}

// --- Texts with a bounded length ---

/// Error of making a text with a bounded length.
#[derive(Debug, Clone, Copy, PartialEq, Eq, Structural)]
pub enum ValidatedStringError {
    /// Fewer characters than the least number allowed.
    TooShort {
        /// How many characters there were.
        len: usize,
        /// The least number allowed.
        min: usize,
    },
    /// More characters than the greatest number allowed.
    TooLong {
        /// How many characters there were.
        len: usize,
        /// The greatest number allowed.
        max: usize,
    },
}

/// The text that is kept: without the white space around it where `trims`.
pub open spec fn kept_text(text: Seq<char>, trims: bool) -> Seq<char> {
    if trims {
        trimmed(text)
    } else {
        text
    }
}

/// What becomes of a text whose length must lie from `min` to `max`.
pub open spec fn validated(text: Seq<char>, trims: bool, min: usize, max: usize) -> Result<
    Seq<char>,
    ValidatedStringError,
> {
    let kept = kept_text(text, trims);
    if kept.len() < min {
        Err(ValidatedStringError::TooShort { len: kept.len() as usize, min })
    } else if kept.len() > max {
        Err(ValidatedStringError::TooLong { len: kept.len() as usize, max })
    } else {
        Ok(kept)
    }
}

/// The text to keep, where its length in characters lies from `min` to `max`.
pub(crate) fn validate(text: &str, trims: bool, min: usize, max: usize) -> (r: Result<
    String,
    ValidatedStringError,
>)
    ensures
        r is Ok <==> validated(text@, trims, min, max) is Ok,
        r is Ok ==> r->Ok_0@ == validated(text@, trims, min, max)->Ok_0,
        r is Err ==> r->Err_0 == validated(text@, trims, min, max)->Err_0,
        kept_text(text@, trims).len() <= usize::MAX,
{
    let kept = if trims {
        trim(text)
    } else {
        text.to_owned()
    };
    let len: usize = kept.as_str().unicode_len();
    if len < min {
        return Err(ValidatedStringError::TooShort { len, min });
    }
    if len > max {
        return Err(ValidatedStringError::TooLong { len, max });
    }
    Ok(kept)
}

/// What was kept of a text is itself accepted, and kept as it is.
pub proof fn law_kept_text_reads_back(text: Seq<char>, trims: bool, min: usize, max: usize)
    requires
        validated(text, trims, min, max) is Ok,
    ensures
        validated(validated(text, trims, min, max)->Ok_0, trims, min, max) == validated(
            text,
            trims,
            min,
            max,
        ),
{
    law_trim_is_idempotent(text);
}

// --- Opaque string ids ---

/// A user of the system.
#[derive(Debug, PartialEq, Eq, PartialOrd, Ord, Hash)]
pub struct UserId {
    inner: String,
}

impl View for UserId {
    type V = Seq<char>;

    closed spec fn view(&self) -> Seq<char> {
        self.inner@
    }
}

impl Clone for UserId {
    fn clone(&self) -> (r: Self)
        ensures
            r == *self,
    {
        UserId { inner: self.inner.clone() }
    }
}

impl UserId {
    /// The id written as `text`.
    pub fn new(text: String) -> (r: Self)
        ensures
            r@ == text@,
    {
        UserId { inner: text }
    }

    /// The id's text.
    pub fn as_str(&self) -> (r: &str)
        ensures
            r@ == self@,
    {
        self.inner.as_str()
    }
}

/// One run of an ingester.
#[derive(Debug, PartialEq, Eq, PartialOrd, Ord, Hash)]
pub struct IngesterRunId {
    inner: String,
}

impl View for IngesterRunId {
    type V = Seq<char>;

    closed spec fn view(&self) -> Seq<char> {
        self.inner@
    }
}

impl Clone for IngesterRunId {
    fn clone(&self) -> (r: Self)
        ensures
            r == *self,
    {
        IngesterRunId { inner: self.inner.clone() }
    }
}

impl IngesterRunId {
    /// The id written as `text`.
    pub fn new(text: String) -> (r: Self)
        ensures
            r@ == text@,
    {
        IngesterRunId { inner: text }
    }

    /// The id's text.
    pub fn as_str(&self) -> (r: &str)
        ensures
            r@ == self@,
    {
        self.inner.as_str()
    }
}

/// An automated process that derives judgments.
#[derive(Debug, PartialEq, Eq, PartialOrd, Ord, Hash)]
pub struct AnalyzerProcess {
    inner: String,
}

impl View for AnalyzerProcess {
    type V = Seq<char>;

    closed spec fn view(&self) -> Seq<char> {
        self.inner@
    }
}

impl Clone for AnalyzerProcess {
    fn clone(&self) -> (r: Self)
        ensures
            r == *self,
    {
        AnalyzerProcess { inner: self.inner.clone() }
    }
}

impl AnalyzerProcess {
    /// The process named `text`.
    pub fn new(text: String) -> (r: Self)
        ensures
            r@ == text@,
    {
        AnalyzerProcess { inner: text }
    }

    /// The name's text.
    pub fn as_str(&self) -> (r: &str)
        ensures
            r@ == self@,
    {
        self.inner.as_str()
    }
}

/// A version of an automated process.
#[derive(Debug, PartialEq, Eq, PartialOrd, Ord, Hash)]
pub struct AnalyzerVersion {
    inner: String,
}

impl View for AnalyzerVersion {
    type V = Seq<char>;

    closed spec fn view(&self) -> Seq<char> {
        self.inner@
    }
}

impl Clone for AnalyzerVersion {
    fn clone(&self) -> (r: Self)
        ensures
            r == *self,
    {
        AnalyzerVersion { inner: self.inner.clone() }
    }
}

impl AnalyzerVersion {
    /// The version named `text`.
    pub fn new(text: String) -> (r: Self)
        ensures
            r@ == text@,
    {
        AnalyzerVersion { inner: text }
    }

    /// The name's text.
    pub fn as_str(&self) -> (r: &str)
        ensures
            r@ == self@,
    {
        self.inner.as_str()
    }
}

/// An image an observer looked at.
#[derive(Debug, PartialEq, Eq, PartialOrd, Ord, Hash)]
pub struct ImageId {
    inner: String,
}

impl View for ImageId {
    type V = Seq<char>;

    closed spec fn view(&self) -> Seq<char> {
        self.inner@
    }
}

impl Clone for ImageId {
    fn clone(&self) -> (r: Self)
        ensures
            r == *self,
    {
        ImageId { inner: self.inner.clone() }
    }
}

impl ImageId {
    /// The id written as `text`.
    pub fn new(text: String) -> (r: Self)
        ensures
            r@ == text@,
    {
        ImageId { inner: text }
    }

    /// The id's text.
    pub fn as_str(&self) -> (r: &str)
        ensures
            r@ == self@,
    {
        self.inner.as_str()
    }
}

/// A commit, named by a digest of what it holds.
#[derive(Debug, PartialEq, Eq, PartialOrd, Ord, Hash)]
pub struct CommitId {
    inner: String,
}

impl View for CommitId {
    type V = Seq<char>;

    closed spec fn view(&self) -> Seq<char> {
        self.inner@
    }
}

impl Clone for CommitId {
    fn clone(&self) -> (r: Self)
        ensures
            r == *self,
    {
        CommitId { inner: self.inner.clone() }
    }
}

impl CommitId {
    /// The id written as `text`.
    pub fn new(text: String) -> (r: Self)
        ensures
            r@ == text@,
    {
        CommitId { inner: text }
    }

    /// The id's text.
    pub fn as_str(&self) -> (r: &str)
        ensures
            r@ == self@,
    {
        self.inner.as_str()
    }

    /// Whether two ids name the same commit.
    pub fn same(&self, other: &Self) -> (r: bool)
        ensures
            r == (self@ == other@),
    {
        same_text(self.inner.as_str(), other.inner.as_str())
    }
}

/// What is kept of a text and when it is refused: with trimming, the text without the
/// white space around it, and else the text itself; refused where that is shorter than
/// the least length or longer than the greatest, with its length and the limit.
pub proof fn law_text_kept_by_length(text: Seq<char>, trims: bool, min: usize, max: usize)
    requires
        text.len() <= usize::MAX,
    ensures
        ({
            let kept = if trims {
                trimmed(text)
            } else {
                text
            };
            match validated(text, trims, min, max) {
                Ok(result) => min <= kept.len() <= max && result == kept,
                Err(ValidatedStringError::TooShort { len, min: least }) => kept.len() < min
                    && least == min && len == kept.len(),
                Err(ValidatedStringError::TooLong { len, max: most }) => min <= kept.len() && max
                    < kept.len() && most == max && len == kept.len(),
            }
        }),
{
    law_trim_shortens(text);
}

} // verus!
