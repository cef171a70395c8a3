//! Web addresses, percent-encoded text and language tags.
use vstd::prelude::*;
use vstd::string::*;

use crate::text::same_text;

verus! {

// --- Lists of texts ---

/// The characters of each text of a list.
pub open spec fn texts(list: Seq<String>) -> Seq<Seq<char>> {
    list.map_values(|s: String| s@)
}

// --- Addresses ---

/// What an address says: its normal form, its host, and the segments of its
/// path where it has a hierarchical one.
pub type Parts = (Seq<char>, Option<Seq<char>>, Option<Seq<Seq<char>>>);

/// The parts of the address written as `text`; `None` where `text` is no
/// absolute address.
pub uninterp spec fn url_parts(text: Seq<char>) -> Option<Parts>;

/// The characters of parts that were read.
pub open spec fn parts_view(
    parts: (String, Option<String>, Option<Vec<String>>),
) -> Parts {
    (
        parts.0@,
        match parts.1 {
            Some(host) => Some(host@),
            None => None,
        },
        match parts.2 {
            Some(segments) => Some(texts(segments@)),
            None => None,
        },
    )
}

/// Read an address.
///
/// Calls `url::Url::parse`, and `as_str`, `host_str` and `path_segments` on
/// what it returns. Taken as given: the outcome depends on the text alone.
#[verifier::external_body]
fn read_url(text: &str) -> (r: Option<(String, Option<String>, Option<Vec<String>>)>)
    ensures
        r is Some <==> url_parts(text@) is Some,
        r is Some ==> parts_view(r->0) == url_parts(text@)->0,
{
    let url = url::Url::parse(text).ok()?;
    let host = url.host_str().map(str::to_owned);
    let segments = url.path_segments().map(|s| s.map(str::to_owned).collect());
    Some((url.as_str().to_owned(), host, segments))
}

/// An absolute web address.
#[derive(Debug, Clone, PartialEq, Eq, Hash)]
pub struct WebUrl {
    text: String,
    host: Option<String>,
    segments: Option<Vec<String>>,
}

impl View for WebUrl {
    type V = Parts;

    closed spec fn view(&self) -> Parts {
        parts_view((self.text, self.host, self.segments))
    }
}

impl WebUrl {
    /// Read an address; `None` where the text is no absolute address.
    pub fn parse(text: &str) -> (r: Option<Self>)
        ensures
            r is Some <==> url_parts(text@) is Some,
            r is Some ==> r->0@ == url_parts(text@)->0,
    {
        match read_url(text) {
            Some((text, host, segments)) => Some(WebUrl { text, host, segments }),
            None => None,
        }
    }

    /// The normal form of the address.
    pub fn as_str(&self) -> (r: &str)
        ensures
            r@ == self@.0,
    {
        self.text.as_str()
    }

    /// The host, where the address has one.
    pub fn host(&self) -> (r: Option<&str>)
        ensures
            r is Some <==> self@.1 is Some,
            r is Some ==> r->0@ == self@.1->0,
    {
        match &self.host {
            Some(host) => Some(host.as_str()),
            None => None,
        }
    }

    /// The segments of the path that hold any character, in order; none where
    /// the address has no hierarchical path.
    pub fn named_segments(&self) -> (r: Vec<String>)
        ensures
            texts(r@) == nonempty_segments(self@.2),
    {
        let mut out: Vec<String> = Vec::new();
        assert(texts(out@) =~= Seq::<Seq<char>>::empty());
        match &self.segments {
            None => {
                assert(Seq::<Seq<char>>::empty().filter(|s: Seq<char>| s.len() > 0) =~= Seq::<
                    Seq<char>,
                >::empty()) by {
                    reveal(Seq::filter);
                }
            },
            Some(segments) => {
                let ghost all = texts(segments@);
                let mut i: usize = 0;
                assert(all.take(0).filter(|s: Seq<char>| s.len() > 0) =~= Seq::<Seq<char>>::empty())
                    by {
                    reveal(Seq::filter);
                }
                while i < segments.len()
                    invariant
                        i <= segments@.len(),
                        all == texts(segments@),
                        texts(out@) == all.take(i as int).filter(|s: Seq<char>| s.len() > 0),
                    decreases segments.len() - i,
                {
                    let ghost before = out@;
                    let keep = !segments[i].as_str().is_empty();
                    if keep {
                        out.push(segments[i].clone());
                    }
                    proof {
                        let more = all.take(i + 1);
                        assert(more.drop_last() =~= all.take(i as int));
                        assert(more.last() == segments@[i as int]@);
                        reveal(Seq::filter);
                        if keep {
                            assert(texts(out@) =~= texts(before).push(segments@[i as int]@));
                        }
                    }
                    i += 1;
                }
                assert(all.take(i as int) =~= all);
            },
        }
        out
    }

    /// A copy of the address.
    pub fn duplicate(&self) -> (r: Self)
        ensures
            r@ == self@,
    {
        let host = match &self.host {
            Some(host) => Some(host.clone()),
            None => None,
        };
        let segments = match &self.segments {
            Some(segments) => Some(copy_texts(segments)),
            None => None,
        };
        WebUrl { text: self.text.clone(), host, segments }
    }

    /// Whether two addresses have the same normal form.
    pub fn same(&self, other: &Self) -> (r: bool)
        ensures
            r == (self@.0 == other@.0),
    {
        same_text(self.text.as_str(), other.text.as_str())
    }
}

/// The segments that hold any character.
pub open spec fn nonempty_segments(segments: Option<Seq<Seq<char>>>) -> Seq<Seq<char>> {
    match segments {
        Some(segments) => segments.filter(|s: Seq<char>| s.len() > 0),
        None => Seq::empty(),
    }
}

/// A copy of a list of texts.
fn copy_texts(list: &[String]) -> (r: Vec<String>)
    ensures
        texts(r@) == texts(list@),
{
    let mut out: Vec<String> = Vec::new();
    let mut i: usize = 0;
    while i < list.len()
        invariant
            i <= list@.len(),
            out@.len() == i,
            forall|k: int| 0 <= k < i ==> #[trigger] out@[k]@ == list@[k]@,
        decreases list.len() - i,
    {
        out.push(list[i].clone());
        i += 1;
    }
    assert(texts(out@) =~= texts(list@));
    out
}

// --- Percent-encoded text ---

/// The text that a percent-encoded text stands for; `None` where its bytes are
/// not UTF-8.
pub uninterp spec fn percent_decoded(text: Seq<char>) -> Option<Seq<char>>;

/// Decode a percent-encoded text.
///
/// Calls `urlencoding::decode`. Taken as given: the outcome depends on the text
/// alone, and a text without a percent sign stands for itself.
#[verifier::external_body]
pub(crate) fn percent_decode(text: &str) -> (r: Option<String>)
    ensures
        r is Some <==> percent_decoded(text@) is Some,
        r is Some ==> r->0@ == percent_decoded(text@)->0,
        !text@.contains('%') ==> r is Some && r->0@ == text@,
{
    urlencoding::decode(text).ok().map(|s| s.into_owned())
}

// --- Language tags ---

/// Whether a text is a well-formed BCP 47 language tag.
pub uninterp spec fn language_tag(text: Seq<char>) -> bool;

/// Whether a text is a well-formed BCP 47 language tag.
///
/// Calls `oxilangtag::LanguageTag::parse`. Taken as given: the outcome depends
/// on the text alone.
#[verifier::external_body]
pub(crate) fn is_language_tag(text: &str) -> (r: bool)
    ensures
        r == language_tag(text@),
{
    oxilangtag::LanguageTag::parse(text).is_ok()
}

/// The lower-case form of an ASCII letter; any other character stays.
pub open spec fn ascii_lower(c: char) -> char {
    if 'A' as int <= c as int <= 'Z' as int {
        (c as int + 32) as char
    } else {
        c
    }
}

/// Whether two texts differ in the case of ASCII letters at most.
pub open spec fn same_but_case(a: Seq<char>, b: Seq<char>) -> bool {
    &&& a.len() == b.len()
    &&& forall|i: int|
        0 <= i < a.len() ==> ascii_lower(#[trigger] a[i]) == ascii_lower(#[trigger] b[i])
}

/// The canonical form of the language tag written as `text`; `None` where `text`
/// is no well-formed tag.
pub uninterp spec fn canonical_tag(text: Seq<char>) -> Option<Seq<char>>;

/// The canonical form of a language tag.
///
/// Calls `oxilangtag::LanguageTag::parse_and_normalize`. Taken as given: the
/// outcome depends on the text alone, the texts accepted are those that
/// `oxilangtag::LanguageTag::parse` accepts, the canonical form differs from the
/// text in the case of letters at most, and so it is for every casing of the text,
/// which all have the same one.
#[verifier::external_body]
fn normalize_tag(text: &str) -> (r: Option<String>)
    ensures
        r is Some <==> canonical_tag(text@) is Some,
        r is Some <==> language_tag(text@),
        r is Some ==> r->0@ == canonical_tag(text@)->0,
        r is Some ==> same_but_case(r->0@, text@),
        r is Some ==> forall|other: Seq<char>| #[trigger]
            same_but_case(other, text@) ==> canonical_tag(other) == Some(r->0@),
{
    oxilangtag::LanguageTag::parse_and_normalize(text).ok().map(|tag| tag.into_inner())
}

/// A BCP 47 language tag, as it was written.
#[derive(Debug, PartialEq, Eq, Hash)]
pub struct LanguageTag {
    tag: String,
}

impl View for LanguageTag {
    type V = Seq<char>;

    closed spec fn view(&self) -> Seq<char> {
        self.tag@
    }
}

impl Clone for LanguageTag {
    fn clone(&self) -> (r: Self)
        ensures
            r == *self,
    {
        LanguageTag { tag: self.tag.clone() }
    }
}

impl LanguageTag {
    /// The tag written as `text`; `None` where it is not well-formed.
    pub fn parse(text: &str) -> (r: Option<Self>)
        ensures
            r is Some <==> language_tag(text@),
            r is Some ==> r->0@ == text@,
    {
        if is_language_tag(text) {
            Some(LanguageTag { tag: text.to_owned() })
        } else {
            None
        }
    }

    /// The tag held as given, for a text whose form was looked at before.
    pub(crate) fn from_checked(text: &str) -> (r: Self)
        ensures
            r@ == text@,
    {
        LanguageTag { tag: text.to_owned() }
    }

    /// The tag's text.
    pub fn as_str(&self) -> (r: &str)
        ensures
            r@ == self@,
    {
        self.tag.as_str()
    }

    /// Whether two tags are written the same.
    pub fn same(&self, other: &Self) -> (r: bool)
        ensures
            r == (self@ == other@),
    {
        same_text(self.tag.as_str(), other.tag.as_str())
    }
}

/// A BCP 47 language tag in canonical form.
#[derive(Debug, PartialEq, Eq, Hash)]
pub struct Language {
    tag: String,
}

impl View for Language {
    type V = Seq<char>;

    closed spec fn view(&self) -> Seq<char> {
        self.tag@
    }
}

impl Clone for Language {
    fn clone(&self) -> (r: Self)
        ensures
            r == *self,
    {
        proof {
            use_type_invariant(self);
        }
        Language { tag: self.tag.clone() }
    }
}

impl Language {
    /// The tag is its own canonical form.
    #[verifier::type_invariant]
    spec fn canonical(self) -> bool {
        canonical_tag(self.tag@) == Some(self.tag@)
    }

    /// The tag written as `text`, in canonical form; `None` where it is not
    /// well-formed. Every casing of one tag gives the same, and the canonical form
    /// gives itself.
    pub fn parse(text: &str) -> (r: Option<Self>)
        ensures
            r is Some <==> language_tag(text@),
            r is Some <==> canonical_tag(text@) is Some,
            r is Some ==> r->0@ == canonical_tag(text@)->0,
            r is Some ==> canonical_tag(r->0@) == Some(r->0@),
            r is Some ==> forall|other: Seq<char>| #[trigger]
                same_but_case(other, text@) ==> canonical_tag(other) == Some(r->0@),
    {
        match normalize_tag(text) {
            Some(tag) => Some(Language { tag }),
            None => None,
        }
    }

    /// The tag's text.
    pub fn as_str(&self) -> (r: &str)
        ensures
            r@ == self@,
    {
        self.tag.as_str()
    }

    /// Whether two tags are written the same.
    pub fn same(&self, other: &Self) -> (r: bool)
        ensures
            r == (self@ == other@),
    {
        same_text(self.tag.as_str(), other.tag.as_str())
    }
}

/// Of the segments of a path those with any character are kept, in their order, and the
/// empty ones are left out.
pub proof fn law_named_segments_are_kept(segments: Seq<Seq<char>>, last: Seq<char>)
    ensures
        last.len() > 0 ==> nonempty_segments(Some(segments.push(last))) == nonempty_segments(
            Some(segments),
        ).push(last),
        last.len() == 0 ==> nonempty_segments(Some(segments.push(last))) == nonempty_segments(
            Some(segments),
        ),
        nonempty_segments(Some(Seq::empty())) == Seq::<Seq<char>>::empty(),
        nonempty_segments(None) == Seq::<Seq<char>>::empty(),
{
    reveal(Seq::filter);
    assert(segments.push(last).drop_last() =~= segments);
}

} // verus!
