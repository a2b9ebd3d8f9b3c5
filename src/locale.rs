use vstd::prelude::*;

verus! {

#[verifier::external_type_specification]
#[verifier::external_body]
pub struct ExLanguageIdentifier(unic_langid::LanguageIdentifier);

/// Relies on `LanguageIdentifier`'s derived `Clone`, used when a `LangId` is
/// cloned; nothing is claimed of the copy.
pub assume_specification[ <unic_langid::LanguageIdentifier as Clone>::clone ](
    id: &unic_langid::LanguageIdentifier,
) -> unic_langid::LanguageIdentifier;

/// What parsing a language tag yields: its canonical form and its primary
/// language subtag, or `None` when the text is not a valid tag.
pub uninterp spec fn parsed_tag(s: Seq<char>) -> Option<(Seq<char>, Seq<char>)>;

/// A parsed language tag.  Two identifiers denote the same locale when their
/// canonical tags are equal; "same language" compares the primary subtags.
#[derive(Debug)]
pub struct LangId {
    id: unic_langid::LanguageIdentifier,
    tag: String,
    language: String,
}

impl View for LangId {
    type V = Seq<char>;

    /// The canonical tag.
    closed spec fn view(&self) -> Seq<char> {
        self.tag@
    }
}

impl LangId {
    /// The primary language subtag.
    pub closed spec fn primary(&self) -> Seq<char> {
        self.language@
    }

    /// Parses a language tag; `None` where `s` is not a valid tag.
    pub fn parse(s: &str) -> (r: Option<LangId>)
        ensures
            r matches Some(l) ==> parsed_tag(s@) == Some((l@, l.primary())),
            r is None <==> parsed_tag(s@) is None,
    {
        parse_identifier(s)
    }

    /// The canonical tag, e.g. `en-US`.
    pub fn tag(&self) -> (r: &str)
        ensures
            r@ == self@,
    {
        self.tag.as_str()
    }

    /// The primary language subtag, e.g. `en`.
    pub fn language(&self) -> (r: &str)
        ensures
            r@ == self.primary(),
    {
        self.language.as_str()
    }

    /// Whether the canonical tag is `tag`.
    pub fn has_tag(&self, tag: &str) -> (r: bool)
        ensures
            r == (self@ == tag@),
    {
        let t = String::from_str(tag);
        self.tag == t
    }

    /// Whether the primary language subtag is `lang`.
    pub fn has_language(&self, lang: &str) -> (r: bool)
        ensures
            r == (self.primary() == lang@),
    {
        let l = String::from_str(lang);
        self.language == l
    }
}

/// Relies on `LanguageIdentifier: FromStr` (unic-langid) to parse `s`, on its
/// `Display` for the canonical tag and on its `language` field for the primary
/// subtag.
#[verifier::external_body]
fn parse_identifier(s: &str) -> (r: Option<LangId>)
    ensures
        r matches Some(l) ==> parsed_tag(s@) == Some((l@, l.primary())),
        r is None <==> parsed_tag(s@) is None,
{
    let id = s.parse::<unic_langid::LanguageIdentifier>().ok()?;
    Some(LangId { tag: id.to_string(), language: id.language.as_str().to_string(), id })
}

impl Clone for LangId {
    fn clone(&self) -> (r: LangId)
        ensures
            r@ == self@,
            r.primary() == self.primary(),
    {
        LangId { id: self.id.clone(), tag: self.tag.clone(), language: self.language.clone() }
    }
}

impl AsRef<unic_langid::LanguageIdentifier> for LangId {
    fn as_ref(&self) -> &unic_langid::LanguageIdentifier {
        &self.id
    }
}

impl PartialEq for LangId {
    fn eq(&self, other: &LangId) -> (r: bool) {
        self.tag == other.tag
    }
}

impl vstd::std_specs::cmp::PartialEqSpecImpl for LangId {
    open spec fn obeys_eq_spec() -> bool {
        true
    }

    open spec fn eq_spec(&self, other: &LangId) -> bool {
        self@ == other@
    }
}

/// The canonical tags of a sequence of identifiers.
pub open spec fn tags_of(ls: Seq<LangId>) -> Seq<Seq<char>> {
    ls.map_values(|l: LangId| l@)
}

/// What the filtering strategy of language negotiation selects from the
/// available tags for the requested tags, best match first.
pub uninterp spec fn filtering_matches(
    requested: Seq<Seq<char>>,
    available: Seq<Seq<char>>,
) -> Seq<Seq<char>>;

/// Relies on `fluent_langneg::negotiate_languages` with the filtering strategy
/// and no default: the available locales that match the requested ones, in
/// order of preference, each one of the available locales.
#[verifier::external_body]
pub(crate) fn filter_matches(requested: &[LangId], available: &[LangId]) -> (r: Vec<String>)
    ensures
        r@.map_values(|t: String| t@) == filtering_matches(tags_of(requested@), tags_of(available@)),
        forall|i: int| 0 <= i < r@.len() ==> exists|j: int| 0 <= j < available@.len() && #[trigger] r@[i]@ == available@[j]@,
        requested@.len() > 0 && (exists|j: int| 0 <= j < available@.len() && #[trigger] available@[j]@ == requested@[0]@)
            ==> (r@.len() > 0 && r@[0]@ == requested@[0]@),
{
    fluent_langneg::negotiate_languages(
        requested,
        available,
        None,
        fluent_langneg::NegotiationStrategy::Filtering,
    ).into_iter().map(|l| l.tag.clone()).collect()
}

/// Position of the first `-` in `s`, or its length where there is none.
pub open spec fn dash_pos(s: Seq<char>) -> nat
    decreases s.len(),
{
    if s.len() == 0 {
        0
    } else if s[0] == '-' {
        0
    } else {
        1 + dash_pos(s.drop_first())
    }
}

/// Number of bytes of a character in UTF-8.
pub open spec fn utf8_width(c: char) -> nat {
    if (c as int) < 0x80 {
        1
    } else if (c as int) < 0x800 {
        2
    } else if (c as int) < 0x10000 {
        3
    } else {
        4
    }
}

/// Number of bytes of a text in UTF-8.
pub open spec fn utf8_len(s: Seq<char>) -> nat
    decreases s.len(),
{
    if s.len() == 0 {
        0
    } else {
        utf8_len(s.drop_last()) + utf8_width(s.last())
    }
}

/// The language and region of a tag: the first two subtags where the second
/// is at least two bytes long in UTF-8, else the first subtag alone; a tag
/// without `-` is kept whole.
pub open spec fn language_region(s: Seq<char>) -> Seq<char> {
    let i = dash_pos(s);
    if i == s.len() {
        s
    } else {
        let j = dash_pos(s.subrange(i as int + 1, s.len() as int));
        if utf8_len(s.subrange(i as int + 1, i as int + 1 + j)) >= 2 {
            s.subrange(0, (i + 1 + j) as int)
        } else {
            s.subrange(0, i as int)
        }
    }
}

proof fn lemma_utf8_len_at_least_chars(s: Seq<char>)
    ensures
        utf8_len(s) >= s.len(),
    decreases s.len(),
{
    if s.len() > 0 {
        lemma_utf8_len_at_least_chars(s.drop_last());
    }
}

/// A text is at least two bytes long in UTF-8 exactly when it has two
/// characters or more, or one that is not ASCII.
pub(crate) proof fn lemma_utf8_len_two(s: Seq<char>)
    ensures
        utf8_len(s) >= 2 <==> (s.len() >= 2 || (s.len() == 1 && (s[0] as int) >= 0x80)),
{
    lemma_utf8_len_at_least_chars(s);
    if s.len() == 1 {
        assert(utf8_len(s.drop_last()) == 0);
        assert(s.last() == s[0]);
    }
}

proof fn lemma_dash_pos(t: Seq<char>, k: int)
    requires
        0 <= k <= t.len(),
        forall|m: int| 0 <= m < k ==> t[m] != '-',
        k == t.len() || t[k] == '-',
    ensures
        dash_pos(t) == k,
    decreases k,
{
    if k > 0 {
        lemma_dash_pos(t.drop_first(), k - 1);
    }
}

/// The first position at or after `from` that holds `-`, or the length.
pub(crate) fn find_dash(s: &str, n: usize, from: usize) -> (r: usize)
    requires
        n == s@.len(),
        from <= n,
    ensures
        r == from + dash_pos(s@.subrange(from as int, n as int)),
        r <= n,
{
    let mut k = from;
    while k < n && s.get_char(k) != '-'
        invariant
            n == s@.len(),
            from <= k <= n,
            forall|m: int| from <= m < k ==> s@[m] != '-',
        decreases n - k,
    {
        k = k + 1;
    }
    proof {
        lemma_dash_pos(s@.subrange(from as int, n as int), k - from);
    }
    k
}

} // verus!
