use vstd::prelude::*;
use crate::bundle::{
    build_bundle, bundle_messages, bundle_origin, formatted_message, parsed_messages, render_message,
    MessageArgs, MessageBundle, Rendered,
};
use crate::keys::{normalize_post, KeyCache};
use crate::locale::{find_dash, language_region, lemma_utf8_len_two, tags_of, LangId};
use crate::negotiate::{
    index_of, negotiate_system_locale_with_preferences, negotiated, position_of_tag, strs_view,
    FallbackChains,
};

verus! {

/// Why a lookup or a locale switch failed.
#[derive(Debug)]
pub enum IntlError {
    /// The active bundle has no message with this identifier.
    NotFound(String),
    /// The message exists but has no value of its own.
    NoValue(String),
    /// The registry holds no template source for this locale.
    NoFtl(String),
    /// The locale is not among the available ones.
    LocaleNotAvailable(String),
}

pub enum IntlErrorView {
    NotFound(Seq<char>),
    NoValue(Seq<char>),
    NoFtl(Seq<char>),
    LocaleNotAvailable(Seq<char>),
}

impl View for IntlError {
    type V = IntlErrorView;

    open spec fn view(&self) -> IntlErrorView {
        match self {
            IntlError::NotFound(s) => IntlErrorView::NotFound(s@),
            IntlError::NoValue(s) => IntlErrorView::NoValue(s@),
            IntlError::NoFtl(s) => IntlErrorView::NoFtl(s@),
            IntlError::LocaleNotAvailable(s) => IntlErrorView::LocaleNotAvailable(s@),
        }
    }
}

pub open spec fn result_view(r: Result<String, IntlError>) -> Result<Seq<char>, IntlErrorView> {
    match r {
        Ok(s) => Ok(s@),
        Err(e) => Err(e@),
    }
}

pub open spec fn opt_view(o: Option<String>) -> Option<Seq<char>> {
    match o {
        Some(s) => Some(s@),
        None => None,
    }
}

/// What a lookup of `id` in a bundle with messages `m` returns.
pub open spec fn expected_lookup(m: Map<Seq<char>, Option<Seq<char>>>, id: Seq<char>) -> Result<
    Seq<char>,
    IntlErrorView,
> {
    if !m.contains_key(id) {
        Err(IntlErrorView::NotFound(id))
    } else {
        match m[id] {
            Some(t) => Ok(t),
            None => Err(IntlErrorView::NoValue(id)),
        }
    }
}

/// No two locales share a canonical tag.
pub open spec fn distinct_tags(ls: Seq<LangId>) -> bool {
    forall|a: int, b: int| 0 <= a < b < ls.len() ==> #[trigger] ls[a]@ != #[trigger] ls[b]@
}

/// The available locales, each with its native display name and, where one
/// ships, its template source.
pub struct LocaleRegistry {
    locales: Vec<LangId>,
    native_names: Vec<String>,
    sources: Vec<Option<String>>,
    chains: FallbackChains,
}

impl LocaleRegistry {
    pub closed spec fn wf(&self) -> bool {
        &&& self.native_names@.len() == self.locales@.len()
        &&& self.sources@.len() == self.locales@.len()
        &&& distinct_tags(self.locales@)
    }

    pub closed spec fn locales(&self) -> Seq<LangId> {
        self.locales@
    }

    pub closed spec fn native_name(&self, i: int) -> Seq<char> {
        self.native_names@[i]@
    }

    pub closed spec fn source(&self, i: int) -> Option<Seq<char>> {
        opt_view(self.sources@[i])
    }

    /// The per-language fallback chains of the single-preference heuristic.
    pub closed spec fn chains(&self) -> Seq<(Seq<char>, Seq<Seq<char>>)> {
        self.chains@
    }

    pub open spec fn len(&self) -> nat {
        self.locales().len()
    }

    pub fn new() -> (r: LocaleRegistry)
        ensures
            r.wf(),
            r.len() == 0,
            r.chains() == Seq::<(Seq<char>, Seq<Seq<char>>)>::empty(),
    {
        LocaleRegistry {
            locales: Vec::new(),
            native_names: Vec::new(),
            sources: Vec::new(),
            chains: FallbackChains::new(),
        }
    }

    /// Lists `chain` as the locales a host that reports only the language
    /// `lang` is taken to accept, before the default (an earlier entry for the
    /// same language takes precedence).
    pub fn add_fallback_chain(&mut self, lang: &str, chain: Vec<String>)
        requires
            old(self).wf(),
        ensures
            final(self).wf(),
            final(self).chains() == old(self).chains().push((lang@, strs_view(chain@))),
            final(self).locales() == old(self).locales(),
            forall|i: int|
                0 <= i < old(self).len() ==> final(self).native_name(i) == old(self).native_name(i)
                    && final(self).source(i) == old(self).source(i),
    {
        self.chains.add(lang, chain);
    }

    /// Appends a locale with its native name and template source; a locale
    /// whose tag is already present is refused (`false`) and nothing changes.
    pub fn add(&mut self, locale: LangId, native_name: String, source: Option<String>) -> (r: bool)
        requires
            old(self).wf(),
        ensures
            final(self).wf(),
            r == (index_of(tags_of(old(self).locales()), locale@) is None),
            !r ==> *final(self) == *old(self),
            final(self).chains() == old(self).chains(),
            r ==> final(self).locales() == old(self).locales().push(locale),
            r ==> final(self).native_name(old(self).len() as int) == native_name@,
            r ==> final(self).source(old(self).len() as int) == opt_view(source),
            forall|i: int|
                0 <= i < old(self).len() ==> final(self).native_name(i) == old(self).native_name(i)
                    && final(self).source(i) == old(self).source(i),
    {
        if position_of_tag(self.locales.as_slice(), locale.tag()).is_some() {
            return false;
        }
        proof {
            assert forall|j: int| 0 <= j < self.locales@.len() implies #[trigger] self.locales@[j]@ != locale@ by {
                if self.locales@[j]@ == locale@ {
                    assert(tags_of(self.locales@)[j] == locale@);
                    crate::negotiate::lemma_index_of_found(tags_of(self.locales@), locale@, j);
                }
            }
        }
        self.locales.push(locale);
        self.native_names.push(native_name);
        self.sources.push(source);
        proof {
            let ls = self.locales@;
            assert forall|a: int, b: int| 0 <= a < b < ls.len() implies #[trigger] ls[a]@ != #[trigger] ls[b]@ by {
                if b < ls.len() - 1 {
                    assert(ls[a] == old(self).locales@[a] && ls[b] == old(self).locales@[b]);
                } else {
                    assert(ls[a] == old(self).locales@[a]);
                }
            }
        }
        true
    }
}

/// A rendered string kept for a locale (by position) and a message identifier.
pub struct CachedString {
    locale: usize,
    key: String,
    text: String,
}

pub closed spec fn entry_view(e: CachedString) -> (int, Seq<char>, Seq<char>) {
    (e.locale as int, e.key@, e.text@)
}

pub closed spec fn entries_view(s: Seq<CachedString>) -> Seq<(int, Seq<char>, Seq<char>)> {
    s.map_values(|e: CachedString| entry_view(e))
}

/// The text kept for (`loc`, `key`), the latest entry winning.
pub open spec fn cache_assoc(entries: Seq<(int, Seq<char>, Seq<char>)>, loc: int, key: Seq<char>) -> Option<
    Seq<char>,
>
    decreases entries.len(),
{
    if entries.len() == 0 {
        None
    } else if entries.last().0 == loc && entries.last().1 == key {
        Some(entries.last().2)
    } else {
        cache_assoc(entries.drop_last(), loc, key)
    }
}

/// No two kept strings share a locale and an identifier.
pub open spec fn unique_pairs(v: Seq<(int, Seq<char>, Seq<char>)>) -> bool {
    forall|a: int, b: int|
        0 <= a < b < v.len() ==> !(#[trigger] v[a].0 == #[trigger] v[b].0 && v[a].1 == v[b].1)
}

proof fn lemma_assoc_unique(v: Seq<(int, Seq<char>, Seq<char>)>, loc: int, key: Seq<char>)
    requires
        unique_pairs(v),
    ensures
        forall|j: int|
            0 <= j < v.len() && #[trigger] v[j].0 == loc && v[j].1 == key ==> cache_assoc(v, loc, key)
                == Some(v[j].2),
        (forall|j: int| 0 <= j < v.len() ==> !(#[trigger] v[j].0 == loc && v[j].1 == key))
            ==> cache_assoc(v, loc, key) is None,
    decreases v.len(),
{
    if v.len() > 0 {
        let w = v.drop_last();
        assert(unique_pairs(w)) by {
            assert forall|a: int, b: int| 0 <= a < b < w.len() implies !(#[trigger] w[a].0 == #[trigger] w[b].0
                && w[a].1 == w[b].1) by {
                assert(w[a] == v[a] && w[b] == v[b]);
            }
        }
        lemma_assoc_unique(w, loc, key);
        assert forall|j: int|
            0 <= j < v.len() && #[trigger] v[j].0 == loc && v[j].1 == key implies cache_assoc(v, loc, key)
                == Some(v[j].2) by {
            if j < v.len() - 1 {
                assert(w[j] == v[j]);
                assert(!(v[j].0 == v[v.len() - 1].0 && v[j].1 == v[v.len() - 1].1));
            }
        }
        if forall|j: int| 0 <= j < v.len() ==> !(#[trigger] v[j].0 == loc && v[j].1 == key) {
            assert forall|j: int| 0 <= j < w.len() implies !(#[trigger] w[j].0 == loc && w[j].1 == key) by {
                assert(w[j] == v[j]);
            }
            assert(!(v[v.len() - 1].0 == loc && v[v.len() - 1].1 == key));
        }
    }
}

pub open spec fn count_true(s: Seq<bool>) -> nat
    decreases s.len(),
{
    if s.len() == 0 {
        0
    } else {
        count_true(s.drop_last()) + if s.last() { 1nat } else { 0nat }
    }
}

/// The tags of the locales whose flag is set, in order.
pub open spec fn flagged_tags(locales: Seq<LangId>, flags: Seq<bool>) -> Seq<Seq<char>>
    decreases flags.len(),
{
    if flags.len() == 0 {
        seq![]
    } else {
        let rest = flagged_tags(locales, flags.drop_last());
        if flags.last() {
            rest.push(locales[flags.len() - 1]@)
        } else {
            rest
        }
    }
}

/// Statistics about cache usage.
pub struct CacheStats {
    /// How many parsed bundles are held.
    pub resource_cache_size: usize,
    /// How many rendered strings are held.
    pub string_cache_size: usize,
    /// The locales whose bundle is held, in registry order.
    pub cached_locales: Vec<LangId>,
}

/// Manages localization resources and provides localized strings.
pub struct Localization {
    current_locale: usize,
    fallback_locale: usize,
    registry: LocaleRegistry,
    string_cache: Vec<CachedString>,
    normalized_key_cache: KeyCache,
    bundles: Vec<Option<MessageBundle>>,
    use_isolating: bool,
}

/// What a lookup of `id` does to `before`, giving `r` and leaving `after`.
pub open spec fn lookup_post(
    before: Localization,
    id: Seq<char>,
    args: Option<Seq<(Seq<char>, Seq<char>)>>,
    r: Result<Seq<char>, IntlErrorView>,
    after: Localization,
) -> bool {
    let served = before.served();
    let expected = expected_lookup(before.messages(served), id);
    let with_args = args is Some;
    &&& after.wf()
    &&& after.same_settings(before)
    &&& after.loaded() == before.loaded().update(served, true)
    &&& !with_args ==> r == expected
    &&& with_args ==> (r is Err <==> expected is Err) && (r is Err ==> r == expected)
    &&& (with_args && r is Ok) ==> r->Ok_0 == formatted_message(
        before.registry().locales()[served]@,
        before.registry().source(served)->0,
        before.isolating(),
        id,
        args->0,
    )
    &&& (with_args || r is Err) ==> after.cache_view() == before.cache_view()
    &&& (!with_args && r is Ok) ==> after.cached(served, id) == Some(r->Ok_0)
    &&& (!with_args && before.cached(served, id) is Some) ==> after.cache_view()
        == before.cache_view()
    &&& (!with_args && r is Ok && before.cached(served, id) is None) ==> after.cache_view()
        == before.cache_view().push((served, id, r->Ok_0))
}

impl Localization {
    pub closed spec fn current(&self) -> int {
        self.current_locale as int
    }

    pub closed spec fn fallback(&self) -> int {
        self.fallback_locale as int
    }

    pub closed spec fn registry(&self) -> LocaleRegistry {
        self.registry
    }

    pub closed spec fn isolating(&self) -> bool {
        self.use_isolating
    }

    pub closed spec fn keys(&self) -> KeyCache {
        self.normalized_key_cache
    }

    /// Which locales (by position) have a parsed bundle.
    pub closed spec fn loaded(&self) -> Seq<bool> {
        self.bundles@.map_values(|b: Option<MessageBundle>| b is Some)
    }

    /// The rendered strings held: (locale position, identifier, text).
    pub closed spec fn cache_view(&self) -> Seq<(int, Seq<char>, Seq<char>)> {
        entries_view(self.string_cache@)
    }

    pub open spec fn cached(&self, loc: int, key: Seq<char>) -> Option<Seq<char>> {
        cache_assoc(self.cache_view(), loc, key)
    }

    /// The messages of locale `i`'s bundle.
    pub open spec fn messages(&self, i: int) -> Map<Seq<char>, Option<Seq<char>>> {
        parsed_messages(
            self.registry().locales()[i]@,
            self.registry().source(i)->0,
            self.isolating(),
        )
    }

    /// The locale whose bundle lookups use: the current one, or the fallback
    /// where the current one ships no template source.
    pub open spec fn served(&self) -> int {
        if self.registry().source(self.current()) is Some {
            self.current()
        } else {
            self.fallback()
        }
    }

    pub open spec fn same_settings(&self, other: Localization) -> bool {
        &&& self.current() == other.current()
        &&& self.fallback() == other.fallback()
        &&& self.registry() == other.registry()
        &&& self.isolating() == other.isolating()
        &&& self.keys() == other.keys()
    }

    pub closed spec fn wf(&self) -> bool {
        let n = self.registry.len();
        &&& self.registry.wf()
        &&& self.current_locale < n
        &&& self.fallback_locale < n
        &&& self.registry.source(self.fallback_locale as int) is Some
        &&& self.bundles@.len() == n
        &&& unique_pairs(self.cache_view())
        &&& forall|i: int|
            0 <= i < n ==> (#[trigger] self.bundles@[i] matches Some(b) ==> self.registry.source(i) is Some
                && bundle_messages(b) == self.messages(i) && bundle_origin(b) == (
                self.registry.locales@[i]@,
                self.registry.source(i)->0,
                self.use_isolating,
            ))
        &&& forall|k: int|
            0 <= k < self.string_cache@.len() ==> {
                let e = #[trigger] self.string_cache@[k];
                &&& e.locale < n
                &&& self.bundles@[e.locale as int] is Some
                &&& self.messages(e.locale as int).contains_key(e.key@)
                &&& self.messages(e.locale as int)[e.key@] == Some(e.text@)
            }
    }

    pub proof fn lemma_wf_bounds(&self)
        requires
            self.wf(),
        ensures
            0 <= self.current() < self.registry().len(),
            0 <= self.fallback() < self.registry().len(),
            self.registry().source(self.fallback()) is Some,
            self.registry().source(self.served()) is Some,
            self.loaded().len() == self.registry().len(),
    {
    }

    fn build(
        registry: LocaleRegistry,
        fallback: &LangId,
        preferences: &Vec<String>,
        use_isolating: bool,
    ) -> (r: Result<Localization, IntlError>)
        requires
            registry.wf(),
        ensures
            index_of(tags_of(registry.locales()), fallback@) is None ==> (r matches Err(e)
                && e@ == IntlErrorView::LocaleNotAvailable(fallback@)),
            index_of(tags_of(registry.locales()), fallback@) matches Some(f) ==> {
                if registry.source(f) is None {
                    (r matches Err(e) && e@ == IntlErrorView::NoFtl(fallback@))
                } else {
                    (r matches Ok(l) && l.wf() && l.fallback() == f && l.current() == negotiated(
                        strs_view(preferences@),
                        registry.locales(),
                        f,
                        registry.chains(),
                    ) && l.registry() == registry && l.isolating() == use_isolating
                        && l.loaded() == Seq::new(registry.len(), |i: int| false)
                        && l.cache_view().len() == 0 && l.keys().len() == 0
                        && forall|raw: Seq<char>| #[trigger] l.keys().lookup(raw) is None)
                }
            },
    {
        let fallback_locale = match position_of_tag(registry.locales.as_slice(), fallback.tag()) {
            Some(f) => f,
            None => {
                return Err(IntlError::LocaleNotAvailable(String::from_str(fallback.tag())));
            },
        };
        proof {
            crate::negotiate::lemma_index_of_bounds(tags_of(registry.locales()), fallback@);
        }
        if registry.sources[fallback_locale].is_none() {
            return Err(IntlError::NoFtl(String::from_str(fallback.tag())));
        }
        let current_locale = negotiate_system_locale_with_preferences(
            preferences,
            registry.locales.as_slice(),
            fallback_locale,
            &registry.chains,
        );
        let n = registry.locales.len();
        let mut bundles: Vec<Option<MessageBundle>> = Vec::new();
        let mut i: usize = 0;
        while i < n
            invariant
                0 <= i <= n,
                bundles@.len() == i,
                forall|j: int| 0 <= j < i ==> #[trigger] bundles@[j] is None,
            decreases n - i,
        {
            bundles.push(None);
            i = i + 1;
        }
        let l = Localization {
            current_locale,
            fallback_locale,
            registry,
            string_cache: Vec::new(),
            normalized_key_cache: KeyCache::new(),
            bundles,
            use_isolating,
        };
        assert(l.loaded() =~= Seq::new(l.registry.len(), |i: int| false));
        assert(l.cache_view() =~= Seq::<(int, Seq<char>, Seq<char>)>::empty());
        Ok(l)
    }

    /// An engine over `registry`, with `fallback` as the default locale and the
    /// current locale negotiated from the host's ordered `preferences`.  Fails
    /// where `fallback` is not in the registry or ships no template source.
    pub fn new(registry: LocaleRegistry, fallback: &LangId, preferences: &Vec<String>) -> (r:
        Result<Localization, IntlError>)
        requires
            registry.wf(),
        ensures
            index_of(tags_of(registry.locales()), fallback@) is None ==> (r matches Err(e)
                && e@ == IntlErrorView::LocaleNotAvailable(fallback@)),
            index_of(tags_of(registry.locales()), fallback@) matches Some(f) ==> {
                if registry.source(f) is None {
                    (r matches Err(e) && e@ == IntlErrorView::NoFtl(fallback@))
                } else {
                    (r matches Ok(l) && l.wf() && l.fallback() == f && l.current() == negotiated(
                        strs_view(preferences@),
                        registry.locales(),
                        f,
                        registry.chains(),
                    ) && l.registry() == registry && l.isolating()
                        && l.loaded() == Seq::new(registry.len(), |i: int| false)
                        && l.cache_view().len() == 0
                        && forall|raw: Seq<char>| #[trigger] l.keys().lookup(raw) is None)
                }
            },
    {
        Self::build(registry, fallback, preferences, true)
    }

    /// As `new`, with bidirectional isolation marks left out of rendered text.
    pub fn no_bidi(registry: LocaleRegistry, fallback: &LangId, preferences: &Vec<String>) -> (r:
        Result<Localization, IntlError>)
        requires
            registry.wf(),
        ensures
            index_of(tags_of(registry.locales()), fallback@) is None ==> (r matches Err(e)
                && e@ == IntlErrorView::LocaleNotAvailable(fallback@)),
            index_of(tags_of(registry.locales()), fallback@) matches Some(f) ==> {
                if registry.source(f) is None {
                    (r matches Err(e) && e@ == IntlErrorView::NoFtl(fallback@))
                } else {
                    (r matches Ok(l) && l.wf() && l.fallback() == f && l.current() == negotiated(
                        strs_view(preferences@),
                        registry.locales(),
                        f,
                        registry.chains(),
                    ) && l.registry() == registry && !l.isolating()
                        && l.loaded() == Seq::new(registry.len(), |i: int| false)
                        && l.cache_view().len() == 0
                        && forall|raw: Seq<char>| #[trigger] l.keys().lookup(raw) is None)
                }
            },
    {
        Self::build(registry, fallback, preferences, false)
    }
}


impl Localization {
    /// Parses the bundle of locale `i` from its template source.
    fn load_bundle(&self, i: usize) -> (r: Result<MessageBundle, IntlError>)
        requires
            self.wf(),
            i < self.registry().len(),
        ensures
            r matches Ok(b) ==> self.registry().source(i as int) is Some && bundle_messages(b)
                == self.messages(i as int) && bundle_origin(b) == (
                self.registry().locales()[i as int]@,
                self.registry().source(i as int)->0,
                self.isolating(),
            ),
            r matches Err(e) ==> self.registry().source(i as int) is None && e@
                == IntlErrorView::NoFtl(self.registry().locales()[i as int]@),
    {
        match &self.registry.sources[i] {
            Some(src) => Ok(build_bundle(&self.registry.locales[i], src.as_str(), self.use_isolating)),
            None => Err(IntlError::NoFtl(String::from_str(self.registry.locales[i].tag()))),
        }
    }

    fn has_bundle(&self, i: usize) -> (r: bool)
        requires
            self.wf(),
            i < self.registry().len(),
        ensures
            r == self.loaded()[i as int],
    {
        self.bundles[i].is_some()
    }

    /// Loads and keeps the bundle of locale `i`.
    fn try_load_bundle(&mut self, i: usize) -> (r: Result<(), IntlError>)
        requires
            old(self).wf(),
            i < old(self).registry().len(),
        ensures
            final(self).wf(),
            final(self).same_settings(*old(self)),
            final(self).cache_view() == old(self).cache_view(),
            r is Ok <==> old(self).registry().source(i as int) is Some,
            r is Ok ==> final(self).loaded() == old(self).loaded().update(i as int, true),
            r matches Err(e) ==> final(self).loaded() == old(self).loaded() && e@
                == IntlErrorView::NoFtl(old(self).registry().locales()[i as int]@),
    {
        let b = self.load_bundle(i)?;
        self.bundles.set(i, Some(b));
        proof {
            assert(final(self).loaded() =~= old(self).loaded().update(i as int, true));
            assert(final(self).cache_view() =~= old(self).cache_view());
        }
        Ok(())
    }

    /// Makes sure the bundle that lookups use is parsed; returns its locale.
    fn ensure_bundle(&mut self) -> (r: usize)
        requires
            old(self).wf(),
        ensures
            final(self).wf(),
            final(self).same_settings(*old(self)),
            final(self).cache_view() == old(self).cache_view(),
            r == old(self).served(),
            final(self).loaded() == old(self).loaded().update(r as int, true),
    {
        let cur = self.current_locale;
        if self.has_bundle(cur) {
            proof {
                assert(old(self).loaded().update(cur as int, true) =~= old(self).loaded());
            }
            return cur;
        }
        match self.try_load_bundle(cur) {
            Ok(()) => cur,
            Err(_) => {
                let fb = self.fallback_locale;
                if !self.has_bundle(fb) {
                    let _ = self.try_load_bundle(fb);
                } else {
                    proof {
                        assert(old(self).loaded().update(fb as int, true) =~= old(self).loaded());
                    }
                }
                fb
            },
        }
    }

    /// The text kept for locale `loc` and identifier `id`.
    fn get_cached_string_no_args(&self, loc: usize, id: &str) -> (r: Option<String>)
        requires
            self.wf(),
        ensures
            opt_view(r) == self.cached(loc as int, id@),
    {
        let ghost v = self.cache_view();
        let mut i: usize = self.string_cache.len();
        assert(v.subrange(0, i as int) =~= v);
        while i > 0
            invariant
                0 <= i <= v.len(),
                v == self.cache_view(),
                v.len() == self.string_cache@.len(),
                cache_assoc(v, loc as int, id@) == cache_assoc(v.subrange(0, i as int), loc as int, id@),
            decreases i,
        {
            let ghost w = v.subrange(0, i as int);
            assert(w.drop_last() =~= v.subrange(0, i - 1));
            let s = String::from_str(id);
            let e = &self.string_cache[i - 1];
            if e.locale == loc && e.key == s {
                return Some(e.text.clone());
            }
            i = i - 1;
        }
        None
    }

    /// Keeps `result` as the text of `id` in locale `loc`, replacing the text
    /// kept for them before, if any.
    pub fn cache_string(&mut self, loc: usize, id: &str, result: &str)
        requires
            old(self).wf(),
            loc < old(self).registry().len(),
            old(self).loaded()[loc as int],
            old(self).messages(loc as int).contains_key(id@),
            old(self).messages(loc as int)[id@] == Some(result@),
        ensures
            final(self).wf(),
            final(self).same_settings(*old(self)),
            final(self).loaded() == old(self).loaded(),
            final(self).cached(loc as int, id@) == Some(result@),
            forall|l: int, k: Seq<char>|
                !(l == loc && k == id@) ==> #[trigger] final(self).cached(l, k) == old(self).cached(l, k),
            old(self).cached(loc as int, id@) is None ==> final(self).cache_view() == old(self).cache_view().push(
                (loc as int, id@, result@),
            ),
            old(self).cached(loc as int, id@) is Some ==> final(self).cache_view().len() == old(self).cache_view().len(),
    {
        let ghost v = old(self).cache_view();
        let e = CachedString { locale: loc, key: String::from_str(id), text: String::from_str(result) };
        let key = String::from_str(id);
        let mut found: Option<usize> = None;
        let mut i: usize = 0;
        while i < self.string_cache.len()
            invariant
                0 <= i <= v.len(),
                v == self.cache_view(),
                v.len() == self.string_cache@.len(),
                key@ == id@,
                found matches Some(f) ==> f < v.len() && v[f as int].0 == loc && v[f as int].1 == id@,
                found is None ==> forall|q: int| 0 <= q < i ==> !(#[trigger] v[q].0 == loc && v[q].1 == id@),
            decreases v.len() - i,
        {
            assert(v[i as int] == entry_view(self.string_cache@[i as int]));
            if found.is_none() && self.string_cache[i].locale == loc && self.string_cache[i].key == key {
                found = Some(i);
            }
            i = i + 1;
        }
        proof {
            lemma_assoc_unique(v, loc as int, id@);
        }
        if let Some(j) = found {
            self.string_cache.set(j, e);
            proof {
                let w = self.cache_view();
                assert(w =~= v.update(j as int, (loc as int, id@, result@)));
                assert forall|q: int| 0 <= q < w.len() implies #[trigger] w[q].0 == v[q].0 && w[q].1 == v[q].1
                    && (q != j ==> w[q] == v[q]) by {}
                assert forall|a: int, b: int| 0 <= a < b < w.len() implies !(#[trigger] w[a].0 == #[trigger] w[b].0
                    && w[a].1 == w[b].1) by {
                    assert(w[a].0 == v[a].0 && w[a].1 == v[a].1);
                    assert(w[b].0 == v[b].0 && w[b].1 == v[b].1);
                }
                assert(unique_pairs(w));
                lemma_assoc_unique(w, loc as int, id@);
                assert(w[j as int].0 == loc as int && w[j as int].1 == id@);
                assert forall|l: int, k: Seq<char>|
                    !(l == loc && k == id@) implies #[trigger] self.cached(l, k) == old(self).cached(l, k) by {
                    lemma_assoc_unique(v, l, k);
                    lemma_assoc_unique(w, l, k);
                    if exists|q: int| 0 <= q < v.len() && #[trigger] v[q].0 == l && v[q].1 == k {
                        let q = choose|q: int| 0 <= q < v.len() && #[trigger] v[q].0 == l && v[q].1 == k;
                        assert(w[q] == v[q]);
                    } else {
                        assert forall|q: int| 0 <= q < w.len() implies !(#[trigger] w[q].0 == l && w[q].1 == k) by {
                            assert(w[q].0 == v[q].0 && w[q].1 == v[q].1);
                        }
                    }
                }
            }
        } else {
            self.string_cache.push(e);
            proof {
                let w = self.cache_view();
                assert(w =~= v.push((loc as int, id@, result@)));
                assert(unique_pairs(w));
                assert(w.drop_last() =~= v);
            }
        }
    }

    /// Looks `id` up in the bundle in use, rendering it with `args` where given.
    /// Text rendered without arguments is kept and served from the cache
    /// afterwards; text rendered with arguments is never kept.
    pub fn get_cached_string(&mut self, id: &str, args: Option<&MessageArgs>) -> (r: Result<
        String,
        IntlError,
    >)
        requires
            old(self).wf(),
        ensures
            lookup_post(
                *old(self),
                id@,
                match args {
                    Some(a) => Some(a@),
                    None => None,
                },
                result_view(r),
                *final(self),
            ),
    {
        let served = self.ensure_bundle();
        proof {
            old(self).lemma_wf_bounds();
        }
        if args.is_none() {
            match self.get_cached_string_no_args(served, id) {
                Some(t) => {
                    proof {
                        self.lemma_cached_is_rendered(served as int, id@);
                    }
                    return Ok(t);
                },
                None => {},
            }
        }
        proof {
            assert(self.loaded()[served as int]);
        }
        let rendered = match &self.bundles[served] {
            Some(b) => render_message(b, id, args),
            None => Rendered::Missing,
        };
        match rendered {
            Rendered::Missing => Err(IntlError::NotFound(String::from_str(id))),
            Rendered::NoValue => Err(IntlError::NoValue(String::from_str(id))),
            Rendered::Text(t) => {
                if args.is_none() {
                    self.cache_string(served, id, t.as_str());
                    proof {
                        assert(self.cache_view().drop_last() =~= old(self).cache_view());
                    }
                }
                Ok(t)
            },
        }
    }

    /// A kept text is the rendering of its message in its locale's bundle.
    pub proof fn lemma_cached_is_rendered(&self, loc: int, key: Seq<char>)
        requires
            self.wf(),
        ensures
            self.cached(loc, key) matches Some(t) ==> 0 <= loc < self.registry().len()
                && self.loaded()[loc] && self.messages(loc).contains_key(key)
                && self.messages(loc)[key] == Some(t),
    {
        let v = self.cache_view();
        lemma_assoc_entry(v, loc, key);
        if self.cached(loc, key) is Some {
            let t = self.cached(loc, key)->0;
            let k = choose|k: int| 0 <= k < v.len() && v[k] == (loc, key, t);
            assert(v[k] == entry_view(self.string_cache@[k]));
        }
    }

    /// Gets a localized string by its identifier, without arguments.
    pub fn get_string(&mut self, id: &str) -> (r: Result<String, IntlError>)
        requires
            old(self).wf(),
        ensures
            lookup_post(*old(self), id@, None, result_view(r), *final(self)),
    {
        self.get_cached_string(id, None)
    }

    /// Gets a localized string by its identifier, rendered with `args`.
    pub fn get_string_with_args(&mut self, id: &str, args: &MessageArgs) -> (r: Result<
        String,
        IntlError,
    >)
        requires
            old(self).wf(),
        ensures
            lookup_post(*old(self), id@, Some(args@), result_view(r), *final(self)),
    {
        self.get_cached_string(id, Some(args))
    }
}

proof fn lemma_assoc_entry(v: Seq<(int, Seq<char>, Seq<char>)>, loc: int, key: Seq<char>)
    ensures
        cache_assoc(v, loc, key) matches Some(t) ==> exists|k: int| 0 <= k < v.len() && v[k] == (loc, key, t),
    decreases v.len(),
{
    if v.len() > 0 {
        lemma_assoc_entry(v.drop_last(), loc, key);
        if cache_assoc(v.drop_last(), loc, key) is Some {
            let t = cache_assoc(v.drop_last(), loc, key)->0;
            let k = choose|k: int| 0 <= k < v.drop_last().len() && v.drop_last()[k] == (loc, key, t);
            assert(v[k] == (loc, key, t));
        }
    }
}

/// Number of kept strings of locale `loc`.
pub open spec fn count_for(entries: Seq<(int, Seq<char>, Seq<char>)>, loc: int) -> nat
    decreases entries.len(),
{
    if entries.len() == 0 {
        0
    } else {
        count_for(entries.drop_last(), loc) + if entries.last().0 == loc { 1nat } else { 0nat }
    }
}

proof fn lemma_count_for_bound(entries: Seq<(int, Seq<char>, Seq<char>)>, loc: int)
    ensures
        count_for(entries, loc) <= entries.len(),
    decreases entries.len(),
{
    if entries.len() > 0 {
        lemma_count_for_bound(entries.drop_last(), loc);
    }
}

impl Localization {
    /// Keeps the language and region of a locale string, dropping extensions
    /// (`fr-FR-u-mu-celsius` gives `fr-FR`, `fr-u-mu-celsius` gives `fr`).
    pub fn extract_language_region(locale_str: &str) -> (r: String)
        ensures
            r@ == language_region(locale_str@),
    {
        let n = locale_str.unicode_len();
        let i = find_dash(locale_str, n, 0);
        assert(locale_str@.subrange(0, n as int) =~= locale_str@);
        if i == n {
            return String::from_str(locale_str);
        }
        let e = find_dash(locale_str, n, i + 1);
        proof {
            lemma_utf8_len_two(locale_str@.subrange(i + 1, e as int));
        }
        let wide = if e - (i + 1) >= 2 {
            true
        } else if e - (i + 1) == 1 {
            (locale_str.get_char(i + 1) as u32) >= 0x80
        } else {
            false
        };
        if wide {
            String::from_str(locale_str.substring_char(0, e))
        } else {
            String::from_str(locale_str.substring_char(0, i))
        }
    }

    /// Switches to `locale` and drops every kept string; parsed bundles stay.
    /// Fails, changing nothing, where `locale` is not available.
    pub fn set_locale(&mut self, locale: LangId) -> (r: Result<(), IntlError>)
        requires
            old(self).wf(),
        ensures
            final(self).wf(),
            index_of(tags_of(old(self).registry().locales()), locale@) is None <==> r is Err,
            r matches Err(e) ==> e@ == IntlErrorView::LocaleNotAvailable(locale@) && *final(self)
                == *old(self),
            r is Ok ==> index_of(tags_of(old(self).registry().locales()), locale@) == Some(
                final(self).current(),
            ),
            r is Ok ==> final(self).cache_view().len() == 0,
            r is Ok ==> final(self).loaded() == old(self).loaded(),
            r is Ok ==> final(self).fallback() == old(self).fallback() && final(self).registry()
                == old(self).registry() && final(self).isolating() == old(self).isolating()
                && final(self).keys() == old(self).keys(),
    {
        match position_of_tag(self.registry.locales.as_slice(), locale.tag()) {
            None => Err(IntlError::LocaleNotAvailable(String::from_str(locale.tag()))),
            Some(i) => {
                proof {
                    crate::negotiate::lemma_index_of_bounds(tags_of(self.registry.locales()), locale@);
                }
                self.current_locale = i;
                self.string_cache.clear();
                proof {
                    assert(self.loaded() =~= old(self).loaded());
                }
                Ok(())
            },
        }
    }

    /// Drops every parsed bundle and every kept string.
    pub fn clear_cache(&mut self)
        requires
            old(self).wf(),
        ensures
            final(self).wf(),
            final(self).same_settings(*old(self)),
            final(self).loaded() == Seq::new(old(self).registry().len(), |i: int| false),
            final(self).cache_view().len() == 0,
    {
        let n = self.bundles.len();
        let mut bundles: Vec<Option<MessageBundle>> = Vec::new();
        let mut i: usize = 0;
        while i < n
            invariant
                0 <= i <= n,
                bundles@.len() == i,
                forall|j: int| 0 <= j < i ==> #[trigger] bundles@[j] is None,
            decreases n - i,
        {
            bundles.push(None);
            i = i + 1;
        }
        self.bundles = bundles;
        self.string_cache.clear();
        proof {
            assert(self.loaded() =~= Seq::new(old(self).registry().len(), |i: int| false));
        }
    }

    /// Gets the current locale.
    pub fn get_current_locale(&self) -> (r: &LangId)
        requires
            self.wf(),
        ensures
            *r == self.registry().locales()[self.current()],
    {
        &self.registry.locales[self.current_locale]
    }

    /// Gets all available locales, in registry order.
    pub fn get_available_locales(&self) -> (r: &[LangId])
        ensures
            r@ == self.registry().locales(),
    {
        self.registry.locales.as_slice()
    }

    /// Gets the fallback locale.
    pub fn get_fallback_locale(&self) -> (r: &LangId)
        requires
            self.wf(),
        ensures
            *r == self.registry().locales()[self.fallback()],
    {
        &self.registry.locales[self.fallback_locale]
    }

    /// The native display name of `locale`, if it is available.
    pub fn get_locale_native_name(&self, locale: &LangId) -> (r: Option<&str>)
        requires
            self.wf(),
        ensures
            index_of(tags_of(self.registry().locales()), locale@) matches Some(i) ==> (r matches Some(
                n,
            ) && n@ == self.registry().native_name(i)),
            index_of(tags_of(self.registry().locales()), locale@) is None ==> r is None,
    {
        match position_of_tag(self.registry.locales.as_slice(), locale.tag()) {
            Some(i) => {
                proof {
                    crate::negotiate::lemma_index_of_bounds(tags_of(self.registry.locales()), locale@);
                }
                Some(self.registry.native_names[i].as_str())
            },
            None => None,
        }
    }

    /// The canonical identifier of `key`, computed with `comment` the first
    /// time `key` is seen and recalled afterwards.
    pub fn normalized_ftl_key(&mut self, key: &str, comment: &str) -> (r: String)
        requires
            old(self).wf(),
        ensures
            final(self).wf(),
            normalize_post(old(self).keys(), key@, comment@, r@, final(self).keys()),
            final(self).current() == old(self).current(),
            final(self).fallback() == old(self).fallback(),
            final(self).registry() == old(self).registry(),
            final(self).isolating() == old(self).isolating(),
            final(self).loaded() == old(self).loaded(),
            final(self).cache_view() == old(self).cache_view(),
    {
        self.normalized_key_cache.normalize(key, comment)
    }

    /// Gets cache statistics for monitoring.
    pub fn get_cache_stats(&self) -> (r: CacheStats)
        requires
            self.wf(),
        ensures
            r.resource_cache_size == count_true(self.loaded()),
            r.string_cache_size == self.cache_view().len(),
            tags_of(r.cached_locales@) == flagged_tags(self.registry().locales(), self.loaded()),
    {
        let ghost flags = self.loaded();
        let ghost locales = self.registry().locales();
        let n = self.bundles.len();
        let mut count: usize = 0;
        let mut cached_locales: Vec<LangId> = Vec::new();
        let mut i: usize = 0;
        while i < n
            invariant
                0 <= i <= n,
                n == flags.len(),
                flags == self.loaded(),
                locales == self.registry().locales(),
                locales.len() == n,
                self.wf(),
                count == count_true(flags.subrange(0, i as int)),
                count <= i,
                tags_of(cached_locales@) == flagged_tags(locales, flags.subrange(0, i as int)),
            decreases n - i,
        {
            assert(flags.subrange(0, i + 1).drop_last() =~= flags.subrange(0, i as int));
            if self.bundles[i].is_some() {
                count = count + 1;
                let l = self.registry.locales[i].clone();
                let ghost before = cached_locales@;
                cached_locales.push(l);
                assert(tags_of(cached_locales@) =~= tags_of(before).push(locales[i as int]@));
            }
            i = i + 1;
        }
        assert(flags.subrange(0, n as int) =~= flags);
        CacheStats {
            resource_cache_size: count,
            string_cache_size: self.string_cache.len(),
            cached_locales,
        }
    }

    /// Drops every kept string of each locale that holds more than
    /// `max_strings_per_locale` of them.
    pub fn limit_string_cache_size(&mut self, max_strings_per_locale: usize)
        requires
            old(self).wf(),
        ensures
            final(self).wf(),
            final(self).same_settings(*old(self)),
            final(self).loaded() == old(self).loaded(),
            forall|loc: int, key: Seq<char>| #[trigger] final(self).cached(loc, key) == if count_for(
                old(self).cache_view(),
                loc,
            ) > max_strings_per_locale {
                None
            } else {
                old(self).cached(loc, key)
            },
    {
        let ghost v = self.cache_view();
        let n = self.bundles.len();
        let mut counts: Vec<usize> = Vec::new();
        let mut i: usize = 0;
        while i < n
            invariant
                0 <= i <= n,
                counts@.len() == i,
                forall|j: int| 0 <= j < i ==> #[trigger] counts@[j] == 0,
            decreases n - i,
        {
            counts.push(0);
            i = i + 1;
        }
        let m = self.string_cache.len();
        let mut k: usize = 0;
        while k < m
            invariant
                0 <= k <= m,
                m == v.len(),
                v == self.cache_view(),
                self.wf(),
                n == self.registry().len(),
                counts@.len() == n,
                forall|j: int| 0 <= j < n ==> #[trigger] counts@[j] == count_for(v.subrange(0, k as int), j),
            decreases m - k,
        {
            assert(v.subrange(0, k + 1).drop_last() =~= v.subrange(0, k as int));
            let loc = self.string_cache[k].locale;
            assert(v[k as int] == entry_view(self.string_cache@[k as int]));
            proof {
                lemma_count_for_bound(v.subrange(0, k as int), loc as int);
            }
            let c = counts[loc];
            counts.set(loc, c + 1);
            k = k + 1;
        }
        assert(v.subrange(0, m as int) =~= v);
        let mut kept: Vec<CachedString> = Vec::new();
        let mut p: usize = 0;
        while p < m
            invariant
                0 <= p <= m,
                m == v.len(),
                v == self.cache_view(),
                self.wf(),
                counts@.len() == n,
                n == self.registry().len(),
                forall|j: int| 0 <= j < n ==> #[trigger] counts@[j] == count_for(v, j),
                forall|q: int|
                    0 <= q < kept@.len() ==> exists|r: int|
                        0 <= r < p && #[trigger] kept@[q] == self.string_cache@[r],
                unique_pairs(entries_view(kept@)),
                forall|loc: int, key: Seq<char>| #[trigger] cache_assoc(
                    entries_view(kept@),
                    loc,
                    key,
                ) == if count_for(v, loc) > max_strings_per_locale {
                    None
                } else {
                    cache_assoc(v.subrange(0, p as int), loc, key)
                },
            decreases m - p,
        {
            let e = &self.string_cache[p];
            assert(v.subrange(0, p + 1).drop_last() =~= v.subrange(0, p as int));
            assert(v[p as int] == entry_view(*e));
            assert(e.locale < n);
            let ghost before = kept@;
            let keep = counts[e.locale] <= max_strings_per_locale;
            if keep {
                let copy = CachedString { locale: e.locale, key: e.key.clone(), text: e.text.clone() };
                assert(copy == *e);
                kept.push(copy);
                proof {
                    let kv = entries_view(kept@);
                    assert forall|a: int, b: int| 0 <= a < b < kv.len() implies !(#[trigger] kv[a].0 == #[trigger] kv[b].0
                        && kv[a].1 == kv[b].1) by {
                        assert(kv[a] == entry_view(kept@[a]));
                        assert(kv[b] == entry_view(kept@[b]));
                        if b == kv.len() - 1 {
                            let r = choose|r: int| 0 <= r < p && #[trigger] before[a] == self.string_cache@[r];
                            assert(kept@[a] == before[a]);
                            assert(v[r] == entry_view(self.string_cache@[r]));
                        } else {
                            assert(kept@[a] == before[a] && kept@[b] == before[b]);
                            assert(entries_view(before)[a] == kv[a] && entries_view(before)[b] == kv[b]);
                        }
                    }
                }
                assert(entries_view(kept@).drop_last() =~= entries_view(before));
                assert(kept@[kept@.len() - 1] == self.string_cache@[p as int]);
            }
            proof {
                let vp = v.subrange(0, p + 1);
                assert(vp.last() == v[p as int]);
                assert forall|loc: int, key: Seq<char>| #[trigger] cache_assoc(
                    entries_view(kept@),
                    loc,
                    key,
                ) == if count_for(v, loc) > max_strings_per_locale {
                    None
                } else {
                    cache_assoc(vp, loc, key)
                } by {
                    assert(cache_assoc(entries_view(before), loc, key) == if count_for(v, loc)
                        > max_strings_per_locale {
                        None
                    } else {
                        cache_assoc(v.subrange(0, p as int), loc, key)
                    });
                    if keep {
                        assert(entries_view(kept@).last() == v[p as int]);
                    } else {
                        assert(kept@ == before);
                    }
                }
            }
            p = p + 1;
        }
        self.string_cache = kept;
        assert(v.subrange(0, m as int) =~= v);
    }
}

/// Looking the same identifier up twice without arguments gives the same
/// result, and the second lookup parses nothing and keeps nothing new.
pub proof fn law_repeated_lookup_stable(
    e0: Localization,
    e1: Localization,
    e2: Localization,
    id: Seq<char>,
    r1: Result<Seq<char>, IntlErrorView>,
    r2: Result<Seq<char>, IntlErrorView>,
)
    requires
        e0.wf(),
        lookup_post(e0, id, None, r1, e1),
        lookup_post(e1, id, None, r2, e2),
    ensures
        r2 == r1,
        e2.loaded() == e1.loaded(),
        e2.cache_view() == e1.cache_view(),
{
    e0.lemma_wf_bounds();
    assert(e1.loaded().update(e1.served(), true) =~= e1.loaded());
}

/// Caches are invisible to lookups: two engines with the same settings give
/// the same result for the same identifier without arguments, whatever bundles
/// and strings each holds.
pub proof fn law_lookup_independent_of_caches(
    a0: Localization,
    a1: Localization,
    b0: Localization,
    b1: Localization,
    id: Seq<char>,
    ra: Result<Seq<char>, IntlErrorView>,
    rb: Result<Seq<char>, IntlErrorView>,
)
    requires
        a0.same_settings(b0),
        lookup_post(a0, id, None, ra, a1),
        lookup_post(b0, id, None, rb, b1),
    ensures
        ra == rb,
{
}

} // verus!
