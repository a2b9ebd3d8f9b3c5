use vstd::prelude::*;
use crate::locale::{filter_matches, filtering_matches, parsed_tag, tags_of, LangId};

verus! {

/// The fallback chain listed for a primary language: the first entry for it,
/// else none.
pub open spec fn chain_for(chains: Seq<(Seq<char>, Seq<Seq<char>>)>, lang: Seq<char>) -> Seq<
    Seq<char>,
>
    decreases chains.len(),
{
    if chains.len() == 0 {
        seq![]
    } else if chains[0].0 == lang {
        chains[0].1
    } else {
        chain_for(chains.drop_first(), lang)
    }
}

/// Candidates appended after a lone preference: the chain listed for its
/// primary language, then the default locale.
pub open spec fn fallback_chain(
    first: Seq<char>,
    default_tag: Seq<char>,
    chains: Seq<(Seq<char>, Seq<Seq<char>>)>,
) -> Seq<Seq<char>> {
    match parsed_tag(first) {
        Some(p) => chain_for(chains, p.1).push(default_tag),
        None => seq![default_tag],
    }
}

/// The preference list after the single-preference heuristic.
pub open spec fn candidates(
    prefs: Seq<Seq<char>>,
    default_tag: Seq<char>,
    chains: Seq<(Seq<char>, Seq<Seq<char>>)>,
) -> Seq<Seq<char>> {
    if prefs.len() == 1 {
        prefs + fallback_chain(prefs[0], default_tag, chains)
    } else {
        prefs
    }
}

/// Per-language fallback chains for the single-preference heuristic: which
/// locales a host that reports only one language is taken to accept too,
/// before the default.
pub struct FallbackChains {
    entries: Vec<(String, Vec<String>)>,
}

impl View for FallbackChains {
    type V = Seq<(Seq<char>, Seq<Seq<char>>)>;

    closed spec fn view(&self) -> Seq<(Seq<char>, Seq<Seq<char>>)> {
        self.entries@.map_values(|e: (String, Vec<String>)| (e.0@, strs_view(e.1@)))
    }
}

impl FallbackChains {
    /// No chains: every language falls back to the default alone.
    pub fn new() -> (r: FallbackChains)
        ensures
            r@ == Seq::<(Seq<char>, Seq<Seq<char>>)>::empty(),
    {
        let r = FallbackChains { entries: Vec::new() };
        assert(r@ =~= Seq::<(Seq<char>, Seq<Seq<char>>)>::empty());
        r
    }

    /// Lists `chain` for primary language `lang` (an earlier entry for the
    /// same language takes precedence).
    pub fn add(&mut self, lang: &str, chain: Vec<String>)
        ensures
            final(self)@ == old(self)@.push((lang@, strs_view(chain@))),
    {
        self.entries.push((String::from_str(lang), chain));
        assert(final(self)@ =~= old(self)@.push((lang@, strs_view(chain@))));
    }

    /// Appends the chain listed for `lang` to `out`.
    fn append_chain(&self, lang: &str, out: &mut Vec<String>)
        ensures
            strs_view(final(out)@) == strs_view(old(out)@) + chain_for(self@, lang@),
    {
        let ghost v = self@;
        let mut i: usize = 0;
        assert(v.subrange(0, v.len() as int) =~= v);
        while i < self.entries.len()
            invariant
                0 <= i <= v.len(),
                v == self@,
                v.len() == self.entries@.len(),
                chain_for(v, lang@) == chain_for(v.subrange(i as int, v.len() as int), lang@),
                *out == *old(out),
            decreases v.len() - i,
        {
            let ghost rest = v.subrange(i as int, v.len() as int);
            assert(rest.drop_first() =~= v.subrange(i + 1, v.len() as int));
            assert(rest[0] == v[i as int]);
            let l = String::from_str(lang);
            if self.entries[i].0 == l {
                push_all(out, &self.entries[i].1);
                return;
            }
            i = i + 1;
        }
        assert(strs_view(out@) =~= strs_view(old(out)@) + Seq::<Seq<char>>::empty());
    }
}

/// Appends copies of `items` to `out`.
fn push_all(out: &mut Vec<String>, items: &Vec<String>)
    ensures
        strs_view(final(out)@) == strs_view(old(out)@) + strs_view(items@),
{
    let ghost start = strs_view(out@);
    let mut i: usize = 0;
    while i < items.len()
        invariant
            0 <= i <= items@.len(),
            strs_view(out@) =~= start + strs_view(items@).subrange(0, i as int),
            start == strs_view(old(out)@),
        decreases items@.len() - i,
    {
        let ghost prev = out@;
        assert(strs_view(prev).len() == start.len() + i);
        let c = items[i].clone();
        assert(c@ == items@[i as int]@);
        out.push(c);
        assert(out@ == prev.push(c));
        assert forall|k: int| 0 <= k < start.len() + i + 1 implies #[trigger] strs_view(out@)[k] == (start
            + strs_view(items@).subrange(0, i + 1))[k] by {
            if k < start.len() + i {
                assert(strs_view(prev)[k] == (start + strs_view(items@).subrange(0, i as int))[k]);
            }
        }
        assert(strs_view(out@) =~= start + strs_view(items@).subrange(0, i + 1));
        i = i + 1;
    }
    assert(strs_view(items@).subrange(0, i as int) =~= strs_view(items@));
}

/// The (tag, language) pairs of the candidates that parse, in order.
pub open spec fn parse_all(cands: Seq<Seq<char>>) -> Seq<(Seq<char>, Seq<char>)>
    decreases cands.len(),
{
    if cands.len() == 0 {
        seq![]
    } else {
        let rest = parse_all(cands.drop_last());
        match parsed_tag(cands.last()) {
            Some(p) => rest.push(p),
            None => rest,
        }
    }
}

/// The first position of `x` in `s`.
pub open spec fn index_of(s: Seq<Seq<char>>, x: Seq<char>) -> Option<int>
    decreases s.len(),
{
    if s.len() == 0 {
        None
    } else {
        match index_of(s.drop_last(), x) {
            Some(i) => Some(i),
            None => if s.last() == x {
                Some(s.len() - 1)
            } else {
                None
            },
        }
    }
}

/// Primary-language matching: for the first preference (in order) whose
/// language some available locale shares, the first such locale.
pub open spec fn language_match(prefs: Seq<Seq<char>>, avail: Seq<Seq<char>>) -> Option<int>
    decreases prefs.len(),
{
    if prefs.len() == 0 {
        None
    } else {
        match index_of(avail, prefs[0]) {
            Some(j) => Some(j),
            None => language_match(prefs.drop_first(), avail),
        }
    }
}

pub open spec fn languages_of(ls: Seq<LangId>) -> Seq<Seq<char>> {
    ls.map_values(|l: LangId| l.primary())
}

/// The position in `available` of the locale that negotiation chooses for the
/// host preferences `prefs`, `default` being the position of the default locale.
pub open spec fn negotiated(
    prefs: Seq<Seq<char>>,
    available: Seq<LangId>,
    default: int,
    chains: Seq<(Seq<char>, Seq<Seq<char>>)>,
) -> int {
    if prefs.len() == 0 {
        default
    } else {
        let parsed = parse_all(candidates(prefs, available[default]@, chains));
        if parsed.len() == 0 {
            default
        } else {
            let exact = filtering_matches(
                parsed.map_values(|p: (Seq<char>, Seq<char>)| p.0),
                tags_of(available),
            );
            chosen(parsed.map_values(|p: (Seq<char>, Seq<char>)| p.1), exact, available, default)
        }
    }
}

/// The choice once the filtering matches `exact` are known: the first of
/// them, else the primary-language match of the preferences' languages
/// `pref_langs`, else the default.
pub open spec fn chosen(
    pref_langs: Seq<Seq<char>>,
    exact: Seq<Seq<char>>,
    available: Seq<LangId>,
    default: int,
) -> int {
    if exact.len() > 0 && index_of(tags_of(available), exact[0]) is Some {
        index_of(tags_of(available), exact[0])->0
    } else {
        match language_match(pref_langs, languages_of(available)) {
            Some(j) => j,
            None => default,
        }
    }
}

pub proof fn lemma_index_of_bounds(s: Seq<Seq<char>>, x: Seq<char>)
    ensures
        index_of(s, x) matches Some(i) ==> 0 <= i < s.len() && s[i] == x,
    decreases s.len(),
{
    if s.len() > 0 {
        lemma_index_of_bounds(s.drop_last(), x);
    }
}

proof fn lemma_language_match_bounds(prefs: Seq<Seq<char>>, avail: Seq<Seq<char>>)
    ensures
        language_match(prefs, avail) matches Some(j) ==> 0 <= j < avail.len(),
    decreases prefs.len(),
{
    if prefs.len() > 0 {
        lemma_index_of_bounds(avail, prefs[0]);
        lemma_language_match_bounds(prefs.drop_first(), avail);
    }
}

/// The chosen position always names an available locale.
pub proof fn lemma_negotiated_in_range(
    prefs: Seq<Seq<char>>,
    available: Seq<LangId>,
    default: int,
    chains: Seq<(Seq<char>, Seq<Seq<char>>)>,
)
    requires
        0 <= default < available.len(),
    ensures
        0 <= negotiated(prefs, available, default, chains) < available.len(),
{
    if prefs.len() > 0 {
        let parsed = parse_all(candidates(prefs, available[default]@, chains));
        let exact = filtering_matches(
            parsed.map_values(|p: (Seq<char>, Seq<char>)| p.0),
            tags_of(available),
        );
        if exact.len() > 0 {
            lemma_index_of_bounds(tags_of(available), exact[0]);
        }
        lemma_language_match_bounds(
            parsed.map_values(|p: (Seq<char>, Seq<char>)| p.1),
            languages_of(available),
        );
    }
}

proof fn lemma_chosen_in_range(
    pref_langs: Seq<Seq<char>>,
    exact: Seq<Seq<char>>,
    available: Seq<LangId>,
    default: int,
)
    requires
        0 <= default < available.len(),
    ensures
        0 <= chosen(pref_langs, exact, available, default) < available.len(),
{
    if exact.len() > 0 {
        lemma_index_of_bounds(tags_of(available), exact[0]);
    }
    lemma_language_match_bounds(pref_langs, languages_of(available));
}

/// Negotiation is a function of its inputs: the same preferences against the
/// same available locales and default always choose the same locale.
pub proof fn law_negotiation_deterministic(
    prefs: Seq<Seq<char>>,
    available: Seq<LangId>,
    default: int,
    chains: Seq<(Seq<char>, Seq<Seq<char>>)>,
    first: int,
    second: int,
)
    requires
        first == negotiated(prefs, available, default, chains),
        second == negotiated(prefs, available, default, chains),
    ensures
        first == second,
{
}

pub open spec fn strs_view(v: Seq<String>) -> Seq<Seq<char>> {
    v.map_values(|s: String| s@)
}

pub open spec fn pairs_of(ls: Seq<LangId>) -> Seq<(Seq<char>, Seq<char>)> {
    ls.map_values(|l: LangId| (l@, l.primary()))
}

/// The first available locale whose canonical tag is `tag`.
pub fn position_of_tag(available: &[LangId], tag: &str) -> (r: Option<usize>)
    ensures
        r matches Some(i) ==> index_of(tags_of(available@), tag@) == Some(i as int),
        r is None ==> index_of(tags_of(available@), tag@) is None,
{
    let ghost s = tags_of(available@);
    let mut found: Option<usize> = None;
    let mut j: usize = 0;
    while j < available.len()
        invariant
            0 <= j <= available@.len(),
            s == tags_of(available@),
            found matches Some(i) ==> index_of(s.subrange(0, j as int), tag@) == Some(i as int),
            found is None ==> index_of(s.subrange(0, j as int), tag@) is None,
        decreases available@.len() - j,
    {
        assert(s.subrange(0, j + 1).drop_last() =~= s.subrange(0, j as int));
        if found.is_none() && available[j].has_tag(tag) {
            found = Some(j);
        }
        j = j + 1;
    }
    assert(s.subrange(0, j as int) =~= s);
    found
}

/// The first available locale whose primary language subtag is `lang`.
pub fn position_of_language(available: &[LangId], lang: &str) -> (r: Option<usize>)
    ensures
        r matches Some(i) ==> index_of(languages_of(available@), lang@) == Some(i as int),
        r is None ==> index_of(languages_of(available@), lang@) is None,
{
    let ghost s = languages_of(available@);
    let mut found: Option<usize> = None;
    let mut j: usize = 0;
    while j < available.len()
        invariant
            0 <= j <= available@.len(),
            s == languages_of(available@),
            found matches Some(i) ==> index_of(s.subrange(0, j as int), lang@) == Some(i as int),
            found is None ==> index_of(s.subrange(0, j as int), lang@) is None,
        decreases available@.len() - j,
    {
        assert(s.subrange(0, j + 1).drop_last() =~= s.subrange(0, j as int));
        if found.is_none() && available[j].has_language(lang) {
            found = Some(j);
        }
        j = j + 1;
    }
    assert(s.subrange(0, j as int) =~= s);
    found
}

/// The preferences with the candidates that the single-preference heuristic
/// appends.
fn with_fallbacks(prefs: &Vec<String>, default_tag: &str, chains: &FallbackChains) -> (r: Vec<
    String,
>)
    ensures
        strs_view(r@) == candidates(strs_view(prefs@), default_tag@, chains@),
{
    let mut out: Vec<String> = Vec::new();
    push_all(&mut out, prefs);
    assert(strs_view(out@) =~= strs_view(prefs@));
    if prefs.len() == 1 {
        let ghost before = strs_view(out@);
        match LangId::parse(prefs[0].as_str()) {
            Some(l) => {
                chains.append_chain(l.language(), &mut out);
                assert(strs_view(out@) == before + chain_for(chains@, l.primary()));
            },
            None => {},
        }
        let ghost mid = out@;
        let d = String::from_str(default_tag);
        out.push(d);
        assert(out@ == mid.push(d));
        assert(strs_view(out@) =~= strs_view(mid).push(default_tag@));
        assert(strs_view(out@) =~= before + fallback_chain(prefs@[0]@, default_tag@, chains@));
    }
    out
}

/// Parses every candidate, skipping those that are not valid tags.
fn parse_candidates(cands: &Vec<String>) -> (r: Vec<LangId>)
    ensures
        pairs_of(r@) == parse_all(strs_view(cands@)),
{
    let ghost s = strs_view(cands@);
    let mut out: Vec<LangId> = Vec::new();
    let mut i: usize = 0;
    while i < cands.len()
        invariant
            0 <= i <= cands@.len(),
            s == strs_view(cands@),
            pairs_of(out@) =~= parse_all(s.subrange(0, i as int)),
        decreases cands@.len() - i,
    {
        assert(s.subrange(0, i + 1).drop_last() =~= s.subrange(0, i as int));
        match LangId::parse(cands[i].as_str()) {
            Some(l) => {
                out.push(l);
                assert(pairs_of(out@) =~= parse_all(s.subrange(0, i as int)).push((l@, l.primary())));
            },
            None => {},
        }
        i = i + 1;
    }
    assert(s.subrange(0, i as int) =~= s);
    out
}

/// Primary-language matching over the parsed preferences, in order.
fn match_language(parsed: &Vec<LangId>, available: &[LangId]) -> (r: Option<usize>)
    ensures
        r matches Some(j) ==> language_match(languages_of(parsed@), languages_of(available@))
            == Some(j as int),
        r is None ==> language_match(languages_of(parsed@), languages_of(available@)) is None,
{
    let ghost p = languages_of(parsed@);
    let ghost a = languages_of(available@);
    let mut i: usize = 0;
    assert(p.subrange(0, p.len() as int) =~= p);
    while i < parsed.len()
        invariant
            0 <= i <= parsed@.len(),
            p == languages_of(parsed@),
            a == languages_of(available@),
            language_match(p, a) == language_match(p.subrange(i as int, p.len() as int), a),
        decreases parsed@.len() - i,
    {
        let ghost rest = p.subrange(i as int, p.len() as int);
        assert(rest.drop_first() =~= p.subrange(i + 1, p.len() as int));
        assert(rest[0] == parsed@[i as int].primary());
        match position_of_language(available, parsed[i].language()) {
            Some(j) => {
                return Some(j);
            },
            None => {},
        }
        i = i + 1;
    }
    None
}

/// Chooses the locale for the host's ordered language preferences (most
/// preferred first) among `available`; `default` is the position of the
/// default locale.  Returns the position of the chosen locale.
pub fn negotiate_system_locale_with_preferences(
    preferences: &Vec<String>,
    available: &[LangId],
    default: usize,
    chains: &FallbackChains,
) -> (r: usize)
    requires
        default < available@.len(),
    ensures
        r as int == negotiated(strs_view(preferences@), available@, default as int, chains@),
        r < available@.len(),
        preferences@.len() > 0 && parsed_tag(preferences@[0]@) is Some && (exists|j: int|
            0 <= j < available@.len() && #[trigger] available@[j]@ == (parsed_tag(preferences@[0]@)->0).0)
            ==> available@[r as int]@ == (parsed_tag(preferences@[0]@)->0).0,
{
    proof {
        lemma_negotiated_in_range(strs_view(preferences@), available@, default as int, chains@);
    }
    if preferences.len() == 0 {
        return default;
    }
    let cands = with_fallbacks(preferences, available[default].tag(), chains);
    let parsed = parse_candidates(&cands);
    proof {
        let c = candidates(strs_view(preferences@), available@[default as int]@, chains@);
        if parsed_tag(preferences@[0]@) is Some {
            assert(c[0] == preferences@[0]@);
            lemma_parse_all_first(c);
        }
    }
    if parsed.len() == 0 {
        return default;
    }
    let ghost pv = parse_all(candidates(strs_view(preferences@), available@[default as int]@, chains@));
    assert(pv.map_values(|p: (Seq<char>, Seq<char>)| p.0) =~= tags_of(parsed@));
    assert(pv.map_values(|p: (Seq<char>, Seq<char>)| p.1) =~= languages_of(parsed@));
    proof {
        let c = candidates(strs_view(preferences@), available@[default as int]@, chains@);
        if parsed_tag(preferences@[0]@) is Some {
            assert(c[0] == preferences@[0]@);
            lemma_parse_all_first(c);
            assert(tags_of(parsed@)[0] == pv[0].0);
        }
    }
    let exact = filter_matches(parsed.as_slice(), available);
    proof {
        assert(strs_view(exact@) == filtering_matches(tags_of(parsed@), tags_of(available@)));
        if parsed@.len() > 0 && exists|j: int|
            0 <= j < available@.len() && #[trigger] available@[j]@ == parsed@[0]@ {
            let j = choose|j: int| 0 <= j < available@.len() && #[trigger] available@[j]@ == parsed@[0]@;
            assert(tags_of(available@)[j] == parsed@[0]@);
            lemma_index_of_found(tags_of(available@), parsed@[0]@, j);
            lemma_index_of_bounds(tags_of(available@), parsed@[0]@);
        }
    }
    choose_locale(&parsed, &exact, available, default)
}

/// Chooses among `available` once the filtering matches `exact` of the parsed
/// preferences `parsed` are known: the first match, else the first available
/// locale sharing a preference's primary language (preferences in order),
/// else `default`.
pub fn choose_locale(parsed: &Vec<LangId>, exact: &Vec<String>, available: &[LangId], default: usize) -> (r:
    usize)
    requires
        default < available@.len(),
    ensures
        r as int == chosen(languages_of(parsed@), strs_view(exact@), available@, default as int),
        r < available@.len(),
{
    proof {
        lemma_chosen_in_range(languages_of(parsed@), strs_view(exact@), available@, default as int);
    }
    if exact.len() > 0 {
        assert(strs_view(exact@)[0] == exact@[0]@);
        match position_of_tag(available, exact[0].as_str()) {
            Some(j) => {
                return j;
            },
            None => {},
        }
    }
    match match_language(parsed, available) {
        Some(j) => j,
        None => default,
    }
}

proof fn lemma_parse_all_first(c: Seq<Seq<char>>)
    requires
        c.len() > 0,
        parsed_tag(c[0]) is Some,
    ensures
        parse_all(c).len() > 0,
        parse_all(c)[0] == parsed_tag(c[0])->0,
    decreases c.len(),
{
    if c.len() > 1 {
        lemma_parse_all_first(c.drop_last());
        assert(c.drop_last()[0] == c[0]);
        let rest = parse_all(c.drop_last());
        assert(rest.len() > 0);
        match parsed_tag(c.last()) {
            Some(p) => assert(rest.push(p)[0] == rest[0]),
            None => {},
        }
    } else {
        assert(c.drop_last().len() == 0);
        assert(parse_all(c.drop_last()) =~= Seq::<(Seq<char>, Seq<char>)>::empty());
        assert(c.last() == c[0]);
    }
}

pub proof fn lemma_index_of_found(s: Seq<Seq<char>>, x: Seq<char>, j: int)
    requires
        0 <= j < s.len(),
        s[j] == x,
    ensures
        index_of(s, x) is Some,
    decreases s.len(),
{
    if j < s.len() - 1 {
        lemma_index_of_found(s.drop_last(), x, j);
    }
}

} // verus!
