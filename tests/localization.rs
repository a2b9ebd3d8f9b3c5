use notedeck_i18n::{
    choose_locale, fixup_key, negotiate_system_locale_with_preferences, simple_hash, FallbackChains,
    IntlError, KeyCache, LangId, LocaleRegistry, Localization, MessageArgs,
};

const EN_US_FTL: &str = "greeting = Hello\nfarewell = Goodbye\nwelcome = Welcome, { $name }!\nonly-attrs =\n    .title = Title\n";
const FR_FTL: &str = "greeting = Bonjour\nfarewell = Au revoir\nwelcome = Bienvenue, { $name } !\n";
const EN_XA_FTL: &str = "greeting = Ĥéļļö\n";

fn lang(tag: &str) -> LangId {
    LangId::parse(tag).unwrap()
}

fn tags(list: &[&str]) -> Vec<LangId> {
    list.iter().map(|t| lang(t)).collect()
}

fn prefs(list: &[&str]) -> Vec<String> {
    list.iter().map(|s| s.to_string()).collect()
}

fn registry() -> LocaleRegistry {
    let mut r = LocaleRegistry::new();
    assert!(r.add(lang("en-US"), "English (US)".to_string(), Some(EN_US_FTL.to_string())));
    assert!(r.add(lang("en-XA"), "Éñglísh (Pséúdólóçàlé)".to_string(), Some(EN_XA_FTL.to_string())));
    assert!(r.add(lang("fr"), "Français".to_string(), Some(FR_FTL.to_string())));
    assert!(r.add(lang("th"), "ภาษาไทย".to_string(), None));
    r
}

fn standard_chains() -> FallbackChains {
    let mut c = FallbackChains::new();
    c.add("uk", vec!["es-ES".to_string()]);
    c
}

fn engine(preferences: &[&str]) -> Localization {
    Localization::no_bidi(registry(), &lang("en-US"), &prefs(preferences)).unwrap()
}

#[test]
fn test_extract_language_region() {
    let unicode_locale = "fr-FR-u-mu-celsius";
    let extracted = Localization::extract_language_region(unicode_locale);
    assert_eq!(extracted, "fr-FR");

    let transformed_locale = "en-US-t-0-abc123";
    let extracted = Localization::extract_language_region(transformed_locale);
    assert_eq!(extracted, "en-US");

    let private_locale = "de-DE-x-phonebk";
    let extracted = Localization::extract_language_region(private_locale);
    assert_eq!(extracted, "de-DE");

    let simple_locale = "en-US";
    let extracted = Localization::extract_language_region(simple_locale);
    assert_eq!(extracted, "en-US");

    let lang_only = "en";
    let extracted = Localization::extract_language_region(lang_only);
    assert_eq!(extracted, "en");

    let lang_with_extensions = "fr-u-mu-celsius";
    let extracted = Localization::extract_language_region(lang_with_extensions);
    assert_eq!(extracted, "fr");

    let lang_with_t_ext = "en-t-0-abc123";
    let extracted = Localization::extract_language_region(lang_with_t_ext);
    assert_eq!(extracted, "en");

    let lang_with_x_ext = "de-x-phonebk";
    let extracted = Localization::extract_language_region(lang_with_x_ext);
    assert_eq!(extracted, "de");

    let numeric_region = "es-419-u-mu-celsius";
    let extracted = Localization::extract_language_region(numeric_region);
    assert_eq!(extracted, "es-419");

    let three_letter_region = "en-USA-t-0-abc123";
    let extracted = Localization::extract_language_region(three_letter_region);
    assert_eq!(extracted, "en-USA");

    let two_letter_region = "fr-FR-u-mu-celsius";
    let extracted = Localization::extract_language_region(two_letter_region);
    assert_eq!(extracted, "fr-FR");

    let complex_locale = "zh-CN-u-ca-chinese-x-private";
    let extracted = Localization::extract_language_region(complex_locale);
    assert_eq!(extracted, "zh-CN");

    let test_cases = ["fr-FR", "en-US", "de-DE", "en", "zh-CN"];
    for extracted in test_cases {
        if LangId::parse(extracted).is_none() {
            panic!("Should parse locale after extraction");
        }
    }
}

#[test]
fn parse_gives_canonical_tag_and_language() {
    let l = lang("en-us");
    assert_eq!(l.tag(), "en-US");
    assert_eq!(l.language(), "en");
    assert!(LangId::parse("not a tag!").is_none());
}

#[test]
fn negotiation_prefers_exact_match_in_preference_order() {
    let available = tags(&["en-US", "fr"]);
    let chosen = negotiate_system_locale_with_preferences(&prefs(&["fr", "en-US"]), &available, 0, &standard_chains());
    assert_eq!(available[chosen].tag(), "fr");
}

#[test]
fn negotiation_unknown_single_preference_gives_default() {
    let available = tags(&["en-US", "fr"]);
    let chosen = negotiate_system_locale_with_preferences(&prefs(&["xx-YY"]), &available, 0, &standard_chains());
    assert_eq!(available[chosen].tag(), "en-US");
    let chosen = negotiate_system_locale_with_preferences(&prefs(&["!!"]), &available, 0, &standard_chains());
    assert_eq!(chosen, 0);
}

#[test]
fn negotiation_falls_back_on_primary_language() {
    let available = tags(&["en-US", "es-ES"]);
    let chosen = negotiate_system_locale_with_preferences(&prefs(&["es-MX"]), &available, 0, &standard_chains());
    assert_eq!(available[chosen].tag(), "es-ES");
}

#[test]
fn negotiation_empty_preferences_give_default() {
    let available = tags(&["en-US", "fr"]);
    assert_eq!(negotiate_system_locale_with_preferences(&prefs(&[]), &available, 1, &standard_chains()), 1);
}

#[test]
fn negotiation_is_deterministic() {
    let available = tags(&["en-US", "fr", "es-ES", "de"]);
    let p = prefs(&["de-AT", "fr-CA"]);
    let first = negotiate_system_locale_with_preferences(&p, &available, 0, &standard_chains());
    let second = negotiate_system_locale_with_preferences(&p, &available, 0, &standard_chains());
    assert_eq!(first, second);
}

#[test]
fn negotiation_ukrainian_falls_back_through_spanish() {
    let available = tags(&["en-US", "es-ES"]);
    let chosen = negotiate_system_locale_with_preferences(&prefs(&["uk-UA"]), &available, 0, &standard_chains());
    assert_eq!(available[chosen].tag(), "es-ES");
}

#[test]
fn fixup_key_replaces_and_trims() {
    assert_eq!(fixup_key("Hello, World!"), "Hello__World");
    assert_eq!(fixup_key("__a.b__"), "a_b");
    assert_eq!(fixup_key("a#b"), "a_b");
    assert_eq!(fixup_key("ünï"), "n");
    assert_eq!(fixup_key("..."), "");
}

#[test]
fn simple_hash_is_four_hex_digits_of_md5() {
    assert_eq!(simple_hash("greeting"), "699e");
    assert_eq!(simple_hash(""), "d41d");
}

#[test]
fn normalization_is_idempotent_and_memoized() {
    let mut cache = KeyCache::new();
    let first = cache.normalize("Hello, World!", "greeting");
    assert_eq!(first, "Hello__World_699e");
    let second = cache.normalize("Hello, World!", "greeting");
    assert_eq!(first, second);
    let third = cache.normalize("Hello, World!", "other");
    assert_eq!(first, third);
}

#[test]
fn normalization_prefixes_keys_without_leading_letter() {
    let mut cache = KeyCache::new();
    assert_eq!(cache.normalize("123 go", "x"), "k_123_go_9dd4");
    assert_eq!(cache.normalize("!!!", "x"), "k__9dd4");
}

#[test]
fn normalization_separates_colliding_stems() {
    let mut l = engine(&["en-US"]);
    let a = l.normalized_ftl_key("a.b", "x");
    let b = l.normalized_ftl_key("a#b", "y");
    assert_eq!(a, "a_b_9dd4");
    assert_eq!(b, "a_b_4152");
    assert_ne!(a, b);
}

#[test]
fn get_string_caches_no_arg_lookups() {
    let mut l = engine(&["en-US"]);
    assert_eq!(l.get_string("greeting").unwrap(), "Hello");
    let stats = l.get_cache_stats();
    assert_eq!(stats.resource_cache_size, 1);
    assert_eq!(stats.string_cache_size, 1);
    assert_eq!(l.get_string("greeting").unwrap(), "Hello");
    let stats = l.get_cache_stats();
    assert_eq!(stats.resource_cache_size, 1);
    assert_eq!(stats.string_cache_size, 1);
    assert_eq!(stats.cached_locales.len(), 1);
    assert_eq!(stats.cached_locales[0].tag(), "en-US");
}

#[test]
fn lookups_with_arguments_are_not_cached() {
    let mut l = engine(&["en-US"]);
    let mut args = MessageArgs::new();
    args.set("name", "Alice");
    let r1 = l.get_string_with_args("welcome", &args).unwrap();
    assert!(r1.contains("Alice"));
    assert_eq!(l.get_cache_stats().string_cache_size, 0);
    let mut args2 = MessageArgs::new();
    args2.set("name", "Bob");
    let r2 = l.get_cached_string("welcome", Some(&args2)).unwrap();
    assert!(r2.contains("Bob"));
    assert_eq!(l.get_cache_stats().string_cache_size, 0);
}

#[test]
fn locale_switch_clears_strings_but_keeps_bundles() {
    let mut l = engine(&["en-US"]);
    l.get_string("greeting").unwrap();
    l.get_string("farewell").unwrap();
    let before = l.get_cache_stats();
    assert_eq!(before.string_cache_size, 2);
    l.set_locale(lang("fr")).unwrap();
    let after = l.get_cache_stats();
    assert_eq!(after.string_cache_size, 0);
    assert_eq!(after.resource_cache_size, before.resource_cache_size);
    assert_eq!(l.get_current_locale().tag(), "fr");
    assert_eq!(l.get_string("greeting").unwrap(), "Bonjour");
    assert_eq!(l.get_cache_stats().resource_cache_size, 2);
}

#[test]
fn invalid_locale_switch_is_rejected() {
    let mut l = engine(&["fr"]);
    assert_eq!(l.get_current_locale().tag(), "fr");
    match l.set_locale(lang("de")) {
        Err(IntlError::LocaleNotAvailable(t)) => assert_eq!(t, "de"),
        _ => panic!("expected LocaleNotAvailable"),
    }
    assert_eq!(l.get_current_locale().tag(), "fr");
}

#[test]
fn missing_key_is_not_found() {
    let mut l = engine(&["en-US"]);
    match l.get_string("does_not_exist") {
        Err(IntlError::NotFound(k)) => assert_eq!(k, "does_not_exist"),
        _ => panic!("expected NotFound"),
    }
}

#[test]
fn message_without_value_is_no_value() {
    let mut l = engine(&["en-US"]);
    match l.get_string("only-attrs") {
        Err(IntlError::NoValue(k)) => assert_eq!(k, "only-attrs"),
        _ => panic!("expected NoValue"),
    }
}

#[test]
fn locale_without_source_uses_fallback_bundle() {
    let mut l = engine(&["th"]);
    assert_eq!(l.get_current_locale().tag(), "th");
    assert_eq!(l.get_string("greeting").unwrap(), "Hello");
    let stats = l.get_cache_stats();
    assert_eq!(stats.cached_locales.len(), 1);
    assert_eq!(stats.cached_locales[0].tag(), "en-US");
}

#[test]
fn fallback_must_be_available_and_have_a_source() {
    match Localization::new(registry(), &lang("de"), &prefs(&[])) {
        Err(IntlError::LocaleNotAvailable(t)) => assert_eq!(t, "de"),
        _ => panic!("expected LocaleNotAvailable"),
    }
    match Localization::new(registry(), &lang("th"), &prefs(&[])) {
        Err(IntlError::NoFtl(t)) => assert_eq!(t, "th"),
        _ => panic!("expected NoFtl"),
    }
}

#[test]
fn isolation_marks_wrap_placeables_by_default() {
    let mut l = Localization::new(registry(), &lang("en-US"), &prefs(&["en-US"])).unwrap();
    let mut args = MessageArgs::new();
    args.set("name", "Alice");
    let r = l.get_string_with_args("welcome", &args).unwrap();
    assert_eq!(r, "Welcome, \u{2068}Alice\u{2069}!");
}

#[test]
fn clear_cache_drops_bundles_and_strings() {
    let mut l = engine(&["en-US"]);
    l.get_string("greeting").unwrap();
    l.clear_cache();
    let stats = l.get_cache_stats();
    assert_eq!(stats.resource_cache_size, 0);
    assert_eq!(stats.string_cache_size, 0);
    assert!(stats.cached_locales.is_empty());
    assert_eq!(l.get_string("greeting").unwrap(), "Hello");
}

#[test]
fn limit_string_cache_size_clears_oversized_locales() {
    let mut l = engine(&["en-US"]);
    l.get_string("greeting").unwrap();
    l.get_string("farewell").unwrap();
    l.limit_string_cache_size(5);
    assert_eq!(l.get_cache_stats().string_cache_size, 2);
    l.limit_string_cache_size(1);
    assert_eq!(l.get_cache_stats().string_cache_size, 0);
}

#[test]
fn registry_queries() {
    let l = engine(&["en-US"]);
    assert_eq!(l.get_available_locales().len(), 4);
    assert_eq!(l.get_fallback_locale().tag(), "en-US");
    assert_eq!(l.get_locale_native_name(&lang("fr")), Some("Français"));
    assert_eq!(l.get_locale_native_name(&lang("de")), None);
}

#[test]
fn extract_counts_second_subtag_in_bytes() {
    assert_eq!(Localization::extract_language_region("a-é"), "a-é");
    assert_eq!(Localization::extract_language_region("a-b-c"), "a");
    assert_eq!(Localization::extract_language_region("a-"), "a");
}

#[test]
fn registry_refuses_duplicate_tags() {
    let mut r = registry();
    assert!(!r.add(lang("fr"), "Autre".to_string(), None));
    let l = Localization::new(r, &lang("en-US"), &prefs(&[])).unwrap();
    assert_eq!(l.get_available_locales().len(), 4);
    assert_eq!(l.get_locale_native_name(&lang("fr")), Some("Français"));
}

#[test]
fn fallback_chains_are_configurable() {
    let available = tags(&["en-US", "es-ES", "de"]);
    let none = FallbackChains::new();
    let chosen = negotiate_system_locale_with_preferences(&prefs(&["uk-UA"]), &available, 0, &none);
    assert_eq!(available[chosen].tag(), "en-US");
    let mut chains = FallbackChains::new();
    chains.add("uk", vec!["de".to_string(), "es-ES".to_string()]);
    let chosen = negotiate_system_locale_with_preferences(&prefs(&["uk-UA"]), &available, 0, &chains);
    assert_eq!(available[chosen].tag(), "de");
}

#[test]
fn engine_uses_registry_fallback_chains() {
    let mut r = registry();
    r.add_fallback_chain("uk", vec!["fr".to_string()]);
    let l = Localization::new(r, &lang("en-US"), &prefs(&["uk"])).unwrap();
    assert_eq!(l.get_current_locale().tag(), "fr");
}

#[test]
fn choose_locale_after_filtering() {
    let available = tags(&["en-US", "es-ES", "fr"]);
    let parsed = tags(&["es-MX", "fr-CA"]);
    assert_eq!(choose_locale(&parsed, &vec!["fr".to_string()], &available, 0), 2);
    assert_eq!(choose_locale(&parsed, &vec![], &available, 0), 1);
    assert_eq!(choose_locale(&tags(&["de"]), &vec![], &available, 0), 0);
}

#[test]
fn cache_string_replaces_kept_text() {
    let mut l = engine(&["en-US"]);
    l.get_string("greeting").unwrap();
    l.cache_string(0, "greeting", "Hello");
    assert_eq!(l.get_cache_stats().string_cache_size, 1);
    assert_eq!(l.get_string("greeting").unwrap(), "Hello");
}

#[test]
fn formatted_text_follows_the_arguments() {
    let mut l = engine(&["fr"]);
    let mut args = MessageArgs::new();
    args.set("name", "Alice");
    args.set("name", "Bob");
    assert_eq!(l.get_string_with_args("welcome", &args).unwrap(), "Bienvenue, Bob !");
    match l.get_string_with_args("nope", &args) {
        Err(IntlError::NotFound(k)) => assert_eq!(k, "nope"),
        _ => panic!("expected NotFound"),
    }
}
