//! Localization engine: locale negotiation, canonical message keys,
//! lazily parsed message bundles and a cache of rendered strings.

pub mod locale;
pub mod negotiate;
pub mod keys;
pub mod bundle;
pub mod engine;
pub mod storage;

pub use bundle::MessageArgs;
pub use engine::{CacheStats, IntlError, LocaleRegistry, Localization};
pub use keys::{fixup_key, simple_hash, KeyCache};
pub use locale::LangId;
pub use negotiate::{choose_locale, negotiate_system_locale_with_preferences, FallbackChains};
pub use storage::{most_recent_index, BaseDir, DataPaths, Directory, FileResult, LastLines};
