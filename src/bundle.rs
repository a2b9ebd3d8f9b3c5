use vstd::prelude::*;
use crate::locale::LangId;

verus! {

/// Named string arguments for a message; a later value for a name overrides
/// an earlier one.
pub struct MessageArgs {
    entries: Vec<(String, String)>,
}

impl View for MessageArgs {
    type V = Seq<(Seq<char>, Seq<char>)>;

    /// The (name, value) pairs in the order they were set.
    closed spec fn view(&self) -> Seq<(Seq<char>, Seq<char>)> {
        self.entries@.map_values(|e: (String, String)| (e.0@, e.1@))
    }
}

impl MessageArgs {
    pub fn new() -> (r: MessageArgs)
        ensures
            r@ == Seq::<(Seq<char>, Seq<char>)>::empty(),
    {
        let r = MessageArgs { entries: Vec::new() };
        assert(r@ =~= Seq::<(Seq<char>, Seq<char>)>::empty());
        r
    }

    /// Sets argument `name` to `value`.
    pub fn set(&mut self, name: &str, value: &str)
        ensures
            final(self)@ == old(self)@.push((name@, value@)),
    {
        self.entries.push((String::from_str(name), String::from_str(value)));
        assert(final(self)@ =~= old(self)@.push((name@, value@)));
    }
}

/// A parsed message bundle of one locale.
#[verifier::external_body]
pub struct MessageBundle {
    inner: fluent::FluentBundle<fluent::FluentResource>,
}

/// The messages of a bundle, by identifier: `None` for a message without a
/// value of its own, else its text rendered without arguments.
pub uninterp spec fn bundle_messages(b: MessageBundle) -> Map<Seq<char>, Option<Seq<char>>>;

/// The messages of the bundle that a locale's template source gives, rendered
/// with or without bidirectional isolation marks.
pub uninterp spec fn parsed_messages(
    tag: Seq<char>,
    source: Seq<char>,
    use_isolating: bool,
) -> Map<Seq<char>, Option<Seq<char>>>;

/// The locale tag, template source and isolation flag a bundle was built from.
pub uninterp spec fn bundle_origin(b: MessageBundle) -> (Seq<char>, Seq<char>, bool);

/// The text of message `id` of the bundle built from `tag`, `source` and
/// `use_isolating`, formatted with the named string arguments `args`.
pub uninterp spec fn formatted_message(
    tag: Seq<char>,
    source: Seq<char>,
    use_isolating: bool,
    id: Seq<char>,
    args: Seq<(Seq<char>, Seq<char>)>,
) -> Seq<char>;

/// What looking a message up in a bundle found.
pub enum Rendered {
    Missing,
    NoValue,
    Text(String),
}

/// Relies on `FluentResource::try_new`, which keeps every entry that parses
/// and reports the others, on `FluentBundle::new` and `add_resource`, and on
/// `set_use_isolating`: the bundle's messages depend on the locale, the source
/// text and the isolation flag alone.
#[verifier::external_body]
pub(crate) fn build_bundle(locale: &LangId, source: &str, use_isolating: bool) -> (r: MessageBundle)
    ensures
        bundle_messages(r) == parsed_messages(locale@, source@, use_isolating),
        bundle_origin(r) == (locale@, source@, use_isolating),
{
    let mut bundle = fluent::FluentBundle::new(vec![locale.as_ref().clone()]);
    let resource = match fluent::FluentResource::try_new(source.to_string()) {
        Ok(resource) => resource,
        Err((resource, _errors)) => resource,
    };
    let _ = bundle.add_resource(resource);
    bundle.set_use_isolating(use_isolating);
    MessageBundle { inner: bundle }
}

/// Relies on `FluentBundle::get_message`, `FluentMessage::value` and
/// `FluentBundle::format_pattern`: a missing message, a message without a
/// value, or the value formatted with `args` (its text without arguments
/// being the one the bundle holds); `FluentArgs`'s `FromIterator` takes the
/// arguments in order, a later value for a name replacing an earlier one.
#[verifier::external_body]
pub(crate) fn render_message(b: &MessageBundle, id: &str, args: Option<&MessageArgs>) -> (r: Rendered)
    ensures
        r is Missing <==> !bundle_messages(*b).contains_key(id@),
        r is NoValue <==> (bundle_messages(*b).contains_key(id@) && bundle_messages(*b)[id@] is None),
        r matches Rendered::Text(t) ==> (args is None ==> bundle_messages(*b)[id@] == Some(t@)),
        r matches Rendered::Text(t) ==> (args matches Some(a) ==> t@ == formatted_message(
            bundle_origin(*b).0,
            bundle_origin(*b).1,
            bundle_origin(*b).2,
            id@,
            a@,
        )),
{
    let args: Option<fluent::FluentArgs> = args.map(
        |a| a.entries.iter().map(|(k, v)| (k.as_str(), v.as_str())).collect(),
    );
    let args = args.as_ref();
    match b.inner.get_message(id) {
        None => Rendered::Missing,
        Some(message) => match message.value() {
            None => Rendered::NoValue,
            Some(pattern) => {
                let mut errors = Vec::new();
                Rendered::Text(b.inner.format_pattern(pattern, args, &mut errors).to_string())
            },
        },
    }
}

} // verus!
