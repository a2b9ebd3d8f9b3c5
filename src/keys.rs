use vstd::prelude::*;

verus! {

/// Characters that may stand in a message identifier unchanged.
pub open spec fn is_key_char(c: char) -> bool {
    ('A' <= c && c <= 'Z') || ('a' <= c && c <= 'z') || ('0' <= c && c <= '9') || c == '-' || c
        == '_'
}

pub open spec fn is_ascii_alpha(c: char) -> bool {
    ('A' <= c && c <= 'Z') || ('a' <= c && c <= 'z')
}

/// Each character outside the identifier alphabet replaced by one underscore.
pub open spec fn sanitized(s: Seq<char>) -> Seq<char> {
    s.map_values(|c: char| if is_key_char(c) { c } else { '_' })
}

pub open spec fn trim_start(t: Seq<char>) -> Seq<char>
    decreases t.len(),
{
    if t.len() > 0 && t[0] == '_' {
        trim_start(t.drop_first())
    } else {
        t
    }
}

pub open spec fn trim_end(t: Seq<char>) -> Seq<char>
    decreases t.len(),
{
    if t.len() > 0 && t.last() == '_' {
        trim_end(t.drop_last())
    } else {
        t
    }
}

/// The sanitized key with leading and trailing underscores removed.
pub open spec fn fixed_key(s: Seq<char>) -> Seq<char> {
    trim_end(trim_start(sanitized(s)))
}

pub open spec fn hex_digits() -> Seq<char> {
    seq!['0', '1', '2', '3', '4', '5', '6', '7', '8', '9', 'a', 'b', 'c', 'd', 'e', 'f']
}

/// Two lowercase hexadecimal digits of a byte.
pub open spec fn hex_byte(b: u8) -> Seq<char> {
    seq![hex_digits()[b as int / 16], hex_digits()[b as int % 16]]
}

/// The MD5 digest of the UTF-8 encoding of a text.
pub uninterp spec fn md5_of(s: Seq<char>) -> Seq<u8>;

/// The disambiguation tag of a comment: its digest's first two bytes in hex.
pub open spec fn comment_tag(comment: Seq<char>) -> Seq<char> {
    hex_byte(md5_of(comment)[0]) + hex_byte(md5_of(comment)[1])
}

/// The fixed key, prefixed with `k_` where it is empty or does not start with
/// a letter.
pub open spec fn key_stem(raw: Seq<char>) -> Seq<char> {
    let f = fixed_key(raw);
    if f.len() == 0 || !is_ascii_alpha(f[0]) {
        seq!['k', '_'] + f
    } else {
        f
    }
}

/// The canonical message identifier of a raw key and its comment.
pub open spec fn canonical_key(raw: Seq<char>, comment: Seq<char>) -> Seq<char> {
    key_stem(raw) + seq!['_'] + comment_tag(comment)
}

/// Relies on `md5::compute`: the MD5 digest of the bytes of `s`.
#[verifier::external_body]
fn md5_digest(s: &str) -> (r: [u8; 16])
    ensures
        r@ == md5_of(s@),
{
    md5::compute(s.as_bytes()).0
}

/// Appends the two hex digits of `b`.
fn push_hex_byte(out: &mut String, b: u8)
    ensures
        final(out)@ == old(out)@ + hex_byte(b),
{
    let digits = "0123456789abcdef";
    proof {
        reveal_strlit("0123456789abcdef");
    }
    assert(digits@ =~= hex_digits());
    let hi = (b / 16) as usize;
    let lo = (b % 16) as usize;
    out.append(digits.substring_char(hi, hi + 1));
    out.append(digits.substring_char(lo, lo + 1));
    assert(final(out)@ =~= old(out)@ + hex_byte(b));
}

/// The disambiguation tag of `s`: four hex digits of its digest.
pub fn simple_hash(s: &str) -> (r: String)
    ensures
        r@ == comment_tag(s@),
{
    let digest = md5_digest(s);
    let mut out = String::new();
    push_hex_byte(&mut out, digest[0]);
    push_hex_byte(&mut out, digest[1]);
    assert(out@ =~= comment_tag(s@));
    out
}

proof fn lemma_trim_start_done(t: Seq<char>)
    requires
        t.len() == 0 || t[0] != '_',
    ensures
        trim_start(t) == t,
{
}

proof fn lemma_trim_end_done(t: Seq<char>)
    requires
        t.len() == 0 || t.last() != '_',
    ensures
        trim_end(t) == t,
{
}

/// Replaces each character outside letters, digits, `-` and `_` by one
/// underscore, then trims underscores from both ends.
pub fn fixup_key(s: &str) -> (r: String)
    ensures
        r@ == fixed_key(s@),
{
    let n = s.unicode_len();
    let mut out = String::new();
    let underscore = "_";
    proof {
        reveal_strlit("_");
    }
    let mut i: usize = 0;
    while i < n
        invariant
            n == s@.len(),
            0 <= i <= n,
            underscore@ == seq!['_'],
            out@ =~= sanitized(s@).subrange(0, i as int),
        decreases n - i,
    {
        let c = s.get_char(i);
        if ('A' <= c && c <= 'Z') || ('a' <= c && c <= 'z') || ('0' <= c && c <= '9') || c == '-'
            || c == '_' {
            out.append(s.substring_char(i, i + 1));
        } else {
            out.append(underscore);
        }
        assert(out@ =~= sanitized(s@).subrange(0, i + 1));
        i = i + 1;
    }
    let ghost t = sanitized(s@);
    assert(out@ =~= t);
    let o = out.as_str();
    let mut a: usize = 0;
    while a < n && o.get_char(a) == '_'
        invariant
            n == t.len(),
            o@ == t,
            0 <= a <= n,
            trim_start(t) == trim_start(t.subrange(a as int, n as int)),
        decreases n - a,
    {
        assert(t.subrange(a as int, n as int).drop_first() =~= t.subrange(a + 1, n as int));
        a = a + 1;
    }
    proof {
        lemma_trim_start_done(t.subrange(a as int, n as int));
    }
    let mut b: usize = n;
    while b > a && o.get_char(b - 1) == '_'
        invariant
            n == t.len(),
            o@ == t,
            0 <= a <= b <= n,
            trim_end(t.subrange(a as int, n as int)) == trim_end(t.subrange(a as int, b as int)),
        decreases b,
    {
        assert(t.subrange(a as int, b as int).drop_last() =~= t.subrange(a as int, b - 1));
        b = b - 1;
    }
    proof {
        lemma_trim_end_done(t.subrange(a as int, b as int));
    }
    String::from_str(o.substring_char(a, b))
}

/// The canonical identifier of `raw` with the disambiguation tag of `comment`.
pub fn canonical_ftl_key(raw: &str, comment: &str) -> (r: String)
    ensures
        r@ == canonical_key(raw@, comment@),
{
    let fixed = fixup_key(raw);
    let mut result = String::new();
    let starts_with_letter = if fixed.as_str().unicode_len() == 0 {
        false
    } else {
        let c = fixed.as_str().get_char(0);
        ('A' <= c && c <= 'Z') || ('a' <= c && c <= 'z')
    };
    if !starts_with_letter {
        let prefix = "k_";
        proof {
            reveal_strlit("k_");
        }
        result.append(prefix);
    }
    result.append(fixed.as_str());
    let sep = "_";
    proof {
        reveal_strlit("_");
    }
    result.append(sep);
    let tag = simple_hash(comment);
    result.append(tag.as_str());
    assert(result@ =~= canonical_key(raw@, comment@));
    result
}

/// The canonical identifier recorded for `raw`, the latest entry winning.
pub open spec fn assoc(entries: Seq<(String, String)>, raw: Seq<char>) -> Option<Seq<char>>
    decreases entries.len(),
{
    if entries.len() == 0 {
        None
    } else if entries.last().0@ == raw {
        Some(entries.last().1@)
    } else {
        assoc(entries.drop_last(), raw)
    }
}

/// Memo of canonical identifiers, keyed by the raw key.
pub struct KeyCache {
    entries: Vec<(String, String)>,
}

/// What normalizing `raw` with `comment` does: a raw key seen before yields its
/// recorded identifier and leaves the memo as it was; a new one yields its
/// canonical identifier, which is recorded.
pub open spec fn normalize_post(
    before: KeyCache,
    raw: Seq<char>,
    comment: Seq<char>,
    r: Seq<char>,
    after: KeyCache,
) -> bool {
    match before.lookup(raw) {
        Some(k) => r == k && after.lookup_fn() == before.lookup_fn(),
        None => {
            &&& r == canonical_key(raw, comment)
            &&& after.lookup(raw) == Some(r)
            &&& forall|other: Seq<char>| other != raw ==> #[trigger] after.lookup(other) == before.lookup(other)
        },
    }
}

impl KeyCache {
    pub closed spec fn lookup(&self, raw: Seq<char>) -> Option<Seq<char>> {
        assoc(self.entries@, raw)
    }

    pub open spec fn lookup_fn(&self) -> spec_fn(Seq<char>) -> Option<Seq<char>> {
        |raw: Seq<char>| self.lookup(raw)
    }

    pub closed spec fn len(&self) -> nat {
        self.entries@.len()
    }

    pub fn new() -> (r: KeyCache)
        ensures
            forall|raw: Seq<char>| #[trigger] r.lookup(raw) is None,
            r.len() == 0,
    {
        KeyCache { entries: Vec::new() }
    }

    /// The recorded identifier of `raw`, if any.
    pub fn get(&self, raw: &str) -> (r: Option<String>)
        ensures
            r matches Some(k) ==> self.lookup(raw@) == Some(k@),
            r is None ==> self.lookup(raw@) is None,
    {
        let ghost v = self.entries@;
        let mut i: usize = self.entries.len();
        assert(v.subrange(0, i as int) =~= v);
        while i > 0
            invariant
                0 <= i <= v.len(),
                v == self.entries@,
                assoc(v, raw@) == assoc(v.subrange(0, i as int), raw@),
            decreases i,
        {
            let ghost w = v.subrange(0, i as int);
            assert(w.drop_last() =~= v.subrange(0, i - 1));
            let s = String::from_str(raw);
            if self.entries[i - 1].0 == s {
                return Some(self.entries[i - 1].1.clone());
            }
            i = i - 1;
        }
        None
    }

    /// Canonical identifier of `raw`, computed with `comment` the first time
    /// `raw` is seen and recalled afterwards.
    pub fn normalize(&mut self, raw: &str, comment: &str) -> (r: String)
        ensures
            normalize_post(*old(self), raw@, comment@, r@, *final(self)),
    {
        match self.get(raw) {
            Some(k) => {
                proof {
                    assert(final(self).lookup_fn() =~= old(self).lookup_fn());
                }
                k
            },
            None => {
                let key = canonical_ftl_key(raw, comment);
                let ghost prev = self.entries@;
                self.entries.push((String::from_str(raw), key.clone()));
                assert(self.entries@.drop_last() =~= prev);
                key
            },
        }
    }
}

/// Normalizing a raw key twice yields the same identifier, whatever comment
/// comes with the second call, and the second call changes nothing.
pub proof fn law_normalization_idempotent(
    c0: KeyCache,
    c1: KeyCache,
    c2: KeyCache,
    raw: Seq<char>,
    comment1: Seq<char>,
    comment2: Seq<char>,
    k1: Seq<char>,
    k2: Seq<char>,
)
    requires
        normalize_post(c0, raw, comment1, k1, c1),
        normalize_post(c1, raw, comment2, k2, c2),
    ensures
        k2 == k1,
        c2.lookup_fn() == c1.lookup_fn(),
        c0.lookup(raw) is None ==> k1 == canonical_key(raw, comment1),
{
    if c0.lookup(raw) is Some {
        assert(c1.lookup(raw) == (c1.lookup_fn())(raw));
    }
}

/// Distinct raw keys that fix up to the same stem stay apart when their
/// comments' digests differ in the first two bytes.
pub proof fn law_stem_collision_separated_by_comment(
    raw1: Seq<char>,
    raw2: Seq<char>,
    comment1: Seq<char>,
    comment2: Seq<char>,
)
    requires
        fixed_key(raw1) == fixed_key(raw2),
        md5_of(comment1).len() >= 2,
        md5_of(comment2).len() >= 2,
        md5_of(comment1).subrange(0, 2) != md5_of(comment2).subrange(0, 2),
    ensures
        canonical_key(raw1, comment1) != canonical_key(raw2, comment2),
{
    let d1 = md5_of(comment1);
    let d2 = md5_of(comment2);
    let k1 = canonical_key(raw1, comment1);
    let k2 = canonical_key(raw2, comment2);
    let n = k1.len();
    if k1 == k2 {
        assert(k1.subrange(n - 4, n as int) =~= comment_tag(comment1));
        assert(k2.subrange(n - 4, n as int) =~= comment_tag(comment2));
        let t1 = comment_tag(comment1);
        let t2 = comment_tag(comment2);
        assert(t1 == t2);
        assert(t1.subrange(0, 2) =~= hex_byte(d1[0]));
        assert(t2.subrange(0, 2) =~= hex_byte(d2[0]));
        assert(t1.subrange(2, 4) =~= hex_byte(d1[1]));
        assert(t2.subrange(2, 4) =~= hex_byte(d2[1]));
        lemma_hex_byte_injective(d1[0], d2[0]);
        lemma_hex_byte_injective(d1[1], d2[1]);
        assert(d1.subrange(0, 2) =~= d2.subrange(0, 2));
    }
}

proof fn lemma_hex_byte_injective(a: u8, b: u8)
    requires
        hex_byte(a) == hex_byte(b),
    ensures
        a == b,
{
    let h = hex_digits();
    assert(forall|x: int, y: int| 0 <= x < 16 && 0 <= y < 16 && #[trigger] h[x] == #[trigger] h[y] ==> x == y);
    assert(hex_byte(a)[0] == hex_byte(b)[0]);
    assert(hex_byte(a)[1] == hex_byte(b)[1]);
    assert(a as int / 16 == b as int / 16);
    assert(a as int % 16 == b as int % 16);
}

} // verus!
