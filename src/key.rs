//! Flattened attribute keys and their string descriptors.
//!
//! A descriptor has the shape `[prefix "/"] key ["." subkey]`. Parsing splits on the
//! first `/` and then on the first `.` that follows it.
use vstd::prelude::*;

verus! {

/// The mathematical model of a key: optional prefix, key, optional subkey.
pub type KeyView = (Option<Seq<char>>, Seq<char>, Option<Seq<char>>);

/// The position of the first occurrence of `c` in `s`, if any.
pub open spec fn first_index(s: Seq<char>, c: char) -> Option<int>
    decreases s.len(),
{
    if s.len() == 0 {
        None
    } else if s[0] == c {
        Some(0)
    } else {
        match first_index(s.drop_first(), c) {
            Some(i) => Some(i + 1),
            None => None,
        }
    }
}

/// Splits `s` around the first occurrence of `c`, dropping that character.
pub open spec fn split_first(s: Seq<char>, c: char) -> Option<(Seq<char>, Seq<char>)> {
    match first_index(s, c) {
        Some(i) => Some((s.take(i), s.skip(i + 1))),
        None => None,
    }
}

/// The descriptor string of a key.
pub open spec fn encode(k: KeyView) -> Seq<char> {
    let head = match k.0 {
        Some(p) => p + seq!['/'],
        None => Seq::empty(),
    };
    let tail = match k.2 {
        Some(s) => seq!['.'] + s,
        None => Seq::empty(),
    };
    head + k.1 + tail
}

/// The key read back from a descriptor string.
pub open spec fn decode(s: Seq<char>) -> KeyView {
    let (prefix, rest) = match split_first(s, '/') {
        Some((p, r)) => (Some(p), r),
        None => (None, s),
    };
    match split_first(rest, '.') {
        Some((k, sk)) => (prefix, k, Some(sk)),
        None => (prefix, rest, None),
    }
}

/// A component that holds neither separator.
pub open spec fn valid_part(s: Seq<char>) -> bool {
    !s.contains('/') && !s.contains('.')
}

pub open spec fn valid_opt_part(s: Option<Seq<char>>) -> bool {
    match s {
        Some(p) => valid_part(p),
        None => true,
    }
}

/// A key whose components hold no separator, so that its descriptor is unambiguous.
pub open spec fn valid_key(k: KeyView) -> bool {
    valid_opt_part(k.0) && valid_part(k.1) && valid_opt_part(k.2)
}

pub proof fn lemma_first_index(s: Seq<char>, c: char)
    ensures
        match first_index(s, c) {
            Some(i) => 0 <= i < s.len() && s[i] == c && forall|j: int| 0 <= j < i ==> s[j] != c,
            None => !s.contains(c),
        },
    decreases s.len(),
{
    if s.len() > 0 {
        lemma_first_index(s.drop_first(), c);
        if s[0] != c {
            match first_index(s.drop_first(), c) {
                Some(i) => {
                    assert forall|j: int| 0 <= j < i + 1 implies s[j] != c by {
                        if j > 0 {
                            assert(s[j] == s.drop_first()[j - 1]);
                        }
                    }
                },
                None => {
                    assert forall|j: int| 0 <= j < s.len() implies s[j] != c by {
                        if j > 0 {
                            assert(s[j] == s.drop_first()[j - 1]);
                        }
                    }
                },
            }
        }
    }
}

/// Where `c` occurs at `i` and nowhere before, the split is at `i`.
pub proof fn lemma_split_at(s: Seq<char>, c: char, i: int)
    requires
        0 <= i < s.len(),
        s[i] == c,
        forall|j: int| 0 <= j < i ==> s[j] != c,
    ensures
        split_first(s, c) == Some((s.take(i), s.skip(i + 1))),
{
    lemma_first_index(s, c);
    match first_index(s, c) {
        Some(k) => {
            if k < i {
                assert(s[k] != c);
            }
            if k > i {
                assert(s[i] != c);
            }
        },
        None => {
            assert(s.contains(c));
        },
    }
}

pub proof fn lemma_split_none(s: Seq<char>, c: char)
    requires
        !s.contains(c),
    ensures
        split_first(s, c) is None,
{
    lemma_first_index(s, c);
    match first_index(s, c) {
        Some(k) => {
            assert(s[k] == c);
        },
        None => {},
    }
}

/// The descriptor of a valid key reads back as that key.
pub proof fn lemma_descriptor_round_trip(k: KeyView)
    requires
        valid_key(k),
    ensures
        decode(encode(k)) == k,
{
    let tail = match k.2 {
        Some(s) => seq!['.'] + s,
        None => Seq::<char>::empty(),
    };
    let rest = k.1 + tail;
    assert(!rest.contains('/')) by {
        if rest.contains('/') {
            let j = choose|j: int| 0 <= j < rest.len() && rest[j] == '/';
            if j < k.1.len() {
                assert(k.1[j] == '/');
            } else {
                let s = k.2->Some_0;
                assert(j > k.1.len());
                assert(s[j - k.1.len() - 1] == '/');
            }
        }
    }
    match k.2 {
        Some(s) => {
            assert forall|j: int| 0 <= j < k.1.len() implies rest[j] != '.' by {
                assert(rest[j] == k.1[j]);
                assert(!k.1.contains('.'));
            }
            lemma_split_at(rest, '.', k.1.len() as int);
            assert(rest.take(k.1.len() as int) =~= k.1);
            assert(rest.skip(k.1.len() as int + 1) =~= s);
        },
        None => {
            assert(rest =~= k.1);
            lemma_split_none(rest, '.');
        },
    }
    match k.0 {
        Some(p) => {
            let e = p + seq!['/'] + rest;
            assert(encode(k) =~= e);
            assert forall|j: int| 0 <= j < p.len() implies e[j] != '/' by {
                assert(e[j] == p[j]);
                assert(!p.contains('/'));
            }
            lemma_split_at(e, '/', p.len() as int);
            assert(e.take(p.len() as int) =~= p);
            assert(e.skip(p.len() as int + 1) =~= rest);
        },
        None => {
            assert(encode(k) =~= rest);
            lemma_split_none(rest, '/');
        },
    }
}

/// What normalizing a key yields: a scalar or a map, by whether a subkey is set.
pub enum NormalizedKey {
    Scalar(String),
    MapKey(String),
}

impl NormalizedKey {
    pub fn new_scalar(key: String) -> (r: NormalizedKey)
        ensures
            r == NormalizedKey::Scalar(key),
    {
        NormalizedKey::Scalar(key)
    }

    pub fn new_map(key: String) -> (r: NormalizedKey)
        ensures
            r == NormalizedKey::MapKey(key),
    {
        NormalizedKey::MapKey(key)
    }
}

/// A flattened key: an optional prefix, a key and an optional subkey.
///
/// A map entry has a key and a subkey, a scalar only a key.
#[derive(PartialEq, Eq, Hash, Clone, Debug)]
pub struct FlattenedKey {
    prefix: Option<String>,
    key: String,
    subkey: Option<String>,
}

impl View for FlattenedKey {
    type V = KeyView;

    closed spec fn view(&self) -> KeyView {
        (opt_view(self.prefix), self.key@, opt_view(self.subkey))
    }
}

pub open spec fn opt_view(o: Option<String>) -> Option<Seq<char>> {
    match o {
        Some(s) => Some(s@),
        None => None,
    }
}

pub fn copy_opt(o: &Option<String>) -> (r: Option<String>)
    ensures
        opt_view(r) == opt_view(*o),
{
    match o {
        Some(s) => Some(s.clone()),
        None => None,
    }
}

/// The position of the first `c` in `s`.
pub fn find_char(s: &str, c: char) -> (r: Option<usize>)
    ensures
        match r {
            Some(i) => first_index(s@, c) == Some(i as int),
            None => first_index(s@, c) is None,
        },
{
    let n = s.unicode_len();
    let mut i: usize = 0;
    while i < n
        invariant
            n == s@.len(),
            i <= n,
            forall|j: int| 0 <= j < i ==> s@[j] != c,
        decreases n - i,
    {
        if s.get_char(i) == c {
            proof {
                lemma_split_at(s@, c, i as int);
                lemma_first_index(s@, c);
            }
            return Some(i);
        }
        i = i + 1;
    }
    proof {
        lemma_first_index(s@, c);
        if s@.contains(c) {
            let j = choose|j: int| 0 <= j < s@.len() && s@[j] == c;
            assert(s@[j] != c);
        }
    }
    None
}

/// Splits `s` around the first `c`.
fn split_once_char(s: &str, c: char) -> (r: Option<(String, String)>)
    ensures
        match r {
            Some((a, b)) => split_first(s@, c) == Some((a@, b@)),
            None => split_first(s@, c) is None,
        },
{
    match find_char(s, c) {
        Some(i) => {
            let n = s.unicode_len();
            proof {
                lemma_first_index(s@, c);
            }
            let a = String::from_str(s.substring_char(0, i));
            let b = String::from_str(s.substring_char(i + 1, n));
            assert(a@ =~= s@.take(i as int));
            assert(b@ =~= s@.skip(i + 1));
            Some((a, b))
        },
        None => None,
    }
}

impl FlattenedKey {
    pub fn new(prefix: Option<String>, key: &str) -> (r: FlattenedKey)
        ensures
            r@ == (opt_view(prefix), key@, None::<Seq<char>>),
    {
        FlattenedKey { prefix, key: String::from_str(key), subkey: None }
    }

    /// A key under `prefix`, without a subkey.
    pub fn prefixed(prefix: &str, key: &str) -> (r: FlattenedKey)
        ensures
            r@ == (Some(prefix@), key@, None::<Seq<char>>),
    {
        FlattenedKey { prefix: Some(String::from_str(prefix)), key: String::from_str(key), subkey: None }
    }

    /// Turns the key into a [NormalizedKey]: a map where a subkey is set, else a scalar.
    /// The subkey comes back beside it; the prefix is dropped.
    pub fn normalize(self) -> (r: (NormalizedKey, Option<String>))
        ensures
            match r.0 {
                NormalizedKey::MapKey(k) => self@.2 is Some && k@ == self@.1,
                NormalizedKey::Scalar(k) => self@.2 is None && k@ == self@.1,
            },
            opt_view(r.1) == self@.2,
    {
        match self.subkey {
            Some(_) => (NormalizedKey::new_map(self.key), self.subkey),
            None => (NormalizedKey::new_scalar(self.key), None),
        }
    }

    /// Reads a key back from its descriptor.
    pub fn parse(descriptor: &str) -> (r: FlattenedKey)
        ensures
            r@ == decode(descriptor@),
    {
        let (prefix, rest) = match split_once_char(descriptor, '/') {
            Some((p, r)) => (Some(p), r),
            None => (None, String::from_str(descriptor)),
        };
        match split_once_char(rest.as_str(), '.') {
            Some((k, sk)) => FlattenedKey { prefix, key: k, subkey: Some(sk) },
            None => FlattenedKey { prefix, key: rest, subkey: None },
        }
    }

    pub fn with_subkey(self, subkey: &str) -> (r: FlattenedKey)
        ensures
            r@ == (self@.0, self@.1, Some(subkey@)),
    {
        FlattenedKey { prefix: self.prefix, key: self.key, subkey: Some(String::from_str(subkey)) }
    }

    /// The descriptor string of the key.
    pub fn descriptor(&self) -> (r: String)
        ensures
            r@ == encode(self@),
    {
        let mut s = String::new();
        match &self.prefix {
            Some(p) => {
                s.append(p.as_str());
                s.append("/");
            },
            None => {},
        }
        s.append(self.key.as_str());
        match &self.subkey {
            Some(sk) => {
                s.append(".");
                s.append(sk.as_str());
            },
            None => {},
        }
        proof {
            reveal_strlit("/");
            reveal_strlit(".");
        }
        assert(s@ =~= encode(self@));
        s
    }

    pub fn has_subkey(&self) -> (r: bool)
        ensures
            r == self@.2 is Some,
    {
        self.subkey.is_some()
    }

    /// The key and the subkey, without the prefix.
    pub fn into_key_parts(self) -> (r: (String, Option<String>))
        ensures
            r.0@ == self@.1,
            opt_view(r.1) == self@.2,
    {
        (self.key, self.subkey)
    }

    pub fn prefix(&self) -> (r: Option<String>)
        ensures
            opt_view(r) == self@.0,
    {
        copy_opt(&self.prefix)
    }
}

} // verus!

verus! {

impl FlattenedKey {
    /// Whether this key has the given key and subkey.
    pub fn matches(&self, key: &String, subkey: &Option<String>) -> (r: bool)
        ensures
            r == (self@.1 == key@ && self@.2 == opt_view(*subkey)),
    {
        if self.key != *key {
            return false;
        }
        match (&self.subkey, subkey) {
            (Some(a), Some(b)) => *a == *b,
            (None, None) => true,
            _ => false,
        }
    }
}

} // verus!
