//! The table of translated texts: for each key, a text for each language.
use vstd::prelude::*;

verus! {

/// The value stored under `k` in an association list: the first entry whose
/// key is `k` counts.
pub open spec fn lookup<V>(l: Seq<(String, V)>, k: Seq<char>) -> Option<V>
    decreases l.len(),
{
    if l.len() == 0 {
        None
    } else if l[0].0@ == k {
        Some(l[0].1)
    } else {
        lookup(l.drop_first(), k)
    }
}

proof fn lemma_lookup_push<V>(l: Seq<(String, V)>, p: (String, V), k: Seq<char>)
    ensures
        lookup(l.push(p), k) == if lookup(l, k) is Some {
            lookup(l, k)
        } else if p.0@ == k {
            Some(p.1)
        } else {
            None::<V>
        },
    decreases l.len(),
{
    if l.len() > 0 {
        assert(l.push(p)[0] == l[0]);
        assert(l.push(p).drop_first() =~= l.drop_first().push(p));
        lemma_lookup_push(l.drop_first(), p, k);
    } else {
        assert(l.push(p)[0] == p);
        assert(l.push(p).drop_first() =~= Seq::<(String, V)>::empty());
        assert(lookup(Seq::<(String, V)>::empty(), k) == None::<V>);
    }
}

proof fn lemma_lookup_update<V>(l: Seq<(String, V)>, i: int, p: (String, V), k: Seq<char>)
    requires
        0 <= i < l.len(),
        l[i].0@ == p.0@,
        lookup(l, p.0@) == Some(l[i].1),
        forall|j: int| 0 <= j < i ==> (#[trigger] l[j]).0@ != p.0@,
    ensures
        lookup(l.update(i, p), k) == if k == p.0@ {
            Some(p.1)
        } else {
            lookup(l, k)
        },
    decreases l.len(),
{
    assert(l.update(i, p).drop_first() =~= if i > 0 {
        l.drop_first().update(i - 1, p)
    } else {
        l.drop_first()
    });
    if i > 0 {
        assert(l[0].0@ != p.0@);
        assert(l.update(i, p)[0] == l[0]);
        assert(l.drop_first()[i - 1] == l[i]);
        assert forall|j: int| 0 <= j < i - 1 implies (#[trigger] l.drop_first()[j]).0@ != p.0@ by {
            assert(l.drop_first()[j] == l[j + 1]);
        }
        lemma_lookup_update(l.drop_first(), i - 1, p, k);
    } else {
        assert(l.update(i, p)[0] == p);
    }
}

/// Finds the first entry under `k`.
fn find<V>(l: &Vec<(String, V)>, k: &String) -> (r: Option<usize>)
    ensures
        r is Some <==> lookup(l@, k@) is Some,
        r is Some ==> ({
            let i = r->Some_0 as int;
            &&& i < l@.len()
            &&& l@[i].0@ == k@
            &&& lookup(l@, k@) == Some(l@[i].1)
            &&& forall|j: int| 0 <= j < i ==> (#[trigger] l@[j]).0@ != k@
        }),
{
    let mut i: usize = 0;
    assert(l@.subrange(0, l@.len() as int) =~= l@);
    while i < l.len()
        invariant
            i <= l@.len(),
            lookup(l@, k@) == lookup(l@.subrange(i as int, l@.len() as int), k@),
            forall|j: int| 0 <= j < i ==> (#[trigger] l@[j]).0@ != k@,
        decreases l.len() - i,
    {
        let ghost rest = l@.subrange(i as int, l@.len() as int);
        assert(rest[0] == l@[i as int]);
        if l[i].0 == *k {
            return Some(i);
        }
        assert(rest.drop_first() =~= l@.subrange(i + 1, l@.len() as int));
        i += 1;
    }
    None
}

/// The translations of one key: a text for each language.
pub struct TranslationMap {
    langs: Vec<(String, String)>,
}

/// The text of a language in a translation map.
pub open spec fn lang_view(l: Seq<(String, String)>, lang: Seq<char>) -> Option<Seq<char>> {
    match lookup(l, lang) {
        Some(v) => Some(v@),
        None => None,
    }
}

impl View for TranslationMap {
    type V = Map<Seq<char>, Seq<char>>;

    closed spec fn view(&self) -> Map<Seq<char>, Seq<char>> {
        Map::new(
            |lang: Seq<char>| lang_view(self.langs@, lang) is Some,
            |lang: Seq<char>| lang_view(self.langs@, lang)->Some_0,
        )
    }
}

impl TranslationMap {
    /// An empty translation map.
    pub fn new() -> (m: Self)
        ensures
            m@ == Map::<Seq<char>, Seq<char>>::empty(),
    {
        let m = TranslationMap { langs: Vec::new() };
        assert(m@ =~= Map::<Seq<char>, Seq<char>>::empty());
        m
    }

    /// The text of a language.
    pub fn get(&self, lang: &str) -> (r: Option<&String>)
        ensures
            r is Some <==> self@.contains_key(lang@),
            r is Some ==> r->Some_0@ == self@[lang@],
    {
        match find(&self.langs, &String::from_str(lang)) {
            Some(i) => Some(&self.langs[i].1),
            None => None,
        }
    }

    /// Sets the text of a language.
    pub fn insert(&mut self, lang: String, text: String)
        ensures
            final(self)@ == old(self)@.insert(lang@, text@),
    {
        let ghost l = self.langs@;
        let ghost p = (lang, text);
        match find(&self.langs, &lang) {
            Some(i) => {
                self.langs.set(i, (lang, text));
                assert forall|k: Seq<char>| #[trigger] lang_view(self.langs@, k) == (if k == p.0@ {
                    Some(p.1@)
                } else {
                    lang_view(l, k)
                }) by {
                    lemma_lookup_update(l, i as int, p, k);
                }
            },
            None => {
                self.langs.push((lang, text));
                assert forall|k: Seq<char>| #[trigger] lang_view(self.langs@, k) == (if k == p.0@ {
                    Some(p.1@)
                } else {
                    lang_view(l, k)
                }) by {
                    lemma_lookup_push(l, p, k);
                }
            },
        }
        assert(self@ =~= old(self)@.insert(p.0@, p.1@));
    }
}

/// The translations of all keys.
pub struct Translations {
    keys: Vec<(String, TranslationMap)>,
}

/// The translation map of a key.
pub open spec fn key_view(l: Seq<(String, TranslationMap)>, key: Seq<char>) -> Option<
    Map<Seq<char>, Seq<char>>,
> {
    match lookup(l, key) {
        Some(m) => Some(m@),
        None => None,
    }
}

impl View for Translations {
    type V = Map<Seq<char>, Map<Seq<char>, Seq<char>>>;

    closed spec fn view(&self) -> Map<Seq<char>, Map<Seq<char>, Seq<char>>> {
        Map::new(
            |key: Seq<char>| key_view(self.keys@, key) is Some,
            |key: Seq<char>| key_view(self.keys@, key)->Some_0,
        )
    }
}

impl Translations {
    /// An empty table.
    pub fn new() -> (t: Self)
        ensures
            t@ == Map::<Seq<char>, Map<Seq<char>, Seq<char>>>::empty(),
    {
        let t = Translations { keys: Vec::new() };
        assert(t@ =~= Map::<Seq<char>, Map<Seq<char>, Seq<char>>>::empty());
        t
    }

    /// The translation map of a key.
    pub fn get(&self, key: &str) -> (r: Option<&TranslationMap>)
        ensures
            r is Some <==> self@.contains_key(key@),
            r is Some ==> r->Some_0@ == self@[key@],
    {
        match find(&self.keys, &String::from_str(key)) {
            Some(i) => Some(&self.keys[i].1),
            None => None,
        }
    }

    /// Sets the text of a key in a language, keeping its other languages.
    pub fn insert(&mut self, key: String, lang: String, text: String)
        ensures
            final(self)@ == old(self)@.insert(
                key@,
                if old(self)@.contains_key(key@) {
                    old(self)@[key@]
                } else {
                    Map::<Seq<char>, Seq<char>>::empty()
                }.insert(lang@, text@),
            ),
    {
        let ghost l = self.keys@;
        let ghost kv = key@;
        let ghost inner = if self@.contains_key(key@) {
            self@[key@]
        } else {
            Map::<Seq<char>, Seq<char>>::empty()
        }.insert(lang@, text@);
        match find(&self.keys, &key) {
            Some(i) => {
                let mut entry = TranslationMap::new();
                std::mem::swap(&mut entry, &mut self.keys[i].1);
                entry.insert(lang, text);
                let ghost p = (key, entry);
                self.keys.set(i, (key, entry));
                assert(self.keys@ =~= l.update(i as int, p));
                assert forall|k: Seq<char>| #[trigger] key_view(self.keys@, k) == (if k == kv {
                    Some(inner)
                } else {
                    key_view(l, k)
                }) by {
                    lemma_lookup_update(l, i as int, p, k);
                }
            },
            None => {
                let mut entry = TranslationMap::new();
                entry.insert(lang, text);
                let ghost p = (key, entry);
                self.keys.push((key, entry));
                assert forall|k: Seq<char>| #[trigger] key_view(self.keys@, k) == (if k == kv {
                    Some(inner)
                } else {
                    key_view(l, k)
                }) by {
                    lemma_lookup_push(l, p, k);
                }
            },
        }
        assert(self@ =~= old(self)@.insert(kv, inner));
    }
}

} // verus!
