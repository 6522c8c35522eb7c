//! Bundles by language, and the cache of source strings kept in them.

use crate::arb::{has_key, upsert, value_of, without, ArbEntry, ArbFile};
use crate::json::Value;
use crate::lang::{Lang, LANG_COUNT};
use crate::ordered::EntryModel;
use vstd::prelude::*;

verus! {

/// A map from language to bundle, walked in the order of languages.
#[derive(Debug)]
pub struct LangFiles {
    /// One slot for each language, at the language's rank.
    slots: Vec<Option<ArbFile>>,
}

impl View for LangFiles {
    type V = Map<Lang, Seq<EntryModel>>;

    closed spec fn view(&self) -> Map<Lang, Seq<EntryModel>> {
        Map::new(
            |l: Lang| self.slots@[l.rank()].is_some(),
            |l: Lang| self.slots@[l.rank()].unwrap()@,
        )
    }
}

impl Default for LangFiles {
    fn default() -> (r: Self)
        ensures
            r.wf(),
            r@ == Map::<Lang, Seq<EntryModel>>::empty(),
    {
        LangFiles::new()
    }
}

impl LangFiles {
    /// The invariant of the map: every bundle in it is well-formed.
    pub closed spec fn wf(&self) -> bool {
        &&& self.slots@.len() == LANG_COUNT
        &&& forall|i: int|
            0 <= i < self.slots@.len() ==> (#[trigger] self.slots@[i] matches Some(f) ==> f.wf())
    }

    /// A map with no bundle in it.
    pub fn new() -> (r: Self)
        ensures
            r.wf(),
            r@ == Map::<Lang, Seq<EntryModel>>::empty(),
    {
        let mut slots: Vec<Option<ArbFile>> = Vec::new();
        let mut i: u8 = 0;
        while i < LANG_COUNT
            invariant
                i <= LANG_COUNT,
                slots@.len() == i,
                forall|j: int| 0 <= j < i ==> slots@[j].is_none(),
            decreases LANG_COUNT - i,
        {
            slots.push(None);
            i += 1;
        }
        let r = LangFiles { slots };
        proof {
            assert(r@ =~= Map::<Lang, Seq<EntryModel>>::empty());
        }
        r
    }

    /// The bundle of a language, if the map holds one.
    pub fn get(&self, lang: &Lang) -> (r: Option<&ArbFile>)
        requires
            self.wf(),
        ensures
            r.is_some() == self@.contains_key(*lang),
            r matches Some(f) ==> f.wf() && f@ == self@[*lang],
    {
        self.slots[lang.index() as usize].as_ref()
    }

    /// Whether the map holds a bundle for a language.
    pub fn contains(&self, lang: &Lang) -> (r: bool)
        requires
            self.wf(),
        ensures
            r == self@.contains_key(*lang),
    {
        self.slots[lang.index() as usize].is_some()
    }

    /// Put a bundle under a language, in place of the one that was there.
    pub fn insert(&mut self, lang: Lang, file: ArbFile)
        requires
            old(self).wf(),
            file.wf(),
        ensures
            final(self).wf(),
            final(self)@ == old(self)@.insert(lang, file@),
    {
        let at = lang.index() as usize;
        let ghost before = self.slots@;
        let _ = self.slots.remove(at);
        self.slots.insert(at, Some(file));
        proof {
            assert(self.slots@ =~= before.update(at as int, Some(file)));
            assert forall|l: Lang| l != lang implies l.rank() != lang.rank() by {}
            assert(self@ =~= old(self)@.insert(lang, file@));
        }
    }

    /// Take the bundle of a language out of the map.
    pub fn take(&mut self, lang: &Lang) -> (r: Option<ArbFile>)
        requires
            old(self).wf(),
        ensures
            final(self).wf(),
            final(self)@ == old(self)@.remove(*lang),
            r.is_some() == old(self)@.contains_key(*lang),
            r matches Some(f) ==> f.wf() && f@ == old(self)@[*lang],
    {
        let at = lang.index() as usize;
        let ghost before = self.slots@;
        let r = self.slots.remove(at);
        self.slots.insert(at, None);
        proof {
            assert(self.slots@ =~= before.update(at as int, None));
            assert forall|l: Lang| l != *lang implies l.rank() != lang.rank() by {}
            assert(self@ =~= old(self)@.remove(*lang));
        }
        r
    }

    /// A copy of the map, bundle for bundle.
    pub fn duplicate(&self) -> (r: LangFiles)
        requires
            self.wf(),
        ensures
            r.wf(),
            r@ == self@,
    {
        let mut slots: Vec<Option<ArbFile>> = Vec::new();
        let mut i: usize = 0;
        while i < self.slots.len()
            invariant
                i <= self.slots.len(),
                self.wf(),
                slots@.len() == i,
                forall|j: int|
                    0 <= j < i ==> match (#[trigger] slots@[j], self.slots@[j]) {
                        (Some(a), Some(b)) => a.wf() && a@ == b@,
                        (None, None) => true,
                        _ => false,
                    },
            decreases self.slots.len() - i,
        {
            let copy = match &self.slots[i] {
                Some(f) => Some(f.duplicate()),
                None => None,
            };
            slots.push(copy);
            i += 1;
        }
        let r = LangFiles { slots };
        proof {
            assert(r@ =~= self@);
        }
        r
    }

    /// The languages that the map holds a bundle for, in the order of languages.
    pub fn languages(&self) -> (r: Vec<Lang>)
        requires
            self.wf(),
        ensures
            forall|l: Lang| r@.contains(l) == self@.contains_key(l),
            forall|i: int, j: int| 0 <= i < j < r@.len() ==> r@[i].rank() < r@[j].rank(),
    {
        let mut r: Vec<Lang> = Vec::new();
        let mut i: u8 = 0;
        while i < LANG_COUNT
            invariant
                i <= LANG_COUNT,
                self.wf(),
                forall|l: Lang| r@.contains(l) == (l.rank() < i && self@.contains_key(l)),
                forall|a: int, b: int| 0 <= a < b < r@.len() ==> r@[a].rank() < r@[b].rank(),
            decreases LANG_COUNT - i,
        {
            match Lang::from_index(i) {
                Some(l) => {
                    if self.slots[i as usize].is_some() {
                        let ghost before = r@;
                        r.push(l);
                        proof {
                            assert(r@[before.len() as int] == l);
                            assert forall|o: Lang| r@.contains(o) == (o.rank() < i + 1
                                && self@.contains_key(o)) by {
                                if r@.contains(o) {
                                    let p = choose|p: int| 0 <= p < r@.len() && r@[p] == o;
                                    if p < before.len() {
                                        assert(before[p] == o);
                                        assert(before.contains(o));
                                    }
                                }
                                if o.rank() < i && self@.contains_key(o) {
                                    assert(before.contains(o));
                                    let p = choose|p: int| 0 <= p < before.len() && before[p] == o;
                                    assert(r@[p] == o);
                                }
                            }
                            assert forall|a: int, b: int| 0 <= a < b < r@.len() implies r@[a].rank()
                                < r@[b].rank() by {
                                if b == before.len() {
                                    assert(before[a] == r@[a]);
                                    assert(before.contains(r@[a]));
                                } else {
                                    assert(before[a] == r@[a] && before[b] == r@[b]);
                                }
                            }
                        }
                    } else {
                        proof {
                            assert forall|o: Lang| r@.contains(o) == (o.rank() < i + 1
                                && self@.contains_key(o)) by {
                                if o.rank() == i {
                                    assert(o == l);
                                }
                            }
                        }
                    }
                },
                None => {},
            }
            i += 1;
        }
        r
    }
}

/// The bundle that a cache holds for a language after an entry has been
/// recorded in it.
pub open spec fn recorded(
    cache: Map<Lang, Seq<EntryModel>>,
    lang: Lang,
    e: EntryModel,
) -> Seq<EntryModel> {
    if cache.contains_key(lang) {
        upsert(cache[lang], e)
    } else {
        seq![e]
    }
}

/// Cache of template strings used for translations.
///
/// Used to determine which keys need updating when strings
/// in the template file are changed.
#[derive(Debug)]
pub struct ArbCache(pub(crate) LangFiles);

impl View for ArbCache {
    type V = Map<Lang, Seq<EntryModel>>;

    closed spec fn view(&self) -> Map<Lang, Seq<EntryModel>> {
        self.0@
    }
}

impl Default for ArbCache {
    fn default() -> (r: Self)
        ensures
            r.wf(),
            r@ == Map::<Lang, Seq<EntryModel>>::empty(),
    {
        ArbCache(LangFiles::new())
    }
}

impl ArbCache {
    /// The invariant of the cache: every bundle in it is well-formed.
    pub closed spec fn wf(&self) -> bool {
        self.0.wf()
    }

    /// A cache made of the bundles of `files`.
    pub fn new(files: LangFiles) -> (r: Self)
        requires
            files.wf(),
        ensures
            r.wf(),
            r@ == files@,
    {
        ArbCache(files)
    }

    /// The bundles of the cache, by language.
    pub fn files(&self) -> (r: &LangFiles)
        requires
            self.wf(),
        ensures
            r.wf(),
            r@ == self@,
    {
        &self.0
    }

    /// Put a bundle under a language, in place of the one that was there.
    pub fn set_file(&mut self, lang: Lang, file: ArbFile)
        requires
            old(self).wf(),
            file.wf(),
        ensures
            final(self).wf(),
            final(self)@ == old(self)@.insert(lang, file@),
    {
        self.0.insert(lang, file);
    }

    /// Get an application resource bundle file.
    pub fn get_file(&self, lang: &Lang) -> (r: Option<&ArbFile>)
        requires
            self.wf(),
        ensures
            r.is_some() == self@.contains_key(*lang),
            r matches Some(f) ==> f.wf() && f@ == self@[*lang],
    {
        self.0.get(lang)
    }

    /// Add a cache entry: the entry is recorded in the bundle of the
    /// language, which is created where the cache has none.
    pub fn add_entry(&mut self, lang: Lang, entry: ArbEntry<'_>)
        requires
            old(self).wf(),
        ensures
            final(self).wf(),
            final(self)@ == old(self)@.insert(lang, recorded(old(self)@, lang, entry@)),
    {
        let mut file = match self.0.take(&lang) {
            Some(f) => f,
            None => ArbFile::default(),
        };
        file.insert_entry(entry);
        proof {
            if !old(self)@.contains_key(lang) {
                assert(file@ =~= seq![entry@]);
            }
        }
        self.0.insert(lang, file);
        proof {
            assert(self@ =~= old(self)@.insert(lang, recorded(old(self)@, lang, entry@)));
        }
    }

    /// Get a cache entry.
    pub fn get_entry<'a>(&'a self, lang: &Lang, key: &'a str) -> (r: Option<ArbEntry<'a>>)
        requires
            self.wf(),
        ensures
            r.is_some() == (self@.contains_key(*lang) && has_key(self@[*lang], key@)),
            r matches Some(e) ==> e@ == (EntryModel {
                key: key@,
                value: value_of(self@[*lang], key@),
            }),
    {
        match self.0.get(lang) {
            Some(file) => file.lookup(key),
            None => None,
        }
    }

    /// Remove a cache entry, and return the value it had. A cache without a
    /// bundle for the language stays as it is.
    pub fn remove_entry(&mut self, lang: &Lang, key: &str) -> (r: Option<Value>)
        requires
            old(self).wf(),
        ensures
            final(self).wf(),
            old(self)@.contains_key(*lang) ==> final(self)@ == old(self)@.insert(
                *lang,
                without(old(self)@[*lang], key@),
            ),
            !old(self)@.contains_key(*lang) ==> final(self)@ == old(self)@,
            r.is_some() == (old(self)@.contains_key(*lang) && has_key(old(self)@[*lang], key@)),
            r matches Some(v) ==> v@ == value_of(old(self)@[*lang], key@),
    {
        match self.0.take(lang) {
            Some(mut file) => {
                let r = file.remove(key);
                self.0.insert(*lang, file);
                proof {
                    assert(self@ =~= old(self)@.insert(*lang, without(old(self)@[*lang], key@)));
                }
                r
            },
            None => {
                proof {
                    assert(self@ =~= old(self)@);
                }
                None
            },
        }
    }
}

} // verus!
