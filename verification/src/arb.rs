//! Application resource bundles: keys, values, entries and the bundle itself.

use crate::error::Error;
use crate::json::{JsonModel, Member, Value};
pub use crate::ordered::has_key;
use crate::ordered::{
    map_at, map_entries, map_index_of, map_insert, map_len, map_new, map_shift_insert,
    map_shift_remove, EntryModel,
};
use crate::placeholder::Placeholders;
use indexmap::IndexMap;
use vstd::prelude::*;

verus! {

/// Whether a key is prefixed with the @ symbol, which marks metadata.
pub open spec fn prefixed(key: Seq<char>) -> bool {
    key.len() > 0 && key[0] == '@'
}

/// The key under which the metadata of `key` stands.
pub open spec fn meta_key(key: Seq<char>) -> Seq<char> {
    seq!['@'] + key
}

/// Key in the application resource bundle map.
#[derive(Debug, Clone, Copy, PartialEq, Eq, Hash)]
pub struct ArbKey<'a>(pub(crate) &'a str);

impl<'a> View for ArbKey<'a> {
    type V = Seq<char>;

    closed spec fn view(&self) -> Seq<char> {
        self.0@
    }
}

impl<'a> ArbKey<'a> {
    /// Create a new key.
    pub fn new(key: &'a str) -> (r: Self)
        ensures
            r@ == key@,
    {
        Self(key)
    }

    /// Determine if this key is prefixed with the @ symbol.
    ///
    /// The @ symbol is used to declare meta data for translatable
    /// keys (such as placeholders) or for comments.
    pub fn is_prefixed(&self) -> (r: bool)
        ensures
            r == prefixed(self@),
    {
        self.0.unicode_len() > 0 && self.0.get_char(0) == '@'
    }

    /// Determine if this key is translatable.
    pub fn is_translatable(&self) -> (r: bool)
        ensures
            r == !prefixed(self@),
    {
        !self.is_prefixed()
    }

    /// The key's text.
    pub fn as_ref(&self) -> (r: &'a str)
        ensures
            r@ == self@,
    {
        self.0
    }

    /// The key's text, owned.
    pub fn to_string(&self) -> (r: String)
        ensures
            r@ == self@,
    {
        self.0.to_owned()
    }
}

/// Value in the application resource bundle map.
#[derive(Debug, Clone, Copy, PartialEq, Eq)]
pub struct ArbValue<'a>(pub(crate) &'a Value);

impl<'a> View for ArbValue<'a> {
    type V = JsonModel;

    closed spec fn view(&self) -> JsonModel {
        self.0@
    }
}

impl<'a> ArbValue<'a> {
    /// Create a new value.
    pub fn new(value: &'a Value) -> (r: Self)
        ensures
            r@ == value@,
    {
        Self(value)
    }

    /// String reference, only available when translatable.
    pub fn as_str(&self) -> (r: Option<&'a str>)
        ensures
            r.is_some() == (self@ is Text),
            r matches Some(s) ==> s@ == self@->Text_0,
    {
        match self.0 {
            Value::String(s) => Some(s.as_str()),
            _ => None,
        }
    }

    /// Determine if this value is translatable.
    pub fn is_translatable(&self) -> (r: bool)
        ensures
            r == (self@ is Text),
    {
        self.0.is_string()
    }

    /// Whether two values are the same.
    pub fn same(&self, other: &ArbValue<'_>) -> (r: bool)
        ensures
            r == (self@ == other@),
    {
        self.0.same(other.0)
    }

    /// An owned copy of the value.
    pub fn to_value(&self) -> (r: Value)
        ensures
            r@ == self@,
    {
        self.0.duplicate()
    }
}

impl<'a> From<&'a Value> for ArbValue<'a> {
    fn from(value: &'a Value) -> (r: Self) {
        ArbValue(value)
    }
}

impl<'a> vstd::std_specs::convert::FromSpecImpl<&'a Value> for ArbValue<'a> {
    open spec fn obeys_from_spec() -> bool {
        true
    }

    closed spec fn from_spec(value: &'a Value) -> Self {
        ArbValue(value)
    }
}

/// Whether an entry is translatable: its key is not prefixed with an @
/// symbol and its value is a string.
pub open spec fn translatable(e: EntryModel) -> bool {
    !prefixed(e.key) && e.value is Text
}

/// Entry in an application resource bundle map.
#[derive(Debug, Clone, Copy)]
pub struct ArbEntry<'a>(pub(crate) ArbKey<'a>, pub(crate) ArbValue<'a>);

impl<'a> View for ArbEntry<'a> {
    type V = EntryModel;

    closed spec fn view(&self) -> EntryModel {
        EntryModel { key: self.0@, value: self.1@ }
    }
}

impl<'a> ArbEntry<'a> {
    /// Create a new entry.
    pub fn new(key: &'a str, value: &'a Value) -> (r: Self)
        ensures
            r@ == (EntryModel { key: key@, value: value@ }),
    {
        Self(ArbKey::new(key), ArbValue::new(value))
    }

    /// Key for the entry.
    pub fn key(&self) -> (r: &ArbKey<'a>)
        ensures
            r@ == self@.key,
    {
        &self.0
    }

    /// Value of the entry.
    pub fn value(&self) -> (r: &ArbValue<'a>)
        ensures
            r@ == self@.value,
    {
        &self.1
    }

    /// Determine if this entry is translatable.
    ///
    /// An entry is only translatable when the key is not prefixed
    /// with an @ symbol and the value is of the string type.
    pub fn is_translatable(&self) -> (r: bool)
        ensures
            r == translatable(self@),
    {
        self.0.is_translatable() && self.1.is_translatable()
    }
}


/// No two entries of `s` have the same key.
pub open spec fn distinct_keys(s: Seq<EntryModel>) -> bool {
    forall|i: int, j: int| 0 <= i < j < s.len() ==> s[i].key != s[j].key
}

/// The position in `s` of the entry with the key `key`, where there is one.
pub open spec fn index_of(s: Seq<EntryModel>, key: Seq<char>) -> int {
    choose|i: int| 0 <= i < s.len() && #[trigger] s[i].key == key
}

/// The value in `s` under the key `key`, where there is one.
pub open spec fn value_of(s: Seq<EntryModel>, key: Seq<char>) -> JsonModel {
    s[index_of(s, key)].value
}

/// The keys of `s`, as a set.
pub open spec fn key_set(s: Seq<EntryModel>) -> Set<Seq<char>> {
    Set::new(|k: Seq<char>| has_key(s, k))
}

/// `s` after an insert-or-overwrite: an entry with the same key is replaced
/// where it stands, a new key is added at the end.
pub open spec fn upsert(s: Seq<EntryModel>, e: EntryModel) -> Seq<EntryModel> {
    if has_key(s, e.key) {
        s.update(index_of(s, e.key), e)
    } else {
        s.push(e)
    }
}

/// `s` without the entry under `key`; later entries move down by one.
pub open spec fn without(s: Seq<EntryModel>, key: Seq<char>) -> Seq<EntryModel> {
    if has_key(s, key) {
        s.remove(index_of(s, key))
    } else {
        s
    }
}

/// `s` after `e` has been put at position `index`: a new key is inserted
/// there and later entries move up by one; an entry with the same key is
/// taken out first.
pub open spec fn placed(s: Seq<EntryModel>, index: int, e: EntryModel) -> Seq<EntryModel> {
    without(s, e.key).insert(index, e)
}

/// In a bundle with distinct keys, the entry at `i` is the one `index_of`
/// finds for its key.
pub proof fn lemma_index_of(s: Seq<EntryModel>, i: int)
    requires
        distinct_keys(s),
        0 <= i < s.len(),
    ensures
        has_key(s, s[i].key),
        index_of(s, s[i].key) == i,
{
    let k = s[i].key;
    assert(s[i].key == k);
    let j = index_of(s, k);
    assert(0 <= j < s.len() && s[j].key == k);
    if j != i {
        if j < i {
            assert(s[j].key != s[i].key);
        } else {
            assert(s[i].key != s[j].key);
        }
    }
}

/// What `has_key` and `index_of` say of a key that is present.
pub proof fn lemma_has_key(s: Seq<EntryModel>, key: Seq<char>)
    requires
        has_key(s, key),
    ensures
        0 <= index_of(s, key) < s.len(),
        s[index_of(s, key)].key == key,
{
}

/// An insert-or-overwrite keeps the keys distinct, and changes the key set
/// by the one key at most.
pub proof fn lemma_upsert(s: Seq<EntryModel>, e: EntryModel)
    requires
        distinct_keys(s),
    ensures
        distinct_keys(upsert(s, e)),
        has_key(upsert(s, e), e.key),
        value_of(upsert(s, e), e.key) == e.value,
        forall|k: Seq<char>| k != e.key ==> has_key(upsert(s, e), k) == has_key(s, k),
        forall|k: Seq<char>|
            k != e.key && has_key(s, k) ==> index_of(upsert(s, e), k) == index_of(s, k)
                && value_of(upsert(s, e), k) == value_of(s, k),
        has_key(s, e.key) ==> index_of(upsert(s, e), e.key) == index_of(s, e.key),
        !has_key(s, e.key) ==> index_of(upsert(s, e), e.key) == s.len(),
{
    let t = upsert(s, e);
    if has_key(s, e.key) {
        let p = index_of(s, e.key);
        assert(t[p].key == e.key);
        assert forall|i: int, j: int| 0 <= i < j < t.len() implies t[i].key != t[j].key by {
            assert(t[i].key == s[i].key && t[j].key == s[j].key);
        }
        lemma_index_of(t, p);
        assert forall|k: Seq<char>| k != e.key implies has_key(t, k) == has_key(s, k) by {
            if has_key(s, k) {
                let i = index_of(s, k);
                assert(t[i].key == k);
            }
            if has_key(t, k) {
                let i = index_of(t, k);
                assert(s[i].key == k);
            }
        }
        assert forall|k: Seq<char>| k != e.key && has_key(s, k) implies index_of(t, k)
            == index_of(s, k) && value_of(t, k) == value_of(s, k) by {
            let i = index_of(s, k);
            assert(t[i].key == k);
            lemma_index_of(t, i);
        }
    } else {
        let p = s.len() as int;
        assert(t[p].key == e.key);
        assert forall|i: int, j: int| 0 <= i < j < t.len() implies t[i].key != t[j].key by {
            if j == p {
                assert(t[i].key == s[i].key);
            } else {
                assert(t[i].key == s[i].key && t[j].key == s[j].key);
            }
        }
        lemma_index_of(t, p);
        assert forall|k: Seq<char>| k != e.key implies has_key(t, k) == has_key(s, k) by {
            if has_key(s, k) {
                let i = index_of(s, k);
                assert(t[i].key == k);
            }
            if has_key(t, k) {
                let i = index_of(t, k);
                assert(s[i].key == k);
            }
        }
        assert forall|k: Seq<char>| k != e.key && has_key(s, k) implies index_of(t, k)
            == index_of(s, k) && value_of(t, k) == value_of(s, k) by {
            let i = index_of(s, k);
            assert(t[i].key == k);
            lemma_index_of(t, i);
        }
    }
}

/// Taking a key out keeps the keys distinct and removes that key alone.
pub proof fn lemma_without(s: Seq<EntryModel>, key: Seq<char>)
    requires
        distinct_keys(s),
    ensures
        distinct_keys(without(s, key)),
        !has_key(without(s, key), key),
        forall|k: Seq<char>| k != key ==> has_key(without(s, key), k) == has_key(s, k),
        forall|k: Seq<char>|
            k != key && has_key(s, k) ==> value_of(without(s, key), k) == value_of(s, k),
{
    let t = without(s, key);
    if has_key(s, key) {
        let p = index_of(s, key);
        assert forall|i: int| 0 <= i < t.len() implies t[i] == s[if i < p {
            i
        } else {
            i + 1
        }] by {}
        assert forall|i: int, j: int| 0 <= i < j < t.len() implies t[i].key != t[j].key by {
            let a = if i < p { i } else { i + 1 };
            let b = if j < p { j } else { j + 1 };
            assert(s[a].key != s[b].key);
        }
        if has_key(t, key) {
            let i = index_of(t, key);
            let a = if i < p { i } else { i + 1 };
            assert(s[a].key == key);
            lemma_index_of(s, a);
        }
        assert forall|k: Seq<char>| k != key implies has_key(t, k) == has_key(s, k) by {
            if has_key(s, k) {
                let i = index_of(s, k);
                let a = if i < p { i } else { i - 1 };
                assert(t[a].key == k);
            }
            if has_key(t, k) {
                let i = index_of(t, k);
                let a = if i < p { i } else { i + 1 };
                assert(s[a].key == k);
            }
        }
        assert forall|k: Seq<char>| k != key && has_key(s, k) implies value_of(t, k) == value_of(
            s,
            k,
        ) by {
            let i = index_of(s, k);
            let a = if i < p { i } else { i - 1 };
            assert(t[a].key == k);
            lemma_index_of(t, a);
        }
    }
}

/// Putting an entry at a position keeps the keys distinct and puts the key
/// exactly there.
pub proof fn lemma_placed(s: Seq<EntryModel>, index: int, e: EntryModel)
    requires
        distinct_keys(s),
        0 <= index <= without(s, e.key).len(),
    ensures
        distinct_keys(placed(s, index, e)),
        has_key(placed(s, index, e), e.key),
        index_of(placed(s, index, e), e.key) == index,
        value_of(placed(s, index, e), e.key) == e.value,
        forall|k: Seq<char>| k != e.key ==> has_key(placed(s, index, e), k) == has_key(s, k),
        forall|k: Seq<char>|
            k != e.key && has_key(s, k) ==> value_of(placed(s, index, e), k) == value_of(s, k),
{
    lemma_without(s, e.key);
    let w = without(s, e.key);
    let t = placed(s, index, e);
    assert forall|i: int| 0 <= i < t.len() implies t[i] == (if i < index {
        w[i]
    } else if i == index {
        e
    } else {
        w[i - 1]
    }) by {}
    assert forall|i: int, j: int| 0 <= i < j < t.len() implies t[i].key != t[j].key by {
        if i == index {
            assert(w[j - 1].key == t[j].key);
        } else if j == index {
            assert(w[i].key == t[i].key);
        } else {
            let a = if i < index { i } else { i - 1 };
            let b = if j < index { j } else { j - 1 };
            assert(w[a].key != w[b].key);
        }
    }
    assert(t[index].key == e.key);
    lemma_index_of(t, index);
    assert forall|k: Seq<char>| k != e.key implies has_key(t, k) == has_key(s, k) by {
        if has_key(w, k) {
            let i = index_of(w, k);
            let a = if i < index { i } else { i + 1 };
            assert(t[a].key == k);
        }
        if has_key(t, k) {
            let i = index_of(t, k);
            let a = if i < index { i } else { i - 1 };
            assert(w[a].key == k);
        }
    }
    assert forall|k: Seq<char>| k != e.key && has_key(s, k) implies value_of(t, k) == value_of(
        s,
        k,
    ) by {
        let i = index_of(w, k);
        let a = if i < index { i } else { i + 1 };
        assert(t[a].key == k);
        lemma_index_of(t, a);
    }
}


/// The value of the first member of `members` named `name`, from position
/// `from` on.
pub open spec fn member_from(members: Seq<crate::json::MemberModel>, name: Seq<char>, from: int) -> Option<
    JsonModel,
>
    decreases members.len() - from,
{
    if from < 0 || from >= members.len() {
        None
    } else if members[from].name == name {
        Some(members[from].value)
    } else {
        member_from(members, name, from + 1)
    }
}

/// The names of the members of an object, in order.
pub open spec fn member_names(members: Seq<crate::json::MemberModel>) -> Seq<Seq<char>> {
    members.map_values(|m: crate::json::MemberModel| m.name)
}

/// The placeholder names that the bundle `s` declares for `key`: the member
/// names of the `placeholders` object in the metadata entry `@key`. `None`
/// where the metadata entry is absent or has another shape.
pub open spec fn declared(s: Seq<EntryModel>, key: Seq<char>) -> Option<Seq<Seq<char>>> {
    if has_key(s, meta_key(key)) {
        match value_of(s, meta_key(key)) {
            JsonModel::Object(members) => match member_from(members, "placeholders"@, 0) {
                Some(JsonModel::Object(inner)) => Some(member_names(inner)),
                _ => None,
            },
            _ => None,
        }
    } else {
        None
    }
}

/// The set of the texts of `v`.
pub open spec fn name_set(v: Seq<String>) -> Set<Seq<char>> {
    Set::new(|k: Seq<char>| exists|i: int| 0 <= i < v.len() && #[trigger] v[i]@ == k)
}

/// No text occurs twice in `v`.
pub open spec fn distinct_names(v: Seq<String>) -> bool {
    forall|i: int, j: int| 0 <= i < j < v.len() ==> v[i]@ != v[j]@
}

/// The keys to create: those of the template that the target lacks.
pub open spec fn create_set(template: Seq<EntryModel>, target: Seq<EntryModel>) -> Set<Seq<char>> {
    Set::new(|k: Seq<char>| has_key(template, k) && !has_key(target, k))
}

/// The keys to delete: those of the target that the template lacks.
pub open spec fn delete_set(template: Seq<EntryModel>, target: Seq<EntryModel>) -> Set<Seq<char>> {
    Set::new(|k: Seq<char>| has_key(target, k) && !has_key(template, k))
}

/// The keys to update: those that the template and the cache both hold, with
/// values that differ. Without a cache there is none.
pub open spec fn update_set(template: Seq<EntryModel>, cache: Option<Seq<EntryModel>>) -> Set<
    Seq<char>,
> {
    match cache {
        Some(c) => Set::new(
            |k: Seq<char>|
                has_key(template, k) && has_key(c, k) && value_of(template, k) != value_of(c, k),
        ),
        None => Set::empty(),
    }
}

/// Diff of the keys in two language files.
#[derive(Debug)]
pub struct FileDiff {
    /// Set of keys that exist in the template but
    /// not in the target language.
    pub create: Vec<String>,
    /// Set of keys that exist in the target language
    /// but not in the template.
    pub delete: Vec<String>,
    /// Set of keys that have changed in the template
    /// since the last translation.
    pub update: Vec<String>,
}

/// Whether `names` holds the text `key`.
pub fn holds_name(names: &Vec<String>, key: &str) -> (r: bool)
    ensures
        r == name_set(names@).contains(key@),
{
    let wanted = key.to_owned();
    let mut i: usize = 0;
    while i < names.len()
        invariant
            i <= names.len(),
            wanted@ == key@,
            forall|j: int| 0 <= j < i ==> names@[j]@ != key@,
        decreases names.len() - i,
    {
        if names[i] == wanted {
            assert(names@[i as int]@ == key@);
            return true;
        }
        i += 1;
    }
    false
}

/// Adding a text to a list adds it to the list's set.
pub proof fn lemma_name_set_push(v: Seq<String>, s: String)
    ensures
        name_set(v.push(s)) == name_set(v).insert(s@),
{
    let w = v.push(s);
    assert forall|k: Seq<char>| name_set(w).contains(k) == name_set(v).insert(s@).contains(
        k,
    ) by {
        if name_set(w).contains(k) {
            let i = choose|i: int| 0 <= i < w.len() && #[trigger] w[i]@ == k;
            if i < v.len() {
                assert(v[i]@ == k);
            }
        }
        if name_set(v).contains(k) {
            let i = choose|i: int| 0 <= i < v.len() && #[trigger] v[i]@ == k;
            assert(w[i]@ == k);
        }
        if k == s@ {
            assert(w[v.len() as int]@ == k);
        }
    }
    assert(name_set(w) =~= name_set(v).insert(s@));
}

/// The keys of a prefix one entry longer are those of the prefix and the
/// key of that entry; its values are those of the whole bundle.
pub proof fn lemma_take_step(s: Seq<EntryModel>, i: int)
    requires
        distinct_keys(s),
        0 <= i < s.len(),
    ensures
        distinct_keys(s.take(i)),
        !has_key(s.take(i), s[i].key),
        forall|k: Seq<char>|
            has_key(s.take(i + 1), k) == (has_key(s.take(i), k) || s[i].key == k),
        forall|k: Seq<char>| has_key(s.take(i + 1), k) ==> value_of(s.take(i + 1), k) == value_of(s, k),
{
    let a = s.take(i);
    let b = s.take(i + 1);
    if has_key(a, s[i].key) {
        let j = index_of(a, s[i].key);
        assert(s[j].key == s[i].key);
    }
    assert forall|k: Seq<char>| has_key(b, k) == (has_key(a, k) || s[i].key == k) by {
        if has_key(b, k) {
            let j = index_of(b, k);
            if j < i {
                assert(a[j].key == k);
            }
        }
        if has_key(a, k) {
            let j = index_of(a, k);
            assert(b[j].key == k);
        }
        if s[i].key == k {
            assert(b[i].key == k);
        }
    }
    assert forall|k: Seq<char>| has_key(b, k) implies value_of(b, k) == value_of(s, k) by {
        let j = index_of(b, k);
        assert(s[j].key == k);
        lemma_index_of(s, j);
    }
}

/// A key of a prefix has in the prefix the value that it has in the prefix one
/// entry longer.
pub proof fn lemma_take_values(s: Seq<EntryModel>, i: int)
    requires
        distinct_keys(s),
        0 < i < s.len(),
    ensures
        forall|k: Seq<char>|
            has_key(s.take(i), k) ==> value_of(s.take(i), k) == value_of(s.take(i + 1), k),
{
    lemma_take_step(s, i - 1);
    lemma_take_step(s, i);
    assert(s.take(i - 1 + 1) == s.take(i));
}

/// The placeholder names that a metadata value declares, if it has the shape
/// of an object with a `placeholders` object in it.
fn declared_in<'a>(value: &'a Value) -> (r: Option<Placeholders<'a>>)
    ensures
        match value@ {
            JsonModel::Object(members) => match member_from(members, "placeholders"@, 0) {
                Some(JsonModel::Object(inner)) => r.is_some() && r.unwrap()@ == member_names(
                    inner,
                ),
                _ => r.is_none(),
            },
            _ => r.is_none(),
        },
{
    match value {
        Value::Object(members) => {
            let wanted = "placeholders".to_owned();
            let ghost model = value@->Object_0;
            let mut i: usize = 0;
            while i < members.len()
                invariant
                    i <= members.len(),
                    wanted@ == "placeholders"@,
                    value@ == JsonModel::Object(model),
                    model.len() == members.len(),
                    forall|j: int|
                        0 <= j < members.len() ==> model[j].name == members@[j].name@
                            && model[j].value == members@[j].value@,
                    member_from(model, "placeholders"@, 0) == member_from(
                        model,
                        "placeholders"@,
                        i as int,
                    ),
                decreases members.len() - i,
            {
                if members[i].name == wanted {
                    return inner_names(&members[i].value);
                }
                i += 1;
            }
            None
        },
        _ => None,
    }
}

/// The member names of `value`, if it is an object.
fn inner_names<'a>(value: &'a Value) -> (r: Option<Placeholders<'a>>)
    ensures
        match value@ {
            JsonModel::Object(inner) => r.is_some() && r.unwrap()@ == member_names(inner),
            _ => r.is_none(),
        },
{
    match value {
        Value::Object(inner) => {
            let ghost model = value@->Object_0;
            let mut names: Vec<&'a str> = Vec::new();
            let mut i: usize = 0;
            while i < inner.len()
                invariant
                    i <= inner.len(),
                    model.len() == inner.len(),
                    forall|j: int| 0 <= j < inner.len() ==> model[j].name == inner@[j].name@,
                    names.len() == i,
                    forall|j: int| 0 <= j < i ==> names@[j]@ == model[j].name,
                decreases inner.len() - i,
            {
                names.push(inner[i].name.as_str());
                i += 1;
            }
            let r = Placeholders::new(names);
            proof {
                assert(r@ =~= member_names(model));
            }
            Some(r)
        },
        _ => None,
    }
}

/// Content of an application resource bundle file: an ordered map from key
/// to value, in which no key occurs twice.
#[derive(Debug)]
pub struct ArbFile {
    pub(crate) contents: IndexMap<String, Value>,
}

impl View for ArbFile {
    type V = Seq<EntryModel>;

    closed spec fn view(&self) -> Seq<EntryModel> {
        map_entries(self.contents)
    }
}

impl Default for ArbFile {
    fn default() -> (r: Self)
        ensures
            r@ == Seq::<EntryModel>::empty(),
            r.wf(),
    {
        ArbFile { contents: map_new() }
    }
}

impl ArbFile {
    /// The invariant of a bundle: no key occurs twice.
    pub open spec fn wf(&self) -> bool {
        distinct_keys(self@)
    }

    /// Number of entries.
    pub fn len(&self) -> (r: usize)
        ensures
            r == self@.len(),
    {
        map_len(&self.contents)
    }

    /// Whether this application resource bundle is empty.
    pub fn is_empty(&self) -> (r: bool)
        ensures
            r == (self@.len() == 0),
    {
        map_len(&self.contents) == 0
    }

    /// The entry at a position, `None` past the end.
    pub fn entry_at(&self, index: usize) -> (r: Option<ArbEntry<'_>>)
        ensures
            r.is_some() == (index < self@.len()),
            r matches Some(e) ==> e@ == self@[index as int],
    {
        match map_at(&self.contents, index) {
            Some((k, v)) => Some(ArbEntry::new(k.as_str(), v)),
            None => None,
        }
    }

    /// All of the application resource bundle entries, in order.
    pub fn entries(&self) -> (r: Vec<ArbEntry<'_>>)
        ensures
            r.len() == self@.len(),
            forall|i: int| 0 <= i < r.len() ==> r@[i]@ == self@[i],
    {
        let mut r: Vec<ArbEntry<'_>> = Vec::new();
        let n = self.len();
        let mut i: usize = 0;
        while i < n
            invariant
                i <= n,
                n == self@.len(),
                r.len() == i,
                forall|j: int| 0 <= j < i ==> r@[j]@ == self@[j],
            decreases n - i,
        {
            match self.entry_at(i) {
                Some(e) => {
                    r.push(e);
                },
                None => {},
            }
            i += 1;
        }
        r
    }

    /// The position of a key, `None` where the bundle lacks it.
    pub fn get_index_of(&self, key: &str) -> (r: Option<usize>)
        requires
            self.wf(),
        ensures
            r.is_some() == has_key(self@, key@),
            r matches Some(i) ==> i == index_of(self@, key@),
    {
        let r = map_index_of(&self.contents, key);
        proof {
            if let Some(i) = r {
                lemma_index_of(self@, i as int);
            }
        }
        r
    }

    /// Lookup an entry by key.
    pub fn lookup<'a>(&'a self, key: &'a str) -> (r: Option<ArbEntry<'a>>)
        requires
            self.wf(),
        ensures
            r.is_some() == has_key(self@, key@),
            r matches Some(e) ==> e@ == (EntryModel { key: key@, value: value_of(self@, key@) }),
    {
        match self.get_index_of(key) {
            Some(i) => match map_at(&self.contents, i) {
                Some((_, v)) => Some(ArbEntry::new(key, v)),
                None => None,
            },
            None => None,
        }
    }

    /// Insert a translated value: the key keeps its place where it is
    /// present, and goes to the end where it is new.
    pub fn insert_translation<'a>(&mut self, key: &ArbKey<'a>, text: String)
        requires
            old(self).wf(),
        ensures
            final(self).wf(),
            final(self)@ == upsert(
                old(self)@,
                EntryModel { key: key@, value: JsonModel::Text(text@) },
            ),
    {
        proof {
            lemma_upsert(self@, EntryModel { key: key@, value: JsonModel::Text(text@) });
        }
        let _ = map_insert(&mut self.contents, key.to_string(), Value::String(text));
    }

    /// Shift insert a translated value: the key goes to position `index`, and
    /// the entries from there on move up by one.
    pub fn shift_insert_translation<'a>(&mut self, index: usize, key: &ArbKey<'a>, text: String)
        requires
            old(self).wf(),
            index <= without(old(self)@, key@).len(),
        ensures
            final(self).wf(),
            final(self)@ == placed(
                old(self)@,
                index as int,
                EntryModel { key: key@, value: JsonModel::Text(text@) },
            ),
    {
        proof {
            lemma_placed(
                self@,
                index as int,
                EntryModel { key: key@, value: JsonModel::Text(text@) },
            );
        }
        let _ = map_shift_insert(&mut self.contents, index, key.to_string(), Value::String(text));
    }

    /// Insert an entry: the key keeps its place where it is present, and goes
    /// to the end where it is new.
    pub fn insert_entry<'a>(&mut self, entry: ArbEntry<'a>)
        requires
            old(self).wf(),
        ensures
            final(self).wf(),
            final(self)@ == upsert(old(self)@, entry@),
    {
        proof {
            lemma_upsert(self@, entry@);
        }
        let _ = map_insert(&mut self.contents, entry.key().to_string(), entry.value().to_value());
    }

    /// Remove an entry, and return the value it had.
    pub fn remove(&mut self, key: &str) -> (r: Option<Value>)
        requires
            old(self).wf(),
        ensures
            final(self).wf(),
            final(self)@ == without(old(self)@, key@),
            r.is_some() == has_key(old(self)@, key@),
            r matches Some(v) ==> v@ == value_of(old(self)@, key@),
    {
        proof {
            lemma_without(self@, key@);
        }
        map_shift_remove(&mut self.contents, key)
    }

    /// Attempt to locate the placeholder names for a key: the member names of
    /// the `placeholders` object in the metadata entry `@key`. A key that is
    /// itself prefixed with an @ symbol is refused.
    pub fn placeholders<'a>(&self, key: &ArbKey<'a>) -> (r: Result<Option<Placeholders<'_>>, Error>)
        requires
            self.wf(),
        ensures
            r.is_err() == prefixed(key@),
            r matches Err(e) ==> e matches Error::AlreadyPrefixed(k) && k@ == key@,
            r matches Ok(p) ==> p.is_some() == declared(self@, key@).is_some(),
            r matches Ok(Some(p)) ==> p@ == declared(self@, key@).unwrap(),
    {
        if key.is_prefixed() {
            return Err(Error::AlreadyPrefixed(key.to_string()));
        }
        let mut meta = "@".to_owned();
        meta.append(key.as_ref());
        proof {
            reveal_strlit("@");
            assert(meta@ =~= meta_key(key@));
        }
        match self.get_index_of(meta.as_str()) {
            Some(i) => match map_at(&self.contents, i) {
                Some((_, v)) => Ok(declared_in(v)),
                None => Ok(None),
            },
            None => Ok(None),
        }
    }

    /// Get a diff of keys between files: the keys to create in `other`, the
    /// keys to delete from it, and the keys whose template value differs from
    /// the value that `cache` holds.
    pub fn diff(&self, other: &ArbFile, cache: Option<&ArbFile>) -> (d: FileDiff)
        requires
            self.wf(),
            other.wf(),
            cache matches Some(c) ==> c.wf(),
        ensures
            name_set(d.create@) == create_set(self@, other@),
            name_set(d.delete@) == delete_set(self@, other@),
            name_set(d.update@) == update_set(
                self@,
                match cache {
                    Some(c) => Some(c@),
                    None => None,
                },
            ),
            distinct_names(d.create@),
            distinct_names(d.delete@),
            distinct_names(d.update@),
    {
        let create = self.keys_missing_from(other);
        let delete = other.keys_missing_from(self);
        proof {
            assert(name_set(create@) =~= create_set(self@, other@));
            assert(name_set(delete@) =~= delete_set(self@, other@));
        }
        let update = match cache {
            Some(c) => self.keys_changed_since(c),
            None => {
                let v: Vec<String> = Vec::new();
                proof {
                    assert(name_set(v@) =~= Set::<Seq<char>>::empty());
                }
                v
            },
        };
        FileDiff { create, delete, update }
    }

    /// The keys of this bundle that `other` lacks, in this bundle's order.
    fn keys_missing_from(&self, other: &ArbFile) -> (r: Vec<String>)
        requires
            self.wf(),
            other.wf(),
        ensures
            name_set(r@) == create_set(self@, other@),
            distinct_names(r@),
    {
        let mut r: Vec<String> = Vec::new();
        let n = self.len();
        let mut i: usize = 0;
        proof {
            assert(name_set(r@) =~= create_set(self@.take(0), other@));
        }
        while i < n
            invariant
                i <= n,
                n == self@.len(),
                self.wf(),
                other.wf(),
                name_set(r@) == create_set(self@.take(i as int), other@),
                distinct_names(r@),
            decreases n - i,
        {
            match self.entry_at(i) {
                Some(e) => {
                    proof {
                        lemma_take_step(self@, i as int);
                    }
                    if other.get_index_of(e.key().as_ref()).is_none() {
                        let name = e.key().to_string();
                        proof {
                            lemma_name_set_push(r@, name);
                            assert forall|a: int, b: int| 0 <= a < b < r@.push(name).len() implies r@.push(
                                name,
                            )[a]@ != r@.push(name)[b]@ by {
                                if b == r@.len() {
                                    assert(name_set(r@).contains(r@[a]@));
                                }
                            }
                            assert(name_set(r@).insert(name@) =~= create_set(
                                self@.take(i as int + 1),
                                other@,
                            ));
                        }
                        r.push(name);
                    } else {
                        proof {
                            assert(name_set(r@) =~= create_set(self@.take(i as int + 1), other@));
                        }
                    }
                },
                None => {},
            }
            i += 1;
        }
        proof {
            assert(self@.take(n as int) =~= self@);
        }
        r
    }

    /// The keys that this bundle and `cache` both hold with values that
    /// differ, in the cache's order.
    fn keys_changed_since(&self, cache: &ArbFile) -> (r: Vec<String>)
        requires
            self.wf(),
            cache.wf(),
        ensures
            name_set(r@) == update_set(self@, Some(cache@)),
            distinct_names(r@),
    {
        let mut r: Vec<String> = Vec::new();
        let n = cache.len();
        let mut i: usize = 0;
        proof {
            assert(name_set(r@) =~= update_set(self@, Some(cache@.take(0))));
        }
        while i < n
            invariant
                i <= n,
                n == cache@.len(),
                self.wf(),
                cache.wf(),
                name_set(r@) == update_set(self@, Some(cache@.take(i as int))),
                distinct_names(r@),
            decreases n - i,
        {
            match cache.entry_at(i) {
                Some(e) => {
                    proof {
                        lemma_take_step(cache@, i as int);
                        if i > 0 {
                            lemma_take_values(cache@, i as int);
                        }
                        lemma_index_of(cache@.take(i as int + 1), i as int);
                    }
                    let changed = match self.lookup(e.key().as_ref()) {
                        Some(current) => !current.value().same(e.value()),
                        None => false,
                    };
                    if changed {
                        let name = e.key().to_string();
                        proof {
                            lemma_name_set_push(r@, name);
                            assert forall|a: int, b: int| 0 <= a < b < r@.push(name).len() implies r@.push(
                                name,
                            )[a]@ != r@.push(name)[b]@ by {
                                if b == r@.len() {
                                    assert(name_set(r@).contains(r@[a]@));
                                }
                            }
                            assert(name_set(r@).insert(name@) =~= update_set(
                                self@,
                                Some(cache@.take(i as int + 1)),
                            ));
                        }
                        r.push(name);
                    } else {
                        proof {
                            assert(name_set(r@) =~= update_set(
                                self@,
                                Some(cache@.take(i as int + 1)),
                            ));
                        }
                    }
                },
                None => {},
            }
            i += 1;
        }
        proof {
            assert(cache@.take(n as int) =~= cache@);
        }
        r
    }

    /// A copy of the bundle, entry for entry.
    pub fn duplicate(&self) -> (r: ArbFile)
        requires
            self.wf(),
        ensures
            r.wf(),
            r@ == self@,
    {
        let mut r = ArbFile::default();
        let n = self.len();
        let mut i: usize = 0;
        while i < n
            invariant
                i <= n,
                n == self@.len(),
                self.wf(),
                r.wf(),
                r@ == self@.take(i as int),
            decreases n - i,
        {
            match self.entry_at(i) {
                Some(e) => {
                    proof {
                        if has_key(r@, e@.key) {
                            let j = index_of(r@, e@.key);
                            assert(self@[j].key == self@[i as int].key);
                        }
                        assert(self@.take(i as int + 1) =~= self@.take(i as int).push(e@));
                    }
                    r.insert_entry(e);
                },
                None => {},
            }
            i += 1;
        }
        proof {
            assert(self@.take(n as int) =~= self@);
        }
        r
    }
}

} // verus!
