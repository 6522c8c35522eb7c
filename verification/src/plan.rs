//! What one synchronization run decides: which entries of the template are
//! sent to the backend, which are passed through, and what the target bundle
//! and the cache become.

use crate::api::TranslateTextResponse;
use crate::arb::{
    create_set, declared, distinct_keys, has_key, holds_name, lemma_without, name_set, placed,
    translatable, update_set, upsert, without, ArbFile,
};
use crate::cache::LangFiles;
use crate::json::{JsonModel, Value};
use crate::lang::Lang;
use crate::ordered::EntryModel;
use crate::placeholder::{first_missing, protect, restore};
use vstd::prelude::*;

verus! {

/// Variants for key invalidation.
#[derive(Debug)]
pub enum Invalidation {
    /// Invalidate all keys.
    All,
    /// Invalidate specific keys.
    Keys(Vec<String>),
}

impl Invalidation {
    /// The keys that the directive forces to be translated again.
    pub open spec fn forced(&self) -> Set<Seq<char>> {
        match self {
            Invalidation::All => Set::full(),
            Invalidation::Keys(keys) => name_set(keys@),
        }
    }

    /// The directive that the flags of a command ask for: everything where
    /// `force` is set, else the keys named, else none.
    pub fn from_flags(force: bool, keys: Vec<String>) -> (r: Option<Invalidation>)
        ensures
            force ==> r == Some(Invalidation::All),
            !force && keys@.len() > 0 ==> r == Some(Invalidation::Keys(keys)),
            !force && keys@.len() == 0 ==> r.is_none(),
    {
        if force {
            Some(Invalidation::All)
        } else if keys.len() > 0 {
            Some(Invalidation::Keys(keys))
        } else {
            None
        }
    }

    /// Whether the directive forces `key` to be translated again.
    pub fn covers(&self, key: &str) -> (r: bool)
        ensures
            r == self.forced().contains(key@),
    {
        match self {
            Invalidation::All => true,
            Invalidation::Keys(keys) => holds_name(keys, key),
        }
    }
}

/// What becomes of the languages that are left when the run of one
/// language has failed.
#[derive(Debug, Copy, Clone, PartialEq, Eq, Structural)]
pub enum FailurePolicy {
    /// The first failure ends the whole invocation.
    Abort,
    /// A failure ends the run of its own language alone.
    Isolate,
}

impl Default for FailurePolicy {
    fn default() -> (r: Self)
        ensures
            r == FailurePolicy::Abort,
    {
        FailurePolicy::Abort
    }
}

impl FailurePolicy {
    /// The policy that a command asks for: to isolate failures where it is
    /// told to keep going, else to abort.
    pub fn from_flag(keep_going: bool) -> (r: Self)
        ensures
            r == (if keep_going {
                FailurePolicy::Isolate
            } else {
                FailurePolicy::Abort
            }),
    {
        if keep_going {
            FailurePolicy::Isolate
        } else {
            FailurePolicy::Abort
        }
    }

    /// Whether the invocation goes on to the next language after a run that
    /// has failed or not.
    pub fn goes_on(&self, failed: bool) -> (r: bool)
        ensures
            r == (!failed || *self == FailurePolicy::Isolate),
    {
        !failed || *self == FailurePolicy::Isolate
    }
}

/// Options for translation.
#[derive(Debug)]
pub struct TranslationOptions {
    /// Target language.
    pub target_lang: Lang,
    /// Whether this is a dry run: everything is computed, and nothing is
    /// queued for the backend.
    pub dry_run: bool,
    /// Invalidation configuration.
    pub invalidation: Option<Invalidation>,
    /// Overrides provided by humans, by language.
    pub overrides: Option<LangFiles>,
    /// Disable updating the cache.
    pub disable_cache: bool,
}

impl TranslationOptions {
    /// Create new translation options: no dry run, nothing invalidated, no
    /// overrides, and the cache enabled.
    pub fn new(target_lang: Lang) -> (r: Self)
        ensures
            r.target_lang == target_lang,
            !r.dry_run,
            r.invalidation.is_none(),
            r.overrides.is_none(),
            !r.disable_cache,
            r.wf(),
    {
        Self { target_lang, dry_run: false, invalidation: None, overrides: None, disable_cache: false }
    }

    /// The options are well-formed when the override bundles are.
    pub open spec fn wf(&self) -> bool {
        self.overrides matches Some(o) ==> o.wf()
    }

    /// The keys that the options force to be translated again.
    pub open spec fn forced(&self) -> Set<Seq<char>> {
        match self.invalidation {
            Some(i) => i.forced(),
            None => Set::empty(),
        }
    }

    /// The override bundle for the target language, if there is one.
    pub open spec fn overriding(&self) -> Option<Seq<EntryModel>> {
        match self.overrides {
            Some(o) => if o@.contains_key(self.target_lang) {
                Some(o@[self.target_lang])
            } else {
                None
            },
            None => None,
        }
    }
}

/// The model of a staged entry.
pub enum StagedModel {
    /// Entry to pass through to the output.
    Entry(EntryModel),
    /// Entry to translate.
    Translate {
        /// Key of the entry.
        key: Seq<char>,
        /// Names of the placeholders.
        names: Option<Seq<Seq<char>>>,
        /// Position at which a new key is inserted.
        index: Option<int>,
    },
}

/// The inputs of one synchronization run, as models.
pub struct SyncModel {
    /// The template bundle.
    pub template: Seq<EntryModel>,
    /// The target bundle as it was found.
    pub target: Seq<EntryModel>,
    /// The cached bundle of the target language, if the cache has one.
    pub cache: Option<Seq<EntryModel>>,
    /// The keys forced to be translated again.
    pub forced: Set<Seq<char>>,
    /// The override bundle of the target language, if there is one.
    pub overrides: Option<Seq<EntryModel>>,
    /// Whether this is a dry run.
    pub dry_run: bool,
    /// Whether the cache is left alone.
    pub disable_cache: bool,
}

/// `s` without the keys of `target[..n]` that `template` lacks.
pub open spec fn pruned(
    s: Seq<EntryModel>,
    target: Seq<EntryModel>,
    template: Seq<EntryModel>,
    n: int,
) -> Seq<EntryModel>
    decreases n,
{
    if n <= 0 {
        s
    } else if has_key(template, target[n - 1].key) {
        pruned(s, target, template, n - 1)
    } else {
        without(pruned(s, target, template, n - 1), target[n - 1].key)
    }
}

/// `s` after an insert-or-overwrite of each entry of `extra[..n]`, in turn.
pub open spec fn with_all(s: Seq<EntryModel>, extra: Seq<EntryModel>, n: int) -> Seq<EntryModel>
    decreases n,
{
    if n <= 0 {
        s
    } else {
        upsert(with_all(s, extra, n - 1), extra[n - 1])
    }
}

/// The number of entries to translate among `staged`.
pub open spec fn count_queued(staged: Seq<StagedModel>) -> nat
    decreases staged.len(),
{
    if staged.len() == 0 {
        0
    } else {
        count_queued(staged.drop_last()) + if staged.last() is Translate {
            1nat
        } else {
            0nat
        }
    }
}

/// The entry that a translation becomes: the reply with its placeholders
/// restored, under the staged key.
pub open spec fn translated_entry(item: StagedModel, reply: Seq<char>) -> EntryModel {
    EntryModel {
        key: item->key,
        value: JsonModel::Text(
            match item->names {
                Some(names) => restore(reply, names),
                None => reply,
            },
        ),
    }
}

/// `out` after the translation of one staged entry has landed in it: at the
/// recorded position where the key is new and the position exists, else as an
/// insert-or-overwrite.
pub open spec fn landed(out: Seq<EntryModel>, item: StagedModel, reply: Seq<char>) -> Seq<
    EntryModel,
> {
    match item->index {
        Some(i) => if i < out.len() {
            placed(out, i, translated_entry(item, reply))
        } else {
            upsert(out, translated_entry(item, reply))
        },
        None => upsert(out, translated_entry(item, reply)),
    }
}

/// `out` after the translations of `staged` have landed in it, in order; the
/// n-th entry to translate takes the n-th reply.
pub open spec fn with_translations(
    out: Seq<EntryModel>,
    staged: Seq<StagedModel>,
    replies: Seq<Seq<char>>,
) -> Seq<EntryModel>
    decreases staged.len(),
{
    if staged.len() == 0 {
        out
    } else if staged.last() is Translate {
        landed(
            with_translations(out, staged.drop_last(), replies),
            staged.last(),
            replies[count_queued(staged.drop_last()) as int],
        )
    } else {
        with_translations(out, staged.drop_last(), replies)
    }
}

/// `out` after the pass-through entries of `staged` have been applied, in order.
pub open spec fn with_passed(out: Seq<EntryModel>, staged: Seq<StagedModel>) -> Seq<EntryModel>
    decreases staged.len(),
{
    if staged.len() == 0 {
        out
    } else if staged.last() is Entry {
        upsert(with_passed(out, staged.drop_last()), staged.last()->Entry_0)
    } else {
        with_passed(out, staged.drop_last())
    }
}

impl SyncModel {
    /// The inputs are well-formed when no bundle holds a key twice.
    pub open spec fn wf(self) -> bool {
        &&& distinct_keys(self.template)
        &&& distinct_keys(self.target)
        &&& (self.cache matches Some(c) ==> distinct_keys(c))
        &&& (self.overrides matches Some(o) ==> distinct_keys(o))
    }

    /// The template entry at `i` is due: it is forced, or its key is to be
    /// created or updated.
    pub open spec fn due(self, i: int) -> bool {
        let k = self.template[i].key;
        self.forced.contains(k) || create_set(self.template, self.target).contains(k)
            || update_set(self.template, self.cache).contains(k)
    }

    /// An override covers `key`.
    pub open spec fn overridden(self, key: Seq<char>) -> bool {
        &&& self.overrides matches Some(o)
        &&& has_key(o, key)
    }

    /// The template entry at `i` is staged: it is due and no override covers it.
    pub open spec fn active(self, i: int) -> bool {
        self.due(i) && !self.overridden(self.template[i].key)
    }

    /// The template entry at `i` has its placeholders checked.
    pub open spec fn checked(self, i: int) -> bool {
        self.active(i) && translatable(self.template[i])
    }

    /// The template entry at `i` is sent to the backend.
    pub open spec fn queued(self, i: int) -> bool {
        self.checked(i) && !self.dry_run
    }

    /// The text of the template entry at `i`.
    pub open spec fn text_at(self, i: int) -> Seq<char> {
        self.template[i].value->Text_0
    }

    /// The placeholder names declared for the template entry at `i`.
    pub open spec fn names_at(self, i: int) -> Option<Seq<Seq<char>>> {
        declared(self.template, self.template[i].key)
    }

    /// The template entry at `i` declares a placeholder that its text lacks.
    pub open spec fn faulty(self, i: int) -> bool {
        &&& self.checked(i)
        &&& self.names_at(i) matches Some(names)
        &&& first_missing(self.text_at(i), names).is_some()
    }

    /// The first faulty entry among the first `n` of the template.
    pub open spec fn first_fault(self, n: int) -> Option<int>
        decreases n,
    {
        if n <= 0 {
            None
        } else {
            match self.first_fault(n - 1) {
                Some(i) => Some(i),
                None => if self.faulty(n - 1) {
                    Some(n - 1)
                } else {
                    None
                },
            }
        }
    }

    /// The text of the template entry at `i` as the backend gets it: with its
    /// declared placeholders protected.
    pub open spec fn protected_at(self, i: int) -> Seq<char> {
        match self.names_at(i) {
            Some(names) => protect(self.text_at(i), names),
            None => self.text_at(i),
        }
    }

    /// What is staged for the template entry at `i`, which is active.
    pub open spec fn staged_item(self, i: int) -> StagedModel {
        if self.queued(i) {
            StagedModel::Translate {
                key: self.template[i].key,
                names: self.names_at(i),
                index: if create_set(self.template, self.target).contains(self.template[i].key) {
                    Some(i)
                } else {
                    None
                },
            }
        } else {
            StagedModel::Entry(self.template[i])
        }
    }

    /// What is staged for the first `n` entries of the template, in order.
    pub open spec fn staged(self, n: int) -> Seq<StagedModel>
        decreases n,
    {
        if n <= 0 {
            Seq::empty()
        } else if self.active(n - 1) {
            self.staged(n - 1).push(self.staged_item(n - 1))
        } else {
            self.staged(n - 1)
        }
    }

    /// The batch for the backend from the first `n` entries of the template.
    pub open spec fn batch(self, n: int) -> Seq<Seq<char>>
        decreases n,
    {
        if n <= 0 {
            Seq::empty()
        } else if self.queued(n - 1) {
            self.batch(n - 1).push(self.protected_at(n - 1))
        } else {
            self.batch(n - 1)
        }
    }

    /// The cached bundle of the target language after the source text of each
    /// queued entry among the first `n` of the template has been recorded.
    pub open spec fn recorded(self, n: int) -> Option<Seq<EntryModel>>
        decreases n,
    {
        if n <= 0 {
            self.cache
        } else if self.queued(n - 1) {
            match self.recorded(n - 1) {
                Some(c) => Some(upsert(c, self.template[n - 1])),
                None => Some(seq![self.template[n - 1]]),
            }
        } else {
            self.recorded(n - 1)
        }
    }

    /// The cached bundle of the target language after the run: the queued
    /// source texts recorded and the deleted keys forgotten; as it was where
    /// the cache is disabled.
    pub open spec fn cache_after(self) -> Option<Seq<EntryModel>> {
        if self.disable_cache {
            self.cache
        } else {
            match self.recorded(self.template.len() as int) {
                Some(c) => Some(pruned(c, self.target, self.template, self.target.len() as int)),
                None => None,
            }
        }
    }

    /// Everything staged for the template.
    pub open spec fn all_staged(self) -> Seq<StagedModel> {
        self.staged(self.template.len() as int)
    }

    /// The whole batch for the backend.
    pub open spec fn whole_batch(self) -> Seq<Seq<char>> {
        self.batch(self.template.len() as int)
    }

    /// The target bundle without the keys that the template lacks.
    pub open spec fn cleared(self) -> Seq<EntryModel> {
        pruned(self.target, self.target, self.template, self.target.len() as int)
    }

    /// The target bundle after the translations have landed.
    pub open spec fn translated(self, replies: Seq<Seq<char>>) -> Seq<EntryModel> {
        with_translations(self.cleared(), self.all_staged(), replies)
    }

    /// The target bundle after the translations and the pass-through entries.
    pub open spec fn merged(self, replies: Seq<Seq<char>>) -> Seq<EntryModel> {
        with_passed(self.translated(replies), self.all_staged())
    }

    /// The target bundle after the run: the deleted keys removed, the
    /// translations landed, the pass-through entries applied, and last the
    /// overrides written over all of it.
    pub open spec fn outcome(self, replies: Seq<Seq<char>>) -> Seq<EntryModel> {
        match self.overrides {
            Some(o) => with_all(self.merged(replies), o, o.len() as int),
            None => self.merged(replies),
        }
    }
}

/// Entry staged by a run, until the backend has answered.
#[derive(Debug)]
pub enum Staged {
    /// Entry to passthrough to the output.
    ///
    /// Typically used for meta data or comments prefixed
    /// with the @ symbol.
    Entry {
        /// Key of the entry.
        key: String,
        /// Value of the entry.
        value: Value,
    },
    /// Entry to translate.
    Translate {
        /// Key of the entry.
        key: String,
        /// Names of the placeholders.
        names: Option<Vec<String>>,
        /// Specific index to insert.
        index: Option<usize>,
    },
}

/// The texts of `names`, in order.
pub open spec fn texts_of(names: Seq<String>) -> Seq<Seq<char>> {
    names.map_values(|s: String| s@)
}

impl View for Staged {
    type V = StagedModel;

    open spec fn view(&self) -> StagedModel {
        match self {
            Staged::Entry { key, value } => StagedModel::Entry(
                EntryModel { key: key@, value: value@ },
            ),
            Staged::Translate { key, names, index } => StagedModel::Translate {
                key: key@,
                names: match names {
                    Some(n) => Some(texts_of(n@)),
                    None => None,
                },
                index: match index {
                    Some(i) => Some(*i as int),
                    None => None,
                },
            },
        }
    }
}

/// The models of `staged`, in order.
pub open spec fn staged_models(staged: Seq<Staged>) -> Seq<StagedModel> {
    staged.map_values(|s: Staged| s@)
}


/// `s` without each of the keys `keys[..n]`, taken out in turn.
pub open spec fn without_keys(s: Seq<EntryModel>, keys: Seq<Seq<char>>, n: int) -> Seq<EntryModel>
    decreases n,
{
    if n <= 0 {
        s
    } else {
        without(without_keys(s, keys, n - 1), keys[n - 1])
    }
}

/// The keys of `target[..n]` that `template` lacks, in order.
pub open spec fn doomed(target: Seq<EntryModel>, template: Seq<EntryModel>, n: int) -> Seq<
    Seq<char>,
>
    decreases n,
{
    if n <= 0 {
        Seq::empty()
    } else if has_key(template, target[n - 1].key) {
        doomed(target, template, n - 1)
    } else {
        doomed(target, template, n - 1).push(target[n - 1].key)
    }
}

/// Taking out the doomed keys one by one is pruning.
pub proof fn lemma_doomed(s: Seq<EntryModel>, target: Seq<EntryModel>, template: Seq<EntryModel>, n: int)
    requires
        0 <= n <= target.len(),
    ensures
        without_keys(s, doomed(target, template, n), doomed(target, template, n).len() as int)
            == pruned(s, target, template, n),
    decreases n,
{
    if n > 0 {
        lemma_doomed(s, target, template, n - 1);
        let before = doomed(target, template, n - 1);
        if !has_key(template, target[n - 1].key) {
            let now = before.push(target[n - 1].key);
            lemma_without_keys_prefix(s, before, now, before.len() as int);
        }
    }
}

/// Taking keys out depends on the keys taken out alone.
pub proof fn lemma_without_keys_prefix(
    s: Seq<EntryModel>,
    a: Seq<Seq<char>>,
    b: Seq<Seq<char>>,
    n: int,
)
    requires
        0 <= n <= a.len(),
        n <= b.len(),
        forall|i: int| 0 <= i < n ==> a[i] == b[i],
    ensures
        without_keys(s, a, n) == without_keys(s, b, n),
    decreases n,
{
    if n > 0 {
        lemma_without_keys_prefix(s, a, b, n - 1);
    }
}

/// Taking keys out keeps the keys distinct.
pub proof fn lemma_without_keys_wf(s: Seq<EntryModel>, keys: Seq<Seq<char>>, n: int)
    requires
        distinct_keys(s),
        0 <= n <= keys.len(),
    ensures
        distinct_keys(without_keys(s, keys, n)),
    decreases n,
{
    if n > 0 {
        lemma_without_keys_wf(s, keys, n - 1);
        lemma_without(without_keys(s, keys, n - 1), keys[n - 1]);
    }
}

/// The entries to translate among a prefix are no more than among the whole,
/// and one more entry adds one where it is to be translated.
pub proof fn lemma_count_queued(staged: Seq<StagedModel>, i: int)
    requires
        0 <= i <= staged.len(),
    ensures
        count_queued(staged.take(i)) <= count_queued(staged),
        i < staged.len() ==> count_queued(staged.take(i + 1)) == count_queued(staged.take(i)) + (
        if staged[i] is Translate {
            1nat
        } else {
            0nat
        }),
    decreases staged.len() - i,
{
    if i < staged.len() {
        assert(staged.take(i + 1).drop_last() =~= staged.take(i));
        lemma_count_queued(staged, i + 1);
    } else {
        assert(staged.take(i) =~= staged);
    }
}

impl SyncModel {
    /// The batch holds one text for each entry staged to be translated.
    pub proof fn lemma_batch_len(self, n: int)
        ensures
            self.batch(n).len() == count_queued(self.staged(n)),
        decreases n,
    {
        if n > 0 {
            self.lemma_batch_len(n - 1);
            if self.active(n - 1) {
                assert(self.staged(n).drop_last() =~= self.staged(n - 1));
            }
        }
    }

    /// Where `first_fault` finds nothing among the first `n` entries, none of
    /// them is faulty; what it finds is the least faulty entry.
    pub proof fn lemma_first_fault(self, n: int)
        ensures
            match self.first_fault(n) {
                Some(i) => 0 <= i < n && self.faulty(i) && forall|j: int|
                    0 <= j < i ==> !self.faulty(j),
                None => forall|j: int| 0 <= j < n ==> !self.faulty(j),
            },
        decreases n,
    {
        if n > 0 {
            self.lemma_first_fault(n - 1);
        }
    }
}

/// The inputs of a run as a model: the bundles, the cached bundle and the
/// override bundle of the target language, and the flags.
pub open spec fn sync_model(
    template: Seq<EntryModel>,
    target: Seq<EntryModel>,
    cache: Map<Lang, Seq<EntryModel>>,
    options: TranslationOptions,
) -> SyncModel {
    SyncModel {
        template,
        target,
        cache: if cache.contains_key(options.target_lang) {
            Some(cache[options.target_lang])
        } else {
            None
        },
        forced: options.forced(),
        overrides: options.overriding(),
        dry_run: options.dry_run,
        disable_cache: options.disable_cache,
    }
}

/// The model of an optional bundle.
pub open spec fn file_model(f: Option<ArbFile>) -> Option<Seq<EntryModel>> {
    match f {
        Some(f) => Some(f@),
        None => None,
    }
}

/// The number of translations in a backend's answer; none where there was
/// no answer.
pub open spec fn reply_count(response: Option<TranslateTextResponse>) -> nat {
    match response {
        Some(r) => r.translations@.len(),
        None => 0,
    }
}

/// The translated texts of a backend's answer, in order.
pub open spec fn replies_of(response: Option<TranslateTextResponse>) -> Seq<Seq<char>> {
    match response {
        Some(r) => Seq::new(r.translations@.len(), |i: int| r.translations@[i].text@),
        None => Seq::empty(),
    }
}

/// The model of an optional borrowed bundle.
pub open spec fn file_model_ref(f: Option<&ArbFile>) -> Option<Seq<EntryModel>> {
    match f {
        Some(f) => Some(f@),
        None => None,
    }
}

/// A fault found among the first `a` entries is the fault found among more.
pub proof fn lemma_fault_stays(m: SyncModel, a: int, b: int)
    requires
        0 <= a <= b,
        m.first_fault(a).is_some(),
    ensures
        m.first_fault(b) == m.first_fault(a),
    decreases b - a,
{
    if a < b {
        lemma_fault_stays(m, a, b - 1);
    }
}

} // verus!
