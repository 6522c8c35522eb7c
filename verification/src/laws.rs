//! What holds of every run, proved from the definitions of the other modules.

use crate::arb::{
    create_set, delete_set, distinct_keys, has_key, index_of, key_set, lemma_has_key,
    lemma_index_of, lemma_placed, lemma_upsert, lemma_without, placed, update_set, upsert,
    value_of, without,
};
use crate::placeholder::{marker, protect, restore, token};
use crate::ordered::EntryModel;
use crate::plan::{
    count_queued, landed, pruned, translated_entry, with_all, with_passed, with_translations,
    StagedModel, SyncModel,
};
use crate::text::{contains, lemma_replace_first_places, replace_first};
use vstd::prelude::*;

verus! {

/// The keys to create are the template's keys without the target's, the keys
/// to delete are the target's keys without the template's, and no key is
/// both to create and to delete.
pub proof fn law_create_and_delete(template: Seq<EntryModel>, target: Seq<EntryModel>)
    ensures
        create_set(template, target) == key_set(template).difference(key_set(target)),
        delete_set(template, target) == key_set(target).difference(key_set(template)),
        create_set(template, target).disjoint(delete_set(template, target)),
{
    assert(create_set(template, target) =~= key_set(template).difference(key_set(target)));
    assert(delete_set(template, target) =~= key_set(target).difference(key_set(template)));
}

/// A key that the template and the cache both hold with values that differ is
/// to update, whatever the target bundle holds: it may be to create as well,
/// and it is never to delete.
pub proof fn law_update_is_independent(
    template: Seq<EntryModel>,
    target: Seq<EntryModel>,
    cache: Seq<EntryModel>,
    key: Seq<char>,
)
    requires
        has_key(template, key),
        has_key(cache, key),
        value_of(template, key) != value_of(cache, key),
    ensures
        update_set(template, Some(cache)).contains(key),
        create_set(template, target).contains(key) == !has_key(target, key),
        !delete_set(template, target).contains(key),
{
}

/// A text that holds the token of a placeholder holds it again after the
/// placeholder has been protected and restored, with nothing done to the
/// text in between.
pub proof fn law_round_trip(text: Seq<char>, name: Seq<char>)
    requires
        contains(text, token(name)),
    ensures
        contains(protect(text, seq![name]), marker(name)),
        contains(restore(protect(text, seq![name]), seq![name]), token(name)),
{
    let names = seq![name];
    assert(names.drop_last() =~= Seq::<Seq<char>>::empty());
    assert(names.last() == name);
    assert(protect(text, names.drop_last()) == text);
    let shielded = protect(text, names);
    assert(shielded == replace_first(text, token(name), marker(name)));
    lemma_replace_first_places(text, token(name), marker(name));
    assert(restore(shielded, names.drop_last()) == shielded);
    assert(restore(shielded, names) == replace_first(shielded, marker(name), token(name)));
    lemma_replace_first_places(shielded, marker(name), token(name));
}


/// Pruning keeps the keys distinct, adds no key, and keeps every key that
/// the template holds, with its value.
pub proof fn lemma_pruned(
    s: Seq<EntryModel>,
    target: Seq<EntryModel>,
    template: Seq<EntryModel>,
    n: int,
)
    requires
        distinct_keys(s),
        0 <= n <= target.len(),
    ensures
        distinct_keys(pruned(s, target, template, n)),
        forall|k: Seq<char>| has_key(pruned(s, target, template, n), k) ==> has_key(s, k),
        forall|k: Seq<char>|
            has_key(template, k) && has_key(s, k) ==> has_key(pruned(s, target, template, n), k)
                && value_of(pruned(s, target, template, n), k) == value_of(s, k),
    decreases n,
{
    if n > 0 {
        lemma_pruned(s, target, template, n - 1);
        let before = pruned(s, target, template, n - 1);
        if !has_key(template, target[n - 1].key) {
            lemma_without(before, target[n - 1].key);
        }
    }
}

/// Writing entries over a bundle keeps the keys distinct, keeps every key
/// where it stands, and leaves each written key with the value written.
pub proof fn lemma_with_all(s: Seq<EntryModel>, extra: Seq<EntryModel>, n: int)
    requires
        distinct_keys(s),
        distinct_keys(extra),
        0 <= n <= extra.len(),
    ensures
        distinct_keys(with_all(s, extra, n)),
        forall|k: Seq<char>|
            has_key(s, k) ==> has_key(with_all(s, extra, n), k) && index_of(
                with_all(s, extra, n),
                k,
            ) == index_of(s, k),
        forall|j: int|
            0 <= j < n ==> has_key(with_all(s, extra, n), #[trigger] extra[j].key) && value_of(
                with_all(s, extra, n),
                extra[j].key,
            ) == extra[j].value,
    decreases n,
{
    if n > 0 {
        lemma_with_all(s, extra, n - 1);
        let before = with_all(s, extra, n - 1);
        let e = extra[n - 1];
        lemma_upsert(before, e);
        assert forall|j: int| 0 <= j < n implies has_key(
            with_all(s, extra, n),
            #[trigger] extra[j].key,
        ) && value_of(with_all(s, extra, n), extra[j].key) == extra[j].value by {
            if j < n - 1 {
                assert(extra[j].key != e.key);
            }
        }
    }
}

/// Applying the pass-through entries keeps the keys distinct and keeps every
/// key where it stands.
pub proof fn lemma_with_passed(out: Seq<EntryModel>, staged: Seq<StagedModel>)
    requires
        distinct_keys(out),
    ensures
        distinct_keys(with_passed(out, staged)),
        forall|k: Seq<char>|
            has_key(out, k) ==> has_key(with_passed(out, staged), k) && index_of(
                with_passed(out, staged),
                k,
            ) == index_of(out, k),
    decreases staged.len(),
{
    if staged.len() > 0 {
        lemma_with_passed(out, staged.drop_last());
        if staged.last() is Entry {
            lemma_upsert(with_passed(out, staged.drop_last()), staged.last()->Entry_0);
        }
    }
}

/// Every recorded position of `staged` is a position: none is negative.
pub open spec fn positions_valid(staged: Seq<StagedModel>) -> bool {
    forall|j: int|
        0 <= j < staged.len() && (#[trigger] staged[j]) is Translate ==> (staged[j]->index matches Some(
            i,
        ) ==> i >= 0)
}

/// A translation that lands keeps the keys distinct and adds its own key at most.
pub proof fn lemma_landed(out: Seq<EntryModel>, item: StagedModel, reply: Seq<char>)
    requires
        distinct_keys(out),
        item is Translate,
        item->index matches Some(i) ==> i >= 0,
    ensures
        distinct_keys(landed(out, item, reply)),
        has_key(landed(out, item, reply), item->key),
        forall|k: Seq<char>| k != item->key ==> has_key(landed(out, item, reply), k) == has_key(out, k),
{
    let e = translated_entry(item, reply);
    lemma_upsert(out, e);
    lemma_without(out, e.key);
    if let Some(i) = item->index {
        if i < out.len() {
            if has_key(out, e.key) {
                lemma_has_key(out, e.key);
            }
            lemma_placed(out, i, e);
        }
    }
}

/// Landing the translations keeps the keys distinct.
pub proof fn lemma_with_translations(
    out: Seq<EntryModel>,
    staged: Seq<StagedModel>,
    replies: Seq<Seq<char>>,
)
    requires
        distinct_keys(out),
        positions_valid(staged),
    ensures
        distinct_keys(with_translations(out, staged, replies)),
    decreases staged.len(),
{
    if staged.len() > 0 {
        assert forall|j: int|
            0 <= j < staged.drop_last().len() && (#[trigger] staged.drop_last()[j]) is Translate implies (
        staged.drop_last()[j]->index matches Some(i) ==> i >= 0) by {
            assert(staged.drop_last()[j] == staged[j]);
        }
        lemma_with_translations(out, staged.drop_last(), replies);
        if staged.last() is Translate {
            assert(staged[staged.len() - 1] is Translate);
            lemma_landed(
                with_translations(out, staged.drop_last(), replies),
                staged.last(),
                replies[count_queued(staged.drop_last()) as int],
            );
        }
    }
}

impl SyncModel {
    /// The target bundle with the translations of the first `n` entries of
    /// the template landed in it.
    pub open spec fn landed_upto(self, replies: Seq<Seq<char>>, n: int) -> Seq<EntryModel> {
        with_translations(self.cleared(), self.staged(n), replies)
    }

    /// What is staged records positions of the template alone.
    pub proof fn lemma_staged_positions(self, n: int)
        ensures
            positions_valid(self.staged(n)),
        decreases n,
    {
        if n > 0 {
            self.lemma_staged_positions(n - 1);
            if self.active(n - 1) {
                let now = self.staged(n);
                let before = self.staged(n - 1);
                assert forall|j: int| 0 <= j < now.len() && (#[trigger] now[j]) is Translate implies (
                now[j]->index matches Some(i) ==> i >= 0) by {
                    if j < before.len() {
                        assert(now[j] == before[j]);
                    }
                }
            }
        }
    }

    /// One more entry of the template lands its translation where it is
    /// queued, and changes nothing where it is not.
    pub proof fn lemma_landed_step(self, replies: Seq<Seq<char>>, n: int)
        requires
            n > 0,
        ensures
            self.queued(n - 1) ==> self.landed_upto(replies, n) == landed(
                self.landed_upto(replies, n - 1),
                self.staged_item(n - 1),
                replies[count_queued(self.staged(n - 1)) as int],
            ),
            !self.queued(n - 1) ==> self.landed_upto(replies, n) == self.landed_upto(
                replies,
                n - 1,
            ),
    {
        if self.active(n - 1) {
            assert(self.staged(n).drop_last() =~= self.staged(n - 1));
            assert(self.staged(n).last() == self.staged_item(n - 1));
        }
    }

    /// After the first `n` entries of the template, the target bundle holds
    /// distinct keys, each from the target bundle or from those entries.
    pub proof fn lemma_landed_keys(self, replies: Seq<Seq<char>>, n: int)
        requires
            self.wf(),
            0 <= n <= self.template.len(),
        ensures
            distinct_keys(self.landed_upto(replies, n)),
            forall|k: Seq<char>|
                has_key(self.landed_upto(replies, n), k) ==> has_key(self.target, k) || has_key(
                    self.template.take(n),
                    k,
                ),
        decreases n,
    {
        lemma_pruned(self.target, self.target, self.template, self.target.len() as int);
        if n > 0 {
            self.lemma_landed_keys(replies, n - 1);
            self.lemma_landed_step(replies, n);
            let before = self.landed_upto(replies, n - 1);
            let now = self.landed_upto(replies, n);
            assert(self.template.take(n)[n - 1].key == self.template[n - 1].key);
            assert forall|k: Seq<char>| has_key(self.template.take(n - 1), k) implies has_key(
                self.template.take(n),
                k,
            ) by {
                let j = index_of(self.template.take(n - 1), k);
                assert(self.template.take(n)[j].key == k);
            }
            if self.queued(n - 1) {
                lemma_landed(
                    before,
                    self.staged_item(n - 1),
                    replies[count_queued(self.staged(n - 1)) as int],
                );
            }
        }
    }
}

/// A dry run that is repeated classifies every key as it did the first time:
/// the run changes neither the template nor the target bundle, and what it
/// leaves in the cache gives the same keys to update.
pub proof fn law_dry_run_is_idempotent(m: SyncModel)
    requires
        m.wf(),
        m.dry_run,
    ensures
        m.whole_batch().len() == 0,
        update_set(m.template, m.cache_after()) == update_set(m.template, m.cache),
        forall|i: int|
            0 <= i < m.template.len() ==> (SyncModel { cache: m.cache_after(), ..m }).active(i)
                == m.active(i),
        (SyncModel { cache: m.cache_after(), ..m }).all_staged() == m.all_staged(),
{
    lemma_dry_run_records_nothing(m, m.template.len() as int);
    if !m.disable_cache {
        if let Some(c) = m.cache {
            lemma_pruned(c, m.target, m.template, m.target.len() as int);
        }
    }
    assert(update_set(m.template, m.cache_after()) =~= update_set(m.template, m.cache));
    lemma_same_staging(m, SyncModel { cache: m.cache_after(), ..m }, m.template.len() as int);
}

/// Two runs over the same bundles, with the same overrides and flags, that
/// have the same keys to update stage the same entries.
pub proof fn lemma_same_staging(a: SyncModel, b: SyncModel, n: int)
    requires
        a.template == b.template,
        a.target == b.target,
        a.forced == b.forced,
        a.overrides == b.overrides,
        a.dry_run == b.dry_run,
        update_set(a.template, a.cache) == update_set(b.template, b.cache),
        n <= a.template.len(),
    ensures
        a.staged(n) == b.staged(n),
        a.batch(n) == b.batch(n),
    decreases n,
{
    if n > 0 {
        lemma_same_staging(a, b, n - 1);
    }
}

/// A dry run queues nothing and records nothing.
pub proof fn lemma_dry_run_records_nothing(m: SyncModel, n: int)
    requires
        m.dry_run,
    ensures
        m.batch(n).len() == 0,
        m.recorded(n) == m.cache,
    decreases n,
{
    if n > 0 {
        lemma_dry_run_records_nothing(m, n - 1);
    }
}

/// A key that an override covers is not sent to the backend, and the new
/// target bundle holds it with the override's value, whatever else the run
/// did with the key.
pub proof fn law_override_wins(m: SyncModel, replies: Seq<Seq<char>>, key: Seq<char>)
    requires
        m.wf(),
        m.overridden(key),
    ensures
        forall|i: int| 0 <= i < m.template.len() && m.template[i].key == key ==> !m.queued(i),
        has_key(m.outcome(replies), key),
        value_of(m.outcome(replies), key) == value_of(m.overrides.unwrap(), key),
{
    let n = m.template.len() as int;
    m.lemma_staged_positions(n);
    m.lemma_landed_keys(replies, n);
    lemma_with_passed(m.translated(replies), m.all_staged());
    let o = m.overrides.unwrap();
    lemma_with_all(m.merged(replies), o, o.len() as int);
    lemma_has_key(o, key);
    let j = index_of(o, key);
    assert(o[j].key == key);
}


/// An entry put behind a key leaves the key where it stands.
pub proof fn lemma_insert_behind(s: Seq<EntryModel>, at: int, e: EntryModel, k: Seq<char>)
    requires
        distinct_keys(s),
        !has_key(s, e.key),
        has_key(s, k),
        index_of(s, k) < at <= s.len(),
    ensures
        placed(s, at, e) == s.insert(at, e),
        has_key(placed(s, at, e), k),
        index_of(placed(s, at, e), k) == index_of(s, k),
{
    lemma_has_key(s, k);
    lemma_placed(s, at, e);
    let t = placed(s, at, e);
    let p = index_of(s, k);
    assert(t[p] == s[p]);
    lemma_index_of(t, p);
}

impl SyncModel {
    /// The key of the template entry at `n` is in no entry before it.
    pub proof fn lemma_key_is_new(self, n: int)
        requires
            self.wf(),
            0 <= n < self.template.len(),
        ensures
            !has_key(self.template.take(n), self.template[n].key),
    {
        if has_key(self.template.take(n), self.template[n].key) {
            let j = index_of(self.template.take(n), self.template[n].key);
            assert(self.template[j].key == self.template[n].key);
        }
    }

    /// A new key that has landed at its template position stays there while
    /// the translations of the later entries land.
    pub proof fn lemma_position_stays(self, replies: Seq<Seq<char>>, i: int, n: int)
        requires
            self.wf(),
            0 <= i < n <= self.template.len(),
            self.queued(i),
            create_set(self.template, self.target).contains(self.template[i].key),
            i <= self.landed_upto(replies, i).len(),
        ensures
            has_key(self.landed_upto(replies, n), self.template[i].key),
            index_of(self.landed_upto(replies, n), self.template[i].key) == i,
        decreases n,
    {
        let k = self.template[i].key;
        self.lemma_landed_keys(replies, n - 1);
        self.lemma_landed_step(replies, n);
        self.lemma_key_is_new(n - 1);
        let before = self.landed_upto(replies, n - 1);
        let item = self.staged_item(n - 1);
        let e = translated_entry(item, replies[count_queued(self.staged(n - 1)) as int]);
        if n == i + 1 {
            assert(!has_key(before, k));
            assert(item->index == Some(i));
            if i < before.len() {
                lemma_placed(before, i, e);
            } else {
                lemma_upsert(before, e);
            }
        } else {
            self.lemma_position_stays(replies, i, n - 1);
            if self.queued(n - 1) {
                assert(e.key != k);
                lemma_upsert(before, e);
                if create_set(self.template, self.target).contains(self.template[n - 1].key) {
                    assert(!has_key(before, e.key));
                    if n - 1 < before.len() {
                        lemma_insert_behind(before, n - 1, e, k);
                    }
                }
            }
        }
    }
}

/// A key that the run creates lands at its position in the template and is
/// found there in the new target bundle, provided that the target bundle
/// holds at least that many entries when the key's translation lands.
pub proof fn law_new_key_position(m: SyncModel, replies: Seq<Seq<char>>, i: int)
    requires
        m.wf(),
        0 <= i < m.template.len(),
        m.queued(i),
        create_set(m.template, m.target).contains(m.template[i].key),
        i <= m.landed_upto(replies, i).len(),
    ensures
        has_key(m.outcome(replies), m.template[i].key),
        index_of(m.outcome(replies), m.template[i].key) == i,
{
    let n = m.template.len() as int;
    m.lemma_position_stays(replies, i, n);
    m.lemma_landed_keys(replies, n);
    lemma_with_passed(m.translated(replies), m.all_staged());
    if let Some(o) = m.overrides {
        lemma_with_all(m.merged(replies), o, o.len() as int);
    }
}

} // verus!
