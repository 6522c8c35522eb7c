//! One synchronization run in two steps: prepare, which stages the entries
//! of the template and builds the request for the backend, and finish, which
//! merges the backend's answer into the target bundle.

use crate::api::{TagHandling, TranslateTextRequest, TranslateTextResponse};
use crate::arb::{
    create_set, has_key, lemma_has_key, lemma_index_of, upsert, ArbEntry, ArbFile, ArbKey,
};
use crate::cache::ArbCache;
use crate::error::Error;
use crate::json::JsonModel;
use crate::lang::Lang;
use crate::ordered::EntryModel;
use crate::placeholder::{first_missing, Placeholders};
use crate::plan::{
    count_queued, doomed, file_model, file_model_ref, lemma_count_queued, lemma_doomed,
    lemma_fault_stays, replies_of, reply_count, staged_models, sync_model, texts_of,
    translated_entry, with_all, with_passed, with_translations, without_keys, Staged,
    StagedModel, SyncModel, TranslationOptions,
};
use vstd::prelude::*;

verus! {

/// A run that has staged its entries and waits for the backend's answer.
pub struct PendingTranslation {
    template: ArbFile,
    output: ArbFile,
    staged: Vec<Staged>,
    texts: Vec<String>,
    record: Option<ArbFile>,
    options: TranslationOptions,
    model: Ghost<SyncModel>,
}

/// What a finished run hands back: the template, the new target bundle, the
/// number of strings sent to the backend, and the cached bundle of the target
/// language as it now has to be (`None` where the cache keeps what it has).
#[derive(Debug)]
pub struct Finished {
    /// Template information.
    pub template: ArbFile,
    /// Translated content.
    pub translated: ArbFile,
    /// Number of translations.
    pub length: usize,
    /// The cached bundle of the target language after the run.
    pub record: Option<ArbFile>,
}

impl PendingTranslation {
    /// The inputs that the run was prepared from.
    pub closed spec fn inputs(&self) -> SyncModel {
        self.model@
    }

    /// The target language of the run.
    pub closed spec fn lang(&self) -> Lang {
        self.options.target_lang
    }

    /// The pending run holds what its inputs determine.
    pub closed spec fn wf(&self) -> bool {
        let m = self.model@;
        &&& m.wf()
        &&& self.template.wf()
        &&& self.template@ == m.template
        &&& self.output.wf()
        &&& self.output@ == m.cleared()
        &&& staged_models(self.staged@) == m.all_staged()
        &&& texts_of(self.texts@) == m.whole_batch()
        &&& (self.record matches Some(f) ==> f.wf())
        &&& file_model(self.record) == (if m.disable_cache {
            None
        } else {
            m.cache_after()
        })
        &&& self.options.wf()
        &&& self.options.overriding() == m.overrides
        &&& self.options.disable_cache == m.disable_cache
    }

    /// The target language of the run.
    pub fn target_lang(&self) -> (r: Lang)
        ensures
            r == self.lang(),
    {
        self.options.target_lang
    }

    /// Whether the run leaves the cache alone.
    pub fn cache_disabled(&self) -> (r: bool)
        requires
            self.wf(),
        ensures
            r == self.inputs().disable_cache,
    {
        self.options.disable_cache
    }

    /// The number of strings that the run sends to the backend.
    pub fn len(&self) -> (r: usize)
        requires
            self.wf(),
        ensures
            r == self.inputs().whole_batch().len(),
    {
        proof {
            assert(texts_of(self.texts@).len() == self.texts@.len());
        }
        self.texts.len()
    }

    /// The strings that the run sends to the backend, in order.
    pub fn texts(&self) -> (r: &Vec<String>)
        requires
            self.wf(),
        ensures
            texts_of(r@) == self.inputs().whole_batch(),
    {
        &self.texts
    }

    /// What is staged, in the template's order.
    pub fn staged(&self) -> (r: &Vec<Staged>)
        requires
            self.wf(),
        ensures
            staged_models(r@) == self.inputs().all_staged(),
    {
        &self.staged
    }

    /// The one request that the run makes of the backend: every queued
    /// string, in order, for the target language, with the `ph` tag to be
    /// left alone. `None` where nothing is queued.
    pub fn request(&self) -> (r: Option<TranslateTextRequest>)
        requires
            self.wf(),
        ensures
            r.is_some() == (self.inputs().whole_batch().len() > 0),
            r matches Some(q) ==> {
                &&& texts_of(q.text@) == self.inputs().whole_batch()
                &&& q.target_lang == self.lang()
                &&& q.tag_handling == Some(TagHandling::Xml)
                &&& q.ignore_tags matches Some(tags)
                &&& texts_of(tags@) == seq!["ph"@]
                &&& q.source_lang.is_none()
                &&& q.context.is_none()
                &&& q.preserve_formatting.is_none()
                &&& q.glossary_id.is_none()
                &&& q.outline_detection.is_none()
                &&& q.non_splitting_tags.is_none()
                &&& q.splitting_tags.is_none()
                &&& q.formality.is_none()
                &&& q.split_sentences.is_none()
            },
    {
        proof {
            assert(texts_of(self.texts@).len() == self.texts@.len());
        }
        if self.texts.len() == 0 {
            return None;
        }
        let mut text: Vec<String> = Vec::new();
        let mut i: usize = 0;
        while i < self.texts.len()
            invariant
                i <= self.texts.len(),
                text.len() == i,
                forall|j: int| 0 <= j < i ==> text@[j]@ == self.texts@[j]@,
            decreases self.texts.len() - i,
        {
            text.push(self.texts[i].clone());
            i += 1;
        }
        proof {
            assert(texts_of(text@) =~= texts_of(self.texts@));
        }
        let mut request = TranslateTextRequest::new(text, self.options.target_lang);
        request.tag_handling = Some(TagHandling::Xml);
        let mut tags: Vec<String> = Vec::new();
        tags.push("ph".to_owned());
        proof {
            assert(texts_of(tags@) =~= seq!["ph"@]);
        }
        request.ignore_tags = Some(tags);
        Some(request)
    }
}


/// The keys of `target` that `template` lacks, in the target's order.
fn doomed_keys(target: &ArbFile, template: &ArbFile) -> (r: Vec<String>)
    requires
        target.wf(),
        template.wf(),
    ensures
        texts_of(r@) == doomed(target@, template@, target@.len() as int),
{
    let mut r: Vec<String> = Vec::new();
    let n = target.len();
    let mut i: usize = 0;
    proof {
        assert(texts_of(r@) =~= doomed(target@, template@, 0));
    }
    while i < n
        invariant
            i <= n,
            n == target@.len(),
            target.wf(),
            template.wf(),
            texts_of(r@) == doomed(target@, template@, i as int),
        decreases n - i,
    {
        match target.entry_at(i) {
            Some(e) => {
                if template.get_index_of(e.key().as_ref()).is_none() {
                    let key = e.key().to_string();
                    proof {
                        assert(texts_of(r@.push(key)) =~= texts_of(r@).push(key@));
                    }
                    r.push(key);
                }
            },
            None => {},
        }
        i += 1;
    }
    r
}

/// Takes each of `keys` out of `file`, in turn.
fn drop_keys(file: &mut ArbFile, keys: &Vec<String>)
    requires
        old(file).wf(),
    ensures
        final(file).wf(),
        final(file)@ == without_keys(old(file)@, texts_of(keys@), keys@.len() as int),
{
    let mut i: usize = 0;
    while i < keys.len()
        invariant
            i <= keys.len(),
            file.wf(),
            file@ == without_keys(old(file)@, texts_of(keys@), i as int),
        decreases keys.len() - i,
    {
        let _ = file.remove(keys[i].as_str());
        i += 1;
    }
}

/// Whether the template entry at `i` is staged, and whether its key is new.
fn classify(
    template: &ArbFile,
    target: &ArbFile,
    cached: Option<&ArbFile>,
    overriding: Option<&ArbFile>,
    options: &TranslationOptions,
    i: usize,
    entry: &ArbEntry<'_>,
    Ghost(m): Ghost<SyncModel>,
) -> (r: (bool, bool))
    requires
        m.wf(),
        template@ == m.template,
        target@ == m.target,
        file_model_ref(cached) == m.cache,
        file_model_ref(overriding) == m.overrides,
        options.forced() == m.forced,
        i < template@.len(),
        entry@ == template@[i as int],
    ensures
        r.0 == m.active(i as int),
        r.1 == create_set(m.template, m.target).contains(m.template[i as int].key),
{
    let key = entry.key().as_ref();
    proof {
        lemma_index_of(template@, i as int);
    }
    let forced = match &options.invalidation {
        Some(directive) => directive.covers(key),
        None => false,
    };
    let creating = target.get_index_of(key).is_none();
    let updating = match cached {
        Some(c) => match c.lookup(key) {
            Some(old) => !entry.value().same(old.value()),
            None => false,
        },
        None => false,
    };
    let overridden = match overriding {
        Some(o) => o.get_index_of(key).is_some(),
        None => false,
    };
    ((forced || creating || updating) && !overridden, creating)
}

/// Stages every entry of the template: checks and protects the
/// placeholders of what is to be translated, builds the batch, and records
/// the source text of what is queued in `record`.
fn stage_all(
    template: &ArbFile,
    target: &ArbFile,
    cached: Option<&ArbFile>,
    overriding: Option<&ArbFile>,
    options: &TranslationOptions,
    record: Option<ArbFile>,
    Ghost(m): Ghost<SyncModel>,
) -> (r: Result<(Vec<Staged>, Vec<String>, Option<ArbFile>), Error>)
    requires
        m.wf(),
        template.wf(),
        target.wf(),
        cached matches Some(c) ==> c.wf(),
        overriding matches Some(o) ==> o.wf(),
        record matches Some(f) ==> f.wf(),
        template@ == m.template,
        target@ == m.target,
        file_model_ref(cached) == m.cache,
        file_model_ref(overriding) == m.overrides,
        options.forced() == m.forced,
        options.dry_run == m.dry_run,
        options.disable_cache == m.disable_cache,
        file_model(record) == (if m.disable_cache {
            None
        } else {
            m.cache
        }),
    ensures
        r.is_err() == m.first_fault(m.template.len() as int).is_some(),
        r matches Err(e) ==> {
            let at = m.first_fault(m.template.len() as int).unwrap();
            &&& e matches Error::PlaceholderNotDefined(name, text)
            &&& text@ == m.text_at(at)
            &&& name@ == m.names_at(at).unwrap()[first_missing(
                m.text_at(at),
                m.names_at(at).unwrap(),
            ).unwrap()]
        },
        r matches Ok((staged, texts, rec)) ==> {
            &&& staged_models(staged@) == m.all_staged()
            &&& texts_of(texts@) == m.whole_batch()
            &&& (rec matches Some(f) ==> f.wf())
            &&& file_model(rec) == (if m.disable_cache {
                None
            } else {
                m.recorded(m.template.len() as int)
            })
        },
{
    let mut staged: Vec<Staged> = Vec::new();
    let mut texts: Vec<String> = Vec::new();
    let mut record = record;
    let n = template.len();
    let mut i: usize = 0;
    proof {
        assert(staged_models(staged@) =~= m.staged(0));
        assert(texts_of(texts@) =~= m.batch(0));
    }
    while i < n
        invariant
            i <= n,
            n == template@.len(),
            m.wf(),
            template.wf(),
            target.wf(),
            cached matches Some(c) ==> c.wf(),
            overriding matches Some(o) ==> o.wf(),
            record matches Some(f) ==> f.wf(),
            template@ == m.template,
            target@ == m.target,
            file_model_ref(cached) == m.cache,
            file_model_ref(overriding) == m.overrides,
            options.forced() == m.forced,
            options.dry_run == m.dry_run,
            options.disable_cache == m.disable_cache,
            m.first_fault(i as int).is_none(),
            staged_models(staged@) == m.staged(i as int),
            texts_of(texts@) == m.batch(i as int),
            file_model(record) == (if m.disable_cache {
                None
            } else {
                m.recorded(i as int)
            }),
        decreases n - i,
    {
        let entry = template.entry_at(i).unwrap();
        let (active, creating) = classify(
            template,
            target,
            cached,
            overriding,
            options,
            i,
            &entry,
            Ghost(m),
        );
        if active {
            if entry.is_translatable() {
                let names = match template.placeholders(entry.key()) {
                    Ok(names) => names,
                    Err(e) => {
                        return Err(e);
                    },
                };
                let text: &str = entry.value().as_str().unwrap();
                match &names {
                    Some(p) => match p.verify(text) {
                        Ok(()) => {},
                        Err(e) => {
                            proof {
                                m.lemma_first_fault(i as int);
                                m.lemma_first_fault(n as int);
                                assert(m.faulty(i as int));
                                assert(m.first_fault(i as int + 1) == Some(i as int));
                                lemma_fault_stays(m, i as int + 1, n as int);
                            }
                            return Err(e);
                        },
                    },
                    None => {},
                }
                if !options.dry_run {
                    let protected = match &names {
                        Some(p) => p.protect(text),
                        None => text.to_owned(),
                    };
                    proof {
                        assert(texts_of(texts@.push(protected)) =~= texts_of(texts@).push(
                            protected@,
                        ));
                    }
                    texts.push(protected);
                    if !options.disable_cache {
                        let mut file = match record {
                            Some(f) => f,
                            None => ArbFile::default(),
                        };
                        proof {
                            if m.recorded(i as int).is_none() {
                                assert(upsert(file@, entry@) =~= seq![entry@]);
                            }
                        }
                        file.insert_entry(entry);
                        record = Some(file);
                    }
                    let owned = match &names {
                        Some(p) => Some(p.to_owned_names()),
                        None => None,
                    };
                    let item = Staged::Translate {
                        key: entry.key().to_string(),
                        names: owned,
                        index: if creating {
                            Some(i)
                        } else {
                            None
                        },
                    };
                    proof {
                        assert(item@ == m.staged_item(i as int));
                        assert(staged_models(staged@.push(item)) =~= staged_models(staged@).push(
                            item@,
                        ));
                    }
                    staged.push(item);
                } else {
                    let item = Staged::Entry {
                        key: entry.key().to_string(),
                        value: entry.value().to_value(),
                    };
                    proof {
                        assert(item@ == m.staged_item(i as int));
                        assert(staged_models(staged@.push(item)) =~= staged_models(staged@).push(
                            item@,
                        ));
                    }
                    staged.push(item);
                }
            } else {
                let item = Staged::Entry {
                    key: entry.key().to_string(),
                    value: entry.value().to_value(),
                };
                proof {
                    assert(item@ == m.staged_item(i as int));
                    assert(staged_models(staged@.push(item)) =~= staged_models(staged@).push(item@));
                }
                staged.push(item);
            }
        }
        i += 1;
    }
    Ok((staged, texts, record))
}

/// Prepares a run: classifies every entry of the template against the
/// target bundle and the cache, checks and protects the placeholders of what
/// is to be translated, and takes the keys that the template lacks out of the
/// target bundle. Nothing is sent and nothing is written.
///
/// The run fails, before anything else is done, where an entry to be
/// translated declares a placeholder that its text lacks: with the name of the
/// first such placeholder of the first such entry, and the entry's text.
pub fn prepare(
    cache: &ArbCache,
    template: ArbFile,
    target: ArbFile,
    options: TranslationOptions,
) -> (r: Result<PendingTranslation, Error>)
    requires
        cache.wf(),
        template.wf(),
        target.wf(),
        options.wf(),
    ensures
        r.is_err() == sync_model(template@, target@, cache@, options).first_fault(
            template@.len() as int,
        ).is_some(),
        r matches Err(e) ==> {
            let m = sync_model(template@, target@, cache@, options);
            let at = m.first_fault(template@.len() as int).unwrap();
            &&& e matches Error::PlaceholderNotDefined(name, text)
            &&& text@ == m.text_at(at)
            &&& name@ == m.names_at(at).unwrap()[first_missing(
                m.text_at(at),
                m.names_at(at).unwrap(),
            ).unwrap()]
        },
        r matches Ok(p) ==> p.wf() && p.inputs() == sync_model(template@, target@, cache@, options)
            && p.lang() == options.target_lang,
{
    let ghost m = sync_model(template@, target@, cache@, options);
    let cached = cache.get_file(&options.target_lang);
    let overriding = match &options.overrides {
        Some(o) => o.get(&options.target_lang),
        None => None,
    };
    let record = if options.disable_cache {
        None
    } else {
        match cached {
            Some(c) => Some(c.duplicate()),
            None => None,
        }
    };
    let (staged, texts, record) = match stage_all(
        &template,
        &target,
        cached,
        overriding,
        &options,
        record,
        Ghost(m),
    ) {
        Ok(parts) => parts,
        Err(e) => {
            return Err(e);
        },
    };
    let keys = doomed_keys(&target, &template);
    let mut output = target;
    drop_keys(&mut output, &keys);
    let record = match record {
        Some(mut f) => {
            drop_keys(&mut f, &keys);
            Some(f)
        },
        None => None,
    };
    proof {
        lemma_doomed(m.target, m.target, m.template, m.target.len() as int);
        if let Some(c) = m.recorded(m.template.len() as int) {
            lemma_doomed(c, m.target, m.template, m.target.len() as int);
        }
    }
    Ok(PendingTranslation { template, output, staged, texts, record, options, model: Ghost(m) })
}


/// The translated texts of a backend's answer, in order.
fn replies_in(response: &Option<TranslateTextResponse>) -> (r: Vec<String>)
    ensures
        texts_of(r@) == replies_of(*response),
        r@.len() == reply_count(*response),
{
    let mut r: Vec<String> = Vec::new();
    match response {
        Some(answer) => {
            let mut i: usize = 0;
            while i < answer.translations.len()
                invariant
                    i <= answer.translations.len(),
                    r.len() == i,
                    forall|j: int| 0 <= j < i ==> r@[j]@ == answer.translations@[j].text@,
                decreases answer.translations.len() - i,
            {
                r.push(answer.translations[i].text.clone());
                i += 1;
            }
            proof {
                assert(texts_of(r@) =~= replies_of(*response));
            }
        },
        None => {
            proof {
                assert(texts_of(r@) =~= replies_of(*response));
            }
        },
    }
    r
}

/// Lands the translation of each staged entry that was queued in `output`.
fn land_all(output: &mut ArbFile, staged: &Vec<Staged>, replies: &Vec<String>)
    requires
        old(output).wf(),
        count_queued(staged_models(staged@)) == replies@.len(),
    ensures
        final(output).wf(),
        final(output)@ == with_translations(
            old(output)@,
            staged_models(staged@),
            texts_of(replies@),
        ),
{
    let ghost models = staged_models(staged@);
    let ghost texts = texts_of(replies@);
    let mut taken: usize = 0;
    let mut i: usize = 0;
    proof {
        assert(models.take(0) =~= Seq::<StagedModel>::empty());
    }
    while i < staged.len()
        invariant
            i <= staged.len(),
            models == staged_models(staged@),
            texts == texts_of(replies@),
            count_queued(models) == replies@.len(),
            taken == count_queued(models.take(i as int)),
            output.wf(),
            output@ == with_translations(old(output)@, models.take(i as int), texts),
        decreases staged.len() - i,
    {
        proof {
            lemma_count_queued(models, i as int);
            lemma_count_queued(models, i as int + 1);
            assert(models.take(i as int + 1).drop_last() =~= models.take(i as int));
            assert(models.take(i as int + 1).last() == staged@[i as int]@);
        }
        match &staged[i] {
            Staged::Translate { key, names, index } => {
                let reply = replies[taken].as_str();
                let text = match names {
                    Some(names) => Placeholders::from_names(names).restore(reply),
                    None => reply.to_owned(),
                };
                let k = ArbKey::new(key.as_str());
                proof {
                    assert(texts[taken as int] == replies@[taken as int]@);
                    let e = translated_entry(staged@[i as int]@, texts[taken as int]);
                    assert(e == (EntryModel { key: k@, value: JsonModel::Text(text@) }));
                    if has_key(output@, k@) {
                        lemma_has_key(output@, k@);
                    }
                }
                match index {
                    Some(at) => {
                        if *at < output.len() {
                            output.shift_insert_translation(*at, &k, text);
                        } else {
                            output.insert_translation(&k, text);
                        }
                    },
                    None => {
                        output.insert_translation(&k, text);
                    },
                }
                assert(taken < replies.len());
                taken += 1;
            },
            Staged::Entry { .. } => {},
        }
        i += 1;
    }
    proof {
        assert(models.take(staged@.len() as int) =~= models);
    }
}

/// Applies each pass-through entry of `staged` to `output`.
fn pass_all(output: &mut ArbFile, staged: &Vec<Staged>)
    requires
        old(output).wf(),
    ensures
        final(output).wf(),
        final(output)@ == with_passed(old(output)@, staged_models(staged@)),
{
    let ghost models = staged_models(staged@);
    let mut i: usize = 0;
    proof {
        assert(models.take(0) =~= Seq::<StagedModel>::empty());
    }
    while i < staged.len()
        invariant
            i <= staged.len(),
            models == staged_models(staged@),
            output.wf(),
            output@ == with_passed(old(output)@, models.take(i as int)),
        decreases staged.len() - i,
    {
        proof {
            assert(models.take(i as int + 1).drop_last() =~= models.take(i as int));
            assert(models.take(i as int + 1).last() == staged@[i as int]@);
        }
        match &staged[i] {
            Staged::Entry { key, value } => {
                output.insert_entry(ArbEntry::new(key.as_str(), value));
            },
            Staged::Translate { .. } => {},
        }
        i += 1;
    }
    proof {
        assert(models.take(staged@.len() as int) =~= models);
    }
}

/// Writes every entry of `extra` over `output`, in order.
fn write_over(output: &mut ArbFile, extra: &ArbFile)
    requires
        old(output).wf(),
    ensures
        final(output).wf(),
        final(output)@ == with_all(old(output)@, extra@, extra@.len() as int),
{
    let n = extra.len();
    let mut i: usize = 0;
    while i < n
        invariant
            i <= n,
            n == extra@.len(),
            output.wf(),
            output@ == with_all(old(output)@, extra@, i as int),
        decreases n - i,
    {
        match extra.entry_at(i) {
            Some(e) => {
                output.insert_entry(e);
            },
            None => {},
        }
        i += 1;
    }
}

impl PendingTranslation {
    /// Finishes the run with the backend's answer (`None` where no request
    /// was made): each translation has its placeholders restored and lands in
    /// the target bundle, then the pass-through entries are applied, then the
    /// overrides are written over all of it.
    ///
    /// The run fails where the answer does not hold exactly one translation
    /// for each string that was sent; nothing is applied then.
    pub fn finish(self, response: Option<TranslateTextResponse>) -> (r: Result<Finished, Error>)
        requires
            self.wf(),
        ensures
            r.is_err() == (reply_count(response) != self.inputs().whole_batch().len()),
            r matches Err(e) ==> e matches Error::TranslationLength(want, got) && want
                == self.inputs().whole_batch().len() && got == reply_count(response),
            r matches Ok(f) ==> {
                &&& f.template.wf()
                &&& f.template@ == self.inputs().template
                &&& f.translated.wf()
                &&& f.translated@ == self.inputs().outcome(replies_of(response))
                &&& f.length == self.inputs().whole_batch().len()
                &&& (f.record matches Some(c) ==> c.wf())
                &&& file_model(f.record) == (if self.inputs().disable_cache {
                    None
                } else {
                    self.inputs().cache_after()
                })
            },
    {
        let ghost m = self.model@;
        let PendingTranslation { template, output, staged, texts, record, options, model: _ } =
            self;
        let replies = replies_in(&response);
        let length = texts.len();
        proof {
            assert(texts_of(texts@).len() == texts@.len());
            m.lemma_batch_len(m.template.len() as int);
        }
        if replies.len() != length {
            return Err(Error::TranslationLength(length, replies.len()));
        }
        let mut output = output;
        land_all(&mut output, &staged, &replies);
        pass_all(&mut output, &staged);
        match &options.overrides {
            Some(files) => match files.get(&options.target_lang) {
                Some(extra) => {
                    write_over(&mut output, extra);
                },
                None => {},
            },
            None => {},
        }
        Ok(Finished { template, translated: output, length, record })
    }
}

} // verus!
