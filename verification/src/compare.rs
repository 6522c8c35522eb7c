//! The comparison of a template with a translation, row by row, and the
//! corrections that come back from it.

use crate::arb::{
    has_key, translatable, upsert, value_of, ArbEntry, ArbFile, ArbKey,
};
use crate::json::JsonModel;
use crate::lang::Lang;
use crate::ordered::EntryModel;
use crate::plan::file_model_ref;
use vstd::prelude::*;

verus! {

/// The model of one row of a comparison.
pub struct RowModel {
    pub id: Seq<char>,
    pub source: Seq<char>,
    pub target: Seq<char>,
    pub correction: Seq<char>,
    pub comment: Seq<char>,
}

/// One row of a comparison: a key, its source text, its translation, the
/// correction that a human gave for it, and a comment.
#[derive(Debug, Clone, PartialEq, Eq)]
pub struct ComparisonRow {
    /// The key.
    pub id: String,
    /// The text in the template.
    pub source: String,
    /// The text in the translation.
    pub target: String,
    /// The correction, empty where there is none.
    pub correction: String,
    /// A comment.
    pub comment: String,
}

impl View for ComparisonRow {
    type V = RowModel;

    open spec fn view(&self) -> RowModel {
        RowModel {
            id: self.id@,
            source: self.source@,
            target: self.target@,
            correction: self.correction@,
            comment: self.comment@,
        }
    }
}

/// The text of a string value; the empty text for any other value.
pub open spec fn text_or_empty(v: JsonModel) -> Seq<char> {
    match v {
        JsonModel::Text(t) => t,
        _ => Seq::empty(),
    }
}

/// The correction for a key: the text that the overrides hold under it,
/// empty where they hold none.
pub open spec fn correction_for(overrides: Option<Seq<EntryModel>>, key: Seq<char>) -> Seq<char> {
    match overrides {
        Some(o) => if has_key(o, key) {
            text_or_empty(value_of(o, key))
        } else {
            Seq::empty()
        },
        None => Seq::empty(),
    }
}

/// The rows for the first `n` entries of the template: one for each
/// translatable entry whose key the translation holds, in order.
pub open spec fn rows(
    template: Seq<EntryModel>,
    target: Seq<EntryModel>,
    overrides: Option<Seq<EntryModel>>,
    n: int,
) -> Seq<RowModel>
    decreases n,
{
    if n <= 0 {
        Seq::empty()
    } else if translatable(template[n - 1]) && has_key(target, template[n - 1].key) {
        rows(template, target, overrides, n - 1).push(
            RowModel {
                id: template[n - 1].key,
                source: text_or_empty(template[n - 1].value),
                target: text_or_empty(value_of(target, template[n - 1].key)),
                correction: correction_for(overrides, template[n - 1].key),
                comment: Seq::empty(),
            },
        )
    } else {
        rows(template, target, overrides, n - 1)
    }
}

/// The models of `rows`, in order.
pub open spec fn row_models(rows: Seq<ComparisonRow>) -> Seq<RowModel> {
    rows.map_values(|r: ComparisonRow| r@)
}

/// `file` after each correction of `rows[..n]` that is not empty has been
/// inserted as a translation, in turn.
pub open spec fn corrected(file: Seq<EntryModel>, rows: Seq<RowModel>, n: int) -> Seq<EntryModel>
    decreases n,
{
    if n <= 0 {
        file
    } else if rows[n - 1].correction.len() > 0 {
        upsert(
            corrected(file, rows, n - 1),
            EntryModel { key: rows[n - 1].id, value: JsonModel::Text(rows[n - 1].correction) },
        )
    } else {
        corrected(file, rows, n - 1)
    }
}

/// The text of an entry's value, empty where the value is no string.
fn text_in(entry: &ArbEntry<'_>) -> (r: String)
    ensures
        r@ == text_or_empty(entry@.value),
{
    match entry.value().as_str() {
        Some(t) => t.to_owned(),
        None => String::new(),
    }
}

/// Compare a template with a translation: one row for each translatable
/// entry of the template whose key the translation holds, with the
/// correction that the overrides hold for the key.
pub fn comparison_rows(template: &ArbFile, target: &ArbFile, overrides: Option<&ArbFile>) -> (r:
    Vec<ComparisonRow>)
    requires
        template.wf(),
        target.wf(),
        overrides matches Some(o) ==> o.wf(),
    ensures
        row_models(r@) == rows(
            template@,
            target@,
            file_model_ref(overrides),
            template@.len() as int,
        ),
{
    let ghost o = file_model_ref(overrides);
    let mut r: Vec<ComparisonRow> = Vec::new();
    let n = template.len();
    let mut i: usize = 0;
    proof {
        assert(row_models(r@) =~= rows(template@, target@, o, 0));
    }
    while i < n
        invariant
            i <= n,
            n == template@.len(),
            template.wf(),
            target.wf(),
            overrides matches Some(f) ==> f.wf(),
            o == file_model_ref(overrides),
            row_models(r@) == rows(template@, target@, o, i as int),
        decreases n - i,
    {
        match template.entry_at(i) {
            Some(entry) => {
                if entry.is_translatable() {
                    let key = entry.key().as_ref();
                    let correction = match overrides {
                        Some(file) => match file.lookup(key) {
                            Some(fixed) => text_in(&fixed),
                            None => String::new(),
                        },
                        None => String::new(),
                    };
                    match target.lookup(key) {
                        Some(translated) => {
                            let row = ComparisonRow {
                                id: key.to_owned(),
                                source: text_in(&entry),
                                target: text_in(&translated),
                                correction,
                                comment: String::new(),
                            };
                            proof {
                                assert(row_models(r@.push(row)) =~= row_models(r@).push(row@));
                            }
                            r.push(row);
                        },
                        None => {},
                    }
                }
            },
            None => {},
        }
        i += 1;
    }
    r
}

/// The header of a comparison: the identifier, the source and the target
/// with their languages, the correction with the target's, and the comment.
pub fn comparison_header(source: Lang, target: Lang) -> (r: Vec<String>)
    ensures
        r@.len() == 5,
        r@[0]@ == "Identifier"@,
        r@[1]@ == "Source ("@ + source.code_of() + ")"@,
        r@[2]@ == "Target ("@ + target.code_of() + ")"@,
        r@[3]@ == "Correction ("@ + target.code_of() + ")"@,
        r@[4]@ == "Comment"@,
{
    let mut r: Vec<String> = Vec::new();
    r.push("Identifier".to_owned());
    let mut cell = "Source (".to_owned();
    cell.append(source.code());
    cell.append(")");
    r.push(cell);
    let mut cell = "Target (".to_owned();
    cell.append(target.code());
    cell.append(")");
    r.push(cell);
    let mut cell = "Correction (".to_owned();
    cell.append(target.code());
    cell.append(")");
    r.push(cell);
    r.push("Comment".to_owned());
    r
}

/// Take the corrections of a comparison into an override bundle: each
/// correction that is not empty becomes the translation of its key.
pub fn apply_corrections(file: &mut ArbFile, rows: &Vec<ComparisonRow>)
    requires
        old(file).wf(),
    ensures
        final(file).wf(),
        final(file)@ == corrected(old(file)@, row_models(rows@), rows@.len() as int),
{
    let mut i: usize = 0;
    while i < rows.len()
        invariant
            i <= rows.len(),
            file.wf(),
            file@ == corrected(old(file)@, row_models(rows@), i as int),
        decreases rows.len() - i,
    {
        let row = &rows[i];
        if row.correction.as_str().unicode_len() > 0 {
            file.insert_translation(&ArbKey::new(row.id.as_str()), row.correction.clone());
        }
        i += 1;
    }
}

} // verus!
