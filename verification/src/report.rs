//! From stored documents to the table: the rows of each document, all rows
//! of a run, and the identifiers that a run has to look up.

use vstd::prelude::*;
use crate::emitter::{csv_text, render, sorted_rows, EnrichedRow, RowModel};
use crate::identifiers::{extract_app_ids_recursive, identifiers, IdentifierSet};
use crate::json::{JsonTree, JsonValue, MAX_DEPTH};
use crate::path::SectionPath;
use crate::playtime::{
    extract_playtime_recursive,
    record_models,
    records,
    MeasurementRecord,
    RecordModel,
};
use crate::replay_url::{extract_year_from_data, year_of_document};

verus! {

/// A document as it was stored: the name of its file and what it holds.
#[derive(Debug, PartialEq, Eq)]
pub struct StoredDocument {
    pub file_name: String,
    pub data: JsonValue,
}

/// Mathematical view of a [`StoredDocument`].
pub struct DocumentModel {
    pub file_name: Seq<char>,
    pub data: JsonTree,
}

impl View for StoredDocument {
    type V = DocumentModel;

    open spec fn view(&self) -> DocumentModel {
        DocumentModel { file_name: self.file_name@, data: self.data@ }
    }
}

/// The views of a list of documents, in order.
pub open spec fn document_models(documents: Seq<StoredDocument>) -> Seq<DocumentModel> {
    Seq::new(documents.len(), |i: int| documents[i]@)
}

/// One of the documents of a run nests arrays and objects too deep to be
/// walked. Nothing of the run is kept.
#[derive(Clone, Copy, Debug, PartialEq, Eq)]
pub struct RefusedDocument {
    /// Position of the first such document among those given.
    pub index: usize,
    /// The nesting depth that it exceeds.
    pub limit: usize,
}

/// Whether the document can be walked.
pub open spec fn walkable(document: DocumentModel) -> bool {
    document.data.depth() <= MAX_DEPTH
}

/// Whether `refusal` names the first document of `documents` that cannot be
/// walked.
pub open spec fn refuses_first(refusal: RefusedDocument, documents: Seq<DocumentModel>) -> bool {
    &&& refusal.limit == MAX_DEPTH
    &&& refusal.index < documents.len()
    &&& !walkable(documents[refusal.index as int])
    &&& forall|j: int| 0 <= j < refusal.index ==> walkable(#[trigger] documents[j])
}

/// The row of a record found in a document of the year `year`.
pub open spec fn row_of(record: RecordModel, year: Seq<char>) -> RowModel {
    RowModel {
        app_id: record.app_id,
        playtime_seconds: record.playtime_seconds,
        year: year,
        section: record.section,
    }
}

/// The rows of `found`, all of the year `year`, in order.
pub open spec fn rows_of(found: Seq<RecordModel>, year: Seq<char>) -> Seq<RowModel> {
    Seq::new(found.len(), |i: int| row_of(found[i], year))
}

/// The rows of one document: its records, each with the document's year.
pub open spec fn document_rows(document: DocumentModel) -> Seq<RowModel> {
    rows_of(
        records(document.data, Seq::empty()),
        year_of_document(document.data, document.file_name),
    )
}

/// The rows of all `documents`, document by document.
pub open spec fn all_rows(documents: Seq<DocumentModel>) -> Seq<RowModel>
    decreases documents.len(),
{
    if documents.len() == 0 {
        Seq::empty()
    } else {
        all_rows(documents.drop_last()) + document_rows(documents.last())
    }
}

/// The identifiers that any of `documents` names.
pub open spec fn all_identifiers(documents: Seq<DocumentModel>) -> Set<Seq<char>>
    decreases documents.len(),
{
    if documents.len() == 0 {
        Set::empty()
    } else {
        all_identifiers(documents.drop_last()).union(identifiers(documents.last().data))
    }
}

/// Appends to `rows` the row of every record of `found`, in order, each
/// with the year `year`.
pub fn append_rows(rows: &mut Vec<EnrichedRow>, found: &Vec<MeasurementRecord>, year: &str)
    ensures
        crate::emitter::row_models(final(rows)@) == crate::emitter::row_models(old(rows)@)
            + rows_of(record_models(found@), year@),
{
    let ghost before = crate::emitter::row_models(rows@);
    let ghost added = rows_of(record_models(found@), year@);
    let mut i: usize = 0;
    assert(crate::emitter::row_models(rows@) =~= before + added.take(0));
    while i < found.len()
        invariant
            i <= found.len(),
            added == rows_of(record_models(found@), year@),
            crate::emitter::row_models(rows@) == before + added.take(i as int),
        decreases found.len() - i,
    {
        let record = &found[i];
        let row = EnrichedRow {
            app_id: record.app_id.clone(),
            playtime_seconds: record.playtime_seconds,
            year: year.to_owned(),
            section: record.section.clone(),
        };
        assert(row@ == added[i as int]);
        let ghost so_far = crate::emitter::row_models(rows@);
        rows.push(row);
        assert(crate::emitter::row_models(rows@) =~= so_far.push(added[i as int]));
        i += 1;
        assert(crate::emitter::row_models(rows@) =~= before + added.take(i as int));
    }
    assert(added.take(i as int) =~= added);
}

/// The position of the first document that cannot be walked, if any.
pub fn first_refused(documents: &Vec<StoredDocument>) -> (r: Option<RefusedDocument>)
    ensures
        match r {
            Some(refusal) => refuses_first(refusal, document_models(documents@)),
            None => forall|j: int|
                0 <= j < documents.len() ==> walkable(#[trigger] document_models(documents@)[j]),
        },
{
    let mut i: usize = 0;
    while i < documents.len()
        invariant
            i <= documents.len(),
            forall|j: int| 0 <= j < i ==> walkable(#[trigger] document_models(documents@)[j]),
        decreases documents.len() - i,
    {
        if !documents[i].data.within_depth(MAX_DEPTH) {
            return Some(RefusedDocument { index: i, limit: MAX_DEPTH });
        }
        i += 1;
    }
    None
}

/// The rows of all `documents`: every record of every document, with the
/// year of its document, document by document.
pub fn collect_rows(documents: &Vec<StoredDocument>) -> (r: Result<
    Vec<EnrichedRow>,
    RefusedDocument,
>)
    ensures
        match r {
            Ok(rows) => {
                &&& forall|j: int|
                    0 <= j < documents.len() ==> walkable(
                        #[trigger] document_models(documents@)[j],
                    )
                &&& crate::emitter::row_models(rows@) == all_rows(document_models(documents@))
            },
            Err(refusal) => refuses_first(refusal, document_models(documents@)),
        },
{
    match first_refused(documents) {
        Some(refusal) => {
            return Err(refusal);
        },
        None => {},
    }
    let ghost models = document_models(documents@);
    let mut rows: Vec<EnrichedRow> = Vec::new();
    assert(crate::emitter::row_models(rows@) =~= all_rows(models.take(0)));
    let mut i: usize = 0;
    while i < documents.len()
        invariant
            i <= documents.len(),
            models == document_models(documents@),
            forall|j: int| 0 <= j < documents.len() ==> walkable(#[trigger] models[j]),
            crate::emitter::row_models(rows@) == all_rows(models.take(i as int)),
        decreases documents.len() - i,
    {
        let document = &documents[i];
        assert(walkable(models[i as int]));
        let year = extract_year_from_data(&document.data, document.file_name.as_str());
        let mut found: Vec<MeasurementRecord> = Vec::new();
        let root = SectionPath::new();
        extract_playtime_recursive(&document.data, &mut found, &root);
        assert(record_models(found@) =~= records(document.data@, Seq::empty()));
        append_rows(&mut rows, &found, year.as_str());
        proof {
            let upto = models.take(i + 1);
            assert(upto.drop_last() =~= models.take(i as int));
            assert(upto.last() == document@);
        }
        i += 1;
    }
    assert(models.take(i as int) =~= models);
    Ok(rows)
}

/// The table of a run: the rows of all `documents`, in order of year,
/// identifier and section, as CSV text. A document that cannot be walked
/// fails the run.
pub fn convert_to_csv(documents: &Vec<StoredDocument>) -> (r: Result<String, RefusedDocument>)
    ensures
        match r {
            Ok(text) => {
                &&& forall|j: int|
                    0 <= j < documents.len() ==> walkable(
                        #[trigger] document_models(documents@)[j],
                    )
                &&& text@ == csv_text(sorted_rows(all_rows(document_models(documents@))))
            },
            Err(refusal) => refuses_first(refusal, document_models(documents@)),
        },
{
    match collect_rows(documents) {
        Ok(rows) => Ok(render(&rows)),
        Err(refusal) => Err(refusal),
    }
}

/// The identifiers that a run has to look up: every identifier that any of
/// `documents` names, each once. A document that cannot be walked fails the
/// run.
pub fn collect_app_ids(documents: &Vec<StoredDocument>) -> (r: Result<
    IdentifierSet,
    RefusedDocument,
>)
    ensures
        match r {
            Ok(app_ids) => {
                &&& forall|j: int|
                    0 <= j < documents.len() ==> walkable(
                        #[trigger] document_models(documents@)[j],
                    )
                &&& app_ids@ == all_identifiers(document_models(documents@))
            },
            Err(refusal) => refuses_first(refusal, document_models(documents@)),
        },
{
    match first_refused(documents) {
        Some(refusal) => {
            return Err(refusal);
        },
        None => {},
    }
    let ghost models = document_models(documents@);
    let mut app_ids = IdentifierSet::new();
    assert(app_ids@ =~= all_identifiers(models.take(0)));
    let mut i: usize = 0;
    while i < documents.len()
        invariant
            i <= documents.len(),
            models == document_models(documents@),
            forall|j: int| 0 <= j < documents.len() ==> walkable(#[trigger] models[j]),
            app_ids@ == all_identifiers(models.take(i as int)),
        decreases documents.len() - i,
    {
        assert(walkable(models[i as int]));
        extract_app_ids_recursive(&documents[i].data, &mut app_ids);
        proof {
            let upto = models.take(i + 1);
            assert(upto.drop_last() =~= models.take(i as int));
            assert(upto.last() == documents[i as int]@);
        }
        i += 1;
    }
    assert(models.take(i as int) =~= models);
    Ok(app_ids)
}

} // verus!
