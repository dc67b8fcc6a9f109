//! Capture logs.
//!
//! A capture log is a JSON document that lists the requests of a recorded
//! session under `log.entries`, each with the absolute URL it went to under
//! `request.url`. Of each URL only the path is kept: a replay goes to
//! another host.

use vstd::prelude::*;

use crate::document::{document_of, views, Json, JsonError, JsonView};
use crate::locator::{path_of_url, url_path};

verus! {

/// One captured request: the path it asked for.
#[derive(Debug, PartialEq, Eq)]
pub struct RequestRecord {
    pub path: String,
}

impl View for RequestRecord {
    type V = Seq<char>;

    /// The path.
    open spec fn view(&self) -> Seq<char> {
        self.path@
    }
}

impl Clone for RequestRecord {
    fn clone(&self) -> (copy: RequestRecord)
        ensures
            copy@ == self@,
    {
        RequestRecord { path: self.path.clone() }
    }
}

/// The paths of a list of records, record by record.
pub open spec fn record_views(records: Seq<RequestRecord>) -> Seq<Seq<char>> {
    records.map_values(|record: RequestRecord| record@)
}

/// Why a capture log was refused.
#[derive(Clone, Copy, Debug, PartialEq, Eq, Structural)]
pub enum CaptureError {
    /// The text holds no document that can be read.
    Json(JsonError),
    /// The document has no `log.entries`.
    MissingEntries,
    /// The entry at this position has no `request.url` that is a string.
    MissingUrl { entry: usize },
    /// The URL of the entry at this position is no absolute URL.
    InvalidUrl { entry: usize },
}

/// The path that one entry of a capture log asks for, or why there is none.
pub open spec fn record_of(entry: JsonView, position: usize) -> Result<Seq<char>, CaptureError> {
    match entry.field("request"@).field("url"@).text() {
        None => Err(CaptureError::MissingUrl { entry: position }),
        Some(url) => match url_path(url) {
            Some(path) => Ok(path),
            None => Err(CaptureError::InvalidUrl { entry: position }),
        },
    }
}

/// The record at position `i` of the entries.
pub open spec fn record_at(entries: Seq<JsonView>, i: int) -> Result<Seq<char>, CaptureError> {
    record_of(entries[i], i as usize)
}

/// Position `i` holds the first entry that gives no record.
pub open spec fn is_first_bad_entry(entries: Seq<JsonView>, i: int) -> bool {
    &&& 0 <= i < entries.len()
    &&& record_at(entries, i) is Err
    &&& forall|j: int| 0 <= j < i ==> (#[trigger] record_at(entries, j)) is Ok
}

/// The paths that a list of entries asks for, in the order of the entries, or
/// the error of the first entry that gives none.
pub open spec fn records_of_entries(entries: Seq<JsonView>) -> Result<Seq<Seq<char>>, CaptureError> {
    if exists|i: int| is_first_bad_entry(entries, i) {
        let first = choose|i: int| is_first_bad_entry(entries, i);
        Err(record_at(entries, first)->Err_0)
    } else {
        Ok(Seq::new(entries.len(), |i: int| record_at(entries, i)->Ok_0))
    }
}

/// What stands under `log.entries` in a document; `Null` where nothing does.
pub open spec fn entry_list(document: JsonView) -> JsonView {
    document.field("log"@).field("entries"@)
}

/// The paths that a capture log asks for, in the order of the log. A log
/// without `log.entries` (or with `null` there) is refused; one where
/// `log.entries` is no array has no entries.
pub open spec fn records_of(document: JsonView) -> Result<Seq<Seq<char>>, CaptureError> {
    if entry_list(document) is Null {
        Err(CaptureError::MissingEntries)
    } else {
        records_of_entries(entry_list(document).items())
    }
}

/// The paths that the text of a capture log asks for.
pub open spec fn records_of_text(text: Seq<char>) -> Result<Seq<Seq<char>>, CaptureError> {
    match document_of(text) {
        Ok(document) => records_of(document),
        Err(e) => Err(CaptureError::Json(e)),
    }
}

/// At most one position holds the first bad entry.
pub proof fn lemma_first_bad_entry_unique(entries: Seq<JsonView>, i: int, j: int)
    requires
        is_first_bad_entry(entries, i),
        is_first_bad_entry(entries, j),
    ensures
        i == j,
{
    if i < j {
        assert(record_at(entries, i) is Ok);
    } else if j < i {
        assert(record_at(entries, j) is Ok);
    }
}

/// The member `key` of a value, where there is one.
fn member<'a>(value: Option<&'a Json>, key: &str) -> (found: Option<&'a Json>)
    ensures
        match (value, found) {
            (Some(v), Some(f)) => v@.field(key@) == f@ && v@.find(key@) is Some,
            (Some(v), None) => v@.find(key@) is None,
            (None, Some(_)) => false,
            (None, None) => true,
        },
{
    match value {
        Some(v) => v.get(key),
        None => None,
    }
}

/// Reads the record that one entry describes.
fn record_from_entry(entry: &Json, position: usize) -> (outcome: Result<RequestRecord, CaptureError>)
    ensures
        match outcome {
            Ok(record) => record_of(entry@, position) == Ok::<Seq<char>, CaptureError>(record@),
            Err(e) => record_of(entry@, position) == Err::<Seq<char>, CaptureError>(e),
        },
{
    let url = match member(member(Some(entry), "request"), "url") {
        Some(value) => value.as_text(),
        None => None,
    };
    match url {
        None => Err(CaptureError::MissingUrl { entry: position }),
        Some(url) => match path_of_url(url) {
            Ok(path) => Ok(RequestRecord { path }),
            Err(_) => Err(CaptureError::InvalidUrl { entry: position }),
        },
    }
}

/// Reads the records of a capture log from its document.
///
/// The records come in the order of the log. A document without
/// `log.entries` is refused, and so is one with an entry whose URL is missing
/// or is no absolute URL; the error names the first such entry.
pub fn records_from_document(document: &Json) -> (outcome: Result<Vec<RequestRecord>, CaptureError>)
    ensures
        match outcome {
            Ok(records) => records_of(document@) == Ok::<Seq<Seq<char>>, CaptureError>(
                record_views(records@),
            ),
            Err(e) => records_of(document@) == Err::<Seq<Seq<char>>, CaptureError>(e),
        },
{
    let list = match member(member(Some(document), "log"), "entries") {
        Some(list) => list,
        None => {
            return Err(CaptureError::MissingEntries);
        },
    };
    if let Json::Null = list {
        return Err(CaptureError::MissingEntries);
    }
    let ghost entries = list@.items();
    let mut records: Vec<RequestRecord> = Vec::new();
    if let Some(items) = list.as_items() {
        let mut i: usize = 0;
        while i < items.len()
            invariant
                i <= items.len(),
                entries == entry_list(document@).items(),
                !(entry_list(document@) is Null),
                entries == views(items@),
                records.len() == i,
                forall|j: int|
                    0 <= j < i ==> (#[trigger] record_at(entries, j)) == Ok::<
                        Seq<char>,
                        CaptureError,
                    >(records[j]@),
            decreases items.len() - i,
        {
            match record_from_entry(&items[i], i) {
                Ok(record) => {
                    records.push(record);
                },
                Err(e) => {
                    proof {
                        assert(record_at(entries, i as int) == Err::<Seq<char>, CaptureError>(e));
                        assert(is_first_bad_entry(entries, i as int));
                        let first = choose|k: int| is_first_bad_entry(entries, k);
                        lemma_first_bad_entry_unique(entries, first, i as int);
                    }
                    return Err(e);
                },
            }
            i += 1;
        }
    }
    proof {
        assert forall|k: int| !is_first_bad_entry(entries, k) by {
            if 0 <= k < entries.len() {
                assert(record_at(entries, k) is Ok);
            }
        }
        assert(Seq::new(entries.len(), |i: int| record_at(entries, i)->Ok_0) =~= record_views(
            records@,
        ));
    }
    Ok(records)
}

/// Reads the records of a capture log from its text.
///
/// Fails where the text holds no document that can be read (see
/// `document_of`), and where its document gives no records (see
/// [`records_from_document`]).
pub fn read_capture(text: &str) -> (outcome: Result<Vec<RequestRecord>, CaptureError>)
    ensures
        match outcome {
            Ok(records) => records_of_text(text@) == Ok::<Seq<Seq<char>>, CaptureError>(
                record_views(records@),
            ),
            Err(e) => records_of_text(text@) == Err::<Seq<Seq<char>>, CaptureError>(e),
        },
{
    match Json::parse(text) {
        Ok(document) => records_from_document(&document),
        Err(e) => Err(CaptureError::Json(e)),
    }
}

} // verus!
