//! Bibliographic records: maps of text, kept as JSON objects.

use super::table::Table;
use super::{
    found_text, lookup, read_error, read_refused, write_refused, written, CacheError, Cell,
    MidhashCache,
};
use std::collections::BTreeMap;
use vstd::prelude::*;
use vstd::string::StringExecFns;

verus! {

/// `serde_json::Error`.
#[verifier::external_type_specification]
#[verifier::external_body]
pub struct ExJsonError(serde_json::Error);

/// The JSON object that stands for a map of text.
pub uninterp spec fn fields_json(fields: Map<Seq<char>, Seq<char>>) -> Seq<char>;

/// The map of text that a JSON text stands for, if it stands for one.
pub uninterp spec fn json_fields(json: Seq<char>) -> Option<Map<Seq<char>, Seq<char>>>;

/// `serde_json::to_string` of a map of text. It does not fail: only a key that
/// is not text would. What it returns parses back to the same map.
#[verifier::external_body]
fn to_json(fields: &BTreeMap<String, String>) -> (r: Result<String, serde_json::Error>)
    ensures
        r is Ok,
        r matches Ok(json) ==> json@ == fields_json(fields.deep_view()),
        r matches Ok(json) ==> json_fields(json@) == Some(fields.deep_view()),
{
    serde_json::to_string(fields)
}

/// `serde_json::from_str` into a map of text.
#[verifier::external_body]
fn from_json(json: &str) -> (r: Result<BTreeMap<String, String>, serde_json::Error>)
    ensures
        match r {
            Ok(fields) => json_fields(json@) == Some(fields.deep_view()),
            Err(_) => json_fields(json@) is None,
        },
{
    serde_json::from_str(json)
}

/// What a read of a record that succeeded found.
pub open spec fn found_fields(fields: Option<BTreeMap<String, String>>) -> Option<
    Map<Seq<char>, Seq<char>>,
> {
    match fields {
        Some(fields) => Some(fields.deep_view()),
        None => None,
    }
}

/// The record that is stored in a row: none where the row is missing or does not
/// hold a map of text.
pub open spec fn record(row: Option<Cell>) -> Option<Map<Seq<char>, Seq<char>>> {
    match row {
        Some(Cell::Text(json)) => json_fields(json),
        _ => None,
    }
}

/// The JSON to store for a record: an empty object where it has none.
pub fn json_or_empty(json: Result<String, serde_json::Error>) -> (r: String)
    ensures
        match json {
            Ok(json) => r@ == json@,
            Err(_) => r@ == "{}"@,
        },
{
    match json {
        Ok(json) => json,
        Err(_) => String::from_str("{}"),
    }
}

impl MidhashCache {
    /// Reads the JSON text stored for a record.
    pub fn get_bibrec_json(&self, record_id: &str) -> (r: Result<Option<String>, CacheError>)
        ensures
            r matches Ok(value) ==> found_text(value) == lookup(self@, Table::Bibrec, record_id@),
            r matches Err(e) ==> read_error(e),
            r matches Err(e) ==> read_refused(*self, Table::Bibrec, record_id@, e),
    {
        self.get_text(Table::Bibrec, record_id)
    }

    /// Stores a JSON text for a record.
    pub fn put_bibrec_json(&mut self, record_id: &str, json: &str) -> (r: Result<(), CacheError>)
        ensures
            written(old(self)@, final(self)@, Table::Bibrec, record_id@, Cell::Text(json@), r),
            r matches Err(e) ==> write_refused(
                *old(self),
                Table::Bibrec,
                record_id@,
                Cell::Text(json@),
                e,
            ),
            final(self).file() == old(self).file(),
    {
        self.put_text(Table::Bibrec, record_id, json)
    }

    /// Reads a record. One whose text is not a map of text reads as none.
    pub fn get_bibrec(&self, record_id: &str) -> (r: Result<
        Option<BTreeMap<String, String>>,
        CacheError,
    >)
        ensures
            r matches Ok(fields) ==> found_fields(fields) == record(
                lookup(self@, Table::Bibrec, record_id@),
            ),
            r matches Err(e) ==> read_error(e),
            r matches Err(e) ==> read_refused(*self, Table::Bibrec, record_id@, e),
    {
        match self.get_bibrec_json(record_id) {
            Ok(Some(json)) => match from_json(json.as_str()) {
                Ok(fields) => Ok(Some(fields)),
                Err(_) => Ok(None),
            },
            Ok(None) => Ok(None),
            Err(e) => Err(e),
        }
    }

    /// Stores a record.
    pub fn put_bibrec(
        &mut self,
        record_id: &str,
        fields: &BTreeMap<String, String>,
    ) -> (r: Result<(), CacheError>)
        ensures
            written(
                old(self)@,
                final(self)@,
                Table::Bibrec,
                record_id@,
                Cell::Text(fields_json(fields.deep_view())),
                r,
            ),
            r matches Err(e) ==> write_refused(
                *old(self),
                Table::Bibrec,
                record_id@,
                Cell::Text(fields_json(fields.deep_view())),
                e,
            ),
            r is Ok ==> record(lookup(final(self)@, Table::Bibrec, record_id@)) == Some(
                fields.deep_view(),
            ),
            final(self).file() == old(self).file(),
    {
        let json: String = json_or_empty(to_json(fields));
        self.put_bibrec_json(record_id, json.as_str())
    }
}

} // verus!
