//! The calls that leave this library: fresh ids and the CSV writer. Their
//! contracts are taken on trust from the code they call.

use vstd::prelude::*;
use crate::text::texts;

verus! {

/// `uuid::Uuid::new_v4` followed by the id's `to_string`: a random id in
/// its hyphenated form, which is 36 characters long. Two calls may differ,
/// and nothing more is claimed of what comes back.
#[verifier::external_body]
pub(crate) fn fresh_id() -> (s: String)
    ensures
        s@.len() == 36,
{
    uuid::Uuid::new_v4().to_string()
}

/// A `csv::Writer` with default settings that writes into a vector of bytes.
#[verifier::external_body]
pub struct CsvBuffer {
    inner: csv::Writer<Vec<u8>>,
}

/// `csv::Error`, the error of the CSV writer: carried through, never looked into.
#[verifier::external_type_specification]
#[verifier::external_body]
pub struct ExCsvError(csv::Error);

/// The records that have been written to a CSV writer with success, in order.
pub uninterp spec fn csv_records(w: CsvBuffer) -> Seq<Seq<Seq<char>>>;

/// Whether no write to a CSV writer has failed. A failed write leaves its
/// fields in the writer, and nothing is claimed of the writer from then on.
pub uninterp spec fn csv_intact(w: CsvBuffer) -> bool;

/// The bytes that a CSV writer with default settings makes of the records written to it.
pub uninterp spec fn csv_text(records: Seq<Seq<Seq<char>>>) -> Seq<u8>;

/// `csv::Writer::from_writer` on an empty vector: a writer with default
/// settings to which nothing has been written and on which no write has failed.
#[verifier::external_body]
pub(crate) fn csv_open() -> (w: CsvBuffer)
    ensures
        csv_records(w).len() == 0,
        csv_intact(w),
{
    CsvBuffer { inner: csv::Writer::from_writer(Vec::new()) }
}

/// `csv::Writer::write_record`, on a writer on which no write has failed:
/// on success the record has been written after the others, and still no
/// write has failed. Such a writer into a vector fails only where the
/// record has another number of fields than the first record written.
#[verifier::external_body]
pub(crate) fn csv_put(w: &mut CsvBuffer, record: &Vec<String>) -> (r: Result<
    (),
    csv::Error,
>)
    ensures
        csv_intact(*old(w)) && r is Ok ==> csv_intact(*final(w)) && csv_records(*final(w))
            == csv_records(*old(w)).push(texts(record@)),
        csv_intact(*old(w)) && (csv_records(*old(w)).len() == 0 || csv_records(*old(w))[0].len()
            == record@.len()) ==> r is Ok,
{
    w.inner.write_record(record)
}

/// `csv::Writer::into_inner`: flushes and hands back the vector. Flushing
/// into a vector does not fail. Where no write has failed, the vector holds
/// the text of the records written.
#[verifier::external_body]
pub(crate) fn csv_close(w: CsvBuffer) -> (r: Option<Vec<u8>>)
    ensures
        r is Some,
        csv_intact(w) ==> (r matches Some(b) ==> b@ == csv_text(csv_records(w))),
{
    w.inner.into_inner().ok()
}

} // verus!
