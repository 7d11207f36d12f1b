//! Text helpers: building strings, CSV records and timestamps.
use vstd::prelude::*;
use std::time::{Duration, UNIX_EPOCH};

verus! {

/// The bytes that the csv crate writes for one record.
pub uninterp spec fn csv_record_bytes(fields: Seq<Seq<char>>) -> Seq<u8>;

/// The records that the csv crate reads from a text, one per row, `None`
/// for a row it rejects.
pub uninterp spec fn csv_rows(data: Seq<u8>) -> Seq<Option<Seq<Seq<char>>>>;

/// The RFC 3339 text that humantime gives for an instant, in nanoseconds
/// since the Unix epoch.
pub uninterp spec fn rfc3339_text(nanos: u64) -> Seq<char>;

/// The instant that humantime reads from an RFC 3339 text, if it reads one
/// that fits in nanoseconds since the Unix epoch.
pub uninterp spec fn rfc3339_value(s: Seq<char>) -> Option<u64>;

/// The views of a sequence of strings.
pub open spec fn strings_view(v: Seq<String>) -> Seq<Seq<char>> {
    v.map_values(|s: String| s@)
}

/// Relies on `FromIterator<char>` for `String`: the string holds the characters in order.
#[verifier::external_body]
pub fn string_from_chars(v: &Vec<char>) -> (r: String)
    ensures
        r@ == v@,
{
    v.iter().collect()
}

/// Relies on csv::Writer::write_record (writing into memory, then taking the
/// buffer back with into_inner): the bytes of one CSV record. A fresh writer
/// accepts any first record, and writing into a `Vec` does not fail.
#[verifier::external_body]
pub fn encode_record(fields: &Vec<String>) -> (r: Option<Vec<u8>>)
    ensures
        r is Some,
        r matches Some(b) ==> b@ == csv_record_bytes(strings_view(fields@)),
{
    let mut w = csv::Writer::from_writer(Vec::new());
    if w.write_record(fields.iter()).is_err() {
        return None;
    }
    w.into_inner().ok()
}

/// Relies on csv::Reader::records (no header row taken apart, equal field
/// counts required): every row of the text, each as its fields or as `None`
/// where the reader refused it.
#[verifier::external_body]
pub fn decode_rows(data: &[u8]) -> (r: Vec<Option<Vec<String>>>)
    ensures
        r@.len() == csv_rows(data@).len(),
        forall|i: int| 0 <= i < r@.len() ==> match #[trigger] r@[i] {
            Some(f) => csv_rows(data@)[i] == Some(strings_view(f@)),
            None => csv_rows(data@)[i] is None,
        },
{
    let mut rdr = csv::ReaderBuilder::new().has_headers(false).from_reader(data);
    rdr.records().map(|rec| rec.ok().map(|f| f.iter().map(|x| x.to_string()).collect())).collect()
}

/// Relies on humantime::format_rfc3339: the UTC timestamp text of an instant,
/// with every nanosecond written, which humantime::parse_rfc3339 reads back.
#[verifier::external_body]
pub fn time_text(nanos: u64) -> (r: String)
    ensures
        r@ == rfc3339_text(nanos),
        rfc3339_value(r@) == Some(nanos),
{
    humantime::format_rfc3339(UNIX_EPOCH + Duration::from_nanos(nanos)).to_string()
}

/// Relies on humantime::parse_rfc3339: the instant that a timestamp text names.
#[verifier::external_body]
pub fn time_value(s: &str) -> (r: Option<u64>)
    ensures
        r == rfc3339_value(s@),
{
    match humantime::parse_rfc3339(s) {
        Ok(t) => t.duration_since(UNIX_EPOCH).ok().and_then(|d| u64::try_from(d.as_nanos()).ok()),
        Err(_) => None,
    }
}

} // verus!

verus! {

/// The bytes of a CSV text: the records one after another.
pub open spec fn csv_text(rows: Seq<Seq<Seq<char>>>) -> Seq<u8>
    decreases rows.len(),
{
    if rows.len() == 0 {
        Seq::empty()
    } else {
        csv_text(rows.drop_last()) + csv_record_bytes(rows.last())
    }
}

/// Appends the CSV record of `fields` to `out`.
pub fn push_record(out: &mut Vec<u8>, fields: &Vec<String>, rows: Ghost<Seq<Seq<Seq<char>>>>)
    requires
        old(out)@ == csv_text(rows@),
    ensures
        final(out)@ == csv_text(rows@.push(strings_view(fields@))),
{
    if let Some(b) = encode_record(fields) {
        let mut b = b;
        out.append(&mut b);
        assert(rows@.push(strings_view(fields@)).drop_last() =~= rows@);
    }
}

} // verus!
