//! Reading a table of comma-separated values from bytes in memory, with the
//! `csv` crate.
//!
//! What `csv` makes of the bytes is not described here: it has a name,
//! `csv_table`, and the items below say how the calls into `csv` hand it out
//! piece by piece. Of this file only `cells_of` is proved; the rest is taken
//! on trust from the source of `csv`.

use vstd::prelude::*;

verus! {

/// `csv::Reader`, a reader of records from a source of bytes. Nothing is
/// known of what is inside one but through `unread`.
#[verifier::external_type_specification]
#[verifier::external_body]
#[verifier::reject_recursive_types(R)]
pub struct ExReader<R>(csv::Reader<R>);

/// `csv::StringRecord`, one record whose fields are text. Nothing is known of
/// what is inside one but through `fields`.
#[verifier::external_type_specification]
#[verifier::external_body]
pub struct ExStringRecord(csv::StringRecord);

/// `csv::Error`, why a header or a record could not be read. Nothing is known
/// of what is inside one.
#[verifier::external_type_specification]
#[verifier::external_body]
pub struct ExError(csv::Error);

/// What a reader of `csv` with its default settings finds in `data`.
///
/// The first part is the header, as `Reader::headers` gives it: its fields,
/// or `None` where that call fails. The second part holds, for each further
/// call that reads a record until the data ends, the fields of the record, or
/// `None` where the call fails.
pub uninterp spec fn csv_table(data: Seq<u8>) -> (
    Option<Seq<Seq<char>>>,
    Seq<Option<Seq<Seq<char>>>>,
);

/// What `reader` holds of its table: the header, and the rows that it has not
/// handed out yet, both as in `csv_table`.
pub uninterp spec fn unread(reader: csv::Reader<&[u8]>) -> (
    Option<Seq<Seq<char>>>,
    Seq<Option<Seq<Seq<char>>>>,
);

/// The fields of `record`, in order.
pub uninterp spec fn fields(record: csv::StringRecord) -> Seq<Seq<char>>;

/// `csv::Reader::from_reader` on a slice of bytes: the reader has all of
/// `csv_table(data)` yet to hand out.
#[verifier::external_body]
pub(crate) fn open_table<'a>(data: &'a [u8]) -> (reader: csv::Reader<&'a [u8]>)
    ensures
        unread(reader) == csv_table(data@),
{
    csv::Reader::from_reader(data)
}

/// `csv::Reader::headers`, with the record copied: the header that the reader
/// holds, or the error where it holds none. The rows still to come stay as
/// they are.
#[verifier::external_body]
pub(crate) fn read_header(reader: &mut csv::Reader<&[u8]>) -> (r: Result<
    csv::StringRecord,
    csv::Error,
>)
    ensures
        unread(*final(reader)) == unread(*old(reader)),
        match r {
            Ok(record) => unread(*old(reader)).0 == Some(fields(record)),
            Err(_) => unread(*old(reader)).0 is None,
        },
{
    reader.headers().cloned()
}

/// The next item of `csv::Reader::records`: `None` where no row is left, else
/// the first of the rows still to come, which is then no longer to come.
#[verifier::external_body]
pub(crate) fn read_row(reader: &mut csv::Reader<&[u8]>) -> (r: Option<
    Result<csv::StringRecord, csv::Error>,
>)
    ensures
        unread(*final(reader)).0 == unread(*old(reader)).0,
        match r {
            None => unread(*old(reader)).1.len() == 0 && unread(*final(reader)).1 == unread(
                *old(reader),
            ).1,
            Some(row) => unread(*old(reader)).1.len() > 0 && unread(*final(reader)).1 == unread(
                *old(reader),
            ).1.drop_first() && match row {
                Ok(record) => unread(*old(reader)).1[0] == Some(fields(record)),
                Err(_) => unread(*old(reader)).1[0] is None,
            },
        },
{
    reader.records().next()
}

/// `csv::StringRecord::len` is the number of fields.
pub assume_specification[ csv::StringRecord::len ](record: &csv::StringRecord) -> (n: usize)
    ensures
        n == fields(*record).len(),
;

/// `csv::StringRecord::get` is the field at `i`, if there is one.
pub assume_specification<'a>[ csv::StringRecord::get ](
    record: &'a csv::StringRecord,
    i: usize,
) -> (r: Option<&'a str>)
    ensures
        match r {
            Some(text) => i < fields(*record).len() && text@ == fields(*record)[i as int],
            None => i >= fields(*record).len(),
        },
;

/// The fields of `record` as owned texts.
pub(crate) fn cells_of(record: &csv::StringRecord) -> (cells: Vec<String>)
    ensures
        cells.deep_view() == fields(*record),
{
    let mut cells: Vec<String> = Vec::new();
    let mut i: usize = 0;
    while i < record.len()
        invariant
            i <= fields(*record).len(),
            cells.len() == i,
            forall|j: int| 0 <= j < i ==> (#[trigger] cells@[j])@ == fields(*record)[j],
        decreases fields(*record).len() - i,
    {
        match record.get(i) {
            Some(text) => {
                cells.push(text.to_owned());
            },
            None => {},
        }
        i += 1;
    }
    proof {
        assert(cells.deep_view() =~= fields(*record));
    }
    cells
}

} // verus!
