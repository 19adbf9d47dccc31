//! Records and row encoding. A record is a table name together with an
//! ordered sequence of named fields, every one already a plain string. The
//! encoding of one row of fields into CSV bytes is done by the `csv` crate.

use vstd::prelude::*;

verus! {

/// What one row of fields encodes to. The result of `csv::Writer::
/// write_record` depends on the fields alone (delimiting, quoting and the
/// terminating newline are fixed by the default writer configuration), so it
/// is given a name here rather than spelled out.
pub uninterp spec fn csv_row_of(fields: Seq<Seq<char>>) -> Seq<u8>;

/// Relies on csv::Writer::write_record and csv::Writer::into_inner: a fresh
/// default writer over an in-memory buffer encodes exactly one row — the
/// fields, delimited and quoted as needed, then a newline — and
/// `into_inner` hands the buffer back after flushing.
#[verifier::external_body]
fn encode_row(fields: &Vec<String>) -> (r: Vec<u8>)
    ensures
        r@ == csv_row_of(fields.deep_view()),
{
    let mut w = csv::Writer::from_writer(Vec::new());
    w.write_record(fields.iter())
        .expect("in-memory csv row encoding cannot fail");
    w.into_inner().expect("in-memory csv row encoding cannot fail")
}

/// One typed, named record: the table it belongs to, its field names (the
/// header of every file of that table) and its field values, in one order.
pub struct Record {
    pub table: String,
    pub names: Vec<String>,
    pub values: Vec<String>,
}

impl Record {
    /// A record is well formed when every value has a name.
    pub open spec fn wf(self) -> bool {
        self.names@.len() == self.values@.len()
    }

    pub fn new(table: String, names: Vec<String>, values: Vec<String>) -> (r: Record)
        requires
            names@.len() == values@.len(),
        ensures
            r.wf(),
            r.table == table,
            r.names == names,
            r.values == values,
    {
        Record { table, names, values }
    }

    /// The bytes of this record's header row: its field names as one CSV row.
    pub fn header_row(&self) -> (r: Vec<u8>)
        ensures
            r@ == csv_row_of(self.names.deep_view()),
    {
        encode_row(&self.names)
    }

    /// The bytes of this record's data row: its field values as one CSV row.
    pub fn data_row(&self) -> (r: Vec<u8>)
        ensures
            r@ == csv_row_of(self.values.deep_view()),
    {
        encode_row(&self.values)
    }
}

} // verus!
