//! The delimited-text layout of a dataset: a fixed header row, then one
//! record per stored row, in a stable column order.
use vstd::prelude::*;
use crate::dataset::SheetCsvRow;
use crate::text::{decimal_of, decimal_text, parse_i64, parsed_i64, text_of};

verus! {

/// The bytes that the csv writer produces for one record with these
/// fields, in its default dialect.
pub uninterp spec fn csv_record(fields: Seq<Seq<char>>) -> Seq<u8>;

/// The records that the csv reader finds in these bytes, in its default
/// dialect, the first row included; `None` where it reports a fault.
pub uninterp spec fn csv_records(bytes: Seq<u8>) -> Option<Seq<Seq<Seq<char>>>>;

/// The text of each string.
pub open spec fn texts(fields: Seq<String>) -> Seq<Seq<char>> {
    Seq::new(fields.len(), |i: int| fields[i]@)
}

/// The text of each field of each record.
pub open spec fn record_texts(records: Seq<Vec<String>>) -> Seq<Seq<Seq<char>>> {
    Seq::new(records.len(), |i: int| texts(records[i]@))
}

/// Relies on `csv::WriterBuilder` (no header handling) with
/// `Writer::write_record` and `Writer::into_inner`: the bytes of one record.
/// A fresh writer into memory has no field count to hold the record to and
/// no output that can fail, so it always succeeds.
#[verifier::external_body]
fn encode_record(fields: &Vec<String>) -> (r: Option<Vec<u8>>)
    ensures
        r is Some,
        r->Some_0@ == csv_record(texts(fields@)),
{
    let mut w = csv::WriterBuilder::new().has_headers(false).from_writer(Vec::new());
    match w.write_record(fields) {
        Ok(()) => w.into_inner().ok(),
        Err(_) => None,
    }
}

/// Relies on `csv::ReaderBuilder` (no header row) with `Reader::records`:
/// the fields of every record, or `None` where the reader reports a fault.
#[verifier::external_body]
fn decode_records(bytes: &[u8]) -> (r: Option<Vec<Vec<String>>>)
    ensures
        r is Some <==> csv_records(bytes@) is Some,
        r is Some ==> record_texts(r->Some_0@) == csv_records(bytes@)->Some_0,
{
    let mut rdr = csv::ReaderBuilder::new().has_headers(false).from_reader(bytes);
    rdr.records()
        .map(|rec| rec.map(|fields| fields.iter().map(|f| f.to_string()).collect()))
        .collect::<Result<Vec<Vec<String>>, csv::Error>>()
        .ok()
}

/// The column names, in order.
pub open spec fn header_fields() -> Seq<Seq<char>> {
    seq![
        "sheet_id"@,
        "file_id"@,
        "file_name"@,
        "seller_name"@,
        "invoice_number"@,
        "invoice_date"@,
        "seller_address"@,
        "items_json"@,
        "raw_payload"@,
    ]
}

/// The text of an optional field: empty where it is absent.
pub open spec fn opt_text(o: Option<String>) -> Seq<char> {
    match o {
        Some(s) => s@,
        None => seq![],
    }
}

/// The fields of a stored row, in column order.
pub open spec fn fields_of(r: SheetCsvRow) -> Seq<Seq<char>> {
    seq![
        decimal_of(r.sheet_id as int),
        opt_text(r.file_id),
        opt_text(r.file_name),
        opt_text(r.seller_name),
        opt_text(r.invoice_number),
        opt_text(r.invoice_date),
        opt_text(r.seller_address),
        opt_text(r.items_json),
        r.raw_payload@,
    ]
}

/// The bytes of a dataset: the header record, then one record per row.
pub open spec fn dataset_bytes(rows: Seq<SheetCsvRow>) -> Seq<u8>
    decreases rows.len(),
{
    if rows.len() == 0 {
        csv_record(header_fields())
    } else {
        dataset_bytes(rows.drop_last()) + csv_record(fields_of(rows.last()))
    }
}

/// An optional field as read back: absent where the text is empty.
pub open spec fn opt_matches(o: Option<String>, t: Seq<char>) -> bool {
    if t.len() == 0 {
        o is None
    } else {
        o is Some && o->Some_0@ == t
    }
}

/// Whether a record reads as a stored row: nine fields, the first an
/// integer.
pub open spec fn readable(fields: Seq<Seq<char>>) -> bool {
    fields.len() == 9 && parsed_i64(fields[0]) is Some
}

/// Whether `r` is the row that the record `fields` reads as.
pub open spec fn read_as(r: SheetCsvRow, fields: Seq<Seq<char>>) -> bool {
    &&& fields.len() == 9
    &&& parsed_i64(fields[0]) == Some(r.sheet_id)
    &&& opt_matches(r.file_id, fields[1])
    &&& opt_matches(r.file_name, fields[2])
    &&& opt_matches(r.seller_name, fields[3])
    &&& opt_matches(r.invoice_number, fields[4])
    &&& opt_matches(r.invoice_date, fields[5])
    &&& opt_matches(r.seller_address, fields[6])
    &&& opt_matches(r.items_json, fields[7])
    &&& r.raw_payload@ == fields[8]
}

/// Whether every record after the header reads as a stored row.
pub open spec fn all_readable(records: Seq<Seq<Seq<char>>>) -> bool {
    forall|i: int| 1 <= i < records.len() ==> readable(#[trigger] records[i])
}

/// Whether `rows` are the rows that the records after the header read as.
pub open spec fn decoded_as(rows: Seq<SheetCsvRow>, records: Seq<Seq<Seq<char>>>) -> bool {
    &&& rows.len() == if records.len() == 0 {
        0
    } else {
        records.len() - 1
    }
    &&& forall|i: int| 0 <= i < rows.len() ==> read_as(#[trigger] rows[i], records[i + 1])
}

/// Why a dataset could not be read or written.
#[derive(Clone, Copy, Debug, PartialEq, Eq, Structural)]
pub enum DatasetError {
    /// The csv reader reported a fault.
    Unreadable,
    /// A record does not have the layout of a stored row.
    Malformed,
}

impl SheetCsvRow {
    /// The column names, in order.
    pub fn headers() -> (r: [&'static str; 9])
        ensures
            r@.len() == 9,
            forall|i: int| 0 <= i < 9 ==> #[trigger] r@[i]@ == header_fields()[i],
    {
        let r = [
            "sheet_id",
            "file_id",
            "file_name",
            "seller_name",
            "invoice_number",
            "invoice_date",
            "seller_address",
            "items_json",
            "raw_payload",
        ];
        assert(forall|i: int| 0 <= i < 9 ==> #[trigger] r@[i]@ == header_fields()[i]);
        r
    }
}

fn opt_field(o: &Option<String>) -> (r: String)
    ensures
        r@ == opt_text(*o),
{
    match o {
        Some(s) => s.clone(),
        None => String::new(),
    }
}

fn header_record() -> (r: Vec<String>)
    ensures
        texts(r@) == header_fields(),
{
    let h = SheetCsvRow::headers();
    let mut out: Vec<String> = Vec::new();
    let mut i: usize = 0;
    while i < 9
        invariant
            i <= 9,
            h@.len() == 9,
            forall|k: int| 0 <= k < 9 ==> #[trigger] h@[k]@ == header_fields()[k],
            out@.len() == i,
            forall|k: int| 0 <= k < i ==> #[trigger] out@[k]@ == header_fields()[k],
        decreases 9 - i,
    {
        out.push(text_of(h[i]));
        i = i + 1;
    }
    assert(texts(out@) =~= header_fields());
    out
}

/// The fields of a stored row as text, in column order.
pub fn row_fields(r: &SheetCsvRow) -> (f: Vec<String>)
    ensures
        texts(f@) == fields_of(*r),
{
    let mut f: Vec<String> = Vec::new();
    f.push(decimal_text(r.sheet_id));
    f.push(opt_field(&r.file_id));
    f.push(opt_field(&r.file_name));
    f.push(opt_field(&r.seller_name));
    f.push(opt_field(&r.invoice_number));
    f.push(opt_field(&r.invoice_date));
    f.push(opt_field(&r.seller_address));
    f.push(opt_field(&r.items_json));
    f.push(r.raw_payload.clone());
    assert(texts(f@) =~= fields_of(*r));
    f
}

/// Encodes a dataset: the header record, then one record per row.
pub fn encode_dataset(rows: &Vec<SheetCsvRow>) -> (r: Vec<u8>)
    ensures
        r@ == dataset_bytes(rows@),
{
    let mut out = match encode_record(&header_record()) {
        Some(b) => b,
        None => Vec::new(),
    };
    let mut i: usize = 0;
    assert(rows@.take(0) =~= Seq::<SheetCsvRow>::empty());
    while i < rows.len()
        invariant
            i <= rows@.len(),
            out@ == dataset_bytes(rows@.take(i as int)),
        decreases rows@.len() - i,
    {
        let mut rec = match encode_record(&row_fields(&rows[i])) {
            Some(b) => b,
            None => Vec::new(),
        };
        assert(rows@.take(i + 1).drop_last() == rows@.take(i as int));
        out.append(&mut rec);
        i = i + 1;
    }
    assert(rows@.take(rows@.len() as int) == rows@);
    out
}

fn opt_from_field(f: String) -> (r: Option<String>)
    ensures
        opt_matches(r, f@),
{
    if f.as_str().unicode_len() == 0 {
        None
    } else {
        Some(f)
    }
}

/// Reads one record as a stored row; `None` where it does not have the
/// layout of one.
pub fn row_from_fields(fields: Vec<String>) -> (r: Option<SheetCsvRow>)
    ensures
        r is Some <==> readable(texts(fields@)),
        r is Some ==> read_as(r->Some_0, texts(fields@)),
{
    let ghost t = texts(fields@);
    if fields.len() != 9 {
        return None;
    }
    let sheet_id = match parse_i64(fields[0].as_str()) {
        Some(v) => v,
        None => {
            assert(t[0] == fields@[0]@);
            return None;
        },
    };
    assert(t[0] == fields@[0]@);
    let mut fields = fields;
    let raw_payload = fields.pop().unwrap();
    let items_json = opt_from_field(fields.pop().unwrap());
    let seller_address = opt_from_field(fields.pop().unwrap());
    let invoice_date = opt_from_field(fields.pop().unwrap());
    let invoice_number = opt_from_field(fields.pop().unwrap());
    let seller_name = opt_from_field(fields.pop().unwrap());
    let file_name = opt_from_field(fields.pop().unwrap());
    let file_id = opt_from_field(fields.pop().unwrap());
    Some(
        SheetCsvRow {
            sheet_id,
            file_id,
            file_name,
            seller_name,
            invoice_number,
            invoice_date,
            seller_address,
            items_json,
            raw_payload,
        },
    )
}

/// Reads records as a dataset: the first is the header, each later one a
/// row. Fails where a record after the header does not have the layout of
/// a row.
pub fn rows_from_records(records: Vec<Vec<String>>) -> (r: Result<Vec<SheetCsvRow>, DatasetError>)
    ensures
        r is Ok <==> all_readable(record_texts(records@)),
        r is Ok ==> decoded_as(r->Ok_0@, record_texts(records@)),
        r is Err ==> r == Err::<Vec<SheetCsvRow>, DatasetError>(DatasetError::Malformed),
{
    let ghost recs = record_texts(records@);
    let n = records.len();
    let mut rest = records;
    let ghost orig = rest@;
    let mut out: Vec<SheetCsvRow> = Vec::new();
    if n == 0 {
        return Ok(out);
    }
    let _header = rest.remove(0);
    let mut k: usize = 1;
    while k < n
        invariant
            n == orig.len(),
            1 <= k <= n,
            recs == record_texts(orig),
            orig == records@,
            rest@ == orig.subrange(k as int, n as int),
            out@.len() == k - 1,
            forall|i: int| 0 <= i < k - 1 ==> read_as(#[trigger] out@[i], recs[i + 1]),
            forall|i: int| 1 <= i < k ==> readable(#[trigger] recs[i]),
        decreases n - k,
    {
        let fields = rest.remove(0);
        assert(fields == orig[k as int]);
        assert(texts(fields@) == recs[k as int]);
        match row_from_fields(fields) {
            Some(row) => {
                out.push(row);
            },
            None => {
                assert(!readable(recs[k as int]));
                return Err(DatasetError::Malformed);
            },
        }
        k = k + 1;
    }
    Ok(out)
}

/// Reads stored dataset bytes: the first record is the header, each later
/// one a row. Fails where the csv reader reports a fault, or where a record
/// does not have the layout of a row.
pub fn decode_dataset(bytes: &[u8]) -> (r: Result<Vec<SheetCsvRow>, DatasetError>)
    ensures
        r == Err::<Vec<SheetCsvRow>, DatasetError>(DatasetError::Unreadable) <==> csv_records(
            bytes@,
        ) is None,
        r == Err::<Vec<SheetCsvRow>, DatasetError>(DatasetError::Malformed) <==> csv_records(
            bytes@,
        ) is Some && !all_readable(csv_records(bytes@)->Some_0),
        r is Ok ==> decoded_as(r->Ok_0@, csv_records(bytes@)->Some_0),
{
    let records = match decode_records(bytes) {
        Some(v) => v,
        None => {
            return Err(DatasetError::Unreadable);
        },
    };
    rows_from_records(records)
}

} // verus!
