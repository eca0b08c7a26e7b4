//! The per-task dataset: a growing table of parsed records, at most one per
//! source file.
use vstd::prelude::*;
use crate::naming::{join_path, joined, sanitize_file_name, sanitized};
use crate::table::{
    all_readable, csv_records, dataset_bytes, decode_dataset, decoded_as, encode_dataset,
    DatasetError,
};
use crate::text::{decimal_of, decimal_text, push_text, same_text, text_of};

verus! {

/// A record handed in for a dataset.
pub struct SheetRowInput {
    pub file_id: Option<String>,
    pub file_name: Option<String>,
    pub seller_name: Option<String>,
    pub invoice_number: Option<String>,
    pub invoice_date: Option<String>,
    pub seller_address: Option<String>,
    pub items_json: Option<String>,
    pub raw_payload: String,
}

/// A stored record of a dataset.
pub struct SheetCsvRow {
    pub sheet_id: i64,
    pub file_id: Option<String>,
    pub file_name: Option<String>,
    pub seller_name: Option<String>,
    pub invoice_number: Option<String>,
    pub invoice_date: Option<String>,
    pub seller_address: Option<String>,
    pub items_json: Option<String>,
    pub raw_payload: String,
}

/// A dataset's metadata row.
pub struct SheetMeta {
    pub id: i64,
    pub sheet_name: String,
    pub sheet_path: String,
    pub sheet_file_path: Option<String>,
    pub file_ids: Vec<String>,
}

/// What an append leaves to be written: the backing file's location, the
/// full set of rows, and the bytes that hold them.
pub struct AppendPlan {
    pub path: String,
    pub rows: Vec<SheetCsvRow>,
    pub content: Vec<u8>,
}

/// The label used where a dataset's own name leaves nothing.
pub open spec fn fallback_label(id: i64) -> Seq<char> {
    "sheet-"@ + decimal_of(id as int)
}

/// The backing file of a dataset: the one on record, or else one in `dir`
/// named after the dataset's label.
pub open spec fn resolved_path(meta: SheetMeta, dir: Seq<char>) -> Seq<char> {
    match meta.sheet_file_path {
        Some(p) => p@,
        None => joined(dir, sanitized(meta.sheet_name@, fallback_label(meta.id)) + ".csv"@),
    }
}

/// Whether `rows` are what the stored bytes hold: nothing where there are
/// none.
pub open spec fn stored_rows(rows: Seq<SheetCsvRow>, stored: Option<Vec<u8>>) -> bool {
    match stored {
        None => rows.len() == 0,
        Some(b) => csv_records(b@) is Some && decoded_as(rows, csv_records(b@)->Some_0),
    }
}

/// Whether stored bytes read as a dataset: there are none, or the csv
/// reader accepts them and every record after the header is a row.
pub open spec fn readable_store(stored: Option<Vec<u8>>) -> bool {
    match stored {
        None => true,
        Some(b) => csv_records(b@) is Some && all_readable(csv_records(b@)->Some_0),
    }
}

/// The label used where a dataset's own name leaves nothing.
pub fn fallback_name(id: i64) -> (r: String)
    ensures
        r@ == fallback_label(id),
{
    let mut r = text_of("sheet-");
    let d = decimal_text(id);
    push_text(&mut r, d.as_str());
    r
}

/// The backing file of a dataset: the one on record, or else one in `dir`
/// named after the dataset's label.
pub fn sheet_csv_path(meta: &SheetMeta, dir: &str) -> (r: String)
    ensures
        r@ == resolved_path(*meta, dir@),
{
    match &meta.sheet_file_path {
        Some(p) => p.clone(),
        None => {
            let fallback = fallback_name(meta.id);
            let mut name = sanitize_file_name(meta.sheet_name.as_str(), fallback.as_str());
            push_text(&mut name, ".csv");
            join_path(dir, name.as_str())
        },
    }
}

/// The stored form of an incoming record for dataset `sheet_id`.
pub open spec fn row_of(sheet_id: i64, r: SheetRowInput) -> SheetCsvRow {
    SheetCsvRow {
        sheet_id,
        file_id: r.file_id,
        file_name: r.file_name,
        seller_name: r.seller_name,
        invoice_number: r.invoice_number,
        invoice_date: r.invoice_date,
        seller_address: r.seller_address,
        items_json: r.items_json,
        raw_payload: r.raw_payload,
    }
}

/// Whether some incoming record carries the file identifier `id`.
pub open spec fn resubmitted(incoming: Seq<SheetRowInput>, id: Seq<char>) -> bool {
    exists|j: int|
        0 <= j < incoming.len() && (#[trigger] incoming[j]).file_id is Some
            && incoming[j].file_id->Some_0@ == id
}

/// Whether a stored record gives way to an incoming one for the same file.
/// Records without a file identifier never do.
pub open spec fn replaced(r: SheetCsvRow, incoming: Seq<SheetRowInput>) -> bool {
    r.file_id is Some && resubmitted(incoming, r.file_id->Some_0@)
}

/// The stored records that stay, in their order.
pub open spec fn retained(existing: Seq<SheetCsvRow>, incoming: Seq<SheetRowInput>) -> Seq<
    SheetCsvRow,
>
    decreases existing.len(),
{
    if existing.len() == 0 {
        seq![]
    } else {
        let prev = retained(existing.drop_last(), incoming);
        if replaced(existing.last(), incoming) {
            prev
        } else {
            prev.push(existing.last())
        }
    }
}

/// The incoming records in stored form, in arrival order.
pub open spec fn converted(sheet_id: i64, incoming: Seq<SheetRowInput>) -> Seq<SheetCsvRow>
    decreases incoming.len(),
{
    if incoming.len() == 0 {
        seq![]
    } else {
        converted(sheet_id, incoming.drop_last()).push(row_of(sheet_id, incoming.last()))
    }
}

/// The dataset after incoming records are merged in: the stored records
/// that no incoming record replaces, then all incoming records.
pub open spec fn merged(
    existing: Seq<SheetCsvRow>,
    sheet_id: i64,
    incoming: Seq<SheetRowInput>,
) -> Seq<SheetCsvRow> {
    retained(existing, incoming) + converted(sheet_id, incoming)
}

/// Whether a stored record belongs to file `id`.
pub open spec fn is_row_of_file(r: SheetCsvRow, id: Seq<char>) -> bool {
    r.file_id is Some && r.file_id->Some_0@ == id
}

proof fn lemma_converted_index(sheet_id: i64, incoming: Seq<SheetRowInput>)
    ensures
        converted(sheet_id, incoming).len() == incoming.len(),
        forall|j: int|
            0 <= j < incoming.len() ==> #[trigger] converted(sheet_id, incoming)[j] == row_of(
                sheet_id,
                incoming[j],
            ),
    decreases incoming.len(),
{
    if incoming.len() > 0 {
        let init = incoming.drop_last();
        lemma_converted_index(sheet_id, init);
        let c = converted(sheet_id, incoming);
        assert(c == converted(sheet_id, init).push(row_of(sheet_id, incoming.last())));
        assert forall|j: int| 0 <= j < incoming.len() implies #[trigger] c[j] == row_of(
            sheet_id,
            incoming[j],
        ) by {
            if j < incoming.len() - 1 {
                assert(init[j] == incoming[j]);
                assert(c[j] == converted(sheet_id, init)[j]);
            }
        }
    }
}

proof fn lemma_retained_not_replaced(existing: Seq<SheetCsvRow>, incoming: Seq<SheetRowInput>)
    ensures
        forall|i: int|
            0 <= i < retained(existing, incoming).len() ==> !replaced(
                #[trigger] retained(existing, incoming)[i],
                incoming,
            ),
    decreases existing.len(),
{
    if existing.len() > 0 {
        let init = existing.drop_last();
        lemma_retained_not_replaced(init, incoming);
        let prev = retained(init, incoming);
        let cur = retained(existing, incoming);
        if !replaced(existing.last(), incoming) {
            assert(cur == prev.push(existing.last()));
            assert forall|i: int| 0 <= i < cur.len() implies !replaced(#[trigger] cur[i], incoming) by {
                if i < prev.len() {
                    assert(cur[i] == prev[i]);
                }
            }
        } else {
            assert(cur == prev);
        }
    }
}

/// Merging records into a dataset leaves exactly one record for a file that
/// the merged records name once, and it is the merged one; so after two
/// merges that both name a file, only the second one's record for it
/// remains.
pub proof fn lemma_resubmission_replaces(
    existing: Seq<SheetCsvRow>,
    sheet_id: i64,
    first: Seq<SheetRowInput>,
    second: Seq<SheetRowInput>,
    id: Seq<char>,
    j: int,
)
    requires
        0 <= j < second.len(),
        second[j].file_id is Some,
        second[j].file_id->Some_0@ == id,
        forall|k: int|
            0 <= k < second.len() && k != j ==> !(#[trigger] second[k].file_id is Some
                && second[k].file_id->Some_0@ == id),
    ensures
        ({
            let out = merged(merged(existing, sheet_id, first), sheet_id, second);
            exists|i: int|
                0 <= i < out.len() && out[i] == row_of(sheet_id, second[j]) && forall|k: int|
                    0 <= k < out.len() && #[trigger] is_row_of_file(out[k], id) ==> k == i
        }),
{
    let mid = merged(existing, sheet_id, first);
    let r = retained(mid, second);
    let c = converted(sheet_id, second);
    let out = r + c;
    lemma_retained_not_replaced(mid, second);
    lemma_converted_index(sheet_id, second);
    let i = r.len() + j;
    assert(out[i] == c[j]);
    assert forall|k: int| 0 <= k < out.len() && #[trigger] is_row_of_file(out[k], id) implies k
        == i by {
        if k < r.len() {
            assert(out[k] == r[k]);
            assert(resubmitted(second, id));
        } else {
            assert(out[k] == c[k - r.len()]);
        }
    }
    assert(0 <= i < out.len() && out[i] == row_of(sheet_id, second[j]));
    assert(out == merged(merged(existing, sheet_id, first), sheet_id, second));
}

/// Whether `id` is the file identifier of some incoming record.
fn incoming_has(rows: &Vec<SheetRowInput>, id: &str) -> (r: bool)
    ensures
        r == resubmitted(rows@, id@),
{
    let mut k: usize = 0;
    while k < rows.len()
        invariant
            k <= rows@.len(),
            forall|j: int|
                0 <= j < k ==> !((#[trigger] rows@[j]).file_id is Some && rows@[j].file_id->Some_0@
                    == id@),
        decreases rows@.len() - k,
    {
        match &rows[k].file_id {
            Some(f) => {
                if same_text(f.as_str(), id) {
                    return true;
                }
            },
            None => {},
        }
        k = k + 1;
    }
    false
}

/// Merges incoming records into a dataset: every stored record whose file
/// is named again is dropped, the others stay in order, and all incoming
/// records follow in arrival order. Records without a file identifier are
/// never dropped.
pub fn merge_rows(existing: Vec<SheetCsvRow>, sheet_id: i64, rows: Vec<SheetRowInput>) -> (r: Vec<
    SheetCsvRow,
>)
    ensures
        r@ == merged(existing@, sheet_id, rows@),
{
    let ghost orig = existing@;
    let ghost inc = rows@;
    let mut rest = existing;
    let n = rest.len();
    let mut out: Vec<SheetCsvRow> = Vec::new();
    let mut k: usize = 0;
    assert(orig.subrange(0, n as int) == orig);
    assert(orig.take(0) =~= Seq::<SheetCsvRow>::empty());
    while k < n
        invariant
            n == orig.len(),
            k <= n,
            rows@ == inc,
            rest@ == orig.subrange(k as int, n as int),
            out@ == retained(orig.take(k as int), inc),
        decreases n - k,
    {
        assert(orig.take(k + 1).drop_last() == orig.take(k as int));
        let row = rest.remove(0);
        assert(row == orig[k as int]);
        assert(rest@ == orig.subrange(k + 1, n as int));
        let keep = match &row.file_id {
            Some(f) => !incoming_has(&rows, f.as_str()),
            None => true,
        };
        if keep {
            out.push(row);
        }
        k = k + 1;
    }
    assert(orig.take(n as int) == orig);
    let ghost base = out@;
    let mut rest_in = rows;
    let m = rest_in.len();
    let mut t: usize = 0;
    assert(inc.subrange(0, m as int) == inc);
    assert(inc.take(0) =~= Seq::<SheetRowInput>::empty());
    assert(base + converted(sheet_id, inc.take(0)) == base);
    while t < m
        invariant
            m == inc.len(),
            t <= m,
            rest_in@ == inc.subrange(t as int, m as int),
            out@ == base + converted(sheet_id, inc.take(t as int)),
        decreases m - t,
    {
        assert(inc.take(t + 1).drop_last() == inc.take(t as int));
        let r = rest_in.remove(0);
        assert(r == inc[t as int]);
        assert(rest_in@ == inc.subrange(t + 1, m as int));
        out.push(
            SheetCsvRow {
                sheet_id,
                file_id: r.file_id,
                file_name: r.file_name,
                seller_name: r.seller_name,
                invoice_number: r.invoice_number,
                invoice_date: r.invoice_date,
                seller_address: r.seller_address,
                items_json: r.items_json,
                raw_payload: r.raw_payload,
            },
        );
        t = t + 1;
        assert(out@ =~= base + converted(sheet_id, inc.take(t as int)));
    }
    assert(inc.take(m as int) == inc);
    out
}

/// Appends incoming records to a dataset whose backing file holds `stored`
/// (`None` where there is no file yet). No records is no change. Otherwise
/// the stored rows are read, merged with the incoming ones, and the whole
/// dataset is laid out anew for its backing file; this fails only where the
/// stored bytes do not read as a dataset.
pub fn append_rows(
    meta: &SheetMeta,
    stored: &Option<Vec<u8>>,
    rows: Vec<SheetRowInput>,
    dir: &str,
) -> (r: Result<Option<AppendPlan>, DatasetError>)
    ensures
        r == Ok::<Option<AppendPlan>, DatasetError>(None) <==> rows@.len() == 0,
        rows@.len() > 0 ==> (r is Ok <==> readable_store(*stored)),
        r is Ok && rows@.len() > 0 ==> r->Ok_0 is Some,
        r == Err::<Option<AppendPlan>, DatasetError>(DatasetError::Unreadable) <==> rows@.len() > 0
            && stored is Some && csv_records(stored->Some_0@) is None,
        r == Err::<Option<AppendPlan>, DatasetError>(DatasetError::Malformed) <==> rows@.len() > 0
            && stored is Some && csv_records(stored->Some_0@) is Some && !all_readable(
            csv_records(stored->Some_0@)->Some_0,
        ),
        r is Ok && r->Ok_0 is Some ==> {
            let p = r->Ok_0->Some_0;
            &&& p.path@ == resolved_path(*meta, dir@)
            &&& p.content@ == dataset_bytes(p.rows@)
            &&& exists|before: Seq<SheetCsvRow>|
                stored_rows(before, *stored) && p.rows@ == merged(before, meta.id, rows@)
        },
{
    if rows.len() == 0 {
        return Ok(None);
    }
    let path = sheet_csv_path(meta, dir);
    let existing = match stored {
        Some(b) => decode_dataset(b.as_slice())?,
        None => Vec::new(),
    };
    let ghost before = existing@;
    assert(stored_rows(before, *stored));
    let merged_rows = merge_rows(existing, meta.id, rows);
    let content = encode_dataset(&merged_rows);
    Ok(Some(AppendPlan { path, rows: merged_rows, content }))
}

} // verus!
