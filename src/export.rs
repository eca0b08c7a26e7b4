//! Exports: a dataset as a table of display strings, and the parsed
//! payloads of chosen files as one document; also the identifier lists that
//! export records keep as JSON text.
use vstd::prelude::*;
use crate::dataset::{fallback_label, fallback_name, SheetCsvRow, SheetMeta};
use crate::index::{is_listed, listed, FileEntry, FileIndex};
use crate::naming::{join_path, joined, sanitize_file_name, sanitized};
use crate::table::{
    all_readable, csv_records, decode_dataset, decoded_as, fields_of, row_fields, texts,
    DatasetError,
};
use crate::text::{push_char, push_text, text_of};
use rust_xlsxwriter::Worksheet;

verus! {

/// Why an export could not be made.
#[derive(Clone, Copy, Debug, PartialEq, Eq, Structural)]
pub enum ExportError {
    /// The dataset has no backing file on record.
    NoStoredData,
    /// The backing file on record is not there.
    MissingData,
    /// The backing file could not be read as delimited text.
    Unreadable,
    /// A record of the backing file does not have the layout of a row.
    Malformed,
    /// The dataset holds no rows.
    NoRows,
    /// No files were named.
    NoFiles,
    /// None of the named files has a parsed payload.
    NothingProcessed,
    /// A stored identifier list is not a JSON array of strings.
    BadIdList,
    /// The table has more rows or columns than a worksheet holds.
    TooLarge,
    /// A cell holds more text than a worksheet cell takes.
    CellTooLong,
    /// The spreadsheet writer reported a fault.
    RenderFailed,
}

/// The text shown to the user for each export error.
pub open spec fn export_message(e: ExportError) -> Seq<char> {
    match e {
        ExportError::NoStoredData => "This sheet does not have any stored data yet. Process files before downloading."@,
        ExportError::MissingData => "The stored sheet data could not be located. Try processing files again."@,
        ExportError::Unreadable => "The stored sheet data could not be read."@,
        ExportError::Malformed => "The stored sheet data holds a record that is not a sheet row."@,
        ExportError::NoRows => "No rows found for this sheet."@,
        ExportError::NoFiles => "No files associated with this XML export."@,
        ExportError::NothingProcessed => "None of the files have been processed yet. Process files before generating XML."@,
        ExportError::BadIdList => "The stored file list is not a list of file identifiers."@,
        ExportError::TooLarge => "The sheet has more rows or columns than a spreadsheet holds."@,
        ExportError::CellTooLong => "A value is longer than a spreadsheet cell holds."@,
        ExportError::RenderFailed => "The spreadsheet could not be written."@,
    }
}

impl ExportError {
    /// A description of the error for the user.
    pub fn message(&self) -> (r: &'static str)
        ensures
            r@ == export_message(*self),
            r@.len() > 0,
    {
        proof {
            reveal_strlit("This sheet does not have any stored data yet. Process files before downloading.");
            reveal_strlit("The stored sheet data could not be located. Try processing files again.");
            reveal_strlit("The stored sheet data could not be read.");
            reveal_strlit("The stored sheet data holds a record that is not a sheet row.");
            reveal_strlit("No rows found for this sheet.");
            reveal_strlit("No files associated with this XML export.");
            reveal_strlit("None of the files have been processed yet. Process files before generating XML.");
            reveal_strlit("The stored file list is not a list of file identifiers.");
            reveal_strlit("The sheet has more rows or columns than a spreadsheet holds.");
            reveal_strlit("A value is longer than a spreadsheet cell holds.");
            reveal_strlit("The spreadsheet could not be written.");
        }
        match self {
            ExportError::NoStoredData => "This sheet does not have any stored data yet. Process files before downloading.",
            ExportError::MissingData => "The stored sheet data could not be located. Try processing files again.",
            ExportError::Unreadable => "The stored sheet data could not be read.",
            ExportError::Malformed => "The stored sheet data holds a record that is not a sheet row.",
            ExportError::NoRows => "No rows found for this sheet.",
            ExportError::NoFiles => "No files associated with this XML export.",
            ExportError::NothingProcessed => "None of the files have been processed yet. Process files before generating XML.",
            ExportError::BadIdList => "The stored file list is not a list of file identifiers.",
            ExportError::TooLarge => "The sheet has more rows or columns than a spreadsheet holds.",
            ExportError::CellTooLong => "A value is longer than a spreadsheet cell holds.",
            ExportError::RenderFailed => "The spreadsheet could not be written.",
        }
    }
}

/// A dataset ready to be rendered as a spreadsheet: the file name, and the
/// cells row by row, the header row first.
pub struct TabularExport {
    pub file_name: String,
    pub cells: Vec<Vec<String>>,
    pub row_count: usize,
}

/// The column titles of an exported dataset.
pub open spec fn display_header() -> Seq<Seq<char>> {
    seq![
        "Sheet ID"@,
        "File ID"@,
        "File Name"@,
        "Seller Name"@,
        "Invoice Number"@,
        "Invoice Date"@,
        "Seller Address"@,
        "Items (JSON)"@,
        "Raw Payload"@,
    ]
}

/// The spreadsheet name of an exported dataset.
pub open spec fn export_name(meta: SheetMeta) -> Seq<char> {
    sanitized(meta.sheet_name@, fallback_label(meta.id)) + ".xlsx"@
}

/// Whether `cells` is the table for `rows`: the column titles, then each
/// row's fields as text, absent ones empty.
pub open spec fn table_of(cells: Seq<Vec<String>>, rows: Seq<SheetCsvRow>) -> bool {
    &&& cells.len() == rows.len() + 1
    &&& texts(cells[0]@) == display_header()
    &&& forall|i: int| 0 <= i < rows.len() ==> texts((#[trigger] cells[i + 1])@) == fields_of(rows[i])
}

fn display_header_row() -> (r: Vec<String>)
    ensures
        texts(r@) == display_header(),
{
    let mut r: Vec<String> = Vec::new();
    r.push(text_of("Sheet ID"));
    r.push(text_of("File ID"));
    r.push(text_of("File Name"));
    r.push(text_of("Seller Name"));
    r.push(text_of("Invoice Number"));
    r.push(text_of("Invoice Date"));
    r.push(text_of("Seller Address"));
    r.push(text_of("Items (JSON)"));
    r.push(text_of("Raw Payload"));
    assert(texts(r@) =~= display_header());
    r
}

/// Lays out a dataset's rows for a spreadsheet; a dataset without rows
/// cannot be exported.
pub fn tabular_cells(meta: &SheetMeta, rows: &Vec<SheetCsvRow>) -> (r: Result<
    TabularExport,
    ExportError,
>)
    ensures
        rows@.len() == 0 <==> r == Err::<TabularExport, ExportError>(ExportError::NoRows),
        r is Err ==> r == Err::<TabularExport, ExportError>(ExportError::NoRows),
        r is Ok ==> {
            &&& r->Ok_0.file_name@ == export_name(*meta)
            &&& table_of(r->Ok_0.cells@, rows@)
            &&& r->Ok_0.row_count == rows@.len()
        },
{
    if rows.len() == 0 {
        return Err(ExportError::NoRows);
    }
    let fallback = fallback_name(meta.id);
    let mut file_name = sanitize_file_name(meta.sheet_name.as_str(), fallback.as_str());
    push_text(&mut file_name, ".xlsx");
    let mut cells: Vec<Vec<String>> = Vec::new();
    cells.push(display_header_row());
    let mut i: usize = 0;
    while i < rows.len()
        invariant
            i <= rows@.len(),
            cells@.len() == i + 1,
            texts(cells@[0]@) == display_header(),
            forall|j: int| 0 <= j < i ==> texts((#[trigger] cells@[j + 1])@) == fields_of(rows@[j]),
        decreases rows@.len() - i,
    {
        cells.push(row_fields(&rows[i]));
        i = i + 1;
    }
    Ok(TabularExport { file_name, cells, row_count: rows.len() })
}

/// Exports a dataset whose backing file holds `stored` (`None` where the
/// file on record is not there). Fails where no file is on record, where it
/// is missing or cannot be read, and where it holds no rows.
pub fn tabular_export(meta: &SheetMeta, stored: &Option<Vec<u8>>) -> (r: Result<
    TabularExport,
    ExportError,
>)
    ensures
        meta.sheet_file_path is None ==> r == Err::<TabularExport, ExportError>(
            ExportError::NoStoredData,
        ),
        meta.sheet_file_path is Some && stored is None ==> r == Err::<TabularExport, ExportError>(
            ExportError::MissingData,
        ),
        meta.sheet_file_path is Some && stored is Some ==> {
            let recs = csv_records(stored->Some_0@);
            &&& (r == Err::<TabularExport, ExportError>(ExportError::Unreadable) <==> recs is None)
            &&& (r == Err::<TabularExport, ExportError>(ExportError::Malformed) <==> recs is Some
                && !all_readable(recs->Some_0))
            &&& (r == Err::<TabularExport, ExportError>(ExportError::NoRows) <==> recs is Some
                && all_readable(recs->Some_0) && recs->Some_0.len() <= 1)
            &&& (r is Ok <==> recs is Some && all_readable(recs->Some_0) && recs->Some_0.len()
                > 1)
        },
        r is Ok ==> {
            &&& stored is Some
            &&& csv_records(stored->Some_0@) is Some
            &&& r->Ok_0.file_name@ == export_name(*meta)
            &&& exists|rows: Seq<SheetCsvRow>|
                decoded_as(rows, csv_records(stored->Some_0@)->Some_0) && table_of(
                    r->Ok_0.cells@,
                    rows,
                ) && r->Ok_0.row_count == rows.len()
        },
{
    if meta.sheet_file_path.is_none() {
        return Err(ExportError::NoStoredData);
    }
    let bytes = match stored {
        Some(b) => b,
        None => {
            return Err(ExportError::MissingData);
        },
    };
    let rows = match decode_dataset(bytes.as_slice()) {
        Ok(rows) => rows,
        Err(DatasetError::Malformed) => {
            return Err(ExportError::Malformed);
        },
        Err(DatasetError::Unreadable) => {
            return Err(ExportError::Unreadable);
        },
    };
    let r = tabular_cells(meta, &rows);
    assert(decoded_as(rows@, csv_records(bytes@)->Some_0));
    r
}

#[verifier::external_type_specification]
#[verifier::external_body]
pub struct ExWorksheet(rust_xlsxwriter::Worksheet);

/// The text cells that a worksheet holds, by row and column.
pub uninterp spec fn sheet_cells(ws: Worksheet) -> Map<(u32, u16), Seq<char>>;

/// The number of rows that a worksheet has.
pub const SHEET_ROWS: u32 = 1048576;

/// The number of columns that a worksheet has.
pub const SHEET_COLS: u16 = 16384;

/// The most characters of text that a worksheet cell takes.
pub const CELL_TEXT_MAX: usize = 32767;

/// Relies on `rust_xlsxwriter::Worksheet::new`: a worksheet with no cells.
#[verifier::external_body]
fn new_worksheet() -> (r: Worksheet)
    ensures
        forall|k: (u32, u16)| !(#[trigger] sheet_cells(r).contains_key(k)),
{
    Worksheet::new()
}

/// Relies on `rust_xlsxwriter::Worksheet::write_string`: an empty text is
/// ignored, a text longer than a cell takes is refused, and any other is
/// stored at the position.
#[verifier::external_body]
fn write_cell(ws: &mut Worksheet, row: u32, col: u16, text: &str) -> (r: bool)
    requires
        row < SHEET_ROWS,
        col < SHEET_COLS,
    ensures
        r == (text@.len() <= CELL_TEXT_MAX),
        r && text@.len() > 0 ==> sheet_cells(*final(ws)) == sheet_cells(*old(ws)).insert(
            (row, col),
            text@,
        ),
        !(r && text@.len() > 0) ==> sheet_cells(*final(ws)) == sheet_cells(*old(ws)),
{
    ws.write_string(row, col, text).is_ok()
}

/// Relies on `rust_xlsxwriter::Workbook::push_worksheet` and
/// `Workbook::save_to_buffer`: the bytes of a workbook holding the
/// worksheet, or `None` where the writer reports a fault. The bytes record
/// the time of writing, so nothing is promised of them.
#[verifier::external_body]
fn save_workbook(ws: Worksheet) -> (r: Option<Vec<u8>>) {
    let mut wb = rust_xlsxwriter::Workbook::new();
    wb.push_worksheet(ws);
    wb.save_to_buffer().ok()
}

/// The non-empty cells of the table, by row and column, among the first
/// `i` rows and the first `j` cells of row `i`.
pub open spec fn grid_upto(cells: Seq<Vec<String>>, i: int, j: int) -> Map<(u32, u16), Seq<char>> {
    Map::new(
        |k: (u32, u16)|
            (k.0 < i || (k.0 == i && k.1 < j)) && k.0 < cells.len() && k.1 < cells[k.0 as int]@.len()
                && cells[k.0 as int]@[k.1 as int]@.len() > 0,
        |k: (u32, u16)| cells[k.0 as int]@[k.1 as int]@,
    )
}

/// The non-empty cells of the table, by row and column.
pub open spec fn grid(cells: Seq<Vec<String>>) -> Map<(u32, u16), Seq<char>> {
    grid_upto(cells, cells.len() as int, 0)
}

/// Whether the table fits a worksheet's rows and columns.
pub open spec fn fits_sheet(cells: Seq<Vec<String>>) -> bool {
    cells.len() <= SHEET_ROWS && forall|i: int| 0 <= i < cells.len() ==> (#[trigger] cells[i])@.len() <= SHEET_COLS
}

/// Whether every cell's text fits a worksheet cell.
pub open spec fn cells_fit(cells: Seq<Vec<String>>) -> bool {
    forall|i: int, j: int|
        0 <= i < cells.len() && 0 <= j < cells[i]@.len() ==> (#[trigger] cells[i]@[j])@.len()
            <= CELL_TEXT_MAX
}

/// Writes a table into a new worksheet, row by row. Fails where a cell's
/// text is longer than a worksheet cell takes.
pub fn fill_worksheet(cells: &Vec<Vec<String>>) -> (r: Result<Worksheet, ExportError>)
    requires
        fits_sheet(cells@),
    ensures
        r is Ok <==> cells_fit(cells@),
        r is Ok ==> sheet_cells(r->Ok_0) == grid(cells@),
        r is Err ==> r == Err::<Worksheet, ExportError>(ExportError::CellTooLong),
{
    let mut ws = new_worksheet();
    let mut i: usize = 0;
    assert(sheet_cells(ws) =~= grid_upto(cells@, 0, 0));
    while i < cells.len()
        invariant
            fits_sheet(cells@),
            i <= cells@.len(),
            sheet_cells(ws) == grid_upto(cells@, i as int, 0),
            forall|a: int, b: int|
                0 <= a < i && 0 <= b < cells@[a]@.len() ==> (#[trigger] cells@[a]@[b])@.len()
                    <= CELL_TEXT_MAX,
        decreases cells@.len() - i,
    {
        let row = &cells[i];
        let mut j: usize = 0;
        assert(row@.len() <= SHEET_COLS);
        while j < row.len()
            invariant
                fits_sheet(cells@),
                i < cells@.len(),
                row == cells@[i as int],
                row@.len() <= SHEET_COLS,
                j <= row@.len(),
                sheet_cells(ws) == grid_upto(cells@, i as int, j as int),
                forall|a: int, b: int|
                    0 <= a < i && 0 <= b < cells@[a]@.len() ==> (#[trigger] cells@[a]@[b])@.len()
                        <= CELL_TEXT_MAX,
                forall|b: int| 0 <= b < j ==> (#[trigger] row@[b])@.len() <= CELL_TEXT_MAX,
            decreases row@.len() - j,
        {
            let ok = write_cell(&mut ws, i as u32, j as u16, row[j].as_str());
            if !ok {
                return Err(ExportError::CellTooLong);
            }
            assert(sheet_cells(ws) =~= grid_upto(cells@, i as int, j + 1));
            j = j + 1;
        }
        assert(grid_upto(cells@, i as int, j as int) =~= grid_upto(cells@, i + 1, 0));
        i = i + 1;
    }
    Ok(ws)
}

/// Renders a dataset export as spreadsheet bytes. Fails where the table
/// does not fit a worksheet, where a cell's text is too long, or where the
/// writer reports a fault.
pub fn render_xlsx(export: &TabularExport) -> (r: Result<Vec<u8>, ExportError>)
    ensures
        !fits_sheet(export.cells@) ==> r == Err::<Vec<u8>, ExportError>(ExportError::TooLarge),
        fits_sheet(export.cells@) && !cells_fit(export.cells@) ==> r == Err::<
            Vec<u8>,
            ExportError,
        >(ExportError::CellTooLong),
        r == Err::<Vec<u8>, ExportError>(ExportError::TooLarge) ==> !fits_sheet(export.cells@),
        r == Err::<Vec<u8>, ExportError>(ExportError::CellTooLong) ==> fits_sheet(export.cells@)
            && !cells_fit(export.cells@),
        r is Err ==> r == Err::<Vec<u8>, ExportError>(ExportError::TooLarge) || r == Err::<
            Vec<u8>,
            ExportError,
        >(ExportError::CellTooLong) || r == Err::<Vec<u8>, ExportError>(
            ExportError::RenderFailed,
        ),
{
    let cells = &export.cells;
    if cells.len() > 1048576 {
        return Err(ExportError::TooLarge);
    }
    let mut i: usize = 0;
    while i < cells.len()
        invariant
            i <= cells@.len(),
            cells@.len() <= SHEET_ROWS,
            cells@ == export.cells@,
            forall|a: int| 0 <= a < i ==> (#[trigger] cells@[a])@.len() <= SHEET_COLS,
        decreases cells@.len() - i,
    {
        if cells[i].len() > 16384 {
            assert(cells@[i as int]@.len() > SHEET_COLS);
            assert(!fits_sheet(cells@));
            assert(!fits_sheet(export.cells@));
            return Err(ExportError::TooLarge);
        }
        i = i + 1;
    }
    let ws = fill_worksheet(cells)?;
    match save_workbook(ws) {
        Some(bytes) => Ok(bytes),
        None => Err(ExportError::RenderFailed),
    }
}

/// The payloads of the listed files, in index order, skipping files that
/// have none.
pub open spec fn listed_payloads(entries: Seq<FileEntry>, ids: Seq<String>) -> Seq<Seq<char>>
    decreases entries.len(),
{
    if entries.len() == 0 {
        seq![]
    } else {
        let prev = listed_payloads(entries.drop_last(), ids);
        let e = entries.last();
        if listed(ids, e.id@) && e.parsed_payload is Some {
            prev.push(e.parsed_payload->Some_0@)
        } else {
            prev
        }
    }
}

/// The payloads, each followed by a line break.
pub open spec fn lines_of(parts: Seq<Seq<char>>) -> Seq<char>
    decreases parts.len(),
{
    if parts.len() == 0 {
        seq![]
    } else {
        lines_of(parts.drop_last()) + parts.last() + seq!['\n']
    }
}

/// The payloads of chosen files as one document, and how many there are.
pub struct XmlDownloadResponse {
    pub content: String,
    pub file_count: i32,
}

proof fn lemma_listed_payloads_len(entries: Seq<FileEntry>, ids: Seq<String>)
    ensures
        listed_payloads(entries, ids).len() <= entries.len(),
    decreases entries.len(),
{
    if entries.len() > 0 {
        lemma_listed_payloads_len(entries.drop_last(), ids);
    }
}

impl FileIndex {
    /// Joins the parsed payloads of the listed files, in index order, each
    /// followed by a line break; files without one are skipped. Fails where
    /// no file is listed, or where none of them has a payload.
    pub fn export_document(&self, file_ids: &Vec<String>) -> (r: Result<
        XmlDownloadResponse,
        ExportError,
    >)
        requires
            self.entries@.len() <= i32::MAX,
        ensures
            file_ids@.len() == 0 ==> r == Err::<XmlDownloadResponse, ExportError>(
                ExportError::NoFiles,
            ),
            file_ids@.len() > 0 && listed_payloads(self.entries@, file_ids@).len() == 0 ==> r
                == Err::<XmlDownloadResponse, ExportError>(ExportError::NothingProcessed),
            file_ids@.len() > 0 && listed_payloads(self.entries@, file_ids@).len() > 0 ==> {
                &&& r is Ok
                &&& r->Ok_0.content@ == lines_of(listed_payloads(self.entries@, file_ids@))
                &&& r->Ok_0.file_count == listed_payloads(self.entries@, file_ids@).len()
            },
    {
        if file_ids.len() == 0 {
            return Err(ExportError::NoFiles);
        }
        let mut content = String::new();
        let mut count: i32 = 0;
        let mut i: usize = 0;
        assert(self.entries@.take(0) =~= Seq::<FileEntry>::empty());
        while i < self.entries.len()
            invariant
                i <= self.entries@.len(),
                self.entries@.len() <= i32::MAX,
                count == listed_payloads(self.entries@.take(i as int), file_ids@).len(),
                content@ == lines_of(listed_payloads(self.entries@.take(i as int), file_ids@)),
            decreases self.entries@.len() - i,
        {
            let ghost pre = self.entries@.take(i as int);
            assert(self.entries@.take(i + 1).drop_last() == pre);
            proof {
                lemma_listed_payloads_len(pre, file_ids@);
            }
            let e = &self.entries[i];
            assert(self.entries@.take(i + 1).last() == self.entries@[i as int]);
            if is_listed(file_ids, e.id.as_str()) {
                match &e.parsed_payload {
                    Some(p) => {
                        let ghost parts = listed_payloads(pre, file_ids@);
                        assert(parts.push(p@).drop_last() == parts);
                        push_text(&mut content, p.as_str());
                        push_char(&mut content, '\n');
                        assert(content@ =~= lines_of(parts) + p@ + seq!['\n']);
                        count = count + 1;
                    },
                    None => {},
                }
            }
            i = i + 1;
        }
        assert(self.entries@.take(self.entries@.len() as int) == self.entries@);
        if count == 0 {
            return Err(ExportError::NothingProcessed);
        }
        Ok(XmlDownloadResponse { content, file_count: count })
    }
}

/// The JSON text that the serializer writes for a list of strings.
pub uninterp spec fn json_of_ids(ids: Seq<Seq<char>>) -> Seq<char>;

/// The list of strings that the deserializer reads from JSON text; `None`
/// where the text is not a JSON array of strings.
pub uninterp spec fn ids_of_json(text: Seq<char>) -> Option<Seq<Seq<char>>>;

/// Relies on `serde_json::to_string` on a `Vec<String>`: the list as a JSON
/// array of strings. Strings always serialize and the output goes to
/// memory, so it always succeeds.
#[verifier::external_body]
fn ids_to_json(ids: &Vec<String>) -> (r: Option<String>)
    ensures
        r is Some,
        r->Some_0@ == json_of_ids(texts(ids@)),
{
    serde_json::to_string(ids).ok()
}

/// Relies on `serde_json::from_str` into a `Vec<String>`: the strings of a
/// JSON array of strings, or `None` where the text is not one.
#[verifier::external_body]
fn ids_from_json(text: &str) -> (r: Option<Vec<String>>)
    ensures
        r is Some <==> ids_of_json(text@) is Some,
        r is Some ==> texts(r->Some_0@) == ids_of_json(text@)->Some_0,
{
    serde_json::from_str::<Vec<String>>(text).ok()
}

/// Writes a list of file identifiers as JSON text.
pub fn encode_file_ids(ids: &Vec<String>) -> (r: String)
    ensures
        r@ == json_of_ids(texts(ids@)),
{
    match ids_to_json(ids) {
        Some(t) => t,
        None => String::new(),
    }
}

/// Reads a stored list of file identifiers; fails where the text is not a
/// JSON array of strings.
pub fn parse_file_ids(text: &str) -> (r: Result<Vec<String>, ExportError>)
    ensures
        r is Ok <==> ids_of_json(text@) is Some,
        r is Ok ==> texts(r->Ok_0@) == ids_of_json(text@)->Some_0,
        r is Err ==> r == Err::<Vec<String>, ExportError>(ExportError::BadIdList),
{
    match ids_from_json(text) {
        Some(v) => Ok(v),
        None => Err(ExportError::BadIdList),
    }
}

/// Reads a stored list of file identifiers; text that is not a JSON array
/// of strings reads as no identifiers.
pub fn file_ids_of(text: &str) -> (r: Vec<String>)
    ensures
        match ids_of_json(text@) {
            Some(v) => texts(r@) == v,
            None => r@.len() == 0,
        },
{
    match ids_from_json(text) {
        Some(v) => v,
        None => Vec::new(),
    }
}

/// `existing` followed by each identifier of `new` that is not already
/// there, once, in order.
pub open spec fn with_new_ids(existing: Seq<String>, new: Seq<String>) -> Seq<String>
    decreases new.len(),
{
    if new.len() == 0 {
        existing
    } else {
        let prev = with_new_ids(existing, new.drop_last());
        if listed(prev, new.last()@) {
            prev
        } else {
            prev.push(new.last())
        }
    }
}

/// Appends each identifier of `new` that is not already listed, in order.
pub fn append_unique(existing: Vec<String>, new: Vec<String>) -> (r: Vec<String>)
    ensures
        r@ == with_new_ids(existing@, new@),
{
    let ghost base = existing@;
    let ghost orig = new@;
    let mut out = existing;
    let mut rest = new;
    let n = rest.len();
    let mut k: usize = 0;
    assert(orig.subrange(0, n as int) == orig);
    assert(orig.take(0) =~= Seq::<String>::empty());
    while k < n
        invariant
            n == orig.len(),
            k <= n,
            rest@ == orig.subrange(k as int, n as int),
            out@ == with_new_ids(base, orig.take(k as int)),
        decreases n - k,
    {
        assert(orig.take(k + 1).drop_last() == orig.take(k as int));
        let id = rest.remove(0);
        assert(id == orig[k as int]);
        assert(rest@ == orig.subrange(k + 1, n as int));
        if !is_listed(&out, id.as_str()) {
            out.push(id);
        }
        k = k + 1;
    }
    assert(orig.take(n as int) == orig);
    out
}

/// Adds identifiers to a stored JSON list, keeping each once, and writes
/// the list back. Fails where the stored text is not a list of strings.
pub fn append_file_ids(stored: &str, new: Vec<String>) -> (r: Result<String, ExportError>)
    ensures
        r is Ok <==> ids_of_json(stored@) is Some,
        r is Err ==> r == Err::<String, ExportError>(ExportError::BadIdList),
        r is Ok ==> exists|before: Vec<String>|
            texts(before@) == ids_of_json(stored@)->Some_0 && r->Ok_0@ == json_of_ids(
                texts(with_new_ids(before@, new@)),
            ),
{
    let before = parse_file_ids(stored)?;
    let all = append_unique(before, new);
    Ok(encode_file_ids(&all))
}

/// Where an exported spreadsheet went, and how many rows it holds.
pub struct SheetDownloadResponse {
    pub path: String,
    pub rows: usize,
}

/// The answer for an export written into `dir`.
pub fn download_response(dir: &str, export: &TabularExport) -> (r: SheetDownloadResponse)
    ensures
        r.path@ == joined(dir@, export.file_name@),
        r.rows == export.row_count,
{
    SheetDownloadResponse { path: join_path(dir, export.file_name.as_str()), rows: export.row_count }
}

/// A listing row of a document export record.
pub struct XmlFileRow {
    pub id: i64,
    pub xml_name: String,
    pub created_at: String,
    pub file_count: usize,
}

/// The listing row of a document export record whose file list is stored
/// as `file_ids_json`; a list that cannot be read counts as empty.
pub fn xml_file_row(id: i64, xml_name: String, created_at: String, file_ids_json: &str) -> (r: XmlFileRow)
    ensures
        r.id == id,
        r.xml_name == xml_name,
        r.created_at == created_at,
        r.file_count == match ids_of_json(file_ids_json@) {
            Some(v) => v.len(),
            None => 0,
        },
{
    let ids = file_ids_of(file_ids_json);
    XmlFileRow { id, xml_name, created_at, file_count: ids.len() }
}

} // verus!
