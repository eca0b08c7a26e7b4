use invox::dataset::{merge_rows, SheetMeta, SheetRowInput};
use invox::export::{
    append_file_ids, append_unique, download_response, encode_file_ids, file_ids_of,
    parse_file_ids, render_xlsx, tabular_cells, tabular_export, xml_file_row, ExportError,
};
use invox::index::{FileIndex, FileMetadata};
use invox::table::encode_dataset;

fn meta(id: i64, name: &str, file: Option<&str>) -> SheetMeta {
    SheetMeta {
        id,
        sheet_name: name.to_string(),
        sheet_path: String::new(),
        sheet_file_path: file.map(|s| s.to_string()),
        file_ids: Vec::new(),
    }
}

fn row(file_id: &str) -> SheetRowInput {
    SheetRowInput {
        file_id: Some(file_id.to_string()),
        file_name: None,
        seller_name: Some("ACME".to_string()),
        invoice_number: Some("INV-1".to_string()),
        invoice_date: None,
        seller_address: None,
        items_json: None,
        raw_payload: "{}".to_string(),
    }
}

#[test]
fn empty_dataset_cannot_be_exported() {
    let r = tabular_cells(&meta(1, "s", Some("/d/s.csv")), &Vec::new());
    assert_eq!(r.err(), Some(ExportError::NoRows));
    assert!(!ExportError::NoRows.message().is_empty());
    let header_only = encode_dataset(&Vec::new());
    let r = tabular_export(&meta(1, "s", Some("/d/s.csv")), &Some(header_only));
    assert_eq!(r.err(), Some(ExportError::NoRows));
}

#[test]
fn export_needs_stored_data() {
    assert_eq!(tabular_export(&meta(1, "s", None), &None).err(), Some(ExportError::NoStoredData));
    assert_eq!(tabular_export(&meta(1, "s", Some("/d/s.csv")), &None).err(), Some(ExportError::MissingData));
}

#[test]
fn export_lays_out_titles_and_rows() {
    let rows = merge_rows(Vec::new(), 5, vec![row("f1"), row("f2")]);
    let bytes = encode_dataset(&rows);
    let e = tabular_export(&meta(5, "Sales Q1", Some("/d/x.csv")), &Some(bytes)).unwrap();
    assert_eq!(e.file_name, "sales-q1.xlsx");
    assert_eq!(e.row_count, 2);
    assert_eq!(e.cells.len(), 3);
    assert_eq!(e.cells[0][0], "Sheet ID");
    assert_eq!(e.cells[0][7], "Items (JSON)");
    assert_eq!(e.cells[1], vec!["5", "f1", "", "ACME", "INV-1", "", "", "", "{}"]);
    let resp = download_response("/home/u/Downloads", &e);
    assert_eq!(resp.path, "/home/u/Downloads/sales-q1.xlsx");
    assert_eq!(resp.rows, 2);
}

#[test]
fn spreadsheet_bytes_are_a_zip_archive() {
    let rows = merge_rows(Vec::new(), 5, vec![row("f1")]);
    let e = tabular_cells(&meta(5, "", None), &rows).unwrap();
    assert_eq!(e.file_name, "sheet-5.xlsx");
    let bytes = render_xlsx(&e).unwrap();
    assert!(bytes.len() > 100);
    assert_eq!(&bytes[0..2], b"PK");
}

#[test]
fn overlong_cell_is_refused() {
    let mut r = row("f1");
    r.raw_payload = "x".repeat(40000);
    let rows = merge_rows(Vec::new(), 1, vec![r]);
    let e = tabular_cells(&meta(1, "s", None), &rows).unwrap();
    assert_eq!(render_xlsx(&e).err(), Some(ExportError::CellTooLong));
}

fn index_with_payloads() -> FileIndex {
    let mut index = FileIndex::new();
    FileMetadata::save_metadata(&mut index, "f1", "h1", "a.pdf", "/s/f1.pdf", 1, "t").unwrap();
    FileMetadata::save_metadata(&mut index, "f2", "h2", "b.pdf", "/s/f2.pdf", 1, "t").unwrap();
    FileMetadata::save_metadata(&mut index, "f3", "h3", "c.pdf", "/s/f3.pdf", 1, "t").unwrap();
    index.attach_parsed_payload("f1", "<a/>".to_string());
    index.attach_parsed_payload("f3", "<c/>".to_string());
    index
}

#[test]
fn document_joins_present_payloads() {
    let index = index_with_payloads();
    let ids = vec!["f3".to_string(), "f2".to_string(), "f1".to_string()];
    let doc = index.export_document(&ids).unwrap();
    assert_eq!(doc.content, "<a/>\n<c/>\n");
    assert_eq!(doc.file_count, 2);
}

#[test]
fn document_export_errors() {
    let index = index_with_payloads();
    assert_eq!(index.export_document(&Vec::new()).err(), Some(ExportError::NoFiles));
    assert_eq!(index.export_document(&vec!["f2".to_string()]).err(), Some(ExportError::NothingProcessed));
    assert_eq!(index.export_document(&vec!["zz".to_string()]).err(), Some(ExportError::NothingProcessed));
}

#[test]
fn id_lists_round_trip_through_json() {
    let ids = vec!["a".to_string(), "b\"c".to_string()];
    let text = encode_file_ids(&ids);
    assert_eq!(text, "[\"a\",\"b\\\"c\"]");
    assert_eq!(file_ids_of(&text), ids);
    assert!(file_ids_of("not json").is_empty());
}

#[test]
fn appended_ids_are_kept_once() {
    let out = append_unique(
        vec!["a".to_string(), "b".to_string()],
        vec!["b".to_string(), "c".to_string(), "c".to_string()],
    );
    assert_eq!(out, vec!["a", "b", "c"]);
    assert_eq!(append_file_ids("[\"a\"]", vec!["a".to_string(), "z".to_string()]), Ok("[\"a\",\"z\"]".to_string()));
    assert_eq!(append_file_ids("{}", vec![]), Err(ExportError::BadIdList));
}

#[test]
fn xml_rows_count_their_files() {
    let r = xml_file_row(3, "Batch".to_string(), "2024-01-01".to_string(), "[\"a\",\"b\"]");
    assert_eq!(r.file_count, 2);
    assert_eq!(r.xml_name, "Batch");
    assert_eq!(xml_file_row(4, "x".to_string(), "t".to_string(), "oops").file_count, 0);
}

#[test]
fn error_messages_are_fixed_texts() {
    assert_eq!(
        ExportError::NoStoredData.message(),
        "This sheet does not have any stored data yet. Process files before downloading."
    );
    assert_eq!(
        ExportError::MissingData.message(),
        "The stored sheet data could not be located. Try processing files again."
    );
    assert_eq!(ExportError::NoRows.message(), "No rows found for this sheet.");
    assert_eq!(ExportError::NoFiles.message(), "No files associated with this XML export.");
    assert_eq!(
        ExportError::NothingProcessed.message(),
        "None of the files have been processed yet. Process files before generating XML."
    );
}

#[test]
fn unreadable_and_malformed_data_are_told_apart() {
    let m = meta(1, "s", Some("/d/s.csv"));
    let ragged = b"a,b,c\n1,2\n".to_vec();
    assert_eq!(tabular_export(&m, &Some(ragged)).err(), Some(ExportError::Unreadable));
    let bad = b"h1,h2,h3,h4,h5,h6,h7,h8,h9\nx,f,n,s,i,d,a,j,r\n".to_vec();
    assert_eq!(tabular_export(&m, &Some(bad)).err(), Some(ExportError::Malformed));
}

#[test]
fn stored_id_lists_must_be_json_arrays() {
    assert_eq!(parse_file_ids("[\"a\"]"), Ok(vec!["a".to_string()]));
    assert_eq!(parse_file_ids("[1]").err(), Some(ExportError::BadIdList));
    assert_eq!(parse_file_ids("").err(), Some(ExportError::BadIdList));
}
