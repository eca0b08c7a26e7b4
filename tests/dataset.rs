use invox::dataset::{append_rows, merge_rows, sheet_csv_path, SheetCsvRow, SheetMeta, SheetRowInput};
use invox::table::{decode_dataset, encode_dataset, row_fields, row_from_fields, rows_from_records, DatasetError};

fn input(file_id: Option<&str>, seller: &str, payload: &str) -> SheetRowInput {
    SheetRowInput {
        file_id: file_id.map(|s| s.to_string()),
        file_name: file_id.map(|s| format!("{}.pdf", s)),
        seller_name: Some(seller.to_string()),
        invoice_number: None,
        invoice_date: Some("2024-01-31".to_string()),
        seller_address: None,
        items_json: Some("[{\"qty\":1}]".to_string()),
        raw_payload: payload.to_string(),
    }
}

fn meta(id: i64, name: &str, file: Option<&str>) -> SheetMeta {
    SheetMeta {
        id,
        sheet_name: name.to_string(),
        sheet_path: String::new(),
        sheet_file_path: file.map(|s| s.to_string()),
        file_ids: Vec::new(),
    }
}

#[test]
fn resubmitted_file_keeps_only_the_latest_row() {
    let first = merge_rows(Vec::new(), 4, vec![input(Some("f1"), "Old Seller", "p1"), input(Some("f2"), "Other", "p2")]);
    let second = merge_rows(first, 4, vec![input(Some("f1"), "New Seller", "p1b")]);
    let for_f1: Vec<&SheetCsvRow> = second.iter().filter(|r| r.file_id.as_deref() == Some("f1")).collect();
    assert_eq!(for_f1.len(), 1);
    assert_eq!(for_f1[0].seller_name.as_deref(), Some("New Seller"));
    assert_eq!(for_f1[0].raw_payload, "p1b");
    assert_eq!(second.len(), 2);
    assert_eq!(second[0].file_id.as_deref(), Some("f2"));
    assert_eq!(second[1].file_id.as_deref(), Some("f1"));
    assert_eq!(second[1].sheet_id, 4);
}

#[test]
fn rows_without_file_id_are_never_deduplicated() {
    let first = merge_rows(Vec::new(), 1, vec![input(None, "A", "free")]);
    let second = merge_rows(first, 1, vec![input(None, "A", "free")]);
    assert_eq!(second.len(), 2);
}

#[test]
fn sheet_path_falls_back_to_the_label() {
    assert_eq!(sheet_csv_path(&meta(3, "Q1 Invoices", None), "/d/sheets"), "/d/sheets/q1-invoices.csv");
    assert_eq!(sheet_csv_path(&meta(3, "!!!", None), "/d/sheets"), "/d/sheets/sheet-3.csv");
    assert_eq!(sheet_csv_path(&meta(3, "x", Some("/kept/x.csv")), "/d/sheets"), "/kept/x.csv");
}

#[test]
fn append_of_no_rows_is_a_no_op() {
    let r = append_rows(&meta(1, "s", None), &None, Vec::new(), "/d");
    assert!(matches!(r, Ok(None)));
}

#[test]
fn append_writes_header_and_rows() {
    let plan = append_rows(&meta(2, "Sales", None), &None, vec![input(Some("f1"), "ACME", "raw")], "/d")
        .unwrap()
        .unwrap();
    assert_eq!(plan.path, "/d/sales.csv");
    assert_eq!(plan.rows.len(), 1);
    let text = String::from_utf8(plan.content.clone()).unwrap();
    let mut lines = text.lines();
    assert_eq!(
        lines.next(),
        Some("sheet_id,file_id,file_name,seller_name,invoice_number,invoice_date,seller_address,items_json,raw_payload")
    );
    assert_eq!(lines.next(), Some("2,f1,f1.pdf,ACME,,2024-01-31,,\"[{\"\"qty\"\":1}]\",raw"));
    assert_eq!(lines.next(), None);
}

#[test]
fn append_twice_through_stored_bytes_replaces_the_row() {
    let m = meta(2, "Sales", None);
    let first = append_rows(&m, &None, vec![input(Some("f1"), "ACME", "r1"), input(Some("f2"), "B", "r2")], "/d")
        .unwrap()
        .unwrap();
    let second = append_rows(&m, &Some(first.content), vec![input(Some("f1"), "ACME Corp", "r1b")], "/d")
        .unwrap()
        .unwrap();
    let back = decode_dataset(&second.content).unwrap();
    assert_eq!(back.len(), 2);
    assert_eq!(back[0].file_id.as_deref(), Some("f2"));
    assert_eq!(back[1].seller_name.as_deref(), Some("ACME Corp"));
    assert_eq!(back[1].raw_payload, "r1b");
}

#[test]
fn encoded_dataset_reads_back() {
    let rows = merge_rows(Vec::new(), -7, vec![input(Some("f,1"), "Line\nBreak", ""), input(None, "x", "y")]);
    let bytes = encode_dataset(&rows);
    let back = decode_dataset(&bytes).unwrap();
    assert_eq!(back.len(), 2);
    assert_eq!(back[0].sheet_id, -7);
    assert_eq!(back[0].file_id.as_deref(), Some("f,1"));
    assert_eq!(back[0].seller_name.as_deref(), Some("Line\nBreak"));
    assert_eq!(back[0].invoice_number, None);
    assert_eq!(back[1].file_id, None);
}

#[test]
fn header_only_file_has_no_rows() {
    let bytes = encode_dataset(&Vec::new());
    assert!(decode_dataset(&bytes).unwrap().is_empty());
    assert!(decode_dataset(b"").unwrap().is_empty());
}

#[test]
fn malformed_records_are_refused() {
    let bad = b"sheet_id,file_id,file_name,seller_name,invoice_number,invoice_date,seller_address,items_json,raw_payload\nx,f,n,s,i,d,a,j,r\n";
    assert_eq!(decode_dataset(bad).err(), Some(DatasetError::Malformed));
    let ragged = b"a,b,c\n1,2\n";
    assert_eq!(decode_dataset(ragged).err(), Some(DatasetError::Unreadable));
}

#[test]
fn row_fields_render_absent_values_empty() {
    let rows = merge_rows(Vec::new(), 12, vec![input(None, "S", "raw")]);
    let f = row_fields(&rows[0]);
    assert_eq!(f, vec!["12", "", "", "S", "", "2024-01-31", "", "[{\"qty\":1}]", "raw"]);
    let back = row_from_fields(f).unwrap();
    assert_eq!(back.sheet_id, 12);
    assert_eq!(back.file_id, None);
    assert!(row_from_fields(vec!["1".to_string()]).is_none());
}

#[test]
fn headers_are_in_column_order() {
    let h = SheetCsvRow::headers();
    assert_eq!(h[0], "sheet_id");
    assert_eq!(h[8], "raw_payload");
}

#[test]
fn records_read_as_rows_after_the_header() {
    let rec = |v: &[&str]| v.iter().map(|s| s.to_string()).collect::<Vec<String>>();
    let header = rec(&["sheet_id", "file_id", "file_name", "seller_name", "invoice_number", "invoice_date", "seller_address", "items_json", "raw_payload"]);
    let row = rec(&["9", "f9", "", "S", "", "", "", "", "raw"]);
    let rows = rows_from_records(vec![header.clone(), row]).unwrap();
    assert_eq!(rows.len(), 1);
    assert_eq!(rows[0].sheet_id, 9);
    assert_eq!(rows[0].file_id.as_deref(), Some("f9"));
    assert_eq!(rows[0].file_name, None);
    assert!(rows_from_records(Vec::new()).unwrap().is_empty());
    let bad = rec(&["nine", "f9", "", "S", "", "", "", "", "raw"]);
    assert_eq!(rows_from_records(vec![header, bad]).err(), Some(DatasetError::Malformed));
}
