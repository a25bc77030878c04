use datamine_exporter::cell::{CellData, ExtendedValue};
use datamine_exporter::error::ExportError;
use datamine_exporter::record::{FieldValue, Record};
use datamine_exporter::sheet::{GridData, RowData, Sheet, SheetProperties, Spreadsheet};
use datamine_exporter::text::{normalize_column_name, normalize_filename_fragment};

fn text(s: &str) -> CellData {
    CellData {
        user_entered_value: Some(ExtendedValue::String { value: s.to_string() }),
        effective_value: Some(ExtendedValue::String { value: s.to_string() }),
    }
}

fn number(s: &str) -> CellData {
    CellData {
        user_entered_value: Some(ExtendedValue::Number { value: s.to_string() }),
        effective_value: Some(ExtendedValue::Number { value: s.to_string() }),
    }
}

fn blank() -> CellData {
    CellData { user_entered_value: None, effective_value: None }
}

fn row(cells: Vec<CellData>) -> RowData {
    RowData { values: cells }
}

fn sheet(title: &str, rows: Vec<RowData>) -> Sheet {
    Sheet {
        properties: SheetProperties { title: title.to_string() },
        data: vec![GridData { row_data: rows }],
    }
}

fn fields(r: &Record) -> Vec<(String, Option<String>)> {
    r.fields
        .iter()
        .map(|(k, v)| {
            let v = match v {
                FieldValue::Null => None,
                FieldValue::Text(s) => Some(s.clone()),
                FieldValue::List(_) => panic!("unexpected list"),
            };
            (k.clone(), v)
        })
        .collect()
}

fn kv(k: &str, v: Option<&str>) -> (String, Option<String>) {
    (k.to_string(), v.map(|s| s.to_string()))
}

#[test]
fn header_and_one_row_give_one_record() {
    let s = sheet(
        "Fruit",
        vec![row(vec![text("Name"), text("Item Count")]), row(vec![text("Apple"), number("3")])],
    );
    assert_eq!(s.column_titles(), Ok(vec!["name".to_string(), "item_count".to_string()]));
    let records = s.json_rows().unwrap();
    assert_eq!(records.len(), 1);
    assert_eq!(fields(&records[0]), vec![kv("name", Some("Apple")), kv("item_count", Some("3"))]);
}

#[test]
fn all_null_rows_are_dropped() {
    let s = sheet(
        "Fruit",
        vec![
            row(vec![text("Name"), text("Count")]),
            row(vec![blank(), blank()]),
            row(vec![text("Pear"), blank()]),
            row(vec![]),
            row(vec![blank()]),
        ],
    );
    let records = s.json_rows().unwrap();
    assert_eq!(records.len(), 1);
    assert_eq!(fields(&records[0]), vec![kv("name", Some("Pear")), kv("count", None)]);
}

#[test]
fn building_twice_gives_the_same_records() {
    let s = sheet(
        "Fruit",
        vec![row(vec![text("Name")]), row(vec![blank()]), row(vec![text("Fig")])],
    );
    assert_eq!(s.json_rows(), s.json_rows());
}

#[test]
fn short_row_gives_null_for_missing_columns() {
    let s = sheet("S", vec![row(vec![text("A"), text("B"), text("C")]), row(vec![text("x")])]);
    let records = s.json_rows().unwrap();
    assert_eq!(fields(&records[0]), vec![kv("a", Some("x")), kv("b", None), kv("c", None)]);
}

#[test]
fn extra_cells_go_under_empty_name_last_wins() {
    let s = sheet("S", vec![row(vec![text("A")]), row(vec![text("x"), text("y"), text("z")])]);
    let records = s.json_rows().unwrap();
    assert_eq!(fields(&records[0]), vec![kv("a", Some("x")), kv("", Some("z"))]);
}

#[test]
fn duplicate_titles_keep_first_position_last_value() {
    let s = sheet("S", vec![row(vec![text("A"), text("B"), text("a")]), row(vec![text("1"), text("2"), text("3")])]);
    let records = s.json_rows().unwrap();
    assert_eq!(fields(&records[0]), vec![kv("a", Some("3")), kv("b", Some("2"))]);
}

#[test]
fn sheet_without_grid_fails() {
    let s = Sheet { properties: SheetProperties { title: "S".to_string() }, data: vec![] };
    assert_eq!(s.column_titles(), Err(ExportError::NoGridData));
    assert_eq!(s.json_rows(), Err(ExportError::NoGridData));
    assert!(matches!(s.rows(), Err(ExportError::NoGridData)));
}

#[test]
fn grid_without_rows_fails() {
    let s = sheet("S", vec![]);
    assert_eq!(s.column_titles(), Err(ExportError::NoColumnTitles));
    assert_eq!(s.json_rows(), Err(ExportError::NoColumnTitles));
    assert_eq!(s.rows().unwrap().len(), 0);
}

#[test]
fn blank_header_cell_fails() {
    let s = sheet("S", vec![row(vec![text("A"), blank()]), row(vec![text("x")])]);
    assert_eq!(s.column_titles(), Err(ExportError::MissingColumnTitle { column: 1 }));
    assert_eq!(s.json_rows(), Err(ExportError::MissingColumnTitle { column: 1 }));
}

#[test]
fn bad_cell_in_data_row_fails_the_sheet() {
    let bad = CellData { user_entered_value: None, effective_value: Some(ExtendedValue::Bool { value: true }) };
    let s = sheet("S", vec![row(vec![text("A")]), row(vec![text("x")]), row(vec![bad])]);
    assert!(matches!(s.json_rows(), Err(ExportError::UnsupportedCellType { .. })));
}

#[test]
fn rows_skip_the_header() {
    let s = sheet("S", vec![row(vec![text("A")]), row(vec![text("x")]), row(vec![text("y")])]);
    let rows = s.rows().unwrap();
    assert_eq!(rows.len(), 2);
    assert_eq!(rows[0].values[0].to_string(), Ok(Some("x".to_string())));
    let only_header = sheet("S", vec![row(vec![text("A")])]);
    assert_eq!(only_header.rows().unwrap().len(), 0);
}

#[test]
fn title_and_lookup() {
    let ss = Spreadsheet { sheets: vec![sheet("One", vec![]), sheet("Two", vec![])] };
    assert_eq!(ss.sheets().len(), 2);
    assert_eq!(ss.find_sheet_by_title("Two").map(|s| s.title()), Some("Two"));
    assert!(ss.find_sheet_by_title("Three").is_none());
}

#[test]
fn column_names_are_normalized() {
    assert_eq!(normalize_column_name("Item Count"), "item_count");
    assert_eq!(normalize_column_name("DIY Recipe #1"), "diy_recipe_#1");
    assert_eq!(normalize_column_name("Ärger X"), "Ärger_x");
}

#[test]
fn filename_fragments_are_normalized() {
    assert_eq!(normalize_filename_fragment("Read Me"), "read_me");
    assert_eq!(normalize_filename_fragment("Tops (Variants) 2.0"), "tops_variants_2.0");
    assert_eq!(normalize_filename_fragment("a_b-c!é"), "a_bc");
}
