use datamine_exporter::cell::{CellData, ExtendedValue};
use datamine_exporter::dataset::{Datamine, JsonSheet};
use datamine_exporter::enrich::{Enrichment, MissingSheet};
use datamine_exporter::error::ExportError;
use datamine_exporter::record::{FieldValue, Record};
use datamine_exporter::sheet::{GridData, RowData, Sheet, SheetProperties, Spreadsheet};

fn record(pairs: &[(&str, &str)]) -> Record {
    let mut r = Record::new();
    for (k, v) in pairs {
        r.insert(k.to_string(), FieldValue::Text(v.to_string()));
    }
    r
}

fn json_sheet(title: &str, rows: Vec<Record>) -> JsonSheet {
    JsonSheet { title: title.to_string(), rows }
}

fn dataset(sheets: Vec<JsonSheet>) -> Datamine {
    let mut d = Datamine::new();
    for s in sheets {
        d.insert(s);
    }
    d
}

fn list(items: &[&str]) -> FieldValue {
    FieldValue::List(items.iter().map(|s| s.to_string()).collect())
}

fn recipes_join(missing: MissingSheet) -> Enrichment {
    Enrichment {
        target_sheet: "Recipes".to_string(),
        source_field: "name".to_string(),
        foreign_key_field: "category".to_string(),
        join_field: "name".to_string(),
        value_field: "filename".to_string(),
        output_field: "filenames".to_string(),
        missing_sheet: missing,
    }
}

fn fish_pie_dataset() -> Datamine {
    dataset(vec![
        json_sheet("Recipes", vec![record(&[("name", "Fish Pie"), ("category", "Food")])]),
        json_sheet(
            "Food",
            vec![
                record(&[("name", "Fish Pie"), ("filename", "fishpie")]),
                record(&[("name", "Bread"), ("filename", "bread")]),
                record(&[("name", "Fish Pie"), ("filename", "fishpie_alt")]),
            ],
        ),
    ])
}

#[test]
fn recipe_gains_filenames_in_source_order() {
    let mut d = fish_pie_dataset();
    assert_eq!(d.enrich(&recipes_join(MissingSheet::Skip)), Ok(vec![]));
    let recipes = d.get("Recipes").unwrap();
    let r = &recipes.rows[0];
    assert_eq!(r.fields.len(), 3);
    assert_eq!(r.get("name"), Some(&FieldValue::Text("Fish Pie".to_string())));
    assert_eq!(r.get("category"), Some(&FieldValue::Text("Food".to_string())));
    assert_eq!(r.get("filenames"), Some(&list(&["fishpie", "fishpie_alt"])));
    assert_eq!(r.fields[2].0, "filenames");
    assert_eq!(d.get("Food").unwrap().rows.len(), 3);
}

#[test]
fn assign_filenames_to_recipes_joins_by_category() {
    let mut d = fish_pie_dataset();
    assert_eq!(d.assign_filenames_to_recipes(), Ok(vec![]));
    let r = &d.get("Recipes").unwrap().rows[0];
    assert_eq!(r.get("filenames"), Some(&list(&["fishpie", "fishpie_alt"])));
}

#[test]
fn no_match_gives_empty_list() {
    let mut d = dataset(vec![
        json_sheet("Recipes", vec![record(&[("name", "Cake"), ("category", "Food")])]),
        json_sheet("Food", vec![record(&[("name", "Bread"), ("filename", "bread")])]),
    ]);
    assert_eq!(d.assign_filenames_to_recipes(), Ok(vec![]));
    let r = &d.get("Recipes").unwrap().rows[0];
    assert_eq!(r.get("filenames"), Some(&list(&[])));
}

#[test]
fn missing_category_sheet_is_skipped() {
    let mut d = dataset(vec![
        json_sheet(
            "Recipes",
            vec![
                record(&[("name", "Fish Pie"), ("category", "Nowhere")]),
                record(&[("name", "Fish Pie"), ("category", "Food")]),
            ],
        ),
        json_sheet("Food", vec![record(&[("name", "Fish Pie"), ("filename", "fishpie")])]),
    ]);
    assert_eq!(d.assign_filenames_to_recipes(), Ok(vec![0]));
    let rows = &d.get("Recipes").unwrap().rows;
    assert_eq!(rows[0], record(&[("name", "Fish Pie"), ("category", "Nowhere")]));
    assert_eq!(rows[0].get("filenames"), None);
    assert_eq!(rows[1].get("filenames"), Some(&list(&["fishpie"])));
}

#[test]
fn missing_category_sheet_fails_when_asked() {
    let mut d = dataset(vec![json_sheet("Recipes", vec![record(&[("name", "Pie"), ("category", "Nowhere")])])]);
    let before = d.clone();
    assert_eq!(
        d.enrich(&recipes_join(MissingSheet::Fail)),
        Err(ExportError::SheetNotFound { title: "Nowhere".to_string() })
    );
    assert_eq!(d, before);
}

#[test]
fn category_naming_the_target_itself_is_skipped() {
    let mut d = dataset(vec![json_sheet("Recipes", vec![record(&[("name", "Pie"), ("category", "Recipes")])])]);
    assert_eq!(d.assign_filenames_to_recipes(), Ok(vec![0]));
}

#[test]
fn missing_target_sheet_fails() {
    let mut d = dataset(vec![json_sheet("Food", vec![])]);
    assert_eq!(
        d.assign_filenames_to_recipes(),
        Err(ExportError::SheetNotFound { title: "Recipes".to_string() })
    );
}

#[test]
fn recipe_without_category_fails() {
    let mut d = dataset(vec![json_sheet("Recipes", vec![record(&[("name", "Pie")])])]);
    assert_eq!(
        d.assign_filenames_to_recipes(),
        Err(ExportError::FieldMissing { field: "category".to_string() })
    );
}

#[test]
fn recipe_with_null_name_fails() {
    let mut r = record(&[("category", "Food")]);
    r.insert("name".to_string(), FieldValue::Null);
    let mut d = dataset(vec![json_sheet("Recipes", vec![r]), json_sheet("Food", vec![])]);
    assert_eq!(
        d.assign_filenames_to_recipes(),
        Err(ExportError::FieldMissing { field: "name".to_string() })
    );
}

#[test]
fn item_without_filename_fails_and_changes_nothing() {
    let mut d = dataset(vec![
        json_sheet(
            "Recipes",
            vec![
                record(&[("name", "Bread"), ("category", "Food")]),
                record(&[("name", "Pie"), ("category", "Food")]),
            ],
        ),
        json_sheet(
            "Food",
            vec![record(&[("name", "Bread"), ("filename", "bread")]), record(&[("name", "Pie")])],
        ),
    ]);
    let before = d.clone();
    assert_eq!(
        d.assign_filenames_to_recipes(),
        Err(ExportError::FieldMissing { field: "filename".to_string() })
    );
    assert_eq!(d, before);
}

#[test]
fn item_without_name_fails() {
    let mut d = dataset(vec![
        json_sheet("Recipes", vec![record(&[("name", "Pie"), ("category", "Food")])]),
        json_sheet("Food", vec![record(&[("filename", "x")])]),
    ]);
    assert_eq!(
        d.assign_filenames_to_recipes(),
        Err(ExportError::FieldMissing { field: "name".to_string() })
    );
}

fn text_cell(s: &str) -> CellData {
    CellData { user_entered_value: None, effective_value: Some(ExtendedValue::String { value: s.to_string() }) }
}

fn grid_sheet(title: &str, rows: Vec<Vec<&str>>) -> Sheet {
    Sheet {
        properties: SheetProperties { title: title.to_string() },
        data: vec![GridData {
            row_data: rows
                .into_iter()
                .map(|r| RowData { values: r.into_iter().map(text_cell).collect() })
                .collect(),
        }],
    }
}

#[test]
fn dataset_from_spreadsheet() {
    let ss = Spreadsheet {
        sheets: vec![
            grid_sheet("Recipes", vec![vec!["Name", "Category"], vec!["Fish Pie", "Food"]]),
            grid_sheet("Food", vec![vec!["Name", "Filename"], vec!["Fish Pie", "fishpie"]]),
        ],
    };
    let mut d = JsonSheet::all_from_spreadsheet(&ss).unwrap();
    assert_eq!(d.len(), 2);
    assert_eq!(d.get("Food").unwrap().rows[0], record(&[("name", "Fish Pie"), ("filename", "fishpie")]));
    assert_eq!(d.assign_filenames_to_recipes(), Ok(vec![]));
    assert_eq!(d.get("Recipes").unwrap().rows[0].get("filenames"), Some(&list(&["fishpie"])));
}

#[test]
fn later_sheet_of_same_title_replaces_earlier() {
    let ss = Spreadsheet {
        sheets: vec![
            grid_sheet("A", vec![vec!["X"], vec!["1"]]),
            grid_sheet("B", vec![vec!["X"], vec!["2"]]),
            grid_sheet("A", vec![vec!["X"], vec!["3"]]),
        ],
    };
    let d = JsonSheet::all_from_spreadsheet(&ss).unwrap();
    assert_eq!(d.len(), 2);
    assert_eq!(d.sheets[0].title, "A");
    assert_eq!(d.get("A").unwrap().rows[0], record(&[("x", "3")]));
}

#[test]
fn bad_sheet_fails_the_dataset() {
    let ss = Spreadsheet {
        sheets: vec![
            grid_sheet("A", vec![vec!["X"], vec!["1"]]),
            Sheet { properties: SheetProperties { title: "B".to_string() }, data: vec![] },
        ],
    };
    assert_eq!(JsonSheet::all_from_spreadsheet(&ss), Err(ExportError::NoGridData));
}

#[test]
fn dataset_keeps_sheets_in_title_order() {
    let ss = Spreadsheet {
        sheets: vec![
            grid_sheet("b", vec![vec!["X"], vec!["1"]]),
            grid_sheet("B", vec![vec!["X"], vec!["2"]]),
            grid_sheet("Ab", vec![vec!["X"], vec!["3"]]),
            grid_sheet("A", vec![vec!["X"], vec!["4"]]),
            grid_sheet("\u{e9}", vec![vec!["X"], vec!["5"]]),
        ],
    };
    let d = JsonSheet::all_from_spreadsheet(&ss).unwrap();
    let titles: Vec<&str> = d.sheets.iter().map(|s| s.title.as_str()).collect();
    assert_eq!(titles, vec!["A", "Ab", "B", "b", "\u{e9}"]);
    let mut sorted: Vec<String> = titles.iter().map(|s| s.to_string()).collect();
    sorted.sort();
    assert_eq!(titles, sorted);
}

#[test]
fn inserting_keeps_title_order_and_replaces_equal_titles() {
    let mut d = dataset(vec![json_sheet("Zoo", vec![]), json_sheet("Art", vec![]), json_sheet("Moon", vec![])]);
    d.insert(json_sheet("Art", vec![record(&[("x", "1")])]));
    let titles: Vec<&str> = d.sheets.iter().map(|s| s.title.as_str()).collect();
    assert_eq!(titles, vec!["Art", "Moon", "Zoo"]);
    assert_eq!(d.get("Art").unwrap().rows.len(), 1);
}
