use datamine_exporter::cell::{CellData, ExtendedValue};
use datamine_exporter::error::{CellSlot, ExportError, ValueKind};

fn text(s: &str) -> ExtendedValue {
    ExtendedValue::String { value: s.to_string() }
}

fn number(s: &str) -> ExtendedValue {
    ExtendedValue::Number { value: s.to_string() }
}

fn formula(s: &str) -> ExtendedValue {
    ExtendedValue::Formula { value: s.to_string() }
}

fn cell(entered: Option<ExtendedValue>, computed: Option<ExtendedValue>) -> CellData {
    CellData { user_entered_value: entered, effective_value: computed }
}

#[test]
fn computed_text_wins_over_entered() {
    let c = cell(Some(formula("=CONCAT(\"a\", \"b\")")), Some(text("ab")));
    assert_eq!(c.to_string(), Ok(Some("ab".to_string())));
}

#[test]
fn computed_number_gives_its_decimal_text() {
    let c = cell(Some(number("3")), Some(number("3")));
    assert_eq!(c.to_string(), Ok(Some("3".to_string())));
    let c = cell(None, Some(number("0.5")));
    assert_eq!(c.to_string(), Ok(Some("0.5".to_string())));
}

#[test]
fn image_formula_gives_url() {
    let c = cell(Some(formula("=IMAGE(\"http://x\")")), None);
    assert_eq!(c.to_string(), Ok(Some("http://x".to_string())));
}

#[test]
fn image_formula_keyword_in_any_case() {
    let c = cell(Some(formula("=image(\"http://x\")")), Some(ExtendedValue::Empty));
    assert_eq!(c.to_string(), Ok(Some("http://x".to_string())));
    let c = cell(Some(formula("=ImAgE(\"https://a.b/c.png\")")), None);
    assert_eq!(c.to_string(), Ok(Some("https://a.b/c.png".to_string())));
}

#[test]
fn image_formula_capture_runs_to_last_closer() {
    let c = cell(Some(formula("=IMAGE(\"a\")b\")")), None);
    assert_eq!(c.to_string(), Ok(Some("a\")b".to_string())));
}

#[test]
fn image_formula_match_may_start_inside() {
    let c = cell(Some(formula("x=IMAGE(\"u\")")), None);
    assert_eq!(c.to_string(), Ok(Some("u".to_string())));
}

#[test]
fn other_formula_is_unsupported() {
    let c = cell(Some(formula("=SUM(A1:A3)")), None);
    assert_eq!(
        c.to_string(),
        Err(ExportError::UnsupportedFormula { formula: "=SUM(A1:A3)".to_string() })
    );
}

#[test]
fn image_formula_across_lines_is_unsupported() {
    let c = cell(Some(formula("=IMAGE(\"a\nb\")")), None);
    assert!(matches!(c.to_string(), Err(ExportError::UnsupportedFormula { .. })));
}

#[test]
fn empty_cells_resolve_to_nothing() {
    assert_eq!(cell(None, None).to_string(), Ok(None));
    assert_eq!(cell(Some(ExtendedValue::Empty), None).to_string(), Ok(None));
    assert_eq!(cell(None, Some(ExtendedValue::Empty)).to_string(), Ok(None));
    assert_eq!(cell(Some(ExtendedValue::Empty), Some(ExtendedValue::Empty)).to_string(), Ok(None));
}

#[test]
fn computed_bool_is_unsupported() {
    let c = cell(None, Some(ExtendedValue::Bool { value: true }));
    assert_eq!(
        c.to_string(),
        Err(ExportError::UnsupportedCellType { kind: ValueKind::Bool, slot: CellSlot::Computed })
    );
}

#[test]
fn computed_formula_is_unsupported() {
    let c = cell(None, Some(formula("=IMAGE(\"u\")")));
    assert_eq!(
        c.to_string(),
        Err(ExportError::UnsupportedCellType { kind: ValueKind::Formula, slot: CellSlot::Computed })
    );
}

#[test]
fn entered_literal_without_computed_is_unsupported() {
    let c = cell(Some(text("a")), None);
    assert_eq!(
        c.to_string(),
        Err(ExportError::UnsupportedCellType { kind: ValueKind::Text, slot: CellSlot::Entered })
    );
    let c = cell(Some(number("1")), Some(ExtendedValue::Empty));
    assert_eq!(
        c.to_string(),
        Err(ExportError::UnsupportedCellType { kind: ValueKind::Number, slot: CellSlot::Entered })
    );
    let c = cell(Some(ExtendedValue::Bool { value: false }), None);
    assert_eq!(
        c.to_string(),
        Err(ExportError::UnsupportedCellType { kind: ValueKind::Bool, slot: CellSlot::Entered })
    );
}
