use datamine_exporter::record::{FieldValue, Record};
use serde_json::Value;

fn to_json(rows: &[Record]) -> Value {
    Value::Array(
        rows.iter()
            .map(|r| {
                let mut m = serde_json::Map::new();
                for (k, v) in &r.fields {
                    let v = match v {
                        FieldValue::Null => Value::Null,
                        FieldValue::Text(s) => Value::String(s.clone()),
                        FieldValue::List(l) => Value::Array(l.iter().cloned().map(Value::String).collect()),
                    };
                    m.insert(k.clone(), v);
                }
                Value::Object(m)
            })
            .collect(),
    )
}

fn from_json(v: &Value) -> Vec<Record> {
    v.as_array()
        .unwrap()
        .iter()
        .map(|o| {
            let mut r = Record::new();
            for (k, v) in o.as_object().unwrap() {
                let v = match v {
                    Value::Null => FieldValue::Null,
                    Value::String(s) => FieldValue::Text(s.clone()),
                    Value::Array(a) => FieldValue::List(a.iter().map(|s| s.as_str().unwrap().to_string()).collect()),
                    other => panic!("unexpected {:?}", other),
                };
                r.insert(k.clone(), v);
            }
            r
        })
        .collect()
}

#[test]
fn export_and_reparse_gives_the_same_records() {
    let mut a = Record::new();
    a.insert("name".to_string(), FieldValue::Text("Fish Pie".to_string()));
    a.insert("category".to_string(), FieldValue::Null);
    a.insert(
        "filenames".to_string(),
        FieldValue::List(vec!["fishpie".to_string(), "fish \"pie\"\n2".to_string()]),
    );
    let mut b = Record::new();
    b.insert("name".to_string(), FieldValue::Text("Ünïcode ✓".to_string()));
    let rows = vec![a, b];
    let bytes = serde_json::to_vec_pretty(&to_json(&rows)).unwrap();
    let back: Value = serde_json::from_slice(&bytes).unwrap();
    assert_eq!(from_json(&back), rows);
}
