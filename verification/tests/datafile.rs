use archive_manager::datafile::{
    export_text, import_records, listed_records, read_document, read_records, resolve_record,
};
use archive_manager::fields::FieldMap;
use archive_manager::model::DynamicModel;
use archive_manager::schema::{FeatureMetadata, Schema, UiTypeDef};
use archive_manager::toml_data::toml_kv;

fn feature(id: &str, ui_type: UiTypeDef) -> FeatureMetadata {
    FeatureMetadata {
        id: id.to_string(),
        label: id.to_string(),
        ui_type,
        required: false,
        relation: None,
        system_title: None,
    }
}

fn schema() -> Schema {
    Schema {
        features: vec![
            feature("title", UiTypeDef::Text),
            feature(
                "dimensions",
                UiTypeDef::Unit {
                    name: "Length".to_string(),
                    options: vec!["cm".to_string(), "m".to_string()],
                },
            ),
            feature("material", UiTypeDef::Dropdown { options: vec!["Stone".to_string()] }),
        ],
    }
}

fn model(id: &str, entries: &[(&str, &str)]) -> DynamicModel {
    let mut fields = FieldMap::new();
    for (key, value) in entries {
        fields.insert(key.to_string(), value.to_string());
    }
    DynamicModel { id: id.to_string(), is_archived: false, fields }
}

#[test]
fn values_are_escaped() {
    assert_eq!(toml_kv("title", "Sword"), "title = \"Sword\"\n");
    assert_eq!(toml_kv("k", "a \"b\" \\c"), "k = \"a \\\"b\\\" \\\\c\"\n");
    assert_eq!(toml_kv("k", ""), "k = \"\"\n");
    assert_eq!(
        toml_kv("k", "a\nb\r\t\0\u{1f}\u{7f}\u{80}"),
        "k = \"a\\u000Ab\\u000D\t\\u0000\\u001F\\u007F\u{80}\"\n"
    );
}

#[test]
fn export_splits_units() {
    let models = vec![
        model("1", &[("title", "Shield"), ("dimensions", "30cm"), ("material", "Stone")]),
        model("2", &[("title", "Sword"), ("dimensions", "45")]),
    ];
    assert_eq!(
        export_text(&models, &schema()),
        "# Exported by Archive Manager – re-importable with File > Import\n\n\
         [[records]]\n\
         title = \"Shield\"\n\
         dimensions = \"30\"\n\
         dimensions_unit = \"cm\"\n\
         material = \"Stone\"\n\
         \n\
         [[records]]\n\
         title = \"Sword\"\n\
         dimensions = \"45\"\n\
         material = \"\"\n\
         \n"
    );
}

#[test]
fn export_of_nothing_is_the_header() {
    assert_eq!(
        export_text(&vec![], &schema()),
        "# Exported by Archive Manager – re-importable with File > Import\n\n"
    );
    assert!(import_records(&export_text(&vec![], &schema()), &schema()).unwrap().is_empty());
}

#[test]
fn export_reads_back() {
    let values = [
        ("plain", "100cm", "Stone"),
        ("quotes \" and \\ backslashes \\\" \\n", "m", ""),
        ("\ttabs, # and = and [[records]]", "3.5", "é – 石"),
        ("", "", ""),
        ("'", "1cmm", "\\"),
    ];
    let mut models = Vec::new();
    for (title, dimensions, material) in values {
        models.push(model(
            "5",
            &[
                ("title", title),
                ("dimensions", dimensions),
                ("material", material),
                ("not in the schema", "x"),
            ],
        ));
    }
    let read = import_records(&export_text(&models, &schema()), &schema()).unwrap();
    assert_eq!(read.len(), values.len());
    for (fields, (title, dimensions, material)) in read.iter().zip(values) {
        assert_eq!(fields.get("title").unwrap(), title);
        assert_eq!(fields.get("dimensions").unwrap(), dimensions);
        assert_eq!(fields.get("material").unwrap(), material);
        assert_eq!(fields.len(), 3);
    }
}

#[test]
fn import_export_import_is_stable() {
    let raw = "[[records]]\ntitle = 'Urn'\ndimensions = \"30\"\ndimensions_unit = \"cm\"\n";
    let first = import_records(raw, &schema()).unwrap();
    assert_eq!(first[0].get("dimensions").unwrap(), "30cm");
    let models = vec![DynamicModel {
        id: "1".to_string(),
        is_archived: false,
        fields: first[0].clone(),
    }];
    let again = import_records(&export_text(&models, &schema()), &schema()).unwrap();
    assert_eq!(again.len(), 1);
    for id in ["title", "dimensions", "material"] {
        assert_eq!(again[0].get(id), first[0].get(id));
    }
}

#[test]
fn import_ignores_extra_and_fills_missing() {
    let raw = "other = 3\n[[records]]\ntitle = \"A\"\nextra = \"x\"\n\n[[records]]\n";
    let read = import_records(raw, &schema()).unwrap();
    assert_eq!(read.len(), 2);
    assert_eq!(read[0].get("title").unwrap(), "A");
    assert_eq!(read[0].get("dimensions").unwrap(), "");
    assert!(read[0].get("extra").is_none());
    assert_eq!(read[1].get("title").unwrap(), "");
    assert_eq!(read[1].len(), 3);
}

#[test]
fn import_without_records_is_empty() {
    assert!(import_records("", &schema()).unwrap().is_empty());
    assert!(import_records("title = \"A\"\n", &schema()).unwrap().is_empty());
    assert!(import_records("records = []\n", &schema()).unwrap().is_empty());
}

#[test]
fn import_takes_inline_tables() {
    let read = import_records("records = [{title = \"A\"}, {}]\n", &schema()).unwrap();
    assert_eq!(read.len(), 2);
    assert_eq!(read[0].get("title").unwrap(), "A");
}

#[test]
fn import_refuses_other_shapes() {
    for raw in [
        "records",
        "records = \"x\"\n",
        "records = [\"x\"]\n",
        "[records]\ntitle = \"A\"\n",
        "[[records]]\ntitle = 3\n",
        "[[records]]\ntitle = [\"A\"]\n",
        "[[records]]\ntitle.sub = \"A\"\n",
        "[[records]]\ntitle = 1979-05-27\n",
        "[[records]]\ntitle = \"A\"\ntitle = \"B\"\n",
        "[[records]]\ntitle = \"A\nB\"\n",
    ] {
        let error = import_records(raw, &schema()).err().unwrap();
        assert_eq!(error.message("demo_data.toml"), "Invalid TOML in 'demo_data.toml'");
    }
}

#[test]
fn records_of_a_value() {
    let mut table = toml::Table::new();
    table.insert("title".to_string(), toml::Value::String("A".to_string()));
    table.insert("extra".to_string(), toml::Value::String("B".to_string()));
    let mut document = toml::Table::new();
    document.insert(
        "records".to_string(),
        toml::Value::Array(vec![toml::Value::Table(table), toml::Value::Table(toml::Table::new())]),
    );
    let records = read_records(&toml::Value::Table(document)).unwrap();
    assert_eq!(records.len(), 2);
    assert_eq!(records[0].get("title").unwrap(), "A");
    assert_eq!(records[0].get("extra").unwrap(), "B");
    assert_eq!(records[0].len(), 2);
    assert_eq!(records[1].len(), 0);
    assert!(read_records(&toml::Value::Integer(1)).is_err());
}

#[test]
fn records_resolve_to_fields() {
    let mut record = FieldMap::new();
    record.insert("dimensions".to_string(), "30".to_string());
    record.insert("dimensions_unit".to_string(), "cm".to_string());
    record.insert("title_unit".to_string(), "x".to_string());
    record.insert("title".to_string(), "Urn".to_string());
    let fields = resolve_record(&record, &schema());
    assert_eq!(fields.get("dimensions").unwrap(), "30cm");
    assert_eq!(fields.get("title").unwrap(), "Urn");
    assert_eq!(fields.get("material").unwrap(), "");
    assert!(fields.get("dimensions_unit").is_none());
}

#[test]
fn unit_without_value_is_kept() {
    let mut record = FieldMap::new();
    record.insert("dimensions_unit".to_string(), "cm".to_string());
    assert_eq!(resolve_record(&record, &schema()).get("dimensions").unwrap(), "cm");
}

#[test]
fn field_map_keeps_one_value_for_a_key() {
    let mut map = FieldMap::new();
    map.insert("a".to_string(), "1".to_string());
    map.insert("b".to_string(), "2".to_string());
    map.insert("a".to_string(), "3".to_string());
    assert_eq!(map.len(), 2);
    assert_eq!(map.get("a").unwrap(), "3");
    assert_eq!(map.entry(0), ("a".to_string(), "3".to_string()));
    assert_eq!(map.entry(1), ("b".to_string(), "2".to_string()));
    assert_eq!(map.get_or_empty("c"), "");
    assert!(map.get("c").is_none());
}

#[test]
fn keys_are_quoted_where_they_need_it() {
    assert_eq!(toml_kv("a-Z_9", "v"), "a-Z_9 = \"v\"\n");
    assert_eq!(toml_kv("two words", "v"), "\"two words\" = \"v\"\n");
    assert_eq!(toml_kv("a.b", "v"), "\"a.b\" = \"v\"\n");
    assert_eq!(toml_kv("", "v"), "\"\" = \"v\"\n");
    assert_eq!(toml_kv("q\"\n", "v"), "\"q\\\"\\u000A\" = \"v\"\n");
}

#[test]
fn line_reads_back() {
    for key in ["title", "two words", "a.b", "", "größe", "\"\\\n", "[[records]]"] {
        for value in ["", "v", "a\nb", "\"\"\"", "\\u000A", "\r\0\u{7f}\t"] {
            let line = toml_kv(key, value);
            assert_eq!(line.matches('\n').count(), 1);
            assert!(line.ends_with('\n'));
            let mut table = toml::Table::new();
            table.insert(key.to_string(), toml::Value::String(value.to_string()));
            assert_eq!(read_document(&line).unwrap(), toml::Value::Table(table));
        }
    }
    assert!(read_document("title").is_err());
}

#[test]
fn control_characters_read_back() {
    let mut all = String::new();
    for code in 0..=0x9fu8 {
        all.push(code as char);
    }
    let values = ["A\nB", "A\r\nB\r", "\0", "\u{7f}", "\n[[records]]\n", all.as_str()];
    let mut models = Vec::new();
    for value in values {
        models.push(model("1", &[("title", value), ("dimensions", "3\ncm"), ("material", value)]));
    }
    let read = import_records(&export_text(&models, &schema()), &schema()).unwrap();
    assert_eq!(read.len(), values.len());
    for (fields, value) in read.iter().zip(values) {
        assert_eq!(fields.get("title").unwrap(), value);
        assert_eq!(fields.get("dimensions").unwrap(), "3\ncm");
        assert_eq!(fields.get("material").unwrap(), value);
    }
}

#[test]
fn multi_line_import_is_stable() {
    let raw = "[[records]]\ntitle = \"\"\"one\ntwo\"\"\"\nmaterial = \"a\\nb\"\n";
    let first = import_records(raw, &schema()).unwrap();
    assert_eq!(first[0].get("title").unwrap(), "one\ntwo");
    let models = vec![DynamicModel {
        id: "1".to_string(),
        is_archived: false,
        fields: first[0].clone(),
    }];
    let again = import_records(&export_text(&models, &schema()), &schema()).unwrap();
    assert_eq!(again[0].get("title").unwrap(), "one\ntwo");
    assert_eq!(again[0].get("material").unwrap(), "a\nb");
}

#[test]
fn ids_that_need_quotes_read_back() {
    let odd = Schema {
        features: vec![
            feature("two words", UiTypeDef::Text),
            feature(
                "größe.x",
                UiTypeDef::Unit { name: "Length".to_string(), options: vec!["cm".to_string()] },
            ),
            feature("$__toml_private_datetime", UiTypeDef::Text),
        ],
    };
    let models = vec![model(
        "1",
        &[("two words", "a"), ("größe.x", "3cm"), ("$__toml_private_datetime", "c")],
    )];
    let text = export_text(&models, &odd);
    assert!(text.contains("\"größe.x_unit\" = \"cm\"\n"));
    let read = import_records(&text, &odd).unwrap();
    assert_eq!(read[0].get("two words").unwrap(), "a");
    assert_eq!(read[0].get("größe.x").unwrap(), "3cm");
    assert_eq!(read[0].get("$__toml_private_datetime").unwrap(), "c");
}

#[test]
fn record_may_begin_with_any_key() {
    let raw = "[[records]]\n\"$__toml_private_datetime\" = \"x\"\ntitle = \"A\"\n";
    let read = import_records(raw, &schema()).unwrap();
    assert_eq!(read.len(), 1);
    assert_eq!(read[0].get("title").unwrap(), "A");

    let first = Schema { features: vec![feature("$__toml_private_datetime", UiTypeDef::Text)] };
    let models = vec![model("1", &[("$__toml_private_datetime", "1979-05-27")])];
    let read = import_records(&export_text(&models, &first), &first).unwrap();
    assert_eq!(read[0].get("$__toml_private_datetime").unwrap(), "1979-05-27");
}

#[test]
fn date_is_a_record_without_fields() {
    let read = import_records("records = [1979-05-27]\n", &schema()).unwrap();
    assert_eq!(read.len(), 1);
    for id in ["title", "dimensions", "material"] {
        assert_eq!(read[0].get(id).unwrap(), "");
    }
}

#[test]
fn other_entries_are_ignored() {
    let raw = "name = \"demo\"\n[meta]\n\"$__toml_private_datetime\" = \"x\"\n";
    assert!(import_records(raw, &schema()).unwrap().is_empty());
    let raw = "[[more]]\na = \"1\"\n[[records]]\ntitle = \"A\"\n[[more]]\na = \"2\"\n";
    let read = import_records(raw, &schema()).unwrap();
    assert_eq!(read.len(), 1);
    assert_eq!(read[0].get("title").unwrap(), "A");
    let raw = "when = 1979-05-27\n[[records]]\ntitle = \"A\"\n[meta]\nsize = [1, 2]\n";
    let read = import_records(raw, &schema()).unwrap();
    assert_eq!(read.len(), 1);
    assert_eq!(read[0].get("title").unwrap(), "A");
}

#[test]
fn records_among_lists() {
    let entry = |key: &str, value: &str| (key.to_string(), value.to_string());
    let lists = vec![
        ("other".to_string(), vec![vec![entry("title", "x")]]),
        ("records".to_string(), vec![vec![entry("title", "A"), entry("title", "B")], vec![]]),
    ];
    let records = listed_records(&lists);
    assert_eq!(records.len(), 2);
    assert_eq!(records[0].get("title").unwrap(), "B");
    assert_eq!(records[1].len(), 0);
    assert!(listed_records(&vec![]).is_empty());
}
