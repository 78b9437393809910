use archive_manager::display::{detail_title, edit_choices, row_text, shown_value};
use archive_manager::fields::FieldMap;
use archive_manager::model::DynamicModel;
use archive_manager::schema::{FeatureMetadata, Schema, UiTypeDef};
use archive_manager::text::{
    ends_with, join, parse_integer, push_decimal, same_text, signed_to_decimal,
};
use archive_manager::units::split_unit;

fn feature(id: &str, label: &str, title: Option<bool>) -> FeatureMetadata {
    FeatureMetadata {
        id: id.to_string(),
        label: label.to_string(),
        ui_type: UiTypeDef::default(),
        required: false,
        relation: None,
        system_title: title,
    }
}

fn schema() -> Schema {
    Schema {
        features: vec![
            feature("origin", "Origin", Some(false)),
            feature("name", "Name", Some(true)),
            feature("size", "Size", None),
            feature("weight", "Weight", None),
        ],
    }
}

fn model(entries: &[(&str, &str)]) -> DynamicModel {
    let mut fields = FieldMap::new();
    for (key, value) in entries {
        fields.insert(key.to_string(), value.to_string());
    }
    DynamicModel { id: "17".to_string(), is_archived: false, fields }
}

#[test]
fn row_shows_the_first_fields() {
    let text = row_text(
        &model(&[("name", "Urn"), ("origin", "Rome"), ("size", "3m"), ("weight", "2kg")]),
        &schema(),
    );
    assert_eq!(text.heading, "#17");
    assert_eq!(text.title, "Urn");
    assert_eq!(text.lines, vec!["Origin: Rome".to_string(), "Size: 3m".to_string()]);
}

#[test]
fn row_leaves_out_empty_fields() {
    let text = row_text(&model(&[("size", "—"), ("weight", "2kg")]), &schema());
    assert_eq!(text.title, "Untitled");
    assert!(text.lines.is_empty());
    let text = row_text(&model(&[("size", "3m"), ("weight", "2kg")]), &schema());
    assert_eq!(text.lines, vec!["Size: 3m".to_string()]);
}

#[test]
fn title_field_falls_back() {
    let none = Schema { features: vec![feature("a", "A", None)] };
    assert_eq!(none.get_title_field_id(), "title");
    assert_eq!(row_text(&model(&[("title", "T")]), &none).title, "T");
}

#[test]
fn detail_window_is_titled() {
    assert_eq!(detail_title(&model(&[("name", "Urn")]), &schema()), "Graph Item #17 — Urn");
    assert_eq!(detail_title(&model(&[]), &schema()), "Graph Item #17 — ");
}

#[test]
fn empty_values_show_as_a_dash() {
    assert_eq!(shown_value(""), "—");
    assert_eq!(shown_value(" "), " ");
    assert_eq!(shown_value("x"), "x");
}

fn pairs(list: &[(&str, &str)]) -> Vec<(String, String)> {
    list.iter().map(|(a, b)| (a.to_string(), b.to_string())).collect()
}

#[test]
fn required_choice_has_no_blank() {
    let options = vec!["Stone".to_string(), "Metal".to_string()];
    let mut choice = feature("material", "Material", None);
    assert!(edit_choices(&choice).is_empty());
    choice.ui_type = UiTypeDef::Dropdown { options: options.clone() };
    assert_eq!(
        edit_choices(&choice),
        pairs(&[("", "—"), ("Stone", "Stone"), ("Metal", "Metal")])
    );
    choice.required = true;
    assert_eq!(edit_choices(&choice), pairs(&[("Stone", "Stone"), ("Metal", "Metal")]));
    choice.ui_type = UiTypeDef::Unit { name: "Length".to_string(), options };
    assert_eq!(
        edit_choices(&choice),
        pairs(&[("", "—"), ("Stone", "Stone"), ("Metal", "Metal")])
    );
}

#[test]
fn numbers_round_trip_through_text() {
    for n in [0, 7, -7, 10, 12345, i64::MAX, i64::MIN] {
        assert_eq!(signed_to_decimal(n), n.to_string());
        assert_eq!(parse_integer(&signed_to_decimal(n)), Some(n));
    }
    assert_eq!(parse_integer("007"), Some(7));
    assert_eq!(parse_integer("+5"), Some(5));
    assert_eq!(parse_integer("-0"), Some(0));
    for bad in ["", "+", "-", "1.5", "1 ", "--1", "9223372036854775808", "٣"] {
        assert_eq!(parse_integer(bad), None);
    }
    let mut out = "n".to_string();
    push_decimal(&mut out, u64::MAX);
    assert_eq!(out, "n18446744073709551615");
}

#[test]
fn texts_are_joined_and_compared() {
    let parts = vec!["a".to_string(), "".to_string(), "c".to_string()];
    assert_eq!(join(&parts, ", "), "a, , c");
    assert_eq!(join(&vec![], ", "), "");
    assert!(same_text("é", "é"));
    assert!(!same_text("e", "é"));
    assert!(ends_with("30cm", "cm"));
    assert!(ends_with("x", ""));
    assert!(!ends_with("m", "cm"));
}

#[test]
fn longest_unit_wins() {
    let options = vec!["m".to_string(), "µm".to_string(), "".to_string(), "cm".to_string()];
    assert_eq!(split_unit("3µm", &options), ("3".to_string(), "µm".to_string()));
    assert_eq!(split_unit("3cm", &options), ("3".to_string(), "cm".to_string()));
    assert_eq!(split_unit("3", &options), ("3".to_string(), "".to_string()));
    assert_eq!(split_unit("", &[]), ("".to_string(), "".to_string()));
}

#[test]
fn schema_errors_come_in_order() {
    let two = Schema {
        features: vec![
            feature("a", "A", Some(true)),
            feature("b", "B", Some(true)),
            feature("a", "A", None),
            feature("", "C", None),
        ],
    };
    assert_eq!(
        two.validate().unwrap_err().message(),
        "Schema contains duplicate feature ID: 'a'!"
    );
    let empty = Schema { features: vec![] };
    assert_eq!(
        empty.validate().unwrap_err().message(),
        "Schema is missing a required feature marked with system_title = true!"
    );
    assert!(schema().validate().is_ok());
}
