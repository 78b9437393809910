use archive_manager::fields::FieldMap;
use archive_manager::model::DynamicModel;
use archive_manager::schema::{FeatureMetadata, RelationConfig, Schema, UiTypeDef};
use archive_manager::units::split_unit;

#[test]
fn test_split_unit() {
    let options = vec!["cm".to_string(), "m".to_string(), "mm".to_string(), "inch".to_string()];

    assert_eq!(split_unit("30cm", &options), ("30".to_string(), "cm".to_string()));
    assert_eq!(split_unit("1.5m", &options), ("1.5".to_string(), "m".to_string()));
    assert_eq!(split_unit("45", &options), ("45".to_string(), "".to_string()));
    assert_eq!(split_unit("10inch", &options), ("10".to_string(), "inch".to_string()));
    assert_eq!(split_unit("cm", &options), ("".to_string(), "cm".to_string()));
}

#[test]
fn test_schema_validation_success() {
    let schema = Schema {
        features: vec![
            FeatureMetadata {
                id: "title".to_string(),
                label: "Title".to_string(),
                ui_type: UiTypeDef::Text,
                required: true,
                relation: None,
                system_title: Some(true),
            },
            FeatureMetadata {
                id: "description".to_string(),
                label: "Description".to_string(),
                ui_type: UiTypeDef::Text,
                required: false,
                relation: None,
                system_title: None,
            },
        ],
    };
    assert!(schema.validate().is_ok());
    assert_eq!(schema.get_title_field_id(), "title");
}

#[test]
fn test_schema_validation_missing_system_title() {
    let schema = Schema {
        features: vec![
            FeatureMetadata {
                id: "title".to_string(),
                label: "Title".to_string(),
                ui_type: UiTypeDef::Text,
                required: true,
                relation: None,
                system_title: Some(false),
            },
        ],
    };
    let err = schema.validate().unwrap_err();
    assert!(err.message().contains("missing a required feature marked with system_title = true"));
}

#[test]
fn test_schema_validation_multiple_system_titles() {
    let schema = Schema {
        features: vec![
            FeatureMetadata {
                id: "title".to_string(),
                label: "Title".to_string(),
                ui_type: UiTypeDef::Text,
                required: true,
                relation: None,
                system_title: Some(true),
            },
            FeatureMetadata {
                id: "name".to_string(),
                label: "Name".to_string(),
                ui_type: UiTypeDef::Text,
                required: true,
                relation: None,
                system_title: Some(true),
            },
        ],
    };
    let err = schema.validate().unwrap_err();
    assert!(err.message().contains("multiple features are marked with system_title = true"));
}

#[test]
fn test_schema_validation_duplicate_ids() {
    let schema = Schema {
        features: vec![
            FeatureMetadata {
                id: "title".to_string(),
                label: "Title".to_string(),
                ui_type: UiTypeDef::Text,
                required: true,
                relation: None,
                system_title: Some(true),
            },
            FeatureMetadata {
                id: "title".to_string(),
                label: "Alternate Title".to_string(),
                ui_type: UiTypeDef::Text,
                required: false,
                relation: None,
                system_title: None,
            },
        ],
    };
    let err = schema.validate().unwrap_err();
    assert!(err.message().contains("duplicate feature ID: 'title'"));
}

#[test]
fn test_schema_validation_empty_id() {
    let schema = Schema {
        features: vec![
            FeatureMetadata {
                id: "".to_string(),
                label: "Title".to_string(),
                ui_type: UiTypeDef::Text,
                required: true,
                relation: None,
                system_title: Some(true),
            },
        ],
    };
    let err = schema.validate().unwrap_err();
    assert!(err.message().contains("feature with an empty ID"));
}

#[test]
fn test_build_update_query() {
    let schema = Schema {
        features: vec![
            FeatureMetadata {
                id: "title".to_string(),
                label: "Title".to_string(),
                ui_type: UiTypeDef::Text,
                required: true,
                relation: None,
                system_title: Some(true),
            },
            FeatureMetadata {
                id: "dimensions".to_string(),
                label: "Dimensions".to_string(),
                ui_type: UiTypeDef::Unit {
                    name: "Length".to_string(),
                    options: vec!["cm".to_string(), "m".to_string()],
                },
                required: false,
                relation: None,
                system_title: None,
            },
            FeatureMetadata {
                id: "material".to_string(),
                label: "Material".to_string(),
                ui_type: UiTypeDef::Dropdown {
                    options: vec!["Stone".to_string(), "Metal".to_string()],
                },
                required: false,
                relation: Some(RelationConfig {
                    rel_type: "HAS_MATERIAL".to_string(),
                    target_label: "Material".to_string(),
                }),
                system_title: None,
            },
        ],
    };

    let mut fields = FieldMap::new();
    fields.insert("title".to_string(), "Sword".to_string());
    fields.insert("dimensions".to_string(), "90cm".to_string());
    fields.insert("material".to_string(), "Metal".to_string());

    let model = DynamicModel {
        id: "12345".to_string(),
        is_archived: false,
        fields,
    };

    let query = model.build_update_query("TestArchive", &schema);

    // Assert parameters are set correctly
    assert!(query.has_param_key("id"));
    assert!(query.has_param_key("is_archived"));
    assert!(query.has_param_key("title"));
    assert!(query.has_param_key("dimensions"));
    assert!(query.has_param_key("material"));
}
