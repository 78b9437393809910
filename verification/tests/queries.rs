use archive_manager::fields::FieldMap;
use archive_manager::model::{update_cypher, DynamicModel};
use archive_manager::queries::{
    after_count, after_keys, count_cypher, count_query, create_cypher, create_query,
    created_model, delete_cypher, delete_query, keys_cypher, list_cypher, list_query,
    listed_models, migration_cyphers, migration_queries, try_after_count, try_after_keys,
    try_created_model, try_listed_models, ReplyError, StatusStep,
};
use archive_manager::schema::{FeatureMetadata, RelationConfig, Schema, UiTypeDef};
use neo4rs::{BoltInteger, BoltList, BoltMap, BoltNode, BoltNull, BoltString, BoltType, Node, Row};

fn field(id: &str, relation: Option<(&str, &str)>, title: bool) -> FeatureMetadata {
    FeatureMetadata {
        id: id.to_string(),
        label: id.to_uppercase(),
        ui_type: UiTypeDef::Text,
        required: false,
        relation: relation.map(|(rel_type, target_label)| RelationConfig {
            rel_type: rel_type.to_string(),
            target_label: target_label.to_string(),
        }),
        system_title: if title { Some(true) } else { None },
    }
}

fn schema() -> Schema {
    Schema {
        features: vec![
            field("title", None, true),
            field("dimensions", None, false),
            field("material", Some(("HAS_MATERIAL", "Material")), false),
        ],
    }
}

fn text(value: &str) -> BoltType {
    BoltType::String(BoltString::from(value))
}

fn number(value: i64) -> BoltType {
    BoltType::Integer(BoltInteger::new(value))
}

fn node(id: i64, properties: Vec<(&str, BoltType)>) -> BoltNode {
    let mut map = BoltMap::new();
    for (key, value) in properties {
        map.put(BoltString::from(key), value);
    }
    BoltNode::new(BoltInteger::new(id), BoltList::new(), map)
}

fn row(columns: Vec<(&str, BoltType)>) -> Row {
    let mut names = BoltList::new();
    let mut values = BoltList::new();
    for (name, value) in columns {
        names.push(text(name));
        values.push(value);
    }
    Row::new(names, values)
}

fn fields(entries: &[(&str, &str)]) -> FieldMap {
    let mut map = FieldMap::new();
    for (key, value) in entries {
        map.insert(key.to_string(), value.to_string());
    }
    map
}

#[test]
fn update_text_replaces_relations() {
    assert_eq!(
        update_cypher("Roman", &schema()),
        "MATCH (n:Roman) WHERE id(n) = $id SET n.is_archived = $is_archived, n.title = $title, \
         n.dimensions = $dimensions\n\
         WITH n\n\
         OPTIONAL MATCH (n)-[r2 : HAS_MATERIAL]->() DELETE r2\n\
         WITH n\n\
         FOREACH (_ IN CASE WHEN $material <> \"\" THEN [1] ELSE [] END | MERGE (m2:Material \
         {name: $material}) MERGE (n)-[:HAS_MATERIAL]->(m2))"
    );
}

#[test]
fn update_text_without_fields() {
    let empty = Schema { features: vec![] };
    assert_eq!(
        update_cypher("A", &empty),
        "MATCH (n:A) WHERE id(n) = $id SET n.is_archived = $is_archived"
    );
}

#[test]
fn update_binds_every_field() {
    let model = DynamicModel {
        id: "7".to_string(),
        is_archived: true,
        fields: fields(&[("title", "Shield"), ("dimensions", ""), ("extra", "x")]),
    };
    let query = model.build_update_query("Roman", &schema());
    for key in ["id", "is_archived", "title", "dimensions", "extra"] {
        assert!(query.has_param_key(key));
    }
    assert!(!query.has_param_key("material"));
    assert!(!query.has_param_key("search"));
}

#[test]
fn artifact_is_read_from_row_and_node() {
    let node = node(
        -3,
        vec![
            ("title", text("Viking Shield")),
            ("dimensions", BoltType::Null(BoltNull)),
            ("material", text("not from the node")),
            ("is_archived", BoltType::from(true)),
        ],
    );
    let row = row(vec![("material", text("Metal"))]);
    let model = DynamicModel::from_row(&row, Node::new(node), &schema());
    assert_eq!(model.id, "-3");
    assert!(model.is_archived);
    assert_eq!(model.get_field("title"), "Viking Shield");
    assert_eq!(model.get_field("dimensions"), "");
    assert_eq!(model.get_field("material"), "Metal");
    assert_eq!(model.fields.len(), 3);
}

#[test]
fn unreadable_values_count_as_empty() {
    let node = node(5, vec![("title", number(12)), ("is_archived", text("yes"))]);
    let model = DynamicModel::from_row(&row(vec![]), Node::new(node), &schema());
    assert_eq!(model.id, "5");
    assert!(!model.is_archived);
    assert_eq!(model.get_field("title"), "");
    assert_eq!(model.get_field("dimensions"), "");
    assert_eq!(model.get_field("material"), "");
    assert_eq!(model.get_field("unknown"), "");
}

#[test]
fn status_texts() {
    assert_eq!(
        count_cypher("Roman"),
        "MATCH (n:Artifact:Roman) RETURN count(n) AS count LIMIT 1"
    );
    assert_eq!(
        keys_cypher("Roman"),
        "MATCH (n:Artifact:Roman) UNWIND keys(n) AS key RETURN DISTINCT key"
    );
    assert!(!count_query("Roman").has_param_key("count"));
}

#[test]
fn archive_without_artifacts_does_not_exist() {
    for reply in [None, Some(row(vec![("count", number(0))])), Some(row(vec![("count", text("1"))]))] {
        match after_count("Roman", reply) {
            StatusStep::Known(status) => {
                assert!(!status.exists);
                assert!(status.property_fields.is_empty());
            }
            StatusStep::AskKeys(_) => panic!("no keys to ask for"),
        }
    }
}

#[test]
fn archive_with_artifacts_is_asked_for_its_keys() {
    assert!(matches!(
        after_count("Roman", Some(row(vec![("count", number(4))]))),
        StatusStep::AskKeys(_)
    ));
    let rows = vec![
        row(vec![("key", text("title"))]),
        row(vec![("key", text("is_archived"))]),
        row(vec![("key", number(3))]),
        row(vec![("other", text("x"))]),
        row(vec![("key", text("dimensions"))]),
    ];
    let status = after_keys(&rows);
    assert!(status.exists);
    assert_eq!(status.property_fields, vec!["title".to_string(), "dimensions".to_string()]);
}

#[test]
fn migration_removes_then_adds() {
    let add = vec!["a".to_string(), "b".to_string()];
    let remove = vec!["old".to_string(), "older".to_string()];
    assert_eq!(
        migration_cyphers("Roman", &add, &remove),
        vec![
            "MATCH (n:Artifact:Roman) REMOVE n.old, n.older".to_string(),
            "MATCH (n:Artifact:Roman) SET n.a = \"\", n.b = \"\"".to_string(),
        ]
    );
    assert_eq!(migration_queries("Roman", &add, &remove).len(), 2);
    assert_eq!(
        migration_cyphers("Roman", &vec![], &remove),
        vec!["MATCH (n:Artifact:Roman) REMOVE n.old, n.older".to_string()]
    );
    assert_eq!(migration_queries("Roman", &add, &vec![]).len(), 1);
    assert!(migration_queries("Roman", &vec![], &vec![]).is_empty());
}

#[test]
fn listing_without_search() {
    assert_eq!(
        list_cypher("Roman", &schema(), ""),
        "MATCH (n:Artifact:Roman)\n\
         OPTIONAL MATCH (n)-[:HAS_MATERIAL]->(r2:Material)\n\
         RETURN n, r2.name AS material ORDER BY id(n) SKIP $skip LIMIT $limit"
    );
}

#[test]
fn listing_with_search() {
    assert_eq!(
        list_cypher("Roman", &schema(), "Shield"),
        "MATCH (n:Artifact:Roman) WHERE n.title CONTAINS $search\n\
         OPTIONAL MATCH (n)-[:HAS_MATERIAL]->(r2:Material)\n\
         RETURN n, r2.name AS material ORDER BY id(n) SKIP $skip LIMIT $limit"
    );
    let query = list_query("Roman", &schema(), 50, 25, "Shield");
    for key in ["search", "skip", "limit"] {
        assert!(query.has_param_key(key));
    }
    assert!(!query.has_param_key("id"));
}

#[test]
fn listed_rows_become_artifacts() {
    let rows = vec![
        row(vec![
            ("n", BoltType::Node(node(1, vec![("title", text("Sword"))]))),
            ("material", text("Iron")),
        ]),
        row(vec![
            ("n", BoltType::Node(node(2, vec![("title", text("Shield"))]))),
            ("material", BoltType::Null(BoltNull)),
        ]),
    ];
    let models = listed_models(&rows, &schema()).unwrap();
    assert_eq!(models.len(), 2);
    assert_eq!(models[0].id, "1");
    assert_eq!(models[0].get_field("title"), "Sword");
    assert_eq!(models[0].get_field("material"), "Iron");
    assert_eq!(models[1].id, "2");
    assert_eq!(models[1].get_field("material"), "");
}

#[test]
fn listed_row_without_node_is_an_error() {
    for columns in [vec![], vec![("n", text("node"))], vec![("n", number(1))]] {
        let rows = vec![row(columns)];
        assert!(matches!(listed_models(&rows, &schema()), Err(ReplyError::NotANode(_))));
    }
}

#[test]
fn creation_sets_the_properties() {
    assert_eq!(
        create_cypher("Roman", &schema()),
        "CREATE (n:Artifact:Roman) SET n.is_archived = false, n.title = $title, \
         n.dimensions = $dimensions RETURN n"
    );
    let query = create_query("Roman", &fields(&[("title", "Sword"), ("material", "Iron")]), &schema());
    assert!(query.has_param_key("title"));
    assert!(query.has_param_key("dimensions"));
    assert!(!query.has_param_key("material"));
}

#[test]
fn created_artifact_has_every_field() {
    let given = fields(&[("title", "Roman Shield"), ("material", "Stone"), ("extra", "x")]);
    let reply = row(vec![("n", BoltType::Node(node(9, vec![])))]);
    let model = created_model(Some(reply), &given, &schema()).unwrap();
    assert_eq!(model.id, "9");
    assert!(!model.is_archived);
    assert_eq!(model.get_field("title"), "Roman Shield");
    assert_eq!(model.get_field("dimensions"), "");
    assert_eq!(model.get_field("material"), "Stone");
    assert_eq!(model.get_field("extra"), "");
    assert_eq!(model.fields.len(), 3);
}

#[test]
fn creation_without_a_node_is_an_error() {
    assert!(matches!(
        created_model(None, &FieldMap::new(), &schema()),
        Err(ReplyError::NoRows)
    ));
    assert!(matches!(
        created_model(Some(row(vec![("n", number(1))])), &FieldMap::new(), &schema()),
        Err(ReplyError::NotANode(_))
    ));
}

#[test]
fn deletion_needs_a_number() {
    assert_eq!(
        delete_cypher("Roman"),
        "MATCH (n:Artifact:Roman) WHERE id(n) = $id DETACH DELETE n"
    );
    assert!(delete_query("Roman", "42").unwrap().has_param_key("id"));
    assert!(delete_query("Roman", "-9223372036854775808").is_ok());
    assert!(delete_query("Roman", "+7").is_ok());
    for id in ["", "x", "4x", "-", "9223372036854775808", " 1"] {
        let error = delete_query("Roman", id).err().unwrap();
        assert_eq!(error.message(), format!("Invalid artifact id: {id}"));
    }
}

#[test]
fn any_reply_can_be_asked() {
    assert!(matches!(
        try_after_count("Roman", Some(row(vec![("count", number(4))]))),
        Some(StatusStep::AskKeys(_))
    ));
    assert!(matches!(try_after_count("Roman", None), Some(StatusStep::Known(_))));
    let status = try_after_keys(&vec![row(vec![("key", text("title"))]), row(vec![])]).unwrap();
    assert_eq!(status.property_fields, vec!["title".to_string()]);

    let named = node(1, vec![("title", text("Sword")), ("dimensions", number(3))]);
    let columns = vec![("n", BoltType::Node(named.clone())), ("material", text("Iron"))];
    let models = try_listed_models(&vec![row(columns)], &schema()).unwrap().unwrap();
    assert_eq!(models.len(), 1);
    assert_eq!(models[0].get_field("title"), "Sword");
    assert_eq!(models[0].get_field("dimensions"), "");
    assert_eq!(models[0].get_field("material"), "Iron");
    let model = DynamicModel::try_from_row(&row(vec![]), Node::new(named), &schema()).unwrap();
    assert_eq!(model.get_field("title"), "Sword");

    for columns in [vec![], vec![("n", text("node"))], vec![("n", BoltType::Null(BoltNull))]] {
        assert!(matches!(
            try_listed_models(&vec![row(columns)], &schema()),
            Some(Err(ReplyError::NotANode(_)))
        ));
    }
    let reply = row(vec![("n", BoltType::Node(node(9, vec![])))]);
    let created = try_created_model(Some(reply), &fields(&[("title", "T")]), &schema());
    let model = created.unwrap().unwrap();
    assert_eq!(model.id, "9");
    assert_eq!(model.get_field("title"), "T");
    assert!(matches!(
        try_created_model(None, &FieldMap::new(), &schema()),
        Some(Err(ReplyError::NoRows))
    ));
}

#[test]
fn mixed_value_is_not_taken_for_a_node() {
    let mut map = BoltMap::new();
    map.put(BoltString::from("title"), text("x"));
    let odd = node(1, vec![("42.<id>", number(3))]);
    for value in [
        BoltType::Map(map),
        BoltType::List(BoltList::new()),
        BoltType::Node(odd),
    ] {
        let rows = vec![row(vec![("n", value.clone())])];
        assert!(try_listed_models(&rows, &schema()).is_none());
        let reply = row(vec![("n", value)]);
        assert!(try_created_model(Some(reply), &FieldMap::new(), &schema()).is_none());
    }
}
