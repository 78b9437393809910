//! Artifacts: what they hold, how they are read from a reply, and the query
//! that stores them.

use vstd::prelude::*;
use vstd::string::*;

use crate::bolt::{
    flag_at, is_moment, new_query, no_params, node_cells, node_flag, node_holds_moment, node_id,
    node_optional_text, node_view, optional_text_at, query_params, query_text, readable_text,
    row_cells, row_holds_moment, row_optional_text, with_flag, with_number, with_text, Cell,
    NodeView, Param, Reading,
};
use crate::fields::{
    lemma_distinct_pairs, lemma_key_has_pair, lemma_last_pair, lemma_pair_has_key, map_of,
    value_or_empty, FieldMap,
};
use crate::schema::{ids, lemma_filter_index, FeatureMetadata, FeatureView, Schema};
use crate::text::{
    decimal, integer_of, join, joined, law_integer_round_trip, parse_integer, push_decimal,
    signed_decimal, signed_to_decimal, views,
};

verus! {

/// An artifact of an archive.
#[derive(Debug)]
pub struct DynamicModel {
    /// The id of the artifact's node.
    pub id: String,
    pub is_archived: bool,
    pub fields: FieldMap,
}

/// What a [`DynamicModel`] holds.
pub struct ModelView {
    pub id: Seq<char>,
    pub is_archived: bool,
    pub fields: Map<Seq<char>, Seq<char>>,
}

impl View for DynamicModel {
    type V = ModelView;

    open spec fn view(&self) -> ModelView {
        ModelView { id: self.id@, is_archived: self.is_archived, fields: self.fields@ }
    }
}

impl Clone for DynamicModel {
    fn clone(&self) -> (copy: DynamicModel)
        ensures
            copy@ == self@,
    {
        DynamicModel {
            id: self.id.clone(),
            is_archived: self.is_archived,
            fields: self.fields.clone(),
        }
    }
}

/// What some artifacts hold.
pub open spec fn model_views(models: Seq<DynamicModel>) -> Seq<ModelView> {
    models.map_values(|m: DynamicModel| m@)
}

/// What a reply holds for a field: a column of the row where the field is a
/// relation, else a property of the node. A value that is missing, null or not
/// a text counts as empty.
pub open spec fn stored_value(
    f: FeatureView,
    row: Map<Seq<char>, Cell>,
    node: Map<Seq<char>, Cell>,
) -> Seq<char> {
    let source = if f.relation is Some { row } else { node };
    match optional_text_at(source, f.id) {
        Some(Some(text)) => text,
        _ => Seq::empty(),
    }
}

/// Each field with its value.
pub open spec fn valued(
    features: Seq<FeatureView>,
    value: spec_fn(FeatureView) -> Seq<char>,
) -> Seq<(Seq<char>, Seq<char>)> {
    features.map_values(|f: FeatureView| (f.id, value(f)))
}

/// The fields of an artifact in a reply.
pub open spec fn stored_fields(
    features: Seq<FeatureView>,
    row: Map<Seq<char>, Cell>,
    node: Map<Seq<char>, Cell>,
) -> Map<Seq<char>, Seq<char>> {
    map_of(valued(features, |f: FeatureView| stored_value(f, row, node)))
}

/// The artifact that a row of a reply and its node hold.
pub open spec fn stored_model(
    features: Seq<FeatureView>,
    row: Map<Seq<char>, Cell>,
    node: NodeView,
) -> ModelView {
    ModelView {
        id: signed_decimal(node.number as int),
        is_archived: flag_at(node.cells, "is_archived"@) == Some(true),
        fields: stored_fields(features, row, node.cells),
    }
}

/// Whether the fields of the artifact in a reply can be read.
pub open spec fn readable_fields(
    features: Seq<FeatureView>,
    row: Map<Seq<char>, Cell>,
    node: Map<Seq<char>, Cell>,
) -> bool {
    forall|i: int|
        0 <= i < features.len() ==> if (#[trigger] features[i]).relation is Some {
            readable_text(row, features[i].id)
        } else {
            readable_text(node, features[i].id)
        }
}

/// Whether a field of the artifact in a reply is no date or time.
pub open spec fn plain_field(
    f: FeatureView,
    row: Map<Seq<char>, Cell>,
    node: Map<Seq<char>, Cell>,
) -> bool {
    if f.relation is Some {
        !is_moment(row, f.id)
    } else {
        !is_moment(node, f.id)
    }
}

/// Whether no field of the artifact in a reply is a date or a time.
pub open spec fn plain_fields(
    features: Seq<FeatureView>,
    row: Map<Seq<char>, Cell>,
    node: Map<Seq<char>, Cell>,
) -> bool {
    forall|i: int| 0 <= i < features.len() ==> plain_field(#[trigger] features[i], row, node)
}

/// `n.<id> = $<id>`
pub open spec fn property_clause(f: FeatureView) -> Seq<char> {
    "n."@ + f.id + " = $"@ + f.id
}

/// One clause for each field that is stored as a property.
pub open spec fn property_clauses(features: Seq<FeatureView>) -> Seq<Seq<char>> {
    features.filter(|f: FeatureView| f.relation is None).map_values(
        |f: FeatureView| property_clause(f),
    )
}

/// The lines that replace the relation of the field at position `i`, none
/// where it has no relation.
pub open spec fn relation_lines(i: int, f: FeatureView) -> Seq<Seq<char>> {
    match f.relation {
        None => Seq::empty(),
        Some(rel) => seq![
            "WITH n"@,
            "OPTIONAL MATCH (n)-[r"@ + decimal(i as nat) + " : "@ + rel.rel_type + "]->() DELETE r"@
                + decimal(i as nat),
            "WITH n"@,
            "FOREACH (_ IN CASE WHEN $"@ + f.id + " <> \"\" THEN [1] ELSE [] END | MERGE (m"@
                + decimal(i as nat) + ":"@ + rel.target_label + " {name: $"@ + f.id
                + "}) MERGE (n)-[:"@ + rel.rel_type + "]->(m"@ + decimal(i as nat) + "))"@,
        ],
    }
}

/// The lines for the relations of all fields.
pub open spec fn all_relation_lines(features: Seq<FeatureView>) -> Seq<Seq<char>>
    decreases features.len(),
{
    if features.len() == 0 {
        Seq::empty()
    } else {
        all_relation_lines(features.drop_last()) + relation_lines(
            features.len() - 1,
            features.last(),
        )
    }
}

/// The text of the query that stores an artifact.
pub open spec fn update_text(archive_name: Seq<char>, features: Seq<FeatureView>) -> Seq<char> {
    let clauses = seq!["n.is_archived = $is_archived"@] + property_clauses(features);
    let first = "MATCH (n:"@ + archive_name + ") WHERE id(n) = $id SET "@ + joined(clauses, ", "@);
    joined(seq![first] + all_relation_lines(features), "\n"@)
}

/// Texts as parameters.
pub open spec fn text_params(fields: Map<Seq<char>, Seq<char>>) -> Map<Seq<char>, Param> {
    fields.map_values(|v: Seq<char>| Param::Text(v))
}

/// The number that an id stands for, zero where it is none.
pub open spec fn id_number(id: Seq<char>) -> i64 {
    match integer_of(id) {
        Some(n) => n,
        None => 0,
    }
}

/// The parameters of the query that stores an artifact: its id, its flag, and
/// every field. A field with the name of one of the first two takes its place.
pub open spec fn update_params(model: ModelView) -> Map<Seq<char>, Param> {
    no_params().insert("id"@, Param::Number(id_number(model.id))).insert(
        "is_archived"@,
        Param::Flag(model.is_archived),
    ).union_prefer_right(text_params(model.fields))
}

/// One more field adds its clause where it is stored as a property.
pub proof fn lemma_property_clauses_step(features: Seq<FeatureView>, k: int)
    requires
        0 <= k < features.len(),
    ensures
        property_clauses(features.take(k + 1)) == if features[k].relation is None {
            property_clauses(features.take(k)).push(property_clause(features[k]))
        } else {
            property_clauses(features.take(k))
        },
{
    let pred = |f: FeatureView| f.relation is None;
    assert(features.take(k + 1) =~= features.take(k).push(features[k]));
    features.take(k).lemma_filter_push(features[k], pred);
    assert(property_clauses(features.take(k + 1)) =~= if features[k].relation is None {
        property_clauses(features.take(k)).push(property_clause(features[k]))
    } else {
        property_clauses(features.take(k))
    });
}

/// `n.<id> = $<id>`
pub(crate) fn property_clause_text(id: &str) -> (out: String)
    ensures
        out@ == "n."@ + id@ + " = $"@ + id@,
{
    let mut out = "n.".to_owned();
    out.append(id);
    out.append(" = $");
    out.append(id);
    out
}

/// Appends one clause for each field that is stored as a property.
pub(crate) fn push_property_clauses(clauses: &mut Vec<String>, schema: &Schema)
    ensures
        views(final(clauses)@) == views(old(clauses)@) + property_clauses(schema@),
{
    let ghost base = views(clauses@);
    let mut i: usize = 0;
    assert(schema@.take(0) =~= Seq::empty());
    assert(property_clauses(schema@.take(0)) =~= Seq::empty());
    assert(views(clauses@) =~= base + property_clauses(schema@.take(0)));
    while i < schema.features.len()
        invariant
            i <= schema.features.len(),
            views(clauses@) == base + property_clauses(schema@.take(i as int)),
        decreases schema.features.len() - i,
    {
        proof {
            lemma_property_clauses_step(schema@, i as int);
        }
        let feature = &schema.features[i];
        let ghost before = clauses@;
        assert(schema@[i as int] == feature@);
        if feature.relation.is_none() {
            clauses.push(property_clause_text(feature.id.as_str()));
            assert(views(clauses@) =~= views(before).push(property_clause(feature@)));
        }
        assert(views(clauses@) =~= base + property_clauses(schema@.take(i + 1)));
        i = i + 1;
    }
    assert(schema@.take(i as int) =~= schema@);
}

/// Appends the lines that replace the relation of the field at position `i`.
fn push_relation_lines(lines: &mut Vec<String>, i: usize, feature: &FeatureMetadata)
    ensures
        views(final(lines)@) == views(old(lines)@) + relation_lines(i as int, feature@),
{
    if let Some(rel) = &feature.relation {
        lines.push("WITH n".to_owned());

        let mut drop_old = "OPTIONAL MATCH (n)-[r".to_owned();
        push_decimal(&mut drop_old, i as u64);
        drop_old.append(" : ");
        drop_old.append(rel.rel_type.as_str());
        drop_old.append("]->() DELETE r");
        push_decimal(&mut drop_old, i as u64);
        lines.push(drop_old);

        lines.push("WITH n".to_owned());

        let mut add_new = "FOREACH (_ IN CASE WHEN $".to_owned();
        add_new.append(feature.id.as_str());
        add_new.append(" <> \"\" THEN [1] ELSE [] END | MERGE (m");
        push_decimal(&mut add_new, i as u64);
        add_new.append(":");
        add_new.append(rel.target_label.as_str());
        add_new.append(" {name: $");
        add_new.append(feature.id.as_str());
        add_new.append("}) MERGE (n)-[:");
        add_new.append(rel.rel_type.as_str());
        add_new.append("]->(m");
        push_decimal(&mut add_new, i as u64);
        add_new.append("))");
        lines.push(add_new);
    }
    assert(views(lines@) =~= views(old(lines)@) + relation_lines(i as int, feature@));
}

/// The text of the query that stores an artifact.
pub fn update_cypher(archive_name: &str, schema: &Schema) -> (text: String)
    ensures
        text@ == update_text(archive_name@, schema@),
{
    let mut clauses: Vec<String> = Vec::new();
    clauses.push("n.is_archived = $is_archived".to_owned());
    assert(views(clauses@) =~= seq!["n.is_archived = $is_archived"@]);
    push_property_clauses(&mut clauses, schema);

    let mut first = "MATCH (n:".to_owned();
    first.append(archive_name);
    first.append(") WHERE id(n) = $id SET ");
    first.append(join(&clauses, ", ").as_str());

    let ghost first_view = first@;
    let mut lines: Vec<String> = Vec::new();
    lines.push(first);
    let mut i: usize = 0;
    assert(schema@.take(0) =~= Seq::empty());
    assert(views(lines@) =~= seq![first_view] + all_relation_lines(schema@.take(0)));
    while i < schema.features.len()
        invariant
            i <= schema.features.len(),
            views(lines@) == seq![first_view] + all_relation_lines(schema@.take(i as int)),
        decreases schema.features.len() - i,
    {
        push_relation_lines(&mut lines, i, &schema.features[i]);
        assert(schema@.take(i + 1).drop_last() =~= schema@.take(i as int));
        assert(views(lines@) =~= seq![first_view] + all_relation_lines(schema@.take(i + 1)));
        i = i + 1;
    }
    assert(schema@.take(i as int) =~= schema@);

    join(&lines, "\n")
}

/// Whether there is a value, even an empty one, for each field of a schema.
pub open spec fn covers(fields: Map<Seq<char>, Seq<char>>, features: Seq<FeatureView>) -> bool {
    forall|i: int| 0 <= i < features.len() ==> fields.contains_key((#[trigger] features[i]).id)
}

/// The values of all fields of a schema cover it.
pub proof fn lemma_valued_covers(
    features: Seq<FeatureView>,
    value: spec_fn(FeatureView) -> Seq<char>,
)
    ensures
        covers(map_of(valued(features, value)), features),
{
    let pairs = valued(features, value);
    assert forall|i: int| 0 <= i < features.len() implies map_of(pairs).contains_key(
        (#[trigger] features[i]).id,
    ) by {
        lemma_pair_has_key(pairs, i);
        assert(pairs[i].0 == features[i].id);
    }
}

/// Where no id occurs twice, each field has the value that was given to it,
/// and nothing else has one.
pub proof fn lemma_valued_fields(
    features: Seq<FeatureView>,
    value: spec_fn(FeatureView) -> Seq<char>,
)
    requires
        ids(features).no_duplicates(),
    ensures
        forall|i: int|
            0 <= i < features.len() ==> map_of(valued(features, value)).contains_key(
                (#[trigger] features[i]).id,
            ) && map_of(valued(features, value))[features[i].id] == value(features[i]),
        map_of(valued(features, value)).dom() == ids(features).to_set(),
{
    let pairs = valued(features, value);
    let map = map_of(pairs);
    assert forall|i: int, j: int| 0 <= i < j < pairs.len() implies (#[trigger] pairs[i]).0 != (
    #[trigger] pairs[j]).0 by {
        assert(ids(features)[i] != ids(features)[j]);
    }
    assert forall|i: int| 0 <= i < features.len() implies map.contains_key(
        (#[trigger] features[i]).id,
    ) && map[features[i].id] == value(features[i]) by {
        lemma_distinct_pairs(pairs, i);
        assert(pairs[i] == (features[i].id, value(features[i])));
    }
    assert forall|key: Seq<char>| map.dom().contains(key) <==> #[trigger] ids(
        features,
    ).to_set().contains(key) by {
        if map.contains_key(key) {
            lemma_key_has_pair(pairs, key);
            let i = choose|i: int|
                0 <= i < pairs.len() && (#[trigger] pairs[i]).0 == key && pairs[i].1 == map[key];
            assert(ids(features)[i] == key);
        }
        if ids(features).contains(key) {
            let i = choose|i: int| 0 <= i < ids(features).len() && ids(features)[i] == key;
            assert(features[i].id == key);
        }
    }
    assert(map.dom() =~= ids(features).to_set());
}

/// A field has the value that was given to it, unless a later one has its id.
pub proof fn lemma_valued_last(
    features: Seq<FeatureView>,
    value: spec_fn(FeatureView) -> Seq<char>,
    i: int,
)
    requires
        0 <= i < features.len(),
        forall|j: int| i < j < features.len() ==> (#[trigger] features[j]).id != features[i].id,
    ensures
        map_of(valued(features, value)).contains_key(features[i].id),
        map_of(valued(features, value))[features[i].id] == value(features[i]),
{
    let pairs = valued(features, value);
    assert(pairs[i] == (features[i].id, value(features[i])));
    assert forall|j: int| i < j < pairs.len() implies (#[trigger] pairs[j]).0 != features[i].id by {
        assert(pairs[j].0 == features[j].id);
    }
    lemma_last_pair(pairs, features[i].id);
}

/// A read artifact has a value for every field of the schema.
pub proof fn law_read_covers_schema(
    features: Seq<FeatureView>,
    row: Map<Seq<char>, Cell>,
    node: Map<Seq<char>, Cell>,
)
    ensures
        covers(stored_fields(features, row, node), features),
{
    lemma_valued_covers(features, |f: FeatureView| stored_value(f, row, node));
}

/// The update of an artifact that covers the schema gives a parameter for
/// each name that the text of the query refers to: `id`, `is_archived`, and
/// the id of every field.
pub proof fn law_update_binds_every_name(model: ModelView, features: Seq<FeatureView>)
    requires
        covers(model.fields, features),
    ensures
        update_params(model).contains_key("id"@),
        update_params(model).contains_key("is_archived"@),
        forall|i: int|
            0 <= i < features.len() ==> update_params(model).contains_key(
                (#[trigger] features[i]).id,
            ) && update_params(model)[features[i].id] == Param::Text(
                model.fields[features[i].id],
            ),
{
}

/// An artifact that was read from a node is stored to that node, with the flag
/// that it has, unless one of its fields is named as the parameter is.
pub proof fn law_update_reaches_node(model: ModelView, node: i64)
    requires
        model.id == signed_decimal(node as int),
        !model.fields.contains_key("id"@),
        !model.fields.contains_key("is_archived"@),
    ensures
        update_params(model)["id"@] == Param::Number(node),
        update_params(model)["is_archived"@] == Param::Flag(model.is_archived),
{
    law_integer_round_trip(node);
    reveal_strlit("id");
    reveal_strlit("is_archived");
    assert("id"@.len() != "is_archived"@.len());
}

impl DynamicModel {
    /// The artifact that a row of a reply and its node hold.
    pub fn from_row(row: &neo4rs::Row, node: neo4rs::Node, schema: &Schema) -> (model: DynamicModel)
        requires
            readable_fields(schema@, row_cells(*row), node_cells(node)),
        ensures
            model@ == stored_model(schema@, row_cells(*row), node_view(node)),
            forall|i: int|
                0 <= i < schema@.len() && (forall|j: int|
                    i < j < schema@.len() ==> (#[trigger] schema@[j]).id != schema@[i].id) ==> {
                    let source = if (#[trigger] schema@[i]).relation is Some {
                        row_cells(*row)
                    } else {
                        node_cells(node)
                    };
                    let id = schema@[i].id;
                    &&& model@.fields.contains_key(id)
                    &&& source.contains_key(id) && source[id] is Text ==> model@.fields[id]
                        == source[id]->Text_0
                },
    {
        let ghost value = |f: FeatureView| stored_value(f, row_cells(*row), node_cells(node));
        let ghost pairs = valued(schema@, value);
        let mut fields = FieldMap::new();
        let mut i: usize = 0;
        while i < schema.features.len()
            invariant
                i <= schema.features.len(),
                value == (|f: FeatureView| stored_value(f, row_cells(*row), node_cells(node))),
                pairs == valued(schema@, value),
                fields@ == map_of(pairs.take(i as int)),
                readable_fields(schema@, row_cells(*row), node_cells(node)),
            decreases schema.features.len() - i,
        {
            let feature = &schema.features[i];
            assert(schema@[i as int] == feature@);
            let read = if feature.relation.is_some() {
                row_optional_text(row, feature.id.as_str())
            } else {
                node_optional_text(&node, feature.id.as_str())
            };
            let text = match read {
                Ok(Some(text)) => text,
                Ok(None) => String::new(),
                Err(_) => String::new(),
            };
            assert(text@ == value(feature@));
            assert(pairs.take(i + 1).drop_last() =~= pairs.take(i as int));
            fields.insert(feature.id.clone(), text);
            i = i + 1;
        }
        assert(pairs.take(i as int) =~= pairs);
        proof {
            assert forall|i: int|
                0 <= i < schema@.len() && (forall|j: int|
                    i < j < schema@.len() ==> (#[trigger] schema@[j]).id != schema@[i].id)
                implies fields@.contains_key((#[trigger] schema@[i]).id) && fields@[schema@[i].id]
                == value(schema@[i]) by {
                lemma_valued_last(schema@, value, i);
            }
        }
        let is_archived = match node_flag(&node, "is_archived") {
            Ok(flag) => flag,
            Err(_) => false,
        };
        DynamicModel { id: signed_to_decimal(node_id(&node)), is_archived, fields }
    }

    /// The artifact that a row of a reply and its node hold, `None` where one
    /// of its fields is a date or a time. Unlike [`DynamicModel::from_row`],
    /// this can be asked of any reply.
    pub fn try_from_row(row: &neo4rs::Row, node: neo4rs::Node, schema: &Schema) -> (model: Option<
        DynamicModel,
    >)
        ensures
            match model {
                Some(m) => {
                    &&& plain_fields(schema@, row_cells(*row), node_cells(node))
                    &&& m@ == stored_model(schema@, row_cells(*row), node_view(node))
                },
                None => !plain_fields(schema@, row_cells(*row), node_cells(node)),
            },
    {
        let mut i: usize = 0;
        while i < schema.features.len()
            invariant
                i <= schema.features.len(),
                forall|j: int|
                    0 <= j < i ==> plain_field(
                        #[trigger] schema@[j],
                        row_cells(*row),
                        node_cells(node),
                    ),
            decreases schema.features.len() - i,
        {
            let feature = &schema.features[i];
            assert(schema@[i as int] == feature@);
            let moment = if feature.relation.is_some() {
                row_holds_moment(row, feature.id.as_str())
            } else {
                node_holds_moment(&node, feature.id.as_str())
            };
            if moment {
                return None;
            }
            i = i + 1;
        }
        assert forall|j: int| 0 <= j < schema@.len() implies if (
        #[trigger] schema@[j]).relation is Some {
            readable_text(row_cells(*row), schema@[j].id)
        } else {
            readable_text(node_cells(node), schema@[j].id)
        } by {
            assert(plain_field(schema@[j], row_cells(*row), node_cells(node)));
        }
        Some(DynamicModel::from_row(row, node, schema))
    }

    /// The value of a field, empty where the artifact has none.
    pub fn get_field(&self, id: &str) -> (value: String)
        ensures
            value@ == value_or_empty(self@.fields, id@),
    {
        self.fields.get_or_empty(id)
    }

    /// The query that stores this artifact.
    pub fn build_update_query(&self, archive_name: &str, schema: &Schema) -> (query: neo4rs::Query)
        ensures
            query_text(query) == update_text(archive_name@, schema@),
            query_params(query) == update_params(self@),
    {
        let text = update_cypher(archive_name, schema);
        let id = match parse_integer(self.id.as_str()) {
            Some(n) => n,
            None => 0,
        };
        let mut query = new_query(text.as_str());
        query = with_number(query, "id", id);
        query = with_flag(query, "is_archived", self.is_archived);

        let ghost base = query_params(query);
        let ghost pairs = self.fields.pairs();
        let n = self.fields.len();
        let mut k: usize = 0;
        assert(pairs.take(0) =~= Seq::empty());
        assert(query_params(query) =~= base.union_prefer_right(text_params(map_of(pairs.take(0)))));
        while k < n
            invariant
                k <= n,
                n == pairs.len(),
                pairs == self.fields.pairs(),
                query_text(query) == text@,
                query_params(query) == base.union_prefer_right(
                    text_params(map_of(pairs.take(k as int))),
                ),
            decreases n - k,
        {
            let (key, value) = self.fields.entry(k);
            assert(pairs.take(k + 1).drop_last() =~= pairs.take(k as int));
            query = with_text(query, key.as_str(), value);
            assert(query_params(query) =~= base.union_prefer_right(
                text_params(map_of(pairs.take(k + 1))),
            ));
            k = k + 1;
        }
        assert(pairs.take(k as int) =~= pairs);
        proof {
            self.fields.lemma_pairs();
        }
        query
    }
}

/// Each field has the text that stands under its id, unchanged: that of the row
/// where the field is a relation, else that of the node, however the field is
/// edited. What is missing or no text is empty. Of two fields with one id the
/// later holds.
pub proof fn law_read_keeps_texts(
    features: Seq<FeatureView>,
    row: Map<Seq<char>, Cell>,
    node: NodeView,
    i: int,
)
    requires
        0 <= i < features.len(),
        forall|j: int| i < j < features.len() ==> (#[trigger] features[j]).id != features[i].id,
    ensures
        ({
            let id = features[i].id;
            let fields = stored_model(features, row, node).fields;
            let source = if features[i].relation is Some {
                row
            } else {
                node.cells
            };
            &&& fields.contains_key(id)
            &&& if source.contains_key(id) {
                match source[id] {
                    Cell::Text(text) => fields[id] == text,
                    Cell::Moment { text: Reading::Value(text), number: _ } => fields[id] == text,
                    _ => fields[id].len() == 0,
                }
            } else {
                fields[id].len() == 0
            }
        }),
{
    lemma_valued_last(features, |f: FeatureView| stored_value(f, row, node.cells), i);
}

/// A read artifact has a value for the fields of the schema and for nothing
/// else.
pub proof fn law_read_has_only_fields(
    features: Seq<FeatureView>,
    row: Map<Seq<char>, Cell>,
    node: NodeView,
)
    ensures
        forall|key: Seq<char>| #[trigger]
            stored_model(features, row, node).fields.contains_key(key) <==> exists|i: int|
                0 <= i < features.len() && (#[trigger] features[i]).id == key,
{
    let value = |f: FeatureView| stored_value(f, row, node.cells);
    let pairs = valued(features, value);
    assert forall|key: Seq<char>| #[trigger]
        stored_model(features, row, node).fields.contains_key(key) <==> exists|i: int|
            0 <= i < features.len() && (#[trigger] features[i]).id == key by {
        if map_of(pairs).contains_key(key) {
            lemma_key_has_pair(pairs, key);
            let i = choose|i: int|
                0 <= i < pairs.len() && (#[trigger] pairs[i]).0 == key && pairs[i].1 == map_of(
                    pairs,
                )[key];
            assert(features[i].id == key);
        }
        if exists|i: int| 0 <= i < features.len() && (#[trigger] features[i]).id == key {
            let i = choose|i: int| 0 <= i < features.len() && (#[trigger] features[i]).id == key;
            lemma_pair_has_key(pairs, i);
            assert(pairs[i].0 == key);
        }
    }
}

/// A read artifact has the id of its node, and is archived if and only if the
/// node says so.
pub proof fn law_read_keeps_identity(
    features: Seq<FeatureView>,
    row: Map<Seq<char>, Cell>,
    node: NodeView,
)
    ensures
        integer_of(stored_model(features, row, node).id) == Some(node.number),
        stored_model(features, row, node).id == signed_decimal(node.number as int),
        stored_model(features, row, node).is_archived <==> node.cells.contains_key(
            "is_archived"@,
        ) && node.cells["is_archived"@] == Cell::Flag(true),
{
    law_integer_round_trip(node.number);
}

/// The update binds the id, the flag and the fields, each field to its own
/// value, and nothing else.
pub proof fn law_update_binds_nothing_else(model: ModelView)
    ensures
        forall|key: Seq<char>| #[trigger]
            update_params(model).contains_key(key) <==> key == "id"@ || key == "is_archived"@
                || model.fields.contains_key(key),
        forall|key: Seq<char>| #[trigger]
            model.fields.contains_key(key) ==> update_params(model)[key] == Param::Text(
                model.fields[key],
            ),
        integer_of(model.id) is None && !model.fields.contains_key("id"@) ==> update_params(
            model,
        )["id"@] == Param::Number(0),
        integer_of(model.id) is Some && !model.fields.contains_key("id"@) ==> update_params(
            model,
        )["id"@] == Param::Number(integer_of(model.id)->0),
        !model.fields.contains_key("is_archived"@) ==> update_params(model)["is_archived"@]
            == Param::Flag(model.is_archived),
{
    reveal_strlit("id");
    reveal_strlit("is_archived");
    assert("id"@.len() != "is_archived"@.len());
}

/// The number of fields that are stored as properties.
pub open spec fn property_count(features: Seq<FeatureView>) -> nat {
    features.filter(|f: FeatureView| f.relation is None).len()
}

/// The number of fields that are stored as relations.
pub open spec fn relation_count(features: Seq<FeatureView>) -> nat {
    features.filter(|f: FeatureView| f.relation is Some).len()
}

/// A field counts as a property or as a relation, whichever it is.
pub proof fn law_field_counts(features: Seq<FeatureView>, f: FeatureView)
    ensures
        property_count(Seq::empty()) == 0,
        relation_count(Seq::empty()) == 0,
        property_count(features.push(f)) == property_count(features) + if f.relation is None {
            1nat
        } else {
            0nat
        },
        relation_count(features.push(f)) == relation_count(features) + if f.relation is Some {
            1nat
        } else {
            0nat
        },
{
    assert(Seq::<FeatureView>::empty().filter(|f: FeatureView| f.relation is None)
        =~= Seq::empty());
    assert(Seq::<FeatureView>::empty().filter(|f: FeatureView| f.relation is Some)
        =~= Seq::empty());
    features.lemma_filter_push(f, |f: FeatureView| f.relation is None);
    features.lemma_filter_push(f, |f: FeatureView| f.relation is Some);
}

/// Each field that is stored as a property has one clause, which sets the
/// property of its id to the parameter of its id. The clauses stand in the
/// order of the fields.
pub proof fn law_property_clauses(features: Seq<FeatureView>)
    ensures
        property_clauses(features).len() == property_count(features),
        forall|i: int|
            0 <= i < features.len() && (#[trigger] features[i]).relation is None ==> {
                &&& property_count(features.take(i)) < property_clauses(features).len()
                &&& property_clauses(features)[property_count(features.take(i)) as int] == "n."@
                    + features[i].id + " = $"@ + features[i].id
            },
{
    let test = |f: FeatureView| f.relation is None;
    assert forall|i: int|
        0 <= i < features.len() && (#[trigger] features[i]).relation is None implies {
        &&& property_count(features.take(i)) < property_clauses(features).len()
        &&& property_clauses(features)[property_count(features.take(i)) as int] == "n."@
            + features[i].id + " = $"@ + features[i].id
    } by {
        lemma_filter_index(features, test, i);
    }
}

/// Each field that is stored as a relation has four lines: the old relation of
/// its type is deleted, and one to the node with its value is merged, unless
/// the value is empty. The lines stand in the order of the fields.
pub proof fn law_relation_lines(features: Seq<FeatureView>)
    ensures
        all_relation_lines(features).len() == 4 * relation_count(features),
        forall|i: int|
            0 <= i < features.len() && (#[trigger] features[i]).relation is Some ==> {
                let k = 4 * relation_count(features.take(i)) as int;
                let rel = features[i].relation->0;
                let at = decimal(i as nat);
                &&& k + 4 <= all_relation_lines(features).len()
                &&& all_relation_lines(features)[k] == "WITH n"@
                &&& all_relation_lines(features)[k + 1] == "OPTIONAL MATCH (n)-[r"@ + at + " : "@
                    + rel.rel_type + "]->() DELETE r"@ + at
                &&& all_relation_lines(features)[k + 2] == "WITH n"@
                &&& all_relation_lines(features)[k + 3] == "FOREACH (_ IN CASE WHEN $"@
                    + features[i].id + " <> \"\" THEN [1] ELSE [] END | MERGE (m"@ + at + ":"@
                    + rel.target_label + " {name: $"@ + features[i].id + "}) MERGE (n)-[:"@
                    + rel.rel_type + "]->(m"@ + at + "))"@
            },
    decreases features.len(),
{
    if features.len() == 0 {
        assert(features =~= Seq::empty());
        assert(features.filter(|f: FeatureView| f.relation is Some) =~= Seq::empty());
    } else {
        let front = features.drop_last();
        let last = features.len() - 1;
        assert(features =~= front.push(features.last()));
        law_field_counts(front, features.last());
        law_relation_lines(front);
        assert forall|i: int|
            0 <= i < features.len() && (#[trigger] features[i]).relation is Some implies {
            let k = 4 * relation_count(features.take(i)) as int;
            let rel = features[i].relation->0;
            let at = decimal(i as nat);
            &&& k + 4 <= all_relation_lines(features).len()
            &&& all_relation_lines(features)[k] == "WITH n"@
            &&& all_relation_lines(features)[k + 1] == "OPTIONAL MATCH (n)-[r"@ + at + " : "@
                + rel.rel_type + "]->() DELETE r"@ + at
            &&& all_relation_lines(features)[k + 2] == "WITH n"@
            &&& all_relation_lines(features)[k + 3] == "FOREACH (_ IN CASE WHEN $"@
                + features[i].id + " <> \"\" THEN [1] ELSE [] END | MERGE (m"@ + at + ":"@
                + rel.target_label + " {name: $"@ + features[i].id + "}) MERGE (n)-[:"@
                + rel.rel_type + "]->(m"@ + at + "))"@
        } by {
            if i < last {
                assert(front[i] == features[i]);
                assert(front.take(i) =~= features.take(i));
            } else {
                assert(features.take(i) =~= front);
            }
        }
    }
}

/// The text of the update is made up of lines. The first one finds the node of
/// the archive by its id, and sets the flag and every property. After it come
/// the four lines of each relation.
pub proof fn law_update_text(archive_name: Seq<char>, features: Seq<FeatureView>) -> (parts: (
    Seq<Seq<char>>,
    Seq<Seq<char>>,
))
    ensures
        update_text(archive_name, features) == joined(parts.1, "\n"@),
        parts.1.len() == 1 + 4 * relation_count(features),
        parts.1[0] == "MATCH (n:"@ + archive_name + ") WHERE id(n) = $id SET "@ + joined(
            parts.0,
            ", "@,
        ),
        parts.0.len() == 1 + property_count(features),
        parts.0[0] == "n.is_archived = $is_archived"@,
        forall|i: int|
            0 <= i < features.len() && (#[trigger] features[i]).relation is None ==> {
                &&& property_count(features.take(i)) < property_count(features)
                &&& parts.0[1 + property_count(features.take(i)) as int] == "n."@ + features[i].id
                    + " = $"@ + features[i].id
            },
        forall|i: int|
            0 <= i < features.len() && (#[trigger] features[i]).relation is Some ==> {
                let k = 1 + 4 * relation_count(features.take(i)) as int;
                let rel = features[i].relation->0;
                let at = decimal(i as nat);
                &&& k + 4 <= parts.1.len()
                &&& parts.1[k] == "WITH n"@
                &&& parts.1[k + 1] == "OPTIONAL MATCH (n)-[r"@ + at + " : "@ + rel.rel_type
                    + "]->() DELETE r"@ + at
                &&& parts.1[k + 2] == "WITH n"@
                &&& parts.1[k + 3] == "FOREACH (_ IN CASE WHEN $"@ + features[i].id
                    + " <> \"\" THEN [1] ELSE [] END | MERGE (m"@ + at + ":"@ + rel.target_label
                    + " {name: $"@ + features[i].id + "}) MERGE (n)-[:"@ + rel.rel_type + "]->(m"@
                    + at + "))"@
            },
{
    law_property_clauses(features);
    law_relation_lines(features);
    let clauses = seq!["n.is_archived = $is_archived"@] + property_clauses(features);
    let first = "MATCH (n:"@ + archive_name + ") WHERE id(n) = $id SET "@ + joined(clauses, ", "@);
    (clauses, seq![first] + all_relation_lines(features))
}

/// What an artifact holds is its id, its flag and its fields.
pub proof fn law_model_view(model: DynamicModel)
    ensures
        model@.id == model.id@,
        model@.is_archived == model.is_archived,
        model@.fields == model.fields@,
{
}

/// What some artifacts hold is what each of them holds, in order.
pub proof fn law_model_views(models: Seq<DynamicModel>)
    ensures
        model_views(models).len() == models.len(),
        forall|i: int| 0 <= i < models.len() ==> #[trigger] model_views(models)[i] == models[i]@,
{
}

/// A reply is read unless one of its fields is a date or a time: a column of the
/// row where the field is a relation, else a property of the node.
pub proof fn law_plain_fields(
    features: Seq<FeatureView>,
    row: Map<Seq<char>, Cell>,
    node: Map<Seq<char>, Cell>,
)
    ensures
        plain_fields(features, row, node) <==> forall|i: int|
            0 <= i < features.len() ==> {
                let source = if (#[trigger] features[i]).relation is Some {
                    row
                } else {
                    node
                };
                !(source.contains_key(features[i].id) && source[features[i].id] is Moment)
            },
{
    if !plain_fields(features, row, node) {
        let i = choose|i: int|
            0 <= i < features.len() && !plain_field(#[trigger] features[i], row, node);
        assert(!plain_field(features[i], row, node));
    }
    if plain_fields(features, row, node) {
        assert forall|i: int| 0 <= i < features.len() implies {
            let source = if (#[trigger] features[i]).relation is Some {
                row
            } else {
                node
            };
            !(source.contains_key(features[i].id) && source[features[i].id] is Moment)
        } by {
            assert(plain_field(features[i], row, node));
        }
    }
}

/// A reply can be read unless one of its fields is a date or a time that the
/// driver cannot represent.
pub proof fn law_readable_fields(
    features: Seq<FeatureView>,
    row: Map<Seq<char>, Cell>,
    node: Map<Seq<char>, Cell>,
)
    ensures
        readable_fields(features, row, node) <==> forall|i: int|
            0 <= i < features.len() ==> {
                let source = if (#[trigger] features[i]).relation is Some {
                    row
                } else {
                    node
                };
                !(source.contains_key(features[i].id) && source[features[i].id] is Moment
                    && source[features[i].id]->text is OutOfRange)
            },
{
    if !readable_fields(features, row, node) {
        let i = choose|i: int|
            0 <= i < features.len() && !if (#[trigger] features[i]).relation is Some {
                readable_text(row, features[i].id)
            } else {
                readable_text(node, features[i].id)
            };
        assert(features[i].relation is Some || features[i].relation is None);
    }
}

/// The values cover a schema if and only if each of its fields has one.
pub proof fn law_covers(fields: Map<Seq<char>, Seq<char>>, features: Seq<FeatureView>)
    ensures
        covers(fields, features) <==> forall|i: int|
            0 <= i < features.len() ==> fields.contains_key((#[trigger] features[i]).id),
{
}

} // verus!
