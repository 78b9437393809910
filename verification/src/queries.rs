//! The queries that the archive sends to the graph database, and what their
//! replies mean.

use vstd::prelude::*;
use vstd::string::*;

use crate::bolt::{
    is_moment, is_settled, new_query, no_params, node_at, node_id, number_at, query_params,
    query_text, readable_node, readable_number, readable_text, row_cells, row_holds_moment,
    row_is_settled, row_node, row_number, row_text, text_at, with_number, with_text, Cell,
    NodeView, Param, Reading,
};
use crate::fields::{map_of, value_or_empty, FieldMap};
use crate::model::{
    covers, law_field_counts, law_property_clauses, lemma_valued_covers, plain_fields,
    property_clauses, property_count, push_property_clauses, readable_fields, relation_count,
    stored_model, valued, DynamicModel, ModelView,
};
use crate::schema::{law_title_is_first_marked, title_id, FeatureView, Schema};
use crate::text::{
    decimal, integer_of, join, joined, law_join, parse_integer, push_decimal, same_text,
    signed_decimal, signed_to_decimal, views,
};

verus! {

/// What is known about a named archive before deciding how to open it.
pub struct ArchiveStatus {
    /// `false` means that the archive is empty or does not exist yet.
    pub exists: bool,
    /// The properties on the archive's nodes, without the internal one.
    pub property_fields: Vec<String>,
}

/// Summary of a bulk operation.
pub struct BulkResult {
    pub records_affected: usize,
}

/// The next step in finding out about an archive.
pub enum StatusStep {
    /// The status is known.
    Known(ArchiveStatus),
    /// This query, for the property keys, comes next.
    AskKeys(neo4rs::Query),
}

/// `MATCH (n:Artifact:<archive>)`: the artifacts of an archive.
pub open spec fn match_archive(archive_name: Seq<char>) -> Seq<char> {
    "MATCH (n:Artifact:"@ + archive_name + ")"@
}

fn match_archive_text(archive_name: &str) -> (out: String)
    ensures
        out@ == match_archive(archive_name@),
{
    let mut out = "MATCH (n:Artifact:".to_owned();
    out.append(archive_name);
    out.append(")");
    out
}

/// A query without parameters.
pub open spec fn is_plain_query(query: neo4rs::Query, text: Seq<char>) -> bool {
    query_text(query) == text && query_params(query) == no_params()
}

pub open spec fn count_text(archive_name: Seq<char>) -> Seq<char> {
    match_archive(archive_name) + " RETURN count(n) AS count LIMIT 1"@
}

pub open spec fn keys_text(archive_name: Seq<char>) -> Seq<char> {
    match_archive(archive_name) + " UNWIND keys(n) AS key RETURN DISTINCT key"@
}

/// The text of the query that counts the artifacts of an archive.
pub fn count_cypher(archive_name: &str) -> (text: String)
    ensures
        text@ == count_text(archive_name@),
{
    let mut text = match_archive_text(archive_name);
    text.append(" RETURN count(n) AS count LIMIT 1");
    text
}

/// The text of the query for the property keys on the nodes of an archive.
pub fn keys_cypher(archive_name: &str) -> (text: String)
    ensures
        text@ == keys_text(archive_name@),
{
    let mut text = match_archive_text(archive_name);
    text.append(" UNWIND keys(n) AS key RETURN DISTINCT key");
    text
}

/// The query that counts the artifacts of an archive.
pub fn count_query(archive_name: &str) -> (query: neo4rs::Query)
    ensures
        is_plain_query(query, count_text(archive_name@)),
{
    new_query(count_cypher(archive_name).as_str())
}

/// The count in the reply to the count query, zero where there is none.
pub open spec fn count_in(row: Option<Map<Seq<char>, Cell>>) -> i64 {
    match row {
        Some(cells) => match number_at(cells, "count"@) {
            Some(n) => n,
            None => 0,
        },
        None => 0,
    }
}

/// The columns of the first row of a reply, where there is one.
pub open spec fn first_row(row: Option<neo4rs::Row>) -> Option<Map<Seq<char>, Cell>> {
    match row {
        Some(r) => Some(row_cells(r)),
        None => None,
    }
}

/// What follows the reply to the count query: an archive without artifacts
/// does not exist, of any other the property keys are asked for.
pub fn after_count(archive_name: &str, row: Option<neo4rs::Row>) -> (step: StatusStep)
    requires
        row is Some ==> readable_number(row_cells(row->0), "count"@),
    ensures
        match step {
            StatusStep::Known(status) => {
                &&& count_in(first_row(row)) == 0
                &&& !status.exists
                &&& status.property_fields@.len() == 0
            },
            StatusStep::AskKeys(query) => {
                &&& count_in(first_row(row)) != 0
                &&& is_plain_query(query, keys_text(archive_name@))
            },
        },
{
    let count: i64 = match &row {
        Some(r) => match row_number(r, "count") {
            Ok(n) => n,
            Err(_) => 0,
        },
        None => 0,
    };
    if count == 0 {
        return StatusStep::Known(ArchiveStatus { exists: false, property_fields: Vec::new() });
    }
    StatusStep::AskKeys(new_query(keys_cypher(archive_name).as_str()))
}

/// What follows the reply to the count query, `None` where the count is a date
/// or a time. Unlike [`after_count`], this can be asked of any reply.
pub fn try_after_count(archive_name: &str, row: Option<neo4rs::Row>) -> (step: Option<StatusStep>)
    ensures
        match step {
            Some(StatusStep::Known(status)) => {
                &&& count_in(first_row(row)) == 0
                &&& !status.exists
                &&& status.property_fields@.len() == 0
            },
            Some(StatusStep::AskKeys(query)) => {
                &&& count_in(first_row(row)) != 0
                &&& is_plain_query(query, keys_text(archive_name@))
            },
            None => true,
        },
        step is None <==> row is Some && is_moment(row_cells(row->0), "count"@),
{
    if let Some(r) = &row {
        if row_holds_moment(r, "count") {
            return None;
        }
    }
    Some(after_count(archive_name, row))
}

/// The property that a row of the reply to the keys query names, where it
/// names one that is not internal.
pub open spec fn key_in(cells: Map<Seq<char>, Cell>) -> Option<Seq<char>> {
    match text_at(cells, "key"@) {
        Some(key) => if key == "is_archived"@ {
            None
        } else {
            Some(key)
        },
        None => None,
    }
}

/// The properties that the rows of the reply to the keys query name, in order.
pub open spec fn keys_in(rows: Seq<neo4rs::Row>) -> Seq<Seq<char>> {
    rows.filter_map(|row: neo4rs::Row| key_in(row_cells(row)))
}

/// The status that the reply to the keys query gives.
pub fn after_keys(rows: &Vec<neo4rs::Row>) -> (status: ArchiveStatus)
    requires
        forall|i: int|
            0 <= i < rows@.len() ==> readable_text(row_cells(#[trigger] rows@[i]), "key"@),
    ensures
        status.exists,
        views(status.property_fields@) == keys_in(rows@),
        !keys_in(rows@).contains("is_archived"@),
{
    let ghost pick = |row: neo4rs::Row| key_in(row_cells(row));
    let mut property_fields: Vec<String> = Vec::new();
    let mut i: usize = 0;
    assert(rows@.take(0) =~= Seq::empty());
    assert(views(property_fields@) =~= keys_in(rows@.take(0)));
    while i < rows.len()
        invariant
            i <= rows.len(),
            pick == (|row: neo4rs::Row| key_in(row_cells(row))),
            views(property_fields@) == keys_in(rows@.take(i as int)),
            forall|i: int|
                0 <= i < rows@.len() ==> readable_text(row_cells(#[trigger] rows@[i]), "key"@),
        decreases rows.len() - i,
    {
        let row = &rows[i];
        let ghost before = property_fields@;
        proof {
            rows@.lemma_filter_map_take_succ(pick, i as int);
        }
        if let Ok(key) = row_text(row, "key") {
            if !same_text(key.as_str(), "is_archived") {
                property_fields.push(key);
                assert(views(property_fields@) =~= views(before).push(key@));
            }
        }
        assert(views(property_fields@) =~= keys_in(rows@.take(i + 1)));
        i = i + 1;
    }
    assert(rows@.take(i as int) =~= rows@);
    proof {
        if keys_in(rows@).contains("is_archived"@) {
            rows@.lemma_filter_map_contains(pick, "is_archived"@);
        }
    }
    ArchiveStatus { exists: true, property_fields }
}

/// The status that the reply to the keys query gives, `None` where a key is a
/// date or a time. Unlike [`after_keys`], this can be asked of any reply.
pub fn try_after_keys(rows: &Vec<neo4rs::Row>) -> (status: Option<ArchiveStatus>)
    ensures
        match status {
            Some(s) => {
                &&& s.exists
                &&& views(s.property_fields@) == keys_in(rows@)
                &&& forall|i: int|
                    0 <= i < rows@.len() ==> !is_moment(row_cells(#[trigger] rows@[i]), "key"@)
            },
            None => exists|i: int|
                0 <= i < rows@.len() && is_moment(row_cells(#[trigger] rows@[i]), "key"@),
        },
{
    let mut i: usize = 0;
    while i < rows.len()
        invariant
            i <= rows.len(),
            forall|j: int|
                0 <= j < i ==> !is_moment(row_cells(#[trigger] rows@[j]), "key"@),
        decreases rows.len() - i,
    {
        if row_holds_moment(&rows[i], "key") {
            assert(is_moment(row_cells(rows@[i as int]), "key"@));
            return None;
        }
        i = i + 1;
    }
    Some(after_keys(rows))
}

/// `n.<field>` for each field.
pub open spec fn remove_clauses(fields: Seq<Seq<char>>) -> Seq<Seq<char>> {
    fields.map_values(|f: Seq<char>| "n."@ + f)
}

/// `n.<field> = ""` for each field.
pub open spec fn clear_clauses(fields: Seq<Seq<char>>) -> Seq<Seq<char>> {
    fields.map_values(|f: Seq<char>| "n."@ + f + " = \"\""@)
}

/// The texts of the queries of a migration: one that removes fields and one
/// that adds empty ones, each only where there is something to do.
pub open spec fn migration_texts(
    archive_name: Seq<char>,
    to_add: Seq<Seq<char>>,
    to_remove: Seq<Seq<char>>,
) -> Seq<Seq<char>> {
    let removal = match_archive(archive_name) + " REMOVE "@ + joined(
        remove_clauses(to_remove),
        ", "@,
    );
    let addition = match_archive(archive_name) + " SET "@ + joined(clear_clauses(to_add), ", "@);
    (if to_remove.len() > 0 {
        seq![removal]
    } else {
        Seq::empty()
    }) + (if to_add.len() > 0 {
        seq![addition]
    } else {
        Seq::empty()
    })
}

/// `n.<field><end>` for each field.
fn field_clauses(fields: &Vec<String>, end: &str) -> (clauses: Vec<String>)
    ensures
        views(clauses@) == views(fields@).map_values(|f: Seq<char>| "n."@ + f + end@),
{
    let mut clauses: Vec<String> = Vec::new();
    let mut i: usize = 0;
    while i < fields.len()
        invariant
            i <= fields.len(),
            clauses@.len() == i,
            forall|k: int|
                0 <= k < i ==> (#[trigger] clauses@[k])@ == "n."@ + fields@[k]@ + end@,
        decreases fields.len() - i,
    {
        let mut clause = "n.".to_owned();
        clause.append(fields[i].as_str());
        clause.append(end);
        clauses.push(clause);
        i = i + 1;
    }
    assert(views(clauses@) =~= views(fields@).map_values(|f: Seq<char>| "n."@ + f + end@));
    clauses
}

/// The texts of the queries of a migration, in the order in which they are to
/// run.
pub fn migration_cyphers(
    archive_name: &str,
    fields_to_add: &Vec<String>,
    fields_to_remove: &Vec<String>,
) -> (texts: Vec<String>)
    ensures
        views(texts@) == migration_texts(
            archive_name@,
            views(fields_to_add@),
            views(fields_to_remove@),
        ),
{
    let mut texts: Vec<String> = Vec::new();
    if fields_to_remove.len() > 0 {
        let clauses = field_clauses(fields_to_remove, "");
        proof {
            reveal_strlit("");
            assert(forall|s: Seq<char>| #[trigger] (s + ""@) =~= s);
            assert(views(clauses@) =~= remove_clauses(views(fields_to_remove@)));
        }
        let mut text = match_archive_text(archive_name);
        text.append(" REMOVE ");
        text.append(join(&clauses, ", ").as_str());
        texts.push(text);
    }
    if fields_to_add.len() > 0 {
        let clauses = field_clauses(fields_to_add, " = \"\"");
        assert(views(clauses@) =~= clear_clauses(views(fields_to_add@)));
        let mut text = match_archive_text(archive_name);
        text.append(" SET ");
        text.append(join(&clauses, ", ").as_str());
        texts.push(text);
    }
    assert(views(texts@) =~= migration_texts(
        archive_name@,
        views(fields_to_add@),
        views(fields_to_remove@),
    ));
    texts
}

/// The queries of a migration, in the order in which they are to run.
pub fn migration_queries(
    archive_name: &str,
    fields_to_add: &Vec<String>,
    fields_to_remove: &Vec<String>,
) -> (queries: Vec<neo4rs::Query>)
    ensures
        queries@.len() == migration_texts(
            archive_name@,
            views(fields_to_add@),
            views(fields_to_remove@),
        ).len(),
        forall|i: int|
            0 <= i < queries@.len() ==> is_plain_query(
                #[trigger] queries@[i],
                migration_texts(
                    archive_name@,
                    views(fields_to_add@),
                    views(fields_to_remove@),
                )[i],
            ),
{
    let texts = migration_cyphers(archive_name, fields_to_add, fields_to_remove);
    let mut queries: Vec<neo4rs::Query> = Vec::new();
    let mut i: usize = 0;
    while i < texts.len()
        invariant
            i <= texts.len(),
            queries@.len() == i,
            forall|j: int|
                0 <= j < i ==> is_plain_query(#[trigger] queries@[j], views(texts@)[j]),
        decreases texts.len() - i,
    {
        queries.push(new_query(texts[i].as_str()));
        i = i + 1;
    }
    queries
}

/// The line that finds the value of the field at position `i`, empty where the
/// field is not a relation.
pub open spec fn relation_match(i: int, f: FeatureView) -> Seq<char> {
    match f.relation {
        Some(rel) => "\nOPTIONAL MATCH (n)-[:"@ + rel.rel_type + "]->(r"@ + decimal(i as nat)
            + ":"@ + rel.target_label + ")"@,
        None => Seq::empty(),
    }
}

/// The lines that find the values of the relations.
pub open spec fn relation_matches(features: Seq<FeatureView>) -> Seq<char>
    decreases features.len(),
{
    if features.len() == 0 {
        Seq::empty()
    } else {
        relation_matches(features.drop_last()) + relation_match(
            features.len() - 1,
            features.last(),
        )
    }
}

/// The columns of the listing: the node, and the value of each relation.
pub open spec fn listed_columns(features: Seq<FeatureView>) -> Seq<Seq<char>>
    decreases features.len(),
{
    if features.len() == 0 {
        seq!["n"@]
    } else {
        let earlier = listed_columns(features.drop_last());
        if features.last().relation is Some {
            earlier.push(
                "r"@ + decimal((features.len() - 1) as nat) + ".name AS "@ + features.last().id,
            )
        } else {
            earlier
        }
    }
}

/// The condition on the title, none where nothing is searched for.
pub open spec fn search_condition(features: Seq<FeatureView>, search: Seq<char>) -> Seq<char> {
    if search.len() > 0 {
        " WHERE n."@ + title_id(features) + " CONTAINS $search"@
    } else {
        Seq::empty()
    }
}

/// The text of the query for one page of artifacts.
pub open spec fn list_text(
    archive_name: Seq<char>,
    features: Seq<FeatureView>,
    search: Seq<char>,
) -> Seq<char> {
    match_archive(archive_name) + search_condition(features, search) + relation_matches(features)
        + "\nRETURN "@ + joined(listed_columns(features), ", "@)
        + " ORDER BY id(n) SKIP $skip LIMIT $limit"@
}

/// The text of the query for one page of artifacts.
pub fn list_cypher(archive_name: &str, schema: &Schema, search: &str) -> (text: String)
    ensures
        text@ == list_text(archive_name@, schema@, search@),
        forall|i: int|
            0 <= i < schema@.len() && (#[trigger] schema@[i]).system_title == Some(true) && (forall|
                j: int,
            |
                0 <= j < i ==> (#[trigger] schema@[j]).system_title != Some(true))
                && search@.len() > 0 ==> ("MATCH (n:Artifact:"@ + archive_name@ + ")"@
                + " WHERE n."@ + schema@[i].id + " CONTAINS $search"@).is_prefix_of(text@),
{
    let mut text = match_archive_text(archive_name);
    if !search.is_empty() {
        let title_field = schema.get_title_field_id();
        let mut condition = " WHERE n.".to_owned();
        condition.append(title_field.as_str());
        condition.append(" CONTAINS $search");
        text.append(condition.as_str());
    }
    let ghost head = match_archive(archive_name@) + search_condition(schema@, search@);
    assert(text@ =~= head);

    let mut columns: Vec<String> = Vec::new();
    columns.push("n".to_owned());
    let mut i: usize = 0;
    assert(schema@.take(0) =~= Seq::empty());
    assert(text@ =~= head + relation_matches(schema@.take(0)));
    assert(views(columns@) =~= listed_columns(schema@.take(0)));
    while i < schema.features.len()
        invariant
            i <= schema.features.len(),
            text@ == head + relation_matches(schema@.take(i as int)),
            views(columns@) == listed_columns(schema@.take(i as int)),
        decreases schema.features.len() - i,
    {
        let feature = &schema.features[i];
        assert(schema@.take(i + 1).drop_last() =~= schema@.take(i as int));
        assert(schema@.take(i + 1).last() == feature@);
        let ghost before = columns@;
        if let Some(rel) = &feature.relation {
            let mut line = "\nOPTIONAL MATCH (n)-[:".to_owned();
            line.append(rel.rel_type.as_str());
            line.append("]->(r");
            push_decimal(&mut line, i as u64);
            line.append(":");
            line.append(rel.target_label.as_str());
            line.append(")");
            text.append(line.as_str());

            let mut column = "r".to_owned();
            push_decimal(&mut column, i as u64);
            column.append(".name AS ");
            column.append(feature.id.as_str());
            columns.push(column);
            assert(views(columns@) =~= views(before).push(column@));
        }
        assert(text@ =~= head + relation_matches(schema@.take(i + 1)));
        i = i + 1;
    }
    assert(schema@.take(i as int) =~= schema@);

    text.append("\nRETURN ");
    text.append(join(&columns, ", ").as_str());
    text.append(" ORDER BY id(n) SKIP $skip LIMIT $limit");
    proof {
        assert forall|i: int|
            0 <= i < schema@.len() && (#[trigger] schema@[i]).system_title == Some(true) && (forall|
                j: int,
            |
                0 <= j < i ==> (#[trigger] schema@[j]).system_title != Some(true))
                && search@.len() > 0 implies ("MATCH (n:Artifact:"@ + archive_name@ + ")"@
            + " WHERE n."@ + schema@[i].id + " CONTAINS $search"@).is_prefix_of(text@) by {
            law_search_is_on_title(schema@, i, search@);
            let start = "MATCH (n:Artifact:"@ + archive_name@ + ")"@ + " WHERE n."@ + schema@[i].id
                + " CONTAINS $search"@;
            assert(start =~= head);
            assert(start =~= text@.subrange(0, start.len() as int));
        }
    }
    text
}

/// The query for one page of artifacts: at most `page_size` of them after the
/// first `skip`, only those with `search` in their title where it is not empty.
pub fn list_query(
    archive_name: &str,
    schema: &Schema,
    skip: usize,
    page_size: usize,
    search: &str,
) -> (query: neo4rs::Query)
    ensures
        query_text(query) == list_text(archive_name@, schema@, search@),
        query_params(query) == no_params().insert("search"@, Param::Text(search@)).insert(
            "skip"@,
            Param::Number(skip as i64),
        ).insert("limit"@, Param::Number(page_size as i64)),
{
    let query = new_query(list_cypher(archive_name, schema, search).as_str());
    let query = with_text(query, "search", search.to_owned());
    let query = with_number(query, "skip", skip as i64);
    with_number(query, "limit", page_size as i64)
}

/// A reply that does not hold what was asked for.
#[derive(Debug)]
pub enum ReplyError {
    /// The reply to a creation is empty.
    NoRows,
    /// The column for the node does not read as a node.
    NotANode(neo4rs::DeError),
}

/// The node that a row of a reply holds.
pub open spec fn node_in(cells: Map<Seq<char>, Cell>) -> Option<NodeView> {
    node_at(cells, "n"@)
}

/// Whether the node of a row and the fields of its artifact can be read.
pub open spec fn readable_row(features: Seq<FeatureView>, cells: Map<Seq<char>, Cell>) -> bool {
    &&& readable_node(cells, "n"@)
    &&& node_in(cells) is Some ==> readable_fields(features, cells, node_in(cells)->0.cells)
}

/// The artifacts on a page: one for each row of the reply, an error where a
/// row has no node.
pub fn listed_models(rows: &Vec<neo4rs::Row>, schema: &Schema) -> (result: Result<
    Vec<DynamicModel>,
    ReplyError,
>)
    requires
        forall|i: int|
            0 <= i < rows@.len() ==> readable_row(schema@, row_cells(#[trigger] rows@[i])),
    ensures
        match result {
            Ok(models) => {
                &&& models@.len() == rows@.len()
                &&& forall|i: int|
                    0 <= i < rows@.len() ==> {
                        &&& node_in(row_cells(#[trigger] rows@[i])) is Some
                        &&& models@[i]@ == stored_model(
                            schema@,
                            row_cells(rows@[i]),
                            node_in(row_cells(rows@[i]))->0,
                        )
                    }
            },
            Err(e) => {
                &&& e is NotANode
                &&& exists|i: int|
                    0 <= i < rows@.len() && node_in(row_cells(#[trigger] rows@[i])) is None
            },
        },
{
    let mut models: Vec<DynamicModel> = Vec::new();
    let mut i: usize = 0;
    while i < rows.len()
        invariant
            i <= rows.len(),
            models@.len() == i,
            forall|i: int|
                0 <= i < rows@.len() ==> readable_row(schema@, row_cells(#[trigger] rows@[i])),
            forall|j: int|
                0 <= j < i ==> {
                    &&& node_in(row_cells(#[trigger] rows@[j])) is Some
                    &&& models@[j]@ == stored_model(
                        schema@,
                        row_cells(rows@[j]),
                        node_in(row_cells(rows@[j]))->0,
                    )
                },
        decreases rows.len() - i,
    {
        let row = &rows[i];
        assert(readable_row(schema@, row_cells(rows@[i as int])));
        match row_node(row, "n") {
            Ok(node) => models.push(DynamicModel::from_row(row, node, schema)),
            Err(e) => {
                return Err(ReplyError::NotANode(e));
            },
        }
        i = i + 1;
    }
    Ok(models)
}

/// Whether what stands in the place of a row's node is a proper node or plainly
/// none, and no field of its artifact is a date or a time.
pub open spec fn plain_row(features: Seq<FeatureView>, cells: Map<Seq<char>, Cell>) -> bool {
    &&& is_settled(cells, "n"@)
    &&& node_in(cells) is Some ==> plain_fields(features, cells, node_in(cells)->0.cells)
}

/// The artifacts on a page, `None` where a row is not plain. Unlike
/// [`listed_models`], this can be asked of any reply.
pub fn try_listed_models(rows: &Vec<neo4rs::Row>, schema: &Schema) -> (result: Option<
    Result<Vec<DynamicModel>, ReplyError>,
>)
    ensures
        match result {
            Some(Ok(models)) => {
                &&& models@.len() == rows@.len()
                &&& forall|i: int|
                    0 <= i < rows@.len() ==> {
                        &&& plain_row(schema@, row_cells(#[trigger] rows@[i]))
                        &&& node_in(row_cells(rows@[i])) is Some
                        &&& models@[i]@ == stored_model(
                            schema@,
                            row_cells(rows@[i]),
                            node_in(row_cells(rows@[i]))->0,
                        )
                    }
            },
            Some(Err(e)) => {
                &&& e is NotANode
                &&& exists|i: int|
                    0 <= i < rows@.len() && plain_row(schema@, row_cells(#[trigger] rows@[i]))
                        && node_in(row_cells(rows@[i])) is None
            },
            None => exists|i: int|
                0 <= i < rows@.len() && !plain_row(schema@, row_cells(#[trigger] rows@[i])),
        },
{
    let mut models: Vec<DynamicModel> = Vec::new();
    let mut i: usize = 0;
    while i < rows.len()
        invariant
            i <= rows.len(),
            models@.len() == i,
            forall|j: int|
                0 <= j < i ==> {
                    &&& plain_row(schema@, row_cells(#[trigger] rows@[j]))
                    &&& node_in(row_cells(rows@[j])) is Some
                    &&& models@[j]@ == stored_model(
                        schema@,
                        row_cells(rows@[j]),
                        node_in(row_cells(rows@[j]))->0,
                    )
                },
        decreases rows.len() - i,
    {
        let row = &rows[i];
        let ghost cells = row_cells(rows@[i as int]);
        if !row_is_settled(row, "n") {
            assert(!plain_row(schema@, cells));
            return None;
        }
        match row_node(row, "n") {
            Ok(node) => match DynamicModel::try_from_row(row, node, schema) {
                Some(model) => models.push(model),
                None => {
                    assert(!plain_row(schema@, cells));
                    return None;
                },
            },
            Err(e) => {
                assert(plain_row(schema@, cells));
                return Some(Err(ReplyError::NotANode(e)));
            },
        }
        i = i + 1;
    }
    Some(Ok(models))
}

/// The text of the query that creates an artifact.
pub open spec fn create_text(archive_name: Seq<char>, features: Seq<FeatureView>) -> Seq<char> {
    "CREATE (n:Artifact:"@ + archive_name + ") SET "@ + joined(
        seq!["n.is_archived = false"@] + property_clauses(features),
        ", "@,
    ) + " RETURN n"@
}

/// The parameters of the query that creates an artifact: one for each field
/// that is stored as a property, empty where no value was given.
pub open spec fn create_params(
    fields: Map<Seq<char>, Seq<char>>,
    features: Seq<FeatureView>,
) -> Map<Seq<char>, Param>
    decreases features.len(),
{
    if features.len() == 0 {
        no_params()
    } else {
        let earlier = create_params(fields, features.drop_last());
        let f = features.last();
        if f.relation is None {
            earlier.insert(f.id, Param::Text(value_or_empty(fields, f.id)))
        } else {
            earlier
        }
    }
}

/// The text of the query that creates an artifact.
pub fn create_cypher(archive_name: &str, schema: &Schema) -> (text: String)
    ensures
        text@ == create_text(archive_name@, schema@),
{
    let mut clauses: Vec<String> = Vec::new();
    clauses.push("n.is_archived = false".to_owned());
    assert(views(clauses@) =~= seq!["n.is_archived = false"@]);
    push_property_clauses(&mut clauses, schema);

    let mut text = "CREATE (n:Artifact:".to_owned();
    text.append(archive_name);
    text.append(") SET ");
    text.append(join(&clauses, ", ").as_str());
    text.append(" RETURN n");
    text
}

/// The query that creates an artifact with the given field values.
pub fn create_query(archive_name: &str, fields: &FieldMap, schema: &Schema) -> (query:
    neo4rs::Query)
    ensures
        query_text(query) == create_text(archive_name@, schema@),
        query_params(query) == create_params(fields@, schema@),
{
    let text = create_cypher(archive_name, schema);
    let mut query = new_query(text.as_str());
    let mut i: usize = 0;
    assert(schema@.take(0) =~= Seq::empty());
    while i < schema.features.len()
        invariant
            i <= schema.features.len(),
            query_text(query) == text@,
            query_params(query) == create_params(fields@, schema@.take(i as int)),
        decreases schema.features.len() - i,
    {
        let feature = &schema.features[i];
        assert(schema@.take(i + 1).drop_last() =~= schema@.take(i as int));
        assert(schema@.take(i + 1).last() == feature@);
        if feature.relation.is_none() {
            query = with_text(
                query,
                feature.id.as_str(),
                fields.get_or_empty(feature.id.as_str()),
            );
        }
        i = i + 1;
    }
    assert(schema@.take(i as int) =~= schema@);
    query
}

/// The fields of a new artifact: every field of the schema, with the value
/// that was given for it or empty.
pub open spec fn created_fields(
    fields: Map<Seq<char>, Seq<char>>,
    features: Seq<FeatureView>,
) -> Map<Seq<char>, Seq<char>> {
    map_of(valued(features, |f: FeatureView| value_or_empty(fields, f.id)))
}

/// The artifact that was created as the node with an id.
pub open spec fn created_view(
    number: i64,
    fields: Map<Seq<char>, Seq<char>>,
    features: Seq<FeatureView>,
) -> ModelView {
    ModelView {
        id: signed_decimal(number as int),
        is_archived: false,
        fields: created_fields(fields, features),
    }
}

/// The artifact that the reply to the creation holds: one with the id of the
/// new node and with the values that were given.
pub fn created_model(row: Option<neo4rs::Row>, fields: &FieldMap, schema: &Schema) -> (result:
    Result<DynamicModel, ReplyError>)
    requires
        row is Some ==> readable_node(row_cells(row->0), "n"@),
    ensures
        match result {
            Ok(model) => {
                &&& row is Some
                &&& node_in(row_cells(row->0)) is Some
                &&& model@ == created_view(
                    node_in(row_cells(row->0))->0.number,
                    fields@,
                    schema@,
                )
            },
            Err(ReplyError::NoRows) => row is None,
            Err(ReplyError::NotANode(_)) => row is Some && node_in(row_cells(row->0)) is None,
        },
{
    let reply = match row {
        Some(reply) => reply,
        None => {
            return Err(ReplyError::NoRows);
        },
    };
    let node = match row_node(&reply, "n") {
        Ok(node) => node,
        Err(e) => {
            return Err(ReplyError::NotANode(e));
        },
    };
    let ghost value = |f: FeatureView| value_or_empty(fields@, f.id);
    let ghost pairs = valued(schema@, value);
    let mut model_fields = FieldMap::new();
    let mut i: usize = 0;
    while i < schema.features.len()
        invariant
            i <= schema.features.len(),
            value == (|f: FeatureView| value_or_empty(fields@, f.id)),
            pairs == valued(schema@, value),
            model_fields@ == map_of(pairs.take(i as int)),
        decreases schema.features.len() - i,
    {
        let feature = &schema.features[i];
        assert(schema@[i as int] == feature@);
        assert(pairs.take(i + 1).drop_last() =~= pairs.take(i as int));
        model_fields.insert(feature.id.clone(), fields.get_or_empty(feature.id.as_str()));
        i = i + 1;
    }
    assert(pairs.take(i as int) =~= pairs);
    Ok(
        DynamicModel {
            id: signed_to_decimal(node_id(&node)),
            is_archived: false,
            fields: model_fields,
        },
    )
}

/// The artifact that the reply to the creation holds, `None` where what stands
/// in the place of the node is neither a proper node nor plainly none. Unlike
/// [`created_model`], this can be asked of any reply.
pub fn try_created_model(row: Option<neo4rs::Row>, fields: &FieldMap, schema: &Schema) -> (result:
    Option<Result<DynamicModel, ReplyError>>)
    ensures
        match result {
            Some(Ok(model)) => {
                &&& row is Some
                &&& node_in(row_cells(row->0)) is Some
                &&& model@ == created_view(
                    node_in(row_cells(row->0))->0.number,
                    fields@,
                    schema@,
                )
            },
            Some(Err(ReplyError::NoRows)) => row is None,
            Some(Err(ReplyError::NotANode(_))) => row is Some && node_in(
                row_cells(row->0),
            ) is None,
            None => true,
        },
        result is None <==> row is Some && !is_settled(row_cells(row->0), "n"@),
{
    if let Some(r) = &row {
        if !row_is_settled(r, "n") {
            return None;
        }
    }
    Some(created_model(row, fields, schema))
}

/// An id that is not a number.
#[derive(Debug)]
pub struct InvalidId {
    pub id: String,
}

impl InvalidId {
    /// The sentence that tells a user what is wrong.
    pub fn message(&self) -> (out: String)
        ensures
            out@ == "Invalid artifact id: "@ + self.id@,
    {
        let mut out = "Invalid artifact id: ".to_owned();
        out.append(self.id.as_str());
        out
    }
}

pub open spec fn delete_text(archive_name: Seq<char>) -> Seq<char> {
    match_archive(archive_name) + " WHERE id(n) = $id DETACH DELETE n"@
}

/// The text of the query that deletes an artifact and its relations.
pub fn delete_cypher(archive_name: &str) -> (text: String)
    ensures
        text@ == delete_text(archive_name@),
{
    let mut text = match_archive_text(archive_name);
    text.append(" WHERE id(n) = $id DETACH DELETE n");
    text
}

/// The query that deletes an artifact and its relations.
pub fn delete_query(archive_name: &str, id: &str) -> (result: Result<neo4rs::Query, InvalidId>)
    ensures
        match result {
            Ok(query) => {
                &&& integer_of(id@) is Some
                &&& query_text(query) == delete_text(archive_name@)
                &&& query_params(query) == no_params().insert(
                    "id"@,
                    Param::Number(integer_of(id@)->0),
                )
            },
            Err(e) => integer_of(id@) is None && e.id@ == id@,
        },
{
    match parse_integer(id) {
        Some(number) => {
            let query = new_query(delete_cypher(archive_name).as_str());
            Ok(with_number(query, "id", number))
        },
        None => Err(InvalidId { id: id.to_owned() }),
    }
}

/// A new artifact has a value for every field of the schema: the one that was
/// given, or the empty text.
pub proof fn law_created_fields(fields: Map<Seq<char>, Seq<char>>, features: Seq<FeatureView>)
    ensures
        covers(created_fields(fields, features), features),
        forall|i: int|
            0 <= i < features.len() ==> created_fields(fields, features)[(
            #[trigger] features[i]).id] == value_or_empty(fields, features[i].id),
{
    let value = |f: FeatureView| value_or_empty(fields, f.id);
    let pairs = valued(features, value);
    lemma_valued_covers(features, value);
    assert forall|i: int| 0 <= i < features.len() implies created_fields(fields, features)[(
    #[trigger] features[i]).id] == value_or_empty(fields, features[i].id) by {
        let key = features[i].id;
        assert(map_of(pairs).contains_key(key));
        crate::fields::lemma_key_has_pair(pairs, key);
    }
}

/// The creation gives a parameter for each field that is stored as a property,
/// with the value of that field, and none besides.
pub proof fn law_create_binds_every_name(
    fields: Map<Seq<char>, Seq<char>>,
    features: Seq<FeatureView>,
)
    ensures
        forall|i: int|
            0 <= i < features.len() && (#[trigger] features[i]).relation is None ==> {
                &&& create_params(fields, features).contains_key(features[i].id)
                &&& create_params(fields, features)[features[i].id] == Param::Text(
                    value_or_empty(fields, features[i].id),
                )
            },
        forall|key: Seq<char>| #[trigger]
            create_params(fields, features).contains_key(key) ==> exists|i: int|
                0 <= i < features.len() && (#[trigger] features[i]).relation is None
                    && features[i].id == key,
    decreases features.len(),
{
    if features.len() > 0 {
        let front = features.drop_last();
        let last = features.len() - 1;
        law_create_binds_every_name(fields, front);
        assert forall|i: int|
            0 <= i < features.len() && (#[trigger] features[i]).relation is None implies {
            &&& create_params(fields, features).contains_key(features[i].id)
            &&& create_params(fields, features)[features[i].id] == Param::Text(
                value_or_empty(fields, features[i].id),
            )
        } by {
            if i < last {
                assert(front[i] == features[i]);
            }
        }
        assert forall|key: Seq<char>| #[trigger]
            create_params(fields, features).contains_key(key) implies exists|i: int|
            0 <= i < features.len() && (#[trigger] features[i]).relation is None && features[i].id
                == key by {
            if create_params(fields, front).contains_key(key) {
                let i = choose|i: int|
                    0 <= i < front.len() && (#[trigger] front[i]).relation is None && front[i].id
                        == key;
                assert(features[i] == front[i]);
            } else {
                assert(features[last].id == key);
            }
        }
    }
}

/// The listing returns a column, under the id of the field, for each field
/// that an artifact reads from its row.
pub proof fn law_listing_returns_relations(features: Seq<FeatureView>)
    ensures
        listed_columns(features).contains("n"@),
        forall|i: int|
            0 <= i < features.len() && (#[trigger] features[i]).relation is Some
                ==> listed_columns(features).contains(
                "r"@ + decimal(i as nat) + ".name AS "@ + features[i].id,
            ),
    decreases features.len(),
{
    let columns = listed_columns(features);
    if features.len() == 0 {
        assert(columns[0] == "n"@);
    } else {
        let front = features.drop_last();
        let earlier = listed_columns(front);
        law_listing_returns_relations(front);
        assert forall|c: Seq<char>| #[trigger] earlier.contains(c) implies columns.contains(c) by {
            let k = choose|k: int| 0 <= k < earlier.len() && earlier[k] == c;
            assert(columns[k] == c);
        }
        assert forall|i: int|
            0 <= i < features.len() && (
            #[trigger] features[i]).relation is Some implies columns.contains(
            "r"@ + decimal(i as nat) + ".name AS "@ + features[i].id,
        ) by {
            if i < front.len() {
                assert(front[i] == features[i]);
            } else {
                assert(columns.last() == "r"@ + decimal(i as nat) + ".name AS "@ + features[i].id);
            }
        }
    }
}

/// The count is the number in the column `count` of the first row, and zero
/// where there is no row or no number.
pub proof fn law_count(cells: Map<Seq<char>, Cell>)
    ensures
        count_in(None) == 0,
        if cells.contains_key("count"@) {
            match cells["count"@] {
                Cell::Number(n) => count_in(Some(cells)) == n,
                Cell::Moment { text: _, number: Reading::Value(n) } => count_in(Some(cells)) == n,
                _ => count_in(Some(cells)) == 0,
            }
        } else {
            count_in(Some(cells)) == 0
        },
{
}

/// The first row of a reply is the one that came, where one did.
pub proof fn law_first_row(row: neo4rs::Row)
    ensures
        first_row(None) is None,
        first_row(Some(row)) == Some(row_cells(row)),
{
}

/// The keys of a reply are the texts in the column `key`, row by row. Only the
/// internal one is left out.
pub proof fn law_keys(rows: Seq<neo4rs::Row>, row: neo4rs::Row)
    ensures
        keys_in(Seq::empty()).len() == 0,
        ({
            let cells = row_cells(row);
            let after = keys_in(rows.push(row));
            if cells.contains_key("key"@) {
                match cells["key"@] {
                    Cell::Text(key) => if key == "is_archived"@ {
                        after == keys_in(rows)
                    } else {
                        after == keys_in(rows).push(key)
                    },
                    Cell::Moment { text: Reading::Value(key), number: _ } => if key
                        == "is_archived"@ {
                        after == keys_in(rows)
                    } else {
                        after == keys_in(rows).push(key)
                    },
                    _ => after == keys_in(rows),
                }
            } else {
                after == keys_in(rows)
            }
        }),
{
    let all = rows.push(row);
    let pick = |row: neo4rs::Row| key_in(row_cells(row));
    all.lemma_filter_map_take_succ(pick, rows.len() as int);
    assert(all.take(rows.len() as int) =~= rows);
    assert(all.take(rows.len() as int + 1) =~= all);
    assert(keys_in(Seq::empty()) =~= Seq::empty());
    match key_in(row_cells(row)) {
        Some(key) => {
            assert(keys_in(all) =~= keys_in(rows).push(key));
        },
        None => {
            assert(keys_in(all) =~= keys_in(rows));
        },
    }
}

/// Every query is about the artifacts of the archive that it is for.
pub proof fn law_archive_texts(archive_name: Seq<char>)
    ensures
        count_text(archive_name) == "MATCH (n:Artifact:"@ + archive_name + ")"@
            + " RETURN count(n) AS count LIMIT 1"@,
        keys_text(archive_name) == "MATCH (n:Artifact:"@ + archive_name + ")"@
            + " UNWIND keys(n) AS key RETURN DISTINCT key"@,
        delete_text(archive_name) == "MATCH (n:Artifact:"@ + archive_name + ")"@
            + " WHERE id(n) = $id DETACH DELETE n"@,
{
}

/// A migration first removes every field that is to go, then sets every field
/// that is to come to the empty text, and does neither where there is nothing
/// to do.
pub proof fn law_migration_texts(
    archive_name: Seq<char>,
    to_add: Seq<Seq<char>>,
    to_remove: Seq<Seq<char>>,
) -> (clauses: (Seq<Seq<char>>, Seq<Seq<char>>))
    ensures
        clauses.0.len() == to_remove.len(),
        forall|i: int|
            0 <= i < to_remove.len() ==> #[trigger] clauses.0[i] == "n."@ + to_remove[i],
        clauses.1.len() == to_add.len(),
        forall|i: int|
            0 <= i < to_add.len() ==> #[trigger] clauses.1[i] == "n."@ + to_add[i] + " = \"\""@,
        ({
            let texts = migration_texts(archive_name, to_add, to_remove);
            let found = "MATCH (n:Artifact:"@ + archive_name + ")"@;
            let removal = found + " REMOVE "@ + joined(clauses.0, ", "@);
            let addition = found + " SET "@ + joined(clauses.1, ", "@);
            &&& to_remove.len() > 0 && to_add.len() > 0 ==> texts == seq![removal, addition]
            &&& to_remove.len() > 0 && to_add.len() == 0 ==> texts == seq![removal]
            &&& to_remove.len() == 0 && to_add.len() > 0 ==> texts == seq![addition]
            &&& to_remove.len() == 0 && to_add.len() == 0 ==> texts.len() == 0
        }),
{
    let texts = migration_texts(archive_name, to_add, to_remove);
    let found = "MATCH (n:Artifact:"@ + archive_name + ")"@;
    let removal = found + " REMOVE "@ + joined(remove_clauses(to_remove), ", "@);
    let addition = found + " SET "@ + joined(clear_clauses(to_add), ", "@);
    if to_remove.len() > 0 && to_add.len() > 0 {
        assert(texts =~= seq![removal, addition]);
    } else if to_remove.len() > 0 {
        assert(texts =~= seq![removal]);
    } else if to_add.len() > 0 {
        assert(texts =~= seq![addition]);
    }
    (remove_clauses(to_remove), clear_clauses(to_add))
}

/// A search is on the property of the first field that is marked as the title,
/// and on `title` where none is. Without a search there is no condition.
pub proof fn law_search_is_on_title(features: Seq<FeatureView>, i: int, search: Seq<char>)
    requires
        0 <= i <= features.len(),
        forall|j: int| 0 <= j < i ==> (#[trigger] features[j]).system_title != Some(true),
        i < features.len() ==> features[i].system_title == Some(true),
    ensures
        search.len() > 0 ==> search_condition(features, search) == " WHERE n."@ + (if i
            < features.len() {
            features[i].id
        } else {
            "title"@
        }) + " CONTAINS $search"@,
        search.len() == 0 ==> search_condition(features, search).len() == 0,
{
    law_title_is_first_marked(features);
    if i < features.len() {
        assert(features[i].system_title == Some(true));
    }
}

/// Schemas whose titles have different ids are searched by different
/// conditions.
pub proof fn law_search_tells_titles_apart(
    a: Seq<FeatureView>,
    i: int,
    b: Seq<FeatureView>,
    j: int,
    search: Seq<char>,
)
    requires
        0 <= i < a.len(),
        a[i].system_title == Some(true),
        forall|k: int| 0 <= k < i ==> (#[trigger] a[k]).system_title != Some(true),
        0 <= j < b.len(),
        b[j].system_title == Some(true),
        forall|k: int| 0 <= k < j ==> (#[trigger] b[k]).system_title != Some(true),
        a[i].id != b[j].id,
        search.len() > 0,
    ensures
        search_condition(a, search) != search_condition(b, search),
{
    law_search_is_on_title(a, i, search);
    law_search_is_on_title(b, j, search);
    let start = " WHERE n."@.len() as int;
    let end = " CONTAINS $search"@.len() as int;
    let x = search_condition(a, search);
    let y = search_condition(b, search);
    assert(x.subrange(start, x.len() - end) =~= a[i].id);
    assert(y.subrange(start, y.len() - end) =~= b[j].id);
}

/// Each field that is stored as a relation is matched by a line of its own, in
/// the order of the fields.
pub proof fn law_relation_matches(features: Seq<FeatureView>) -> (lines: Seq<Seq<char>>)
    ensures
        relation_matches(features) == joined(lines, Seq::empty()),
        lines.len() == relation_count(features),
        forall|i: int|
            0 <= i < features.len() && (#[trigger] features[i]).relation is Some ==> {
                let k = relation_count(features.take(i)) as int;
                let rel = features[i].relation->0;
                &&& k < lines.len()
                &&& lines[k] == "\nOPTIONAL MATCH (n)-[:"@ + rel.rel_type + "]->(r"@ + decimal(
                    i as nat,
                ) + ":"@ + rel.target_label + ")"@
            },
    decreases features.len(),
{
    if features.len() == 0 {
        assert(features =~= Seq::empty());
        assert(features.filter(|f: FeatureView| f.relation is Some) =~= Seq::empty());
        Seq::empty()
    } else {
        let front = features.drop_last();
        let f = features.last();
        let last = features.len() - 1;
        assert(features =~= front.push(f));
        law_field_counts(front, f);
        let earlier = law_relation_matches(front);
        let lines = if f.relation is Some {
            earlier.push(relation_match(last, f))
        } else {
            earlier
        };
        if f.relation is Some {
            assert(lines =~= earlier + seq![relation_match(last, f)]);
            law_join(earlier, seq![relation_match(last, f)], Seq::empty());
            law_join(seq![relation_match(last, f)], earlier, Seq::empty());
            if earlier.len() == 0 {
                assert(lines =~= seq![relation_match(last, f)]);
                assert(relation_matches(front) =~= Seq::empty());
            }
            assert(relation_matches(features) =~= joined(lines, Seq::empty()));
        } else {
            assert(relation_matches(features) =~= relation_matches(front));
        }
        assert forall|i: int|
            0 <= i < features.len() && (#[trigger] features[i]).relation is Some implies {
            let k = relation_count(features.take(i)) as int;
            let rel = features[i].relation->0;
            &&& k < lines.len()
            &&& lines[k] == "\nOPTIONAL MATCH (n)-[:"@ + rel.rel_type + "]->(r"@ + decimal(
                i as nat,
            ) + ":"@ + rel.target_label + ")"@
        } by {
            if i < last {
                assert(front[i] == features[i]);
                assert(front.take(i) =~= features.take(i));
            } else {
                assert(features.take(i) =~= front);
            }
        }
        lines
    }
}

/// The listing has a column for the node, and one for each field that is stored
/// as a relation, under its id and in the order of the fields.
pub proof fn law_listed_columns(features: Seq<FeatureView>)
    ensures
        listed_columns(features).len() == 1 + relation_count(features),
        listed_columns(features)[0] == "n"@,
        forall|i: int|
            0 <= i < features.len() && (#[trigger] features[i]).relation is Some ==> {
                let k = 1 + relation_count(features.take(i)) as int;
                &&& k < listed_columns(features).len()
                &&& listed_columns(features)[k] == "r"@ + decimal(i as nat) + ".name AS "@
                    + features[i].id
            },
    decreases features.len(),
{
    if features.len() == 0 {
        assert(features =~= Seq::empty());
        assert(features.filter(|f: FeatureView| f.relation is Some) =~= Seq::empty());
    } else {
        let front = features.drop_last();
        let f = features.last();
        assert(features =~= front.push(f));
        law_field_counts(front, f);
        law_listed_columns(front);
        assert forall|i: int|
            0 <= i < features.len() && (#[trigger] features[i]).relation is Some implies {
            let k = 1 + relation_count(features.take(i)) as int;
            &&& k < listed_columns(features).len()
            &&& listed_columns(features)[k] == "r"@ + decimal(i as nat) + ".name AS "@
                + features[i].id
        } by {
            if i < features.len() - 1 {
                assert(front[i] == features[i]);
                assert(front.take(i) =~= features.take(i));
            } else {
                assert(features.take(i) =~= front);
            }
        }
    }
}

/// A page is listed from the artifacts of the archive that meet the search, with
/// what is matched for the relations, by the ids of the nodes.
pub proof fn law_list_text(archive_name: Seq<char>, features: Seq<FeatureView>, search: Seq<char>)
    ensures
        list_text(archive_name, features, search) == "MATCH (n:Artifact:"@ + archive_name + ")"@
            + search_condition(features, search) + relation_matches(features) + "\nRETURN "@
            + joined(listed_columns(features), ", "@)
            + " ORDER BY id(n) SKIP $skip LIMIT $limit"@,
{
}

/// The creation makes a node of the archive that is not archived, and sets every
/// property.
pub proof fn law_create_text(archive_name: Seq<char>, features: Seq<FeatureView>) -> (clauses: Seq<
    Seq<char>,
>)
    ensures
        create_text(archive_name, features) == "CREATE (n:Artifact:"@ + archive_name + ") SET "@
            + joined(clauses, ", "@) + " RETURN n"@,
        clauses.len() == 1 + property_count(features),
        clauses[0] == "n.is_archived = false"@,
        forall|i: int|
            0 <= i < features.len() && (#[trigger] features[i]).relation is None ==> {
                &&& property_count(features.take(i)) < property_count(features)
                &&& clauses[1 + property_count(features.take(i)) as int] == "n."@ + features[i].id
                    + " = $"@ + features[i].id
            },
{
    law_property_clauses(features);
    seq!["n.is_archived = false"@] + property_clauses(features)
}

/// A new artifact has the id of its node and is not archived. It has the values
/// that were given for the fields of the schema, unchanged, the empty text for
/// the others, and nothing else.
pub proof fn law_created_keeps_values(
    number: i64,
    fields: Map<Seq<char>, Seq<char>>,
    features: Seq<FeatureView>,
)
    ensures
        ({
            let model = created_view(number, fields, features);
            &&& model.id == signed_decimal(number as int)
            &&& !model.is_archived
            &&& forall|i: int|
                0 <= i < features.len() ==> {
                    let id = (#[trigger] features[i]).id;
                    &&& model.fields.contains_key(id)
                    &&& fields.contains_key(id) ==> model.fields[id] == fields[id]
                    &&& !fields.contains_key(id) ==> model.fields[id].len() == 0
                }
            &&& forall|key: Seq<char>| #[trigger]
                model.fields.contains_key(key) ==> exists|i: int|
                    0 <= i < features.len() && (#[trigger] features[i]).id == key
        }),
{
    law_created_fields(fields, features);
    let model = created_view(number, fields, features);
    let pairs = valued(features, |f: FeatureView| value_or_empty(fields, f.id));
    assert forall|i: int| 0 <= i < features.len() implies {
        let id = (#[trigger] features[i]).id;
        &&& model.fields.contains_key(id)
        &&& fields.contains_key(id) ==> model.fields[id] == fields[id]
        &&& !fields.contains_key(id) ==> model.fields[id].len() == 0
    } by {
        assert(created_fields(fields, features)[features[i].id] == value_or_empty(
            fields,
            features[i].id,
        ));
    }
    assert forall|key: Seq<char>| #[trigger] model.fields.contains_key(key) implies exists|i: int|
        0 <= i < features.len() && (#[trigger] features[i]).id == key by {
        crate::fields::lemma_key_has_pair(pairs, key);
        let i = choose|i: int|
            0 <= i < pairs.len() && (#[trigger] pairs[i]).0 == key && pairs[i].1 == map_of(
                pairs,
            )[key];
        assert(features[i].id == key);
    }
}

/// The creation binds each property to the value that was given for it, and to
/// the empty text where none was.
pub proof fn law_create_keeps_values(
    fields: Map<Seq<char>, Seq<char>>,
    features: Seq<FeatureView>,
    i: int,
)
    requires
        0 <= i < features.len(),
        features[i].relation is None,
    ensures
        ({
            let id = features[i].id;
            let params = create_params(fields, features);
            &&& params.contains_key(id)
            &&& fields.contains_key(id) ==> params[id] == Param::Text(fields[id])
            &&& !fields.contains_key(id) ==> params[id] == Param::Text(Seq::empty())
        }),
{
    law_create_binds_every_name(fields, features);
    assert(features[i].relation is None);
}

/// A plain query has its text and binds nothing.
pub proof fn law_is_plain_query(query: neo4rs::Query, text: Seq<char>)
    ensures
        is_plain_query(query, text) <==> query_text(query) == text && forall|key: Seq<char>|
            !(#[trigger] query_params(query).contains_key(key)),
{
    if query_text(query) == text && forall|key: Seq<char>|
        !(#[trigger] query_params(query).contains_key(key)) {
        assert(query_params(query) =~= no_params());
    }
}

/// The node of a row is the one in the column `n`, where a node can be read
/// there.
pub proof fn law_node_in(cells: Map<Seq<char>, Cell>)
    ensures
        if cells.contains_key("n"@) {
            match cells["n"@] {
                Cell::Compound { is_node: _, names: _, node: Reading::Value(node) } => node_in(
                    cells,
                ) == Some(node),
                _ => node_in(cells) is None,
            }
        } else {
            node_in(cells) is None
        },
{
}

/// A row can be read if its node can be, and the fields of the node's artifact.
/// A node can be read unless it holds a date or a time that the driver cannot
/// represent, or has a property with the name that the driver keeps for the id.
pub proof fn law_readable_row(features: Seq<FeatureView>, cells: Map<Seq<char>, Cell>)
    ensures
        readable_row(features, cells) <==> {
            &&& cells.contains_key("n"@) ==> match cells["n"@] {
                Cell::Compound { is_node, names, node } => (is_node && !names.contains(
                    "42.<id>"@,
                )) || !(node is OutOfRange),
                _ => true,
            }
            &&& node_in(cells) is Some ==> readable_fields(
                features,
                cells,
                node_in(cells)->0.cells,
            )
        },
{
}

/// A row is plain if a node stands in the column `n`, without a property with
/// the name that the driver keeps for the id, or else nothing or a value that
/// holds no others. No field of its artifact may be a date or a time.
pub proof fn law_plain_row(features: Seq<FeatureView>, cells: Map<Seq<char>, Cell>)
    ensures
        plain_row(features, cells) <==> {
            &&& cells.contains_key("n"@) ==> match cells["n"@] {
                Cell::Compound { is_node, names, node: _ } => is_node && !names.contains(
                    "42.<id>"@,
                ),
                Cell::Other => false,
                _ => true,
            }
            &&& node_in(cells) is Some ==> plain_fields(features, cells, node_in(cells)->0.cells)
        },
{
}

/// Queries about two archives are different.
pub proof fn law_queries_tell_archives_apart(a: Seq<char>, b: Seq<char>)
    requires
        a != b,
    ensures
        count_text(a) != count_text(b),
        keys_text(a) != keys_text(b),
        delete_text(a) != delete_text(b),
{
    lemma_middle_fixed("MATCH (n:Artifact:"@, a, b, ")"@ + " RETURN count(n) AS count LIMIT 1"@);
    lemma_middle_fixed(
        "MATCH (n:Artifact:"@,
        a,
        b,
        ")"@ + " UNWIND keys(n) AS key RETURN DISTINCT key"@,
    );
    lemma_middle_fixed("MATCH (n:Artifact:"@, a, b, ")"@ + " WHERE id(n) = $id DETACH DELETE n"@);
    law_archive_texts(a);
    law_archive_texts(b);
    assert forall|x: Seq<char>, end: Seq<char>|
        "MATCH (n:Artifact:"@ + x + ")"@ + end == #[trigger] ("MATCH (n:Artifact:"@ + x + (")"@
            + end)) by {
        assert("MATCH (n:Artifact:"@ + x + ")"@ + end =~= "MATCH (n:Artifact:"@ + x + (")"@ + end));
    }
}

/// Texts with the same start and end differ if what stands between does.
proof fn lemma_middle_fixed(start: Seq<char>, a: Seq<char>, b: Seq<char>, end: Seq<char>)
    requires
        a != b,
    ensures
        start + a + end != start + b + end,
{
    let x = start + a + end;
    let y = start + b + end;
    let n = start.len() as int;
    assert(x.subrange(n, x.len() - end.len()) =~= a);
    assert(y.subrange(n, y.len() - end.len()) =~= b);
}

} // verus!
