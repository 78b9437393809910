//! The values that travel to and from the graph database: queries with their
//! parameters, and the rows and nodes of a reply.

use vstd::prelude::*;
use vstd::string::*;

use crate::text::{same_text, views};
use neo4rs::BoltType;

verus! {

/// A query of the database driver.
#[verifier::external_type_specification]
#[verifier::external_body]
pub struct ExQuery(neo4rs::Query);

/// A row of a reply.
#[verifier::external_type_specification]
#[verifier::external_body]
pub struct ExRow(neo4rs::Row);

/// A node of a reply.
#[verifier::external_type_specification]
#[verifier::external_body]
pub struct ExNode(neo4rs::Node);

/// Why a column or a property could not be read as the type that was asked for.
#[verifier::external_type_specification]
#[verifier::external_body]
pub struct ExDeError(neo4rs::DeError);

/// The value of a query parameter.
pub enum Param {
    Text(Seq<char>),
    Number(i64),
    Flag(bool),
}

/// No parameters at all.
pub open spec fn no_params() -> Map<Seq<char>, Param> {
    Map::empty()
}

/// What a read comes to where a date or a time may be read on the way.
pub enum Reading<T> {
    Value(T),
    /// The driver reports an error.
    Failed,
    /// The driver may panic: a date or a time is outside the range that it can
    /// represent.
    OutOfRange,
}

/// A value in a row or on a node, by what it can be read as.
pub enum Cell {
    Null,
    Flag(bool),
    Number(i64),
    Text(Seq<char>),
    /// A date or a time, and what it reads as when a text or a number is asked
    /// for.
    Moment { text: Reading<Seq<char>>, number: Reading<i64> },
    /// A node, or another value that holds values, and what it reads as when a
    /// node is asked for. `is_node` is a node whose properties can all be read,
    /// `names` are their names.
    Compound { is_node: bool, names: Set<Seq<char>>, node: Reading<NodeView> },
    Other,
}

/// What a node holds: its id, and its properties by name.
pub struct NodeView {
    pub number: i64,
    pub cells: Map<Seq<char>, Cell>,
}

/// The text that a value reads as.
pub open spec fn cell_text(cell: Cell) -> Option<Seq<char>> {
    match cell {
        Cell::Text(text) => Some(text),
        Cell::Moment { text: Reading::Value(text), number: _ } => Some(text),
        _ => None,
    }
}

/// The number that a value reads as.
pub open spec fn cell_number(cell: Cell) -> Option<i64> {
    match cell {
        Cell::Number(number) => Some(number),
        Cell::Moment { text: _, number: Reading::Value(number) } => Some(number),
        _ => None,
    }
}

/// Whether a read of the value under a key as a text returns.
pub open spec fn readable_text(cells: Map<Seq<char>, Cell>, key: Seq<char>) -> bool {
    cells.contains_key(key) && cells[key] is Moment ==> !(cells[key]->text is OutOfRange)
}

/// Whether a read of the value under a key as a number returns.
pub open spec fn readable_number(cells: Map<Seq<char>, Cell>, key: Seq<char>) -> bool {
    cells.contains_key(key) && cells[key] is Moment ==> !(cells[key]->number is OutOfRange)
}

/// The text under a key. `None` where the key is missing or its value does not
/// read as a text.
pub open spec fn text_at(cells: Map<Seq<char>, Cell>, key: Seq<char>) -> Option<Seq<char>> {
    if cells.contains_key(key) {
        cell_text(cells[key])
    } else {
        None
    }
}

/// The number under a key. `None` where the key is missing or its value does
/// not read as a number.
pub open spec fn number_at(cells: Map<Seq<char>, Cell>, key: Seq<char>) -> Option<i64> {
    if cells.contains_key(key) {
        cell_number(cells[key])
    } else {
        None
    }
}

/// The flag under a key. `None` where the key is missing or its value is not a
/// flag.
pub open spec fn flag_at(cells: Map<Seq<char>, Cell>, key: Seq<char>) -> Option<bool> {
    if cells.contains_key(key) {
        match cells[key] {
            Cell::Flag(flag) => Some(flag),
            _ => None,
        }
    } else {
        None
    }
}

/// What a read of an optional text gives: nothing for a null, else the text,
/// and an error where the key is missing or its value is neither.
pub open spec fn optional_text_at(cells: Map<Seq<char>, Cell>, key: Seq<char>) -> Option<
    Option<Seq<char>>,
> {
    if cells.contains_key(key) && cells[key] is Null {
        Some(None)
    } else {
        match text_at(cells, key) {
            Some(text) => Some(Some(text)),
            None => None,
        }
    }
}

/// The name under which the driver keeps the id of a node among its
/// properties.
pub open spec fn id_name() -> Seq<char> {
    "42.<id>"@
}

/// A node none of whose properties has the name that the driver keeps for the
/// id.
pub open spec fn is_proper_node(cell: Cell) -> bool {
    match cell {
        Cell::Compound { is_node, names, node: _ } => is_node && !names.contains(id_name()),
        _ => false,
    }
}

/// Whether a read of the value under a key as a node returns.
pub open spec fn readable_node(cells: Map<Seq<char>, Cell>, key: Seq<char>) -> bool {
    cells.contains_key(key) && cells[key] is Compound && !is_proper_node(cells[key]) ==> !(
    cells[key]->node is OutOfRange)
}

/// The node under a key. `None` where the key is missing or its value does not
/// read as a node.
pub open spec fn node_at(cells: Map<Seq<char>, Cell>, key: Seq<char>) -> Option<NodeView> {
    if cells.contains_key(key) {
        match cells[key] {
            Cell::Compound { is_node: _, names: _, node: Reading::Value(node) } => Some(node),
            _ => None,
        }
    } else {
        None
    }
}

/// What kind of value a row or a node holds under a key.
#[derive(Debug, PartialEq, Eq, Structural)]
pub enum ValueKind {
    Missing,
    Null,
    Flag,
    Number,
    Text,
    Date,
    Time,
    LocalTime,
    DateTime,
    LocalDateTime,
    ZonedDateTime,
    /// A node whose properties can all be read.
    Node,
    /// Anything else.
    Other,
}

/// Whether a kind of value is a date or a time.
pub open spec fn is_moment_kind(kind: ValueKind) -> bool {
    kind is Date || kind is Time || kind is LocalTime || kind is DateTime || kind is LocalDateTime
        || kind is ZonedDateTime
}

/// Whether a value of a kind stands under a key.
pub open spec fn has_kind(cells: Map<Seq<char>, Cell>, key: Seq<char>, kind: ValueKind) -> bool {
    if kind is Missing {
        !cells.contains_key(key)
    } else {
        &&& cells.contains_key(key)
        &&& match kind {
            ValueKind::Null => cells[key] is Null,
            ValueKind::Flag => cells[key] is Flag,
            ValueKind::Number => cells[key] is Number,
            ValueKind::Text => cells[key] is Text,
            ValueKind::Node => cells[key] is Compound && cells[key]->is_node,
            ValueKind::Other => cells[key] is Other || (cells[key] is Compound
                && !cells[key]->is_node),
            _ => cells[key] is Moment,
        }
    }
}

/// Whether a date or a time stands under a key.
pub open spec fn is_moment(cells: Map<Seq<char>, Cell>, key: Seq<char>) -> bool {
    cells.contains_key(key) && cells[key] is Moment
}

/// Whether a proper node stands under a key, or what plainly is none: nothing,
/// or a value that holds no others.
pub open spec fn is_settled(cells: Map<Seq<char>, Cell>, key: Seq<char>) -> bool {
    cells.contains_key(key) ==> !(cells[key] is Other) && (cells[key] is Compound
        ==> is_proper_node(cells[key]))
}

/// The text of a query.
pub uninterp spec fn query_text(query: neo4rs::Query) -> Seq<char>;

/// The parameters of a query, by name.
pub uninterp spec fn query_params(query: neo4rs::Query) -> Map<Seq<char>, Param>;

/// The columns of a row, by name.
pub uninterp spec fn row_cells(row: neo4rs::Row) -> Map<Seq<char>, Cell>;

/// The properties of a node, by name.
pub uninterp spec fn node_cells(node: neo4rs::Node) -> Map<Seq<char>, Cell>;

/// The id of a node.
pub uninterp spec fn node_number(node: neo4rs::Node) -> i64;

/// What a node holds.
pub open spec fn node_view(node: neo4rs::Node) -> NodeView {
    NodeView { number: node_number(node), cells: node_cells(node) }
}

/// `neo4rs::query`: a query with the given text and no parameters.
#[verifier::external_body]
pub(crate) fn new_query(text: &str) -> (query: neo4rs::Query)
    ensures
        query_text(query) == text@,
        query_params(query) == no_params(),
{
    neo4rs::query(text)
}

/// `neo4rs::Query::param` with a text: sets the parameter, in place of an
/// earlier one with that name, and keeps the rest of the query.
#[verifier::external_body]
pub(crate) fn with_text(query: neo4rs::Query, key: &str, value: String) -> (result: neo4rs::Query)
    ensures
        query_text(result) == query_text(query),
        query_params(result) == query_params(query).insert(key@, Param::Text(value@)),
{
    query.param(key, value)
}

/// `neo4rs::Query::param` with a number: sets the parameter, in place of an
/// earlier one with that name, and keeps the rest of the query.
#[verifier::external_body]
pub(crate) fn with_number(query: neo4rs::Query, key: &str, value: i64) -> (result: neo4rs::Query)
    ensures
        query_text(result) == query_text(query),
        query_params(result) == query_params(query).insert(key@, Param::Number(value)),
{
    query.param(key, value)
}

/// `neo4rs::Query::param` with a flag: sets the parameter, in place of an
/// earlier one with that name, and keeps the rest of the query.
#[verifier::external_body]
pub(crate) fn with_flag(query: neo4rs::Query, key: &str, value: bool) -> (result: neo4rs::Query)
    ensures
        query_text(result) == query_text(query),
        query_params(result) == query_params(query).insert(key@, Param::Flag(value)),
{
    query.param(key, value)
}

/// `neo4rs::Row::get` for an optional text: an error where the column is
/// missing, nothing for a null, the text of a text or of a date or time, an
/// error for anything else.
#[verifier::external_body]
pub(crate) fn row_optional_text(row: &neo4rs::Row, key: &str) -> (result: Result<
    Option<String>,
    neo4rs::DeError,
>)
    requires
        readable_text(row_cells(*row), key@),
    ensures
        match result {
            Ok(Some(text)) => optional_text_at(row_cells(*row), key@) == Some(Some(text@)),
            Ok(None) => optional_text_at(row_cells(*row), key@) == Some(None::<Seq<char>>),
            Err(_) => optional_text_at(row_cells(*row), key@) is None,
        },
{
    row.get::<Option<String>>(key)
}

/// `neo4rs::Row::get` for a text: the text of a text or of a date or time, an
/// error for anything else or where the column is missing.
#[verifier::external_body]
pub(crate) fn row_text(row: &neo4rs::Row, key: &str) -> (result: Result<String, neo4rs::DeError>)
    requires
        readable_text(row_cells(*row), key@),
    ensures
        match result {
            Ok(text) => text_at(row_cells(*row), key@) == Some(text@),
            Err(_) => text_at(row_cells(*row), key@) is None,
        },
{
    row.get::<String>(key)
}

/// `neo4rs::Row::get` for a number: the number of an integer or of a date with
/// a time, an error for anything else or where the column is missing.
#[verifier::external_body]
pub(crate) fn row_number(row: &neo4rs::Row, key: &str) -> (result: Result<i64, neo4rs::DeError>)
    requires
        readable_number(row_cells(*row), key@),
    ensures
        match result {
            Ok(number) => number_at(row_cells(*row), key@) == Some(number),
            Err(_) => number_at(row_cells(*row), key@) is None,
        },
{
    row.get::<i64>(key)
}

/// `neo4rs::Row::get` for a node: the node, with its id and its properties, an
/// error for anything that does not read as one or where the column is missing.
#[verifier::external_body]
pub(crate) fn row_node(row: &neo4rs::Row, key: &str) -> (result: Result<
    neo4rs::Node,
    neo4rs::DeError,
>)
    requires
        readable_node(row_cells(*row), key@),
    ensures
        match result {
            Ok(node) => node_at(row_cells(*row), key@) == Some(node_view(node)),
            Err(_) => node_at(row_cells(*row), key@) is None,
        },
{
    row.get::<neo4rs::Node>(key)
}

/// `neo4rs::Node::get` for an optional text: an error where the property is
/// missing, nothing for a null, the text of a text or of a date or time, an
/// error for anything else.
#[verifier::external_body]
pub(crate) fn node_optional_text(node: &neo4rs::Node, key: &str) -> (result: Result<
    Option<String>,
    neo4rs::DeError,
>)
    requires
        readable_text(node_cells(*node), key@),
    ensures
        match result {
            Ok(Some(text)) => optional_text_at(node_cells(*node), key@) == Some(Some(text@)),
            Ok(None) => optional_text_at(node_cells(*node), key@) == Some(None::<Seq<char>>),
            Err(_) => optional_text_at(node_cells(*node), key@) is None,
        },
{
    node.get::<Option<String>>(key)
}

/// `neo4rs::Node::get` for a flag: the flag, an error for anything else or
/// where the property is missing.
#[verifier::external_body]
pub(crate) fn node_flag(node: &neo4rs::Node, key: &str) -> (result: Result<bool, neo4rs::DeError>)
    ensures
        match result {
            Ok(flag) => flag_at(node_cells(*node), key@) == Some(flag),
            Err(_) => flag_at(node_cells(*node), key@) is None,
        },
{
    node.get::<bool>(key)
}

/// `neo4rs::Node::id`: the id of the node.
#[verifier::external_body]
pub(crate) fn node_id(node: &neo4rs::Node) -> (id: i64)
    ensures
        id == node_number(*node),
{
    node.id()
}

/// `neo4rs::Row::get` for a `neo4rs::BoltType`: the value as it is, by its
/// variant, and the error for a column that is missing.
#[verifier::external_body]
pub(crate) fn row_kind(row: &neo4rs::Row, key: &str) -> (kind: ValueKind)
    ensures
        has_kind(row_cells(*row), key@, kind),
{
    match row.get::<BoltType>(key) {
        Ok(BoltType::Null(_)) => ValueKind::Null,
        Ok(BoltType::Boolean(_)) => ValueKind::Flag,
        Ok(BoltType::Integer(_)) => ValueKind::Number,
        Ok(BoltType::String(_)) => ValueKind::Text,
        Ok(BoltType::Date(_)) => ValueKind::Date,
        Ok(BoltType::Time(_)) => ValueKind::Time,
        Ok(BoltType::LocalTime(_)) => ValueKind::LocalTime,
        Ok(BoltType::DateTime(_)) => ValueKind::DateTime,
        Ok(BoltType::LocalDateTime(_)) => ValueKind::LocalDateTime,
        Ok(BoltType::DateTimeZoneId(_)) => ValueKind::ZonedDateTime,
        Ok(BoltType::Node(_)) => ValueKind::Node,
        Err(neo4rs::DeError::NoSuchProperty) => ValueKind::Missing,
        _ => ValueKind::Other,
    }
}

/// `neo4rs::Node::get` for a `neo4rs::BoltType`: the value as it is, by its
/// variant, and the error for a property that is missing.
#[verifier::external_body]
pub(crate) fn node_kind(node: &neo4rs::Node, key: &str) -> (kind: ValueKind)
    ensures
        has_kind(node_cells(*node), key@, kind),
{
    match node.get::<BoltType>(key) {
        Ok(BoltType::Null(_)) => ValueKind::Null,
        Ok(BoltType::Boolean(_)) => ValueKind::Flag,
        Ok(BoltType::Integer(_)) => ValueKind::Number,
        Ok(BoltType::String(_)) => ValueKind::Text,
        Ok(BoltType::Date(_)) => ValueKind::Date,
        Ok(BoltType::Time(_)) => ValueKind::Time,
        Ok(BoltType::LocalTime(_)) => ValueKind::LocalTime,
        Ok(BoltType::DateTime(_)) => ValueKind::DateTime,
        Ok(BoltType::LocalDateTime(_)) => ValueKind::LocalDateTime,
        Ok(BoltType::DateTimeZoneId(_)) => ValueKind::ZonedDateTime,
        Ok(BoltType::Node(_)) => ValueKind::Node,
        Err(neo4rs::DeError::NoSuchProperty) => ValueKind::Missing,
        _ => ValueKind::Other,
    }
}

/// `neo4rs::Row::get` for the `neo4rs::Keys` of a node: the names of its
/// properties.
#[verifier::external_body]
pub(crate) fn row_node_names(row: &neo4rs::Row, key: &str) -> (result: Result<
    Vec<String>,
    neo4rs::DeError,
>)
    requires
        has_kind(row_cells(*row), key@, ValueKind::Node),
    ensures
        result is Ok,
        views(result->Ok_0@).to_set() == row_cells(*row)[key@]->names,
{
    row.get::<neo4rs::Keys<Vec<String>>>(key).map(|names| names.0)
}

/// Whether a kind of value is a date or a time.
fn kind_is_moment(kind: ValueKind) -> (yes: bool)
    ensures
        yes == is_moment_kind(kind),
{
    match kind {
        ValueKind::Date => true,
        ValueKind::Time => true,
        ValueKind::LocalTime => true,
        ValueKind::DateTime => true,
        ValueKind::LocalDateTime => true,
        ValueKind::ZonedDateTime => true,
        _ => false,
    }
}

/// Whether a column of a row is a date or a time.
pub fn row_holds_moment(row: &neo4rs::Row, key: &str) -> (yes: bool)
    ensures
        yes == is_moment(row_cells(*row), key@),
{
    kind_is_moment(row_kind(row, key))
}

/// Whether a property of a node is a date or a time.
pub fn node_holds_moment(node: &neo4rs::Node, key: &str) -> (yes: bool)
    ensures
        yes == is_moment(node_cells(*node), key@),
{
    kind_is_moment(node_kind(node, key))
}

/// Whether a column of a row holds a proper node, or what plainly is none.
pub fn row_is_settled(row: &neo4rs::Row, key: &str) -> (yes: bool)
    ensures
        yes == is_settled(row_cells(*row), key@),
{
    match row_kind(row, key) {
        ValueKind::Other => false,
        ValueKind::Node => match row_node_names(row, key) {
            Ok(names) => {
                let mut i: usize = 0;
                while i < names.len()
                    invariant
                        i <= names.len(),
                        has_kind(row_cells(*row), key@, ValueKind::Node),
                        views(names@).to_set() == row_cells(*row)[key@]->names,
                        forall|j: int| 0 <= j < i ==> #[trigger] views(names@)[j] != id_name(),
                    decreases names.len() - i,
                {
                    if same_text(names[i].as_str(), "42.<id>") {
                        assert(views(names@)[i as int] == id_name());
                        assert(views(names@).to_set().contains(id_name()));
                        return false;
                    }
                    i = i + 1;
                }
                assert(!views(names@).to_set().contains(id_name()));
                true
            },
            Err(_) => false,
        },
        _ => true,
    }
}

/// A text under a key is read as it is, a flag and a number likewise. What is
/// missing or of another kind is none of these. A null reads as no text.
pub proof fn law_reads(cells: Map<Seq<char>, Cell>, key: Seq<char>)
    ensures
        !cells.contains_key(key) ==> text_at(cells, key) is None && optional_text_at(
            cells,
            key,
        ) is None && number_at(cells, key) is None && flag_at(cells, key) is None && node_at(
            cells,
            key,
        ) is None,
        cells.contains_key(key) ==> match cells[key] {
            Cell::Text(text) => text_at(cells, key) == Some(text) && optional_text_at(cells, key)
                == Some(Some(text)),
            Cell::Null => text_at(cells, key) is None && optional_text_at(cells, key) == Some(
                None::<Seq<char>>,
            ),
            Cell::Moment { text: Reading::Value(text), number: _ } => text_at(cells, key) == Some(
                text,
            ) && optional_text_at(cells, key) == Some(Some(text)),
            _ => text_at(cells, key) is None && optional_text_at(cells, key) is None,
        },
        cells.contains_key(key) ==> match cells[key] {
            Cell::Number(number) => number_at(cells, key) == Some(number),
            Cell::Moment { text: _, number: Reading::Value(number) } => number_at(cells, key)
                == Some(number),
            _ => number_at(cells, key) is None,
        },
        cells.contains_key(key) ==> match cells[key] {
            Cell::Flag(flag) => flag_at(cells, key) == Some(flag),
            _ => flag_at(cells, key) is None,
        },
        forall|name: Seq<char>| !(#[trigger] no_params().contains_key(name)),
{
}

/// A node holds its id and its properties.
pub proof fn law_node_view(node: neo4rs::Node)
    ensures
        node_view(node).number == node_number(node),
        node_view(node).cells == node_cells(node),
{
}

/// What can be read, and what is told apart before it is read.
pub proof fn law_readable(cells: Map<Seq<char>, Cell>, key: Seq<char>)
    ensures
        is_moment(cells, key) <==> cells.contains_key(key) && cells[key] is Moment,
        !is_moment(cells, key) ==> readable_text(cells, key) && readable_number(cells, key),
        is_moment(cells, key) ==> (readable_text(cells, key) <==> !(
        cells[key]->text is OutOfRange)),
        is_moment(cells, key) ==> (readable_number(cells, key) <==> !(
        cells[key]->number is OutOfRange)),
        is_settled(cells, key) ==> readable_node(cells, key),
        !cells.contains_key(key) ==> is_settled(cells, key),
        cells.contains_key(key) ==> match cells[key] {
            Cell::Compound { is_node, names, node: _ } => is_settled(cells, key) <==> is_node
                && !names.contains("42.<id>"@),
            Cell::Other => !is_settled(cells, key),
            _ => is_settled(cells, key),
        },
{
}

} // verus!
