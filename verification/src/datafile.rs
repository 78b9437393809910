//! Data files: artifacts as TOML records, written on export and read on import.

use vstd::prelude::*;
use vstd::string::*;

use crate::fields::{
    distinct_keys, lemma_distinct_pairs, lemma_key_has_pair, lemma_pair_has_key, map_of,
    value_or_empty, FieldMap,
};
use crate::model::{
    lemma_valued_fields, lemma_valued_last, model_views, valued, DynamicModel, ModelView,
};
use crate::queries::{created_fields, law_created_keeps_values};
use crate::schema::{ids, FeatureMetadata, FeatureView, Schema, UiTypeDef, UiTypeView};
use crate::text::{is_suffix, same_text, views};
use crate::toml_data::{
    all_distinct, distinct_entries, document_lists, document_text, entry_map, entry_maps, kv_line,
    kv_lines, line_view, lists_of, moment_key, open_value, parse_keys, parse_lists, parse_toml,
    record_maps, record_text, table_of, toml_document, toml_keys, toml_kv, toml_lists, toml_view,
    TomlNode, TomlView,
};
use crate::units::{amount_of, law_split_parts, split_unit, unit_of};

verus! {

/// The key of the unit that goes with a field.
pub open spec fn unit_key(id: Seq<char>) -> Seq<char> {
    id + "_unit"@
}

fn unit_key_text(id: &str) -> (key: String)
    ensures
        key@ == unit_key(id@),
{
    let mut key = id.to_owned();
    key.append("_unit");
    key
}

/// The entries that a field is written as: a value with a unit is split into
/// its amount and, where there is one, its unit.
pub open spec fn field_entries(f: FeatureView, fields: Map<Seq<char>, Seq<char>>) -> Seq<
    (Seq<char>, Seq<char>),
> {
    let stored = value_or_empty(fields, f.id);
    match f.ui_type {
        UiTypeView::Unit { name: _, options } => if unit_of(stored, options).len() > 0 {
            seq![
                (f.id, amount_of(stored, options)),
                (unit_key(f.id), unit_of(stored, options)),
            ]
        } else {
            seq![(f.id, amount_of(stored, options))]
        },
        _ => seq![(f.id, stored)],
    }
}

/// The record that an artifact is written as: the entries of the schema's
/// fields, in order.
pub open spec fn exported_record(
    features: Seq<FeatureView>,
    fields: Map<Seq<char>, Seq<char>>,
) -> Seq<(Seq<char>, Seq<char>)>
    decreases features.len(),
{
    if features.len() == 0 {
        Seq::empty()
    } else {
        exported_record(features.drop_last(), fields) + field_entries(features.last(), fields)
    }
}

/// The records that some artifacts are written as.
pub open spec fn exported_records(features: Seq<FeatureView>, models: Seq<ModelView>) -> Seq<
    Seq<(Seq<char>, Seq<char>)>,
> {
    models.map_values(|m: ModelView| exported_record(features, m.fields))
}

/// What some field maps hold.
pub open spec fn field_views(list: Seq<FieldMap>) -> Seq<Map<Seq<char>, Seq<char>>> {
    list.map_values(|f: FieldMap| f@)
}

/// The lines of two lists follow each other.
proof fn lemma_kv_lines_add(
    a: Seq<(Seq<char>, Seq<char>)>,
    b: Seq<(Seq<char>, Seq<char>)>,
)
    ensures
        kv_lines(a + b) == kv_lines(a) + kv_lines(b),
    decreases b.len(),
{
    if b.len() == 0 {
        assert(a + b =~= a);
        assert(kv_lines(a) + kv_lines(b) =~= kv_lines(a));
    } else {
        lemma_kv_lines_add(a, b.drop_last());
        assert((a + b).drop_last() =~= a + b.drop_last());
        assert((a + b).last() == b.last());
        assert(kv_lines(a + b) =~= kv_lines(a) + kv_lines(b));
    }
}

/// The lines of a single entry, and of two.
proof fn lemma_kv_lines_few(e1: (Seq<char>, Seq<char>), e2: (Seq<char>, Seq<char>))
    ensures
        kv_lines(seq![e1]) == kv_line(e1.0, e1.1),
        kv_lines(seq![e1, e2]) == kv_line(e1.0, e1.1) + kv_line(e2.0, e2.1),
{
    assert(seq![e1].drop_last() =~= Seq::empty());
    assert(kv_lines(Seq::empty()) =~= Seq::empty());
    assert(kv_lines(seq![e1]) =~= kv_line(e1.0, e1.1));
    assert(seq![e1, e2].drop_last() =~= seq![e1]);
    assert(kv_lines(seq![e1, e2]) =~= kv_line(e1.0, e1.1) + kv_line(e2.0, e2.1));
}

/// Appends the lines of a field.
fn push_field(out: &mut String, feature: &FeatureMetadata, fields: &FieldMap)
    ensures
        final(out)@ == old(out)@ + kv_lines(field_entries(feature@, fields@)),
{
    let stored = fields.get_or_empty(feature.id.as_str());
    match &feature.ui_type {
        UiTypeDef::Unit { name: _, options } => {
            let (amount, unit) = split_unit(stored.as_str(), options.as_slice());
            proof {
                lemma_kv_lines_few((feature.id@, amount@), (unit_key(feature.id@), unit@));
            }
            out.append(toml_kv(feature.id.as_str(), amount.as_str()).as_str());
            if !unit.as_str().is_empty() {
                let key = unit_key_text(feature.id.as_str());
                out.append(toml_kv(key.as_str(), unit.as_str()).as_str());
            }
        },
        _ => {
            proof {
                lemma_kv_lines_few((feature.id@, stored@), (feature.id@, stored@));
            }
            out.append(toml_kv(feature.id.as_str(), stored.as_str()).as_str());
        },
    }
    assert(out@ =~= old(out)@ + kv_lines(field_entries(feature@, fields@)));
}

/// The data file for some artifacts.
pub fn export_text(models: &Vec<DynamicModel>, schema: &Schema) -> (out: String)
    ensures
        out@ == document_text(exported_records(schema@, model_views(models@))),
{
    let ghost records = exported_records(schema@, model_views(models@));
    let mut out =
        "# Exported by Archive Manager – re-importable with File > Import\n\n".to_owned();
    let mut m: usize = 0;
    assert(records.take(0) =~= Seq::empty());
    while m < models.len()
        invariant
            m <= models.len(),
            records == exported_records(schema@, model_views(models@)),
            out@ == document_text(records.take(m as int)),
        decreases models.len() - m,
    {
        let model = &models[m];
        let ghost before = out@;
        let ghost record = exported_record(schema@, model@.fields);
        assert(records[m as int] == record);
        out.append("[[records]]\n");
        let ghost start = out@;
        let mut i: usize = 0;
        assert(schema@.take(0) =~= Seq::empty());
        assert(out@ =~= start + kv_lines(exported_record(schema@.take(0), model@.fields)));
        while i < schema.features.len()
            invariant
                i <= schema.features.len(),
                out@ == start + kv_lines(exported_record(schema@.take(i as int), model@.fields)),
            decreases schema.features.len() - i,
        {
            let feature = &schema.features[i];
            let ghost done = exported_record(schema@.take(i as int), model@.fields);
            assert(schema@.take(i + 1).drop_last() =~= schema@.take(i as int));
            assert(schema@.take(i + 1).last() == feature@);
            proof {
                lemma_kv_lines_add(done, field_entries(feature@, model@.fields));
            }
            push_field(&mut out, feature, &model.fields);
            assert(out@ =~= start + kv_lines(
                exported_record(schema@.take(i + 1), model@.fields),
            ));
            i = i + 1;
        }
        assert(schema@.take(i as int) =~= schema@);
        out.append("\n");
        assert(records.take(m + 1).drop_last() =~= records.take(m as int));
        assert(out@ =~= before + record_text(record));
        m = m + 1;
    }
    assert(records.take(m as int) =~= records);
    out
}

/// A text that is not a data file.
#[derive(Debug)]
pub struct InvalidData;

impl InvalidData {
    /// The sentence that tells a user what is wrong with the file at a path.
    pub fn message(&self, path: &str) -> (out: String)
        ensures
            out@ == "Invalid TOML in '"@ + path@ + "'"@,
    {
        let mut out = "Invalid TOML in '".to_owned();
        out.append(path);
        out.append("'");
        out
    }
}

/// The record that a table of texts holds, `None` where it holds anything
/// else.
pub open spec fn record_in(view: TomlView) -> Option<Map<Seq<char>, Seq<char>>> {
    match view {
        TomlView::Table(table) => if forall|k: Seq<char>|
            #[trigger] table.contains_key(k) ==> table[k] is Text {
            Some(table.map_values(|v: TomlView| v->Text_0))
        } else {
            None
        },
        _ => None,
    }
}

/// The records that a document holds under `records`, none where that is left
/// out. `None` where it is no array of tables of texts.
pub open spec fn records_in(document: TomlView) -> Option<Seq<Map<Seq<char>, Seq<char>>>> {
    match document {
        TomlView::Table(table) => if !table.contains_key("records"@) {
            Some(Seq::empty())
        } else {
            match table["records"@] {
                TomlView::Array(items) => if forall|i: int|
                    0 <= i < items.len() ==> record_in(#[trigger] items[i]) is Some {
                    Some(items.map_values(|v: TomlView| record_in(v)->0))
                } else {
                    None
                },
                _ => None,
            }
        },
        _ => None,
    }
}

/// Where no two entries have one key, each entry gives the value of its key.
proof fn lemma_entry_in_table(entries: Seq<(String, toml::Value)>, i: int)
    requires
        0 <= i < entries.len(),
        distinct_entries(entries),
    ensures
        table_of(entries).contains_key(entries[i].0@),
        table_of(entries)[entries[i].0@] == toml_view(entries[i].1),
    decreases entries.len(),
{
    if i < entries.len() - 1 {
        let shorter = entries.drop_last();
        assert(shorter[i] == entries[i]);
        assert(entries.last() == entries[entries.len() - 1]);
        lemma_entry_in_table(shorter, i);
    }
}

/// A key of the table is the key of some entry.
proof fn lemma_table_key(entries: Seq<(String, toml::Value)>, key: Seq<char>)
    requires
        table_of(entries).contains_key(key),
    ensures
        exists|i: int| 0 <= i < entries.len() && (#[trigger] entries[i]).0@ == key,
    decreases entries.len(),
{
    let last = entries.len() - 1;
    if entries.len() > 0 && entries[last].0@ != key {
        let shorter = entries.drop_last();
        lemma_table_key(shorter, key);
        let i = choose|i: int| 0 <= i < shorter.len() && (#[trigger] shorter[i]).0@ == key;
        assert(entries[i] == shorter[i]);
    }
}

/// Reads one record.
fn read_record(value: &toml::Value) -> (result: Option<FieldMap>)
    ensures
        match result {
            Some(fields) => record_in(toml_view(*value)) == Some(fields@),
            None => record_in(toml_view(*value)) is None,
        },
{
    let entries = match open_value(value) {
        TomlNode::Table(entries) => entries,
        _ => {
            return None;
        },
    };
    let mut fields = FieldMap::new();
    let mut i: usize = 0;
    assert(entries@.take(0) =~= Seq::empty());
    assert(record_in(TomlView::Table(table_of(entries@.take(0))))->0 =~= fields@);
    while i < entries.len()
        invariant
            i <= entries.len(),
            distinct_entries(entries@),
            toml_view(*value) == TomlView::Table(table_of(entries@)),
            record_in(TomlView::Table(table_of(entries@.take(i as int)))) == Some(fields@),
        decreases entries.len() - i,
    {
        let ghost upto = entries@.take(i + 1);
        let ghost done = table_of(entries@.take(i as int));
        assert(upto.drop_last() =~= entries@.take(i as int));
        let ghost key = entries@[i as int].0@;
        assert(table_of(upto) == done.insert(key, toml_view(entries@[i as int].1)));
        match open_value(&entries[i].1) {
            TomlNode::Text(text) => {
                fields.insert(entries[i].0.clone(), text);
                assert(table_of(upto).map_values(|v: TomlView| v->Text_0) =~= fields@);
                assert forall|k: Seq<char>| #[trigger]
                    table_of(upto).contains_key(k) implies table_of(upto)[k] is Text by {
                    if k != key {
                        assert(done.contains_key(k));
                    }
                }
            },
            _ => {
                proof {
                    lemma_entry_in_table(entries@, i as int);
                }
                return None;
            },
        }
        i = i + 1;
    }
    assert(entries@.take(i as int) =~= entries@);
    Some(fields)
}

/// Reads the records of a document.
pub fn read_records(document: &toml::Value) -> (result: Result<Vec<FieldMap>, InvalidData>)
    ensures
        match result {
            Ok(records) => records_in(toml_view(*document)) == Some(field_views(records@)),
            Err(_) => records_in(toml_view(*document)) is None,
        },
{
    let entries = match open_value(document) {
        TomlNode::Table(entries) => entries,
        _ => {
            return Err(InvalidData);
        },
    };
    let mut records: Vec<FieldMap> = Vec::new();
    let mut k: usize = 0;
    while k < entries.len() && !same_text(entries[k].0.as_str(), "records")
        invariant
            k <= entries.len(),
            forall|j: int| 0 <= j < k ==> (#[trigger] entries@[j]).0@ != "records"@,
        decreases entries.len() - k,
    {
        k = k + 1;
    }
    if k == entries.len() {
        proof {
            if table_of(entries@).contains_key("records"@) {
                lemma_table_key(entries@, "records"@);
            }
            assert(field_views(records@) =~= Seq::empty());
        }
        return Ok(records);
    }
    proof {
        lemma_entry_in_table(entries@, k as int);
    }
    let items = match open_value(&entries[k].1) {
        TomlNode::Array(items) => items,
        _ => {
            return Err(InvalidData);
        },
    };
    let ghost list = items@.map_values(|v: toml::Value| toml_view(v));
    let mut i: usize = 0;
    while i < items.len()
        invariant
            i <= items.len(),
            list == items@.map_values(|v: toml::Value| toml_view(v)),
            toml_view(*document) == TomlView::Table(table_of(entries@)),
            table_of(entries@).contains_key("records"@),
            table_of(entries@)["records"@] == TomlView::Array(list),
            records@.len() == i,
            forall|j: int|
                0 <= j < i ==> record_in(#[trigger] list[j]) == Some(records@[j]@),
        decreases items.len() - i,
    {
        assert(list[i as int] == toml_view(items@[i as int]));
        match read_record(&items[i]) {
            Some(fields) => records.push(fields),
            None => {
                return Err(InvalidData);
            },
        }
        i = i + 1;
    }
    assert(records_in(toml_view(*document))->0 =~= field_views(records@));
    Ok(records)
}

/// What a record gives for a field: the value under the field's id, followed
/// by the unit under the companion key where the field has a unit. What the
/// record leaves out is empty.
pub open spec fn imported_value(f: FeatureView, record: Map<Seq<char>, Seq<char>>) -> Seq<char> {
    match f.ui_type {
        UiTypeView::Unit { name: _, options: _ } => value_or_empty(record, f.id) + value_or_empty(
            record,
            unit_key(f.id),
        ),
        _ => value_or_empty(record, f.id),
    }
}

/// The field values that a record gives.
pub open spec fn resolved_fields(
    record: Map<Seq<char>, Seq<char>>,
    features: Seq<FeatureView>,
) -> Map<Seq<char>, Seq<char>> {
    map_of(valued(features, |f: FeatureView| imported_value(f, record)))
}

/// The field values that each record gives.
pub open spec fn all_resolved(
    records: Seq<Map<Seq<char>, Seq<char>>>,
    features: Seq<FeatureView>,
) -> Seq<Map<Seq<char>, Seq<char>>> {
    records.map_values(|r: Map<Seq<char>, Seq<char>>| resolved_fields(r, features))
}

/// The values of a schema's fields in each artifact.
pub open spec fn all_fields(models: Seq<ModelView>, features: Seq<FeatureView>) -> Seq<
    Map<Seq<char>, Seq<char>>,
> {
    models.map_values(|m: ModelView| created_fields(m.fields, features))
}

/// Whether an artifact can be written so that it reads back: its record has no
/// key twice, and where a value has no unit, no other field of the record takes
/// the place of its unit.
pub open spec fn exportable(
    features: Seq<FeatureView>,
    fields: Map<Seq<char>, Seq<char>>,
) -> bool {
    let record = exported_record(features, fields);
    &&& distinct_keys(record)
    &&& forall|i: int|
        0 <= i < features.len() && (#[trigger] features[i]).ui_type is Unit && unit_of(
            value_or_empty(fields, features[i].id),
            features[i].ui_type->Unit_options,
        ).len() == 0 ==> value_or_empty(map_of(record), unit_key(features[i].id)).len() == 0
}

/// Whether all artifacts can be written so that they read back.
pub open spec fn all_exportable(features: Seq<FeatureView>, models: Seq<ModelView>) -> bool {
    forall|i: int| 0 <= i < models.len() ==> exportable(features, (#[trigger] models[i]).fields)
}

/// The entries of each field stand in the record.
proof fn lemma_entries_exported(
    features: Seq<FeatureView>,
    fields: Map<Seq<char>, Seq<char>>,
    i: int,
    j: int,
)
    requires
        0 <= i < features.len(),
        0 <= j < field_entries(features[i], fields).len(),
    ensures
        exported_record(features, fields).contains(field_entries(features[i], fields)[j]),
    decreases features.len(),
{
    let earlier = exported_record(features.drop_last(), fields);
    let last = field_entries(features.last(), fields);
    let record = exported_record(features, fields);
    let entry = field_entries(features[i], fields)[j];
    if i == features.len() - 1 {
        assert(record[earlier.len() + j] == entry);
    } else {
        assert(features.drop_last()[i] == features[i]);
        lemma_entries_exported(features.drop_last(), fields, i, j);
        let k = choose|k: int| 0 <= k < earlier.len() && earlier[k] == entry;
        assert(record[k] == entry);
    }
}

/// Every entry of the record is one of some field.
proof fn lemma_exported_entry(
    features: Seq<FeatureView>,
    fields: Map<Seq<char>, Seq<char>>,
    k: int,
) -> (r: (int, int))
    requires
        0 <= k < exported_record(features, fields).len(),
    ensures
        0 <= r.0 < features.len(),
        0 <= r.1 < field_entries(features[r.0], fields).len(),
        exported_record(features, fields)[k] == field_entries(features[r.0], fields)[r.1],
    decreases features.len(),
{
    let earlier = exported_record(features.drop_last(), fields);
    if k < earlier.len() {
        let r = lemma_exported_entry(features.drop_last(), fields, k);
        assert(features.drop_last()[r.0] == features[r.0]);
        r
    } else {
        (features.len() - 1, k - earlier.len())
    }
}

/// An entry of a record without repeated keys gives the value of its key.
proof fn lemma_exported_lookup(
    features: Seq<FeatureView>,
    fields: Map<Seq<char>, Seq<char>>,
    i: int,
    j: int,
)
    requires
        0 <= i < features.len(),
        0 <= j < field_entries(features[i], fields).len(),
        distinct_keys(exported_record(features, fields)),
    ensures
        value_or_empty(
            map_of(exported_record(features, fields)),
            field_entries(features[i], fields)[j].0,
        ) == field_entries(features[i], fields)[j].1,
{
    let record = exported_record(features, fields);
    let entry = field_entries(features[i], fields)[j];
    lemma_entries_exported(features, fields, i, j);
    let k = choose|k: int| 0 <= k < record.len() && record[k] == entry;
    lemma_distinct_pairs(record, k);
}

/// Reading undoes writing: the record of an artifact gives the value of each
/// field of the schema back, with a value and its unit put together again.
pub proof fn law_import_inverts_export(
    features: Seq<FeatureView>,
    fields: Map<Seq<char>, Seq<char>>,
)
    requires
        exportable(features, fields),
    ensures
        resolved_fields(map_of(exported_record(features, fields)), features) == created_fields(
            fields,
            features,
        ),
{
    let record = map_of(exported_record(features, fields));
    let read = valued(features, |f: FeatureView| imported_value(f, record));
    let kept = valued(features, |f: FeatureView| value_or_empty(fields, f.id));
    assert forall|i: int| 0 <= i < features.len() implies imported_value(
        #[trigger] features[i],
        record,
    ) == value_or_empty(fields, features[i].id) by {
        let f = features[i];
        let stored = value_or_empty(fields, f.id);
        lemma_exported_lookup(features, fields, i, 0);
        match f.ui_type {
            UiTypeView::Unit { name: _, options } => {
                law_split_parts(stored, options);
                if unit_of(stored, options).len() > 0 {
                    lemma_exported_lookup(features, fields, i, 1);
                }
                assert(imported_value(f, record) =~= stored);
            },
            _ => {},
        }
    }
    assert(read =~= kept);
}

/// Whether no field is named as the companion key of a field with a unit.
pub open spec fn unit_keys_free(features: Seq<FeatureView>) -> bool {
    forall|i: int, j: int|
        0 <= i < features.len() && 0 <= j < features.len() && (
        #[trigger] features[i]).ui_type is Unit ==> (#[trigger] features[j]).id != unit_key(
            features[i].id,
        )
}

/// Two keys with the same companion key are the same.
proof fn lemma_unit_key_injective(a: Seq<char>, b: Seq<char>)
    requires
        unit_key(a) == unit_key(b),
    ensures
        a == b,
{
    reveal_strlit("_unit");
    assert(unit_key(a).len() == a.len() + 5);
    assert(unit_key(b).len() == b.len() + 5);
    assert(a.len() == b.len());
    assert(unit_key(a).take(a.len() as int) =~= a);
    assert(unit_key(b).take(b.len() as int) =~= b);
}

/// The keys of a record are distinct.
proof fn lemma_record_keys(
    features: Seq<FeatureView>,
    fields: Map<Seq<char>, Seq<char>>,
)
    requires
        ids(features).no_duplicates(),
        unit_keys_free(features),
    ensures
        distinct_keys(exported_record(features, fields)),
    decreases features.len(),
{
    if features.len() > 0 {
        let front = features.drop_last();
        let earlier = exported_record(front, fields);
        let last = field_entries(features.last(), fields);
        let record = exported_record(features, fields);
        assert(ids(front) =~= ids(features).drop_last());
        lemma_record_keys(front, fields);
        assert forall|i: int, j: int| 0 <= i < j < record.len() implies (#[trigger] record[i]).0
            != (#[trigger] record[j]).0 by {
            if j < earlier.len() {
                assert(record[i] == earlier[i]);
                assert(record[j] == earlier[j]);
            } else if i < earlier.len() {
                let r = lemma_exported_entry(front, fields, i);
                let f = features[r.0];
                let g = features[features.len() - 1];
                assert(front[r.0] == f);
                assert(record[i] == field_entries(f, fields)[r.1]);
                assert(record[j] == last[j - earlier.len()]);
                assert(ids(features)[r.0] != ids(features)[features.len() - 1]);
                assert(f.id != g.id);
                if unit_key(f.id) == unit_key(g.id) {
                    lemma_unit_key_injective(f.id, g.id);
                }
            } else {
                assert(record[i] == last[i - earlier.len()]);
                assert(record[j] == last[j - earlier.len()]);
                reveal_strlit("_unit");
                assert(unit_key(features.last().id).len() != features.last().id.len());
            }
        }
    }
}

/// Any artifact of a schema without repeated ids can be written so that it
/// reads back, whatever its values hold. The schema must not use the companion
/// key of a field with a unit for another field.
pub proof fn law_exportable(features: Seq<FeatureView>, fields: Map<Seq<char>, Seq<char>>)
    requires
        ids(features).no_duplicates(),
        unit_keys_free(features),
    ensures
        exportable(features, fields),
{
    let record = exported_record(features, fields);
    lemma_record_keys(features, fields);
    assert forall|i: int|
        0 <= i < features.len() && (#[trigger] features[i]).ui_type is Unit && unit_of(
            value_or_empty(fields, features[i].id),
            features[i].ui_type->Unit_options,
        ).len() == 0 implies value_or_empty(map_of(record), unit_key(features[i].id)).len()
        == 0 by {
        let key = unit_key(features[i].id);
        if map_of(record).contains_key(key) {
            lemma_key_has_pair(record, key);
            let k = choose|k: int|
                0 <= k < record.len() && (#[trigger] record[k]).0 == key && record[k].1 == map_of(
                    record,
                )[key];
            let r = lemma_exported_entry(features, fields, k);
            let f = features[r.0];
            assert(f.id != key);
            assert(unit_key(f.id) == key);
            lemma_unit_key_injective(f.id, features[i].id);
            assert(ids(features)[r.0] == ids(features)[i]);
        }
    }
}

/// The fields of an artifact with a value for each field of the schema and no
/// others are kept as they are.
proof fn lemma_created_again(features: Seq<FeatureView>, value: spec_fn(FeatureView) -> Seq<char>)
    ensures
        created_fields(map_of(valued(features, value)), features) == map_of(
            valued(features, value),
        ),
{
    let pairs = valued(features, value);
    let map = map_of(pairs);
    let again = valued(features, |f: FeatureView| value_or_empty(map, f.id));
    assert forall|key: Seq<char>| #[trigger] map_of(again).contains_key(key) implies map.contains_key(
        key,
    ) && map_of(again)[key] == map[key] by {
        lemma_key_has_pair(again, key);
        let i = choose|i: int|
            0 <= i < again.len() && (#[trigger] again[i]).0 == key && again[i].1 == map_of(
                again,
            )[key];
        lemma_pair_has_key(pairs, i);
        assert(pairs[i].0 == key);
    }
    assert forall|key: Seq<char>| #[trigger] map.contains_key(key) implies map_of(
        again,
    ).contains_key(key) by {
        lemma_key_has_pair(pairs, key);
        let i = choose|i: int|
            0 <= i < pairs.len() && (#[trigger] pairs[i]).0 == key && pairs[i].1 == map[key];
        lemma_pair_has_key(again, i);
        assert(again[i].0 == key);
    }
    assert(map_of(again) =~= map);
}

/// Importing a record, exporting the artifact and importing it again gives
/// the same field values.
pub proof fn law_import_export_import(
    features: Seq<FeatureView>,
    record: Map<Seq<char>, Seq<char>>,
)
    requires
        exportable(features, resolved_fields(record, features)),
    ensures
        resolved_fields(
            map_of(exported_record(features, resolved_fields(record, features))),
            features,
        ) == resolved_fields(record, features),
{
    law_import_inverts_export(features, resolved_fields(record, features));
    lemma_created_again(features, |f: FeatureView| imported_value(f, record));
}

/// What a record holds under keys that belong to no field of the schema is
/// ignored.
pub proof fn law_extra_keys_ignored(
    features: Seq<FeatureView>,
    record: Map<Seq<char>, Seq<char>>,
    key: Seq<char>,
    value: Seq<char>,
)
    requires
        forall|i: int|
            0 <= i < features.len() ==> (#[trigger] features[i]).id != key && (
            features[i].ui_type is Unit ==> unit_key(features[i].id) != key),
    ensures
        resolved_fields(record.insert(key, value), features) == resolved_fields(record, features),
{
    let more = record.insert(key, value);
    assert(valued(features, |f: FeatureView| imported_value(f, more)) =~= valued(
        features,
        |f: FeatureView| imported_value(f, record),
    ));
}

/// A record gives a value for every field of the schema and for nothing else;
/// of what it leaves out, the value is empty.
pub proof fn law_missing_fields_empty(
    features: Seq<FeatureView>,
    record: Map<Seq<char>, Seq<char>>,
)
    requires
        ids(features).no_duplicates(),
    ensures
        resolved_fields(record, features).dom() == ids(features).to_set(),
        forall|i: int|
            0 <= i < features.len() ==> resolved_fields(record, features)[(
            #[trigger] features[i]).id] == imported_value(features[i], record),
        forall|i: int|
            0 <= i < features.len() && !record.contains_key((#[trigger] features[i]).id)
                && !record.contains_key(unit_key(features[i].id)) ==> resolved_fields(
                record,
                features,
            )[features[i].id].len() == 0,
{
    lemma_valued_fields(features, |f: FeatureView| imported_value(f, record));
}

/// The field values that a record gives.
pub fn resolve_record(record: &FieldMap, schema: &Schema) -> (fields: FieldMap)
    ensures
        fields@ == resolved_fields(record@, schema@),
        forall|i: int|
            0 <= i < schema@.len() && (forall|j: int|
                i < j < schema@.len() ==> (#[trigger] schema@[j]).id != schema@[i].id)
                ==> fields@.contains_key((#[trigger] schema@[i]).id) && fields@[schema@[i].id]
                == value_or_empty(record@, schema@[i].id) + if schema@[i].ui_type is Unit {
                value_or_empty(record@, schema@[i].id + "_unit"@)
            } else {
                Seq::empty()
            },
{
    let ghost value = |f: FeatureView| imported_value(f, record@);
    let ghost pairs = valued(schema@, value);
    let mut fields = FieldMap::new();
    let mut i: usize = 0;
    while i < schema.features.len()
        invariant
            i <= schema.features.len(),
            value == (|f: FeatureView| imported_value(f, record@)),
            pairs == valued(schema@, value),
            fields@ == map_of(pairs.take(i as int)),
        decreases schema.features.len() - i,
    {
        let feature = &schema.features[i];
        assert(schema@[i as int] == feature@);
        assert(pairs.take(i + 1).drop_last() =~= pairs.take(i as int));
        let mut text = record.get_or_empty(feature.id.as_str());
        if let UiTypeDef::Unit { name: _, options: _ } = &feature.ui_type {
            let key = unit_key_text(feature.id.as_str());
            text.append(record.get_or_empty(key.as_str()).as_str());
        }
        assert(text@ == value(feature@));
        fields.insert(feature.id.clone(), text);
        i = i + 1;
    }
    assert(pairs.take(i as int) =~= pairs);
    proof {
        assert forall|i: int|
            0 <= i < schema@.len() && (forall|j: int|
                i < j < schema@.len() ==> (#[trigger] schema@[j]).id != schema@[i].id)
            implies fields@.contains_key((#[trigger] schema@[i]).id) && fields@[schema@[i].id]
            == value_or_empty(record@, schema@[i].id) + if schema@[i].ui_type is Unit {
            value_or_empty(record@, schema@[i].id + "_unit"@)
        } else {
            Seq::empty()
        } by {
            lemma_valued_last(schema@, value, i);
            assert(value_or_empty(record@, schema@[i].id) + Seq::empty() =~= value_or_empty(
                record@,
                schema@[i].id,
            ));
        }
    }
    fields
}

/// The records among some lists of records, none where they are left out.
pub open spec fn listed_in(lists: Map<Seq<char>, Seq<Map<Seq<char>, Seq<char>>>>) -> Seq<
    Map<Seq<char>, Seq<char>>,
> {
    if lists.contains_key("records"@) {
        lists["records"@]
    } else {
        Seq::empty()
    }
}

/// The fields that a list of entries makes up.
fn fields_of(entries: &Vec<(String, String)>) -> (fields: FieldMap)
    ensures
        fields@ == entry_map(entries@),
{
    let ghost pairs = entries@.map_values(|e: (String, String)| (e.0@, e.1@));
    let mut fields = FieldMap::new();
    let mut i: usize = 0;
    assert(pairs.take(0) =~= Seq::empty());
    while i < entries.len()
        invariant
            i <= entries.len(),
            pairs == entries@.map_values(|e: (String, String)| (e.0@, e.1@)),
            fields@ == map_of(pairs.take(i as int)),
        decreases entries.len() - i,
    {
        assert(pairs.take(i + 1).drop_last() =~= pairs.take(i as int));
        fields.insert(entries[i].0.clone(), entries[i].1.clone());
        i = i + 1;
    }
    assert(pairs.take(i as int) =~= pairs);
    fields
}

/// The records among some lists of records: of two lists with one key, the
/// later holds.
pub fn listed_records(lists: &Vec<(String, Vec<Vec<(String, String)>>)>) -> (records: Vec<FieldMap>)
    ensures
        field_views(records@) == listed_in(lists_of(lists@)),
{
    let mut records: Vec<FieldMap> = Vec::new();
    let mut k: usize = 0;
    assert(lists@.take(0) =~= Seq::empty());
    assert(field_views(records@) =~= Seq::empty());
    while k < lists.len()
        invariant
            k <= lists.len(),
            field_views(records@) == listed_in(lists_of(lists@.take(k as int))),
        decreases lists.len() - k,
    {
        assert(lists@.take(k + 1).drop_last() =~= lists@.take(k as int));
        if same_text(lists[k].0.as_str(), "records") {
            let list = &lists[k].1;
            let mut found: Vec<FieldMap> = Vec::new();
            let mut i: usize = 0;
            while i < list.len()
                invariant
                    i <= list.len(),
                    found@.len() == i,
                    forall|j: int| 0 <= j < i ==> (#[trigger] found@[j])@ == entry_map(list@[j]@),
                decreases list.len() - i,
            {
                found.push(fields_of(&list[i]));
                i = i + 1;
            }
            assert(field_views(found@) =~= entry_maps(list@));
            records = found;
        }
        k = k + 1;
    }
    assert(lists@.take(k as int) =~= lists@);
    records
}

/// Reads the document that a text holds. A line that [`toml_kv`] wrote reads as
/// its key and its value.
pub fn read_document(raw: &str) -> (result: Result<toml::Value, InvalidData>)
    ensures
        match result {
            Ok(document) => toml_document(raw@) == Some(toml_view(document)),
            Err(_) => toml_document(raw@) is None,
        },
        forall|key: Seq<char>, value: Seq<char>|
            raw@ == #[trigger] kv_line(key, value) && key != moment_key() ==> result is Ok
                && toml_view(result->Ok_0) == line_view(key, value),
{
    match parse_toml(raw) {
        Ok(document) => Ok(document),
        Err(_) => Err(InvalidData),
    }
}

/// The records that a text holds, `None` where it is no data file. A document
/// that holds only lists of records is read as such. Of any other, its keys
/// tell whether it has records, and its values what they are.
pub open spec fn records_of(raw: Seq<char>) -> Option<Seq<Map<Seq<char>, Seq<char>>>> {
    match toml_lists(raw) {
        Some(lists) => Some(listed_in(lists)),
        None => match toml_keys(raw) {
            Some(keys) => if !keys.contains("records"@) {
                Some(Seq::empty())
            } else {
                match toml_document(raw) {
                    Some(document) => records_in(document),
                    None => None,
                }
            },
            None => None,
        },
    }
}

/// Reads the records that a text holds.
fn records_in_text(raw: &str) -> (result: Result<Vec<FieldMap>, InvalidData>)
    ensures
        match result {
            Ok(records) => records_of(raw@) == Some(field_views(records@)),
            Err(_) => records_of(raw@) is None,
        },
        forall|records: Seq<Seq<(Seq<char>, Seq<char>)>>|
            raw@ == #[trigger] document_text(records) && all_distinct(records) ==> records_of(raw@)
                == Some(listed_in(document_lists(records))),
{
    if let Ok(lists) = parse_lists(raw) {
        return Ok(listed_records(&lists));
    }
    let keys = match parse_keys(raw) {
        Ok(keys) => keys,
        Err(_) => {
            return Err(InvalidData);
        },
    };
    let mut i: usize = 0;
    while i < keys.len() && !same_text(keys[i].as_str(), "records")
        invariant
            i <= keys.len(),
            forall|j: int| 0 <= j < i ==> #[trigger] views(keys@)[j] != "records"@,
        decreases keys.len() - i,
    {
        i = i + 1;
    }
    if i == keys.len() {
        let records: Vec<FieldMap> = Vec::new();
        assert(!views(keys@).to_set().contains("records"@));
        assert(field_views(records@) =~= Seq::empty());
        return Ok(records);
    }
    assert(views(keys@)[i as int] == "records"@);
    assert(views(keys@).to_set().contains("records"@));
    match read_document(raw) {
        Ok(document) => read_records(&document),
        Err(e) => Err(e),
    }
}

/// The field values that the records of a data file give.
///
/// A text that [`export_text`] wrote gives the values of the schema's fields
/// in each artifact back.
///
/// A text with something besides lists of records is read as a `toml::Value`.
/// That takes a table that begins with the key `$__toml_private_datetime` for a
/// date or a time, so that such a text is refused if it has such a table, or a
/// date or a time among its records.
pub fn import_records(raw: &str, schema: &Schema) -> (result: Result<Vec<FieldMap>, InvalidData>)
    ensures
        match result {
            Ok(list) => {
                &&& records_of(raw@) is Some
                &&& field_views(list@) == all_resolved(records_of(raw@)->0, schema@)
            },
            Err(_) => records_of(raw@) is None,
        },
        forall|models: Seq<ModelView>|
            raw@ == document_text(#[trigger] exported_records(schema@, models)) && all_exportable(
                schema@,
                models,
            ) ==> result is Ok && field_views(result->Ok_0@) == all_fields(models, schema@),
{
    let read = records_in_text(raw);
    proof {
        assert forall|models: Seq<ModelView>|
            raw@ == document_text(#[trigger] exported_records(schema@, models)) && all_exportable(
                schema@,
                models,
            ) implies records_of(raw@) is Some && all_resolved(records_of(raw@)->0, schema@)
            == all_fields(models, schema@) by {
            let records = exported_records(schema@, models);
            assert forall|i: int| 0 <= i < records.len() implies distinct_keys(
                #[trigger] records[i],
            ) by {
                assert(exportable(schema@, models[i].fields));
            }
            assert(all_distinct(records));
            let maps = listed_in(document_lists(records));
            assert(records_of(raw@) == Some(maps));
            assert(maps =~= record_maps(records));
            assert forall|i: int| 0 <= i < models.len() implies #[trigger] all_resolved(
                maps,
                schema@,
            )[i] == all_fields(models, schema@)[i] by {
                assert(exportable(schema@, models[i].fields));
                law_import_inverts_export(schema@, models[i].fields);
                assert(maps[i] == map_of(records[i]));
            }
            assert(all_resolved(maps, schema@) =~= all_fields(models, schema@));
        }
    }
    let records = match read {
        Ok(records) => records,
        Err(e) => {
            return Err(e);
        },
    };
    let mut list: Vec<FieldMap> = Vec::new();
    let mut i: usize = 0;
    while i < records.len()
        invariant
            i <= records.len(),
            list@.len() == i,
            forall|j: int|
                0 <= j < i ==> (#[trigger] list@[j])@ == resolved_fields(records@[j]@, schema@),
        decreases records.len() - i,
    {
        list.push(resolve_record(&records[i], schema));
        i = i + 1;
    }
    assert(field_views(list@) =~= all_resolved(field_views(records@), schema@));
    Ok(list)
}

/// What a record gives for a field is the text under the field's id, whole and
/// first. A field with a unit then takes the text under the companion key. Where
/// that is left out, nothing is added or taken away. What the record leaves out
/// is empty. Of two fields with one id the later holds.
pub proof fn law_import_keeps_texts(
    features: Seq<FeatureView>,
    record: Map<Seq<char>, Seq<char>>,
    i: int,
)
    requires
        0 <= i < features.len(),
        forall|j: int| i < j < features.len() ==> (#[trigger] features[j]).id != features[i].id,
    ensures
        ({
            let id = features[i].id;
            let companion = id + "_unit"@;
            let fields = resolved_fields(record, features);
            &&& fields.contains_key(id)
            &&& record.contains_key(id) ==> record[id].is_prefix_of(fields[id])
            &&& if features[i].ui_type is Unit && record.contains_key(companion) {
                if record.contains_key(id) {
                    fields[id] == record[id] + record[companion]
                } else {
                    fields[id] == record[companion]
                }
            } else {
                if record.contains_key(id) {
                    fields[id] == record[id]
                } else {
                    fields[id].len() == 0
                }
            }
        }),
{
    lemma_valued_last(features, |f: FeatureView| imported_value(f, record), i);
    let id = features[i].id;
    let fields = resolved_fields(record, features);
    let under_id = value_or_empty(record, id);
    let under_key = value_or_empty(record, unit_key(id));
    assert(under_id + Seq::empty() =~= under_id);
    assert(Seq::empty() + under_key =~= under_key);
    if record.contains_key(id) {
        assert(record[id] =~= fields[id].subrange(0, record[id].len() as int));
    }
}

/// A record gives values for the fields of the schema and for nothing else.
pub proof fn law_import_gives_only_fields(
    features: Seq<FeatureView>,
    record: Map<Seq<char>, Seq<char>>,
)
    ensures
        forall|key: Seq<char>| #[trigger]
            resolved_fields(record, features).contains_key(key) <==> exists|i: int|
                0 <= i < features.len() && (#[trigger] features[i]).id == key,
{
    let value = |f: FeatureView| imported_value(f, record);
    let pairs = valued(features, value);
    assert forall|key: Seq<char>| #[trigger]
        resolved_fields(record, features).contains_key(key) <==> exists|i: int|
            0 <= i < features.len() && (#[trigger] features[i]).id == key by {
        if map_of(pairs).contains_key(key) {
            lemma_key_has_pair(pairs, key);
            let i = choose|i: int|
                0 <= i < pairs.len() && (#[trigger] pairs[i]).0 == key && pairs[i].1 == map_of(
                    pairs,
                )[key];
            assert(features[i].id == key);
        }
        if exists|i: int| 0 <= i < features.len() && (#[trigger] features[i]).id == key {
            let i = choose|i: int| 0 <= i < features.len() && (#[trigger] features[i]).id == key;
            lemma_pair_has_key(pairs, i);
            assert(pairs[i].0 == key);
        }
    }
}

/// A field adds its entries after those of the fields before it. A value is
/// written under the field's id. One with a unit is split into its amount and
/// the longest of the options that it ends with, which stands under the
/// companion key, and is left out where the value ends with none of them.
pub proof fn law_export_adds_entries(
    features: Seq<FeatureView>,
    f: FeatureView,
    fields: Map<Seq<char>, Seq<char>>,
) -> (parts: (Seq<char>, Seq<char>))
    ensures
        exported_record(Seq::empty(), fields).len() == 0,
        ({
            let stored = if fields.contains_key(f.id) {
                fields[f.id]
            } else {
                Seq::empty()
            };
            let before = exported_record(features, fields);
            let after = exported_record(features.push(f), fields);
            match f.ui_type {
                UiTypeView::Unit { name: _, options } => {
                    &&& parts.0 + parts.1 == stored
                    &&& parts.1.len() == 0 || options.contains(parts.1)
                    &&& forall|k: int|
                        0 <= k < options.len() && (#[trigger] options[k]).is_suffix_of(stored)
                            ==> options[k].len() <= parts.1.len()
                    &&& parts.1.len() == 0 ==> after == before.push((f.id, parts.0))
                    &&& parts.1.len() > 0 ==> after == before.push((f.id, parts.0)).push(
                        (f.id + "_unit"@, parts.1),
                    )
                },
                _ => after == before.push((f.id, stored)),
            }
        }),
{
    let all = features.push(f);
    assert(all.drop_last() =~= features);
    let stored = value_or_empty(fields, f.id);
    let before = exported_record(features, fields);
    let after = exported_record(all, fields);
    match f.ui_type {
        UiTypeView::Unit { name: _, options } => {
            law_split_parts(stored, options);
            let amount = amount_of(stored, options);
            let unit = unit_of(stored, options);
            assert forall|k: int|
                0 <= k < options.len() && (#[trigger] options[k]).is_suffix_of(
                    stored,
                ) implies options[k].len() <= unit.len() by {
                let tail = options[k];
                assert(stored.skip(stored.len() - tail.len()) =~= tail);
                assert(is_suffix(tail, stored));
            }
            if unit.len() == 0 {
                assert(after =~= before.push((f.id, amount)));
            } else {
                assert(after =~= before.push((f.id, amount)).push((unit_key(f.id), unit)));
            }
            (amount, unit)
        },
        _ => {
            assert(after =~= before.push((f.id, stored)));
            (stored, Seq::empty())
        },
    }
}

/// Each artifact is written as one record, in order.
pub proof fn law_exported_records(features: Seq<FeatureView>, models: Seq<ModelView>)
    ensures
        exported_records(features, models).len() == models.len(),
        forall|i: int|
            0 <= i < models.len() ==> #[trigger] exported_records(features, models)[i]
                == exported_record(features, models[i].fields),
{
}

/// What was written is read back, value by value, whatever the values hold. No
/// two fields may have one id, and no field the companion key of another.
pub proof fn law_round_trip_keeps_values(
    features: Seq<FeatureView>,
    fields: Map<Seq<char>, Seq<char>>,
    i: int,
)
    requires
        0 <= i < features.len(),
        forall|j: int, k: int|
            0 <= j < k < features.len() ==> (#[trigger] features[j]).id != (
            #[trigger] features[k]).id,
        forall|j: int, k: int|
            0 <= j < features.len() && 0 <= k < features.len() && (
            #[trigger] features[j]).ui_type is Unit ==> (#[trigger] features[k]).id
                != features[j].id + "_unit"@,
    ensures
        ({
            let id = features[i].id;
            let read = resolved_fields(map_of(exported_record(features, fields)), features);
            &&& read.contains_key(id)
            &&& fields.contains_key(id) ==> read[id] == fields[id]
            &&& !fields.contains_key(id) ==> read[id].len() == 0
        }),
{
    assert forall|j: int, k: int| 0 <= j < ids(features).len() && 0 <= k < ids(features).len() && j
        != k implies #[trigger] ids(features)[j] != #[trigger] ids(features)[k] by {
        assert(ids(features)[j] == features[j].id);
        assert(ids(features)[k] == features[k].id);
    }
    law_exportable(features, fields);
    law_import_inverts_export(features, fields);
    lemma_valued_last(features, |f: FeatureView| value_or_empty(fields, f.id), i);
}

/// A table is a record if and only if everything in it is a text. Then the
/// record holds these texts.
pub proof fn law_record_in(table: Map<Seq<char>, TomlView>)
    ensures
        record_in(TomlView::Table(table)) is Some <==> forall|key: Seq<char>| #[trigger]
            table.contains_key(key) ==> table[key] is Text,
        record_in(TomlView::Table(table)) is Some ==> {
            let record = record_in(TomlView::Table(table))->0;
            forall|key: Seq<char>|
                {
                    &&& #[trigger] record.contains_key(key) <==> table.contains_key(key)
                    &&& record.contains_key(key) ==> table[key] == TomlView::Text(record[key])
                }
        },
        record_in(TomlView::Other) is None,
        forall|text: Seq<char>| #[trigger] record_in(TomlView::Text(text)) is None,
        forall|items: Seq<TomlView>| #[trigger] record_in(TomlView::Array(items)) is None,
{
}

/// A document has the records of the array under `records`, in order, if each
/// of its elements is one. It has none where the key is left out, and is
/// refused where anything else stands there.
pub proof fn law_records_in(table: Map<Seq<char>, TomlView>)
    ensures
        ({
            let result = records_in(TomlView::Table(table));
            if table.contains_key("records"@) {
                match table["records"@] {
                    TomlView::Array(items) => {
                        &&& result is Some <==> forall|i: int|
                            0 <= i < items.len() ==> record_in(#[trigger] items[i]) is Some
                        &&& result is Some ==> result->0.len() == items.len() && forall|i: int|
                            0 <= i < items.len() ==> record_in(#[trigger] items[i]) == Some(
                                result->0[i],
                            )
                    },
                    _ => result is None,
                }
            } else {
                result == Some(Seq::<Map<Seq<char>, Seq<char>>>::empty())
            }
        }),
        records_in(TomlView::Other) is None,
        forall|text: Seq<char>| #[trigger] records_in(TomlView::Text(text)) is None,
        forall|items: Seq<TomlView>| #[trigger] records_in(TomlView::Array(items)) is None,
{
}

/// The records among some lists are those under `records`.
pub proof fn law_listed_in(lists: Map<Seq<char>, Seq<Map<Seq<char>, Seq<char>>>>)
    ensures
        lists.contains_key("records"@) ==> listed_in(lists) == lists["records"@],
        !lists.contains_key("records"@) ==> listed_in(lists).len() == 0,
{
}

/// A text that holds only lists has the records of the list under `records`.
/// Any other has the records of its document, none where the key is left out.
/// One that is no document is refused.
pub proof fn law_records_of(raw: Seq<char>)
    ensures
        toml_lists(raw) is Some ==> {
            let lists = toml_lists(raw)->0;
            records_of(raw) == Some(
                if lists.contains_key("records"@) {
                    lists["records"@]
                } else {
                    Seq::empty()
                },
            )
        },
        toml_lists(raw) is None && toml_keys(raw) is None ==> records_of(raw) is None,
        toml_lists(raw) is None && toml_keys(raw) is Some && !toml_keys(raw)->0.contains(
            "records"@,
        ) ==> records_of(raw) == Some(Seq::<Map<Seq<char>, Seq<char>>>::empty()),
        toml_lists(raw) is None && toml_keys(raw) is Some && toml_keys(raw)->0.contains(
            "records"@,
        ) ==> if toml_document(raw) is Some {
            records_of(raw) == records_in(toml_document(raw)->0)
        } else {
            records_of(raw) is None
        },
{
}

/// Each record gives one artifact, in order.
pub proof fn law_all_resolved(
    records: Seq<Map<Seq<char>, Seq<char>>>,
    features: Seq<FeatureView>,
)
    ensures
        all_resolved(records, features).len() == records.len(),
        forall|i: int|
            0 <= i < records.len() ==> #[trigger] all_resolved(records, features)[i]
                == resolved_fields(records[i], features),
{
}

/// The values of an artifact's fields are its own, and empty where it has none.
pub proof fn law_all_fields(models: Seq<ModelView>, features: Seq<FeatureView>, m: int, i: int)
    requires
        0 <= m < models.len(),
        0 <= i < features.len(),
    ensures
        ({
            let id = features[i].id;
            let all = all_fields(models, features);
            &&& all.len() == models.len()
            &&& all[m].contains_key(id)
            &&& models[m].fields.contains_key(id) ==> all[m][id] == models[m].fields[id]
            &&& !models[m].fields.contains_key(id) ==> all[m][id].len() == 0
        }),
{
    law_created_keeps_values(0, models[m].fields, features);
    assert(features[i].id == features[i].id);
}

/// The fields of some maps are those of each of them, in order.
pub proof fn law_field_views(list: Seq<FieldMap>)
    ensures
        field_views(list).len() == list.len(),
        forall|i: int| 0 <= i < list.len() ==> #[trigger] field_views(list)[i] == list[i]@,
{
}

/// All artifacts of a schema can be written so that they read back, whatever
/// their values hold. No two fields may have one id, and no field the companion
/// key of another.
pub proof fn law_all_exportable(features: Seq<FeatureView>, models: Seq<ModelView>)
    requires
        forall|j: int, k: int|
            0 <= j < k < features.len() ==> (#[trigger] features[j]).id != (
            #[trigger] features[k]).id,
        forall|j: int, k: int|
            0 <= j < features.len() && 0 <= k < features.len() && (
            #[trigger] features[j]).ui_type is Unit ==> (#[trigger] features[k]).id
                != features[j].id + "_unit"@,
    ensures
        all_exportable(features, models),
{
    assert forall|j: int, k: int| 0 <= j < ids(features).len() && 0 <= k < ids(features).len() && j
        != k implies #[trigger] ids(features)[j] != #[trigger] ids(features)[k] by {
        assert(ids(features)[j] == features[j].id);
        assert(ids(features)[k] == features[k].id);
    }
    assert forall|i: int| 0 <= i < models.len() implies exportable(
        features,
        (#[trigger] models[i]).fields,
    ) by {
        law_exportable(features, models[i].fields);
    }
}

} // verus!
