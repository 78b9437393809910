//! The texts that show an artifact in the list and in the detail window.

use vstd::prelude::*;
use vstd::string::*;

use crate::fields::value_or_empty;
use crate::model::{DynamicModel, ModelView};
use crate::schema::{
    is_title, law_title_is_first_marked, title_id, FeatureMetadata, FeatureView, Schema, UiTypeDef,
    UiTypeView,
};
use crate::text::{same_text, views};

verus! {

/// A value as it is shown: a dash where it is empty.
pub open spec fn shown(value: Seq<char>) -> Seq<char> {
    if value.len() == 0 {
        "—"@
    } else {
        value
    }
}

/// A value as it is shown: a dash where it is empty.
pub fn shown_value(value: &str) -> (out: String)
    ensures
        out@ == shown(value@),
{
    if value.is_empty() {
        "—".to_owned()
    } else {
        value.to_owned()
    }
}

/// The title of an artifact.
pub open spec fn title_of(features: Seq<FeatureView>, model: ModelView) -> Seq<char> {
    value_or_empty(model.fields, title_id(features))
}

/// The number of fields below the title in the list.
pub const ROW_FIELDS: usize = 2;

/// The line for a field in the list, none where the field has no value.
pub open spec fn field_line(f: FeatureView, model: ModelView) -> Option<Seq<char>> {
    let value = value_or_empty(model.fields, f.id);
    if value.len() == 0 || value == "—"@ {
        None
    } else {
        Some(f.label + ": "@ + value)
    }
}

/// The first few elements.
pub open spec fn front<T>(list: Seq<T>, n: int) -> Seq<T> {
    if list.len() <= n {
        list
    } else {
        list.take(n)
    }
}

/// The fields below the title in the list: the first ones that are not the
/// title.
pub open spec fn row_fields(features: Seq<FeatureView>) -> Seq<FeatureView> {
    front(features.filter(|f: FeatureView| !is_title(f)), ROW_FIELDS as int)
}

/// The lines below the title in the list.
pub open spec fn field_lines(features: Seq<FeatureView>, model: ModelView) -> Seq<Seq<char>> {
    row_fields(features).filter_map(|f: FeatureView| field_line(f, model))
}

/// How an artifact is shown in the list.
pub struct RowText {
    pub heading: String,
    pub title: String,
    pub lines: Vec<String>,
}

/// The line for a field in the list, none where the field has no value.
fn field_line_text(feature: &FeatureMetadata, model: &DynamicModel) -> (line: Option<String>)
    ensures
        match line {
            Some(text) => field_line(feature@, model@) == Some(text@),
            None => field_line(feature@, model@) is None,
        },
{
    let value = model.get_field(feature.id.as_str());
    if value.as_str().is_empty() || same_text(value.as_str(), "—") {
        return None;
    }
    let mut text = feature.label.clone();
    text.append(": ");
    text.append(value.as_str());
    Some(text)
}

/// How an artifact is shown in the list: its id, its title, and the values of
/// its first fields.
pub fn row_text(model: &DynamicModel, schema: &Schema) -> (text: RowText)
    ensures
        text.heading@ == "#"@ + model@.id,
        text.title@ == (if title_of(schema@, model@).len() == 0 {
            "Untitled"@
        } else {
            title_of(schema@, model@)
        }),
        views(text.lines@) == field_lines(schema@, model@),
{
    let mut heading = "#".to_owned();
    heading.append(model.id.as_str());

    let stored = model.get_field(schema.get_title_field_id().as_str());
    let title = if stored.as_str().is_empty() {
        "Untitled".to_owned()
    } else {
        stored
    };

    let ghost other = |f: FeatureView| !is_title(f);
    let ghost line = |f: FeatureView| field_line(f, model@);
    let mut lines: Vec<String> = Vec::new();
    let mut taken: usize = 0;
    let mut i: usize = 0;
    assert(schema@.take(0) =~= Seq::empty());
    assert(schema@.take(0).filter(other) =~= Seq::empty());
    assert(row_fields(schema@.take(0)) =~= Seq::empty());
    assert(views(lines@) =~= field_lines(schema@.take(0), model@));
    while i < schema.features.len()
        invariant
            i <= schema.features.len(),
            other == (|f: FeatureView| !is_title(f)),
            line == (|f: FeatureView| field_line(f, model@)),
            taken == row_fields(schema@.take(i as int)).len(),
            taken <= ROW_FIELDS,
            views(lines@) == field_lines(schema@.take(i as int), model@),
        decreases schema.features.len() - i,
    {
        let feature = &schema.features[i];
        let ghost before = schema@.take(i as int).filter(other);
        let ghost after = schema@.take(i + 1).filter(other);
        assert(schema@[i as int] == feature@);
        assert(schema@.take(i + 1) =~= schema@.take(i as int).push(feature@));
        proof {
            schema@.take(i as int).lemma_filter_push(feature@, other);
        }
        let marked = match feature.system_title {
            Some(flag) => flag,
            None => false,
        };
        if !marked && taken < ROW_FIELDS {
            let ghost seen = views(lines@);
            assert(after == before.push(feature@));
            assert(row_fields(schema@.take(i + 1)) =~= after);
            proof {
                after.lemma_filter_map_take_succ(line, before.len() as int);
                assert(after.take(before.len() as int) =~= before);
                assert(after.take(before.len() as int + 1) =~= after);
            }
            if let Some(text) = field_line_text(feature, model) {
                lines.push(text);
                assert(views(lines@) =~= seen.push(text@));
            }
            assert(views(lines@) =~= field_lines(schema@.take(i + 1), model@));
            taken = taken + 1;
        } else {
            assert(row_fields(schema@.take(i + 1)) =~= row_fields(schema@.take(i as int)));
        }
        i = i + 1;
    }
    assert(schema@.take(i as int) =~= schema@);
    RowText { heading, title, lines }
}

/// The title of the detail window of an artifact.
pub fn detail_title(model: &DynamicModel, schema: &Schema) -> (title: String)
    ensures
        title@ == "Graph Item #"@ + model@.id + " — "@ + title_of(schema@, model@),
{
    let mut title = "Graph Item #".to_owned();
    title.append(model.id.as_str());
    title.append(" — ");
    title.append(model.get_field(schema.get_title_field_id().as_str()).as_str());
    title
}

/// The options to choose from when a field is edited, each with its label: the
/// blank one first, unless a field without units is required.
pub open spec fn choices(f: FeatureView) -> Seq<(Seq<char>, Seq<char>)> {
    let blank = seq![(Seq::<char>::empty(), "—"@)];
    match f.ui_type {
        UiTypeView::Text => Seq::empty(),
        UiTypeView::Dropdown { options } => (if f.required {
            Seq::empty()
        } else {
            blank
        }) + labelled(options),
        UiTypeView::Unit { name: _, options } => blank + labelled(options),
    }
}

/// Options that are their own labels.
pub open spec fn labelled(options: Seq<Seq<char>>) -> Seq<(Seq<char>, Seq<char>)> {
    options.map_values(|o: Seq<char>| (o, o))
}

/// Values and labels of a list of options.
pub open spec fn choice_views(list: Seq<(String, String)>) -> Seq<(Seq<char>, Seq<char>)> {
    list.map_values(|c: (String, String)| (c.0@, c.1@))
}

/// Appends options that are their own labels.
fn push_options(list: &mut Vec<(String, String)>, options: &Vec<String>)
    ensures
        choice_views(final(list)@) == choice_views(old(list)@) + labelled(views(options@)),
{
    let ghost base = choice_views(list@);
    let mut i: usize = 0;
    assert(choice_views(list@) =~= base + labelled(views(options@).take(0)));
    while i < options.len()
        invariant
            i <= options.len(),
            choice_views(list@) == base + labelled(views(options@).take(i as int)),
        decreases options.len() - i,
    {
        let ghost before = list@;
        list.push((options[i].clone(), options[i].clone()));
        assert(choice_views(list@) =~= choice_views(before).push(
            (options@[i as int]@, options@[i as int]@),
        ));
        assert(labelled(views(options@).take(i + 1)) =~= labelled(
            views(options@).take(i as int),
        ).push((options@[i as int]@, options@[i as int]@)));
        assert(choice_views(list@) =~= base + labelled(views(options@).take(i + 1)));
        i = i + 1;
    }
    assert(views(options@).take(i as int) =~= views(options@));
}

/// The options to choose from when a field is edited, each with its label.
pub fn edit_choices(feature: &FeatureMetadata) -> (list: Vec<(String, String)>)
    ensures
        choice_views(list@) == choices(feature@),
{
    let mut list: Vec<(String, String)> = Vec::new();
    assert(choice_views(list@) =~= Seq::empty());
    match &feature.ui_type {
        UiTypeDef::Text => {},
        UiTypeDef::Dropdown { options } => {
            if !feature.required {
                list.push((String::new(), "—".to_owned()));
                assert(choice_views(list@) =~= seq![(Seq::<char>::empty(), "—"@)]);
            }
            push_options(&mut list, options);
        },
        UiTypeDef::Unit { name: _, options } => {
            list.push((String::new(), "—".to_owned()));
            assert(choice_views(list@) =~= seq![(Seq::<char>::empty(), "—"@)]);
            push_options(&mut list, options);
        },
    }
    list
}

/// A required field with a list of options cannot be blanked unless one of
/// its options is blank.
pub proof fn law_required_not_blank(f: FeatureView, i: int)
    requires
        f.required,
        f.ui_type is Dropdown,
        forall|k: int|
            0 <= k < f.ui_type->Dropdown_options.len() ==> (
            #[trigger] f.ui_type->Dropdown_options[k]).len() > 0,
        0 <= i < choices(f).len(),
    ensures
        choices(f)[i].0.len() > 0,
{
    assert(choices(f)[i].0 == f.ui_type->Dropdown_options[i]);
}

/// The title is not repeated among the fields below it, and there are no more
/// of these than there is room for.
pub proof fn law_row_fields(features: Seq<FeatureView>)
    ensures
        row_fields(features).len() <= ROW_FIELDS,
        forall|i: int|
            0 <= i < row_fields(features).len() ==> !is_title(#[trigger] row_fields(features)[i]),
{
    let other = |f: FeatureView| !is_title(f);
    let kept = features.filter(other);
    assert forall|i: int| 0 <= i < kept.len() implies !is_title(#[trigger] kept[i]) by {
        features.lemma_filter_pred(other, i);
    }
}

/// A value is shown as it is, and a dash where it is empty.
pub proof fn law_shown(value: Seq<char>)
    ensures
        value.len() > 0 ==> shown(value) == value,
        value.len() == 0 ==> shown(value) == "—"@,
{
}

/// The title is the value of the first field that is marked as the title, and of
/// `title` where none is.
pub proof fn law_title_of(features: Seq<FeatureView>, model: ModelView, i: int)
    requires
        0 <= i <= features.len(),
        forall|j: int| 0 <= j < i ==> (#[trigger] features[j]).system_title != Some(true),
        i < features.len() ==> features[i].system_title == Some(true),
    ensures
        ({
            let id = if i < features.len() {
                features[i].id
            } else {
                "title"@
            };
            &&& model.fields.contains_key(id) ==> title_of(features, model) == model.fields[id]
            &&& !model.fields.contains_key(id) ==> title_of(features, model).len() == 0
        }),
{
    law_title_is_first_marked(features);
    if i < features.len() {
        assert(features[i].system_title == Some(true));
    }
}

/// The number of fields that are not marked as the title.
pub open spec fn untitled_count(features: Seq<FeatureView>) -> nat {
    features.filter(|f: FeatureView| !is_title(f)).len()
}

/// A field counts unless it is marked as the title.
pub proof fn law_untitled_count(features: Seq<FeatureView>, f: FeatureView)
    ensures
        untitled_count(Seq::empty()) == 0,
        untitled_count(features.push(f)) == untitled_count(features) + if f.system_title == Some(
            true,
        ) {
            0nat
        } else {
            1nat
        },
{
    assert(Seq::<FeatureView>::empty().filter(|f: FeatureView| !is_title(f)) =~= Seq::empty());
    features.lemma_filter_push(f, |f: FeatureView| !is_title(f));
}

/// A field adds its label and its value after the lines of the fields before it.
/// It adds none if it is marked as the title, if two other fields come before
/// it, or if it has no value or only a dash.
pub proof fn law_field_lines(features: Seq<FeatureView>, f: FeatureView, model: ModelView)
    ensures
        field_lines(Seq::empty(), model).len() == 0,
        ({
            let before = field_lines(features, model);
            let after = field_lines(features.push(f), model);
            let hidden = f.system_title == Some(true) || untitled_count(features) >= 2
                || !model.fields.contains_key(f.id) || model.fields[f.id].len() == 0
                || model.fields[f.id] == "—"@;
            &&& hidden ==> after == before
            &&& !hidden ==> after == before.push(f.label + ": "@ + model.fields[f.id])
        }),
{
    let other = |f: FeatureView| !is_title(f);
    let line = |f: FeatureView| field_line(f, model);
    let none = Seq::<FeatureView>::empty();
    assert(none.filter(other) =~= none);
    assert(row_fields(none) =~= none);
    assert(field_lines(none, model) =~= Seq::empty());
    let kept = features.filter(other);
    features.lemma_filter_push(f, other);
    let all = features.push(f).filter(other);
    if is_title(f) || kept.len() >= 2 {
        assert(row_fields(features.push(f)) =~= row_fields(features));
    } else {
        assert(all == kept.push(f));
        assert(row_fields(features) =~= kept);
        assert(row_fields(features.push(f)) =~= all);
        all.lemma_filter_map_take_succ(line, kept.len() as int);
        assert(all.take(kept.len() as int) =~= kept);
        assert(all.take(kept.len() as int + 1) =~= all);
        assert(field_lines(features, model) == kept.filter_map(line));
        match field_line(f, model) {
            Some(text) => {
                assert(all.filter_map(line) =~= kept.filter_map(line).push(text));
            },
            None => {
                assert(all.filter_map(line) =~= kept.filter_map(line));
            },
        }
    }
}

/// The choices are the options of the field, in order, each under its own name.
/// The blank one comes before them, except for a required field with a list of
/// options. A field of free text has none.
pub proof fn law_choices(f: FeatureView)
    ensures
        match f.ui_type {
            UiTypeView::Text => choices(f).len() == 0,
            UiTypeView::Dropdown { options } => {
                let start: int = if f.required {
                    0
                } else {
                    1
                };
                &&& choices(f).len() == start + options.len()
                &&& !f.required ==> choices(f)[0] == (Seq::<char>::empty(), "—"@)
                &&& forall|i: int|
                    0 <= i < options.len() ==> choices(f)[start + i] == (
                        #[trigger] options[i],
                        options[i],
                    )
            },
            UiTypeView::Unit { name: _, options } => {
                &&& choices(f).len() == 1 + options.len()
                &&& choices(f)[0] == (Seq::<char>::empty(), "—"@)
                &&& forall|i: int|
                    0 <= i < options.len() ==> choices(f)[1 + i] == (
                        #[trigger] options[i],
                        options[i],
                    )
            },
        },
{
}

/// The values and labels of some choices are those of each of them, in order.
pub proof fn law_choice_views(list: Seq<(String, String)>)
    ensures
        choice_views(list).len() == list.len(),
        forall|i: int|
            0 <= i < list.len() ==> #[trigger] choice_views(list)[i] == (list[i].0@, list[i].1@),
{
}

} // verus!
